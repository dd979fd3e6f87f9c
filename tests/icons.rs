use generate_icons::emit::{declaration, render_catalog, IconEntry};
use generate_icons::markup::{Attribute, Element};
use generate_icons::number::{parse_decimal, parse_number, Decimal};
use generate_icons::parse::{parse_icon, IconError};
use generate_icons::shape::{IconSize, KurboPoint, KurboShape, KurboSize};

fn dec(s: &str) -> Decimal {
    parse_decimal(s).unwrap()
}

fn square(n: u32) -> KurboSize {
    KurboSize { width: Decimal::from_whole(n), height: Decimal::from_whole(n) }
}

fn element(tag: &str, attrs: &[(&str, &str)]) -> Element {
    Element {
        tag: tag.to_string(),
        attributes: attrs
            .iter()
            .map(|(n, v)| Attribute { name: n.to_string(), value: v.to_string() })
            .collect(),
    }
}

#[test]
fn size_text_square_is_bare_number() {
    assert_eq!(IconSize::new(square(24)).render(), "24");
    let s = KurboSize { width: dec("24.0"), height: dec("24") };
    assert_eq!(IconSize::new(s).render(), "24");
    let s = KurboSize { width: dec("0.50"), height: dec("0.5") };
    assert_eq!(IconSize::new(s).render(), "0.5");
}

#[test]
fn size_text_rectangle_is_width_x_height() {
    let s = KurboSize { width: Decimal::from_whole(24), height: Decimal::from_whole(18) };
    assert_eq!(IconSize::new(s).render(), "24x18");
    let s = KurboSize { width: dec("1.25"), height: dec("-2") };
    assert_eq!(IconSize::new(s).render(), "1.25x-2");
}

#[test]
fn size_literal_has_two_decimals() {
    assert_eq!(square(24).render(), "Size { width: 24.00, height: 24.00 }");
}

#[test]
fn decimal_parsing() {
    let d = dec("-12.50");
    assert!(d.negative);
    assert_eq!(d.magnitude, 1250);
    assert_eq!(d.scale, 2);
    assert!(parse_decimal("+.5").is_some());
    assert!(parse_decimal("").is_none());
    assert!(parse_decimal("-").is_none());
    assert!(parse_decimal(".").is_none());
    assert!(parse_decimal("1.2.3").is_none());
    assert!(parse_decimal("1e5").is_none());
    assert!(parse_decimal("abc").is_none());
    assert!(parse_decimal("999999999999999999").is_some());
    assert!(parse_decimal("1000000000000000000").is_none());
    assert!(parse_decimal("0.00000000000000000001").is_some());
    assert!(parse_decimal("0.000000000000000000000000000000000000001").is_none());
}

#[test]
fn number_parsing_with_exponent() {
    let d = parse_number("1e5").unwrap();
    assert_eq!((d.negative, d.magnitude, d.scale), (false, 100000, 0));
    let d = parse_number("-2.5E-3").unwrap();
    assert_eq!((d.negative, d.magnitude, d.scale), (true, 25, 4));
    let d = parse_number("1.25e1").unwrap();
    assert_eq!((d.negative, d.magnitude, d.scale), (false, 125, 1));
    let d = parse_number("0e99").unwrap();
    assert_eq!(d.magnitude, 0);
    assert!(parse_number("12").is_some());
    assert!(parse_number("1e").is_none());
    assert!(parse_number("e5").is_none());
    assert!(parse_number("1e5.0").is_none());
    assert!(parse_number("1e30").is_none());
    let el = element("circle", &[("cx", "1e1"), ("cy", "2"), ("r", "3")]);
    assert!(KurboShape::from_svg(&el).unwrap().render().contains("x: 10.00"));
}

#[test]
fn circle_renders_with_two_decimals() {
    let el = element("circle", &[("cx", "1"), ("cy", "2"), ("r", "3")]);
    let text = KurboShape::from_svg(&el).unwrap().render();
    assert!(text.contains("center: Point { x: 1.00, y: 2.00 }"));
    assert!(text.contains("radius: 3.00"));
    assert_eq!(
        text,
        "IconShape::Circle(Circle { center: Point { x: 1.00, y: 2.00 }, radius: 3.00 })"
    );
}

#[test]
fn circle_radius_precision_is_canonicalised() {
    let el = element("circle", &[("cx", "1"), ("cy", "2"), ("r", "3.000001")]);
    assert!(KurboShape::from_svg(&el).unwrap().render().contains("radius: 3.00 "));
    let el = element("circle", &[("cx", "1"), ("cy", "2"), ("r", "3.005")]);
    assert!(KurboShape::from_svg(&el).unwrap().render().contains("radius: 3.00 "));
    let el = element("circle", &[("cx", "1"), ("cy", "2"), ("r", "3.004999")]);
    assert!(KurboShape::from_svg(&el).unwrap().render().contains("radius: 3.00 "));
}

#[test]
fn point_rounding_and_sign() {
    let p = KurboPoint { x: dec("-0.004"), y: dec("-1.235") };
    assert_eq!(p.render(), "Point { x: -0.00, y: -1.24 }");
    let p = KurboPoint { x: dec("0.995"), y: dec("123456.7") };
    assert_eq!(p.render(), "Point { x: 0.99, y: 123456.70 }");
}

#[test]
fn halfway_values_round_as_their_double() {
    let p = KurboPoint { x: dec("2.675"), y: dec("1.005") };
    assert_eq!(p.render(), "Point { x: 2.67, y: 1.00 }");
    let p = KurboPoint { x: dec("0.125"), y: dec("0.375") };
    assert_eq!(p.render(), "Point { x: 0.12, y: 0.38 }");
    let p = KurboPoint { x: dec("-3.005"), y: dec("1.2350") };
    assert_eq!(p.render(), "Point { x: -3.00, y: 1.24 }");
    let p = KurboPoint { x: dec("0.0049"), y: dec("0.0051") };
    assert_eq!(p.render(), "Point { x: 0.00, y: 0.01 }");
}

#[test]
fn path_parses_in_order() {
    let text = r#"<svg xmlns="http://www.w3.org/2000/svg" width="24" height="24"><path d="M0,0 L10,10 Z"/></svg>"#;
    let shapes = parse_icon(text, &square(24)).unwrap();
    assert_eq!(shapes.len(), 1);
    match &shapes[0] {
        KurboShape::BezPath(els) => {
            assert_eq!(els.len(), 3);
            assert_eq!(els[0].render(), "PathEl::MoveTo(Point { x: 0.00, y: 0.00 })");
            assert_eq!(els[1].render(), "PathEl::LineTo(Point { x: 10.00, y: 10.00 })");
            assert_eq!(els[2].render(), "PathEl::ClosePath");
        }
        _ => panic!("expected a path"),
    }
    assert_eq!(
        shapes[0].render(),
        "IconShape::PathEls(&[\n            PathEl::MoveTo(Point { x: 0.00, y: 0.00 }),\n            PathEl::LineTo(Point { x: 10.00, y: 10.00 }),\n            PathEl::ClosePath,\n        ])"
    );
}

#[test]
fn relative_path_data_becomes_absolute() {
    let text = r#"<svg width="24" height="24"><path d="m1.5,1 l2,2 q1,1 2,0 c0,1 1,1 1,0z"/></svg>"#;
    let shapes = parse_icon(text, &square(24)).unwrap();
    let out = shapes[0].render();
    assert!(out.contains("PathEl::MoveTo(Point { x: 1.50, y: 1.00 })"));
    assert!(out.contains("PathEl::LineTo(Point { x: 3.50, y: 3.00 })"));
    assert!(out.contains("PathEl::QuadTo(Point { x: 4.50, y: 4.00 }, Point { x: 5.50, y: 3.00 })"));
    assert!(out.contains(
        "PathEl::CurveTo(Point { x: 5.50, y: 4.00 }, Point { x: 6.50, y: 4.00 }, Point { x: 6.50, y: 3.00 })"
    ));
}

#[test]
fn shapes_keep_document_order() {
    let text = r#"<svg width="48" height="48"><circle cx="4" cy="4" r="2"/><path d="M1,1 L2,2"/><circle cx="8" cy="8" r="1"/></svg>"#;
    let shapes = parse_icon(text, &square(48)).unwrap();
    assert_eq!(shapes.len(), 3);
    assert!(shapes[0].render().contains("x: 4.00"));
    assert!(matches!(shapes[1], KurboShape::BezPath(_)));
    assert!(shapes[2].render().contains("x: 8.00"));
}

#[test]
fn size_mismatch_fails() {
    let text = r#"<svg width="24" height="24"><circle cx="1" cy="2" r="3"/></svg>"#;
    assert_eq!(parse_icon(text, &square(48)).unwrap_err(), IconError::SizeMismatch);
    let text = r#"<svg width="24" height="18"><circle cx="1" cy="2" r="3"/></svg>"#;
    assert_eq!(parse_icon(text, &square(24)).unwrap_err(), IconError::SizeMismatch);
    let rect = KurboSize { width: Decimal::from_whole(24), height: Decimal::from_whole(18) };
    assert!(parse_icon(text, &rect).is_ok());
    let text = r#"<svg width="24" height="48"><circle cx="1" cy="2" r="3"/></svg>"#;
    assert_eq!(parse_icon(text, &square(24)).unwrap_err(), IconError::SizeMismatch);
}

#[test]
fn unsupported_element_fails() {
    let text = r#"<svg width="24" height="24"><circle cx="1" cy="2" r="3"/><rect x="0" y="0" width="1" height="1"/></svg>"#;
    assert_eq!(parse_icon(text, &square(24)).unwrap_err(), IconError::UnsupportedElement);
}

#[test]
fn whitespace_and_comments_between_elements_are_skipped() {
    let text = "<svg width=\"24\" height=\"24\">\n  <path d=\"M0,0 L1,1\"/>\n  <!-- dot -->\n  <circle cx=\"1\" cy=\"1\" r=\"1\"/>\n</svg>";
    let shapes = parse_icon(text, &square(24)).unwrap();
    assert_eq!(shapes.len(), 2);
    assert!(matches!(shapes[0], KurboShape::BezPath(_)));
    assert!(matches!(shapes[1], KurboShape::Circle { .. }));
    let text = "<svg width=\"24\" height=\"24\">\n  <rect/>\n</svg>";
    assert_eq!(parse_icon(text, &square(24)).unwrap_err(), IconError::UnsupportedElement);
}

#[test]
fn arc_path_data_is_refused() {
    let text = r#"<svg width="24" height="24"><path d="M0,0 A5,5 0 0 1 10,0 Z"/></svg>"#;
    assert_eq!(parse_icon(text, &square(24)).unwrap_err(), IconError::ArcCommand);
    let text = r#"<svg width="24" height="24"><path d="M0 0 a1 1 0 0 1 1e-200 0"/></svg>"#;
    assert_eq!(parse_icon(text, &square(24)).unwrap_err(), IconError::ArcCommand);
}

#[test]
fn each_error_kind() {
    let sz = square(24);
    assert_eq!(parse_icon("<svg width=\"24\"", &sz).unwrap_err(), IconError::Malformed);
    assert_eq!(
        parse_icon(r#"<img width="24" height="24"/>"#, &sz).unwrap_err(),
        IconError::NotSvg
    );
    assert_eq!(parse_icon(r#"<svg width="24"/>"#, &sz).unwrap_err(), IconError::MissingSize);
    assert_eq!(
        parse_icon(r#"<svg width="24" height="24"><circle cx="1" cy="2"/></svg>"#, &sz).unwrap_err(),
        IconError::MissingAttribute
    );
    assert_eq!(
        parse_icon(r#"<svg width="24" height="24"><path/></svg>"#, &sz).unwrap_err(),
        IconError::MissingAttribute
    );
    assert_eq!(
        parse_icon(r#"<svg width="24" height="24"><circle cx="a" cy="2" r="1"/></svg>"#, &sz).unwrap_err(),
        IconError::BadNumber
    );
    assert_eq!(
        parse_icon(r#"<svg width="24" height="24"><path d="M0,0 Q"/></svg>"#, &sz).unwrap_err(),
        IconError::BadPathData
    );
}

#[test]
fn attributes_match_by_local_name() {
    let text = r#"<svg xmlns:x="urn:x" width="24" height="24"><circle x:r="9" cx="1" cy="1"/></svg>"#;
    let shapes = parse_icon(text, &square(24)).unwrap();
    assert!(shapes[0].render().contains("radius: 9.00"));
}

#[test]
fn declaration_text() {
    let shapes = vec![KurboShape::Circle {
        center: KurboPoint { x: dec("1"), y: dec("2") },
        radius: dec("3"),
    }];
    let text = declaration("ADD", &shapes, &square(24));
    assert_eq!(
        text,
        "\npub const ADD: IconShapes = IconShapes {\n    shapes: &[\n        IconShape::Circle(Circle { center: Point { x: 1.00, y: 2.00 }, radius: 3.00 }),\n    ],\n    size: Size { width: 24.00, height: 24.00 },\n};\n        "
    );
    let empty = declaration("NONE", &Vec::new(), &square(18));
    assert_eq!(
        empty,
        "\npub const NONE: IconShapes = IconShapes {\n    shapes: &[    ],\n    size: Size { width: 18.00, height: 18.00 },\n};\n        "
    );
}

#[test]
fn catalog_keeps_duplicate_names() {
    let entry = |r: &str| IconEntry {
        name: "DUP".to_string(),
        shapes: vec![KurboShape::Circle { center: KurboPoint { x: dec("0"), y: dec("0") }, radius: dec(r) }],
        size: square(24),
    };
    let entries = vec![entry("1"), entry("2")];
    let out = render_catalog(&entries);
    assert_eq!(out.matches("pub const DUP:").count(), 2);
    let first = out.find("radius: 1.00").unwrap();
    let second = out.find("radius: 2.00").unwrap();
    assert!(first < second);
    assert!(render_catalog(&Vec::new()).is_empty());
}
