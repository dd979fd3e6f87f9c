use generate_icons::catalog::{
    constant_name, largest_of, largest_variants, last_occurrences, parse_size, MaterialIcon,
};
use generate_icons::emit::{Icon, Implement};
use generate_icons::parse::parse_icon;
use generate_icons::shape::KurboShape;

fn strings(v: &[&str]) -> Vec<String> {
    v.iter().map(|s| s.to_string()).collect()
}

#[test]
fn constant_name_spells_out_leading_three() {
    assert_eq!(constant_name("3D_ROTATION"), "THREE_D_ROTATION");
    assert_eq!(constant_name("ADD_CIRCLE"), "ADD_CIRCLE");
    assert_eq!(constant_name(""), "");
    assert_eq!(constant_name("4K"), "FOUR_K");
    assert_eq!(constant_name("0"), "ZERO_");
}

#[test]
fn material_icon_names() {
    let icon = MaterialIcon { category: "action".to_string(), prefix: "add_circle".to_string(), size: 24 };
    assert_eq!(icon.const_name(), "ADD_CIRCLE");
    let icon = MaterialIcon { category: "action".to_string(), prefix: "3d_rotation".to_string(), size: 24 };
    assert_eq!(icon.const_name(), "THREE_D_ROTATION");
}

#[test]
fn material_icon_path_uses_size_text() {
    let icon = MaterialIcon { category: "action".to_string(), prefix: "add".to_string(), size: 48 };
    assert_eq!(icon.path(), "../material-design-icons/action/svg/production/ic_add_48px.svg");
    assert_eq!(icon.size().render(), "Size { width: 48.00, height: 48.00 }");
}

#[test]
fn parse_size_digits() {
    assert_eq!(parse_size("24"), Some(24));
    assert_eq!(parse_size("4294967295"), Some(u32::MAX));
    assert_eq!(parse_size("4294967296"), None);
    assert_eq!(parse_size(""), None);
    assert_eq!(parse_size("2a"), None);
}

#[test]
fn largest_variant_wins() {
    let files = strings(&[
        "ic_add_24px.svg",
        "ic_add_48px.svg",
        "ic_add_18px.svg",
        "ic_close_24px.svg",
        "readme.txt",
        "ic_add_circle_36px.svg",
        "ic_odd_xpx.svg",
    ]);
    let r = largest_variants(&files).unwrap();
    assert_eq!(
        r,
        vec![("add".to_string(), 48), ("close".to_string(), 24), ("add_circle".to_string(), 36)]
    );
    assert!(largest_variants(&Vec::new()).unwrap().is_empty());
    assert_eq!(largest_variants(&strings(&["ic_a_24px.svg", "ic_b_99999999999px.svg"])), None);
}

#[test]
fn largest_of_fails_on_unreadable_sizes() {
    let bad = vec![("a".to_string(), "12".to_string()), ("a".to_string(), "99999999999".to_string())];
    assert_eq!(largest_of(&bad), None);
    let parts = vec![
        ("a".to_string(), "12".to_string()),
        ("b".to_string(), "7".to_string()),
        ("a".to_string(), "3".to_string()),
    ];
    assert_eq!(largest_of(&parts), Some(vec![("a".to_string(), 12), ("b".to_string(), 7)]));
}

#[test]
fn later_duplicate_names_win() {
    assert_eq!(last_occurrences(&strings(&["A", "B", "A"])), vec![1, 2]);
    assert_eq!(last_occurrences(&strings(&["A", "A", "A"])), vec![2]);
    assert!(last_occurrences(&Vec::new()).is_empty());
}

#[test]
fn implement_renders_icon_declaration() {
    let icon = MaterialIcon { category: "image".to_string(), prefix: "3d_rotation".to_string(), size: 24 };
    let text = r#"<svg width="24" height="24"><circle cx="12" cy="12" r="2.5"/></svg>"#;
    let shapes: Vec<KurboShape> = parse_icon(text, &icon.size()).unwrap();
    let out = Implement::new(&icon).render(&shapes).unwrap();
    assert!(out.starts_with("\npub const THREE_D_ROTATION: IconShapes = IconShapes {"));
    assert!(out.contains("radius: 2.50 })"));
    assert!(out.contains("size: Size { width: 24.00, height: 24.00 },"));
}
