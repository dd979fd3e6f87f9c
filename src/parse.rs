//! Reading an icon: checking the declared size of a document and turning each of its
//! children into a shape.
use vstd::prelude::*;
use vstd::string::*;
use crate::markup::{
    Element, Markup, RawEl, RawPoint, attribute_value, has_arc_command, markup_of, path_data_of,
    read_markup, read_path_data, same_text,
};
use crate::number::{Decimal, decimal_of, number_of, parse_decimal, parse_number};
use crate::shape::{IconSize, KurboEl, KurboPoint, KurboShape, KurboSize, size_text};

verus! {

/// Why an icon could not be read.
#[derive(Clone, Copy, Debug, PartialEq, Eq, Structural)]
pub enum IconError {
    /// The text is not a well-formed document.
    Malformed,
    /// The root element is not `svg`.
    NotSvg,
    /// The root element lacks `width` or `height`.
    MissingSize,
    /// The declared size differs from the size the icon is expected to have.
    SizeMismatch,
    /// A child of the root is neither a `circle` nor a `path` element.
    UnsupportedElement,
    /// A recognised element lacks a required attribute.
    MissingAttribute,
    /// A circle attribute is not a number in range.
    BadNumber,
    /// Path data is malformed, or holds a coordinate out of range.
    BadPathData,
    /// Path data holds an arc command, which the supported grammar leaves out.
    ArcCommand,
}

pub open spec fn point_of(p: RawPoint) -> Option<KurboPoint> {
    match (decimal_of(p.x@), decimal_of(p.y@)) {
        (Some(x), Some(y)) => Some(KurboPoint { x, y }),
        _ => None,
    }
}

pub open spec fn el_of(e: RawEl) -> Option<KurboEl> {
    match e {
        RawEl::MoveTo(a) => match point_of(a) {
            Some(a) => Some(KurboEl::MoveTo(a)),
            None => None,
        },
        RawEl::LineTo(a) => match point_of(a) {
            Some(a) => Some(KurboEl::LineTo(a)),
            None => None,
        },
        RawEl::QuadTo(a, b) => match (point_of(a), point_of(b)) {
            (Some(a), Some(b)) => Some(KurboEl::QuadTo(a, b)),
            _ => None,
        },
        RawEl::CurveTo(a, b, c) => match (point_of(a), point_of(b), point_of(c)) {
            (Some(a), Some(b), Some(c)) => Some(KurboEl::CurveTo(a, b, c)),
            _ => None,
        },
        RawEl::ClosePath => Some(KurboEl::ClosePath),
    }
}

/// Whether every raw element converts, and `els` holds the conversions in order.
pub open spec fn els_convert(raw: Seq<RawEl>, els: Seq<KurboEl>) -> bool {
    raw.len() == els.len() && forall|i: int| 0 <= i < raw.len() ==> el_of(#[trigger] raw[i]) == Some(els[i])
}

pub open spec fn all_convert(raw: Seq<RawEl>) -> bool {
    forall|i: int| 0 <= i < raw.len() ==> (#[trigger] el_of(raw[i])) is Some
}

/// The number an attribute holds, or why it holds none.
pub open spec fn decimal_attr(el: Element, name: Seq<char>) -> Result<Decimal, IconError> {
    match attribute_value(el.attributes@, name) {
        None => Err(IconError::MissingAttribute),
        Some(v) => match number_of(v@) {
            Some(d) => Ok(d),
            None => Err(IconError::BadNumber),
        },
    }
}

/// The circle an element with `cx`, `cy` and `r` denotes, or the first reason, in that
/// order of attributes, why it denotes none.
pub open spec fn circle_of(el: Element) -> Result<KurboShape, IconError> {
    match (decimal_attr(el, "cx"@), decimal_attr(el, "cy"@), decimal_attr(el, "r"@)) {
        (Ok(x), Ok(y), Ok(radius)) => Ok(KurboShape::Circle { center: KurboPoint { x, y }, radius }),
        (Err(e), _, _) => Err(e),
        (_, Err(e), _) => Err(e),
        (_, _, Err(e)) => Err(e),
    }
}

/// Whether `r` is the outcome of reading a `path` element. Path data may use move, line,
/// quadratic, cubic and close commands; arc commands are refused.
pub open spec fn path_outcome(el: Element, r: Result<KurboShape, IconError>) -> bool {
    match attribute_value(el.attributes@, "d"@) {
        None => r == Err::<KurboShape, IconError>(IconError::MissingAttribute),
        Some(d) => if has_arc_command(d@) {
            r == Err::<KurboShape, IconError>(IconError::ArcCommand)
        } else {
            match path_data_of(d@) {
                None => r == Err::<KurboShape, IconError>(IconError::BadPathData),
                Some(raw) => match r {
                    Ok(s) => match s {
                        KurboShape::BezPath(els) => els_convert(raw@, els@),
                        _ => false,
                    },
                    Err(e) => e == IconError::BadPathData && !all_convert(raw@),
                },
            }
        },
    }
}

/// Whether `r` is an outcome of reading an element as a shape: a `circle`, a `path`, or
/// nothing else.
pub open spec fn shape_outcome(el: Element, r: Result<KurboShape, IconError>) -> bool {
    if el.tag@ == "circle"@ {
        r == circle_of(el)
    } else if el.tag@ == "path"@ {
        path_outcome(el, r)
    } else {
        r == Err::<KurboShape, IconError>(IconError::UnsupportedElement)
    }
}

/// The size attributes by the size-formatting rule: one value when both texts agree.
pub open spec fn declared_size_text(width: Seq<char>, height: Seq<char>) -> Seq<char> {
    if width == height {
        width
    } else {
        width + "x"@ + height
    }
}

/// The element children, in order: text, comments and other nodes without a tag name are
/// left out.
pub open spec fn elements_of(children: Seq<Element>) -> Seq<Element>
    decreases children.len(),
{
    if children.len() == 0 {
        seq![]
    } else {
        let rest = elements_of(children.drop_last());
        if children.last().tag@.len() > 0 {
            rest.push(children.last())
        } else {
            rest
        }
    }
}

/// Whether reading an element can give a shape.
pub open spec fn denotes_shape(el: Element) -> bool {
    exists|s: KurboShape| shape_outcome(el, Ok(s))
}

/// Whether `r` is an outcome of reading the element children of a root, in order: all
/// shapes, or the error of the first element that denotes none.
pub open spec fn children_outcome(children: Seq<Element>, r: Result<Vec<KurboShape>, IconError>) -> bool {
    let els = elements_of(children);
    match r {
        Ok(v) => v@.len() == els.len() && forall|i: int|
            0 <= i < els.len() ==> shape_outcome(#[trigger] els[i], Ok(v@[i])),
        Err(e) => exists|i: int|
            0 <= i < els.len() && shape_outcome(#[trigger] els[i], Err(e)) && forall|j: int|
                0 <= j < i ==> denotes_shape(#[trigger] els[j]),
    }
}

/// Whether `r` is an outcome of reading an icon of the expected size from a document.
pub open spec fn markup_outcome(m: Markup, size: KurboSize, r: Result<Vec<KurboShape>, IconError>) -> bool {
    if m.root.tag@ != "svg"@ {
        r == Err::<Vec<KurboShape>, IconError>(IconError::NotSvg)
    } else {
        match (
            attribute_value(m.root.attributes@, "width"@),
            attribute_value(m.root.attributes@, "height"@),
        ) {
            (Some(w), Some(h)) => if declared_size_text(w@, h@) != size_text(size) {
                r == Err::<Vec<KurboShape>, IconError>(IconError::SizeMismatch)
            } else {
                children_outcome(m.children@, r)
            },
            _ => r == Err::<Vec<KurboShape>, IconError>(IconError::MissingSize),
        }
    }
}

/// Whether `r` is an outcome of reading an icon of the expected size from `text`.
pub open spec fn icon_outcome(text: Seq<char>, size: KurboSize, r: Result<Vec<KurboShape>, IconError>) -> bool {
    match markup_of(text) {
        None => r == Err::<Vec<KurboShape>, IconError>(IconError::Malformed),
        Some(m) => markup_outcome(m, size, r),
    }
}

fn convert_point(p: &RawPoint) -> (r: Option<KurboPoint>)
    ensures
        r == point_of(*p),
        r matches Some(q) ==> q.wf(),
{
    let x = parse_decimal(p.x.as_str());
    let y = parse_decimal(p.y.as_str());
    match (x, y) {
        (Some(x), Some(y)) => Some(KurboPoint { x, y }),
        _ => None,
    }
}

fn convert_el(e: &RawEl) -> (r: Option<KurboEl>)
    ensures
        r == el_of(*e),
        r matches Some(q) ==> q.wf(),
{
    match e {
        RawEl::MoveTo(a) => match convert_point(a) {
            Some(a) => Some(KurboEl::MoveTo(a)),
            None => None,
        },
        RawEl::LineTo(a) => match convert_point(a) {
            Some(a) => Some(KurboEl::LineTo(a)),
            None => None,
        },
        RawEl::QuadTo(a, b) => match (convert_point(a), convert_point(b)) {
            (Some(a), Some(b)) => Some(KurboEl::QuadTo(a, b)),
            _ => None,
        },
        RawEl::CurveTo(a, b, c) => match (convert_point(a), convert_point(b), convert_point(c)) {
            (Some(a), Some(b), Some(c)) => Some(KurboEl::CurveTo(a, b, c)),
            _ => None,
        },
        RawEl::ClosePath => Some(KurboEl::ClosePath),
    }
}

/// Turns parsed path data into path elements with exact coordinates; `None` when a
/// coordinate is out of range.
pub fn convert_path(raw: &Vec<RawEl>) -> (r: Option<Vec<KurboEl>>)
    ensures
        match r {
            Some(els) => els_convert(raw@, els@) && forall|i: int|
                0 <= i < els@.len() ==> #[trigger] els@[i].wf(),
            None => !all_convert(raw@),
        },
{
    let mut els: Vec<KurboEl> = Vec::new();
    let mut i: usize = 0;
    while i < raw.len()
        invariant
            i <= raw@.len(),
            els@.len() == i,
            forall|j: int| 0 <= j < i ==> el_of(#[trigger] raw@[j]) == Some(els@[j]),
            forall|j: int| 0 <= j < i ==> #[trigger] els@[j].wf(),
        decreases raw@.len() - i,
    {
        match convert_el(&raw[i]) {
            Some(e) => els.push(e),
            None => return None,
        }
        i = i + 1;
    }
    Some(els)
}

/// Whether path data holds an arc command.
fn has_arc(d: &str) -> (r: bool)
    ensures
        r == has_arc_command(d@),
{
    let n = d.unicode_len();
    let mut i: usize = 0;
    while i < n
        invariant
            n == d@.len(),
            i <= n,
            forall|j: int| 0 <= j < i ==> d@[j] != 'a' && d@[j] != 'A',
        decreases n - i,
    {
        let c = d.get_char(i);
        if c == 'a' || c == 'A' {
            return true;
        }
        i = i + 1;
    }
    false
}

fn decimal_attribute(el: &Element, name: &str) -> (r: Result<Decimal, IconError>)
    ensures
        r == decimal_attr(*el, name@),
        r matches Ok(d) ==> d.wf(),
{
    match el.attribute(name) {
        None => Err(IconError::MissingAttribute),
        Some(v) => match parse_number(v.as_str()) {
            Some(d) => Ok(d),
            None => Err(IconError::BadNumber),
        },
    }
}

impl KurboShape {
    /// The shape that a child of the root denotes: a `circle` with `cx`, `cy` and `r`, or
    /// a `path` with `d`. Any other node is refused.
    pub fn from_svg(input: &Element) -> (r: Result<KurboShape, IconError>)
        ensures
            shape_outcome(*input, r),
            r matches Ok(s) ==> s.wf(),
    {
        proof {
            reveal_strlit("circle");
            reveal_strlit("path");
            reveal_strlit("cx");
            reveal_strlit("cy");
            reveal_strlit("r");
            reveal_strlit("d");
        }
        if same_text(input.tag.as_str(), "circle") {
            let cx = decimal_attribute(input, "cx");
            let cy = decimal_attribute(input, "cy");
            let r = decimal_attribute(input, "r");
            match (cx, cy, r) {
                (Ok(x), Ok(y), Ok(radius)) => Ok(
                    KurboShape::Circle { center: KurboPoint { x, y }, radius },
                ),
                (Err(e), _, _) => Err(e),
                (_, Err(e), _) => Err(e),
                (_, _, Err(e)) => Err(e),
            }
        } else if same_text(input.tag.as_str(), "path") {
            match input.attribute("d") {
                None => Err(IconError::MissingAttribute),
                Some(d) => if has_arc(d.as_str()) {
                    Err(IconError::ArcCommand)
                } else {
                    match read_path_data(d.as_str()) {
                    None => Err(IconError::BadPathData),
                    Some(raw) => match convert_path(&raw) {
                        Some(els) => Ok(KurboShape::BezPath(els)),
                        None => Err(IconError::BadPathData),
                    },
                    }
                },
            }
        } else {
            Err(IconError::UnsupportedElement)
        }
    }
}

/// Reads the shapes of an icon from a parsed document. The root must be an `svg` element
/// whose `width` and `height`, by the size-formatting rule, read as the expected size; each
/// element child of the root must denote a shape. The first fault ends reading.
pub fn parse_markup(markup: &Markup, size: &KurboSize) -> (r: Result<Vec<KurboShape>, IconError>)
    requires
        size.wf(),
    ensures
        markup_outcome(*markup, *size, r),
        r matches Ok(v) ==> forall|i: int| 0 <= i < v@.len() ==> #[trigger] v@[i].wf(),
{
    proof {
        reveal_strlit("svg");
        reveal_strlit("width");
        reveal_strlit("height");
        reveal_strlit("x");
    }
    if !same_text(markup.root.tag.as_str(), "svg") {
        return Err(IconError::NotSvg);
    }
    let (w, h) = match (markup.root.attribute("width"), markup.root.attribute("height")) {
        (Some(w), Some(h)) => (w, h),
        _ => return Err(IconError::MissingSize),
    };
    let mut declared = String::new();
    declared.append(w.as_str());
    if !same_text(w.as_str(), h.as_str()) {
        declared.append("x");
        declared.append(h.as_str());
    }
    assert(declared@ =~= declared_size_text(w@, h@));
    let expected = IconSize::new(*size).render();
    if !same_text(declared.as_str(), expected.as_str()) {
        return Err(IconError::SizeMismatch);
    }
    let ghost children = markup.children@;
    let mut shapes: Vec<KurboShape> = Vec::new();
    let mut i: usize = 0;
    while i < markup.children.len()
        invariant
            markup.root.tag@ == "svg"@,
            attribute_value(markup.root.attributes@, "width"@) == Some(*w),
            attribute_value(markup.root.attributes@, "height"@) == Some(*h),
            declared_size_text(w@, h@) == size_text(*size),
            children == markup.children@,
            i <= children.len(),
            shapes@.len() == elements_of(children.take(i as int)).len(),
            forall|j: int|
                0 <= j < shapes@.len() ==> shape_outcome(
                    #[trigger] elements_of(children.take(i as int))[j],
                    Ok(shapes@[j]),
                ),
            forall|j: int| 0 <= j < shapes@.len() ==> #[trigger] shapes@[j].wf(),
        decreases children.len() - i,
    {
        let ghost before = elements_of(children.take(i as int));
        assert(children.take(i + 1).drop_last() =~= children.take(i as int));
        assert(children.take(i + 1).last() == children[i as int]);
        if markup.children[i].tag.unicode_len() > 0 {
            let ghost after = elements_of(children.take(i + 1));
            assert(after == before.push(children[i as int]));
            match KurboShape::from_svg(&markup.children[i]) {
                Ok(s) => shapes.push(s),
                Err(e) => {
                    let r = Err(e);
                    let ghost k = before.len() as int;
                    assert(elements_of(children) == after + elements_of(children.skip(i + 1))) by {
                        lemma_elements_of_append(children.take(i + 1), children.skip(i + 1));
                        assert(children.take(i + 1) + children.skip(i + 1) =~= children);
                    }
                    let ghost all = elements_of(children);
                    assert(after.len() == k + 1);
                    assert(all[k] == after[k]);
                    assert(all[k] == children[i as int]);
                    assert(shape_outcome(all[k], Err(e)));
                    assert forall|j: int| 0 <= j < k implies denotes_shape(#[trigger] all[j]) by {
                        assert(all[j] == before[j]);
                        assert(shape_outcome(before[j], Ok(shapes@[j])));
                    }
                    assert(0 <= k < all.len());
                    assert(children_outcome(children, r));
                    return r;
                },
            }
        } else {
            assert(elements_of(children.take(i + 1)) == before);
        }
        i = i + 1;
    }
    assert(children.take(i as int) =~= children);
    Ok(shapes)
}

proof fn lemma_elements_of_append(a: Seq<Element>, b: Seq<Element>)
    ensures
        elements_of(a + b) == elements_of(a) + elements_of(b),
    decreases b.len(),
{
    if b.len() == 0 {
        assert(a + b =~= a);
        assert(elements_of(a) + elements_of(b) =~= elements_of(a));
    } else {
        lemma_elements_of_append(a, b.drop_last());
        assert((a + b).drop_last() =~= a + b.drop_last());
        assert((a + b).last() == b.last());
        if b.last().tag@.len() > 0 {
            assert(elements_of(a + b) =~= elements_of(a) + elements_of(b));
        } else {
            assert(elements_of(a + b) =~= elements_of(a) + elements_of(b));
        }
    }
}

/// Reads the shapes of an icon from markup text: the text must be a well-formed document,
/// which `parse_markup` then reads.
pub fn parse_icon(text: &str, size: &KurboSize) -> (r: Result<Vec<KurboShape>, IconError>)
    requires
        size.wf(),
    ensures
        icon_outcome(text@, *size, r),
        r matches Ok(v) ==> forall|i: int| 0 <= i < v@.len() ==> #[trigger] v@[i].wf(),
{
    match read_markup(text) {
        None => Err(IconError::Malformed),
        Some(m) => parse_markup(&m, size),
    }
}

/// Reading never coerces a size: it succeeds only where the document's `width` and
/// `height`, by the size-formatting rule, read exactly as the expected size.
pub proof fn lemma_size_mismatch_fails(
    text: Seq<char>,
    size: KurboSize,
    r: Result<Vec<KurboShape>, IconError>,
)
    requires
        icon_outcome(text, size, r),
    ensures
        r is Ok ==> (markup_of(text) matches Some(m) && match (
            attribute_value(m.root.attributes@, "width"@),
            attribute_value(m.root.attributes@, "height"@),
        ) {
            (Some(w), Some(h)) => declared_size_text(w@, h@) == size_text(size),
            _ => false,
        }),
{
}

/// An element child of the root that is neither a `circle` nor a `path` always makes
/// reading fail.
pub proof fn lemma_unsupported_element_fails(
    text: Seq<char>,
    size: KurboSize,
    r: Result<Vec<KurboShape>, IconError>,
    i: int,
)
    requires
        icon_outcome(text, size, r),
        (markup_of(text) matches Some(m) && 0 <= i < elements_of(m.children@).len() && elements_of(
            m.children@,
        )[i].tag@ != "circle"@ && elements_of(m.children@)[i].tag@ != "path"@),
    ensures
        r is Err,
{
    let m = markup_of(text)->Some_0;
    if r is Ok {
        let els = elements_of(m.children@);
        assert(shape_outcome(els[i], Ok(r->Ok_0@[i])));
    }
}

} // verus!
