//! The parts of a markup document that icon reading looks at, and path data as text,
//! both obtained from outside parsers.
use vstd::prelude::*;
use vstd::string::*;
use kurbo::PathEl;

verus! {

/// An attribute of an element: its local name and value.
#[derive(Debug)]
pub struct Attribute {
    pub name: String,
    pub value: String,
}

/// A node of the document: its local tag name (empty for text and other non-elements)
/// and its attributes in document order.
#[derive(Debug)]
pub struct Element {
    pub tag: String,
    pub attributes: Vec<Attribute>,
}

/// The root element of a document and its child nodes in document order.
#[derive(Debug)]
pub struct Markup {
    pub root: Element,
    pub children: Vec<Element>,
}

/// A point of path data, each coordinate in shortest decimal text.
#[derive(Debug)]
pub struct RawPoint {
    pub x: String,
    pub y: String,
}

/// One element of parsed path data, in absolute coordinates.
#[derive(Debug)]
pub enum RawEl {
    MoveTo(RawPoint),
    LineTo(RawPoint),
    QuadTo(RawPoint, RawPoint),
    CurveTo(RawPoint, RawPoint, RawPoint),
    ClosePath,
}

/// The document that markup text parses to, if it is well-formed.
pub uninterp spec fn markup_of(text: Seq<char>) -> Option<Markup>;

/// The path elements that path data without arcs parses to, if it is well-formed.
pub uninterp spec fn path_data_of(d: Seq<char>) -> Option<Vec<RawEl>>;

/// Whether path data holds an arc command.
pub open spec fn has_arc_command(d: Seq<char>) -> bool {
    exists|i: int| 0 <= i < d.len() && (d[i] == 'a' || d[i] == 'A')
}

/// Relies on roxmltree::Document::parse, with Node::tag_name, Node::attributes and
/// Node::children, to read the root element and its children.
#[verifier::external_body]
pub(crate) fn read_markup(text: &str) -> (r: Option<Markup>)
    ensures
        r == markup_of(text@),
{
    let doc = roxmltree::Document::parse(text).ok()?;
    let convert = |n: roxmltree::Node| Element {
        tag: n.tag_name().name().to_string(),
        attributes: n.attributes().map(|a| Attribute {
            name: a.name().to_string(),
            value: a.value().to_string(),
        }).collect(),
    };
    let root = doc.root_element();
    Some(Markup { root: convert(root), children: root.children().map(convert).collect() })
}

/// Relies on kurbo::BezPath::from_svg to parse path data without arc commands (whose
/// conversion to curves may panic or run out of memory); coordinates are handed back in
/// their shortest decimal text.
#[verifier::external_body]
pub(crate) fn read_path_data(d: &str) -> (r: Option<Vec<RawEl>>)
    requires
        !has_arc_command(d@),
    ensures
        r == path_data_of(d@),
{
    let path = kurbo::BezPath::from_svg(d).ok()?;
    let pt = |p: kurbo::Point| RawPoint { x: p.x.to_string(), y: p.y.to_string() };
    Some(path.elements().iter().map(|el| match *el {
        PathEl::MoveTo(a) => RawEl::MoveTo(pt(a)),
        PathEl::LineTo(a) => RawEl::LineTo(pt(a)),
        PathEl::QuadTo(a, b) => RawEl::QuadTo(pt(a), pt(b)),
        PathEl::CurveTo(a, b, c) => RawEl::CurveTo(pt(a), pt(b), pt(c)),
        PathEl::ClosePath => RawEl::ClosePath,
    }).collect())
}

/// Whether two texts are equal, character by character.
pub fn same_text(a: &str, b: &str) -> (r: bool)
    ensures
        r == (a@ == b@),
{
    let n = a.unicode_len();
    if n != b.unicode_len() {
        return false;
    }
    let mut i: usize = 0;
    while i < n
        invariant
            n == a@.len(),
            n == b@.len(),
            i <= n,
            forall|j: int| 0 <= j < i ==> a@[j] == b@[j],
        decreases n - i,
    {
        if a.get_char(i) != b.get_char(i) {
            return false;
        }
        i = i + 1;
    }
    assert(a@ =~= b@);
    true
}

pub open spec fn attribute_matches(a: Attribute, name: Seq<char>) -> bool {
    a.name@ == name
}

/// The value of the first attribute that has the given local name, whatever its namespace.
pub open spec fn attribute_value(attrs: Seq<Attribute>, name: Seq<char>) -> Option<String> {
    if exists|i: int|
        0 <= i < attrs.len() && attribute_matches(#[trigger] attrs[i], name) && (forall|j: int|
            0 <= j < i ==> !attribute_matches(#[trigger] attrs[j], name)) {
        let i = choose|i: int|
            0 <= i < attrs.len() && attribute_matches(#[trigger] attrs[i], name) && (forall|j: int|
                0 <= j < i ==> !attribute_matches(#[trigger] attrs[j], name));
        Some(attrs[i].value)
    } else {
        None
    }
}

impl Element {
    /// Looks up an attribute by its local name.
    pub fn attribute(&self, name: &str) -> (r: Option<&String>)
        ensures
            match r {
                Some(v) => attribute_value(self.attributes@, name@) == Some(*v),
                None => attribute_value(self.attributes@, name@) is None,
            },
    {
        let ghost attrs = self.attributes@;
        let mut i: usize = 0;
        while i < self.attributes.len()
            invariant
                attrs == self.attributes@,
                i <= attrs.len(),
                forall|j: int| 0 <= j < i ==> !attribute_matches(#[trigger] attrs[j], name@),
            decreases attrs.len() - i,
        {
            let a = &self.attributes[i];
            if same_text(a.name.as_str(), name) {
                assert(attribute_matches(attrs[i as int], name@));
                let ghost k = choose|k: int|
                    0 <= k < attrs.len() && attribute_matches(#[trigger] attrs[k], name@) && (forall|j: int|
                        0 <= j < k ==> !attribute_matches(#[trigger] attrs[j], name@));
                assert(k == i) by {
                    if k < i {
                        assert(!attribute_matches(attrs[k], name@));
                    }
                    if k > i {
                        assert(!attribute_matches(attrs[i as int], name@));
                    }
                }
                return Some(&a.value);
            }
            i = i + 1;
        }
        None
    }
}

} // verus!
