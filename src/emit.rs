//! Emitting constant declarations for icons, one icon or a whole catalog.
use vstd::prelude::*;
use vstd::string::*;
use crate::shape::{KurboShape, KurboSize, shape_text, size_literal_text};

verus! {

/// What a catalog source tells of one icon: where its markup lives, the name of its
/// constant, and the size it must have.
pub trait Icon {
    /// The location of the icon's markup.
    spec fn path_view(&self) -> Seq<char>;

    /// The name of the icon's constant.
    spec fn name_view(&self) -> Seq<char>;

    /// The size the icon must have.
    spec fn size_view(&self) -> KurboSize;

    fn path(&self) -> (r: String)
        ensures
            r@ == self.path_view(),
    ;

    fn const_name(&self) -> (r: String)
        ensures
            r@ == self.name_view(),
    ;

    fn size(&self) -> (r: KurboSize)
        ensures
            r == self.size_view(),
    ;
}

/// The shape literals of an icon, each on its own line, in order.
pub open spec fn shapes_text(shapes: Seq<KurboShape>) -> Seq<char>
    decreases shapes.len(),
{
    if shapes.len() == 0 {
        seq![]
    } else {
        shapes_text(shapes.drop_last()) + "\n        "@ + shape_text(shapes.last()) + ",\n"@
    }
}

/// The constant declaration of an icon.
pub open spec fn declaration_text(name: Seq<char>, shapes: Seq<KurboShape>, size: KurboSize) -> Seq<char> {
    "\npub const "@ + name + ": IconShapes = IconShapes {\n    shapes: &["@ + shapes_text(shapes)
        + "    ],\n    size: "@ + size_literal_text(size) + ",\n};\n        "@
}

pub open spec fn all_wf(shapes: Seq<KurboShape>) -> bool {
    forall|i: int| 0 <= i < shapes.len() ==> #[trigger] shapes[i].wf()
}

/// The constant declaration of an icon named `name` with the given shapes and size.
pub fn declaration(name: &str, shapes: &Vec<KurboShape>, size: &KurboSize) -> (r: String)
    requires
        all_wf(shapes@),
        size.wf(),
    ensures
        r@ == declaration_text(name@, shapes@, *size),
{
    let mut out = String::new();
    out.append("\npub const ");
    out.append(name);
    out.append(": IconShapes = IconShapes {\n    shapes: &[");
    let ghost mid = out@;
    let mut i: usize = 0;
    while i < shapes.len()
        invariant
            i <= shapes@.len(),
            all_wf(shapes@),
            out@ == mid + shapes_text(shapes@.take(i as int)),
        decreases shapes@.len() - i,
    {
        let ghost prev = out@;
        out.append("\n        ");
        shapes[i].push_to(&mut out);
        out.append(",\n");
        assert(shapes@.take(i + 1).drop_last() =~= shapes@.take(i as int));
        assert(out@ =~= prev + "\n        "@ + shape_text(shapes@[i as int]) + ",\n"@);
        i = i + 1;
    }
    assert(shapes@.take(i as int) =~= shapes@);
    out.append("    ],\n    size: ");
    size.push_to(&mut out);
    out.append(",\n};\n        ");
    assert(out@ =~= declaration_text(name@, shapes@, *size));
    out
}

/// Pairs an icon with the emitter of its declaration.
pub struct Implement<'a, I: Icon>(pub &'a I);

impl<'a, I: Icon> Implement<'a, I> {
    pub fn new(icon: &'a I) -> (r: Self)
        ensures
            r.0 == icon,
    {
        Implement(icon)
    }

    /// The declaration of the icon with the given shapes, under the name and size the icon
    /// reports; `None` when the reported size is out of range.
    pub fn render(&self, shapes: &Vec<KurboShape>) -> (r: Option<String>)
        requires
            all_wf(shapes@),
        ensures
            r is Some <==> self.0.size_view().wf(),
            r matches Some(text) ==> text@ == declaration_text(
                self.0.name_view(),
                shapes@,
                self.0.size_view(),
            ),
    {
        let name = self.0.const_name();
        let size = self.0.size();
        if size.is_valid() {
            Some(declaration(name.as_str(), shapes, &size))
        } else {
            None
        }
    }
}

/// One icon of a catalog, ready to be emitted.
#[derive(Debug)]
pub struct IconEntry {
    pub name: String,
    pub shapes: Vec<KurboShape>,
    pub size: KurboSize,
}

impl IconEntry {
    pub open spec fn wf(self) -> bool {
        all_wf(self.shapes@) && self.size.wf()
    }
}

/// The declaration of a catalog entry, followed by a line break.
pub open spec fn entry_text(e: IconEntry) -> Seq<char> {
    declaration_text(e.name@, e.shapes@, e.size) + "\n"@
}

/// The declarations of all entries, in the order given.
pub open spec fn catalog_text(entries: Seq<IconEntry>) -> Seq<char>
    decreases entries.len(),
{
    if entries.len() == 0 {
        seq![]
    } else {
        catalog_text(entries.drop_last()) + entry_text(entries.last())
    }
}

/// The declarations of all entries in the order given, with no entry left out or merged.
pub fn render_catalog(entries: &Vec<IconEntry>) -> (r: String)
    requires
        forall|i: int| 0 <= i < entries@.len() ==> #[trigger] entries@[i].wf(),
    ensures
        r@ == catalog_text(entries@),
{
    let mut out = String::new();
    let mut i: usize = 0;
    while i < entries.len()
        invariant
            i <= entries@.len(),
            forall|j: int| 0 <= j < entries@.len() ==> #[trigger] entries@[j].wf(),
            out@ == catalog_text(entries@.take(i as int)),
        decreases entries@.len() - i,
    {
        let e = &entries[i];
        assert(e.wf());
        let d = declaration(e.name.as_str(), &e.shapes, &e.size);
        out.append(d.as_str());
        out.append("\n");
        assert(entries@.take(i + 1).drop_last() =~= entries@.take(i as int));
        assert(out@ =~= catalog_text(entries@.take(i + 1)));
        i = i + 1;
    }
    assert(entries@.take(i as int) =~= entries@);
    out
}

proof fn lemma_catalog_append(a: Seq<IconEntry>, b: Seq<IconEntry>)
    ensures
        catalog_text(a + b) == catalog_text(a) + catalog_text(b),
    decreases b.len(),
{
    if b.len() == 0 {
        assert(a + b =~= a);
        assert(catalog_text(b) =~= seq![]);
        assert(catalog_text(a) + catalog_text(b) =~= catalog_text(a));
    } else {
        lemma_catalog_append(a, b.drop_last());
        assert((a + b).drop_last() =~= a + b.drop_last());
        assert((a + b).last() == b.last());
        assert(catalog_text(a + b) =~= catalog_text(a) + catalog_text(b));
    }
}

proof fn lemma_catalog_single(e: IconEntry)
    ensures
        catalog_text(seq![e]) == entry_text(e),
{
    assert(seq![e].drop_last() =~= Seq::<IconEntry>::empty());
    assert(catalog_text(Seq::<IconEntry>::empty()) + entry_text(e) =~= entry_text(e));
}

/// Entries are never merged or dropped: two entries under the same name both get their
/// declaration, each in its own place.
pub proof fn lemma_catalog_keeps_duplicates(entries: Seq<IconEntry>, i: int, j: int)
    requires
        0 <= i < j < entries.len(),
        entries[i].name@ == entries[j].name@,
    ensures
        catalog_text(entries) == catalog_text(entries.take(i)) + entry_text(entries[i])
            + catalog_text(entries.subrange(i + 1, j)) + entry_text(entries[j]) + catalog_text(
            entries.skip(j + 1),
        ),
{
    let a = entries.take(i);
    let b = entries.subrange(i + 1, j);
    let c = entries.skip(j + 1);
    assert(entries =~= a + seq![entries[i]] + b + seq![entries[j]] + c);
    lemma_catalog_append(a + seq![entries[i]] + b + seq![entries[j]], c);
    lemma_catalog_append(a + seq![entries[i]] + b, seq![entries[j]]);
    lemma_catalog_append(a + seq![entries[i]], b);
    lemma_catalog_append(a, seq![entries[i]]);
    lemma_catalog_single(entries[i]);
    lemma_catalog_single(entries[j]);
}

} // verus!
