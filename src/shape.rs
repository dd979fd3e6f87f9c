//! The geometric model of an icon and its rendering as constant literals.
use vstd::prelude::*;
use vstd::string::*;
use crate::number::{
    lemma_plain_text_has_no_x, Decimal, fixed2_text, nat_text, plain_text, pow10, push_fixed2, push_plain, trimmed,
};

verus! {

/// A point with exact decimal coordinates.
#[derive(Clone, Copy, Debug)]
pub struct KurboPoint {
    pub x: Decimal,
    pub y: Decimal,
}

/// A width and a height.
#[derive(Clone, Copy, Debug)]
pub struct KurboSize {
    pub width: Decimal,
    pub height: Decimal,
}

/// One drawing command of a path.
#[derive(Clone, Copy, Debug)]
pub enum KurboEl {
    MoveTo(KurboPoint),
    LineTo(KurboPoint),
    QuadTo(KurboPoint, KurboPoint),
    CurveTo(KurboPoint, KurboPoint, KurboPoint),
    ClosePath,
}

/// A drawable primitive of an icon.
#[derive(Debug)]
pub enum KurboShape {
    Circle { center: KurboPoint, radius: Decimal },
    BezPath(Vec<KurboEl>),
}

/// The declared size of an icon, as used in file names and size attributes.
#[derive(Clone, Copy, Debug)]
pub struct IconSize(pub KurboSize);

pub open spec fn point_text(p: KurboPoint) -> Seq<char> {
    "Point { x: "@ + fixed2_text(p.x) + ", y: "@ + fixed2_text(p.y) + " }"@
}

pub open spec fn size_literal_text(s: KurboSize) -> Seq<char> {
    "Size { width: "@ + fixed2_text(s.width) + ", height: "@ + fixed2_text(s.height) + " }"@
}

pub open spec fn el_text(e: KurboEl) -> Seq<char> {
    match e {
        KurboEl::MoveTo(a) => "PathEl::MoveTo("@ + point_text(a) + ")"@,
        KurboEl::LineTo(a) => "PathEl::LineTo("@ + point_text(a) + ")"@,
        KurboEl::QuadTo(a, b) => "PathEl::QuadTo("@ + point_text(a) + ", "@ + point_text(b) + ")"@,
        KurboEl::CurveTo(a, b, c) => "PathEl::CurveTo("@ + point_text(a) + ", "@ + point_text(b)
            + ", "@ + point_text(c) + ")"@,
        KurboEl::ClosePath => "PathEl::ClosePath"@,
    }
}

/// The path elements, one per line, in order.
pub open spec fn els_text(els: Seq<KurboEl>) -> Seq<char>
    decreases els.len(),
{
    if els.len() == 0 {
        seq![]
    } else {
        els_text(els.drop_last()) + "\n            "@ + el_text(els.last()) + ","@
    }
}

pub open spec fn shape_text(s: KurboShape) -> Seq<char> {
    match s {
        KurboShape::Circle { center, radius } => "IconShape::Circle(Circle { center: "@ + point_text(
            center,
        ) + ", radius: "@ + fixed2_text(radius) + " })"@,
        KurboShape::BezPath(els) => "IconShape::PathEls(&["@ + els_text(els@) + "\n        ])"@,
    }
}

/// The size-formatting rule: one number for a square, `<width>x<height>` otherwise.
pub open spec fn size_text(s: KurboSize) -> Seq<char> {
    if s.width.same_value(s.height) {
        plain_text(s.width)
    } else {
        plain_text(s.width) + "x"@ + plain_text(s.height)
    }
}

impl KurboPoint {
    pub open spec fn wf(self) -> bool {
        self.x.wf() && self.y.wf()
    }

    /// Appends the point literal.
    pub fn push_to(&self, out: &mut String)
        requires
            self.wf(),
        ensures
            final(out)@ == old(out)@ + point_text(*self),
    {
        let ghost before = out@;
        out.append("Point { x: ");
        push_fixed2(out, &self.x);
        out.append(", y: ");
        push_fixed2(out, &self.y);
        out.append(" }");
        assert(out@ =~= before + point_text(*self));
    }

    /// The point literal, coordinates with two decimals.
    pub fn render(&self) -> (r: String)
        requires
            self.wf(),
        ensures
            r@ == point_text(*self),
    {
        let mut out = String::new();
        self.push_to(&mut out);
        assert(out@ =~= point_text(*self));
        out
    }
}

impl KurboSize {
    pub open spec fn wf(self) -> bool {
        self.width.wf() && self.height.wf()
    }

    pub fn is_valid(&self) -> (r: bool)
        ensures
            r == self.wf(),
    {
        self.width.is_valid() && self.height.is_valid()
    }

    /// Appends the size literal.
    pub fn push_to(&self, out: &mut String)
        requires
            self.wf(),
        ensures
            final(out)@ == old(out)@ + size_literal_text(*self),
    {
        let ghost before = out@;
        out.append("Size { width: ");
        push_fixed2(out, &self.width);
        out.append(", height: ");
        push_fixed2(out, &self.height);
        out.append(" }");
        assert(out@ =~= before + size_literal_text(*self));
    }

    /// The size literal, both sides with two decimals.
    pub fn render(&self) -> (r: String)
        requires
            self.wf(),
        ensures
            r@ == size_literal_text(*self),
    {
        let mut out = String::new();
        self.push_to(&mut out);
        assert(out@ =~= size_literal_text(*self));
        out
    }
}

impl KurboEl {
    pub open spec fn wf(self) -> bool {
        match self {
            KurboEl::MoveTo(a) => a.wf(),
            KurboEl::LineTo(a) => a.wf(),
            KurboEl::QuadTo(a, b) => a.wf() && b.wf(),
            KurboEl::CurveTo(a, b, c) => a.wf() && b.wf() && c.wf(),
            KurboEl::ClosePath => true,
        }
    }

    /// Appends the path element literal.
    pub fn push_to(&self, out: &mut String)
        requires
            self.wf(),
        ensures
            final(out)@ == old(out)@ + el_text(*self),
    {
        let ghost before = out@;
        match self {
            KurboEl::MoveTo(a) => {
                out.append("PathEl::MoveTo(");
                a.push_to(out);
                out.append(")");
            },
            KurboEl::LineTo(a) => {
                out.append("PathEl::LineTo(");
                a.push_to(out);
                out.append(")");
            },
            KurboEl::QuadTo(a, b) => {
                out.append("PathEl::QuadTo(");
                a.push_to(out);
                out.append(", ");
                b.push_to(out);
                out.append(")");
            },
            KurboEl::CurveTo(a, b, c) => {
                out.append("PathEl::CurveTo(");
                a.push_to(out);
                out.append(", ");
                b.push_to(out);
                out.append(", ");
                c.push_to(out);
                out.append(")");
            },
            KurboEl::ClosePath => {
                out.append("PathEl::ClosePath");
            },
        }
        assert(out@ =~= before + el_text(*self));
    }

    /// The path element literal.
    pub fn render(&self) -> (r: String)
        requires
            self.wf(),
        ensures
            r@ == el_text(*self),
    {
        let mut out = String::new();
        self.push_to(&mut out);
        assert(out@ =~= el_text(*self));
        out
    }
}

impl KurboShape {
    pub open spec fn wf(self) -> bool {
        match self {
            KurboShape::Circle { center, radius } => center.wf() && radius.wf(),
            KurboShape::BezPath(els) => forall|i: int| 0 <= i < els@.len() ==> #[trigger] els@[i].wf(),
        }
    }

    /// Appends the shape literal; path elements keep their order.
    pub fn push_to(&self, out: &mut String)
        requires
            self.wf(),
        ensures
            final(out)@ == old(out)@ + shape_text(*self),
    {
        let ghost before = out@;
        match self {
            KurboShape::Circle { center, radius } => {
                out.append("IconShape::Circle(Circle { center: ");
                center.push_to(out);
                out.append(", radius: ");
                push_fixed2(out, radius);
                out.append(" })");
            },
            KurboShape::BezPath(els) => {
                out.append("IconShape::PathEls(&[");
                let ghost mid = out@;
                let mut i: usize = 0;
                while i < els.len()
                    invariant
                        i <= els@.len(),
                        forall|j: int| 0 <= j < els@.len() ==> #[trigger] els@[j].wf(),
                        out@ == mid + els_text(els@.take(i as int)),
                    decreases els@.len() - i,
                {
                    let ghost prev = out@;
                    out.append("\n            ");
                    els[i].push_to(out);
                    out.append(",");
                    assert(els@.take(i + 1).drop_last() =~= els@.take(i as int));
                    assert(out@ =~= prev + "\n            "@ + el_text(els@[i as int]) + ","@);
                    i = i + 1;
                }
                assert(els@.take(i as int) =~= els@);
                out.append("\n        ])");
            },
        }
        assert(out@ =~= before + shape_text(*self));
    }

    /// The shape literal.
    pub fn render(&self) -> (r: String)
        requires
            self.wf(),
        ensures
            r@ == shape_text(*self),
    {
        let mut out = String::new();
        self.push_to(&mut out);
        assert(out@ =~= shape_text(*self));
        out
    }
}

impl IconSize {
    pub fn new(size: KurboSize) -> (r: IconSize)
        ensures
            r.0 == size,
    {
        IconSize(size)
    }

    /// The size by the size-formatting rule.
    pub fn render(&self) -> (r: String)
        requires
            self.0.wf(),
        ensures
            r@ == size_text(self.0),
    {
        let mut out = String::new();
        push_plain(&mut out, &self.0.width);
        if !self.0.width.equals(&self.0.height) {
            out.append("x");
            push_plain(&mut out, &self.0.height);
        }
        assert(out@ =~= size_text(self.0));
        out
    }
}

/// The size text is the bare number when width and height are equal in value, and
/// `<width>x<height>` when they differ.
pub proof fn lemma_size_text_square_aware(s: KurboSize)
    ensures
        s.width.same_value(s.height) ==> size_text(s) == plain_text(s.width),
        !s.width.same_value(s.height) ==> size_text(s) == plain_text(s.width) + "x"@ + plain_text(
            s.height,
        ),
{
}

/// A square icon whose side is the whole number `n` has the size text of `n`'s digits.
pub proof fn lemma_square_whole_size_text(n: u32)
    ensures
        ({
            let d = Decimal { negative: false, magnitude: n as u64, scale: 0 };
            size_text(KurboSize { width: d, height: d }) == nat_text(n as nat)
        }),
{
    let d = Decimal { negative: false, magnitude: n as u64, scale: 0 };
    assert(trimmed(n as nat, 0) == (n as nat, 0nat));
    assert(pow10(0) == 1);
    assert((n as nat) / 1 == n as nat);
    let sign: Seq<char> = seq![];
    assert(plain_text(d) == sign + nat_text(n as nat) + sign);
    assert(sign + nat_text(n as nat) + sign =~= nat_text(n as nat));
    assert(d.same_value(d));
}

/// The size text holds the letter `x` exactly when width and height differ in value.
pub proof fn lemma_size_text_x_iff_rectangular(s: KurboSize)
    ensures
        (exists|i: int| 0 <= i < size_text(s).len() && #[trigger] size_text(s)[i] == 'x') <==> !s.width.same_value(
            s.height,
        ),
{
    lemma_plain_text_has_no_x(s.width);
    lemma_plain_text_has_no_x(s.height);
    let w = plain_text(s.width);
    let h = plain_text(s.height);
    if s.width.same_value(s.height) {
        assert forall|i: int| 0 <= i < size_text(s).len() implies #[trigger] size_text(s)[i] != 'x' by {
            assert(size_text(s)[i] == w[i]);
        }
    } else {
        let t = w + "x"@ + h;
        assert("x"@ =~= seq!['x']) by {
            reveal_strlit("x");
        }
        assert(t[w.len() as int] == 'x');
        assert(size_text(s)[w.len() as int] == 'x');
    }
}

} // verus!
