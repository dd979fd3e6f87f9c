//! The Material icon catalog: naming, file locations and the choice of the largest size
//! variant of each icon.
use vstd::prelude::*;
use vstd::string::*;
use heck::ToShoutySnakeCase;
use crate::emit::Icon;
use crate::markup::same_text;
use crate::number::{Decimal, is_digit, size_of_digits};
pub use crate::number::parse_size;
use crate::shape::{IconSize, KurboSize, size_text};

verus! {

/// File names of icons: `ic_<name>_<size>px.svg`.
pub const ICON_FILE_PATTERN: &'static str = r"^ic_(.*)_(\d+)px\.svg$";

/// The text of the first and second capture groups when `pattern` matches `text`.
pub uninterp spec fn captures_of(pattern: Seq<char>, text: Seq<char>) -> Option<(Seq<char>, Seq<char>)>;

/// The name in shouty snake case.
pub uninterp spec fn shouty_snake_of(s: Seq<char>) -> Seq<char>;

/// Relies on regex::Regex::new and Regex::captures: the texts of groups 1 and 2 of the
/// first match, when there is one and both groups took part.
#[verifier::external_body]
fn capture_pair(pattern: &str, text: &str) -> (r: Option<(String, String)>)
    ensures
        match r {
            Some((a, b)) => captures_of(pattern@, text@) == Some((a@, b@)),
            None => captures_of(pattern@, text@) is None,
        },
{
    let re = regex::Regex::new(pattern).ok()?;
    let caps = re.captures(text)?;
    Some((caps.get(1)?.as_str().to_string(), caps.get(2)?.as_str().to_string()))
}

/// Relies on heck's ToShoutySnakeCase::to_shouty_snake_case.
#[verifier::external_body]
fn shouty_snake(s: &str) -> (r: String)
    ensures
        r@ == shouty_snake_of(s@),
{
    s.to_shouty_snake_case()
}

/// The English word for a digit, in capitals.
pub open spec fn digit_word(c: char) -> Seq<char> {
    if c == '0' {
        "ZERO"@
    } else if c == '1' {
        "ONE"@
    } else if c == '2' {
        "TWO"@
    } else if c == '3' {
        "THREE"@
    } else if c == '4' {
        "FOUR"@
    } else if c == '5' {
        "FIVE"@
    } else if c == '6' {
        "SIX"@
    } else if c == '7' {
        "SEVEN"@
    } else if c == '8' {
        "EIGHT"@
    } else {
        "NINE"@
    }
}

/// A constant name that begins with a digit gets the digit's word and `_` in its place,
/// so that `3D_ROTATION` becomes `THREE_D_ROTATION`.
pub open spec fn escaped_name(s: Seq<char>) -> Seq<char> {
    if s.len() > 0 && is_digit(s[0]) {
        digit_word(s[0]) + "_"@ + s.skip(1)
    } else {
        s
    }
}

fn digit_word_str(c: char) -> (r: &'static str)
    requires
        is_digit(c),
    ensures
        r@ == digit_word(c),
{
    if c == '0' {
        "ZERO"
    } else if c == '1' {
        "ONE"
    } else if c == '2' {
        "TWO"
    } else if c == '3' {
        "THREE"
    } else if c == '4' {
        "FOUR"
    } else if c == '5' {
        "FIVE"
    } else if c == '6' {
        "SIX"
    } else if c == '7' {
        "SEVEN"
    } else if c == '8' {
        "EIGHT"
    } else {
        "NINE"
    }
}

/// Makes a shouty snake case name a legal constant name.
pub fn constant_name(shouty: &str) -> (r: String)
    ensures
        r@ == escaped_name(shouty@),
{
    let n = shouty.unicode_len();
    if n == 0 {
        return String::from_str(shouty);
    }
    let c = shouty.get_char(0);
    if '0' <= c && c <= '9' {
        let mut out = String::new();
        out.append(digit_word_str(c));
        out.append("_");
        out.append(shouty.substring_char(1, n));
        assert(shouty@.subrange(1, n as int) =~= shouty@.skip(1));
        out
    } else {
        String::from_str(shouty)
    }
}


/// The texts of a sequence of string pairs.
pub open spec fn pair_views(v: Seq<(String, String)>) -> Seq<(Seq<char>, Seq<char>)> {
    v.map_values(|x: (String, String)| (x.0@, x.1@))
}

/// Whether one of the first `n` files has the name `name` and the size `size`.
pub open spec fn has_file(parts: Seq<(Seq<char>, Seq<char>)>, n: int, name: Seq<char>, size: u32) -> bool {
    exists|j: int| 0 <= j < n && #[trigger] parts[j].0 == name && size_of_digits(parts[j].1) == Some(size)
}

/// Whether `name` is listed among the chosen variants.
pub open spec fn is_listed(out: Seq<(String, u32)>, name: Seq<char>) -> bool {
    exists|k: int| 0 <= k < out.len() && #[trigger] out[k].0@ == name
}

/// What the first `n` files give: each name once, with the largest of its sizes.
pub open spec fn largest_of_prefix(parts: Seq<(Seq<char>, Seq<char>)>, n: int, out: Seq<(String, u32)>) -> bool {
    &&& forall|k: int, l: int| 0 <= k < l < out.len() ==> #[trigger] out[k].0@ != #[trigger] out[l].0@
    &&& forall|k: int| 0 <= k < out.len() ==> has_file(parts, n, #[trigger] out[k].0@, out[k].1)
    &&& forall|k: int, j: int|
        0 <= k < out.len() && 0 <= j < n && #[trigger] parts[j].0 == #[trigger] out[k].0@ ==> match size_of_digits(
            parts[j].1,
        ) {
            Some(s) => s <= out[k].1,
            None => true,
        }
    &&& forall|j: int|
        0 <= j < n && (#[trigger] size_of_digits(parts[j].1)) is Some ==> is_listed(out, parts[j].0)
}

/// The largest size of each icon name: `parts` holds the name and the size text of each
/// file. A size text that is not a 32-bit number fails the whole choice.
pub fn largest_of(parts: &Vec<(String, String)>) -> (r: Option<Vec<(String, u32)>>)
    ensures
        r is None <==> exists|i: int|
            0 <= i < parts@.len() && (#[trigger] size_of_digits(pair_views(parts@)[i].1)) is None,
        r matches Some(v) ==> largest_of_prefix(pair_views(parts@), parts@.len() as int, v@),
{
    let mut out: Vec<(String, u32)> = Vec::new();
    let mut i: usize = 0;
    while i < parts.len()
        invariant
            i <= parts@.len(),
            largest_of_prefix(pair_views(parts@), i as int, out@),
            forall|j: int| 0 <= j < i ==> (#[trigger] size_of_digits(pair_views(parts@)[j].1)) is Some,
        decreases parts@.len() - i,
    {
        let (name, digits) = &parts[i];
        let ghost old_out = out@;
        let ghost n = i as int;
        let ghost p = pair_views(parts@);
        assert(p[n].0 == name@ && p[n].1 == digits@);
        match parse_size(digits.as_str()) {
            None => {
                assert(size_of_digits(p[n].1) is None);
                return None;
            },
            Some(size) => {
                let mut k: usize = 0;
                while k < out.len()
                    invariant
                        k <= out@.len(),
                        forall|l: int| 0 <= l < k ==> out@[l].0@ != name@,
                    ensures
                        k <= out@.len(),
                        forall|l: int| 0 <= l < k ==> out@[l].0@ != name@,
                        k < out@.len() ==> out@[k as int].0@ == name@,
                    decreases out@.len() - k,
                {
                    if same_text(out[k].0.as_str(), name.as_str()) {
                        break;
                    }
                    k = k + 1;
                }
                if k < out.len() {
                    assert(out@[k as int].0@ == name@);
                    assert(is_listed(out@, name@));
                    if out[k].1 < size {
                        out.set(k, (String::from_str(name.as_str()), size));
                        let ghost o = out@;
                        assert forall|l: int| 0 <= l < o.len() && l != k implies o[l] == old_out[l] by {}
                        assert forall|l: int| 0 <= l < o.len() implies #[trigger] o[l].0@ == old_out[l].0@ by {}
                        assert forall|m: int| 0 <= m < o.len() implies has_file(p, n + 1, #[trigger] o[m].0@, o[m].1) by {
                            if m != k {
                                assert(has_file(p, n, old_out[m].0@, old_out[m].1));
                            } else {
                                assert(p[n].0 == o[m].0@);
                            }
                        }
                        assert forall|j: int|
                            0 <= j < n + 1 && (#[trigger] size_of_digits(p[j].1)) is Some implies is_listed(o, p[j].0) by {
                            if j < n {
                                assert(is_listed(old_out, p[j].0));
                                let m = choose|m: int| 0 <= m < old_out.len() && #[trigger] old_out[m].0@ == p[j].0;
                                assert(o[m].0@ == p[j].0);
                            } else {
                                assert(o[k as int].0@ == p[j].0);
                            }
                        }
                        assert forall|m: int, j: int|
                            0 <= m < o.len() && 0 <= j < n + 1 && #[trigger] p[j].0 == #[trigger] o[m].0@ implies match size_of_digits(p[j].1) {
                                Some(s) => s <= o[m].1,
                                None => true,
                            } by {
                            assert(o[m].0@ == old_out[m].0@);
                        }
                    } else {
                        assert forall|m: int| 0 <= m < out@.len() implies has_file(p, n + 1, #[trigger] out@[m].0@, out@[m].1) by {
                            assert(has_file(p, n, out@[m].0@, out@[m].1));
                        }
                    }
                } else {
                    out.push((String::from_str(name.as_str()), size));
                    let ghost o = out@;
                    let ghost last = old_out.len() as int;
                    assert forall|l: int| 0 <= l < last implies #[trigger] o[l] == old_out[l] by {}
                    assert(!is_listed(old_out, name@));
                    assert forall|m: int| 0 <= m < o.len() implies has_file(p, n + 1, #[trigger] o[m].0@, o[m].1) by {
                        if m < last {
                            assert(o[m] == old_out[m]);
                            assert(has_file(p, n, old_out[m].0@, old_out[m].1));
                        } else {
                            assert(p[n].0 == o[m].0@);
                        }
                    }
                    assert forall|j: int|
                        0 <= j < n + 1 && (#[trigger] size_of_digits(p[j].1)) is Some implies is_listed(o, p[j].0) by {
                        if j < n {
                            assert(is_listed(old_out, p[j].0));
                            let m = choose|m: int| 0 <= m < old_out.len() && #[trigger] old_out[m].0@ == p[j].0;
                            assert(o[m] == old_out[m]);
                        } else {
                            assert(o[last].0@ == p[j].0);
                        }
                    }
                    assert forall|m: int, j: int|
                        0 <= m < o.len() && 0 <= j < n + 1 && #[trigger] p[j].0 == #[trigger] o[m].0@ implies match size_of_digits(p[j].1) {
                            Some(s) => s <= o[m].1,
                            None => true,
                        } by {
                        if m < last {
                            assert(o[m] == old_out[m]);
                        } else if j < n && size_of_digits(p[j].1) is Some {
                            assert(is_listed(old_out, p[j].0));
                        }
                    }
                    assert forall|k1: int, l1: int| 0 <= k1 < l1 < o.len() implies #[trigger] o[k1].0@ != #[trigger] o[l1].0@ by {
                        if l1 == last {
                            assert(o[k1] == old_out[k1]);
                        } else {
                            assert(o[k1] == old_out[k1]);
                            assert(o[l1] == old_out[l1]);
                        }
                    }
                }
            },
        }
        i = i + 1;
    }
    Some(out)
}

/// The name and size text of each file name that has the icon file form, in order.
pub open spec fn captured(names: Seq<String>) -> Seq<(Seq<char>, Seq<char>)>
    decreases names.len(),
{
    if names.len() == 0 {
        seq![]
    } else {
        let rest = captured(names.drop_last());
        match captures_of(ICON_FILE_PATTERN@, names.last()@) {
            Some(pair) => rest.push(pair),
            None => rest,
        }
    }
}

/// Of the file names of a directory, the largest size of each icon name, as
/// `largest_of` chooses it from the names that have the icon file form.
pub fn largest_variants(file_names: &Vec<String>) -> (r: Option<Vec<(String, u32)>>)
    ensures
        r is None <==> exists|i: int|
            0 <= i < captured(file_names@).len() && (#[trigger] size_of_digits(
                captured(file_names@)[i].1,
            )) is None,
        r matches Some(v) ==> largest_of_prefix(
            captured(file_names@),
            captured(file_names@).len() as int,
            v@,
        ),
{
    let mut parts: Vec<(String, String)> = Vec::new();
    let mut i: usize = 0;
    while i < file_names.len()
        invariant
            i <= file_names@.len(),
            pair_views(parts@) == captured(file_names@.take(i as int)),
        decreases file_names@.len() - i,
    {
        assert(file_names@.take(i + 1).drop_last() =~= file_names@.take(i as int));
        match capture_pair(ICON_FILE_PATTERN, file_names[i].as_str()) {
            Some(pair) => {
                parts.push(pair);
                assert(pair_views(parts@) =~= captured(file_names@.take(i + 1)));
            },
            None => {},
        }
        i = i + 1;
    }
    assert(file_names@.take(i as int) =~= file_names@);
    largest_of(&parts)
}

/// An icon of the Material catalog: its category directory, its name in file names, and
/// the side of its square size in pixels.
#[derive(Debug)]
pub struct MaterialIcon {
    pub category: String,
    pub prefix: String,
    pub size: u32,
}

pub open spec fn square_size(side: u32) -> KurboSize {
    let d = Decimal { negative: false, magnitude: side as u64, scale: 0 };
    KurboSize { width: d, height: d }
}

/// Where the markup of an icon lives.
pub open spec fn icon_path_text(category: Seq<char>, prefix: Seq<char>, side: u32) -> Seq<char> {
    "../material-design-icons/"@ + category + "/svg/production/ic_"@ + prefix + "_"@ + size_text(
        square_size(side),
    ) + "px.svg"@
}

impl MaterialIcon {
    /// The path of the icon's markup file; the size in it follows the size-formatting rule.
    pub fn file_path(&self) -> (r: String)
        ensures
            r@ == icon_path_text(self.category@, self.prefix@, self.size),
    {
        let side = Decimal::from_whole(self.size);
        let size = IconSize::new(KurboSize { width: side, height: side });
        let mut out = String::new();
        out.append("../material-design-icons/");
        out.append(self.category.as_str());
        out.append("/svg/production/ic_");
        out.append(self.prefix.as_str());
        out.append("_");
        let text = size.render();
        out.append(text.as_str());
        out.append("px.svg");
        assert(out@ =~= icon_path_text(self.category@, self.prefix@, self.size));
        out
    }

    /// The constant name: the prefix in shouty snake case, with a leading 3 spelled out.
    pub fn constant(&self) -> (r: String)
        ensures
            r@ == escaped_name(shouty_snake_of(self.prefix@)),
    {
        let shouty = shouty_snake(self.prefix.as_str());
        constant_name(shouty.as_str())
    }

    pub fn side(&self) -> (r: KurboSize)
        ensures
            r == square_size(self.size),
            r.wf(),
    {
        let d = Decimal::from_whole(self.size);
        KurboSize { width: d, height: d }
    }
}

impl Icon for MaterialIcon {
    open spec fn path_view(&self) -> Seq<char> {
        icon_path_text(self.category@, self.prefix@, self.size)
    }

    open spec fn name_view(&self) -> Seq<char> {
        escaped_name(shouty_snake_of(self.prefix@))
    }

    open spec fn size_view(&self) -> KurboSize {
        square_size(self.size)
    }

    fn path(&self) -> (r: String) {
        self.file_path()
    }

    fn const_name(&self) -> (r: String) {
        self.constant()
    }

    fn size(&self) -> (r: KurboSize) {
        self.side()
    }
}

/// Whether no later key equals the key at `i`.
pub open spec fn is_last_occurrence(keys: Seq<Seq<char>>, i: int) -> bool {
    forall|j: int| i < j < keys.len() ==> keys[j] != keys[i]
}

pub open spec fn string_views(v: Seq<String>) -> Seq<Seq<char>> {
    v.map_values(|s: String| s@)
}

/// The positions, in increasing order, of the last occurrence of each key: where several
/// entries share a key, the one that comes last is kept.
pub fn last_occurrences(keys: &Vec<String>) -> (r: Vec<usize>)
    ensures
        forall|k: int, l: int| 0 <= k < l < r@.len() ==> r@[k] < r@[l],
        forall|k: int|
            0 <= k < r@.len() ==> r@[k] < keys@.len() && is_last_occurrence(
                string_views(keys@),
                #[trigger] r@[k] as int,
            ),
        forall|i: int|
            0 <= i < keys@.len() && is_last_occurrence(string_views(keys@), i) ==> exists|k: int|
                0 <= k < r@.len() && #[trigger] r@[k] == i,
{
    let ghost ks = string_views(keys@);
    let mut r: Vec<usize> = Vec::new();
    let mut i: usize = 0;
    while i < keys.len()
        invariant
            ks == string_views(keys@),
            i <= keys@.len(),
            forall|k: int, l: int| 0 <= k < l < r@.len() ==> r@[k] < r@[l],
            forall|k: int| 0 <= k < r@.len() ==> r@[k] < i,
            forall|k: int|
                0 <= k < r@.len() ==> is_last_occurrence(ks, #[trigger] r@[k] as int),
            forall|m: int|
                0 <= m < i && is_last_occurrence(ks, m) ==> exists|k: int|
                    0 <= k < r@.len() && #[trigger] r@[k] == m,
        decreases keys@.len() - i,
    {
        let mut j: usize = i + 1;
        let mut last = true;
        while j < keys.len()
            invariant
                ks == string_views(keys@),
                i < j <= keys@.len(),
                last == (forall|m: int| i < m < j ==> ks[m] != ks[i as int]),
            decreases keys@.len() - j,
        {
            if same_text(keys[j].as_str(), keys[i].as_str()) {
                last = false;
            }
            proof {
                assert(ks[j as int] == keys@[j as int]@);
                assert(ks[i as int] == keys@[i as int]@);
            }
            j = j + 1;
        }
        let ghost old_r = r@;
        if last {
            r.push(i);
            assert(r@[old_r.len() as int] == i);
        }
        assert forall|m: int|
            0 <= m < i + 1 && is_last_occurrence(ks, m) implies exists|k: int|
                0 <= k < r@.len() && #[trigger] r@[k] == m by {
            if m < i {
                let k = choose|k: int| 0 <= k < old_r.len() && #[trigger] old_r[k] == m;
                assert(r@[k] == old_r[k]);
            } else {
                assert(r@[old_r.len() as int] == i);
            }
        }
        i = i + 1;
    }
    r
}

} // verus!
