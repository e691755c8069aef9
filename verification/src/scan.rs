//! The document scanner.
//!
//! The engine reads the drawable subset of an SVG-style document: start
//! tags with their attributes, in document order.  A tag is the text
//! between `<` and the next `>`; end tags, comments, declarations and
//! processing instructions are skipped, and text between tags is ignored.
//! Attributes are `name="value"` or `name='value'` pairs; an attribute the
//! element does not carry reads as the empty string.  Entity references are
//! not decoded, and a `>` inside a comment or attribute value ends the tag
//! early — the engine reads the plain subset its documents use.
//!
//! The recognized elements are the root `svg` (for its `viewBox`), `path`,
//! `line` and `rect`; everything else is passed over.

use vstd::prelude::*;
use crate::numparse::{
    find_byte, is_ws, is_ws_e, spec_split_ws, number_ok, number_val, sub_vec, lemma_find_byte_is,
};

verus! {

/// Smallest viewBox dimension the engine accepts: a hundredth of a canvas
/// unit, so that the per-axis scales stay positive.
pub const VIEWBOX_MIN: i128 = 1_000_000_000;

/// A drawable element with its raw attribute text.
pub enum Element {
    /// A `path` element: its `d`, `style` and `transform` attributes.
    PathElem { d: Vec<u8>, style: Vec<u8>, transform: Vec<u8> },
    /// A `line` element: its two endpoints and style.
    LineElem { x1: Vec<u8>, y1: Vec<u8>, x2: Vec<u8>, y2: Vec<u8>, style: Vec<u8> },
    /// A `rect` element: its origin, extent and style.
    RectElem { x: Vec<u8>, y: Vec<u8>, w: Vec<u8>, h: Vec<u8>, style: Vec<u8> },
}

/// The spec-level shadow of an element: the same fields as sequences.
pub ghost enum SpecElem {
    Path { d: Seq<u8>, style: Seq<u8>, tr: Seq<u8> },
    Line { x1: Seq<u8>, y1: Seq<u8>, x2: Seq<u8>, y2: Seq<u8>, style: Seq<u8> },
    Rect { x: Seq<u8>, y: Seq<u8>, w: Seq<u8>, h: Seq<u8>, style: Seq<u8> },
}

impl Element {
    /// The element as its spec-level shadow.
    pub open spec fn view_of(&self) -> SpecElem {
        match self {
            Element::PathElem { d, style, transform } => SpecElem::Path {
                d: d@,
                style: style@,
                tr: transform@,
            },
            Element::LineElem { x1, y1, x2, y2, style } => SpecElem::Line {
                x1: x1@,
                y1: y1@,
                x2: x2@,
                y2: y2@,
                style: style@,
            },
            Element::RectElem { x, y, w, h, style } => SpecElem::Rect {
                x: x@,
                y: y@,
                w: w@,
                h: h@,
                style: style@,
            },
        }
    }
}

/// The tag texts of a document: what stands between each `<` and the next
/// `>`, in order; an unclosed final `<` is dropped.
pub open spec fn spec_tags(s: Seq<u8>) -> Seq<Seq<u8>>
    decreases s.len(),
{
    let lt = find_byte(s, 60);
    if lt >= s.len() {
        Seq::empty()
    } else {
        let rest = s.skip(lt as int + 1);
        let gt = find_byte(rest, 62);
        if gt >= rest.len() {
            Seq::empty()
        } else {
            seq![rest.take(gt as int)] + spec_tags(rest.skip(gt as int + 1))
        }
    }
}

/// Index of the first byte that ends an attribute or tag name: `=`,
/// whitespace, or `/`.
pub open spec fn find_name_end(s: Seq<u8>) -> nat
    decreases s.len(),
{
    if s.len() == 0 {
        0
    } else if s[0] == 61 || s[0] == 47 || is_ws(s[0]) {
        0
    } else {
        1 + find_name_end(s.skip(1))
    }
}

/// Index of the first byte that is not whitespace.
pub open spec fn find_non_ws(s: Seq<u8>) -> nat
    decreases s.len(),
{
    if s.len() == 0 {
        0
    } else if is_ws(s[0]) {
        1 + find_non_ws(s.skip(1))
    } else {
        0
    }
}

/// The attribute pairs of a tag body: `name = "value"` with optional
/// whitespace and either quote; scanning stops quietly at the first text
/// that is not an attribute.
pub open spec fn spec_attrs(r: Seq<u8>) -> Seq<(Seq<u8>, Seq<u8>)>
    decreases r.len(),
{
    if r.len() == 0 {
        Seq::empty()
    } else if is_ws(r[0]) || r[0] == 47 {
        spec_attrs(r.skip(1))
    } else {
        let ne0 = find_name_end(r);
        let ne = if ne0 < r.len() {
            ne0 as int
        } else {
            r.len() as int
        };
        if ne == 0 {
            Seq::empty()
        } else {
            let name = r.take(ne);
            let r1 = r.skip(ne);
            let p = find_non_ws(r1);
            if p >= r1.len() || r1[p as int] != 61 {
                Seq::empty()
            } else {
                let r2 = r1.skip(p as int + 1);
                let q = find_non_ws(r2);
                if q >= r2.len() || (r2[q as int] != 34 && r2[q as int] != 39) {
                    Seq::empty()
                } else {
                    let quote = r2[q as int];
                    let r3 = r2.skip(q as int + 1);
                    let v = find_byte(r3, quote);
                    if v >= r3.len() {
                        Seq::empty()
                    } else {
                        seq![(name, r3.take(v as int))] + spec_attrs(r3.skip(v as int + 1))
                    }
                }
            }
        }
    }
}

/// The value of the first attribute called `name`, or the empty string.
pub open spec fn attr_get(attrs: Seq<(Seq<u8>, Seq<u8>)>, name: Seq<u8>) -> Seq<u8>
    decreases attrs.len(),
{
    if attrs.len() == 0 {
        Seq::empty()
    } else if attrs[0].0 == name {
        attrs[0].1
    } else {
        attr_get(attrs.skip(1), name)
    }
}

/// The name of a tag: its text up to the first `=`, `/` or whitespace.
pub open spec fn tag_name(tag: Seq<u8>) -> Seq<u8> {
    let ne0 = find_name_end(tag);
    let ne = if ne0 < tag.len() {
        ne0 as int
    } else {
        tag.len() as int
    };
    tag.take(ne)
}

/// The attribute region of a tag: past its name.
pub open spec fn tag_attrs(tag: Seq<u8>) -> Seq<(Seq<u8>, Seq<u8>)> {
    let ne0 = find_name_end(tag);
    let ne = if ne0 < tag.len() {
        ne0 as int
    } else {
        tag.len() as int
    };
    spec_attrs(tag.skip(ne))
}

/// The word `svg`.
pub open spec fn lit_svg() -> Seq<u8> {
    seq![115u8, 118u8, 103u8]
}

/// The word `path`.
pub open spec fn lit_path() -> Seq<u8> {
    seq![112u8, 97u8, 116u8, 104u8]
}

/// The word `line`.
pub open spec fn lit_line() -> Seq<u8> {
    seq![108u8, 105u8, 110u8, 101u8]
}

/// The word `rect`.
pub open spec fn lit_rect() -> Seq<u8> {
    seq![114u8, 101u8, 99u8, 116u8]
}

/// The word `viewBox`.
pub open spec fn lit_viewbox() -> Seq<u8> {
    seq![118u8, 105u8, 101u8, 119u8, 66u8, 111u8, 120u8]
}

/// The word `d`.
pub open spec fn lit_d() -> Seq<u8> {
    seq![100u8]
}

/// The word `style`.
pub open spec fn lit_style() -> Seq<u8> {
    seq![115u8, 116u8, 121u8, 108u8, 101u8]
}

/// The word `transform`.
pub open spec fn lit_transform() -> Seq<u8> {
    seq![116u8, 114u8, 97u8, 110u8, 115u8, 102u8, 111u8, 114u8, 109u8]
}

/// The words `x1`, `y1`, `x2`, `y2`.
pub open spec fn lit_x1() -> Seq<u8> {
    seq![120u8, 49u8]
}

pub open spec fn lit_y1() -> Seq<u8> {
    seq![121u8, 49u8]
}

pub open spec fn lit_x2() -> Seq<u8> {
    seq![120u8, 50u8]
}

pub open spec fn lit_y2() -> Seq<u8> {
    seq![121u8, 50u8]
}

/// The words `x`, `y`, `width`, `height`.
pub open spec fn lit_x() -> Seq<u8> {
    seq![120u8]
}

pub open spec fn lit_y() -> Seq<u8> {
    seq![121u8]
}

pub open spec fn lit_width() -> Seq<u8> {
    seq![119u8, 105u8, 100u8, 116u8, 104u8]
}

pub open spec fn lit_height() -> Seq<u8> {
    seq![104u8, 101u8, 105u8, 103u8, 104u8, 116u8]
}

/// The drawable elements a tag list yields, in document order.
pub open spec fn spec_elems(tags: Seq<Seq<u8>>) -> Seq<SpecElem>
    decreases tags.len(),
{
    if tags.len() == 0 {
        Seq::empty()
    } else {
        let head = spec_elem_of(tags[0]);
        let rest = spec_elems(tags.skip(1));
        match head {
            Some(e) => seq![e] + rest,
            None => rest,
        }
    }
}

/// The element one tag yields, if any.
pub open spec fn spec_elem_of(tag: Seq<u8>) -> Option<SpecElem> {
    let name = tag_name(tag);
    let attrs = tag_attrs(tag);
    if name == lit_path() {
        Some(
            SpecElem::Path {
                d: attr_get(attrs, lit_d()),
                style: attr_get(attrs, lit_style()),
                tr: attr_get(attrs, lit_transform()),
            },
        )
    } else if name == lit_line() {
        Some(
            SpecElem::Line {
                x1: attr_get(attrs, lit_x1()),
                y1: attr_get(attrs, lit_y1()),
                x2: attr_get(attrs, lit_x2()),
                y2: attr_get(attrs, lit_y2()),
                style: attr_get(attrs, lit_style()),
            },
        )
    } else if name == lit_rect() {
        Some(
            SpecElem::Rect {
                x: attr_get(attrs, lit_x()),
                y: attr_get(attrs, lit_y()),
                w: attr_get(attrs, lit_width()),
                h: attr_get(attrs, lit_height()),
                style: attr_get(attrs, lit_style()),
            },
        )
    } else {
        None
    }
}

/// The canvas extent of the first `svg` tag: the third and fourth fields
/// of its `viewBox`, when both are numbers.
pub open spec fn spec_viewbox(tags: Seq<Seq<u8>>) -> Option<(int, int)>
    decreases tags.len(),
{
    if tags.len() == 0 {
        None
    } else if tag_name(tags[0]) == lit_svg() {
        let vb = attr_get(tag_attrs(tags[0]), lit_viewbox());
        let fields = spec_split_ws(vb);
        if fields.len() >= 4 && number_ok(fields[2]) && number_ok(fields[3]) {
            Some((number_val(fields[2]), number_val(fields[3])))
        } else {
            None
        }
    } else {
        spec_viewbox(tags.skip(1))
    }
}

/// Extracts the tag texts of a document.
pub fn scan_tags(s: &[u8]) -> (r: Vec<Vec<u8>>)
    ensures
        r.deep_view() =~~= spec_tags(s@),
{
    let mut out: Vec<Vec<u8>> = Vec::new();
    let mut i: usize = 0;
    proof {
        assert(s@.skip(0) =~= s@);
        assert(out.deep_view() =~~= Seq::<Seq<u8>>::empty());
    }
    while i < s.len()
        invariant
            0 <= i <= s@.len(),
            spec_tags(s@) =~~= out.deep_view() + spec_tags(s@.skip(i as int)),
        decreases s@.len() - i,
    {
        let ghost out_prev = out.deep_view();
        // find the next '<'
        let mut lt: usize = i;
        while lt < s.len() && s[lt] != 60
            invariant
                i <= lt <= s@.len(),
                forall|j: int| i <= j < lt ==> s@[j] != 60,
            decreases s@.len() - lt,
        {
            lt += 1;
        }
        proof {
            lemma_find_byte_is(s@.skip(i as int), 60, lt - i);
        }
        if lt >= s.len() {
            proof {
                assert(spec_tags(s@.skip(i as int)) =~~= Seq::<Seq<u8>>::empty());
                assert(out.deep_view() + Seq::<Seq<u8>>::empty() =~~= out.deep_view());
            }
            return out;
        }
        // find the closing '>'
        let mut gt: usize = lt + 1;
        while gt < s.len() && s[gt] != 62
            invariant
                lt + 1 <= gt <= s@.len(),
                forall|j: int| lt + 1 <= j < gt ==> s@[j] != 62,
            decreases s@.len() - gt,
        {
            gt += 1;
        }
        proof {
            let rest = s@.skip(i as int).skip(lt - i + 1);
            assert(rest =~= s@.skip(lt as int + 1));
            lemma_find_byte_is(rest, 62, gt - lt - 1);
        }
        if gt >= s.len() {
            proof {
                assert(spec_tags(s@.skip(i as int)) =~~= Seq::<Seq<u8>>::empty());
                assert(out.deep_view() + Seq::<Seq<u8>>::empty() =~~= out.deep_view());
            }
            return out;
        }
        let tag = sub_vec(s, lt + 1, gt);
        proof {
            let rest = s@.skip(lt as int + 1);
            assert(rest.take(gt - lt - 1) =~= s@.subrange(lt as int + 1, gt as int));
            assert(rest.skip(gt - lt) =~= s@.skip(gt as int + 1));
        }
        out.push(tag);
        proof {
            assert(out.deep_view() =~~= out_prev.push(tag@));
            assert(out_prev + (seq![tag@] + spec_tags(s@.skip(gt as int + 1))) =~~= out.deep_view()
                + spec_tags(s@.skip(gt as int + 1)));
        }
        i = gt + 1;
    }
    proof {
        assert(spec_tags(s@.skip(i as int)) =~~= Seq::<Seq<u8>>::empty());
        assert(out.deep_view() + Seq::<Seq<u8>>::empty() =~~= out.deep_view());
    }
    out
}

/// Reads the attribute pairs of a tag body.
#[verifier::rlimit(100)]
pub fn parse_attrs(r: &[u8]) -> (out: Vec<(Vec<u8>, Vec<u8>)>)
    ensures
        out.deep_view() =~~= spec_attrs(r@),
{
    let mut out: Vec<(Vec<u8>, Vec<u8>)> = Vec::new();
    let mut i: usize = 0;
    proof {
        assert(r@.skip(0) =~= r@);
        assert(out.deep_view() =~~= Seq::<(Seq<u8>, Seq<u8>)>::empty());
    }
    while i < r.len()
        invariant
            0 <= i <= r@.len(),
            spec_attrs(r@) =~~= out.deep_view() + spec_attrs(r@.skip(i as int)),
        decreases r@.len() - i,
    {
        if is_ws_e(r[i]) || r[i] == 47 {
            proof {
                assert(r@.skip(i as int).skip(1) =~= r@.skip(i as int + 1));
            }
            i += 1;
            continue ;
        }
        // the attribute name
        let mut ne: usize = i;
        while ne < r.len() && r[ne] != 61 && r[ne] != 47 && !is_ws_e(r[ne])
            invariant
                i <= ne <= r@.len(),
                forall|j: int|
                    i <= j < ne ==> r@[j] != 61 && r@[j] != 47 && !is_ws(#[trigger] r@[j]),
            decreases r@.len() - ne,
        {
            ne += 1;
        }
        proof {
            lemma_find_name_end_is(r@.skip(i as int), ne - i);
        }
        if ne == i {
            // the byte is `=` or another name-ender: not an attribute
            proof {
                assert(spec_attrs(r@.skip(i as int)) =~~= Seq::<(Seq<u8>, Seq<u8>)>::empty());
                assert(out.deep_view() + Seq::<(Seq<u8>, Seq<u8>)>::empty() =~~= out.deep_view());
            }
            return out;
        }
        let name = sub_vec(r, i, ne);
        // whitespace, then '='
        let mut p: usize = ne;
        while p < r.len() && is_ws_e(r[p])
            invariant
                ne <= p <= r@.len(),
                forall|j: int| ne <= j < p ==> is_ws(#[trigger] r@[j]),
            decreases r@.len() - p,
        {
            p += 1;
        }
        proof {
            let r1 = r@.skip(i as int).skip(ne - i);
            assert(r1 =~= r@.skip(ne as int));
            lemma_find_non_ws_is(r1, p - ne);
        }
        if p >= r.len() || r[p] != 61 {
            proof {
                assert(spec_attrs(r@.skip(i as int)) =~~= Seq::<(Seq<u8>, Seq<u8>)>::empty());
                assert(out.deep_view() + Seq::<(Seq<u8>, Seq<u8>)>::empty() =~~= out.deep_view());
            }
            return out;
        }
        // whitespace, then a quote
        let mut q: usize = p + 1;
        while q < r.len() && is_ws_e(r[q])
            invariant
                p + 1 <= q <= r@.len(),
                forall|j: int| p + 1 <= j < q ==> is_ws(#[trigger] r@[j]),
            decreases r@.len() - q,
        {
            q += 1;
        }
        proof {
            let r2 = r@.skip(ne as int).skip(p - ne + 1);
            assert(r2 =~= r@.skip(p as int + 1));
            lemma_find_non_ws_is(r2, q - p - 1);
        }
        if q >= r.len() || (r[q] != 34 && r[q] != 39) {
            proof {
                assert(spec_attrs(r@.skip(i as int)) =~~= Seq::<(Seq<u8>, Seq<u8>)>::empty());
                assert(out.deep_view() + Seq::<(Seq<u8>, Seq<u8>)>::empty() =~~= out.deep_view());
            }
            return out;
        }
        let quote = r[q];
        // the value, to the matching quote
        let mut v: usize = q + 1;
        while v < r.len() && r[v] != quote
            invariant
                q + 1 <= v <= r@.len(),
                forall|j: int| q + 1 <= j < v ==> r@[j] != quote,
            decreases r@.len() - v,
        {
            v += 1;
        }
        proof {
            let r3 = r@.skip(p as int + 1).skip(q - p);
            assert(r3 =~= r@.skip(q as int + 1));
            lemma_find_byte_is(r3, quote, v - q - 1);
        }
        if v >= r.len() {
            proof {
                assert(spec_attrs(r@.skip(i as int)) =~~= Seq::<(Seq<u8>, Seq<u8>)>::empty());
                assert(out.deep_view() + Seq::<(Seq<u8>, Seq<u8>)>::empty() =~~= out.deep_view());
            }
            return out;
        }
        let value = sub_vec(r, q + 1, v);
        let ghost out_prev = out.deep_view();
        out.push((name, value));
        proof {
            let rr = r@.skip(i as int);
            let r3 = r@.skip(q as int + 1);
            assert(rr.take(ne - i) =~= r@.subrange(i as int, ne as int));
            assert(r3.take(v - q - 1) =~= r@.subrange(q as int + 1, v as int));
            assert(r3.skip(v - q) =~= r@.skip(v as int + 1));
            assert(out.deep_view() =~~= out_prev.push((name@, value@)));
            assert(spec_attrs(rr) =~~= seq![(name@, value@)] + spec_attrs(r@.skip(v as int + 1)));
            assert(out_prev + (seq![(name@, value@)] + spec_attrs(r@.skip(v as int + 1)))
                =~~= out.deep_view() + spec_attrs(r@.skip(v as int + 1)));
        }
        i = v + 1;
    }
    proof {
        if i >= r@.len() {
            assert(r@.skip(i as int) =~= Seq::<u8>::empty());
        }
        assert(out.deep_view() + Seq::<(Seq<u8>, Seq<u8>)>::empty() =~~= out.deep_view());
    }
    out
}

/// `find_name_end` is the first index ending a name.
proof fn lemma_find_name_end_is(s: Seq<u8>, k: int)
    requires
        0 <= k <= s.len(),
        forall|j: int| 0 <= j < k ==> s[j] != 61 && s[j] != 47 && !is_ws(s[j]),
        k < s.len() ==> (s[k] == 61 || s[k] == 47 || is_ws(s[k])),
    ensures
        find_name_end(s) == k,
    decreases s.len(),
{
    if s.len() == 0 {
    } else if s[0] == 61 || s[0] == 47 || is_ws(s[0]) {
        assert(k == 0);
    } else {
        assert(k >= 1);
        lemma_find_name_end_is(s.skip(1), k - 1);
    }
}

/// `find_non_ws` is the first non-whitespace index.
proof fn lemma_find_non_ws_is(s: Seq<u8>, k: int)
    requires
        0 <= k <= s.len(),
        forall|j: int| 0 <= j < k ==> is_ws(s[j]),
        k < s.len() ==> !is_ws(s[k]),
    ensures
        find_non_ws(s) == k,
    decreases s.len(),
{
    if s.len() == 0 {
    } else if !is_ws(s[0]) {
        assert(k == 0);
    } else {
        assert(k >= 1);
        lemma_find_non_ws_is(s.skip(1), k - 1);
    }
}

/// The name of a tag, executed.
pub fn tag_name_e(tag: &[u8]) -> (r: Vec<u8>)
    ensures
        r@ =~= tag_name(tag@),
{
    let mut ne: usize = 0;
    while ne < tag.len() && tag[ne] != 61 && tag[ne] != 47 && !is_ws_e(tag[ne])
        invariant
            0 <= ne <= tag@.len(),
            forall|j: int|
                0 <= j < ne ==> tag@[j] != 61 && tag@[j] != 47 && !is_ws(#[trigger] tag@[j]),
        decreases tag@.len() - ne,
    {
        ne += 1;
    }
    proof {
        lemma_find_name_end_is(tag@, ne as int);
    }
    sub_vec(tag, 0, ne)
}

/// The attribute pairs of a tag, executed.
pub fn tag_attrs_e(tag: &[u8]) -> (r: Vec<(Vec<u8>, Vec<u8>)>)
    ensures
        r.deep_view() =~~= tag_attrs(tag@),
{
    let mut ne: usize = 0;
    while ne < tag.len() && tag[ne] != 61 && tag[ne] != 47 && !is_ws_e(tag[ne])
        invariant
            0 <= ne <= tag@.len(),
            forall|j: int|
                0 <= j < ne ==> tag@[j] != 61 && tag@[j] != 47 && !is_ws(#[trigger] tag@[j]),
        decreases tag@.len() - ne,
    {
        ne += 1;
    }
    proof {
        lemma_find_name_end_is(tag@, ne as int);
    }
    let rest = sub_vec(tag, ne, tag.len());
    proof {
        assert(rest@ =~= tag@.skip(ne as int));
    }
    parse_attrs(rest.as_slice())
}

/// Looks an attribute up by name.
pub fn attrs_get(attrs: &Vec<(Vec<u8>, Vec<u8>)>, name: &[u8]) -> (r: Vec<u8>)
    ensures
        r@ =~= attr_get(attrs.deep_view(), name@),
{
    let ghost ad = attrs.deep_view();
    let mut k: usize = 0;
    proof {
        assert(ad.skip(0) =~= ad);
    }
    while k < attrs.len()
        invariant
            0 <= k <= attrs@.len(),
            ad == attrs.deep_view(),
            ad.len() == attrs@.len(),
            forall|j: int|
                0 <= j < ad.len() ==> #[trigger] ad[j] == (attrs@[j].0@, attrs@[j].1@),
            attr_get(ad, name@) == attr_get(ad.skip(k as int), name@),
        decreases attrs@.len() - k,
    {
        proof {
            assert(ad.skip(k as int)[0] == ad[k as int]);
            assert(ad.skip(k as int).skip(1) =~= ad.skip(k as int + 1));
        }
        if crate::numparse::bytes_eq(attrs[k].0.as_slice(), name) {
            let val = &attrs[k].1;
            let r = sub_vec(val.as_slice(), 0, val.len());
            proof {
                assert(r@ =~= attrs@[k as int].1@);
            }
            return r;
        }
        k += 1;
    }
    proof {
        assert(ad.skip(k as int) =~= Seq::<(Seq<u8>, Seq<u8>)>::empty());
    }
    Vec::new()
}

} // verus!
