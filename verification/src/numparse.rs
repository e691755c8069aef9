//! Lexical ground of the pipeline: byte classification, splitting, and the
//! exact decimal-number reader.
//!
//! The document text reaches the engine as bytes.  A numeric operand is read
//! into the fixed-point scale of `fx` exactly: the integer part times
//! `FX_ONE` plus each fraction digit at its decimal weight, truncated past
//! the eleventh fraction digit.  The grammar is an optional sign, digits, an
//! optional dot and fraction digits; anything else — and any magnitude of a
//! million canvas units or more — is a `NumericParseError`.

use vstd::prelude::*;
use crate::fx::FX_ONE;
use crate::SvgError;

verus! {

/// Largest magnitude a parsed operand may have: under a million canvas
/// units.
pub const OPERAND_MAX: i128 = 100_000_000_000_000_000;

/// ASCII decimal digit.
pub open spec fn is_digit(c: u8) -> bool {
    48 <= c <= 57
}

/// ASCII whitespace as the path grammar knows it.
pub open spec fn is_ws(c: u8) -> bool {
    c == 32 || c == 9 || c == 10 || c == 13
}

/// Every byte of the sequence is a decimal digit.
pub open spec fn all_digits(s: Seq<u8>) -> bool {
    forall|j: int| 0 <= j < s.len() ==> is_digit(#[trigger] s[j])
}

/// The value of a digit string, most significant digit first.
pub open spec fn digits_val(s: Seq<u8>) -> int
    decreases s.len(),
{
    if s.len() == 0 {
        0
    } else {
        digits_val(s.drop_last()) * 10 + (s.last() - 48)
    }
}

/// The value of a fraction-digit string at a starting weight `w`
/// (one tenth of a unit for the first digit after the dot); digits whose
/// weight has reached zero are truncated away.
pub open spec fn frac_val(s: Seq<u8>, w: int) -> int
    decreases s.len(),
{
    if s.len() == 0 {
        0
    } else {
        (s[0] - 48) * w + frac_val(s.skip(1), w / 10)
    }
}

/// Index of the first occurrence of `sep`, or the length if absent.
pub open spec fn find_byte(s: Seq<u8>, sep: u8) -> nat
    decreases s.len(),
{
    if s.len() == 0 {
        0
    } else if s[0] == sep {
        0
    } else {
        1 + find_byte(s.skip(1), sep)
    }
}

/// Index of the first whitespace byte, or the length if absent.
pub open spec fn find_ws(s: Seq<u8>) -> nat
    decreases s.len(),
{
    if s.len() == 0 {
        0
    } else if is_ws(s[0]) {
        0
    } else {
        1 + find_ws(s.skip(1))
    }
}

/// The chunks of `s` between occurrences of `sep`; empty chunks are kept,
/// so the result has one chunk more than `s` has separators.
pub open spec fn spec_split_byte(s: Seq<u8>, sep: u8) -> Seq<Seq<u8>>
    decreases s.len(),
{
    let f = find_byte(s, sep);
    if f >= s.len() {
        seq![s]
    } else {
        seq![s.take(f as int)] + spec_split_byte(s.skip(f as int + 1), sep)
    }
}

/// The whitespace-separated fields of `s`, in order, without empties.
pub open spec fn spec_split_ws(s: Seq<u8>) -> Seq<Seq<u8>>
    decreases s.len(),
{
    if s.len() == 0 {
        Seq::empty()
    } else if is_ws(s[0]) {
        spec_split_ws(s.skip(1))
    } else {
        let e = if find_ws(s) < s.len() {
            find_ws(s) as int
        } else {
            s.len() as int
        };
        seq![s.take(e)] + spec_split_ws(s.skip(e))
    }
}

/// `s` without leading and trailing whitespace.
pub open spec fn spec_trim(s: Seq<u8>) -> Seq<u8>
    decreases s.len(),
{
    if s.len() == 0 {
        Seq::empty()
    } else if is_ws(s[0]) {
        spec_trim(s.skip(1))
    } else if is_ws(s.last()) {
        spec_trim(s.drop_last())
    } else {
        s
    }
}

/// The digits of a number, past its sign.
pub open spec fn num_body(s: Seq<u8>) -> Seq<u8> {
    if s.len() > 0 && (s[0] == 45 || s[0] == 43) {
        s.skip(1)
    } else {
        s
    }
}

/// The sign of a number: minus one exactly for a leading minus.
pub open spec fn num_sign(s: Seq<u8>) -> int {
    if s.len() > 0 && s[0] == 45 {
        -1
    } else {
        1
    }
}

/// Whether `s` matches the number grammar: an optional sign, then digits
/// with at most one dot and at least one digit.
pub open spec fn valid_number(s: Seq<u8>) -> bool {
    let b = num_body(s);
    let d = find_byte(b, 46);
    &&& b.len() > 0
    &&& d < b.len() ==> b.len() > 1
    &&& all_digits(b.take(d as int))
    &&& d < b.len() ==> all_digits(b.skip(d as int + 1))
}

/// The fixed-point value of a number that matches the grammar.
pub open spec fn number_val(s: Seq<u8>) -> int {
    let b = num_body(s);
    let d = find_byte(b, 46);
    let ip = digits_val(b.take(d as int)) * FX_ONE;
    let fp = if d < b.len() {
        frac_val(b.skip(d as int + 1), FX_ONE / 10)
    } else {
        0
    };
    num_sign(s) * (ip + fp)
}

/// Whether the reader accepts `s`: the grammar holds and the integer part
/// stays under a million units.
pub open spec fn number_ok(s: Seq<u8>) -> bool {
    let b = num_body(s);
    let d = find_byte(b, 46);
    valid_number(s) && digits_val(b.take(d as int)) < 1_000_000
}

/// What `find_byte` finds: an index at most the length, holding `sep` when
/// inside, with no occurrence before it.
pub proof fn lemma_find_byte_props(s: Seq<u8>, sep: u8)
    ensures
        find_byte(s, sep) <= s.len(),
        find_byte(s, sep) < s.len() ==> s[find_byte(s, sep) as int] == sep,
        forall|j: int| 0 <= j < find_byte(s, sep) ==> s[j] != sep,
    decreases s.len(),
{
    if s.len() == 0 {
    } else if s[0] == sep {
    } else {
        lemma_find_byte_props(s.skip(1), sep);
        assert(forall|j: int| 1 <= j < s.len() ==> s[j] == s.skip(1)[j - 1]);
    }
}

/// `find_byte` is the first index whose byte is `sep`.
pub proof fn lemma_find_byte_is(s: Seq<u8>, sep: u8, k: int)
    requires
        0 <= k <= s.len(),
        forall|j: int| 0 <= j < k ==> s[j] != sep,
        k < s.len() ==> s[k] == sep,
    ensures
        find_byte(s, sep) == k,
    decreases s.len(),
{
    if s.len() == 0 {
    } else if s[0] == sep {
        assert(k == 0);
    } else {
        assert(k >= 1);
        lemma_find_byte_is(s.skip(1), sep, k - 1);
    }
}

/// `find_ws` is the first index whose byte is whitespace.
pub proof fn lemma_find_ws_is(s: Seq<u8>, k: int)
    requires
        0 <= k <= s.len(),
        forall|j: int| 0 <= j < k ==> !is_ws(s[j]),
        k < s.len() ==> is_ws(s[k]),
    ensures
        find_ws(s) == k,
    decreases s.len(),
{
    if s.len() == 0 {
    } else if is_ws(s[0]) {
        assert(k == 0);
    } else {
        assert(k >= 1);
        lemma_find_ws_is(s.skip(1), k - 1);
    }
}

/// Digit strings have non-negative values.
pub proof fn lemma_digits_val_nonneg(s: Seq<u8>)
    requires
        all_digits(s),
    ensures
        digits_val(s) >= 0,
    decreases s.len(),
{
    if s.len() > 0 {
        assert(all_digits(s.drop_last())) by {
            assert(forall|j: int|
                0 <= j < s.len() - 1 ==> #[trigger] s.drop_last()[j] == s[j]);
        }
        lemma_digits_val_nonneg(s.drop_last());
    }
}

/// A digit string is worth at least any of its prefixes.
pub proof fn lemma_digits_val_prefix(s: Seq<u8>, k: int)
    requires
        all_digits(s),
        0 <= k <= s.len(),
    ensures
        digits_val(s) >= digits_val(s.take(k)),
    decreases s.len(),
{
    if k == s.len() {
        assert(s.take(k) =~= s);
    } else {
        assert(all_digits(s.drop_last())) by {
            assert(forall|j: int|
                0 <= j < s.len() - 1 ==> #[trigger] s.drop_last()[j] == s[j]);
        }
        lemma_digits_val_prefix(s.drop_last(), k);
        assert(s.drop_last().take(k) =~= s.take(k));
        lemma_digits_val_nonneg(s.drop_last());
        assert(digits_val(s.drop_last()) * 10 >= digits_val(s.drop_last())) by (nonlinear_arith)
            requires
                digits_val(s.drop_last()) >= 0,
        ;
    }
}

/// Equality of two byte slices.
pub fn bytes_eq(a: &[u8], b: &[u8]) -> (r: bool)
    ensures
        r <==> a@ =~= b@,
{
    if a.len() != b.len() {
        return false;
    }
    let mut i: usize = 0;
    while i < a.len()
        invariant
            0 <= i <= a.len(),
            a.len() == b.len(),
            forall|j: int| 0 <= j < i ==> a@[j] == b@[j],
        decreases a.len() - i,
    {
        if a[i] != b[i] {
            return false;
        }
        i += 1;
    }
    proof {
        assert(a@ =~= b@);
    }
    true
}

/// Whether `p` is a prefix of `s`.
pub fn starts_with(s: &[u8], p: &[u8]) -> (r: bool)
    ensures
        r <==> (s@.len() >= p@.len() && s@.take(p@.len() as int) =~= p@),
{
    if s.len() < p.len() {
        return false;
    }
    let mut i: usize = 0;
    while i < p.len()
        invariant
            0 <= i <= p.len(),
            p.len() <= s.len(),
            forall|j: int| 0 <= j < i ==> s@[j] == p@[j],
        decreases p.len() - i,
    {
        if s[i] != p[i] {
            proof {
                assert(s@.take(p@.len() as int)[i as int] == s@[i as int]);
            }
            return false;
        }
        i += 1;
    }
    proof {
        assert(s@.take(p@.len() as int) =~= p@);
    }
    true
}

/// A sub-slice as an owned vector.
pub fn sub_vec(s: &[u8], from: usize, to: usize) -> (r: Vec<u8>)
    requires
        from <= to <= s@.len(),
    ensures
        r@ =~= s@.subrange(from as int, to as int),
{
    let mut r: Vec<u8> = Vec::new();
    let mut i: usize = from;
    while i < to
        invariant
            from <= i <= to <= s@.len(),
            r@ =~= s@.subrange(from as int, i as int),
        decreases to - i,
    {
        r.push(s[i]);
        proof {
            assert(r@ =~= s@.subrange(from as int, i as int + 1));
        }
        i += 1;
    }
    r
}

/// The chunks of `s` between occurrences of `sep`.
pub fn split_byte(s: &[u8], sep: u8) -> (r: Vec<Vec<u8>>)
    ensures
        r.deep_view() =~~= spec_split_byte(s@, sep),
{
    let mut out: Vec<Vec<u8>> = Vec::new();
    let mut start: usize = 0;
    let mut i: usize = 0;
    proof {
        assert(s@.skip(0) =~= s@);
        assert(out.deep_view() =~~= Seq::<Seq<u8>>::empty());
    }
    while i < s.len()
        invariant
            0 <= start <= i <= s@.len(),
            forall|j: int| start <= j < i ==> s@[j] != sep,
            spec_split_byte(s@, sep) =~~= out.deep_view() + spec_split_byte(
                s@.skip(start as int),
                sep,
            ),
        decreases s.len() - i,
    {
        if s[i] == sep {
            let chunk = sub_vec(s, start, i);
            proof {
                let rest = s@.skip(start as int);
                lemma_find_byte_is(rest, sep, i - start);
                assert(rest.take(i - start) =~= s@.subrange(start as int, i as int));
                assert(rest.skip(i - start + 1) =~= s@.skip(i as int + 1));
            }
            out.push(chunk);
            start = i + 1;
        }
        i += 1;
    }
    let chunk = sub_vec(s, start, s.len());
    proof {
        let rest = s@.skip(start as int);
        lemma_find_byte_is(rest, sep, s@.len() - start);
        assert(rest =~= s@.subrange(start as int, s@.len() as int));
    }
    out.push(chunk);
    out
}

/// The whitespace-separated fields of `s`.
pub fn split_ws(s: &[u8]) -> (r: Vec<Vec<u8>>)
    ensures
        r.deep_view() =~~= spec_split_ws(s@),
{
    let mut out: Vec<Vec<u8>> = Vec::new();
    let mut i: usize = 0;
    proof {
        assert(s@.skip(0) =~= s@);
        assert(out.deep_view() =~~= Seq::<Seq<u8>>::empty());
    }
    while i < s.len()
        invariant
            0 <= i <= s@.len(),
            spec_split_ws(s@) =~~= out.deep_view() + spec_split_ws(s@.skip(i as int)),
        decreases s.len() - i,
    {
        if is_ws_e(s[i]) {
            proof {
                assert(s@.skip(i as int).skip(1) =~= s@.skip(i as int + 1));
            }
            i += 1;
        } else {
            let field_start: usize = i;
            let mut j: usize = i;
            while j < s.len() && !is_ws_e(s[j])
                invariant
                    i <= j <= s@.len(),
                    forall|k: int| i <= k < j ==> !is_ws(s@[k]),
                decreases s.len() - j,
            {
                j += 1;
            }
            let chunk = sub_vec(s, field_start, j);
            proof {
                let rest = s@.skip(i as int);
                lemma_find_ws_is(rest, j - i);
                assert(rest.take(j - i) =~= s@.subrange(i as int, j as int));
                assert(rest.skip(j - i) =~= s@.skip(j as int));
            }
            out.push(chunk);
            i = j;
        }
    }
    proof {
        assert(s@.skip(i as int) =~= Seq::<u8>::empty());
    }
    out
}

/// Executable whitespace test.
pub fn is_ws_e(c: u8) -> (r: bool)
    ensures
        r == is_ws(c),
{
    c == 32 || c == 9 || c == 10 || c == 13
}

/// Executable digit test.
pub fn is_digit_e(c: u8) -> (r: bool)
    ensures
        r == is_digit(c),
{
    48 <= c && c <= 57
}

/// `s` without leading and trailing whitespace.
pub fn trim(s: &[u8]) -> (r: Vec<u8>)
    ensures
        r@ =~= spec_trim(s@),
{
    let mut a: usize = 0;
    let mut b: usize = s.len();
    proof {
        assert(s@.subrange(0, s@.len() as int) =~= s@);
    }
    while a < b && is_ws_e(s[a])
        invariant
            0 <= a <= b <= s@.len(),
            spec_trim(s@) == spec_trim(s@.subrange(a as int, b as int)),
        decreases b - a,
    {
        proof {
            let cur = s@.subrange(a as int, b as int);
            assert(cur.skip(1) =~= s@.subrange(a as int + 1, b as int));
        }
        a += 1;
    }
    while a < b && is_ws_e(s[b - 1])
        invariant
            0 <= a <= b <= s@.len(),
            spec_trim(s@) == spec_trim(s@.subrange(a as int, b as int)),
            a < b ==> !is_ws(s@[a as int]),
        decreases b - a,
    {
        proof {
            let cur = s@.subrange(a as int, b as int);
            assert(cur.drop_last() =~= s@.subrange(a as int, b as int - 1));
        }
        b -= 1;
    }
    let r = sub_vec(s, a, b);
    proof {
        let cur = s@.subrange(a as int, b as int);
        if a < b {
            assert(spec_trim(cur) == cur);
        } else {
            assert(cur =~= Seq::<u8>::empty());
        }
    }
    r
}

/// Reads a decimal number into the fixed-point scale.  Returns exactly
/// `number_val(s)` when `s` matches the grammar and is under a million
/// units in magnitude, and `NumericParseError` otherwise.
pub fn parse_fx(s: &[u8]) -> (r: Result<i128, SvgError>)
    ensures
        match r {
            Ok(v) => number_ok(s@) && v == number_val(s@) && -OPERAND_MAX < v < OPERAND_MAX,
            Err(e) => !number_ok(s@) && e == SvgError::NumericParseError,
        },
{
    let mut i: usize = 0;
    let mut neg: bool = false;
    if s.len() > 0 && (s[0] == 45 || s[0] == 43) {
        neg = s[0] == 45;
        i = 1;
    }
    let ghost b = num_body(s@);
    proof {
        assert(b =~= s@.skip(i as int));
    }
    if i >= s.len() {
        return Err(SvgError::NumericParseError);
    }
    // integer part
    let ip_start: usize = i;
    let mut ip: i128 = 0;
    while i < s.len() && s[i] != 46 && is_digit_e(s[i]) && ip < 1_000_000
        invariant
            ip_start <= i <= s@.len(),
            b =~= s@.skip(ip_start as int),
            all_digits(b.take(i - ip_start)),
            ip == digits_val(b.take(i - ip_start)),
            0 <= ip <= 10_000_000,
            forall|j: int| 0 <= j < i - ip_start ==> b[j] != 46,
        decreases s.len() - i,
    {
        proof {
            let k = i - ip_start;
            assert(b.take(k + 1).drop_last() =~= b.take(k));
            assert(b.take(k + 1).last() == s@[i as int]);
        }
        ip = ip * 10 + ((s[i] - 48) as i128);
        i += 1;
    }
    if ip >= 1_000_000 {
        // the integer part alone reaches a million units
        proof {
            if number_ok(s@) {
                let fd = find_byte(b, 46) as int;
                lemma_find_byte_props(b, 46);
                assert(fd >= i - ip_start);
                lemma_digits_val_prefix(b.take(fd), i - ip_start);
                assert(b.take(fd).take(i - ip_start) =~= b.take(i - ip_start));
            }
        }
        return Err(SvgError::NumericParseError);
    }
    // here: i is at the end, at a dot, or at a byte outside the grammar
    if i < s.len() && s[i] != 46 {
        proof {
            let k = i - ip_start;
            assert(b[k] == s@[i as int]);
            if valid_number(s@) {
                let fd = find_byte(b, 46) as int;
                lemma_find_byte_props(b, 46);
                assert(fd >= k);
                if fd == k {
                    assert(b[fd] == 46);
                } else {
                    assert(b.take(fd)[k] == b[k]);
                    assert(is_digit(b[k]));
                }
            }
        }
        return Err(SvgError::NumericParseError);
    }
    proof {
        lemma_find_byte_is(b, 46, i - ip_start);
    }
    let mut fp: i128 = 0;
    if i < s.len() {
        // fraction part
        let fp_start: usize = i + 1;
        if fp_start >= s.len() && i == ip_start {
            // a bare dot with no digits at all
            return Err(SvgError::NumericParseError);
        }
        let ghost fb = b.skip(i - ip_start + 1);
        proof {
            assert(fb =~= s@.skip(fp_start as int));
        }
        let mut w: i128 = 10_000_000_000;
        let mut j: usize = fp_start;
        proof {
            assert(FX_ONE as int / 10 == 10_000_000_000);
            assert(fb.skip(0) =~= fb);
        }
        while j < s.len()
            invariant
                fp_start <= j <= s@.len(),
                ip_start <= i < s@.len(),
                fp_start == i + 1,
                b =~= s@.skip(ip_start as int),
                b =~= num_body(s@),
                fb =~= s@.skip(fp_start as int),
                fb =~= b.skip(i - ip_start + 1),
                find_byte(b, 46) == i - ip_start,
                all_digits(fb.take(j - fp_start)),
                fp + frac_val(fb.skip(j - fp_start), w as int) == frac_val(fb, FX_ONE / 10),
                0 <= fp,
                w > 0 ==> fp <= FX_ONE - 10 * w,
                w == 0 ==> fp <= FX_ONE - 1,
                0 <= w <= 10_000_000_000,
            decreases s.len() - j,
        {
            if !is_digit_e(s[j]) {
                proof {
                    if valid_number(s@) {
                        assert(all_digits(b.skip(i - ip_start + 1)));
                        assert(is_digit(fb[j - fp_start]));
                        assert(fb[j - fp_start] == s@[j as int]);
                    }
                }
                return Err(SvgError::NumericParseError);
            }
            proof {
                let k = j - fp_start;
                assert(fb.skip(k)[0] == fb[k]);
                assert(fb.skip(k).skip(1) =~= fb.skip(k + 1));
                assert(fb.take(k + 1) =~= fb.take(k).push(fb[k]));
                assert(all_digits(fb.take(k + 1)));
                crate::fx::lemma_mul_bound((fb[k] - 48) as int, w as int, 9, w as int);
                vstd::arithmetic::div_mod::lemma_div_pos_is_pos(w as int, 10);
                vstd::arithmetic::div_mod::lemma_div_is_ordered_by_denominator(w as int, 1, 10);
                assert(10 * (w as int / 10) <= w) by {
                    vstd::arithmetic::div_mod::lemma_fundamental_div_mod(w as int, 10);
                    vstd::arithmetic::div_mod::lemma_mod_bound(w as int, 10);
                }
            }
            fp = fp + ((s[j] - 48) as i128) * w;
            w = crate::fx::tdiv_e(w, 10);
            j += 1;
        }
        proof {
            assert(fb.skip(j - fp_start) =~= Seq::<u8>::empty());
            assert(fb =~= fb.take(j - fp_start));
        }
        i = s.len();
    }
    let magnitude: i128 = ip * FX_ONE + fp;
    proof {
        crate::fx::lemma_mul_bound(ip as int, FX_ONE as int, 999_999, FX_ONE as int);
        assert(ip as int * FX_ONE >= 0) by (nonlinear_arith)
            requires
                ip as int >= 0,
                FX_ONE as int > 0,
        ;
    }
    if neg {
        Ok(-magnitude)
    } else {
        Ok(magnitude)
    }
}

/// The word `true` as bytes.
pub open spec fn lit_true() -> Seq<u8> {
    seq![116u8, 114u8, 117u8, 101u8]
}

/// The word `false` as bytes.
pub open spec fn lit_false() -> Seq<u8> {
    seq![102u8, 97u8, 108u8, 115u8, 101u8]
}

/// Reads an arc flag: exactly the words `true` and `false`.
pub fn parse_flag(s: &[u8]) -> (r: Result<bool, SvgError>)
    ensures
        match r {
            Ok(v) => (v <==> s@ =~= lit_true()) && (v || s@ =~= lit_false()),
            Err(e) => !(s@ =~= lit_true()) && !(s@ =~= lit_false()) && e
                == SvgError::NumericParseError,
        },
{
    let t: [u8; 4] = [116, 114, 117, 101];
    let f: [u8; 5] = [102, 97, 108, 115, 101];
    proof {
        assert(t@ =~= lit_true());
        assert(f@ =~= lit_false());
    }
    if bytes_eq(s, t.as_slice()) {
        Ok(true)
    } else if bytes_eq(s, f.as_slice()) {
        Ok(false)
    } else {
        Err(SvgError::NumericParseError)
    }
}

} // verus!
