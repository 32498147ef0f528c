//! Byte-level reading of mesh text: whitespace tokens, integer and
//! floating-point literals, face-vertex references and fan triangulation.

use vstd::prelude::*;
use vstd::string::StringSliceAdditionalSpecFns;

verus! {

/// ASCII whitespace: space, tab, line feed, vertical tab, form feed, carriage return.
pub open spec fn is_ws(b: u8) -> bool {
    b == 32u8 || (9u8 <= b && b <= 13u8)
}

pub open spec fn is_digit(b: u8) -> bool {
    48u8 <= b && b <= 57u8
}

pub open spec fn all_digits(s: Seq<u8>) -> bool {
    forall|i: int| 0 <= i < s.len() ==> is_digit(#[trigger] s[i])
}

/// The value of a string of decimal digits, most significant first.
pub open spec fn digits_value(s: Seq<u8>) -> int
    decreases s.len(),
{
    if s.len() == 0 {
        0
    } else {
        digits_value(s.drop_last()) * 10 + (s.last() - 48u8)
    }
}

/// The value of a decimal `i32` literal: an optional sign, then one or more
/// digits, within the range of `i32`.
pub open spec fn int_literal_value(s: Seq<u8>) -> Option<i32> {
    let signed = s.len() > 0 && (s[0] == 43u8 || s[0] == 45u8);
    let digits = if signed { s.subrange(1, s.len() as int) } else { s };
    let mag = digits_value(digits);
    let v = if s.len() > 0 && s[0] == 45u8 { -mag } else { mag };
    if digits.len() == 0 || !all_digits(digits) || v < i32::MIN || v > i32::MAX {
        None
    } else {
        Some(v as i32)
    }
}

/// Where a 1-based (positive) or end-relative (negative) reference lands in a
/// list of `len` elements, if it lands inside the list and fits in `u32`.
pub open spec fn resolve_spec(obj_idx: int, len: int) -> Option<u32> {
    let i = if obj_idx > 0 { obj_idx - 1 } else { len + obj_idx };
    if 0 <= i < len && i <= u32::MAX {
        Some(i as u32)
    } else {
        None
    }
}

/// Resolves a face reference against a list of `len` elements: `i > 0` names
/// element `i - 1`, `i < 0` names element `len + i`, and `0` names none.
pub fn resolve_idx(obj_idx: i32, len: usize) -> (r: Option<u32>)
    ensures
        r == resolve_spec(obj_idx as int, len as int),
{
    if len == 0 {
        return None;
    }
    let idx0: i128 = if obj_idx > 0 {
        obj_idx as i128 - 1
    } else {
        len as i128 + obj_idx as i128
    };
    if idx0 < 0 || idx0 >= len as i128 || idx0 > u32::MAX as i128 {
        None
    } else {
        Some(idx0 as u32)
    }
}

/// A negative reference `-k` names the same element as the positive reference
/// `len - k + 1`: both count to the same place in a list of known length.
pub proof fn lemma_negative_matches_positive(k: int, len: int)
    requires
        1 <= k <= len,
        len <= u32::MAX + 1,
    ensures
        resolve_spec(-k, len) == resolve_spec(len - k + 1, len),
        resolve_spec(-k, len) == Some((len - k) as u32),
{
}

const DIGITS_CAP: i64 = 0x1_0000_0000;

proof fn lemma_digits_step(s: Seq<u8>, i: int)
    requires
        0 <= i < s.len(),
    ensures
        digits_value(s.subrange(0, i + 1)) == digits_value(s.subrange(0, i)) * 10 + (s[i] - 48u8),
{
    assert(s.subrange(0, i + 1).drop_last() =~= s.subrange(0, i));
}

proof fn lemma_digits_nonneg(s: Seq<u8>)
    requires
        all_digits(s),
    ensures
        digits_value(s) >= 0,
    decreases s.len(),
{
    if s.len() > 0 {
        lemma_digits_nonneg(s.drop_last());
    }
}

/// Reads a decimal `i32` literal: an optional `+` or `-`, then digits only.
pub fn parse_i32(s: &[u8]) -> (r: Option<i32>)
    ensures
        r == int_literal_value(s@),
{
    let n = s.len();
    let neg = n > 0 && s[0] == 45u8;
    let start: usize = if n > 0 && (s[0] == 43u8 || s[0] == 45u8) { 1 } else { 0 };
    let ghost digits = s@.subrange(start as int, n as int);
    assert(start == 0 ==> digits =~= s@);
    if start >= n {
        return None;
    }
    let mut acc: i64 = 0;
    let mut i: usize = start;
    while i < n
        invariant
            start <= i <= n,
            n == s@.len(),
            start == (if n > 0 && (s@[0] == 43u8 || s@[0] == 45u8) { 1usize } else { 0usize }),
            neg == (n > 0 && s@[0] == 45u8),
            digits == s@.subrange(start as int, n as int),
            all_digits(digits.subrange(0, i - start)),
            0 <= acc <= DIGITS_CAP,
            acc == if digits_value(digits.subrange(0, i - start)) < DIGITS_CAP {
                digits_value(digits.subrange(0, i - start))
            } else {
                DIGITS_CAP as int
            },
        decreases n - i,
    {
        let b = s[i];
        if b < 48u8 || b > 57u8 {
            assert(digits[i - start] == b);
            assert(!is_digit(digits[i - start]));
            assert(!all_digits(digits));
            assert(start == 1 ==> digits == s@.subrange(1, s@.len() as int));

            return None;
        }
        proof {
            lemma_digits_step(digits, i - start);
            lemma_digits_nonneg(digits.subrange(0, i - start));
            assert(digits.subrange(0, i + 1 - start).drop_last() =~= digits.subrange(0, i - start));
            assert forall|k: int| 0 <= k < i + 1 - start implies is_digit(
                #[trigger] digits.subrange(0, i + 1 - start)[k],
            ) by {
                if k < i - start {
                    assert(digits.subrange(0, i + 1 - start)[k] == digits.subrange(0, i - start)[k]);
                }
            }
        }
        let next: i64 = acc * 10 + (b - 48u8) as i64;
        acc = if next < DIGITS_CAP { next } else { DIGITS_CAP };
        i = i + 1;
    }
    assert(digits.subrange(0, n - start) =~= digits);
    if neg {
        if acc > 0x8000_0000 {
            None
        } else {
            Some((0 - acc) as i32)
        }
    } else {
        if acc > 0x7fff_ffff {
            None
        } else {
            Some(acc as i32)
        }
    }
}


pub const SLASH: u8 = 47;

/// The first position at or after `from` that holds `c`, or the length.
pub open spec fn find_byte(s: Seq<u8>, c: u8, from: int) -> int
    decreases s.len() - from,
{
    if from < 0 || from >= s.len() {
        s.len() as int
    } else if s[from] == c {
        from
    } else {
        find_byte(s, c, from + 1)
    }
}

pub(crate) fn find_byte_from(s: &[u8], c: u8, from: usize) -> (r: usize)
    requires
        from <= s@.len(),
    ensures
        r == find_byte(s@, c, from as int),
        from <= r <= s@.len(),
{
    let mut i: usize = from;
    while i < s.len()
        invariant
            from <= i <= s@.len(),
            find_byte(s@, c, i as int) == find_byte(s@, c, from as int),
        decreases s@.len() - i,
    {
        if s[i] == c {
            return i;
        }
        i = i + 1;
    }
    i
}

/// An optional reference: empty text means absent; otherwise it must be an
/// integer that resolves inside a list of `len` elements (outer `None`: error).
pub open spec fn optional_ref_spec(part: Seq<u8>, len: int) -> Option<Option<u32>> {
    if part.len() == 0 {
        Some(None)
    } else {
        match int_literal_value(part) {
            Some(i) => match resolve_spec(i as int, len) {
                Some(k) => Some(Some(k)),
                None => None,
            },
            None => None,
        }
    }
}

/// A face-vertex reference `v`, `v/vt`, `v//vn` or `v/vt/vn`, resolved against
/// lists of the given lengths; text after a third slash is not read.
pub open spec fn face_vertex_spec(t: Seq<u8>, vlen: int, vtlen: int, vnlen: int) -> Option<
    (u32, Option<u32>, Option<u32>),
> {
    let p1 = find_byte(t, SLASH, 0);
    let p2 = find_byte(t, SLASH, p1 + 1);
    let p3 = find_byte(t, SLASH, p2 + 1);
    let v = match int_literal_value(t.subrange(0, p1)) {
        Some(i) => resolve_spec(i as int, vlen),
        None => None,
    };
    let vt = if p1 < t.len() {
        optional_ref_spec(t.subrange(p1 + 1, p2), vtlen)
    } else {
        Some(None)
    };
    let vn = if p2 < t.len() {
        optional_ref_spec(t.subrange(p2 + 1, p3), vnlen)
    } else {
        Some(None)
    };
    match (v, vt, vn) {
        (Some(a), Some(b), Some(c)) => Some((a, b, c)),
        _ => None,
    }
}

fn optional_ref(part: &[u8], len: usize) -> (r: Option<Option<u32>>)
    ensures
        r == optional_ref_spec(part@, len as int),
{
    if part.len() == 0 {
        return Some(None);
    }
    match parse_i32(part) {
        Some(i) => match resolve_idx(i, len) {
            Some(k) => Some(Some(k)),
            None => None,
        },
        None => None,
    }
}

/// Reads one face-vertex reference given as bytes.
pub fn parse_face_vertex_bytes(t: &[u8], vlen: usize, vtlen: usize, vnlen: usize) -> (r: Option<
    (u32, Option<u32>, Option<u32>),
>)
    ensures
        r == face_vertex_spec(t@, vlen as int, vtlen as int, vnlen as int),
{
    let n = t.len();
    let p1 = find_byte_from(t, SLASH, 0);
    let p2 = if p1 < n { find_byte_from(t, SLASH, p1 + 1) } else { n };
    let p3 = if p2 < n { find_byte_from(t, SLASH, p2 + 1) } else { n };
    let v = match parse_i32(vstd::slice::slice_subrange(t, 0, p1)) {
        Some(i) => resolve_idx(i, vlen),
        None => None,
    };
    let vt = if p1 < n {
        optional_ref(vstd::slice::slice_subrange(t, p1 + 1, p2), vtlen)
    } else {
        Some(None)
    };
    let vn = if p2 < n {
        optional_ref(vstd::slice::slice_subrange(t, p2 + 1, p3), vnlen)
    } else {
        Some(None)
    };
    match (v, vt, vn) {
        (Some(a), Some(b), Some(c)) => Some((a, b, c)),
        _ => None,
    }
}

/// Reads one face-vertex reference (`v`, `v/vt`, `v//vn` or `v/vt/vn`), with
/// 1-based or end-relative indices resolved against the current list lengths.
pub fn parse_face_vertex(token: &str, vlen: usize, vtlen: usize, vnlen: usize) -> (r: Option<
    (u32, Option<u32>, Option<u32>),
>)
    ensures
        r == face_vertex_spec(token.spec_bytes(), vlen as int, vtlen as int, vnlen as int),
{
    parse_face_vertex_bytes(token.as_bytes(), vlen, vtlen, vnlen)
}

/// Splits a polygon `p0 .. p(n-1)` into the fan `(p0, p(i-1), p(i))`, `2 <= i < n`.
pub fn triangulate_fan<T: Copy>(poly: &[T]) -> (tris: Vec<[T; 3]>)
    ensures
        tris@.len() == (if poly@.len() >= 2 { poly@.len() - 2 } else { 0int }),
        forall|k: int|
            0 <= k < tris@.len() ==> (#[trigger] tris@[k])@ == seq![
                poly@[0],
                poly@[k + 1],
                poly@[k + 2],
            ],
{
    let mut tris: Vec<[T; 3]> = Vec::new();
    let mut i: usize = 2;
    while i < poly.len()
        invariant
            2 <= i,
            poly@.len() >= 2 ==> i <= poly@.len(),
            poly@.len() < 2 ==> i == 2,
            tris@.len() == i - 2,
            forall|k: int|
                0 <= k < tris@.len() ==> (#[trigger] tris@[k])@ == seq![
                    poly@[0],
                    poly@[k + 1],
                    poly@[k + 2],
                ],
        decreases poly@.len() - i,
    {
        let tri = [poly[0], poly[i - 1], poly[i]];
        assert(tri@ =~= seq![poly@[0], poly@[i - 1], poly@[i as int]]);
        tris.push(tri);
        i = i + 1;
    }
    tris
}


/// The first position at or after `i` that is not a digit, or the length.
pub open spec fn digit_end(s: Seq<u8>, i: int) -> int
    decreases s.len() - i,
{
    if 0 <= i < s.len() && is_digit(s[i]) {
        digit_end(s, i + 1)
    } else {
        i
    }
}

pub open spec fn ascii_lower(b: u8) -> u8 {
    if 65u8 <= b && b <= 90u8 {
        (b + 32) as u8
    } else {
        b
    }
}

/// `inf`, `infinity` or `nan`, in any case.
pub open spec fn is_special_float(t: Seq<u8>) -> bool {
    let l = t.map_values(|b: u8| ascii_lower(b));
    l == seq![105u8, 110u8, 102u8] || l == seq![
        105u8,
        110u8,
        102u8,
        105u8,
        110u8,
        105u8,
        116u8,
        121u8,
    ] || l == seq![110u8, 97u8, 110u8]
}

/// Nothing from `e` on, or `e`/`E`, an optional sign and one or more digits to the end.
pub open spec fn exponent_ok(s: Seq<u8>, e: int) -> bool {
    e == s.len() || (0 <= e < s.len() && (s[e] == 101u8 || s[e] == 69u8) && {
        let es = if e + 1 < s.len() && (s[e + 1] == 43u8 || s[e + 1] == 45u8) {
            e + 2
        } else {
            e + 1
        };
        es < s.len() && digit_end(s, es) == s.len()
    })
}

/// A floating-point literal: an optional sign, then `inf`, `infinity`, `nan`,
/// or digits with an optional fraction (at least one digit in all) and an
/// optional exponent.
pub open spec fn is_float_literal(s: Seq<u8>) -> bool {
    let b: int = if s.len() > 0 && (s[0] == 43u8 || s[0] == 45u8) { 1 } else { 0 };
    let d1 = digit_end(s, b);
    let frac = d1 < s.len() && s[d1] == 46u8;
    let d2 = if frac { digit_end(s, d1 + 1) } else { d1 };
    let mant = d1 > b || (frac && d2 > d1 + 1);
    (mant && exponent_ok(s, d2)) || is_special_float(s.subrange(b, s.len() as int))
}

proof fn lemma_digit_end_bounds(s: Seq<u8>, i: int)
    requires
        0 <= i <= s.len(),
    ensures
        i <= digit_end(s, i) <= s.len(),
    decreases s.len() - i,
{
    if i < s.len() && is_digit(s[i]) {
        lemma_digit_end_bounds(s, i + 1);
    }
}

fn digit_end_from(s: &[u8], from: usize) -> (r: usize)
    requires
        from <= s@.len(),
    ensures
        r == digit_end(s@, from as int),
        from <= r <= s@.len(),
{
    let mut i: usize = from;
    while i < s.len() && s[i] >= 48u8 && s[i] <= 57u8
        invariant
            from <= i <= s@.len(),
            digit_end(s@, i as int) == digit_end(s@, from as int),
        decreases s@.len() - i,
    {
        i = i + 1;
    }
    i
}

fn lower(b: u8) -> (r: u8)
    ensures
        r == ascii_lower(b),
{
    if b >= 65u8 && b <= 90u8 {
        b + 32
    } else {
        b
    }
}

fn special_float(t: &[u8]) -> (r: bool)
    ensures
        r == is_special_float(t@),
{
    let ghost l = t@.map_values(|b: u8| ascii_lower(b));
    let ghost inf = seq![105u8, 110u8, 102u8];
    let ghost infinity = seq![105u8, 110u8, 102u8, 105u8, 110u8, 105u8, 116u8, 121u8];
    let ghost nan = seq![110u8, 97u8, 110u8];
    if t.len() == 3 {
        let a = lower(t[0]);
        let b = lower(t[1]);
        let c = lower(t[2]);
        let is_inf = a == 105u8 && b == 110u8 && c == 102u8;
        let is_nan = a == 110u8 && b == 97u8 && c == 110u8;
        proof {
            if is_inf {
                assert(l =~= inf);
            } else if is_nan {
                assert(l =~= nan);
            } else {
                assert(l[0] == a && l[1] == b && l[2] == c);
                assert(l != inf && l != nan && l.len() != infinity.len());
            }
        }
        is_inf || is_nan
    } else if t.len() == 8 {
        let mut i: usize = 0;
        while i < 8
            invariant
                i <= 8,
                t@.len() == 8,
                l == t@.map_values(|b: u8| ascii_lower(b)),
                infinity == seq![105u8, 110u8, 102u8, 105u8, 110u8, 105u8, 116u8, 121u8],
                forall|k: int| 0 <= k < i ==> l[k] == infinity[k],
            decreases 8 - i,
        {
            let w: u8 = if i == 0 || i == 3 || i == 5 {
                105u8
            } else if i == 1 || i == 4 {
                110u8
            } else if i == 2 {
                102u8
            } else if i == 6 {
                116u8
            } else {
                121u8
            };
            assert(w == infinity[i as int]);
            if lower(t[i]) != w {
                assert(l[i as int] != infinity[i as int]);
                assert(l.len() == 8);
                assert(l != infinity);
                return false;
            }
            i = i + 1;
        }
        assert(l =~= infinity);
        true
    } else {
        assert(l.len() != 3 && l.len() != 8);
        false
    }
}

/// Tells whether `s` is a floating-point literal in the sense of `is_float_literal`.
pub fn is_number(s: &[u8]) -> (r: bool)
    ensures
        r == is_float_literal(s@),
{
    let n = s.len();
    let b: usize = if n > 0 && (s[0] == 43u8 || s[0] == 45u8) { 1 } else { 0 };
    let d1 = digit_end_from(s, b);
    let frac = d1 < n && s[d1] == 46u8;
    let d2 = if frac { digit_end_from(s, d1 + 1) } else { d1 };
    let mant = d1 > b || (frac && d2 > d1 + 1);
    let exp = if d2 == n {
        true
    } else if s[d2] == 101u8 || s[d2] == 69u8 {
        let es: usize = if d2 + 1 < n && (s[d2 + 1] == 43u8 || s[d2 + 1] == 45u8) {
            d2 + 2
        } else {
            d2 + 1
        };
        es < n && digit_end_from(s, es) == n
    } else {
        false
    };
    (mant && exp) || special_float(vstd::slice::slice_subrange(s, b, n))
}

/// The first position at or after `i` that is not whitespace, or the length.
pub open spec fn skip_ws(s: Seq<u8>, i: int) -> int
    decreases s.len() - i,
{
    if 0 <= i < s.len() && is_ws(s[i]) {
        skip_ws(s, i + 1)
    } else {
        i
    }
}

/// The first position at or after `i` that is whitespace, or the length.
pub open spec fn skip_word(s: Seq<u8>, i: int) -> int
    decreases s.len() - i,
{
    if 0 <= i < s.len() && !is_ws(s[i]) {
        skip_word(s, i + 1)
    } else {
        i
    }
}

/// The maximal runs of non-whitespace bytes from position `i` on, in order.
pub open spec fn tokens_from(s: Seq<u8>, i: int) -> Seq<Seq<u8>>
    decreases s.len() - i,
{
    let a = skip_ws(s, i);
    if i < 0 || a < i || a >= s.len() {
        seq![]
    } else {
        let b = skip_word(s, a);
        if b <= a || b > s.len() {
            seq![]
        } else {
            seq![s.subrange(a, b)] + tokens_from(s, b)
        }
    }
}

pub open spec fn tokens(s: Seq<u8>) -> Seq<Seq<u8>> {
    tokens_from(s, 0)
}

pub open spec fn views_of(v: Seq<&[u8]>) -> Seq<Seq<u8>> {
    v.map_values(|t: &[u8]| t@)
}

/// Splits `line` into its whitespace-separated tokens.
pub fn split_tokens(line: &[u8]) -> (toks: Vec<&[u8]>)
    ensures
        views_of(toks@) == tokens(line@),
{
    let n = line.len();
    let mut toks: Vec<&[u8]> = Vec::new();
    let mut i: usize = 0;
    while i < n
        invariant
            i <= n,
            n == line@.len(),
            tokens(line@) == views_of(toks@) + tokens_from(line@, i as int),
        decreases n - i,
    {
        let mut j: usize = i;
        while j < n && (line[j] == 32u8 || (line[j] >= 9u8 && line[j] <= 13u8))
            invariant
                i <= j <= n,
                n == line@.len(),
                skip_ws(line@, j as int) == skip_ws(line@, i as int),
            decreases n - j,
        {
            j = j + 1;
        }
        if j >= n {
            assert(tokens_from(line@, i as int) =~= seq![]);
            assert(views_of(toks@) + seq![] =~= views_of(toks@));
            assert(tokens_from(line@, n as int) =~= seq![]);
            i = n;
        } else {
            let mut k: usize = j;
            while k < n && !(line[k] == 32u8 || (line[k] >= 9u8 && line[k] <= 13u8))
                invariant
                    j <= k <= n,
                    n == line@.len(),
                    skip_word(line@, k as int) == skip_word(line@, j as int),
                decreases n - k,
            {
                k = k + 1;
            }
            let t = vstd::slice::slice_subrange(line, j, k);
            proof {
                assert(tokens_from(line@, i as int) == seq![line@.subrange(j as int, k as int)]
                    + tokens_from(line@, k as int));
                assert(views_of(toks@.push(t)) =~= views_of(toks@).push(t@));
                assert(views_of(toks@).push(t@) + tokens_from(line@, k as int) =~= views_of(toks@)
                    + (seq![line@.subrange(j as int, k as int)] + tokens_from(line@, k as int)));
            }
            toks.push(t);
            i = k;
        }
    }
    assert(tokens_from(line@, n as int) =~= seq![]);
    assert(views_of(toks@) + seq![] =~= views_of(toks@));
    toks
}

} // verus!
