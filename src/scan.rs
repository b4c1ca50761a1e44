use vstd::prelude::*;
use vstd::slice::slice_subrange;

verus! {

/// Index of the first `b` in `s`, or -1 when `s` holds none.
pub open spec fn first_index(s: Seq<u8>, b: u8) -> int
    decreases s.len(),
{
    if s.len() == 0 {
        -1
    } else {
        let f = first_index(s.drop_last(), b);
        if f >= 0 {
            f
        } else if s.last() == b {
            s.len() - 1
        } else {
            -1
        }
    }
}

/// A byte found in a prefix is the first one of the whole string.
pub proof fn lemma_first_index_prefix(s: Seq<u8>, b: u8, k: int)
    requires
        0 <= k <= s.len(),
        first_index(s.subrange(0, k), b) >= 0,
    ensures
        first_index(s, b) == first_index(s.subrange(0, k), b),
    decreases s.len(),
{
    if k < s.len() {
        assert(s.drop_last().subrange(0, k) =~= s.subrange(0, k));
        lemma_first_index_prefix(s.drop_last(), b, k);
    } else {
        assert(s.subrange(0, k) =~= s);
    }
}

/// The pieces of `s` between occurrences of `sep`, as `str::split` yields them.
pub open spec fn split(s: Seq<u8>, sep: u8) -> Seq<Seq<u8>>
    decreases s.len(),
{
    if s.len() == 0 {
        seq![Seq::<u8>::empty()]
    } else if s.last() == sep {
        split(s.drop_last(), sep).push(Seq::<u8>::empty())
    } else {
        let p = split(s.drop_last(), sep);
        p.update(p.len() - 1, p.last().push(s.last()))
    }
}

pub proof fn lemma_split_nonempty(s: Seq<u8>, sep: u8)
    ensures
        split(s, sep).len() >= 1,
    decreases s.len(),
{
    if s.len() > 0 {
        lemma_split_nonempty(s.drop_last(), sep);
    }
}

/// True when `s` begins with `p`.
pub open spec fn has_prefix(s: Seq<u8>, p: Seq<u8>) -> bool {
    p.len() <= s.len() && s.subrange(0, p.len() as int) == p
}

/// An owned copy of `s`.
pub fn copy_bytes(s: &[u8]) -> (r: Vec<u8>)
    ensures
        r@ == s@,
{
    let mut r: Vec<u8> = Vec::new();
    let mut i: usize = 0;
    while i < s.len()
        invariant
            i <= s.len(),
            r@ == s@.subrange(0, i as int),
        decreases s.len() - i,
    {
        r.push(s[i]);
        i = i + 1;
        assert(r@ =~= s@.subrange(0, i as int));
    }
    r
}

/// Position of the first byte `b` in `s`.
pub fn find_byte(s: &[u8], b: u8) -> (r: Option<usize>)
    ensures
        match r {
            Some(i) => first_index(s@, b) == i as int && i < s@.len() && s@[i as int] == b,
            None => first_index(s@, b) == -1,
        },
{
    let mut i: usize = 0;
    while i < s.len()
        invariant
            i <= s.len(),
            first_index(s@.subrange(0, i as int), b) == -1,
        decreases s.len() - i,
    {
        assert(s@.subrange(0, i + 1).drop_last() =~= s@.subrange(0, i as int));
        if s[i] == b {
            proof {
                lemma_first_index_prefix(s@, b, i + 1);
            }
            return Some(i);
        }
        i = i + 1;
    }
    assert(s@.subrange(0, s.len() as int) =~= s@);
    None
}

/// The contents of a sequence of borrowed byte strings.
pub open spec fn views<'a>(r: Seq<&'a [u8]>) -> Seq<Seq<u8>> {
    Seq::new(r.len(), |i: int| r[i]@)
}

pub proof fn lemma_views_push<'a>(r: Seq<&'a [u8]>, p: &'a [u8])
    ensures
        views(r.push(p)) == views(r).push(p@),
{
    assert(views(r.push(p)) =~= views(r).push(p@));
}

/// Splits `s` at every `sep`, keeping empty pieces.
pub fn split_bytes<'a>(s: &'a [u8], sep: u8) -> (r: Vec<&'a [u8]>)
    ensures
        views(r@) == split(s@, sep),
{
    let mut r: Vec<&'a [u8]> = Vec::new();
    let mut start: usize = 0;
    let mut i: usize = 0;
    assert(s@.subrange(0, 0) =~= Seq::<u8>::empty());
    assert(views(r@).push(s@.subrange(0, 0)) =~= seq![Seq::<u8>::empty()]);
    while i < s.len()
        invariant
            start <= i <= s.len(),
            split(s@.subrange(0, i as int), sep) == views(r@).push(
                s@.subrange(start as int, i as int),
            ),
        decreases s.len() - i,
    {
        let ghost prev = views(r@);
        assert(s@.subrange(0, i + 1).drop_last() =~= s@.subrange(0, i as int));
        if s[i] == sep {
            let piece = slice_subrange(s, start, i);
            proof {
                lemma_views_push(r@, piece);
            }
            r.push(piece);
            start = i + 1;
            assert(s@.subrange(start as int, i + 1) =~= Seq::<u8>::empty());
        } else {
            assert(s@.subrange(start as int, i + 1) =~= s@.subrange(start as int, i as int).push(
                s@[i as int],
            ));
            assert(prev.push(s@.subrange(start as int, i as int)).update(
                prev.len() as int,
                s@.subrange(start as int, i as int).push(s@[i as int]),
            ) =~= prev.push(s@.subrange(start as int, i + 1)));
        }
        i = i + 1;
    }
    let last = slice_subrange(s, start, s.len());
    proof {
        lemma_views_push(r@, last);
    }
    r.push(last);
    assert(s@.subrange(0, s.len() as int) =~= s@);
    r
}

/// True when `s` begins with the bytes of `p`.
pub fn starts_with(s: &[u8], p: &[u8]) -> (r: bool)
    ensures
        r == has_prefix(s@, p@),
{
    if p.len() > s.len() {
        return false;
    }
    let mut i: usize = 0;
    while i < p.len()
        invariant
            p.len() <= s.len(),
            i <= p.len(),
            forall|j: int| 0 <= j < i ==> s@[j] == p@[j],
        decreases p.len() - i,
    {
        if s[i] != p[i] {
            assert(s@.subrange(0, p.len() as int)[i as int] != p@[i as int]);
            return false;
        }
        i = i + 1;
    }
    assert(s@.subrange(0, p.len() as int) =~= p@);
    true
}

/// True when the two byte strings are equal.
pub fn bytes_eq(a: &[u8], b: &[u8]) -> (r: bool)
    ensures
        r == (a@ == b@),
{
    if a.len() != b.len() {
        return false;
    }
    let r = starts_with(a, b);
    proof {
        if r {
            assert(a@ =~= a@.subrange(0, b@.len() as int));
        } else {
            assert(a@.subrange(0, b@.len() as int) =~= a@);
        }
    }
    r
}

/// Length in bytes of the whitespace character (Unicode `White_Space`, UTF-8 encoded)
/// that ends `s`, or 0 when `s` does not end with one.
pub open spec fn trailing_ws_len(s: Seq<u8>) -> nat {
    let n = s.len();
    if n >= 1 && ((0x09u8 <= s[n - 1] && s[n - 1] <= 0x0Du8) || s[n - 1] == 0x20u8) {
        1
    } else if n >= 2 && s[n - 2] == 0xC2u8 && (s[n - 1] == 0x85u8 || s[n - 1] == 0xA0u8) {
        2
    } else if n >= 3 && ((s[n - 3] == 0xE1u8 && s[n - 2] == 0x9Au8 && s[n - 1] == 0x80u8) || (
    s[n - 3] == 0xE2u8 && s[n - 2] == 0x80u8 && ((0x80u8 <= s[n - 1] && s[n - 1] <= 0x8Au8)
        || s[n - 1] == 0xA8u8 || s[n - 1] == 0xA9u8 || s[n - 1] == 0xAFu8)) || (s[n - 3] == 0xE2u8
        && s[n - 2] == 0x81u8 && s[n - 1] == 0x9Fu8) || (s[n - 3] == 0xE3u8 && s[n - 2] == 0x80u8
        && s[n - 1] == 0x80u8)) {
        3
    } else {
        0
    }
}

/// `s` without its trailing whitespace, as `str::trim_end` leaves it.
pub open spec fn trim_end(s: Seq<u8>) -> Seq<u8>
    decreases s.len(),
{
    if trailing_ws_len(s) == 0 {
        s
    } else {
        trim_end(s.subrange(0, s.len() - trailing_ws_len(s)))
    }
}

fn trailing_ws_len_at(s: &[u8], n: usize) -> (r: usize)
    requires
        n <= s.len(),
    ensures
        r as nat == trailing_ws_len(s@.subrange(0, n as int)),
{
    if n >= 1 && ((0x09u8 <= s[n - 1] && s[n - 1] <= 0x0D) || s[n - 1] == 0x20) {
        1
    } else if n >= 2 && s[n - 2] == 0xC2 && (s[n - 1] == 0x85 || s[n - 1] == 0xA0) {
        2
    } else if n >= 3 && ((s[n - 3] == 0xE1 && s[n - 2] == 0x9A && s[n - 1] == 0x80) || (s[n - 3]
        == 0xE2 && s[n - 2] == 0x80 && ((0x80 <= s[n - 1] && s[n - 1] <= 0x8A) || s[n - 1] == 0xA8
        || s[n - 1] == 0xA9 || s[n - 1] == 0xAF)) || (s[n - 3] == 0xE2 && s[n - 2] == 0x81 && s[n
        - 1] == 0x9F) || (s[n - 3] == 0xE3 && s[n - 2] == 0x80 && s[n - 1] == 0x80)) {
        3
    } else {
        0
    }
}

/// Length of `s` once its trailing whitespace is removed.
pub fn trim_end_len(s: &[u8]) -> (n: usize)
    ensures
        n <= s.len(),
        s@.subrange(0, n as int) == trim_end(s@),
{
    let mut n: usize = s.len();
    assert(s@.subrange(0, n as int) =~= s@);
    loop
        invariant
            n <= s.len(),
            trim_end(s@.subrange(0, n as int)) == trim_end(s@),
        decreases n,
    {
        let k = trailing_ws_len_at(s, n);
        if k == 0 {
            return n;
        }
        assert(s@.subrange(0, n as int).subrange(0, n - k) =~= s@.subrange(0, (n - k) as int));
        n = n - k;
    }
}

/// `s` without trailing whitespace, borrowed from `s`.
pub fn trim_end_bytes<'a>(s: &'a [u8]) -> (r: &'a [u8])
    ensures
        r@ == trim_end(s@),
{
    let n = trim_end_len(s);
    slice_subrange(s, 0, n)
}

pub open spec fn is_digit(b: u8) -> bool {
    0x30u8 <= b && b <= 0x39u8
}

pub open spec fn all_digits(s: Seq<u8>) -> bool {
    forall|i: int| 0 <= i < s.len() ==> is_digit(#[trigger] s[i])
}

/// The number that a string of decimal digits denotes.
pub open spec fn decimal_value(s: Seq<u8>) -> nat
    decreases s.len(),
{
    if s.len() == 0 {
        0
    } else {
        decimal_value(s.drop_last()) * 10 + (s.last() - 0x30u8) as nat
    }
}

/// The digits of an unsigned integer literal, as `u64::from_str` reads it: an optional `+`,
/// then at least one decimal digit.
pub open spec fn unsigned_digits(s: Seq<u8>) -> Seq<u8> {
    if s.len() > 0 && s[0] == 0x2Bu8 {
        s.drop_first()
    } else {
        s
    }
}

pub open spec fn is_unsigned_literal(s: Seq<u8>) -> bool {
    unsigned_digits(s).len() > 0 && all_digits(unsigned_digits(s))
}

/// Reads an unsigned decimal literal no larger than `max`.
pub fn parse_unsigned(s: &[u8], max: u64) -> (r: Option<u64>)
    ensures
        match r {
            Some(v) => is_unsigned_literal(s@) && decimal_value(unsigned_digits(s@)) <= max
                && v as nat == decimal_value(unsigned_digits(s@)),
            None => !is_unsigned_literal(s@) || decimal_value(unsigned_digits(s@)) > max,
        },
{
    let start: usize = if s.len() > 0 && s[0] == 0x2B {
        1
    } else {
        0
    };
    let ghost d = unsigned_digits(s@);
    assert(d =~= s@.subrange(start as int, s@.len() as int));
    if start >= s.len() {
        assert(d.len() == 0);
        return None;
    }
    let mut v: u64 = 0;
    let mut i: usize = start;
    while i < s.len()
        invariant
            start <= i <= s.len(),
            d == unsigned_digits(s@),
            d == s@.subrange(start as int, s@.len() as int),
            all_digits(s@.subrange(start as int, i as int)),
            v as nat == decimal_value(s@.subrange(start as int, i as int)),
            v <= max,
        decreases s.len() - i,
    {
        let ghost pre = s@.subrange(start as int, i as int);
        assert(s@.subrange(start as int, i + 1).drop_last() =~= pre);
        if !(0x30 <= s[i] && s[i] <= 0x39) {
            assert(d[i - start] == s@[i as int]);
            assert(!is_digit(d[i - start]));
            assert(!all_digits(d));
            return None;
        }
        let digit = (s[i] - 0x30) as u64;
        if digit > max || v > (max - digit) / 10 {
            proof {
                assert(v * 10 + digit > max) by (nonlinear_arith)
                    requires
                        digit > max || v > (max - digit) / 10,
                ;
                assert(d.subrange(0, i + 1 - start) =~= s@.subrange(start as int, i + 1));
                if all_digits(d) {
                    lemma_decimal_monotone(d, i + 1 - start);
                }
            }
            return None;
        }
        assert(v * 10 + digit <= max) by (nonlinear_arith)
            requires
                v <= (max - digit) / 10,
                digit <= 9,
        ;
        v = v * 10 + digit;
        i = i + 1;
        assert(all_digits(s@.subrange(start as int, i as int)));
    }
    assert(s@.subrange(start as int, s.len() as int) =~= d);
    Some(v)
}

/// A number read from a longer prefix of digits is never smaller.
pub proof fn lemma_decimal_monotone(d: Seq<u8>, k: int)
    requires
        0 <= k <= d.len(),
        all_digits(d),
    ensures
        decimal_value(d.subrange(0, k)) <= decimal_value(d),
    decreases d.len(),
{
    if k < d.len() {
        assert(d.drop_last().subrange(0, k) =~= d.subrange(0, k));
        assert(all_digits(d.drop_last()));
        lemma_decimal_monotone(d.drop_last(), k);
    } else {
        assert(d.subrange(0, k) =~= d);
    }
}

/// An ASCII letter in lower case; other bytes unchanged.
pub open spec fn ascii_lower(b: u8) -> u8 {
    if 0x41u8 <= b && b <= 0x5Au8 {
        (b + 0x20u8) as u8
    } else {
        b
    }
}

/// True when `s` spells `word` (given in lower case), ignoring ASCII case.
pub open spec fn eq_ignore_case(s: Seq<u8>, word: Seq<u8>) -> bool {
    s.len() == word.len() && forall|i: int| 0 <= i < s.len() ==> ascii_lower(#[trigger] s[i]) == word[i]
}

/// `s` without one leading `+` or `-`.
pub open spec fn unsigned_part(s: Seq<u8>) -> Seq<u8> {
    if s.len() > 0 && (s[0] == 0x2Bu8 || s[0] == 0x2Du8) {
        s.drop_first()
    } else {
        s
    }
}

/// `s` with its ASCII letters in lower case.
pub open spec fn lowered(s: Seq<u8>) -> Seq<u8> {
    Seq::new(s.len(), |i: int| ascii_lower(s[i]))
}

/// Digits with at most one `.`, and at least one digit.
pub open spec fn is_mantissa(m: Seq<u8>) -> bool {
    let d = first_index(m, 0x2Eu8);
    if d < 0 {
        m.len() > 0 && all_digits(m)
    } else {
        let a = m.subrange(0, d);
        let b = m.subrange(d + 1, m.len() as int);
        all_digits(a) && all_digits(b) && (a.len() > 0 || b.len() > 0)
    }
}

/// A sign, then at least one digit.
pub open spec fn is_exponent(x: Seq<u8>) -> bool {
    unsigned_part(x).len() > 0 && all_digits(unsigned_part(x))
}

/// A mantissa, then optionally `e` or `E` and an exponent.
pub open spec fn is_number(t: Seq<u8>) -> bool {
    let e = first_index(lowered(t), 0x65u8);
    if e < 0 {
        is_mantissa(t)
    } else {
        is_mantissa(t.subrange(0, e)) && is_exponent(t.subrange(e + 1, t.len() as int))
    }
}

/// The text that `f64::from_str` accepts: an optional sign, then `inf`, `infinity`, `nan`
/// (in any case) or a decimal number with an optional exponent.
pub open spec fn is_float_literal(s: Seq<u8>) -> bool {
    let t = unsigned_part(s);
    eq_ignore_case(t, seq![0x69u8, 0x6Eu8, 0x66u8]) || eq_ignore_case(
        t,
        seq![0x69u8, 0x6Eu8, 0x66u8, 0x69u8, 0x6Eu8, 0x69u8, 0x74u8, 0x79u8],
    ) || eq_ignore_case(t, seq![0x6Eu8, 0x61u8, 0x6Eu8]) || is_number(t)
}

fn lower_byte(b: u8) -> (r: u8)
    ensures
        r == ascii_lower(b),
{
    if 0x41 <= b && b <= 0x5A {
        b + 0x20
    } else {
        b
    }
}

fn matches_ignore_case(s: &[u8], word: &[u8]) -> (r: bool)
    ensures
        r == eq_ignore_case(s@, word@),
{
    if s.len() != word.len() {
        return false;
    }
    let mut i: usize = 0;
    while i < s.len()
        invariant
            s.len() == word.len(),
            i <= s.len(),
            forall|j: int| 0 <= j < i ==> ascii_lower(#[trigger] s@[j]) == word@[j],
        decreases s.len() - i,
    {
        if lower_byte(s[i]) != word[i] {
            return false;
        }
        i = i + 1;
    }
    true
}

fn is_all_digits(s: &[u8]) -> (r: bool)
    ensures
        r == all_digits(s@),
{
    let mut i: usize = 0;
    while i < s.len()
        invariant
            i <= s.len(),
            forall|j: int| 0 <= j < i ==> is_digit(#[trigger] s@[j]),
        decreases s.len() - i,
    {
        if !(0x30 <= s[i] && s[i] <= 0x39) {
            assert(!is_digit(s@[i as int]));
            return false;
        }
        i = i + 1;
    }
    true
}

fn find_exponent_mark(t: &[u8]) -> (r: Option<usize>)
    ensures
        match r {
            Some(i) => first_index(lowered(t@), 0x65u8) == i as int && i < t@.len(),
            None => first_index(lowered(t@), 0x65u8) == -1,
        },
{
    let ghost l = lowered(t@);
    let mut i: usize = 0;
    while i < t.len()
        invariant
            i <= t.len(),
            l == lowered(t@),
            first_index(l.subrange(0, i as int), 0x65u8) == -1,
        decreases t.len() - i,
    {
        assert(l.subrange(0, i + 1).drop_last() =~= l.subrange(0, i as int));
        assert(l[i as int] == ascii_lower(t@[i as int]));
        if t[i] == 0x65 || t[i] == 0x45 {
            proof {
                lemma_first_index_prefix(l, 0x65u8, i + 1);
            }
            return Some(i);
        }
        i = i + 1;
    }
    assert(l.subrange(0, t.len() as int) =~= l);
    None
}

fn check_mantissa(m: &[u8]) -> (r: bool)
    ensures
        r == is_mantissa(m@),
{
    match find_byte(m, 0x2E) {
        None => m.len() > 0 && is_all_digits(m),
        Some(d) => {
            assert(d < m.len());
            let a = slice_subrange(m, 0, d);
            let b = slice_subrange(m, d + 1, m.len());
            is_all_digits(a) && is_all_digits(b) && (a.len() > 0 || b.len() > 0)
        },
    }
}

fn check_exponent(x: &[u8]) -> (r: bool)
    ensures
        r == is_exponent(x@),
{
    let start: usize = if x.len() > 0 && (x[0] == 0x2B || x[0] == 0x2D) {
        1
    } else {
        0
    };
    let y = slice_subrange(x, start, x.len());
    assert(y@ =~= unsigned_part(x@));
    y.len() > 0 && is_all_digits(y)
}

/// Whether `s` is text that `f64::from_str` accepts.
pub fn is_float_text(s: &[u8]) -> (r: bool)
    ensures
        r == is_float_literal(s@),
{
    let start: usize = if s.len() > 0 && (s[0] == 0x2B || s[0] == 0x2D) {
        1
    } else {
        0
    };
    let t = slice_subrange(s, start, s.len());
    assert(t@ =~= unsigned_part(s@));
    let inf: [u8; 3] = [0x69, 0x6E, 0x66];
    let infinity: [u8; 8] = [0x69, 0x6E, 0x66, 0x69, 0x6E, 0x69, 0x74, 0x79];
    let nan: [u8; 3] = [0x6E, 0x61, 0x6E];
    assert(inf@ =~= seq![0x69u8, 0x6Eu8, 0x66u8]);
    assert(infinity@ =~= seq![0x69u8, 0x6Eu8, 0x66u8, 0x69u8, 0x6Eu8, 0x69u8, 0x74u8, 0x79u8]);
    assert(nan@ =~= seq![0x6Eu8, 0x61u8, 0x6Eu8]);
    if matches_ignore_case(t, inf.as_slice()) || matches_ignore_case(t, infinity.as_slice())
        || matches_ignore_case(t, nan.as_slice()) {
        return true;
    }
    match find_exponent_mark(t) {
        None => check_mantissa(t),
        Some(e) => {
            let m = slice_subrange(t, 0, e);
            let x = slice_subrange(t, e + 1, t.len());
            check_mantissa(m) && check_exponent(x)
        },
    }
}

} // verus!
