//! Byte-string primitives: substring search, splitting, and decimal parsing.
//!
//! Header values, clock annotations and comment commands all arrive as plain
//! byte strings.  This module gives them a mathematical reading: an exact
//! specification of first-occurrence search and of decimal integer literals,
//! with the searching itself done by `bstr` and the parsing by `bstr_parse`
//! behind trusted wrappers.

use vstd::prelude::*;

use bstr::ByteSlice;
use bstr_parse::BStrParse;

verus! {

/// True when `needle` occurs in `hay` starting at index `i`.
pub open spec fn match_at(hay: Seq<u8>, needle: Seq<u8>, i: int) -> bool {
    0 <= i && i + needle.len() <= hay.len() && hay.subrange(i, i + needle.len() as int)
        == needle
}

/// Index of the first occurrence of `needle` in `hay`, if there is one.
/// An empty needle occurs at index 0 of any haystack.
pub open spec fn find_spec(hay: Seq<u8>, needle: Seq<u8>) -> Option<int>
    decreases hay.len(),
{
    if hay.len() < needle.len() {
        None
    } else if hay.subrange(0, needle.len() as int) == needle {
        Some(0int)
    } else if hay.len() == 0 {
        None
    } else {
        match find_spec(hay.drop_first(), needle) {
            Some(i) => Some(i + 1),
            None => None,
        }
    }
}

/// `find_spec` returns precisely the first match, and `None` exactly when
/// there is no match at all.
pub proof fn lemma_find_spec_first(hay: Seq<u8>, needle: Seq<u8>)
    ensures
        match find_spec(hay, needle) {
            Some(i) => match_at(hay, needle, i) && (forall|j: int|
                0 <= j < i ==> !match_at(hay, needle, j)),
            None => forall|j: int| !match_at(hay, needle, j),
        },
    decreases hay.len(),
{
    if hay.len() < needle.len() {
        assert forall|j: int| !match_at(hay, needle, j) by {}
    } else if hay.subrange(0, needle.len() as int) == needle {
        assert(match_at(hay, needle, 0));
    } else if hay.len() == 0 {
        assert(needle.len() == 0);
        assert(hay.subrange(0, 0) =~= needle);
    } else {
        let tail = hay.drop_first();
        lemma_find_spec_first(tail, needle);
        assert forall|j: int| 1 <= j && match_at(tail, needle, j - 1) implies match_at(
            hay,
            needle,
            j,
        ) by {
            assert(hay.subrange(j, j + needle.len()) =~= tail.subrange(
                j - 1,
                j - 1 + needle.len(),
            ));
        }
        assert forall|j: int| 1 <= j && match_at(hay, needle, j) implies match_at(
            tail,
            needle,
            j - 1,
        ) by {
            assert(tail.subrange(j - 1, j - 1 + needle.len()) =~= hay.subrange(
                j,
                j + needle.len(),
            ));
        }
        match find_spec(tail, needle) {
            Some(i) => {
                assert(match_at(hay, needle, i + 1));
                assert forall|j: int| 0 <= j < i + 1 implies !match_at(hay, needle, j) by {
                    if j == 0 {
                    } else {
                        assert(!match_at(tail, needle, j - 1));
                    }
                }
            },
            None => {
                assert forall|j: int| !match_at(hay, needle, j) by {
                    if 1 <= j {
                        assert(!match_at(tail, needle, j - 1));
                    }
                }
            },
        }
    }
}

/// True when `needle` occurs somewhere in `hay`.
pub open spec fn contains_seq(hay: Seq<u8>, needle: Seq<u8>) -> bool {
    find_spec(hay, needle) is Some
}

/// Relies on `bstr`'s `ByteSlice::find`: the index of the first occurrence
/// of the needle in the haystack, or `None` when the needle never occurs.
#[verifier::external_body]
pub(crate) fn find(hay: &[u8], needle: &[u8]) -> (r: Option<usize>)
    ensures
        match r {
            Some(i) => find_spec(hay@, needle@) == Some(i as int),
            None => find_spec(hay@, needle@) is None,
        },
{
    hay.find(needle)
}

/// True exactly when the two byte strings hold the same bytes.
pub fn bytes_eq(a: &[u8], b: &[u8]) -> (r: bool)
    ensures
        r == (a@ == b@),
{
    if a.len() != b.len() {
        return false;
    }
    let mut i: usize = 0;
    while i < a.len()
        invariant
            i <= a.len(),
            a@.len() == b@.len(),
            forall|j: int| 0 <= j < i ==> a@[j] == b@[j],
        decreases a.len() - i,
    {
        if a[i] != b[i] {
            return false;
        }
        i += 1;
    }
    proof {
        assert(a@ =~= b@);
    }
    true
}

/// Copies `s[from..to]` into a fresh vector.
pub fn sub_vec(s: &[u8], from: usize, to: usize) -> (r: Vec<u8>)
    requires
        from <= to <= s@.len(),
    ensures
        r@ == s@.subrange(from as int, to as int),
{
    let mut r: Vec<u8> = Vec::new();
    let mut i: usize = from;
    while i < to
        invariant
            from <= i <= to <= s@.len(),
            r@ == s@.subrange(from as int, i as int),
        decreases to - i,
    {
        r.push(s[i]);
        proof {
            assert(r@ =~= s@.subrange(from as int, i + 1));
        }
        i += 1;
    }
    r
}

/// True when `hay` contains `needle`; `contains_seq` made executable.
pub fn contains(hay: &[u8], needle: &[u8]) -> (r: bool)
    ensures
        r == contains_seq(hay@, needle@),
{
    find(hay, needle).is_some()
}

/// The views of a sequence of byte vectors.
pub open spec fn views_of(vs: Seq<Vec<u8>>) -> Seq<Seq<u8>> {
    vs.map_values(|v: Vec<u8>| v@)
}

/// What splitting `s` at the first occurrence of `sep` yields: the bytes
/// before and the bytes after that occurrence, or nothing when `sep` never
/// occurs.
pub open spec fn split_once_spec(s: Seq<u8>, sep: Seq<u8>) -> Option<(Seq<u8>, Seq<u8>)> {
    match find_spec(s, sep) {
        Some(i) => Some((s.subrange(0, i), s.subrange(i + sep.len(), s.len() as int))),
        None => None,
    }
}

/// Splits `s` at the first occurrence of `sep`.
pub fn split_once(s: &[u8], sep: &[u8]) -> (r: Option<(Vec<u8>, Vec<u8>)>)
    ensures
        match r {
            Some(p) => split_once_spec(s@, sep@) == Some((p.0@, p.1@)),
            None => split_once_spec(s@, sep@) is None,
        },
{
    match find(s, sep) {
        Some(i) => {
            proof {
                lemma_find_spec_first(s@, sep@);
                assert(match_at(s@, sep@, i as int));
                assert(i + sep@.len() <= s@.len());
            }
            let n = s.len();
            let before = sub_vec(s, 0, i);
            let after = sub_vec(s, i + sep.len(), n);
            Some((before, after))
        },
        None => None,
    }
}

/// The parts of `s` between occurrences of the separator byte, in order.
/// There is always at least one part; none of the parts contains the
/// separator.
pub open spec fn split_spec(s: Seq<u8>, sep: u8) -> Seq<Seq<u8>>
    decreases s.len(),
{
    match find_spec(s, seq![sep]) {
        Some(i) => if 0 <= i < s.len() {
            seq![s.subrange(0, i)] + split_spec(s.subrange(i + 1, s.len() as int), sep)
        } else {
            seq![s]
        },
        None => seq![s],
    }
}

/// Splits `s` on every occurrence of the separator byte.
pub fn split(s: &[u8], sep: u8) -> (r: Vec<Vec<u8>>)
    ensures
        views_of(r@) == split_spec(s@, sep),
{
    let sep_arr: [u8; 1] = [sep];
    let mut parts: Vec<Vec<u8>> = Vec::new();
    let mut start: usize = 0;
    proof {
        assert(sep_arr@ =~= seq![sep]);
        assert(views_of(parts@) =~= Seq::<Seq<u8>>::empty());
        assert(s@.subrange(0, s@.len() as int) =~= s@);
        assert(views_of(parts@) + split_spec(s@, sep) =~= split_spec(s@, sep));
    }
    loop
        invariant
            sep_arr@ == seq![sep],
            start <= s@.len(),
            split_spec(s@, sep) == views_of(parts@) + split_spec(
                s@.subrange(start as int, s@.len() as int),
                sep,
            ),
        decreases s@.len() - start,
    {
        let rest = sub_vec(s, start, s.len());
        proof {
            lemma_find_spec_first(rest@, seq![sep]);
        }
        match find(rest.as_slice(), sep_arr.as_slice()) {
            Some(i) => {
                let ghost old_parts = parts@;
                proof {
                    assert(match_at(rest@, seq![sep], i as int));
                    assert(i + 1 <= rest@.len());
                    assert(start + i + 1 <= s@.len());
                }
                let head = sub_vec(s, start, start + i);
                parts.push(head);
                proof {
                    assert(head@ =~= rest@.subrange(0, i as int));
                    assert(rest@.subrange(i + 1, rest@.len() as int) =~= s@.subrange(
                        start + i + 1,
                        s@.len() as int,
                    ));
                    assert(views_of(parts@) =~= views_of(old_parts) + seq![head@]);
                    assert(views_of(parts@) + split_spec(
                        s@.subrange(start + i + 1, s@.len() as int),
                        sep,
                    ) =~= split_spec(s@, sep));
                }
                start = start + i + 1;
            },
            None => {
                let ghost old_parts = parts@;
                proof {
                    assert(split_spec(rest@, sep) == seq![rest@]);
                    assert(views_of(parts@.push(rest)) =~= views_of(old_parts) + seq![rest@]);
                    assert(views_of(parts@.push(rest)) =~= split_spec(s@, sep));
                }
                parts.push(rest);
                return parts;
            },
        }
    }
}

/// The index of the last occurrence of the byte `b` in `s`, if any.
pub open spec fn rfind_spec(s: Seq<u8>, b: u8) -> Option<int>
    decreases s.len(),
{
    if s.len() == 0 {
        None
    } else if s.last() == b {
        Some(s.len() - 1)
    } else {
        rfind_spec(s.drop_last(), b)
    }
}

/// A found last occurrence lies inside the string and holds the byte.
pub proof fn lemma_rfind_spec_bound(s: Seq<u8>, b: u8)
    ensures
        match rfind_spec(s, b) {
            Some(i) => 0 <= i < s.len() && s[i] == b,
            None => true,
        },
    decreases s.len(),
{
    if s.len() > 0 && s.last() != b {
        lemma_rfind_spec_bound(s.drop_last(), b);
    }
}

/// Finds the last occurrence of the byte `b` in `s`.
pub fn rfind_byte(s: &[u8], b: u8) -> (r: Option<usize>)
    ensures
        match r {
            Some(i) => rfind_spec(s@, b) == Some(i as int),
            None => rfind_spec(s@, b) is None,
        },
{
    let mut i: usize = s.len();
    proof {
        assert(s@.subrange(0, s@.len() as int) =~= s@);
    }
    while i > 0
        invariant
            i <= s@.len(),
            rfind_spec(s@, b) == rfind_spec(s@.subrange(0, i as int), b),
        decreases i,
    {
        proof {
            assert(s@.subrange(0, i as int).drop_last() =~= s@.subrange(0, i - 1));
        }
        if s[i - 1] == b {
            return Some(i - 1);
        }
        i -= 1;
    }
    None
}

/// True for the bytes `'0'` through `'9'`.
pub open spec fn is_digit(b: u8) -> bool {
    '0' as u8 <= b <= '9' as u8
}

/// True when `s` is one or more ASCII digits.
pub open spec fn all_digits(s: Seq<u8>) -> bool {
    s.len() > 0 && forall|i: int| 0 <= i < s.len() ==> is_digit(#[trigger] s[i])
}

/// The number written by a string of ASCII digits, most significant first.
pub open spec fn dec_value(s: Seq<u8>) -> nat
    decreases s.len(),
{
    if s.len() == 0 {
        0
    } else {
        dec_value(s.drop_last()) * 10 + (s.last() - '0' as u8) as nat
    }
}

/// The digits of an unsigned decimal literal: everything after an optional
/// leading `+`.
pub open spec fn unsigned_body(s: Seq<u8>) -> Seq<u8> {
    if s.len() > 0 && s[0] == '+' as u8 {
        s.drop_first()
    } else {
        s
    }
}

/// True when `s` is an unsigned decimal literal: an optional leading `+`,
/// then one or more ASCII digits.
pub open spec fn is_unsigned_literal(s: Seq<u8>) -> bool {
    all_digits(unsigned_body(s))
}

/// The value of an unsigned decimal literal.
pub open spec fn unsigned_value(s: Seq<u8>) -> nat {
    dec_value(unsigned_body(s))
}

/// What parsing `s` as a `u8` yields: the literal's value if `s` is an
/// unsigned literal whose value fits, and nothing otherwise.
pub open spec fn u8_of(s: Seq<u8>) -> Option<u8> {
    if is_unsigned_literal(s) && unsigned_value(s) <= u8::MAX {
        Some(unsigned_value(s) as u8)
    } else {
        None
    }
}

/// What parsing `s` as a `u16` yields.
pub open spec fn u16_of(s: Seq<u8>) -> Option<u16> {
    if is_unsigned_literal(s) && unsigned_value(s) <= u16::MAX {
        Some(unsigned_value(s) as u16)
    } else {
        None
    }
}

/// What parsing `s` as a `u32` yields.
pub open spec fn u32_of(s: Seq<u8>) -> Option<u32> {
    if is_unsigned_literal(s) && unsigned_value(s) <= u32::MAX {
        Some(unsigned_value(s) as u32)
    } else {
        None
    }
}

/// The digits of a signed decimal literal, and whether it is negated:
/// everything after an optional leading `+` or `-`.
pub open spec fn signed_body(s: Seq<u8>) -> Seq<u8> {
    if s.len() > 0 && (s[0] == '+' as u8 || s[0] == '-' as u8) {
        s.drop_first()
    } else {
        s
    }
}

/// True when the literal begins with a `-` sign.
pub open spec fn is_negated(s: Seq<u8>) -> bool {
    s.len() > 0 && s[0] == '-' as u8
}

/// True when `s` is a signed decimal literal: an optional sign, then one or
/// more ASCII digits.
pub open spec fn is_signed_literal(s: Seq<u8>) -> bool {
    all_digits(signed_body(s))
}

/// The value of a signed decimal literal.
pub open spec fn signed_value(s: Seq<u8>) -> int {
    if is_negated(s) {
        -(dec_value(signed_body(s)) as int)
    } else {
        dec_value(signed_body(s)) as int
    }
}

/// What parsing `s` as an `i16` yields.
pub open spec fn i16_of(s: Seq<u8>) -> Option<i16> {
    if is_signed_literal(s) && i16::MIN <= signed_value(s) <= i16::MAX {
        Some(signed_value(s) as i16)
    } else {
        None
    }
}

/// Relies on `bstr_parse`'s `BStrParse::parse::<u8>`: an optional leading
/// `+`, then one or more ASCII digits, rejected unless the value fits.
#[verifier::external_body]
pub(crate) fn parse_u8(s: &[u8]) -> (r: Option<u8>)
    ensures
        r == u8_of(s@),
{
    s.parse::<u8>().ok()
}

/// Relies on `bstr_parse`'s `BStrParse::parse::<u16>`: an optional leading
/// `+`, then one or more ASCII digits, rejected unless the value fits.
#[verifier::external_body]
pub(crate) fn parse_u16(s: &[u8]) -> (r: Option<u16>)
    ensures
        r == u16_of(s@),
{
    s.parse::<u16>().ok()
}

/// Relies on `bstr_parse`'s `BStrParse::parse::<u32>`: an optional leading
/// `+`, then one or more ASCII digits, rejected unless the value fits.
#[verifier::external_body]
pub(crate) fn parse_u32(s: &[u8]) -> (r: Option<u32>)
    ensures
        r == u32_of(s@),
{
    s.parse::<u32>().ok()
}

/// Relies on `bstr_parse`'s `BStrParse::parse::<i16>`: an optional leading
/// `+` or `-`, then one or more ASCII digits, rejected unless the value
/// fits.
#[verifier::external_body]
pub(crate) fn parse_i16(s: &[u8]) -> (r: Option<i16>)
    ensures
        r == i16_of(s@),
{
    s.parse::<i16>().ok()
}

/// The decimal digits of `n`, most significant first, with no leading zero
/// except for `n == 0` itself.  This is how an unsigned field of a row is
/// written out.
pub open spec fn decimal_of(n: nat) -> Seq<u8>
    decreases n,
{
    if n < 10 {
        seq![('0' as u8 + n) as u8]
    } else {
        decimal_of(n / 10) + seq![('0' as u8 + n % 10) as u8]
    }
}

/// The decimal form of `n` with a leading `-` when `n` is negative.  This is
/// how a signed field of a row is written out.
pub open spec fn signed_decimal_of(n: int) -> Seq<u8> {
    if n < 0 {
        seq!['-' as u8] + decimal_of((-n) as nat)
    } else {
        decimal_of(n as nat)
    }
}

/// Writes `n` in decimal.
pub fn format_u32(n: u32) -> (r: Vec<u8>)
    ensures
        r@ == decimal_of(n as nat),
    decreases n,
{
    if n < 10 {
        let mut v: Vec<u8> = Vec::new();
        v.push('0' as u8 + n as u8);
        proof {
            assert(v@ =~= decimal_of(n as nat));
        }
        v
    } else {
        let mut v = format_u32(n / 10);
        v.push('0' as u8 + (n % 10) as u8);
        proof {
            assert(v@ =~= decimal_of(n as nat));
        }
        v
    }
}

/// Writes `n` in decimal, with a leading `-` when `n` is negative.
pub fn format_i16(n: i16) -> (r: Vec<u8>)
    ensures
        r@ == signed_decimal_of(n as int),
{
    if n < 0 {
        let magnitude: u32 = (-(n as i32)) as u32;
        let mut v: Vec<u8> = Vec::new();
        v.push('-' as u8);
        let mut digits = format_u32(magnitude);
        v.append(&mut digits);
        proof {
            assert(v@ =~= signed_decimal_of(n as int));
        }
        v
    } else {
        format_u32(n as u32)
    }
}

/// Every byte of `decimal_of(n)` is an ASCII digit.
pub proof fn lemma_decimal_digits(n: nat)
    ensures
        all_digits(decimal_of(n)),
    decreases n,
{
    if n >= 10 {
        lemma_decimal_digits(n / 10);
    }
}

/// Reading `decimal_of(n)` back as a number gives `n`.
pub proof fn lemma_decimal_value(n: nat)
    ensures
        dec_value(decimal_of(n)) == n,
    decreases n,
{
    if n < 10 {
        let s = decimal_of(n);
        assert(s.drop_last() =~= Seq::<u8>::empty());
        assert(dec_value(s.drop_last()) == 0);
        assert(s.last() == ('0' as u8 + n) as u8);
        assert(dec_value(s) == dec_value(s.drop_last()) * 10 + (s.last() - '0' as u8) as nat);
    } else {
        lemma_decimal_value(n / 10);
        let s = decimal_of(n);
        assert(s.drop_last() =~= decimal_of(n / 10));
        assert(s.last() == ('0' as u8 + n % 10) as u8);
        assert(dec_value(s) == dec_value(s.drop_last()) * 10 + (s.last() - '0' as u8) as nat);
        assert(dec_value(s) == (n / 10) * 10 + n % 10);
        assert(n / 10 * 10 + n % 10 == n) by (nonlinear_arith);
    }
}

/// Round trip for unsigned row fields: a `u32` written in decimal parses
/// back to exactly the same value.
pub proof fn lemma_u32_round_trip(n: u32)
    ensures
        u32_of(decimal_of(n as nat)) == Some(n),
{
    let s = decimal_of(n as nat);
    lemma_decimal_digits(n as nat);
    lemma_decimal_value(n as nat);
    assert(s[0] != '+' as u8);
    assert(unsigned_body(s) == s);
}

/// Round trip for `u16` row fields such as ratings.
pub proof fn lemma_u16_round_trip(n: u16)
    ensures
        u16_of(decimal_of(n as nat)) == Some(n),
{
    let s = decimal_of(n as nat);
    lemma_decimal_digits(n as nat);
    lemma_decimal_value(n as nat);
    assert(s[0] != '+' as u8);
    assert(unsigned_body(s) == s);
}

/// Round trip for signed row fields such as rating differentials.
pub proof fn lemma_i16_round_trip(n: i16)
    ensures
        i16_of(signed_decimal_of(n as int)) == Some(n),
{
    if n < 0 {
        let m = (-(n as int)) as nat;
        let s = signed_decimal_of(n as int);
        lemma_decimal_digits(m);
        lemma_decimal_value(m);
        assert(s[0] == '-' as u8);
        assert(signed_body(s) =~= decimal_of(m));
        assert(is_negated(s));
    } else {
        let s = signed_decimal_of(n as int);
        lemma_decimal_digits(n as nat);
        lemma_decimal_value(n as nat);
        assert(s[0] != '+' as u8 && s[0] != '-' as u8);
        assert(signed_body(s) == s);
        assert(!is_negated(s));
    }
}

} // verus!

