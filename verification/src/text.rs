//! Small text utilities shared by the argument builders and the display code.
use vstd::prelude::*;
use vstd::std_specs::iter::IteratorSpec;
use vstd::laws_eq::obeys_concrete_eq;

verus! {

/// The ASCII digit for a value below ten.
pub open spec fn digit_char(d: nat) -> char {
    if d == 0 { '0' } else if d == 1 { '1' } else if d == 2 { '2' } else if d == 3 { '3' }
    else if d == 4 { '4' } else if d == 5 { '5' } else if d == 6 { '6' } else if d == 7 { '7' }
    else if d == 8 { '8' } else { '9' }
}

/// Decimal rendering of a natural number, most significant digit first, no leading zeros.
pub open spec fn decimal(n: nat) -> Seq<char>
    decreases n,
{
    if n < 10 {
        seq![digit_char(n)]
    } else {
        decimal(n / 10).push(digit_char(n % 10))
    }
}

/// Decimal rendering of a signed integer, with a leading '-' for negatives.
pub open spec fn signed_decimal(n: int) -> Seq<char> {
    if n < 0 {
        seq!['-'].add(decimal((-n) as nat))
    } else {
        decimal(n as nat)
    }
}

/// The value of a decimal digit character.
pub open spec fn digit_value(c: char) -> int {
    c as int - '0' as int
}

/// Whether a character is one of the ASCII digits `0` to `9`.
pub open spec fn is_digit(c: char) -> bool {
    '0' as int <= c as int <= '9' as int
}

/// The number that a string of digits denotes, read most significant digit first.
pub open spec fn digits_value(s: Seq<char>) -> int
    decreases s.len(),
{
    if s.len() == 0 {
        0
    } else {
        digits_value(s.drop_last()) * 10 + digit_value(s.last())
    }
}

/// `s` writes `n` in decimal: one or more ASCII digits denoting `n`, with no leading zero
/// unless `s` is the single digit `0`.
pub open spec fn writes_decimal(s: Seq<char>, n: int) -> bool {
    &&& s.len() > 0
    &&& forall|i: int| 0 <= i < s.len() ==> #[trigger] is_digit(s[i])
    &&& digits_value(s) == n
    &&& s.len() > 1 ==> s[0] != '0'
}

/// `s` writes the signed number `n` in decimal: a leading `-` exactly when `n` is negative,
/// followed by the decimal writing of its magnitude.
pub open spec fn writes_signed_decimal(s: Seq<char>, n: int) -> bool {
    if n < 0 {
        s.len() > 0 && s[0] == '-' && writes_decimal(s.drop_first(), -n)
    } else {
        writes_decimal(s, n)
    }
}

/// A digit character is an ASCII digit of the value it stands for.
proof fn lemma_digit_char(d: nat)
    requires
        d < 10,
    ensures
        is_digit(digit_char(d)),
        digit_value(digit_char(d)) == d,
        d != 0 ==> digit_char(d) != '0',
{
}

/// The decimal rendering of a natural number writes that number.
pub proof fn lemma_decimal_writes(n: nat)
    ensures
        writes_decimal(decimal(n), n as int),
        n >= 1 ==> decimal(n)[0] != '0',
    decreases n,
{
    lemma_digit_char(n % 10);
    if n < 10 {
        let d = decimal(n);
        assert(d[0] == digit_char(n));
        assert(d.drop_last() =~= Seq::<char>::empty());
        assert(digits_value(d.drop_last()) == 0);
        assert(digits_value(d) == digit_value(d.last()));
        assert(is_digit(d[0]));
    } else {
        lemma_decimal_writes(n / 10);
        let d = decimal(n);
        let hi = decimal(n / 10);
        assert(d.drop_last() =~= hi);
        assert forall|i: int| 0 <= i < d.len() implies #[trigger] is_digit(d[i]) by {
            if i < hi.len() {
                assert(d[i] == hi[i]);
                assert(is_digit(hi[i]));
            }
        }
        assert(d[0] == hi[0]);
        assert(d.last() == digit_char(n % 10));
        assert(digits_value(d) == digits_value(hi) * 10 + digit_value(d.last()));
        assert(n == (n / 10) * 10 + n % 10);
        assert(d.len() > 1);
    }
}

/// The signed decimal rendering of an integer writes that integer.
pub proof fn lemma_signed_decimal_writes(n: int)
    ensures
        writes_signed_decimal(signed_decimal(n), n),
{
    if n < 0 {
        lemma_decimal_writes((-n) as nat);
        assert(signed_decimal(n).drop_first() =~= decimal((-n) as nat));
    } else {
        lemma_decimal_writes(n as nat);
    }
}

fn digit(d: u64) -> (c: char)
    requires
        d < 10,
    ensures
        c == digit_char(d as nat),
{
    if d == 0 { '0' } else if d == 1 { '1' } else if d == 2 { '2' } else if d == 3 { '3' }
    else if d == 4 { '4' } else if d == 5 { '5' } else if d == 6 { '6' } else if d == 7 { '7' }
    else if d == 8 { '8' } else { '9' }
}

/// An owned copy of a string slice.
pub(crate) fn owned(text: &str) -> (s: String)
    ensures
        s@ == text@,
{
    String::from_str(text)
}

/// Calls `String::push`; the contract claims that the string grows by exactly that character
/// at its end.
#[verifier::external_body]
pub(crate) fn push_char(s: &mut String, c: char)
    ensures
        final(s)@ == old(s)@.push(c),
{
    s.push(c);
}

/// Renders `n` in decimal.
pub fn u64_to_decimal(n: u64) -> (s: String)
    ensures
        s@ == decimal(n as nat),
{
    // collect digits least significant first
    let mut digits: Vec<char> = Vec::new();
    let mut m: u64 = n;
    while m >= 10
        invariant
            decimal(n as nat) =~= decimal(m as nat) + digits@.reverse(),
        decreases m,
    {
        let d = m % 10;
        let ghost old_digits = digits@;
        digits.push(digit(d));
        proof {
            assert(digits@.reverse() =~= seq![digit_char(d as nat)] + old_digits.reverse());
        }
        m = m / 10;
    }
    let ghost before = digits@;
    digits.push(digit(m));
    assert(digits@.reverse() =~= seq![digit_char(m as nat)] + before.reverse());
    assert(decimal(n as nat) =~= digits@.reverse());
    let mut s = String::new();
    let mut i = digits.len();
    while i > 0
        invariant
            i <= digits.len(),
            s@ =~= digits@.reverse().take((digits.len() - i) as int),
        decreases i,
    {
        i = i - 1;
        push_char(&mut s, digits[i]);
        assert(digits@.reverse().take((digits.len() - i) as int) =~=
            digits@.reverse().take((digits.len() - i - 1) as int).push(digits@[i as int]));
    }
    assert(digits@.reverse().take(digits.len() as int) =~= digits@.reverse());
    s
}

/// Renders `n` in decimal.
pub fn u32_to_decimal(n: u32) -> (s: String)
    ensures
        s@ == decimal(n as nat),
{
    u64_to_decimal(n as u64)
}

/// Renders `n` in decimal, with a leading '-' when negative.
pub fn i32_to_decimal(n: i32) -> (s: String)
    ensures
        s@ == signed_decimal(n as int),
{
    if n < 0 {
        let magnitude: i64 = -(n as i64);
        let digits = u64_to_decimal(magnitude as u64);
        let mut s = String::new();
        push_char(&mut s, '-');
        s.append(digits.as_str());
        s
    } else {
        u64_to_decimal(n as u64)
    }
}

/// The characters of a string, in order.
pub fn chars_of(s: &str) -> (v: Vec<char>)
    ensures
        v@ == s@,
{
    broadcast use vstd::string::group_string_axioms;
    let mut it = s.chars();
    let mut v: Vec<char> = Vec::new();
    loop
        invariant
            it.obeys_prophetic_iter_laws(),
            it.decrease() is Some,
            v@ + it.remaining() == s@,
        decreases it.decrease()->0,
    {
        let ghost before = it.remaining();
        match it.next() {
            Some(c) => {
                v.push(c);
                assert(v@ + it.remaining() =~= s@) by {
                    assert(before =~= seq![c] + it.remaining());
                }
            },
            None => {
                assert(v@ =~= s@);
                return v;
            },
        }
    }
}

/// `needle` occurs in `hay` starting at position `i`.
pub open spec fn occurs_at<T>(hay: Seq<T>, needle: Seq<T>, i: int) -> bool {
    0 <= i && i + needle.len() <= hay.len() && hay.subrange(i, i + needle.len()) == needle
}

/// `needle` occurs somewhere in `hay`.
pub open spec fn seq_contains<T>(hay: Seq<T>, needle: Seq<T>) -> bool {
    exists|i: int| #[trigger] occurs_at(hay, needle, i)
}

/// Whether `needle` occurs in `hay` at position `i`, for items whose `==` is equality.
fn items_match_at<T: PartialEq>(hay: &[T], needle: &[T], i: usize) -> (b: bool)
    requires
        obeys_concrete_eq::<T>(),
    ensures
        b == occurs_at(hay@, needle@, i as int),
{
    reveal(obeys_concrete_eq);
    if i > hay.len() || needle.len() > hay.len() - i {
        return false;
    }
    let mut j: usize = 0;
    while j < needle.len()
        invariant
            obeys_concrete_eq::<T>(),
            i + needle.len() <= hay.len(),
            j <= needle@.len(),
            forall|k: int| 0 <= k < j ==> hay@[i + k] == needle@[k],
        decreases needle@.len() - j,
    {
        reveal(obeys_concrete_eq);
        if !(hay[i + j] == needle[j]) {
            assert(hay@.subrange(i as int, i + needle@.len())[j as int] != needle@[j as int]);
            return false;
        }
        j = j + 1;
    }
    assert(hay@.subrange(i as int, i + needle@.len()) =~= needle@);
    true
}

/// The code points of a sequence of characters.
pub open spec fn code_points(s: Seq<char>) -> Seq<u32> {
    s.map_values(|c: char| c as u32)
}

/// The code points of a string's characters.
fn code_points_of(s: &str) -> (v: Vec<u32>)
    ensures
        v@ == code_points(s@),
{
    let chars = chars_of(s);
    let mut v: Vec<u32> = Vec::new();
    let mut i: usize = 0;
    while i < chars.len()
        invariant
            chars@ == s@,
            i <= chars@.len(),
            v@ == code_points(chars@.take(i as int)),
        decreases chars@.len() - i,
    {
        v.push(chars[i] as u32);
        assert(code_points(chars@.take(i as int + 1)) =~= code_points(chars@.take(i as int)).push(chars@[i as int] as u32));
        i = i + 1;
    }
    assert(chars@.take(i as int) =~= chars@);
    v
}

/// Distinct characters have distinct code points.
proof fn lemma_code_point_injective(c: char, d: char)
    requires
        c as u32 == d as u32,
    ensures
        c == d,
{
}

/// A string occurs at a position exactly where its code points occur there.
proof fn lemma_code_points_occur(hay: Seq<char>, needle: Seq<char>, i: int)
    ensures
        occurs_at(code_points(hay), code_points(needle), i) == occurs_at(hay, needle, i),
{
    if 0 <= i && i + needle.len() <= hay.len() {
        let hs = hay.subrange(i, i + needle.len());
        let cs = code_points(hay).subrange(i, i + needle.len());
        if cs == code_points(needle) {
            assert forall|k: int| 0 <= k < needle.len() implies hs[k] == needle[k] by {
                assert(cs[k] == code_points(needle)[k]);
                assert(cs[k] == code_points(hay)[i + k]);
                assert(code_points(hay)[i + k] == hay[i + k] as u32);
                assert(code_points(needle)[k] == needle[k] as u32);
                lemma_code_point_injective(hay[i + k], needle[k]);
            }
            assert(hs =~= needle);
        }
        if hs == needle {
            assert(cs =~= code_points(needle));
        }
    }
}

/// Whether `needle` occurs anywhere in `hay`.
pub fn str_contains(hay: &str, needle: &str) -> (b: bool)
    ensures
        b == seq_contains(hay@, needle@),
{
    broadcast use vstd::laws_eq::group_laws_eq;
    let h = code_points_of(hay);
    let n = code_points_of(needle);
    let mut i: usize = 0;
    loop
        invariant
            h@ == code_points(hay@),
            n@ == code_points(needle@),
            h@.len() == hay@.len(),
            i <= h@.len(),
            forall|k: int| 0 <= k < i ==> !occurs_at(hay@, needle@, k),
        decreases h@.len() - i,
    {
        proof {
            lemma_code_points_occur(hay@, needle@, i as int);
        }
        if items_match_at(h.as_slice(), n.as_slice(), i) {
            return true;
        }
        if i == h.len() {
            assert forall|k: int| !#[trigger] occurs_at(hay@, needle@, k) by {
                if 0 <= k < i {
                }
            }
            return false;
        }
        i = i + 1;
    }
}

/// The number of non-overlapping occurrences of a non-empty `needle` in `hay`, scanning
/// left to right and resuming after each occurrence.
pub open spec fn count_matches(hay: Seq<u8>, needle: Seq<u8>) -> nat
    decreases hay.len(),
{
    if needle.len() == 0 {
        0
    } else if hay.len() < needle.len() {
        0
    } else if hay.subrange(0, needle.len() as int) == needle {
        1 + count_matches(hay.subrange(needle.len() as int, hay.len() as int), needle)
    } else {
        count_matches(hay.subrange(1, hay.len() as int), needle)
    }
}

/// Counts the non-overlapping occurrences of `needle` in `hay`, left to right.
pub fn count_occurrences(hay: &[u8], needle: &[u8]) -> (n: usize)
    requires
        needle@.len() > 0,
    ensures
        n == count_matches(hay@, needle@),
{
    broadcast use vstd::laws_eq::group_laws_eq;
    let mut i: usize = 0;
    let mut count: usize = 0;
    assert(hay@.subrange(0, hay@.len() as int) =~= hay@);
    while i < hay.len()
        invariant
            needle@.len() > 0,
            i <= hay@.len(),
            count <= i,
            count + count_matches(hay@.subrange(i as int, hay@.len() as int), needle@) == count_matches(hay@, needle@),
        decreases hay@.len() - i,
    {
        let ghost rest = hay@.subrange(i as int, hay@.len() as int);
        if items_match_at(hay, needle, i) {
            assert(rest.subrange(0, needle@.len() as int) =~= hay@.subrange(i as int, i + needle@.len()));
            assert(rest.subrange(needle@.len() as int, rest.len() as int) =~= hay@.subrange(i + needle@.len(), hay@.len() as int));
            count = count + 1;
            i = i + needle.len();
        } else {
            proof {
                if rest.len() >= needle@.len() {
                    assert(rest.subrange(0, needle@.len() as int) =~= hay@.subrange(i as int, i + needle@.len()));
                }
                assert(rest.subrange(1, rest.len() as int) =~= hay@.subrange(i + 1, hay@.len() as int));
                if rest.len() < needle@.len() {
                    assert(count_matches(rest, needle@) == 0);
                    assert(count_matches(hay@.subrange(i + 1, hay@.len() as int), needle@) == 0);
                }
            }
            i = i + 1;
        }
    }
    assert(hay@.subrange(i as int, hay@.len() as int).len() == 0);
    count
}

/// UTF-16 decoding in which every unpaired surrogate becomes U+FFFD: a unit outside the
/// surrogate range is its own code point, a high surrogate followed by a low surrogate
/// forms one supplementary code point, and any other surrogate is replaced.
pub open spec fn utf16_lossy(units: Seq<u16>) -> Seq<char>
    decreases units.len(),
{
    if units.len() == 0 {
        Seq::empty()
    } else {
        let u = units[0];
        if u < 0xD800 || u > 0xDFFF {
            seq![u as char] + utf16_lossy(units.drop_first())
        } else if u <= 0xDBFF && units.len() >= 2 && 0xDC00 <= units[1] <= 0xDFFF {
            seq![(0x10000 + (u - 0xD800) * 0x400 + (units[1] - 0xDC00)) as char]
                + utf16_lossy(units.subrange(2, units.len() as int))
        } else {
            seq!['\u{FFFD}'] + utf16_lossy(units.drop_first())
        }
    }
}

/// Calls `String::from_utf16_lossy`. The contract claims what its documentation says:
/// the units are decoded as UTF-16, and invalid data (an unpaired surrogate) is replaced by
/// U+FFFD.
#[verifier::external_body]
fn decode_utf16_lossy(units: &[u16]) -> (s: String)
    ensures
        s@ == utf16_lossy(units@),
{
    String::from_utf16_lossy(units)
}

/// What `str::to_lowercase` gives for a string.
pub uninterp spec fn lowercase(s: Seq<char>) -> Seq<char>;

/// Calls `str::to_lowercase`, Unicode's full lowercase mapping. The contract only names
/// the result: it is a function of the characters alone.
#[verifier::external_body]
pub(crate) fn to_lowercase(s: &str) -> (r: String)
    ensures
        r@ == lowercase(s@),
{
    s.to_lowercase()
}

/// The length of the part of `units` before the first NUL, or all of it when there is none.
pub open spec fn nul_end(units: Seq<u16>) -> int
    decreases units.len(),
{
    if units.len() == 0 {
        0
    } else if units[0] == 0 {
        0
    } else {
        1 + nul_end(units.drop_first())
    }
}

/// The text of a NUL-terminated wide-character buffer.
pub open spec fn wide_text(units: Seq<u16>) -> Seq<char> {
    utf16_lossy(units.take(nul_end(units)))
}

proof fn lemma_nul_end(units: Seq<u16>, e: int)
    requires
        0 <= e <= units.len(),
        forall|j: int| 0 <= j < e ==> units[j] != 0,
        e == units.len() || units[e] == 0,
    ensures
        nul_end(units) == e,
    decreases units.len(),
{
    if units.len() > 0 && e > 0 {
        assert forall|j: int| 0 <= j < e - 1 implies units.drop_first()[j] != 0 by {
            assert(units.drop_first()[j] == units[j + 1]);
        }
        lemma_nul_end(units.drop_first(), e - 1);
    }
}

/// Converts a NUL-terminated wide-character buffer to a string, decoding the part before
/// the first NUL (all of it when there is none).
pub fn wchar_to_string(buf: &[u16]) -> (s: String)
    ensures
        s@ == wide_text(buf@),
{
    let mut end: usize = 0;
    while end < buf.len() && buf[end] != 0
        invariant
            end <= buf@.len(),
            forall|j: int| 0 <= j < end ==> buf@[j] != 0,
        decreases buf@.len() - end,
    {
        end = end + 1;
    }
    proof {
        lemma_nul_end(buf@, end as int);
    }
    let prefix = vstd::slice::slice_subrange(buf, 0, end);
    assert(prefix@ =~= buf@.take(end as int));
    decode_utf16_lossy(prefix)
}

} // verus!
