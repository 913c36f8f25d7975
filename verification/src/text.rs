//! Character-level helpers shared by the compiler stages: decimal rendering,
//! conversion between `str`/`String` and character vectors, and string comparison.

use vstd::prelude::*;
use vstd::string::StringSliceAdditionalSpecFns;
use vstd::utf8::encode_utf8;

verus! {

/// The character of a decimal digit.
pub open spec fn digit_char(d: nat) -> char {
    if d == 0 { '0' }
    else if d == 1 { '1' }
    else if d == 2 { '2' }
    else if d == 3 { '3' }
    else if d == 4 { '4' }
    else if d == 5 { '5' }
    else if d == 6 { '6' }
    else if d == 7 { '7' }
    else if d == 8 { '8' }
    else { '9' }
}

/// Decimal rendering of a natural number, without leading zeros.
pub open spec fn decimal(n: nat) -> Seq<char>
    decreases n,
{
    if n < 10 {
        seq![digit_char(n)]
    } else {
        decimal(n / 10).push(digit_char(n % 10))
    }
}

/// Decimal rendering of an integer, with a leading `-` for negative values.
pub open spec fn signed_decimal(i: int) -> Seq<char> {
    if i < 0 {
        seq!['-'] + decimal((-i) as nat)
    } else {
        decimal(i as nat)
    }
}

pub fn digit(d: u64) -> (c: char)
    requires
        d < 10,
    ensures
        c == digit_char(d as nat),
{
    if d == 0 { '0' }
    else if d == 1 { '1' }
    else if d == 2 { '2' }
    else if d == 3 { '3' }
    else if d == 4 { '4' }
    else if d == 5 { '5' }
    else if d == 6 { '6' }
    else if d == 7 { '7' }
    else if d == 8 { '8' }
    else { '9' }
}

/// Renders `n` in decimal.
pub fn decimal_chars(n: u64) -> (v: Vec<char>)
    ensures
        v@ == decimal(n as nat),
    decreases n,
{
    if n < 10 {
        let mut v = Vec::new();
        v.push(digit(n));
        v
    } else {
        let mut v = decimal_chars(n / 10);
        v.push(digit(n % 10));
        v
    }
}

/// Renders `i` in decimal, with a leading `-` for negative values.
pub fn signed_decimal_chars(i: i64) -> (v: Vec<char>)
    ensures
        v@ == signed_decimal(i as int),
{
    if i < 0 {
        let magnitude: u64 = if i == i64::MIN {
            9223372036854775808u64
        } else {
            (-i) as u64
        };
        let mut v = Vec::new();
        v.push('-');
        let mut rest = decimal_chars(magnitude);
        v.append(&mut rest);
        v
    } else {
        decimal_chars(i as u64)
    }
}

/// The character of a lower-case hexadecimal digit.
pub open spec fn hex_char(d: nat) -> char {
    if d < 10 {
        digit_char(d)
    } else if d == 10 { 'a' }
    else if d == 11 { 'b' }
    else if d == 12 { 'c' }
    else if d == 13 { 'd' }
    else if d == 14 { 'e' }
    else { 'f' }
}

/// The last `width` lower-case hexadecimal digits of `n`, zero-padded.
pub open spec fn hex_fixed(n: nat, width: nat) -> Seq<char>
    decreases width,
{
    if width == 0 {
        Seq::empty()
    } else {
        hex_fixed(n / 16, (width - 1) as nat).push(hex_char(n % 16))
    }
}

pub fn hex_digit(d: u64) -> (c: char)
    requires
        d < 16,
    ensures
        c == hex_char(d as nat),
{
    if d < 10 { digit(d) }
    else if d == 10 { 'a' }
    else if d == 11 { 'b' }
    else if d == 12 { 'c' }
    else if d == 13 { 'd' }
    else if d == 14 { 'e' }
    else { 'f' }
}

/// Renders the last `width` hexadecimal digits of `n`, zero-padded.
pub fn hex_fixed_chars(n: u64, width: usize) -> (v: Vec<char>)
    ensures
        v@ == hex_fixed(n as nat, width as nat),
    decreases width,
{
    if width == 0 {
        Vec::new()
    } else {
        let mut v = hex_fixed_chars(n / 16, width - 1);
        v.push(hex_digit(n % 16));
        v
    }
}

/// Appends the characters of `s`.
pub fn push_str_chars(out: &mut Vec<char>, s: &str)
    ensures
        final(out)@ == old(out)@ + s@,
{
    let mut rest = chars_of(s);
    out.append(&mut rest);
}

/// The value of a decimal digit character.
pub open spec fn digit_value(c: char) -> int {
    c as int - '0' as int
}

pub open spec fn is_digit_char(c: char) -> bool {
    '0' <= c <= '9'
}

/// The value of a string of decimal digits.
pub open spec fn digits_value(s: Seq<char>) -> int
    decreases s.len(),
{
    if s.len() == 0 {
        0
    } else {
        digits_value(s.drop_last()) * 10 + digit_value(s.last())
    }
}

/// Whether the text starts with `+` or `-`.
pub open spec fn has_sign(s: Seq<char>) -> bool {
    s.len() > 0 && (s[0] == '-' || s[0] == '+')
}

/// The text without its sign.
pub open spec fn unsigned_part(s: Seq<char>) -> Seq<char> {
    if has_sign(s) { s.drop_first() } else { s }
}

pub open spec fn all_digits(s: Seq<char>) -> bool {
    forall|i: int| 0 <= i < s.len() ==> is_digit_char(#[trigger] s[i])
}

/// The integer an optional sign and one or more decimal digits denote.
pub open spec fn signed_digits_value(s: Seq<char>) -> Option<int> {
    let digits = unsigned_part(s);
    if digits.len() > 0 && all_digits(digits) {
        Some(if s[0] == '-' { -digits_value(digits) } else { digits_value(digits) })
    } else {
        None
    }
}

proof fn lemma_digits_value_nonnegative(s: Seq<char>)
    requires
        forall|i: int| 0 <= i < s.len() ==> is_digit_char(#[trigger] s[i]),
    ensures
        digits_value(s) >= 0,
    decreases s.len(),
{
    if s.len() > 0 {
        lemma_digits_value_nonnegative(s.drop_last());
    }
}

proof fn lemma_digits_value_prefix(s: Seq<char>, k: int)
    requires
        0 <= k <= s.len(),
        forall|i: int| 0 <= i < s.len() ==> is_digit_char(#[trigger] s[i]),
    ensures
        digits_value(s.take(k)) <= digits_value(s),
    decreases s.len() - k,
{
    if k < s.len() {
        lemma_digits_value_prefix(s, k + 1);
        assert(s.take(k + 1).drop_last() =~= s.take(k));
        lemma_digits_value_nonnegative(s.take(k));
    } else {
        assert(s.take(k) =~= s);
    }
}

/// The value a text denotes as a decimal `i64`, when it is one: an optional sign, then one
/// or more ASCII digits, with a value in range.
pub open spec fn i64_value(text: Seq<char>) -> Option<i64> {
    match signed_digits_value(text) {
        Some(v) => if i64::MIN <= v <= i64::MAX { Some(v as i64) } else { None },
        None => None,
    }
}

/// Parses a decimal `i64` as `str::parse::<i64>` does: an optional `+` or `-`, then one
/// or more ASCII digits, with a value in range.
pub fn parse_i64(s: &str) -> (r: Option<i64>)
    ensures
        r == i64_value(s@),
{
    let chars = chars_of(s);
    let n = chars.len();
    let negative = n > 0 && chars[0] == '-';
    let has_sign = n > 0 && (chars[0] == '-' || chars[0] == '+');
    let start: usize = if has_sign { 1 } else { 0 };
    let ghost digits = unsigned_part(s@);
    if start >= n {
        proof {
            assert(digits.len() == 0);
        }
        return None;
    }
    // The magnitude, kept within what the sign allows.
    let limit: u64 = if negative { 9223372036854775808u64 } else { 9223372036854775807u64 };
    let mut value: u64 = 0;
    let mut i: usize = start;
    let mut overflow = false;
    while i < n
        invariant
            chars@ == s@,
            n == chars@.len(),
            negative == (n > 0 && s@[0] == '-'),
            has_sign == (n > 0 && (s@[0] == '-' || s@[0] == '+')),
            limit == (if negative { 9223372036854775808u64 } else { 9223372036854775807u64 }),
            start <= i <= n,
            start == (if has_sign { 1int } else { 0int }),
            digits == unsigned_part(s@),
            digits.len() == n - start,
            forall|k: int| 0 <= k < i - start ==> is_digit_char(#[trigger] digits[k]),
            !overflow ==> value == digits_value(digits.take(i - start)) && value <= limit,
            overflow ==> digits_value(digits.take(i - start)) > limit,
        decreases n - i,
    {
        let c = chars[i];
        if !('0' <= c && c <= '9') {
            proof {
                assert(!is_digit_char(digits[i - start]));
                assert(!all_digits(digits));
            }
            return None;
        }
        let d = (c as u32 - '0' as u32) as u64;
        proof {
            assert(d <= 9);
            assert(d == digit_value(c));
            let next = digits.take(i + 1 - start);
            assert(next.drop_last() =~= digits.take(i - start));
            assert(next.last() == c);
            if overflow {
                assert forall|k: int| 0 <= k < i - start implies is_digit_char(#[trigger] digits.take(i - start)[k]) by {
                    assert(digits.take(i - start)[k] == digits[k]);
                }
                lemma_digits_value_nonnegative(digits.take(i - start));
            }
        }
        if !overflow {
            if value > (limit - d) / 10 {
                proof {
                    assert(value * 10 + d > limit) by (nonlinear_arith)
                        requires
                            value > (limit - d) / 10,
                            d <= 9,
                            limit >= 9,
                    ;
                }
                overflow = true;
            } else {
                proof {
                    assert(value * 10 + d <= limit) by (nonlinear_arith)
                        requires
                            value <= (limit - d) / 10,
                            d <= 9,
                            limit >= 9,
                    ;
                }
                value = value * 10 + d;
            }
        } else {
            proof {
                let prev = digits_value(digits.take(i - start));
                assert(prev * 10 + d > limit) by (nonlinear_arith)
                    requires
                        prev > limit,
                        d >= 0,
                ;
            }
        }
        i += 1;
    }
    proof {
        assert(digits.take(n - start) =~= digits);
    }
    if overflow {
        return None;
    }
    if negative {
        if value == 9223372036854775808u64 {
            Some(i64::MIN)
        } else {
            Some(-(value as i64))
        }
    } else {
        Some(value as i64)
    }
}

/// A character boundary before `end` is still one in the first `end` bytes.
pub proof fn lemma_boundary_in_prefix(bytes: Seq<u8>, end: int, start: int)
    requires
        bytes == encode_utf8(bytes_chars(bytes)),
        0 <= start <= end <= bytes.len(),
        vstd::utf8::is_char_boundary(bytes, start),
        vstd::utf8::is_char_boundary(bytes, end),
    ensures
        vstd::utf8::is_char_boundary(bytes.subrange(0, end), start),
{
    vstd::utf8::encode_utf8_valid_utf8(bytes_chars(bytes));
    vstd::utf8::valid_utf8_split(bytes, end);
    let head = bytes.subrange(0, end);
    if start == end {
        vstd::utf8::is_char_boundary_start_end_of_seq(head);
    } else if start == 0 {
    } else {
        vstd::utf8::is_char_boundary_iff_not_is_continuation_byte(bytes, start);
        vstd::utf8::is_char_boundary_iff_not_is_continuation_byte(head, start);
    }
}

/// Some characters whose encoding is `bytes`, when there are any.
pub open spec fn bytes_chars(bytes: Seq<u8>) -> Seq<char> {
    choose|cs: Seq<char>| encode_utf8(cs) == bytes
}

/// The part of `s` between two byte offsets that lie on character boundaries.
pub fn substr<'a>(s: &'a str, start: usize, end: usize) -> (r: &'a str)
    requires
        start <= end <= s.spec_bytes().len(),
        vstd::utf8::is_char_boundary(s.spec_bytes(), start as int),
        vstd::utf8::is_char_boundary(s.spec_bytes(), end as int),
    ensures
        r.spec_bytes() == s.spec_bytes().subrange(start as int, end as int),
{
    let (head, _) = s.split_at(end);
    proof {
        assert(encode_utf8(s@) == s.spec_bytes());
        assert(encode_utf8(bytes_chars(s.spec_bytes())) == s.spec_bytes());
        lemma_boundary_in_prefix(s.spec_bytes(), end as int, start as int);
    }
    let (_, middle) = head.split_at(start);
    assert(middle.spec_bytes() =~= s.spec_bytes().subrange(start as int, end as int));
    middle
}

/// The part of `s` between two byte offsets, as `str::get` gives it: none unless the
/// offsets are in order, within `s`, and on character boundaries.
pub fn str_get<'a>(s: &'a str, start: usize, end: usize) -> (r: Option<&'a str>)
    ensures
        r is Some <==> (start <= end <= s.spec_bytes().len()
            && vstd::utf8::is_char_boundary(s.spec_bytes(), start as int)
            && vstd::utf8::is_char_boundary(s.spec_bytes(), end as int)),
        r matches Some(p) ==> p.spec_bytes() == s.spec_bytes().subrange(start as int, end as int),
{
    let len = s.as_bytes().len();
    if start <= end && end <= len && s.is_char_boundary(start) && s.is_char_boundary(end) {
        Some(substr(s, start, end))
    } else {
        None
    }
}

/// Whether `needle` occurs in `hay` at index `i`.
pub open spec fn occurs_at(hay: Seq<char>, needle: Seq<char>, i: int) -> bool {
    0 <= i && i + needle.len() <= hay.len() && hay.subrange(i, i + needle.len()) == needle
}

/// Whether `needle` occurs anywhere in `hay`.
pub open spec fn contains_text(hay: Seq<char>, needle: Seq<char>) -> bool {
    exists|i: int| occurs_at(hay, needle, i)
}

/// Whether `needle` occurs in `hay`, as `str::contains` tells.
pub fn str_contains(hay: &str, needle: &str) -> (r: bool)
    ensures
        r == contains_text(hay@, needle@),
{
    let h = chars_of(hay);
    let n = chars_of(needle);
    if n.len() > h.len() {
        proof {
            assert forall|i: int| !occurs_at(hay@, needle@, i) by {}
        }
        return false;
    }
    let mut i: usize = 0;
    while i <= h.len() - n.len()
        invariant
            h@ == hay@,
            n@ == needle@,
            n@.len() <= h@.len(),
            i <= h@.len() - n@.len() + 1,
            forall|k: int| 0 <= k < i ==> !occurs_at(hay@, needle@, k),
        decreases h@.len() - i,
    {
        let mut j: usize = 0;
        let mut matched = true;
        while j < n.len()
            invariant
                h@ == hay@,
                n@ == needle@,
                i + n@.len() <= h@.len(),
                i + n@.len() <= h.len(),
                j <= n@.len(),
                matched == (forall|k: int| 0 <= k < j ==> h@[i + k] == n@[k]),
            decreases n@.len() - j,
        {
            if h[i + j] != n[j] {
                matched = false;
            }
            j += 1;
        }
        if matched {
            assert(hay@.subrange(i as int, i + needle@.len()) =~= needle@);
            assert(occurs_at(hay@, needle@, i as int));
            return true;
        }
        proof {
            assert(!occurs_at(hay@, needle@, i as int)) by {
                if occurs_at(hay@, needle@, i as int) {
                    assert forall|k: int| 0 <= k < n@.len() implies h@[i + k] == n@[k] by {
                        assert(hay@.subrange(i as int, i + needle@.len())[k] == needle@[k]);
                    }
                }
            }
        }
        i += 1;
    }
    proof {
        assert forall|k: int| !occurs_at(hay@, needle@, k) by {
            if 0 <= k < i {
            }
        }
    }
    false
}

/// The character in lower case, when it is an ASCII letter.
pub open spec fn ascii_lower(c: char) -> char {
    if 'A' <= c <= 'Z' { ((c as u32) + 32) as char } else { c }
}

/// Whether the two texts are equal when ASCII letters are compared without case.
pub open spec fn eq_ignore_ascii_case_spec(a: Seq<char>, b: Seq<char>) -> bool {
    a.len() == b.len() && forall|i: int| 0 <= i < a.len() ==> ascii_lower(#[trigger] a[i]) == ascii_lower(b[i])
}

fn lower_char(c: char) -> (r: char)
    ensures
        r == ascii_lower(c),
{
    if 'A' <= c && c <= 'Z' {
        let code = c as u32 + 32;
        proof {
            assert(0x61 <= code <= 0x7A);
        }
        char_from_ascii(code)
    } else {
        c
    }
}

/// The character with an ASCII code.
fn char_from_ascii(code: u32) -> (c: char)
    requires
        code < 128,
    ensures
        c == code as char,
{
    (code as u8) as char
}

/// Whether the two texts are equal ignoring ASCII case, as `str::eq_ignore_ascii_case` tells.
pub fn str_eq_ignore_ascii_case(a: &str, b: &str) -> (r: bool)
    ensures
        r == eq_ignore_ascii_case_spec(a@, b@),
{
    let x = chars_of(a);
    let y = chars_of(b);
    if x.len() != y.len() {
        return false;
    }
    let mut i: usize = 0;
    while i < x.len()
        invariant
            x@ == a@,
            y@ == b@,
            x@.len() == y@.len(),
            i <= x@.len(),
            forall|k: int| 0 <= k < i ==> ascii_lower(#[trigger] a@[k]) == ascii_lower(b@[k]),
        decreases x@.len() - i,
    {
        if lower_char(x[i]) != lower_char(y[i]) {
            return false;
        }
        i += 1;
    }
    true
}

/// Whether the two slices hold the same characters.
pub(crate) fn str_eq(a: &str, b: &str) -> (r: bool)
    ensures
        r == (a@ == b@),
{
    let x = chars_of(a);
    let y = chars_of(b);
    if x.len() != y.len() {
        return false;
    }
    let mut i: usize = 0;
    while i < x.len()
        invariant
            x@ == a@,
            y@ == b@,
            x@.len() == y@.len(),
            i <= x@.len(),
            forall|k: int| 0 <= k < i ==> a@[k] == b@[k],
        decreases x@.len() - i,
    {
        if x[i] != y[i] {
            return false;
        }
        i += 1;
    }
    assert(a@ =~= b@);
    true
}

/// Wraps `std::str::from_utf8`: the bytes are accepted exactly when they are valid
/// UTF-8, and then the slice holds the characters they encode.
#[verifier::external_body]
pub(crate) fn utf8_str(bytes: &[u8]) -> (r: Option<&str>)
    ensures
        r is Some <==> vstd::utf8::valid_utf8(bytes@),
        r matches Some(s) ==> s@ == vstd::utf8::decode_utf8(bytes@),
{
    std::str::from_utf8(bytes).ok()
}

/// A new `String` holding the characters of `s`.
pub fn owned(s: &str) -> (r: String)
    ensures
        r@ == s@,
{
    string_from_chars(&chars_of(s))
}

/// Wraps `String::push`.
#[verifier::external_body]
pub(crate) fn push_char(s: &mut String, c: char)
    ensures
        final(s)@ == old(s)@.push(c),
{
    s.push(c);
}

/// Builds a `String` holding exactly the given characters.
pub fn string_from_chars(chars: &Vec<char>) -> (s: String)
    ensures
        s@ == chars@,
{
    let mut s = String::new();
    let mut i: usize = 0;
    while i < chars.len()
        invariant
            i <= chars.len(),
            s@ == chars@.take(i as int),
        decreases chars.len() - i,
    {
        push_char(&mut s, chars[i]);
        assert(chars@.take(i as int).push(chars@[i as int]) =~= chars@.take(i + 1));
        i += 1;
    }
    assert(chars@.take(chars.len() as int) =~= chars@);
    s
}

/// The characters of a string slice, in order.
pub fn chars_of(s: &str) -> (v: Vec<char>)
    ensures
        v@ == s@,
{
    broadcast use vstd::string::group_string_axioms;
    let mut v: Vec<char> = Vec::new();
    for c in it: s.chars()
        invariant
            it.seq() == s@,
            v@ == s@.take(it.index() as int),
    {
        v.push(c);
        assert(s@.take(it.index() as int).push(c) =~= s@.take(it.index() + 1));
    }
    assert(s@.take(s@.len() as int) =~= s@);
    v
}

} // verus!
