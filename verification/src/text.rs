//! Comparison of strings.

use vstd::prelude::*;

verus! {

/// Whether two string slices hold the same characters.
pub fn str_eq(a: &str, b: &str) -> (same: bool)
    ensures
        same == (a@ == b@),
{
    let left = String::from_str(a);
    let right = String::from_str(b);
    left == right
}

/// Whether a text starts with another.
pub open spec fn has_prefix(s: Seq<char>, prefix: Seq<char>) -> bool {
    prefix.len() <= s.len() && s.subrange(0, prefix.len() as int) == prefix
}

/// Whether a text ends with another.
pub open spec fn has_suffix(s: Seq<char>, suffix: Seq<char>) -> bool {
    suffix.len() <= s.len() && s.subrange(s.len() - suffix.len(), s.len() as int) == suffix
}

/// Whether `s` starts with `prefix`.
pub fn starts_with(s: &str, prefix: &str) -> (r: bool)
    ensures
        r == has_prefix(s@, prefix@),
{
    let n = s.unicode_len();
    let m = prefix.unicode_len();
    if m > n {
        false
    } else {
        str_eq(s.substring_char(0, m), prefix)
    }
}

/// Whether `s` ends with `suffix`.
pub fn ends_with(s: &str, suffix: &str) -> (r: bool)
    ensures
        r == has_suffix(s@, suffix@),
{
    let n = s.unicode_len();
    let m = suffix.unicode_len();
    if m > n {
        false
    } else {
        str_eq(s.substring_char(n - m, n), suffix)
    }
}

/// Whether a text holds another somewhere.
pub open spec fn has_part(s: Seq<char>, part: Seq<char>) -> bool {
    exists|i: int| 0 <= i <= s.len() - part.len() && #[trigger] s.subrange(i, i + part.len()) == part
}

/// Whether `s` holds `part` somewhere.
pub fn contains_text(s: &str, part: &str) -> (r: bool)
    ensures
        r == has_part(s@, part@),
{
    let n = s.unicode_len();
    let m = part.unicode_len();
    if m > n {
        return false;
    }
    let mut i: usize = 0;
    loop
        invariant
            n == s@.len(),
            m == part@.len(),
            m <= n,
            i <= n - m,
            forall|j: int| 0 <= j < i ==> #[trigger] s@.subrange(j, j + m) != part@,
        decreases n - m - i,
    {
        if str_eq(s.substring_char(i, i + m), part) {
            assert(s@.subrange(i as int, i as int + part@.len()) == part@);
            return true;
        }
        if i == n - m {
            return false;
        }
        i = i + 1;
    }
}

/// The index of the last of the first `k` characters that is `c`; -1 where
/// none of them is.
pub open spec fn last_index_of(s: Seq<char>, c: char, k: int) -> int
    decreases k,
{
    if k <= 0 || k > s.len() {
        -1
    } else if s[k - 1] == c {
        k - 1
    } else {
        last_index_of(s, c, k - 1)
    }
}

/// The text behind the last `c` of a text; the whole text where it holds
/// no `c`.
pub open spec fn after_last(s: Seq<char>, c: char) -> Seq<char> {
    s.subrange(last_index_of(s, c, s.len() as int) + 1, s.len() as int)
}

/// The last of the first `k` characters that is `c` stands among them.
pub proof fn lemma_last_index_of(s: Seq<char>, c: char, k: int)
    requires
        0 <= k <= s.len(),
    ensures
        -1 <= last_index_of(s, c, k) < k,
    decreases k,
{
    if k > 0 && s[k - 1] != c {
        lemma_last_index_of(s, c, k - 1);
    }
}

/// The text behind the last `c` of a text.
pub fn text_after_last<'a>(s: &'a str, c: char) -> (rest: &'a str)
    ensures
        rest@ == after_last(s@, c),
{
    let n = s.unicode_len();
    let mut k: usize = n;
    while k > 0
        invariant
            n == s@.len(),
            k <= n,
            last_index_of(s@, c, n as int) == last_index_of(s@, c, k as int),
        decreases k,
    {
        if s.get_char(k - 1) == c {
            return s.substring_char(k, n);
        }
        k = k - 1;
    }
    s.substring_char(0, n)
}

/// The order of two texts from index `i` on, their characters before `i`
/// being the same: -1 where the first comes first, 1 where the second
/// does, 0 where they are the same. The first character that differs
/// decides, by its code point; a text comes before every text that it
/// starts.
pub open spec fn order_from(a: Seq<char>, b: Seq<char>, i: int) -> int
    decreases a.len() - i,
{
    if i < 0 || i >= a.len() || i >= b.len() {
        if a.len() < b.len() {
            -1
        } else if a.len() > b.len() {
            1
        } else {
            0
        }
    } else if (a[i] as u32) < (b[i] as u32) {
        -1
    } else if (a[i] as u32) > (b[i] as u32) {
        1
    } else {
        order_from(a, b, i + 1)
    }
}

/// The order of two texts, character by character.
pub open spec fn text_order(a: Seq<char>, b: Seq<char>) -> int {
    order_from(a, b, 0)
}

/// The order of two texts is one of -1, 0 and 1, and turns round with the
/// texts.
pub proof fn lemma_order_from(a: Seq<char>, b: Seq<char>, i: int)
    requires
        0 <= i,
    ensures
        -1 <= order_from(a, b, i) <= 1,
        order_from(b, a, i) == -order_from(a, b, i),
    decreases a.len() - i,
{
    if i < a.len() && i < b.len() && (a[i] as u32) == (b[i] as u32) {
        lemma_order_from(a, b, i + 1);
    }
}

/// The order of two texts: -1, 0 or 1.
pub fn compare_text(a: &str, b: &str) -> (order: i8)
    ensures
        order == text_order(a@, b@),
{
    let n = a.unicode_len();
    let m = b.unicode_len();
    let mut i: usize = 0;
    while i < n && i < m
        invariant
            n == a@.len(),
            m == b@.len(),
            i <= n,
            i <= m,
            order_from(a@, b@, 0) == order_from(a@, b@, i as int),
        decreases n - i,
    {
        let x = a.get_char(i) as u32;
        let y = b.get_char(i) as u32;
        if x < y {
            return -1;
        }
        if x > y {
            return 1;
        }
        i = i + 1;
    }
    if n < m {
        -1
    } else if n > m {
        1
    } else {
        0
    }
}

/// The number of bytes that a text takes in UTF-8, as `str::len` gives it.
pub open spec fn byte_len(s: Seq<char>) -> usize {
    vstd::utf8::encode_utf8(s).len() as usize
}

/// The number of bytes of a string.
pub fn byte_length(s: &str) -> (n: usize)
    ensures
        n == byte_len(s@),
{
    s.len()
}

/// std's `String::from_utf8`: the string that the bytes are the UTF-8 form
/// of, and nothing where the bytes are not valid UTF-8.
#[verifier::external_body]
pub(crate) fn from_utf8(bytes: Vec<u8>) -> (text: Option<String>)
    ensures
        match text {
            Some(s) => vstd::utf8::valid_utf8(bytes@) && vstd::utf8::encode_utf8(s@) == bytes@,
            None => !vstd::utf8::valid_utf8(bytes@),
        },
{
    String::from_utf8(bytes).ok()
}

/// The bytes of a string in UTF-8.
pub fn into_bytes(s: String) -> (bytes: Vec<u8>)
    ensures
        bytes@ == vstd::utf8::encode_utf8(s@),
{
    s.as_str().as_bytes_vec()
}

/// The characters of each string of a sequence.
pub open spec fn views(strings: Seq<String>) -> Seq<Seq<char>> {
    Seq::new(strings.len(), |i: int| strings[i]@)
}

/// Whether a character is white space, by the Unicode property
/// `White_Space`.
pub uninterp spec fn white_space(c: char) -> bool;

/// std's `char::is_whitespace`: whether the character has the Unicode
/// property `White_Space`. The property is a table of the Unicode standard,
/// so the result has a name and no definition here.
#[verifier::external_body]
pub(crate) fn is_whitespace(c: char) -> (r: bool)
    ensures
        r == white_space(c),
{
    c.is_whitespace()
}

/// The words of a text: its longest runs of characters that are not white
/// space, in order. A character that is not white space starts a new word
/// behind white space and at the start, and else joins the word before it.
pub open spec fn words(s: Seq<char>) -> Seq<Seq<char>>
    decreases s.len(),
{
    if s.len() == 0 {
        Seq::empty()
    } else {
        let before = words(s.drop_last());
        let c = s.last();
        if white_space(c) {
            before
        } else if s.len() >= 2 && !white_space(s[s.len() - 2]) && before.len() > 0 {
            before.drop_last().push(before.last().push(c))
        } else {
            before.push(seq![c])
        }
    }
}

/// Splits a text at white space into its words.
pub fn split_whitespace(s: &str) -> (parts: Vec<&str>)
    ensures
        parts@.len() == words(s@).len(),
        forall|i: int| 0 <= i < parts@.len() ==> (#[trigger] parts@[i])@ == words(s@)[i],
{
    let n = s.unicode_len();
    let mut parts: Vec<&str> = Vec::new();
    let mut start: usize = 0;
    let mut in_word = false;
    let mut i: usize = 0;
    assert(s@.take(0) =~= Seq::<char>::empty());
    while i < n
        invariant
            n == s@.len(),
            i <= n,
            start <= i,
            in_word ==> start < i && !white_space(s@[i - 1]) && words(s@.take(i as int)).len()
                == parts@.len() + 1 && words(s@.take(i as int)).last() == s@.subrange(
                start as int,
                i as int,
            ),
            !in_word ==> words(s@.take(i as int)).len() == parts@.len() && (i > 0 ==> white_space(
                s@[i - 1],
            )),
            forall|j: int|
                0 <= j < parts@.len() ==> (#[trigger] parts@[j])@ == words(s@.take(i as int))[j],
        decreases n - i,
    {
        let c = s.get_char(i);
        let space = is_whitespace(c);
        proof {
            let now = s@.take(i as int + 1);
            assert(now.drop_last() =~= s@.take(i as int));
            assert(now.last() == c);
            if i > 0 {
                assert(now[now.len() - 2] == s@[i - 1]);
            }
            if !space && in_word {
                assert(s@.subrange(start as int, i as int).push(c) =~= s@.subrange(
                    start as int,
                    i as int + 1,
                ));
            }
            if !space && !in_word {
                assert(seq![c] =~= s@.subrange(i as int, i as int + 1));
            }
        }
        if space {
            if in_word {
                parts.push(s.substring_char(start, i));
                in_word = false;
            }
        } else if !in_word {
            start = i;
            in_word = true;
        }
        i = i + 1;
    }
    assert(s@.take(n as int) =~= s@);
    if in_word {
        parts.push(s.substring_char(start, n));
    }
    parts
}

/// Whether a text holds nothing but white space.
pub open spec fn is_blank_text(s: Seq<char>) -> bool {
    forall|i: int| 0 <= i < s.len() ==> white_space(#[trigger] s[i])
}

/// Whether a text holds nothing but white space.
pub fn is_blank(s: &str) -> (blank: bool)
    ensures
        blank == is_blank_text(s@),
{
    let n = s.unicode_len();
    let mut i: usize = 0;
    while i < n
        invariant
            n == s@.len(),
            i <= n,
            forall|j: int| 0 <= j < i ==> white_space(#[trigger] s@[j]),
        decreases n - i,
    {
        if !is_whitespace(s.get_char(i)) {
            assert(!white_space(s@[i as int]));
            return false;
        }
        i = i + 1;
    }
    true
}

/// The lower-case form of a text, as the Unicode standard maps each
/// character.
pub uninterp spec fn lowercase(s: Seq<char>) -> Seq<char>;

/// The upper-case form of a text, as the Unicode standard maps each
/// character.
pub uninterp spec fn uppercase(s: Seq<char>) -> Seq<char>;

/// std's `str::to_lowercase`: the text with each character mapped to lower
/// case by the tables of the Unicode standard. The result depends on the
/// text alone and has a name, not a definition.
#[verifier::external_body]
pub(crate) fn to_lowercase(s: &str) -> (lower: String)
    ensures
        lower@ == lowercase(s@),
{
    s.to_lowercase()
}

/// std's `str::to_uppercase`: the text with each character mapped to upper
/// case by the tables of the Unicode standard. The result depends on the
/// text alone and has a name, not a definition.
#[verifier::external_body]
pub(crate) fn to_uppercase(s: &str) -> (upper: String)
    ensures
        upper@ == uppercase(s@),
{
    s.to_uppercase()
}

/// Whether a character is one of the ten decimal digits.
pub open spec fn is_digit(c: char) -> bool {
    48 <= c as u32 <= 57
}

/// The number that a decimal digit stands for.
pub open spec fn digit_value(c: char) -> int {
    (c as u32) as int - 48
}

/// The number that a text of decimal digits stands for.
pub open spec fn digits_value(s: Seq<char>) -> int
    decreases s.len(),
{
    if s.len() == 0 {
        0
    } else {
        digits_value(s.drop_last()) * 10 + digit_value(s.last())
    }
}

/// Whether every character of a text is a decimal digit.
pub open spec fn all_digits(s: Seq<char>) -> bool {
    forall|i: int| 0 <= i < s.len() ==> is_digit(#[trigger] s[i])
}

/// The number that a text stands for as an unsigned decimal number: one or
/// more digits, behind a plus sign or behind nothing. None for every other
/// text.
pub open spec fn unsigned_number(s: Seq<char>) -> Option<int> {
    let digits = if s.len() > 0 && s[0] == '+' {
        s.subrange(1, s.len() as int)
    } else {
        s
    };
    if digits.len() > 0 && all_digits(digits) {
        Some(digits_value(digits))
    } else {
        None
    }
}

/// The first digits of a text of digits stand for no more than the whole
/// text.
pub proof fn lemma_digits_prefix(s: Seq<char>, k: int)
    requires
        all_digits(s),
        0 <= k <= s.len(),
    ensures
        0 <= digits_value(s.subrange(0, k)) <= digits_value(s),
    decreases s.len() - k,
{
    if k == s.len() {
        assert(s.subrange(0, k) =~= s);
        lemma_digits_nonneg(s);
    } else {
        lemma_digits_prefix(s, k + 1);
        let longer = s.subrange(0, k + 1);
        assert(longer.drop_last() =~= s.subrange(0, k));
        assert(is_digit(s[k]));
        assert(longer.last() == s[k]);
        lemma_digits_nonneg(s.subrange(0, k));
    }
}

/// A text of digits stands for a number that is not negative.
pub proof fn lemma_digits_nonneg(s: Seq<char>)
    requires
        all_digits(s),
    ensures
        0 <= digits_value(s),
    decreases s.len(),
{
    if s.len() > 0 {
        assert(is_digit(s.last()));
        assert(all_digits(s.drop_last())) by {
            assert forall|i: int| 0 <= i < s.drop_last().len() implies is_digit(
                #[trigger] s.drop_last()[i],
            ) by {
                assert(s.drop_last()[i] == s[i]);
            }
        }
        lemma_digits_nonneg(s.drop_last());
    }
}

/// What reading a text as a `usize` gives: the unsigned decimal number that
/// the text stands for, where it fits.
pub open spec fn parsed_usize(s: Seq<char>) -> Option<usize> {
    match unsigned_number(s) {
        Some(v) => if v <= usize::MAX {
            Some(v as usize)
        } else {
            None
        },
        None => None,
    }
}

/// What reading a text as an `i64` gives: the signed decimal number that
/// the text stands for, where its magnitude is at most `i64::MAX`.
pub open spec fn parsed_i64(s: Seq<char>) -> Option<i64> {
    match signed_number(s) {
        Some(v) => if -i64::MAX <= v <= i64::MAX {
            Some(v as i64)
        } else {
            None
        },
        None => None,
    }
}

/// Reads an unsigned decimal number. None where the text is no such number
/// or the number does not fit in `usize`.
pub fn parse_usize(s: &str) -> (number: Option<usize>)
    ensures
        number == parsed_usize(s@),
{
    let n = s.unicode_len();
    if n == 0 {
        return None;
    }
    let start: usize = if s.get_char(0) == '+' {
        1
    } else {
        0
    };
    if start >= n {
        return None;
    }
    let ghost digits = s@.subrange(start as int, n as int);
    let mut value: usize = 0;
    let mut overflowed = false;
    let mut i: usize = start;
    assert(digits.subrange(0, 0) =~= Seq::<char>::empty());
    while i < n
        invariant
            n == s@.len(),
            n > 0,
            start == if s@[0] == '+' {
                1usize
            } else {
                0usize
            },
            start <= i <= n,
            digits == s@.subrange(start as int, n as int),
            forall|j: int| 0 <= j < i - start ==> is_digit(#[trigger] digits[j]),
            !overflowed ==> value == digits_value(digits.subrange(0, i - start)),
            overflowed ==> digits_value(digits.subrange(0, i - start)) > usize::MAX,
        decreases n - i,
    {
        let c = s.get_char(i);
        assert(digits[i - start] == c);
        let code = c as u32;
        if code < 48 || code > 57 {
            proof {
                assert(!is_digit(digits[i - start]));
                if start == 0 {
                    assert(digits =~= s@);
                }
                assert(!all_digits(digits));
            }
            return None;
        }
        let d: usize = (code - 48) as usize;
        proof {
            let longer = digits.subrange(0, i - start + 1);
            assert(longer.drop_last() =~= digits.subrange(0, i - start));
            assert(longer.last() == c);
            assert(digits_value(longer) == digits_value(digits.subrange(0, i - start)) * 10 + d);
        }
        if !overflowed {
            if value > (usize::MAX - d) / 10 {
                overflowed = true;
            } else {
                value = value * 10 + d;
            }
        }
        i = i + 1;
    }
    proof {
        assert(digits.subrange(0, n - start) =~= digits);
        if start == 0 {
            assert(digits =~= s@);
        }
        assert(all_digits(digits));
    }
    if overflowed {
        None
    } else {
        Some(value)
    }
}

/// The number that a text stands for as a signed decimal number: one or
/// more digits, behind a minus sign, a plus sign or nothing. None for every
/// other text.
pub open spec fn signed_number(s: Seq<char>) -> Option<int> {
    if s.len() > 0 && s[0] == '-' {
        let digits = s.subrange(1, s.len() as int);
        if digits.len() > 0 && all_digits(digits) {
            Some(-digits_value(digits))
        } else {
            None
        }
    } else {
        unsigned_number(s)
    }
}

/// Reads a signed decimal number. None where the text is no such number or
/// its magnitude is over `i64::MAX`.
pub fn parse_i64(s: &str) -> (number: Option<i64>)
    ensures
        number == parsed_i64(s@),
{
    let n = s.unicode_len();
    if n == 0 {
        return None;
    }
    let first = s.get_char(0);
    let negative = first == '-';
    let start: usize = if first == '+' || first == '-' {
        1
    } else {
        0
    };
    if start >= n {
        return None;
    }
    let ghost digits = s@.subrange(start as int, n as int);
    let mut value: i64 = 0;
    let mut overflowed = false;
    let mut i: usize = start;
    assert(digits.subrange(0, 0) =~= Seq::<char>::empty());
    while i < n
        invariant
            n == s@.len(),
            n > 0,
            start == if s@[0] == '+' || s@[0] == '-' {
                1usize
            } else {
                0usize
            },
            start <= i <= n,
            digits == s@.subrange(start as int, n as int),
            forall|j: int| 0 <= j < i - start ==> is_digit(#[trigger] digits[j]),
            !overflowed ==> value == digits_value(digits.subrange(0, i - start)) && value >= 0,
            overflowed ==> digits_value(digits.subrange(0, i - start)) > i64::MAX,
        decreases n - i,
    {
        let c = s.get_char(i);
        assert(digits[i - start] == c);
        let code = c as u32;
        if code < 48 || code > 57 {
            proof {
                assert(!is_digit(digits[i - start]));
                if start == 0 {
                    assert(digits =~= s@);
                }
                assert(!all_digits(digits));
            }
            return None;
        }
        let d: i64 = (code - 48) as i64;
        proof {
            let longer = digits.subrange(0, i - start + 1);
            assert(longer.drop_last() =~= digits.subrange(0, i - start));
            assert(longer.last() == c);
            assert(digits_value(longer) == digits_value(digits.subrange(0, i - start)) * 10 + d);
        }
        if !overflowed {
            if value > (i64::MAX - d) / 10 {
                overflowed = true;
            } else {
                value = value * 10 + d;
            }
        }
        i = i + 1;
    }
    proof {
        assert(digits.subrange(0, n - start) =~= digits);
        if start == 0 {
            assert(digits =~= s@);
        }
        assert(all_digits(digits));
    }
    if overflowed {
        None
    } else if negative {
        Some(-value)
    } else {
        Some(value)
    }
}

/// A text without the copies of `suffix` at its end, as many as there are.
pub open spec fn without_suffix(s: Seq<char>, suffix: Seq<char>) -> Seq<char>
    decreases s.len(),
{
    if suffix.len() > 0 && has_suffix(s, suffix) {
        without_suffix(s.subrange(0, s.len() - suffix.len()), suffix)
    } else {
        s
    }
}

/// A text without the copies of `prefix` at its start, as many as there
/// are.
pub open spec fn without_prefix(s: Seq<char>, prefix: Seq<char>) -> Seq<char>
    decreases s.len(),
{
    if prefix.len() > 0 && has_prefix(s, prefix) {
        without_prefix(s.subrange(prefix.len() as int, s.len() as int), prefix)
    } else {
        s
    }
}

/// Takes the copies of `suffix` off the end of a text.
pub fn trim_end_matches<'a>(s: &'a str, suffix: &str) -> (rest: &'a str)
    ensures
        rest@ == without_suffix(s@, suffix@),
{
    let m = suffix.unicode_len();
    let mut rest = s;
    if m == 0 {
        return rest;
    }
    loop
        invariant
            m == suffix@.len(),
            m > 0,
            without_suffix(rest@, suffix@) == without_suffix(s@, suffix@),
        decreases rest@.len(),
    {
        if !ends_with(rest, suffix) {
            return rest;
        }
        let n = rest.unicode_len();
        rest = rest.substring_char(0, n - m);
    }
}

/// Takes the copies of `prefix` off the start of a text.
pub fn trim_start_matches<'a>(s: &'a str, prefix: &str) -> (rest: &'a str)
    ensures
        rest@ == without_prefix(s@, prefix@),
{
    let m = prefix.unicode_len();
    let mut rest = s;
    if m == 0 {
        return rest;
    }
    loop
        invariant
            m == prefix@.len(),
            m > 0,
            without_prefix(rest@, prefix@) == without_prefix(s@, prefix@),
        decreases rest@.len(),
    {
        if !starts_with(rest, prefix) {
            return rest;
        }
        let n = rest.unicode_len();
        rest = rest.substring_char(m, n);
    }
}

/// The first `count` characters of a text, or the whole text where it is
/// shorter.
pub fn take_chars(s: &str, count: usize) -> (head: String)
    ensures
        head@ == s@.subrange(0, if count < s@.len() {
            count as int
        } else {
            s@.len() as int
        }),
{
    let n = s.unicode_len();
    let m = if count < n {
        count
    } else {
        n
    };
    String::from_str(s.substring_char(0, m))
}

/// std's `String::push`: the character is appended to the string.
pub assume_specification[ std::string::String::push ](s: &mut std::string::String, ch: char)
    ensures
        final(s)@ == old(s)@.push(ch),
;

/// std's `String::pop`: the last character is removed from the string and
/// returned, and nothing where the string is empty.
pub assume_specification[ std::string::String::pop ](s: &mut std::string::String) -> (last:
    Option<char>)
    ensures
        match last {
            Some(c) => old(s)@.len() > 0 && c == old(s)@.last() && final(s)@ == old(s)@.drop_last(),
            None => old(s)@.len() == 0 && final(s)@ == old(s)@,
        },
;

/// std's `String::clear`: the string is emptied.
pub assume_specification[ std::string::String::clear ](s: &mut std::string::String)
    ensures
        final(s)@ == Seq::<char>::empty(),
;

/// The character of a digit from 0 to 9.
pub open spec fn digit_char(digit: int) -> char {
    ((48 + digit) as u8) as char
}

/// A natural number written in decimal digits.
pub open spec fn decimal_digits(n: nat) -> Seq<char>
    decreases n,
{
    if n < 10 {
        seq![digit_char(n as int)]
    } else {
        decimal_digits(n / 10).push(digit_char((n % 10) as int))
    }
}

/// A whole number written in decimal digits, with a minus sign before it
/// where it is negative.
pub open spec fn decimal(n: int) -> Seq<char> {
    if n < 0 {
        seq!['-'] + decimal_digits((-n) as nat)
    } else {
        decimal_digits(n as nat)
    }
}

/// A whole number written in decimal digits.
pub fn decimal_text(n: i64) -> (text: String)
    ensures
        text@ == decimal(n as int),
{
    if n < 0 {
        written_digits((-(n as i128)) as u64, true)
    } else {
        written_digits(n as u64, false)
    }
}

/// A count written in decimal digits.
pub fn count_text(n: usize) -> (text: String)
    ensures
        text@ == decimal(n as int),
{
    written_digits(n as u64, false)
}

/// A natural number written in decimal digits, behind a minus sign where
/// one is asked for.
fn written_digits(size: u64, negative: bool) -> (text: String)
    ensures
        text@ == if negative {
            seq!['-'] + decimal_digits(size as nat)
        } else {
            decimal_digits(size as nat)
        },
{
    let mut rest: u64 = size;
    let mut digits: Vec<char> = Vec::new();
    assert(decimal_digits(size as nat) =~= decimal_digits(rest as nat) + digits@.reverse());
    while rest >= 10
        invariant
            decimal_digits(size as nat) == decimal_digits(rest as nat) + digits@.reverse(),
        decreases rest,
    {
        let ghost held = digits@;
        let digit = (48 + (rest % 10) as u8) as char;
        digits.push(digit);
        assert(digits@.reverse() =~= seq![digit] + held.reverse());
        assert(decimal_digits(size as nat) =~= decimal_digits((rest / 10) as nat) + digits@.reverse());
        rest = rest / 10;
    }
    let ghost held = digits@;
    let digit = (48 + rest as u8) as char;
    digits.push(digit);
    assert(digits@.reverse() =~= seq![digit] + held.reverse());
    assert(decimal_digits(size as nat) =~= digits@.reverse());
    let mut text = String::new();
    if negative {
        text.push('-');
    }
    let ghost sign = text@;
    let count = digits.len();
    let mut written: usize = 0;
    assert(text@ =~= sign + digits@.reverse().subrange(0, 0));
    while written < count
        invariant
            written <= count,
            count == digits@.len(),
            text@ == sign + digits@.reverse().subrange(0, written as int),
        decreases count - written,
    {
        text.push(digits[count - 1 - written]);
        assert(text@ =~= sign + digits@.reverse().subrange(0, written as int + 1));
        written = written + 1;
    }
    assert(digits@.reverse().subrange(0, count as int) =~= digits@.reverse());
    text
}

/// A copy of bytes.
pub fn copy_bytes(bytes: &Vec<u8>) -> (copy: Vec<u8>)
    ensures
        copy@ == bytes@,
{
    let mut copy: Vec<u8> = Vec::new();
    let mut i: usize = 0;
    while i < bytes.len()
        invariant
            i <= bytes@.len(),
            copy@ == bytes@.subrange(0, i as int),
        decreases bytes@.len() - i,
    {
        copy.push(bytes[i]);
        assert(copy@ =~= bytes@.subrange(0, i as int + 1));
        i = i + 1;
    }
    assert(bytes@.subrange(0, bytes@.len() as int) =~= bytes@);
    copy
}

} // verus!
