//! Text helpers: decimal numbers, ASCII case folding, trimming and paths.

use vstd::prelude::*;

verus! {

/// `String::push` appends one character to the end of the text.
pub assume_specification[ String::push ](text: &mut String, c: char)
    ensures
        final(text)@ == old(text)@.push(c),
;

/// How `std::str::Utf8Error` describes what is wrong with bytes that are not
/// valid UTF-8.
pub uninterp spec fn utf8_error_text(bytes: Seq<u8>) -> Seq<char>;

/// Decodes `bytes` with `std::str::from_utf8`, which succeeds exactly on valid
/// UTF-8 and then gives the characters that the bytes encode. Else it gives the
/// `Display` form of the error, which depends on `bytes` alone.
#[verifier::external_body]
pub(crate) fn checked_utf8(bytes: &[u8]) -> (text: std::result::Result<String, String>)
    ensures
        match text {
            Ok(text) => vstd::utf8::valid_utf8(bytes@) && text@ == vstd::utf8::decode_utf8(bytes@),
            Err(message) => !vstd::utf8::valid_utf8(bytes@) && message@ == utf8_error_text(bytes@),
        },
{
    match std::str::from_utf8(bytes) {
        Ok(text) => Ok(text.to_owned()),
        Err(error) => Err(error.to_string()),
    }
}

/// Decodes `bytes` where they are valid UTF-8.
pub fn utf8_text(bytes: &[u8]) -> (text: Option<String>)
    ensures
        match text {
            Some(text) => vstd::utf8::valid_utf8(bytes@) && text@ == vstd::utf8::decode_utf8(bytes@),
            None => !vstd::utf8::valid_utf8(bytes@),
        },
{
    match checked_utf8(bytes) {
        Ok(text) => Some(text),
        Err(_) => None,
    }
}

/// How `std::string::FromUtf8Error` describes what is wrong with bytes that are
/// not valid UTF-8.
pub uninterp spec fn utf8_failure_text(bytes: Seq<u8>) -> Seq<char>;

/// The `Debug` form of the error that `String::from_utf8` gives for `bytes`,
/// which depends on `bytes` alone.
#[verifier::external_body]
pub(crate) fn utf8_failure(bytes: &[u8]) -> (text: String)
    requires
        !vstd::utf8::valid_utf8(bytes@),
    ensures
        text@ == utf8_failure_text(bytes@),
{
    match String::from_utf8(bytes.to_vec()) {
        Ok(text) => text,
        Err(error) => format!("{error:?}"),
    }
}

/// The characters of `text`, in order.
pub fn to_chars(text: &str) -> (chars: Vec<char>)
    ensures
        chars@ == text@,
{
    let mut chars: Vec<char> = Vec::new();
    for c in it: text.chars()
        invariant
            it.seq() == text@,
            chars@ == text@.take(it.index() as int),
    {
        chars.push(c);
    }
    chars
}

/// The decimal digit for a number below ten.
pub open spec fn digit_char(digit: nat) -> char {
    ('0' as nat + digit) as char
}

/// The decimal digits of `number`, without leading zeros.
pub open spec fn decimal_text(number: nat) -> Seq<char>
    decreases number,
{
    if number < 10 {
        seq![digit_char(number)]
    } else {
        decimal_text(number / 10).push(digit_char(number % 10))
    }
}

/// Writes `number` in decimal.
pub fn decimal(number: u128) -> (text: String)
    ensures
        text@ == decimal_text(number as nat),
    decreases number,
{
    let digit: u8 = (number % 10) as u8;
    let last: char = (48 + digit) as char;
    let mut text = if number < 10 {
        String::new()
    } else {
        decimal(number / 10)
    };
    text.push(last);
    text
}

/// Writes `number` in decimal, with a leading minus sign where it is negative.
pub fn signed_decimal(number: i32) -> (text: String)
    ensures
        text@ == signed_text(number as int),
{
    let magnitude: i64 = number as i64;
    if magnitude < 0 {
        let mut text = "-".to_owned();
        text.append(decimal((-magnitude) as u128).as_str());
        text
    } else {
        decimal(magnitude as u128)
    }
}

/// The decimal digits of `number`, after a minus sign where it is negative.
pub open spec fn signed_text(number: int) -> Seq<char> {
    if number < 0 {
        "-"@ + decimal_text((-number) as nat)
    } else {
        decimal_text(number as nat)
    }
}

/// Whether a character is a decimal digit.
pub open spec fn is_digit(c: char) -> bool {
    '0' <= c <= '9'
}

/// Whether a text holds decimal digits alone.
pub open spec fn all_digits(text: Seq<char>) -> bool {
    forall|i: int| 0 <= i < text.len() ==> is_digit(#[trigger] text[i])
}

/// The number that a sequence of decimal digits stands for.
pub open spec fn decimal_value(digits: Seq<char>) -> nat
    decreases digits.len(),
{
    if digits.len() == 0 {
        0
    } else {
        decimal_value(digits.drop_last()) * 10 + (digits.last() as nat - '0' as nat) as nat
    }
}

/// The unsigned number written in `text`: decimal digits, at least one, after
/// at most one plus sign, with a value that fits.
pub open spec fn u64_value(text: Seq<char>) -> Option<u64> {
    let digits = if text.len() > 0 && text[0] == '+' {
        text.skip(1)
    } else {
        text
    };
    if digits.len() > 0 && all_digits(digits) && decimal_value(digits) <= u64::MAX {
        Some(decimal_value(digits) as u64)
    } else {
        None
    }
}

/// A longer run of digits stands for a number that is at least as large.
proof fn lemma_decimal_value_grows(digits: Seq<char>, end: int)
    requires
        0 <= end <= digits.len(),
        all_digits(digits),
    ensures
        decimal_value(digits.take(end)) <= decimal_value(digits),
    decreases digits.len() - end,
{
    if end == digits.len() {
        assert(digits.take(end) == digits);
    } else {
        lemma_decimal_value_grows(digits, end + 1);
        assert(digits.take(end + 1).drop_last() == digits.take(end));
        assert(is_digit(digits[end]));
    }
}

/// Parses an unsigned decimal number.
pub fn parse_u64(text: &str) -> (number: Option<u64>)
    ensures
        number == u64_value(text@),
{
    let chars = to_chars(text);
    let start: usize = if chars.len() > 0 && chars[0] == '+' {
        1
    } else {
        0
    };
    let ghost digits = chars@.skip(start as int);
    assert(start == 0 ==> digits == chars@);
    if chars.len() == start {
        return None;
    }
    let mut i: usize = start;
    let mut value: u64 = 0;
    while i < chars.len()
        invariant
            start <= i <= chars@.len(),
            digits == chars@.skip(start as int),
            all_digits(digits.take(i - start)),
            value == decimal_value(digits.take(i - start)),
            digits.len() > 0,
            u64_value(text@) == (if all_digits(digits) && decimal_value(digits) <= u64::MAX {
                Some(decimal_value(digits) as u64)
            } else {
                None
            }),
        decreases chars@.len() - i,
    {
        let c: char = chars[i];
        assert(c == digits[i - start]);
        if !('0' <= c && c <= '9') {
            assert(!all_digits(digits));
            return None;
        }
        let digit: u64 = (c as u64) - ('0' as u64);
        assert(digits.take(i - start + 1).drop_last() == digits.take(i - start));
        assert(digits.take(i - start + 1).last() == c);
        proof {
            if all_digits(digits) {
                lemma_decimal_value_grows(digits, i - start + 1);
            }
        }
        let tens = match value.checked_mul(10) {
            Some(tens) => tens,
            None => { return None; },
        };
        value = match tens.checked_add(digit) {
            Some(next) => next,
            None => { return None; },
        };
        i += 1;
    }
    assert(digits.take(i - start) == digits);
    Some(value)
}

/// Texts with the same UTF-8 bytes are the same text.
proof fn lemma_bytes_determine_text(left: Seq<char>, right: Seq<char>)
    ensures
        vstd::utf8::encode_utf8(left) == vstd::utf8::encode_utf8(right) <==> left == right,
{
    broadcast use vstd::utf8::encode_utf8_decode_utf8;

    let left_again = vstd::utf8::decode_utf8(vstd::utf8::encode_utf8(left));
    let right_again = vstd::utf8::decode_utf8(vstd::utf8::encode_utf8(right));
    assert(left_again == left);
    assert(right_again == right);
}

/// Whether two texts are the same.
pub fn same_text(left: &str, right: &str) -> (same: bool)
    ensures
        same == (left@ == right@),
{
    let a = left.as_bytes();
    let b = right.as_bytes();
    proof {
        lemma_bytes_determine_text(left@, right@);
    }
    if a.len() != b.len() {
        return false;
    }
    let mut i: usize = 0;
    while i < a.len()
        invariant
            i <= a@.len(),
            a@.len() == b@.len(),
            a@.take(i as int) == b@.take(i as int),
            a@ == b@ <==> left@ == right@,
        decreases a@.len() - i,
    {
        if a[i] != b[i] {
            return false;
        }
        assert(a@.take(i + 1) == a@.take(i as int).push(a@[i as int]));
        assert(b@.take(i + 1) == b@.take(i as int).push(b@[i as int]));
        i += 1;
    }
    assert(a@.take(i as int) == a@ && b@.take(i as int) == b@);
    true
}

/// `c` with an ASCII upper-case letter made lower case.
pub open spec fn ascii_lower(c: char) -> char {
    if 'A' <= c <= 'Z' {
        (c as u32 + 32) as char
    } else {
        c
    }
}

/// Whether two texts differ at most in the case of their ASCII letters.
pub open spec fn same_ignoring_case(left: Seq<char>, right: Seq<char>) -> bool {
    &&& left.len() == right.len()
    &&& forall|i: int|
        0 <= i < left.len() ==> ascii_lower(#[trigger] left[i]) == ascii_lower(right[i])
}

fn lower(c: char) -> (r: char)
    ensures
        r == ascii_lower(c),
{
    if 'A' <= c && c <= 'Z' {
        ((c as u8) + 32) as char
    } else {
        c
    }
}

/// Whether `chars` from `start` on begins with `pattern`, up to ASCII case.
fn matches_at(chars: &Vec<char>, start: usize, pattern: &Vec<char>) -> (matches: bool)
    requires
        start + pattern@.len() <= chars@.len(),
    ensures
        matches == same_ignoring_case(
            chars@.subrange(start as int, start + pattern@.len()),
            pattern@,
        ),
{
    let ghost part = chars@.subrange(start as int, start + pattern@.len());
    let total: usize = chars.len();
    let mut i: usize = 0;
    while i < pattern.len()
        invariant
            i <= pattern@.len(),
            start + pattern@.len() <= chars@.len(),
            total == chars@.len(),
            part == chars@.subrange(start as int, start + pattern@.len()),
            forall|j: int|
                0 <= j < i ==> ascii_lower(#[trigger] part[j]) == ascii_lower(pattern@[j]),
        decreases pattern@.len() - i,
    {
        assert(part[i as int] == chars@[start + i]);
        if lower(chars[start + i]) != lower(pattern[i]) {
            return false;
        }
        i += 1;
    }
    true
}

/// Whether `text` begins with `prefix`, up to the case of ASCII letters.
pub open spec fn has_prefix_ignoring_case(text: Seq<char>, prefix: Seq<char>) -> bool {
    text.len() >= prefix.len() && same_ignoring_case(text.take(prefix.len() as int), prefix)
}

/// Whether `text` ends with `suffix`, up to the case of ASCII letters.
pub open spec fn has_suffix_ignoring_case(text: Seq<char>, suffix: Seq<char>) -> bool {
    text.len() >= suffix.len() && same_ignoring_case(text.skip(text.len() - suffix.len()), suffix)
}

/// Whether a text starts with `prefix`, whatever the case of ASCII letters.
pub fn starts_with_ignoring_case(text: &str, prefix: &str) -> (matches: bool)
    ensures
        matches == has_prefix_ignoring_case(text@, prefix@),
{
    let chars = to_chars(text);
    let pattern = to_chars(prefix);
    assert(text@.len() >= prefix@.len() ==> text@.take(prefix@.len() as int) == text@.subrange(
        0,
        prefix@.len() as int,
    ));
    chars.len() >= pattern.len() && matches_at(&chars, 0, &pattern)
}

/// Whether a text ends in `suffix`, whatever the case of ASCII letters.
pub fn ends_with_ignoring_case(text: &str, suffix: &str) -> (matches: bool)
    ensures
        matches == has_suffix_ignoring_case(text@, suffix@),
{
    let chars = to_chars(text);
    let pattern = to_chars(suffix);
    assert(text@.len() >= suffix@.len() ==> text@.skip(text@.len() - suffix@.len())
        == text@.subrange(text@.len() - suffix@.len(), text@.len() as int));
    chars.len() >= pattern.len() && matches_at(&chars, chars.len() - pattern.len(), &pattern)
}

/// Whether `text` ends with `suffix`.
pub fn ends_with(text: &str, suffix: &str) -> (matches: bool)
    ensures
        matches == suffix@.is_suffix_of(text@),
{
    let chars = to_chars(text);
    let pattern = to_chars(suffix);
    if chars.len() < pattern.len() {
        return false;
    }
    let start: usize = chars.len() - pattern.len();
    let ghost part = text@.subrange(start as int, text@.len() as int);
    let total: usize = chars.len();
    let mut i: usize = 0;
    while i < pattern.len()
        invariant
            i <= pattern@.len(),
            start + pattern@.len() == chars@.len(),
            total == chars@.len(),
            chars@ == text@,
            pattern@ == suffix@,
            part == text@.subrange(start as int, text@.len() as int),
            forall|j: int| 0 <= j < i ==> #[trigger] part[j] == pattern@[j],
        decreases pattern@.len() - i,
    {
        assert(part[i as int] == chars@[start + i]);
        if chars[start + i] != pattern[i] {
            return false;
        }
        i += 1;
    }
    assert(part == pattern@);
    true
}

/// The position of the last `wanted` in `text`, or -1 where there is none.
pub open spec fn last_position(text: Seq<char>, wanted: char) -> int
    decreases text.len(),
{
    if text.len() == 0 {
        -1
    } else if text.last() == wanted {
        text.len() - 1
    } else {
        last_position(text.drop_last(), wanted)
    }
}

/// Finds the last `wanted` among the first `end` characters.
fn find_last(chars: &Vec<char>, end: usize, wanted: char) -> (position: Option<usize>)
    requires
        end <= chars@.len(),
    ensures
        match position {
            Some(i) => i < end && i == last_position(chars@.take(end as int), wanted),
            None => last_position(chars@.take(end as int), wanted) == -1,
        },
{
    let mut i: usize = end;
    while i > 0
        invariant
            i <= end <= chars@.len(),
            last_position(chars@.take(end as int), wanted) == last_position(
                chars@.take(i as int),
                wanted,
            ),
        decreases i,
    {
        assert(chars@.take(i as int).drop_last() == chars@.take(i - 1));
        i -= 1;
        if chars[i] == wanted {
            return Some(i);
        }
    }
    None
}

/// The part of `text` after its last `.`, where there is one.
pub open spec fn extension_of(text: Seq<char>) -> Option<Seq<char>> {
    let dot = last_position(text, '.');
    if dot < 0 {
        None
    } else {
        Some(text.skip(dot + 1))
    }
}

/// Whether the part of `path` after its last `.` is `extension`, up to ASCII case.
pub fn has_extension(path: &str, extension: &str) -> (matches: bool)
    ensures
        matches == (extension_of(path@) matches Some(found) && same_ignoring_case(
            found,
            extension@,
        )),
{
    let chars = to_chars(path);
    let pattern = to_chars(extension);
    assert(chars@.take(chars@.len() as int) == chars@);
    match find_last(&chars, chars.len(), '.') {
        None => false,
        Some(dot) => {
            let start: usize = dot + 1;
            if chars.len() - start != pattern.len() {
                return false;
            }
            assert(path@.skip(dot + 1) == path@.subrange(start as int, start + pattern@.len()));
            matches_at(&chars, start, &pattern)
        },
    }
}

/// The name of the file that a `/`-separated path leads to: its last part that
/// is neither empty nor `.`. A path that has no such part, or that ends in `..`,
/// names no file.
pub open spec fn file_name_of(path: Seq<char>) -> Option<Seq<char>>
    decreases path.len(),
    via file_name_of_decreases
{
    let slash = last_position(path, '/');
    let part = path.skip(slash + 1);
    if part.len() == 0 || part == seq!['.'] {
        if slash < 0 {
            None
        } else {
            file_name_of(path.take(slash))
        }
    } else if part == seq!['.', '.'] {
        None
    } else {
        Some(part)
    }
}

#[via_fn]
proof fn file_name_of_decreases(path: Seq<char>) {
    lemma_last_position_in_range(path, '/');
}

pub(crate) proof fn lemma_last_position_in_range(text: Seq<char>, wanted: char)
    ensures
        -1 <= last_position(text, wanted) < text.len(),
    decreases text.len(),
{
    if text.len() > 0 {
        lemma_last_position_in_range(text.drop_last(), wanted);
    }
}

/// The name of the file that a `/`-separated path leads to.
pub fn file_name(path: &str) -> (name: Option<String>)
    ensures
        match name {
            Some(name) => file_name_of(path@) == Some(name@),
            None => file_name_of(path@) is None,
        },
{
    let chars = to_chars(path);
    let mut end: usize = chars.len();
    assert(chars@.take(end as int) == path@);
    loop
        invariant
            chars@ == path@,
            end <= chars@.len(),
            file_name_of(path@) == file_name_of(chars@.take(end as int)),
        decreases end,
    {
        let ghost front = chars@.take(end as int);
        let slash = find_last(&chars, end, '/');
        let start: usize = match slash {
            Some(slash) => slash + 1,
            None => 0,
        };
        let ghost part = front.skip(last_position(front, '/') + 1);
        assert(part == chars@.subrange(start as int, end as int));
        if start == end || (end - start == 1 && chars[start] == '.') {
            assert(part.len() == 0 || part == seq!['.']);
            match slash {
                Some(slash) => {
                    assert(front.take(slash as int) == chars@.take(slash as int));
                    end = slash;
                },
                None => {
                    return None;
                },
            }
        } else if end - start == 2 && chars[start] == '.' && chars[start + 1] == '.' {
            assert(part == seq!['.', '.']);
            return None;
        } else {
            assert(part != seq!['.']) by {
                if part == seq!['.'] {
                    assert(part[0] == chars@[start as int]);
                }
            }
            assert(part != seq!['.', '.']) by {
                if part == seq!['.', '.'] {
                    assert(part[0] == chars@[start as int]);
                    assert(part[1] == chars@[start + 1]);
                }
            }
            let name = path.substring_char(start, end);
            return Some(name.to_owned());
        }
    }
}

/// Unicode white space.
pub open spec fn is_white(c: char) -> bool {
    ||| '\u{9}' <= c <= '\u{d}'
    ||| c == ' '
    ||| c == '\u{85}'
    ||| c == '\u{a0}'
    ||| c == '\u{1680}'
    ||| '\u{2000}' <= c <= '\u{200a}'
    ||| c == '\u{2028}'
    ||| c == '\u{2029}'
    ||| c == '\u{202f}'
    ||| c == '\u{205f}'
    ||| c == '\u{3000}'
}

fn white(c: char) -> (r: bool)
    ensures
        r == is_white(c),
{
    ('\u{9}' <= c && c <= '\u{d}') || c == ' ' || c == '\u{85}' || c == '\u{a0}' || c == '\u{1680}'
        || ('\u{2000}' <= c && c <= '\u{200a}') || c == '\u{2028}' || c == '\u{2029}'
        || c == '\u{202f}' || c == '\u{205f}' || c == '\u{3000}'
}

/// `text` without its leading white space.
pub open spec fn trim_start(text: Seq<char>) -> Seq<char>
    decreases text.len(),
{
    if text.len() > 0 && is_white(text[0]) {
        trim_start(text.skip(1))
    } else {
        text
    }
}

/// `text` without its trailing white space.
pub open spec fn trim_end(text: Seq<char>) -> Seq<char>
    decreases text.len(),
{
    if text.len() > 0 && is_white(text.last()) {
        trim_end(text.drop_last())
    } else {
        text
    }
}

/// `text` without its leading and trailing white space.
pub open spec fn trimmed(text: Seq<char>) -> Seq<char> {
    trim_end(trim_start(text))
}

/// Drops leading and trailing white space.
pub fn trim(text: &str) -> (inner: &str)
    ensures
        inner@ == trimmed(text@),
{
    let chars = to_chars(text);
    let mut start: usize = 0;
    assert(chars@.skip(0) == chars@);
    while start < chars.len() && white(chars[start])
        invariant
            start <= chars@.len(),
            trim_start(chars@) == trim_start(chars@.skip(start as int)),
        decreases chars@.len() - start,
    {
        assert(chars@.skip(start as int).skip(1) == chars@.skip(start + 1));
        start += 1;
    }
    let ghost kept = chars@.skip(start as int);
    assert(trim_start(chars@) == kept);
    let mut end: usize = chars.len();
    assert(chars@.subrange(start as int, end as int) == kept);
    while end > start && white(chars[end - 1])
        invariant
            start <= end <= chars@.len(),
            trim_end(kept) == trim_end(chars@.subrange(start as int, end as int)),
        decreases end,
    {
        let ghost rest = chars@.subrange(start as int, end as int);
        assert(rest.last() == chars@[end - 1]);
        assert(rest.drop_last() == chars@.subrange(start as int, end - 1));
        end -= 1;
    }
    assert(trim_end(kept) == chars@.subrange(start as int, end as int)) by {
        let rest = chars@.subrange(start as int, end as int);
        if rest.len() > 0 {
            assert(rest.last() == chars@[end - 1]);
        }
    }
    text.substring_char(start, end)
}

/// The position of the first `wanted` in `text`, or the length of `text`.
pub open spec fn first_position(text: Seq<char>, wanted: char) -> int
    decreases text.len(),
{
    if text.len() == 0 || text[0] == wanted {
        0
    } else {
        1 + first_position(text.skip(1), wanted)
    }
}

/// The part of `text` from its first `wanted` on, where there is one.
pub open spec fn from_first(text: Seq<char>, wanted: char) -> Option<Seq<char>> {
    let position = first_position(text, wanted);
    if position < text.len() {
        Some(text.skip(position))
    } else {
        None
    }
}

/// The part of `text` from its first `wanted` on.
pub fn find_from(text: &str, wanted: char) -> (found: Option<&str>)
    ensures
        match found {
            Some(found) => from_first(text@, wanted) == Some(found@),
            None => from_first(text@, wanted) is None,
        },
{
    let chars = to_chars(text);
    let mut i: usize = 0;
    assert(chars@.skip(0) == chars@);
    while i < chars.len()
        invariant
            chars@ == text@,
            i <= chars@.len(),
            first_position(chars@, wanted) == i + first_position(chars@.skip(i as int), wanted),
        decreases chars@.len() - i,
    {
        if chars[i] == wanted {
            assert(text@.skip(i as int) == text@.subrange(i as int, text@.len() as int));
            return Some(text.substring_char(i, chars.len()));
        }
        assert(chars@.skip(i as int).skip(1) == chars@.skip(i + 1));
        i += 1;
    }
    None
}

/// `text` without its leading `/` characters.
pub open spec fn without_leading_slashes(text: Seq<char>) -> Seq<char>
    decreases text.len(),
{
    if text.len() > 0 && text[0] == '/' {
        without_leading_slashes(text.skip(1))
    } else {
        text
    }
}

/// Drops leading `/` characters.
pub fn skip_slashes(text: &str) -> (rest: &str)
    ensures
        rest@ == without_leading_slashes(text@),
{
    let chars = to_chars(text);
    let mut start: usize = 0;
    assert(chars@.skip(0) == chars@);
    while start < chars.len() && chars[start] == '/'
        invariant
            start <= chars@.len(),
            without_leading_slashes(chars@) == without_leading_slashes(chars@.skip(start as int)),
        decreases chars@.len() - start,
    {
        assert(chars@.skip(start as int).skip(1) == chars@.skip(start + 1));
        start += 1;
    }
    assert(chars@.skip(start as int) == chars@.subrange(start as int, chars@.len() as int));
    text.substring_char(start, chars.len())
}

/// Whether `://` occurs in `text`.
pub open spec fn has_scheme_separator(text: Seq<char>) -> bool {
    exists|i: int|
        0 <= i && i + 3 <= text.len() && #[trigger] text[i] == ':' && text[i + 1] == '/' && text[i
            + 2] == '/'
}

/// Whether `://` occurs in a text.
pub fn contains_scheme_separator(text: &str) -> (found: bool)
    ensures
        found == has_scheme_separator(text@),
{
    let chars = to_chars(text);
    let mut i: usize = 0;
    while i < chars.len()
        invariant
            chars@ == text@,
            i <= chars@.len(),
            forall|j: int|
                0 <= j < i && j + 3 <= text@.len() ==> !(#[trigger] text@[j] == ':' && text@[j + 1]
                    == '/' && text@[j + 2] == '/'),
        decreases chars@.len() - i,
    {
        if chars.len() - i >= 3 && chars[i] == ':' && chars[i + 1] == '/' && chars[i + 2] == '/' {
            assert(text@[i as int] == ':');
            return true;
        }
        i += 1;
    }
    false
}

}
