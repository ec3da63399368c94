//! What holds of texts, numbers and paths, whatever they are.

use vstd::prelude::*;

verus! {

/// Whether two characters are the same, or the two cases of one ASCII letter.
pub open spec fn same_letter(left: char, right: char) -> bool {
    ||| left == right
    ||| 'A' <= left <= 'Z' && right as int == left as int + 32
    ||| 'A' <= right <= 'Z' && left as int == right as int + 32
}

/// Texts are the same up to case where they are of one length and differ at most
/// in the case of ASCII letters.
pub proof fn law_case_is_that_of_letters(left: Seq<char>, right: Seq<char>)
    ensures
        crate::text::same_ignoring_case(left, right) <==> left.len() == right.len() && forall|
            i: int,
        |
            0 <= i < left.len() ==> same_letter(#[trigger] left[i], right[i]),
{
    assert forall|i: int| 0 <= i < left.len() && left.len() == right.len() implies (
    crate::text::ascii_lower(#[trigger] left[i]) == crate::text::ascii_lower(right[i])
        <==> same_letter(left[i], right[i])) by {}
    if crate::text::same_ignoring_case(left, right) {
        assert forall|i: int| 0 <= i < left.len() implies same_letter(
            #[trigger] left[i],
            right[i],
        ) by {
            assert(crate::text::ascii_lower(left[i]) == crate::text::ascii_lower(right[i]));
        }
    }
}

/// A text begins with a prefix up to case exactly where it is made of that
/// prefix, up to case, and some rest.
pub proof fn law_prefix_is_in_front(text: Seq<char>, prefix: Seq<char>)
    ensures
        crate::text::has_prefix_ignoring_case(text, prefix) <==> exists|
            front: Seq<char>,
            rest: Seq<char>,
        |
            text == #[trigger] (front + rest) && crate::text::same_ignoring_case(front, prefix),
{
    if crate::text::has_prefix_ignoring_case(text, prefix) {
        let front = text.take(prefix.len() as int);
        let rest = text.skip(prefix.len() as int);
        assert(text =~= front + rest);
    }
    if exists|front: Seq<char>, rest: Seq<char>|
        text == #[trigger] (front + rest) && crate::text::same_ignoring_case(front, prefix) {
        let (front, rest) = choose|front: Seq<char>, rest: Seq<char>|
            text == #[trigger] (front + rest) && crate::text::same_ignoring_case(front, prefix);
        assert(text.take(prefix.len() as int) =~= front);
    }
}

/// A text ends in a suffix up to case exactly where it is made of some front and
/// that suffix, up to case.
pub proof fn law_suffix_is_at_the_end(text: Seq<char>, suffix: Seq<char>)
    ensures
        crate::text::has_suffix_ignoring_case(text, suffix) <==> exists|
            front: Seq<char>,
            rest: Seq<char>,
        |
            text == #[trigger] (front + rest) && crate::text::same_ignoring_case(rest, suffix),
{
    if crate::text::has_suffix_ignoring_case(text, suffix) {
        let front = text.take(text.len() - suffix.len());
        let rest = text.skip(text.len() - suffix.len());
        assert(text =~= front + rest);
    }
    if exists|front: Seq<char>, rest: Seq<char>|
        text == #[trigger] (front + rest) && crate::text::same_ignoring_case(rest, suffix) {
        let (front, rest) = choose|front: Seq<char>, rest: Seq<char>|
            text == #[trigger] (front + rest) && crate::text::same_ignoring_case(rest, suffix);
        assert(text.skip(text.len() - suffix.len()) =~= rest);
    }
}

/// Whether a character does not occur in a text.
pub open spec fn lacks(text: Seq<char>, wanted: char) -> bool {
    forall|i: int| 0 <= i < text.len() ==> #[trigger] text[i] != wanted
}

pub(crate) proof fn lemma_last_position_behind(front: Seq<char>, wanted: char, rest: Seq<char>)
    requires
        lacks(rest, wanted),
    ensures
        crate::text::last_position(front.push(wanted) + rest, wanted) == front.len(),
    decreases rest.len(),
{
    let text = front.push(wanted) + rest;
    if rest.len() == 0 {
        assert(text =~= front.push(wanted));
    } else {
        assert(text.last() == rest[rest.len() - 1]);
        assert(text.drop_last() =~= front.push(wanted) + rest.drop_last());
        lemma_last_position_behind(front, wanted, rest.drop_last());
    }
}

pub(crate) proof fn lemma_no_last_position(text: Seq<char>, wanted: char)
    ensures
        crate::text::last_position(text, wanted) == -1 <==> lacks(text, wanted),
        crate::text::last_position(text, wanted) >= 0 ==> {
            let at = crate::text::last_position(text, wanted);
            at < text.len() && text[at] == wanted && lacks(text.skip(at + 1), wanted)
        },
        crate::text::last_position(text, wanted) >= -1,
    decreases text.len(),
{
    if text.len() > 0 {
        let shorter = text.drop_last();
        lemma_no_last_position(shorter, wanted);
        if text.last() == wanted {
            assert(text[text.len() - 1] == wanted);
            assert(text.skip(text.len() as int) =~= Seq::empty());
        } else {
            let at = crate::text::last_position(shorter, wanted);
            if at >= 0 {
                assert(text[at] == wanted);
                assert forall|i: int| 0 <= i < text.skip(at + 1).len() implies #[trigger] text.skip(
                    at + 1,
                )[i] != wanted by {
                    if i < shorter.skip(at + 1).len() {
                        assert(text.skip(at + 1)[i] == shorter.skip(at + 1)[i]);
                    }
                }
            } else {
                assert forall|i: int| 0 <= i < text.len() implies #[trigger] text[i] != wanted by {
                    if i < shorter.len() {
                        assert(shorter[i] == text[i]);
                    }
                }
            }
        }
    }
}

/// The extension is what stands behind the last dot; a text without a dot has
/// none.
pub proof fn law_extension_is_behind_the_last_dot(front: Seq<char>, extension: Seq<char>)
    requires
        lacks(extension, '.'),
    ensures
        crate::text::extension_of(front.push('.') + extension) == Some(extension),
        crate::text::extension_of(extension) is None,
{
    lemma_last_position_behind(front, '.', extension);
    assert((front.push('.') + extension).skip(front.len() as int + 1) =~= extension);
    lemma_no_last_position(extension, '.');
}

/// Whether a text can be the name of a file: it is not empty, holds no `/`, and
/// is neither `.` nor `..`.
pub open spec fn is_file_name(name: Seq<char>) -> bool {
    &&& name.len() > 0
    &&& lacks(name, '/')
    &&& name != seq!['.']
    &&& name != seq!['.', '.']
}

/// A path leads to the file that its last part names, whatever the directory.
pub proof fn law_file_name_is_the_last_part(directory: Seq<char>, name: Seq<char>)
    requires
        is_file_name(name),
    ensures
        crate::text::file_name_of(directory.push('/') + name) == Some(name),
        crate::text::file_name_of(name) == Some(name),
{
    lemma_last_position_behind(directory, '/', name);
    assert((directory.push('/') + name).skip(directory.len() as int + 1) =~= name);
    lemma_no_last_position(name, '/');
    assert(name.skip(0) =~= name);
}

/// A slash, or a slash and a dot, at the end of a path changes nothing. Where a
/// path ends in two dots, it names no file.
pub proof fn law_path_ends_are_normal(path: Seq<char>)
    ensures
        crate::text::file_name_of(path.push('/')) == crate::text::file_name_of(path),
        crate::text::file_name_of(path.push('/').push('.')) == crate::text::file_name_of(path),
        crate::text::file_name_of(path.push('/').push('.').push('.')) is None,
        crate::text::file_name_of(Seq::empty()) is None,
        crate::text::file_name_of(seq!['.']) is None,
        crate::text::file_name_of(seq!['.', '.']) is None,
{
    let none = Seq::<char>::empty();
    lemma_last_position_behind(path, '/', none);
    assert(path.push('/') + none =~= path.push('/'));
    assert(path.push('/').skip(path.len() as int + 1) =~= none);
    assert(path.push('/').take(path.len() as int) =~= path);
    let one = seq!['.'];
    lemma_last_position_behind(path, '/', one);
    assert(path.push('/') + one =~= path.push('/').push('.'));
    assert(path.push('/').push('.').skip(path.len() as int + 1) =~= one);
    assert(path.push('/').push('.').take(path.len() as int) =~= path);
    let two = seq!['.', '.'];
    lemma_last_position_behind(path, '/', two);
    assert(path.push('/') + two =~= path.push('/').push('.').push('.'));
    assert(path.push('/').push('.').push('.').skip(path.len() as int + 1) =~= two);
    lemma_no_last_position(none, '/');
    lemma_no_last_position(one, '/');
    lemma_no_last_position(two, '/');
    assert(none.skip(0) =~= none);
    assert(one.skip(0) =~= one);
    assert(two.skip(0) =~= two);
}

proof fn lemma_first_position(text: Seq<char>, wanted: char)
    ensures
        0 <= crate::text::first_position(text, wanted) <= text.len(),
    decreases text.len(),
{
    if text.len() > 0 && text[0] != wanted {
        lemma_first_position(text.skip(1), wanted);
    }
}

/// What is found from a character on starts with its first occurrence and goes
/// to the end; nothing is found where it does not occur.
pub proof fn law_found_from_the_first(front: Seq<char>, wanted: char, rest: Seq<char>)
    requires
        lacks(front, wanted),
    ensures
        crate::text::from_first(front + seq![wanted] + rest, wanted) == Some(
            seq![wanted] + rest,
        ),
        crate::text::from_first(front, wanted) is None,
    decreases front.len(),
{
    let text = front + seq![wanted] + rest;
    if front.len() == 0 {
        assert(text =~= seq![wanted] + rest);
        assert(text.skip(0) =~= text);
    } else {
        let shorter = front.skip(1);
        law_found_from_the_first(shorter, wanted, rest);
        assert(text.skip(1) =~= shorter + seq![wanted] + rest);
        let at = crate::text::first_position(text.skip(1), wanted);
        lemma_first_position(text.skip(1), wanted);
        lemma_first_position(shorter, wanted);
        assert(text.skip(at + 1) =~= text.skip(1).skip(at));
        assert(front[0] != wanted);
    }
}

/// Whether a text is made of one character.
pub open spec fn made_of(text: Seq<char>, wanted: char) -> bool {
    forall|i: int| 0 <= i < text.len() ==> #[trigger] text[i] == wanted
}

/// Leading slashes are dropped, all of them and nothing else.
pub proof fn law_leading_slashes_are_dropped(slashes: Seq<char>, rest: Seq<char>)
    requires
        made_of(slashes, '/'),
        rest.len() > 0 ==> rest[0] != '/',
    ensures
        crate::text::without_leading_slashes(slashes + rest) == rest,
    decreases slashes.len(),
{
    if slashes.len() == 0 {
        assert(slashes + rest =~= rest);
    } else {
        assert(slashes[0] == '/');
        assert((slashes + rest).skip(1) =~= slashes.skip(1) + rest);
        law_leading_slashes_are_dropped(slashes.skip(1), rest);
    }
}

/// Whether `://` stands between `front` and `rest` in a text.
pub open spec fn separated(text: Seq<char>, front: Seq<char>, rest: Seq<char>) -> bool {
    text == front + seq![':', '/', '/'] + rest
}

/// A text has a scheme where `://` stands in it, and only there.
pub proof fn law_scheme_is_separated(text: Seq<char>)
    ensures
        crate::text::has_scheme_separator(text) <==> exists|front: Seq<char>, rest: Seq<char>|
            separated(text, front, rest),
{
    if crate::text::has_scheme_separator(text) {
        let i = choose|i: int|
            0 <= i && i + 3 <= text.len() && #[trigger] text[i] == ':' && text[i + 1] == '/'
                && text[i + 2] == '/';
        assert(text =~= text.take(i) + seq![':', '/', '/'] + text.skip(i + 3));
        assert(separated(text, text.take(i), text.skip(i + 3)));
    }
    if exists|front: Seq<char>, rest: Seq<char>| separated(text, front, rest) {
        let (front, rest) = choose|front: Seq<char>, rest: Seq<char>| separated(text, front, rest);
        assert(text[front.len() as int] == ':');
        assert(text[front.len() as int + 1] == '/');
        assert(text[front.len() as int + 2] == '/');
    }
}

/// White space is what Unicode says: these characters and no others.
pub proof fn law_white_space(c: char)
    ensures
        crate::text::is_white(c) <==> set![
            9int, 10, 11, 12, 13, 32, 0x85, 0xa0, 0x1680, 0x2000, 0x2001, 0x2002, 0x2003, 0x2004,
            0x2005, 0x2006, 0x2007, 0x2008, 0x2009, 0x200a, 0x2028, 0x2029, 0x202f, 0x205f, 0x3000,
        ].contains(c as int),
{
}

/// Whether a text is white space alone.
pub open spec fn all_white(text: Seq<char>) -> bool {
    forall|i: int| 0 <= i < text.len() ==> crate::text::is_white(#[trigger] text[i])
}

proof fn lemma_trim_start(before: Seq<char>, text: Seq<char>)
    requires
        all_white(before),
        text.len() > 0 ==> !crate::text::is_white(text[0]),
    ensures
        crate::text::trim_start(before + text) == text,
    decreases before.len(),
{
    if before.len() == 0 {
        assert(before + text =~= text);
    } else {
        assert(crate::text::is_white(before[0]));
        assert((before + text).skip(1) =~= before.skip(1) + text);
        lemma_trim_start(before.skip(1), text);
    }
}

proof fn lemma_trim_end(text: Seq<char>, after: Seq<char>)
    requires
        all_white(after),
        text.len() > 0 ==> !crate::text::is_white(text.last()),
    ensures
        crate::text::trim_end(text + after) == text,
    decreases after.len(),
{
    if after.len() == 0 {
        assert(text + after =~= text);
    } else {
        assert(crate::text::is_white(after[after.len() - 1]));
        assert((text + after).drop_last() =~= text + after.drop_last());
        lemma_trim_end(text, after.drop_last());
    }
}

/// Trimming drops the white space around a text and nothing of the text.
pub proof fn law_trimming_keeps_the_text(before: Seq<char>, text: Seq<char>, after: Seq<char>)
    requires
        all_white(before),
        all_white(after),
        text.len() > 0 ==> !crate::text::is_white(text[0]) && !crate::text::is_white(
            text.last(),
        ),
    ensures
        crate::text::trimmed(before + text + after) == text,
{
    if text.len() == 0 {
        let white = before + text + after;
        assert(all_white(white));
        assert(white =~= white + Seq::<char>::empty());
        lemma_trim_start(white, Seq::empty());
        assert(Seq::<char>::empty() + Seq::<char>::empty() =~= Seq::<char>::empty());
        lemma_trim_end(Seq::empty(), Seq::empty());
        assert(text =~= Seq::empty());
    } else {
        assert(before + text + after =~= before + (text + after));
        lemma_trim_start(before, text + after);
        lemma_trim_end(text, after);
    }
}

/// A number is written with the digits `0` to `9`, without a leading zero.
pub proof fn law_numbers_are_written_in_digits(number: nat)
    ensures
        crate::text::decimal_text(number).len() > 0,
        forall|i: int|
            0 <= i < crate::text::decimal_text(number).len() ==> '0'
                <= #[trigger] crate::text::decimal_text(number)[i] <= '9',
        number > 0 ==> crate::text::decimal_text(number)[0] != '0',
    decreases number,
{
    if number >= 10 {
        law_numbers_are_written_in_digits(number / 10);
        let front = crate::text::decimal_text(number / 10);
        let all = crate::text::decimal_text(number);
        assert forall|i: int| 0 <= i < all.len() implies '0' <= #[trigger] all[i] <= '9' by {
            if i < front.len() {
                assert(all[i] == front[i]);
            }
        }
        assert(all[0] == front[0]);
    }
}

proof fn lemma_value_of_text(number: nat)
    ensures
        crate::text::decimal_value(crate::text::decimal_text(number)) == number,
    decreases number,
{
    let all = crate::text::decimal_text(number);
    if number >= 10 {
        lemma_value_of_text(number / 10);
        assert(all.drop_last() =~= crate::text::decimal_text(number / 10));
    } else {
        assert(all.drop_last() =~= Seq::empty());
        assert(crate::text::decimal_value(Seq::empty()) == 0);
    }
}

/// A number that is written and read again is the same number.
pub proof fn law_written_numbers_are_read_back(number: u64)
    ensures
        crate::text::u64_value(crate::text::decimal_text(number as nat)) == Some(number),
{
    law_numbers_are_written_in_digits(number as nat);
    lemma_value_of_text(number as nat);
}

/// Another digit behind a number makes it ten times as large, and adds the
/// digit. A number that does not fit is none.
pub proof fn law_digits_are_decimal(text: Seq<char>, value: u64, digit: char)
    requires
        crate::text::u64_value(text) == Some(value),
        '0' <= digit <= '9',
    ensures
        crate::text::u64_value(text.push(digit)) == if value * 10 + (digit as int - 48)
            <= u64::MAX {
            Some((value * 10 + (digit as int - 48)) as u64)
        } else {
            None
        },
        crate::text::u64_value(seq![digit]) == Some((digit as int - 48) as u64),
{
    let longer = text.push(digit);
    let digits = if text[0] == '+' {
        text.skip(1)
    } else {
        text
    };
    let more = if text[0] == '+' {
        longer.skip(1)
    } else {
        longer
    };
    assert(more =~= digits.push(digit));
    assert(more.drop_last() =~= digits);
    assert(crate::text::all_digits(more));
    let one = seq![digit];
    assert(one.drop_last() =~= Seq::empty());
    assert(crate::text::decimal_value(Seq::empty()) == 0);
    assert(crate::text::decimal_value(one) == digit as int - 48);
}

/// A number may have one plus sign in front, and nothing but digits else.
pub proof fn law_numbers_are_digits(text: Seq<char>)
    ensures
        crate::text::u64_value(text) is Some ==> text.len() > 0 && forall|i: int|
            0 <= i < text.len() ==> '0' <= #[trigger] text[i] <= '9' || (i == 0 && text[i] == '+'
                && text.len() > 1),
        text.len() > 0 && text[0] != '+' ==> crate::text::u64_value(seq!['+'] + text)
            == crate::text::u64_value(text),
{
    if crate::text::u64_value(text) is Some {
        assert forall|i: int| 0 <= i < text.len() implies '0' <= #[trigger] text[i] <= '9' || (i
            == 0 && text[i] == '+' && text.len() > 1) by {
            if text[0] == '+' {
                if i > 0 {
                    assert(text.skip(1)[i - 1] == text[i]);
                    assert(crate::text::is_digit(text.skip(1)[i - 1]));
                }
            } else {
                assert(crate::text::is_digit(text[i]));
            }
        }
    }
    assert((seq!['+'] + text).skip(1) =~= text);
}

/// A number below zero is written as a minus sign and its size, and any other as
/// its digits.
pub proof fn law_negative_numbers_have_a_sign(number: u64)
    ensures
        crate::text::u64_value(crate::text::signed_text(number as int)) == Some(number),
        number > 0 ==> crate::text::signed_text(-(number as int)).len() > 0
            && crate::text::signed_text(-(number as int))[0] == '-' && crate::text::u64_value(
            crate::text::signed_text(-(number as int)).skip(1),
        ) == Some(number),
{
    reveal_strlit("-");
    law_written_numbers_are_read_back(number);
    let digits = crate::text::decimal_text(number as nat);
    assert(("-"@ + digits).skip(1) =~= digits);
}

}
