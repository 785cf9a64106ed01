//! The names of picture files: `<theme>/<digit>.<extension>`.

use vstd::prelude::*;

verus! {

/// The place of the last `mark` in `text`, or -1 where there is none.
pub open spec fn last_index_of(text: Seq<char>, mark: char) -> int
    decreases text.len(),
{
    if text.len() == 0 {
        -1
    } else if text.last() == mark {
        text.len() - 1
    } else {
        last_index_of(text.drop_last(), mark)
    }
}

/// What follows the last `/` of `path`: all of it where there is none.
pub open spec fn file_name_of(path: Seq<char>) -> Seq<char> {
    path.subrange(last_index_of(path, '/') + 1, path.len() as int)
}

/// What stands before the last `/` of `path`: nothing where there is none.
pub open spec fn directory_of(path: Seq<char>) -> Seq<char> {
    if last_index_of(path, '/') < 0 {
        Seq::empty()
    } else {
        path.subrange(0, last_index_of(path, '/'))
    }
}

/// A file name without its extension: what stands before its last `.`, or
/// all of it where it has none or only begins with one.
pub open spec fn stem_of(name: Seq<char>) -> Seq<char> {
    if last_index_of(name, '.') <= 0 {
        name
    } else {
        name.subrange(0, last_index_of(name, '.'))
    }
}

/// Whether `c` is one of `0` to `9`.
pub open spec fn is_digit(c: char) -> bool {
    '0' <= c <= '9'
}

/// The number that the decimal digits `text` write.
pub open spec fn digits_value(text: Seq<char>) -> nat
    decreases text.len(),
{
    if text.len() == 0 {
        0
    } else {
        digits_value(text.drop_last()) * 10 + (text.last() as u32 - '0' as u32) as nat
    }
}

/// `text` without a `+` in front.
pub open spec fn unsigned_part(text: Seq<char>) -> Seq<char> {
    if text.len() > 0 && text[0] == '+' {
        text.subrange(1, text.len() as int)
    } else {
        text
    }
}

/// The 32-bit number that `text` writes in decimal: one digit or more, with
/// or without a `+` in front, and nothing else.
pub open spec fn number_of(text: Seq<char>) -> Option<u32> {
    let digits = unsigned_part(text);
    if digits.len() > 0 && (forall|i: int| 0 <= i < digits.len() ==> is_digit(#[trigger] digits[i]))
        && digits_value(digits) <= u32::MAX {
        Some(digits_value(digits) as u32)
    } else {
        None
    }
}

/// The digit that the file `name` is the picture of.
pub open spec fn digit_of(name: Seq<char>) -> Option<u32> {
    number_of(stem_of(name))
}

/// The theme and the digit that the file at `path` is the picture of: the
/// path ends in a directory, a `/` and a file name whose stem is a number.
pub open spec fn asset_of(path: Seq<char>) -> Option<(Seq<char>, u32)> {
    let theme = file_name_of(directory_of(path));
    let name = file_name_of(path);
    if last_index_of(path, '/') >= 0 && theme.len() > 0 && name.len() > 0 && digit_of(name) is Some {
        Some((theme, digit_of(name)->0))
    } else {
        None
    }
}

/// Where the last `mark` stands: on a `mark`, after which none follows.
pub proof fn lemma_last_index_of(text: Seq<char>, mark: char)
    ensures
        -1 <= last_index_of(text, mark) < text.len(),
        last_index_of(text, mark) >= 0 ==> text[last_index_of(text, mark)] == mark,
        forall|i: int| last_index_of(text, mark) < i < text.len() ==> text[i] != mark,
    decreases text.len(),
{
    if text.len() > 0 && text.last() != mark {
        let shorter = text.drop_last();
        lemma_last_index_of(shorter, mark);
        assert forall|i: int| last_index_of(text, mark) < i < text.len() implies text[i] != mark by {
            if i < shorter.len() {
                assert(shorter[i] == text[i]);
            }
        }
    }
}

/// The value of digits grows with every further digit.
pub proof fn lemma_digits_value_grows(text: Seq<char>, n: int)
    requires
        0 <= n <= text.len(),
        forall|i: int| 0 <= i < text.len() ==> is_digit(#[trigger] text[i]),
    ensures
        digits_value(text.subrange(0, n)) <= digits_value(text),
    decreases text.len() - n,
{
    if n < text.len() {
        lemma_digits_value_grows(text, n + 1);
        assert(text.subrange(0, n + 1).drop_last() =~= text.subrange(0, n));
    } else {
        assert(text.subrange(0, n) =~= text);
    }
}

/// The place of the last `mark` among the first `len` characters of `text`.
fn find_last(text: &str, len: usize, mark: char) -> (place: Option<usize>)
    requires
        len <= text@.len(),
    ensures
        match place {
            Some(at) => at < len && at == last_index_of(text@.subrange(0, len as int), mark),
            None => last_index_of(text@.subrange(0, len as int), mark) == -1,
        },
{
    let mut i: usize = len;
    while i > 0
        invariant
            i <= len <= text@.len(),
            last_index_of(text@.subrange(0, len as int), mark) == last_index_of(
                text@.subrange(0, i as int),
                mark,
            ),
        decreases i,
    {
        if text.get_char(i - 1) == mark {
            return Some(i - 1);
        }
        assert(text@.subrange(0, i as int).drop_last() =~= text@.subrange(0, i - 1));
        i = i - 1;
    }
    None
}

/// Reads `text` as a 32-bit number in decimal.
pub fn parse_number(text: &str) -> (number: Option<u32>)
    ensures
        number == number_of(text@),
{
    let len = text.unicode_len();
    let start: usize = if len > 0 && text.get_char(0) == '+' {
        1
    } else {
        0
    };
    let ghost digits = unsigned_part(text@);
    assert(digits =~= text@.subrange(start as int, len as int));
    if start == len {
        return None;
    }
    let mut value: u64 = 0;
    let mut i: usize = start;
    while i < len
        invariant
            start <= i <= len,
            len == text@.len(),
            digits == unsigned_part(text@),
            digits == text@.subrange(start as int, len as int),
            forall|j: int| 0 <= j < i - start ==> is_digit(#[trigger] digits[j]),
            value == digits_value(digits.subrange(0, i - start)),
            value <= u32::MAX,
        decreases len - i,
    {
        let c = text.get_char(i);
        assert(c == digits[i - start]);
        if !('0' <= c && c <= '9') {
            assert(!is_digit(digits[i - start]));
            return None;
        }
        let digit: u64 = (c as u32 - '0' as u32) as u64;
        assert(digits.subrange(0, i + 1 - start).drop_last() =~= digits.subrange(0, i - start));
        value = value * 10 + digit;
        i = i + 1;
        if value > u32::MAX as u64 {
            proof {
                if forall|j: int| 0 <= j < digits.len() ==> is_digit(#[trigger] digits[j]) {
                    lemma_digits_value_grows(digits, i - start);
                }
            }
            return None;
        }
    }
    assert(digits.subrange(0, i - start) =~= digits);
    Some(value as u32)
}

/// A file name without its extension.
pub fn file_stem(name: &str) -> (stem: &str)
    ensures
        stem@ == stem_of(name@),
{
    let len = name.unicode_len();
    assert(name@.subrange(0, len as int) =~= name@);
    match find_last(name, len, '.') {
        Some(dot) => if dot == 0 {
            name
        } else {
            name.substring_char(0, dot)
        },
        None => name,
    }
}

/// What follows the last `/` of `path`.
pub fn file_name(path: &str) -> (name: &str)
    ensures
        name@ == file_name_of(path@),
{
    let len = path.unicode_len();
    assert(path@.subrange(0, len as int) =~= path@);
    match find_last(path, len, '/') {
        Some(slash) => path.substring_char(slash + 1, len),
        None => {
            assert(path@.subrange(0, len as int) =~= path@);
            path
        },
    }
}

/// The theme and the digit that the file at `path` is the picture of.
pub fn parse_asset_path(path: &str) -> (asset: Option<(String, u32)>)
    ensures
        match asset {
            Some((theme, digit)) => asset_of(path@) == Some((theme@, digit)),
            None => asset_of(path@) is None,
        },
{
    let len = path.unicode_len();
    assert(path@.subrange(0, len as int) =~= path@);
    let slash = match find_last(path, len, '/') {
        Some(slash) => slash,
        None => {
            return None;
        },
    };
    proof {
        lemma_last_index_of(path@, '/');
    }
    let name = path.substring_char(slash + 1, len);
    let directory = path.substring_char(0, slash);
    let directory_len = directory.unicode_len();
    assert(directory@.subrange(0, directory_len as int) =~= directory@);
    proof {
        lemma_last_index_of(directory@, '/');
    }
    let theme = match find_last(directory, directory_len, '/') {
        Some(before) => directory.substring_char(before + 1, directory_len),
        None => directory,
    };
    assert(theme@ =~= file_name_of(directory_of(path@)));
    if theme.unicode_len() == 0 || name.unicode_len() == 0 {
        return None;
    }
    match parse_number(file_stem(name)) {
        Some(digit) => Some((theme.to_owned(), digit)),
        None => None,
    }
}

} // verus!
