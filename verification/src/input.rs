use vstd::prelude::*;
use crate::text::push_text;

verus! {

/// White space: the characters with the Unicode property `White_Space`.
pub open spec fn is_space(c: char) -> bool {
    let n = c as u32;
    ||| 0x09 <= n <= 0x0d
    ||| n == 0x20
    ||| n == 0x85
    ||| n == 0xa0
    ||| n == 0x1680
    ||| 0x2000 <= n <= 0x200a
    ||| n == 0x2028
    ||| n == 0x2029
    ||| n == 0x202f
    ||| n == 0x205f
    ||| n == 0x3000
}

/// One of the ten decimal digits `0` to `9`.
pub open spec fn is_digit(c: char) -> bool {
    0x30 <= c as u32 <= 0x39
}

/// The number that a decimal digit stands for.
pub open spec fn digit_value(c: char) -> nat {
    if is_digit(c) {
        (c as u32 - 0x30) as nat
    } else {
        0
    }
}

/// The text without the white space at its start.
pub open spec fn trim_start(s: Seq<char>) -> Seq<char>
    decreases s.len(),
{
    if s.len() > 0 && is_space(s[0]) {
        trim_start(s.skip(1))
    } else {
        s
    }
}

/// The text without the white space at its end.
pub open spec fn trim_end(s: Seq<char>) -> Seq<char>
    decreases s.len(),
{
    if s.len() > 0 && is_space(s.last()) {
        trim_end(s.drop_last())
    } else {
        s
    }
}

/// The text without the white space at its start and at its end.
pub open spec fn trimmed(s: Seq<char>) -> Seq<char> {
    trim_end(trim_start(s))
}

/// Every character is a decimal digit.
pub open spec fn all_digits(s: Seq<char>) -> bool {
    forall|i: int| 0 <= i < s.len() ==> is_digit(#[trigger] s[i])
}

/// The number that a string of decimal digits denotes, the most significant digit first.
pub open spec fn digits_value(s: Seq<char>) -> nat
    decreases s.len(),
{
    if s.len() == 0 {
        0
    } else {
        10 * digits_value(s.drop_last()) + digit_value(s.last())
    }
}

/// The text without a plus sign at its start.
pub open spec fn without_sign(s: Seq<char>) -> Seq<char> {
    if s.len() > 0 && s[0] == '+' {
        s.skip(1)
    } else {
        s
    }
}

/// The number that a string of digits denotes, where it is one and fits a `usize`.
pub open spec fn number_of_digits(digits: Seq<char>) -> Option<usize> {
    if digits.len() > 0 && all_digits(digits) && digits_value(digits) <= usize::MAX {
        Some(digits_value(digits) as usize)
    } else {
        None
    }
}

/// The number that the text denotes: one decimal digit or more, with or
/// without a plus sign before them, whose value fits a `usize`.
pub open spec fn number_of(s: Seq<char>) -> Option<usize> {
    number_of_digits(without_sign(s))
}

/// The number that a line of input denotes, white space around it set aside.
pub open spec fn column_of_line(line: Seq<char>) -> Option<usize> {
    number_of(trimmed(line))
}

/// What a player is told about a line that denotes no number.
pub open spec fn rejection_text(line: Seq<char>) -> Seq<char> {
    "Invalid column '"@ + trimmed(line) + "'"@
}

proof fn lemma_digits_value_grows(s: Seq<char>, k: int)
    requires
        0 <= k <= s.len(),
    ensures
        digits_value(s.subrange(0, k)) <= digits_value(s),
    decreases s.len() - k,
{
    if k < s.len() {
        lemma_digits_value_grows(s, k + 1);
        assert(s.subrange(0, k + 1).drop_last() =~= s.subrange(0, k));
    } else {
        assert(s.subrange(0, k) =~= s);
    }
}

fn is_space_char(c: char) -> (b: bool)
    ensures
        b == is_space(c),
{
    let n: u32 = c as u32;
    (0x09 <= n && n <= 0x0d) || n == 0x20 || n == 0x85 || n == 0xa0 || n == 0x1680 || (0x2000 <= n
        && n <= 0x200a) || n == 0x2028 || n == 0x2029 || n == 0x202f || n == 0x205f || n == 0x3000
}

fn trim_bounds(line: &str) -> (r: (usize, usize))
    ensures
        r.0 <= r.1 <= line@.len(),
        trimmed(line@) == line@.subrange(r.0 as int, r.1 as int),
{
    let len = line.unicode_len();
    let mut start: usize = 0;
    assert(line@.subrange(0, len as int) =~= line@);
    while start < len && is_space_char(line.get_char(start))
        invariant
            start <= len,
            len == line@.len(),
            trim_start(line@) == trim_start(line@.subrange(start as int, len as int)),
        decreases len - start,
    {
        assert(line@.subrange(start as int, len as int).skip(1) =~= line@.subrange(
            start + 1,
            len as int,
        ));
        start = start + 1;
    }
    let ghost head = line@.subrange(start as int, len as int);
    assert(trim_start(line@) == head);
    let mut end: usize = len;
    while end > start && is_space_char(line.get_char(end - 1))
        invariant
            start <= end <= len,
            len == line@.len(),
            trim_end(head) == trim_end(line@.subrange(start as int, end as int)),
        decreases end - start,
    {
        assert(line@.subrange(start as int, end as int).drop_last() =~= line@.subrange(
            start as int,
            end - 1,
        ));
        end = end - 1;
    }
    (start, end)
}

fn parse_digits(line: &str, from: usize, to: usize) -> (r: Option<usize>)
    requires
        from <= to <= line@.len(),
    ensures
        r == number_of_digits(line@.subrange(from as int, to as int)),
{
    let ghost digits = line@.subrange(from as int, to as int);
    if from == to {
        return None;
    }
    let mut value: usize = 0;
    let mut i: usize = from;
    assert(line@.subrange(from as int, from as int) =~= Seq::<char>::empty());
    while i < to
        invariant
            from <= i <= to <= line@.len(),
            digits == line@.subrange(from as int, to as int),
            all_digits(line@.subrange(from as int, i as int)),
            value == digits_value(line@.subrange(from as int, i as int)),
        decreases to - i,
    {
        let c = line.get_char(i);
        let n: u32 = c as u32;
        if n < 0x30 || n > 0x39 {
            assert(!is_digit(digits[i - from]));
            return None;
        }
        let d: usize = (n - 0x30) as usize;
        proof {
            let next = line@.subrange(from as int, i + 1);
            assert(next.drop_last() =~= line@.subrange(from as int, i as int));
            assert(next.last() == c);
            assert(digits_value(next) == 10 * value + d);
            assert(digits.subrange(0, i + 1 - from) =~= next);
            lemma_digits_value_grows(digits, i + 1 - from);
        }
        if value > (usize::MAX - d) / 10 {
            return None;
        }
        value = value * 10 + d;
        i = i + 1;
    }
    Some(value)
}

/// Reads the column that a player typed.
///
/// The line holds a number where, white space at its ends set aside, it is
/// made of decimal digits, with or without a plus sign before them, and the
/// value fits a `usize`. Whether the number is a column of the grid is not
/// decided here. For any other line the result is the text that tells the
/// player so.
pub fn parse_column(line: &str) -> (r: Result<usize, String>)
    ensures
        match r {
            Ok(n) => column_of_line(line@) == Some(n),
            Err(text) => column_of_line(line@) is None && text@ == rejection_text(line@),
        },
{
    let (start, end) = trim_bounds(line);
    let first = if start < end && line.get_char(start) == '+' {
        start + 1
    } else {
        start
    };
    assert(without_sign(trimmed(line@)) =~= line@.subrange(first as int, end as int));
    match parse_digits(line, first, end) {
        Some(n) => Ok(n),
        None => {
            let mut text = String::new();
            push_text(&mut text, "Invalid column '");
            push_text(&mut text, line.substring_char(start, end));
            push_text(&mut text, "'");
            assert(text@ =~= rejection_text(line@));
            Err(text)
        },
    }
}

} // verus!
