//! Small text operations: decimal numbers, quoting, and trimming.

use vstd::prelude::*;
use vstd::string::*;

verus! {

/// Writes `prefix`, then `text`.
pub(crate) fn prefixed(prefix: &str, text: &str) -> (line: String)
    ensures
        line@ == prefix@ + text@,
{
    let mut line = prefix.to_string();
    line.append(text);
    line
}

/// Ends `text` with a newline.
pub(crate) fn with_newline(text: String) -> (line: String)
    ensures
        line@ == text@.push('\n'),
{
    let mut line = text;
    line.append("\n");
    proof {
        reveal_strlit("\n");
        assert("\n"@ =~= seq!['\n']);
    }
    line
}

/// The decimal digit for `d`.
pub open spec fn digit_text(d: nat) -> Seq<char> {
    if d == 0 {
        "0"@
    } else if d == 1 {
        "1"@
    } else if d == 2 {
        "2"@
    } else if d == 3 {
        "3"@
    } else if d == 4 {
        "4"@
    } else if d == 5 {
        "5"@
    } else if d == 6 {
        "6"@
    } else if d == 7 {
        "7"@
    } else if d == 8 {
        "8"@
    } else {
        "9"@
    }
}

/// `n` written in decimal, most significant digit first, no leading zeros.
pub open spec fn decimal_text(n: nat) -> Seq<char>
    decreases n,
{
    if n < 10 {
        digit_text(n)
    } else {
        decimal_text(n / 10) + digit_text(n % 10)
    }
}

fn digit(d: usize) -> (text: &'static str)
    requires
        d < 10,
    ensures
        text@ == digit_text(d as nat),
{
    match d {
        0 => "0",
        1 => "1",
        2 => "2",
        3 => "3",
        4 => "4",
        5 => "5",
        6 => "6",
        7 => "7",
        8 => "8",
        _ => "9",
    }
}

/// Writes `n` in decimal.
pub fn decimal(n: usize) -> (text: String)
    ensures
        text@ == decimal_text(n as nat),
    decreases n,
{
    if n < 10 {
        digit(n).to_string()
    } else {
        let mut text = decimal(n / 10);
        text.append(digit(n % 10));
        text
    }
}

/// What std's `Debug` formatting writes for a string slice: the text in double
/// quotes, with quotes, backslashes and unprintable characters escaped.
pub uninterp spec fn debug_text(text: Seq<char>) -> Seq<char>;

/// Calls std's `Debug` formatting of `str`, the `{:?}` placeholder. The claim is
/// only that the output is a function of the text.
#[verifier::external_body]
pub(crate) fn quoted(text: &str) -> (quotation: String)
    ensures
        quotation@ == debug_text(text@),
{
    format!("{:?}", text)
}

/// Unicode's `White_Space` property.
pub open spec fn white_space(c: char) -> bool {
    ||| 0x09 <= c as u32 <= 0x0d
    ||| c as u32 == 0x20
    ||| c as u32 == 0x85
    ||| c as u32 == 0xa0
    ||| c as u32 == 0x1680
    ||| 0x2000 <= c as u32 <= 0x200a
    ||| c as u32 == 0x2028
    ||| c as u32 == 0x2029
    ||| c as u32 == 0x202f
    ||| c as u32 == 0x205f
    ||| c as u32 == 0x3000
}

/// `char::is_whitespace`: whether the character has the `White_Space` property.
pub assume_specification[ char::is_whitespace ](c: char) -> (is_white: bool)
    ensures
        is_white == white_space(c),
;

/// `text` without the whitespace at its end.
pub open spec fn trimmed_end(text: Seq<char>) -> Seq<char>
    decreases text.len(),
{
    if text.len() > 0 && white_space(text.last()) {
        trimmed_end(text.drop_last())
    } else {
        text
    }
}

/// Removes all whitespace at the end of `text`.
pub fn trim_end(text: &str) -> (trimmed: String)
    ensures
        trimmed@ == trimmed_end(text@),
{
    let mut end: usize = text.unicode_len();
    assert(text@.take(end as int) == text@);
    while end > 0 && text.get_char(end - 1).is_whitespace()
        invariant
            end <= text@.len(),
            trimmed_end(text@.take(end as int)) == trimmed_end(text@),
        ensures
            end <= text@.len(),
            trimmed_end(text@.take(end as int)) == trimmed_end(text@),
            end == 0 || !white_space(text@[end - 1]),
        decreases end,
    {
        assert(text@.take(end as int).drop_last() == text@.take(end - 1));
        end = end - 1;
    }
    text.substring_char(0, end).to_string()
}

/// Trimming leaves no whitespace at the end, and takes away nothing but
/// whitespace at the end.
pub proof fn lemma_trimmed_end(text: Seq<char>)
    ensures
        trimmed_end(text).len() <= text.len(),
        trimmed_end(text) == text.take(trimmed_end(text).len() as int),
        trimmed_end(text).len() > 0 ==> !white_space(trimmed_end(text).last()),
        forall|i: int| trimmed_end(text).len() <= i < text.len() ==> white_space(#[trigger] text[i]),
    decreases text.len(),
{
    if text.len() > 0 && white_space(text.last()) {
        lemma_trimmed_end(text.drop_last());
        let k = trimmed_end(text).len() as int;
        assert(text.drop_last().take(k) == text.take(k));
        assert forall|i: int| k <= i < text.len() implies white_space(#[trigger] text[i]) by {
            if i < text.len() - 1 {
                assert(text.drop_last()[i] == text[i]);
            }
        }
    } else {
        assert(text.take(text.len() as int) == text);
    }
}

/// A newline at the end makes no difference to the trimmed text.
pub proof fn lemma_trailing_newline_is_trimmed(text: Seq<char>)
    ensures
        trimmed_end(text.push('\n')) == trimmed_end(text),
{
    assert(text.push('\n').drop_last() == text);
}

/// `text` read line by line: the lines that a newline ended, and what stands after
/// the last newline.
pub open spec fn lines_of(text: Seq<char>) -> (Seq<Seq<char>>, Seq<char>)
    decreases text.len(),
{
    if text.len() == 0 {
        (Seq::empty(), Seq::empty())
    } else {
        let (ended, open) = lines_of(text.drop_last());
        if text.last() == '\n' {
            (ended.push(open), Seq::empty())
        } else {
            (ended, open.push(text.last()))
        }
    }
}

proof fn lemma_open_line_grows(text: Seq<char>, more: Seq<char>)
    requires
        !more.contains('\n'),
    ensures
        lines_of(text + more) == (lines_of(text).0, lines_of(text).1 + more),
    decreases more.len(),
{
    if more.len() == 0 {
        assert(text + more =~= text);
        assert(lines_of(text).1 + more =~= lines_of(text).1);
    } else {
        let init = more.drop_last();
        assert(!init.contains('\n')) by {
            if init.contains('\n') {
                let k = choose|k: int| 0 <= k < init.len() && init[k] == '\n';
                assert(more[k] == '\n');
            }
        }
        lemma_open_line_grows(text, init);
        assert((text + more).drop_last() =~= text + init);
        assert((text + more).last() == more.last());
        assert(more.contains(more[more.len() - 1]));
        assert((lines_of(text).1 + init).push(more.last()) =~= lines_of(text).1 + more);
    }
}

/// A text without newlines, appended with a newline to whole lines, is one more
/// line.
pub proof fn lemma_appended_line(text: Seq<char>, line: Seq<char>)
    requires
        lines_of(text).1.len() == 0,
        !line.contains('\n'),
    ensures
        lines_of(text + line.push('\n')) == (lines_of(text).0.push(line), Seq::<char>::empty()),
{
    lemma_open_line_grows(text, line);
    assert((text + line.push('\n')).drop_last() =~= text + line);
    assert((text + line.push('\n')).last() == '\n');
    assert(lines_of(text).1 + line =~= line);
}

/// One more than `n`, as far as the type goes.
pub open spec fn one_more(n: usize) -> usize {
    if n < usize::MAX {
        (n + 1) as usize
    } else {
        n
    }
}

/// Line and column of the byte at `offset`, both counted from one, the column in
/// bytes.
pub open spec fn position_of(bytes: Seq<u8>, offset: int) -> (usize, usize)
    decreases offset,
{
    if offset <= 0 {
        (1, 1)
    } else {
        let (line, column) = position_of(bytes, offset - 1);
        if bytes[offset - 1] == 10 {
            (one_more(line), 1)
        } else {
            (line, one_more(column))
        }
    }
}

/// [`position_of`], where an offset behind the end of the text stands for the end.
pub open spec fn position_in(bytes: Seq<u8>, offset: int) -> (usize, usize) {
    position_of(
        bytes,
        if offset < bytes.len() {
            offset
        } else {
            bytes.len() as int
        },
    )
}

fn count_on(n: usize) -> (more: usize)
    ensures
        more == one_more(n),
{
    if n < usize::MAX {
        n + 1
    } else {
        n
    }
}

/// Finds line and column of the byte at `offset`; an offset behind the end stands
/// for the end.
pub fn position(bytes: &[u8], offset: usize) -> (at: (usize, usize))
    ensures
        at == position_in(bytes@, offset as int),
{
    let end: usize = if offset < bytes.len() {
        offset
    } else {
        bytes.len()
    };
    let mut line: usize = 1;
    let mut column: usize = 1;
    let mut i: usize = 0;
    while i < end
        invariant
            i <= end <= bytes@.len(),
            (line, column) == position_of(bytes@, i as int),
        decreases end - i,
    {
        if bytes[i] == 10 {
            line = count_on(line);
            column = 1;
        } else {
            column = count_on(column);
        }
        i = i + 1;
    }
    (line, column)
}

/// The number that a text of decimal digits stands for.
pub open spec fn number_in(text: Seq<char>) -> int
    decreases text.len(),
{
    if text.len() == 0 {
        0
    } else {
        10 * number_in(text.drop_last()) + (text.last() as int - '0' as int)
    }
}

/// A number in decimal reads back as the number, is made of digits, and has no zero in
/// front unless it is zero.
pub proof fn lemma_decimals_read_back(n: nat)
    ensures
        number_in(decimal_text(n)) == n,
        decimal_text(n).len() > 0,
        forall|i: int|
            0 <= i < decimal_text(n).len() ==> '0' <= #[trigger] decimal_text(n)[i] <= '9',
        n > 0 ==> decimal_text(n)[0] != '0',
        n == 0 ==> decimal_text(n).len() == 1,
    decreases n,
{
    reveal_strlit("0");
    reveal_strlit("1");
    reveal_strlit("2");
    reveal_strlit("3");
    reveal_strlit("4");
    reveal_strlit("5");
    reveal_strlit("6");
    reveal_strlit("7");
    reveal_strlit("8");
    reveal_strlit("9");
    let digit = digit_text(n % 10);
    assert(digit.len() == 1);
    assert(digit[0] as int - '0' as int == n % 10);
    if n < 10 {
        assert(decimal_text(n) == digit);
        assert(digit.drop_last() =~= Seq::<char>::empty());
        assert(number_in(digit.drop_last()) == 0);
    } else {
        lemma_decimals_read_back(n / 10);
        let text = decimal_text(n);
        assert(text == decimal_text(n / 10) + digit);
        assert(text.drop_last() =~= decimal_text(n / 10));
        assert(text.last() == digit[0]);
    }
}

/// Where a byte stands, for a text whose places the type can count: its line is one
/// more than the newlines before it, and its column counts from the last of those.
pub proof fn lemma_position_counts_newlines(bytes: Seq<u8>, offset: int, start: int)
    requires
        0 <= start <= offset <= bytes.len(),
        offset < usize::MAX,
        start > 0 ==> bytes[start - 1] == 10,
        forall|j: int| start <= j < offset ==> #[trigger] bytes[j] != 10,
    ensures
        position_in(bytes, offset).0 == 1 + bytes.take(offset).filter(|b: u8| b == 10u8).len(),
        position_in(bytes, offset).1 == offset - start + 1,
{
    lemma_line_counts(bytes, offset);
    lemma_column_counts(bytes, offset, start);
}

proof fn lemma_line_counts(bytes: Seq<u8>, offset: int)
    requires
        0 <= offset <= bytes.len(),
        offset < usize::MAX,
    ensures
        position_of(bytes, offset).0 == 1 + bytes.take(offset).filter(|b: u8| b == 10u8).len(),
        position_of(bytes, offset).0 <= offset + 1,
    decreases offset,
{
    let newline = |b: u8| b == 10u8;
    reveal(Seq::filter);
    if offset > 0 {
        lemma_line_counts(bytes, offset - 1);
        assert(bytes.take(offset).drop_last() =~= bytes.take(offset - 1));
        assert(bytes.take(offset).last() == bytes[offset - 1]);
    } else {
        assert(bytes.take(0).filter(newline).len() == 0);
    }
}

proof fn lemma_column_counts(bytes: Seq<u8>, offset: int, start: int)
    requires
        0 <= start <= offset <= bytes.len(),
        offset < usize::MAX,
        start > 0 ==> bytes[start - 1] == 10,
        forall|j: int| start <= j < offset ==> #[trigger] bytes[j] != 10,
    ensures
        position_of(bytes, offset).1 == offset - start + 1,
    decreases offset,
{
    if start < offset {
        lemma_column_counts(bytes, offset - 1, start);
        assert(bytes[offset - 1] != 10);
    }
}

/// A place behind the end of a text is its end.
pub proof fn lemma_positions_stop_at_the_end(bytes: Seq<u8>, offset: int)
    requires
        offset >= bytes.len(),
    ensures
        position_in(bytes, offset) == position_in(bytes, bytes.len() as int),
{
}

} // verus!
