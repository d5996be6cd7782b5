//! Texts as sequences of characters: the lines of a text, and numbers
//! written in decimal.

use vstd::prelude::*;

verus! {

/// Whether `text` is free of line feeds, so that it fits on one line.
pub open spec fn single_line(text: Seq<char>) -> bool {
    forall|i: int| 0 <= i < text.len() ==> text[i] != '\n'
}

/// If a line feed is pushed onto a text that has none, the result has one;
/// any other character leaves a text of one line as it is.
proof fn lemma_single_line_push(text: Seq<char>, c: char)
    ensures
        single_line(text.push(c)) == (single_line(text) && c != '\n'),
{
    let longer = text.push(c);
    if c == '\n' {
        assert(longer[text.len() as int] == '\n');
    } else if !single_line(text) {
        let i = choose|i: int| 0 <= i < text.len() && text[i] == '\n';
        assert(longer[i] == '\n');
    }
}

/// Whether `s` holds no line feed.
pub fn is_single_line(s: &str) -> (r: bool)
    ensures
        r == single_line(s@),
{
    let mut ok = true;
    for c in it: s.chars()
        invariant
            it.seq() == s@,
            ok == single_line(s@.take(it.index() as int)),
    {
        proof {
            lemma_single_line_push(s@.take(it.index() as int), c);
            assert(s@.take(it.index() + 1) =~= s@.take(it.index() as int).push(c));
        }
        if c == '\n' {
            ok = false;
        }
    }
    assert(s@.take(s@.len() as int) =~= s@);
    ok
}

/// Where the first line of `text` ends: the position of its first line
/// feed, or its length if it holds none.
pub open spec fn line_end(text: Seq<char>) -> int
    decreases text.len(),
{
    if text.len() == 0 || text[0] == '\n' {
        0
    } else {
        1 + line_end(text.skip(1))
    }
}

/// `line` without the carriage return at its end, if it has one there.
pub open spec fn without_cr(line: Seq<char>) -> Seq<char> {
    if line.len() > 0 && line.last() == '\r' {
        line.drop_last()
    } else {
        line
    }
}

/// The lines of `text`. A line ends with a line feed, or with a carriage
/// return and a line feed; neither belongs to the line. What follows the
/// last line feed is a line too, unless it is empty.
pub open spec fn lines(text: Seq<char>) -> Seq<Seq<char>>
    decreases text.len(),
{
    if text.len() == 0 {
        Seq::empty()
    } else {
        let end = line_end(text);
        if 0 <= end < text.len() {
            seq![without_cr(text.take(end))] + lines(text.skip(end + 1))
        } else {
            seq![text]
        }
    }
}

/// The first line ends inside the text or at its end, no line feed stands
/// before that place, and one stands at it unless it is the end.
pub proof fn lemma_line_end(text: Seq<char>)
    ensures
        0 <= line_end(text) <= text.len(),
        single_line(text.take(line_end(text))),
        line_end(text) < text.len() ==> text[line_end(text)] == '\n',
    decreases text.len(),
{
    if text.len() > 0 && text[0] != '\n' {
        let rest = text.skip(1);
        lemma_line_end(rest);
        let first = text.take(line_end(text));
        assert forall|i: int| 0 <= i < first.len() implies first[i] != '\n' by {
            if i > 0 {
                assert(rest.take(line_end(rest))[i - 1] == text[i]);
            }
        }
    }
}

/// The place at which the first line ends is the only one that no line feed
/// precedes and that is a line feed or the end.
pub proof fn lemma_line_end_at(text: Seq<char>, end: int)
    requires
        0 <= end <= text.len(),
        single_line(text.take(end)),
        end < text.len() ==> text[end] == '\n',
    ensures
        line_end(text) == end,
    decreases text.len(),
{
    if text.len() > 0 && text[0] == '\n' {
        if end > 0 {
            assert(text.take(end)[0] == '\n');
        }
    } else if text.len() > 0 {
        let rest = text.skip(1);
        let first = rest.take(end - 1);
        assert forall|i: int| 0 <= i < first.len() implies first[i] != '\n' by {
            assert(text.take(end)[i + 1] == rest[i]);
        }
        lemma_line_end_at(rest, end - 1);
    }
}

/// Whether `text` ends where a line ends: it is empty, or its last character
/// is a line feed.
pub open spec fn ends_lines(text: Seq<char>) -> bool {
    text.len() == 0 || text.last() == '\n'
}

/// A text of one line that is ended by a line feed has that line alone, less
/// a carriage return at its end.
pub proof fn lines_of_one_line(line: Seq<char>)
    requires
        single_line(line),
    ensures
        lines(line.push('\n')) == seq![without_cr(line)],
{
    let text = line.push('\n');
    assert(text.take(line.len() as int) =~= line);
    lemma_line_end_at(text, line.len() as int);
    assert(text.skip(line.len() as int + 1) =~= Seq::<char>::empty());
    assert(seq![without_cr(line)] + lines(Seq::<char>::empty()) =~= seq![without_cr(line)]);
}

/// Where a text ends with the end of a line, the lines of what is written
/// behind it follow its own.
pub proof fn lines_of_concat(first: Seq<char>, second: Seq<char>)
    requires
        ends_lines(first),
    ensures
        lines(first + second) == lines(first) + lines(second),
    decreases first.len(),
{
    if first.len() > 0 {
        let all = first + second;
        let end = line_end(first);
        lemma_line_end(first);
        if end == first.len() {
            assert(first.take(end)[end - 1] == '\n');
        }
        assert(all.take(end) =~= first.take(end));
        lemma_line_end_at(all, end);
        let rest = first.skip(end + 1);
        assert(all.skip(end + 1) =~= rest + second);
        lines_of_concat(rest, second);
    }
}

/// Splits `text` into its lines. Each line is a slice of `text`. Besides one
/// pass over the text, every line costs a walk from the start of the text to
/// the line's end.
pub fn split_lines<'a>(text: &'a str) -> (out: Vec<&'a str>)
    ensures
        out.deep_view() == lines(text@),
{
    let n = text.unicode_len();
    let mut out: Vec<&'a str> = Vec::new();
    let mut start: usize = 0;
    let mut pos: usize = 0;
    let mut after_cr = false;
    proof {
        assert(text@.skip(0) =~= text@);
    }
    for c in it: text.chars()
        invariant
            it.seq() == text@,
            n == text@.len(),
            pos == it.index(),
            start <= pos,
            single_line(text@.subrange(start as int, pos as int)),
            after_cr == (pos > start && text@[pos - 1] == '\r'),
            out.deep_view() + lines(text@.skip(start as int)) == lines(text@),
    {
        let ghost rest = text@.skip(start as int);
        let ghost line = text@.subrange(start as int, pos as int);
        if c == '\n' {
            let end = if after_cr {
                pos - 1
            } else {
                pos
            };
            let slice = text.substring_char(start, end);
            proof {
                assert(rest.take(pos - start) =~= line);
                lemma_line_end_at(rest, pos - start);
                assert(rest.skip(pos - start + 1) =~= text@.skip(pos + 1));
                assert(slice@ =~= without_cr(line));
            }
            out.push(slice);
            start = pos + 1;
            after_cr = false;
        } else {
            proof {
                lemma_single_line_push(line, c);
                assert(text@.subrange(start as int, pos + 1) =~= line.push(c));
            }
            after_cr = c == '\r';
        }
        pos += 1;
    }
    if start < n {
        let slice = text.substring_char(start, n);
        proof {
            lemma_line_end_at(text@.skip(start as int), n - start);
        }
        out.push(slice);
    }
    out
}

/// The character for a digit below ten.
pub open spec fn digit(d: nat) -> char {
    if d == 0 {
        '0'
    } else if d == 1 {
        '1'
    } else if d == 2 {
        '2'
    } else if d == 3 {
        '3'
    } else if d == 4 {
        '4'
    } else if d == 5 {
        '5'
    } else if d == 6 {
        '6'
    } else if d == 7 {
        '7'
    } else if d == 8 {
        '8'
    } else {
        '9'
    }
}

/// `n` written in decimal, without leading zeros.
pub open spec fn decimal(n: nat) -> Seq<char>
    decreases n,
{
    if n < 10 {
        seq![digit(n)]
    } else {
        decimal(n / 10).push(digit(n % 10))
    }
}

/// The digit `d` as a string of one character.
fn digit_str(d: usize) -> (s: &'static str)
    requires
        d < 10,
    ensures
        s@ == seq![digit(d as nat)],
{
    proof {
        reveal_strlit("0");
        reveal_strlit("1");
        reveal_strlit("2");
        reveal_strlit("3");
        reveal_strlit("4");
        reveal_strlit("5");
        reveal_strlit("6");
        reveal_strlit("7");
        reveal_strlit("8");
        reveal_strlit("9");
    }
    match d {
        0 => "0",
        1 => "1",
        2 => "2",
        3 => "3",
        4 => "4",
        5 => "5",
        6 => "6",
        7 => "7",
        8 => "8",
        _ => "9",
    }
}

/// Appends `n`, written in decimal, to `out`.
pub fn push_decimal(out: &mut String, n: usize)
    ensures
        final(out)@ == old(out)@ + decimal(n as nat),
    decreases n,
{
    if n >= 10 {
        push_decimal(out, n / 10);
    }
    out.append(digit_str(n % 10));
}

} // verus!
