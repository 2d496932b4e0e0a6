//! Text as sequences of characters: conversion between strings and character
//! vectors, line-ending normalisation, and splitting into and joining from lines.

use vstd::prelude::*;
use vstd::std_specs::iter::IteratorSpec;

verus! {

/// The characters of a string, in order.
pub fn chars_of(s: &str) -> (v: Vec<char>)
    ensures
        v@ == s@,
{
    let mut v: Vec<char> = Vec::new();
    let mut it = s.chars();
    loop
        invariant
            v@ + it.remaining() == s@,
            it.obeys_prophetic_iter_laws(),
            it.decrease() is Some,
        ensures
            v@ == s@,
        decreases it.decrease()->0,
    {
        match it.next() {
            Some(c) => {
                v.push(c);
            },
            None => {
                assert(v@ + it.remaining() =~= v@);
                break;
            },
        }
    }
    v
}

/// Trusted: `String::from_iter` over a slice of characters builds the string
/// that holds exactly those characters, in order.
#[verifier::external_body]
pub(crate) fn string_of(chars: &Vec<char>) -> (s: String)
    ensures
        s@ == chars@,
{
    String::from_iter(chars)
}

/// `s` from position `from` on, with every carriage return that is directly
/// followed by a line feed removed. Pairs are found from left to right.
pub open spec fn normalized_from(s: Seq<char>, from: int) -> Seq<char>
    decreases s.len() - from,
{
    if from < 0 || from >= s.len() {
        Seq::empty()
    } else if s[from] == '\r' && from + 1 < s.len() && s[from + 1] == '\n' {
        seq!['\n'] + normalized_from(s, from + 2)
    } else {
        seq![s[from]] + normalized_from(s, from + 1)
    }
}

/// `s` with every CRLF pair turned into a single line feed.
pub open spec fn normalized(s: Seq<char>) -> Seq<char> {
    normalized_from(s, 0)
}

/// Whether `s` holds a carriage return directly followed by a line feed.
pub open spec fn has_crlf(s: Seq<char>) -> bool {
    exists|i: int| 0 <= i && i + 1 < s.len() && s[i] == '\r' && #[trigger] s[i + 1] == '\n'
}

/// In a text without CRLF pairs nothing is taken out.
pub proof fn lemma_normalized_from_plain(s: Seq<char>, from: int)
    requires
        !has_crlf(s),
        0 <= from <= s.len(),
    ensures
        normalized_from(s, from) == s.subrange(from, s.len() as int),
    decreases s.len() - from,
{
    if from < s.len() {
        if from + 1 < s.len() {
            assert(!(s[from] == '\r' && s[from + 1] == '\n'));
        }
        lemma_normalized_from_plain(s, from + 1);
        assert(seq![s[from]] + s.subrange(from + 1, s.len() as int) =~= s.subrange(
            from,
            s.len() as int,
        ));
    } else {
        assert(s.subrange(from, s.len() as int) =~= Seq::<char>::empty());
    }
}

/// A text without CRLF pairs is its own normalisation.
pub proof fn lemma_normalized_plain(s: Seq<char>)
    requires
        !has_crlf(s),
    ensures
        normalized(s) == s,
{
    lemma_normalized_from_plain(s, 0);
    assert(s.subrange(0, s.len() as int) =~= s);
}

/// Turns every CRLF pair of `input` into a single line feed.
pub fn normalize_chars(input: &Vec<char>) -> (out: Vec<char>)
    ensures
        out@ == normalized(input@),
{
    let mut out: Vec<char> = Vec::new();
    let mut i: usize = 0;
    while i < input.len()
        invariant
            i <= input.len(),
            out@ + normalized_from(input@, i as int) == normalized(input@),
        decreases input.len() - i,
    {
        let ghost before = out@;
        if input[i] == '\r' && i + 1 < input.len() && input[i + 1] == '\n' {
            out.push('\n');
            proof {
                assert(out@ + normalized_from(input@, i + 2) =~= before + normalized_from(
                    input@,
                    i as int,
                ));
            }
            i = i + 2;
        } else {
            out.push(input[i]);
            proof {
                assert(out@ + normalized_from(input@, i + 1) =~= before + normalized_from(
                    input@,
                    i as int,
                ));
            }
            i = i + 1;
        }
    }
    proof {
        assert(out@ + normalized_from(input@, i as int) =~= out@);
    }
    out
}

/// Turns every CRLF pair of `input` into a single line feed.
pub fn normalize_newlines(input: &str) -> (out: String)
    ensures
        out@ == normalized(input@),
{
    let chars = chars_of(input);
    let out = normalize_chars(&chars);
    string_of(&out)
}

/// The position of the first line feed of `s` at or after `from`, or the
/// length of `s` where there is none.
pub open spec fn line_end(s: Seq<char>, from: int) -> int
    decreases s.len() - from,
{
    if from < 0 || from >= s.len() {
        s.len() as int
    } else if s[from] == '\n' {
        from
    } else {
        line_end(s, from + 1)
    }
}

/// The text of the line that starts at `from` and ends before `end`: where
/// the line is closed by a line feed, one carriage return before it is not
/// part of the line.
pub open spec fn line_text(s: Seq<char>, from: int, end: int) -> Seq<char> {
    if end < s.len() && from < end && s[end - 1] == '\r' {
        s.subrange(from, end - 1)
    } else {
        s.subrange(from, end)
    }
}

/// The lines of `s` that start at or after `from`.
pub open spec fn lines_from(s: Seq<char>, from: int) -> Seq<Seq<char>>
    decreases s.len() + 1 - from,
{
    if from < 0 || from >= s.len() {
        Seq::empty()
    } else {
        let end = line_end(s, from);
        if from <= end <= s.len() {
            seq![line_text(s, from, end)] + lines_from(s, end + 1)
        } else {
            Seq::empty()
        }
    }
}

/// The lines of `s`. A line is closed by a line feed or by a carriage return
/// and a line feed, neither of which belongs to it; the last line needs no
/// line feed, and a text that ends with one has no empty line after it.
pub open spec fn lines_of(s: Seq<char>) -> Seq<Seq<char>> {
    lines_from(s, 0)
}

/// The views of a vector of strings.
pub open spec fn views(lines: Seq<String>) -> Seq<Seq<char>> {
    lines.map_values(|l: String| l@)
}

/// The end of a line lies at or after its start and inside the text; a line
/// feed stands there unless the text ends, and none stands before it.
pub proof fn lemma_line_end_bounds(s: Seq<char>, from: int)
    requires
        0 <= from <= s.len(),
    ensures
        from <= line_end(s, from) <= s.len(),
        line_end(s, from) < s.len() ==> s[line_end(s, from)] == '\n',
        forall|j: int| from <= j < line_end(s, from) ==> s[j] != '\n',
    decreases s.len() - from,
{
    if from < s.len() && s[from] != '\n' {
        lemma_line_end_bounds(s, from + 1);
    }
}

/// Splits a text, given by its characters, into its lines.
pub fn split_chars(chars: &Vec<char>) -> (lines: Vec<String>)
    ensures
        views(lines@) == lines_of(chars@),
{
    let mut lines: Vec<String> = Vec::new();
    let mut start: usize = 0;
    while start < chars.len()
        invariant
            start <= chars.len(),
            views(lines@) + lines_from(chars@, start as int) == lines_of(chars@),
        decreases chars.len() - start,
    {
        let mut end: usize = start;
        while end < chars.len() && chars[end] != '\n'
            invariant
                start <= end <= chars.len(),
                line_end(chars@, end as int) == line_end(chars@, start as int),
            decreases chars.len() - end,
        {
            end = end + 1;
        }
        proof {
            lemma_line_end_bounds(chars@, start as int);
            assert(line_end(chars@, start as int) == end);
        }
        let stop: usize = if end < chars.len() && start < end && chars[end - 1] == '\r' {
            end - 1
        } else {
            end
        };
        let mut piece: Vec<char> = Vec::new();
        let mut k: usize = start;
        while k < stop
            invariant
                start <= k <= stop <= chars.len(),
                piece@ == chars@.subrange(start as int, k as int),
            decreases stop - k,
        {
            piece.push(chars[k]);
            proof {
                assert(piece@ =~= chars@.subrange(start as int, k + 1));
            }
            k = k + 1;
        }
        let line = string_of(&piece);
        let ghost before = lines@;
        lines.push(line);
        proof {
            assert(line@ == line_text(chars@, start as int, end as int));
            assert(views(lines@) =~= views(before) + seq![line@]);
            assert(views(lines@) + lines_from(chars@, end + 1) =~= views(before) + lines_from(
                chars@,
                start as int,
            ));
        }
        start = if end < chars.len() {
            end + 1
        } else {
            end
        };
    }
    proof {
        assert(views(lines@) + lines_from(chars@, start as int) =~= views(lines@));
    }
    lines
}

/// Splits a text into its lines.
pub fn split_lines(content: &str) -> (lines: Vec<String>)
    ensures
        views(lines@) == lines_of(content@),
{
    let chars = chars_of(content);
    split_chars(&chars)
}

/// Whether the last character of `s` is a line feed.
pub open spec fn ends_with_newline(s: Seq<char>) -> bool {
    s.len() > 0 && s.last() == '\n'
}

/// The lines joined, with one line feed between each two of them.
pub open spec fn joined(lines: Seq<Seq<char>>) -> Seq<char>
    decreases lines.len(),
{
    if lines.len() == 0 {
        Seq::empty()
    } else if lines.len() == 1 {
        lines[0]
    } else {
        joined(lines.drop_last()) + seq!['\n'] + lines.last()
    }
}

/// Joining a line and more lines: the line, and where more follow, a line
/// feed and those joined.
pub proof fn lemma_joined_from_first(first: Seq<char>, more: Seq<Seq<char>>)
    ensures
        joined(seq![first] + more) == if more.len() == 0 {
            first
        } else {
            first + seq!['\n'] + joined(more)
        },
    decreases more.len(),
{
    let all = seq![first] + more;
    if more.len() == 0 {
        assert(all =~= seq![first]);
    } else {
        assert(all.drop_last() =~= seq![first] + more.drop_last());
        assert(all.last() == more.last());
        lemma_joined_from_first(first, more.drop_last());
        if more.len() == 1 {
            assert(more.drop_last().len() == 0);
            assert(joined(more) == more[0]);
            assert(joined(all) =~= first + seq!['\n'] + joined(more));
        } else {
            assert(joined(all) =~= first + seq!['\n'] + (joined(more.drop_last()) + seq!['\n']
                + more.last()));
            assert(joined(all) =~= first + seq!['\n'] + joined(more));
        }
    }
}

/// What closes a text that ends with a line feed: that line feed.
pub open spec fn closing(s: Seq<char>) -> Seq<char> {
    if ends_with_newline(s) {
        seq!['\n']
    } else {
        Seq::empty()
    }
}

/// In a text without CRLF pairs, the lines from a line start on, joined and
/// closed as the text is, are the text from there on.
pub proof fn lemma_join_split_from(s: Seq<char>, from: int)
    requires
        !has_crlf(s),
        0 <= from < s.len(),
    ensures
        lines_from(s, from).len() > 0,
        joined(lines_from(s, from)) + closing(s) == s.subrange(from, s.len() as int),
    decreases s.len() - from,
{
    lemma_line_end_bounds(s, from);
    let end = line_end(s, from);
    let len = s.len() as int;
    if end < len && from < end {
        assert(!(s[end - 1] == '\r' && s[(end - 1) + 1] == '\n'));
    }
    let line = s.subrange(from, end);
    assert(line_text(s, from, end) == line);
    let more = lines_from(s, end + 1);
    assert(lines_from(s, from) == seq![line] + more);
    lemma_joined_from_first(line, more);
    if end == len {
        assert(more.len() == 0);
        assert(s[len - 1] != '\n');
        assert(line + closing(s) =~= s.subrange(from, len));
    } else if end + 1 == len {
        assert(more.len() == 0);
        assert(s.last() == '\n');
        assert(line + closing(s) =~= s.subrange(from, len));
    } else {
        lemma_join_split_from(s, end + 1);
        assert(line + seq!['\n'] + joined(more) + closing(s) =~= line + seq!['\n'] + (joined(more)
            + closing(s)));
        assert(line + seq!['\n'] + s.subrange(end + 1, len) =~= s.subrange(from, len));
    }
}

/// Joining undoes splitting. The lines of a text without CRLF pairs, joined
/// by line feeds and closed by a line feed where the text is, are the text.
pub proof fn lemma_join_split(s: Seq<char>)
    requires
        !has_crlf(s),
    ensures
        joined(lines_of(s)) + closing(s) == s,
{
    if s.len() == 0 {
        assert(joined(lines_of(s)) + closing(s) =~= s);
    } else {
        lemma_join_split_from(s, 0);
        assert(s.subrange(0, s.len() as int) =~= s);
    }
}

/// Joins the lines with one line feed between each two of them.
pub fn join_chars(lines: &Vec<String>) -> (out: Vec<char>)
    ensures
        out@ == joined(views(lines@)),
{
    let mut out: Vec<char> = Vec::new();
    let mut i: usize = 0;
    while i < lines.len()
        invariant
            i <= lines.len(),
            out@ == joined(views(lines@).take(i as int)),
        decreases lines.len() - i,
    {
        let ghost done = views(lines@).take(i as int);
        let ghost next = views(lines@).take(i + 1);
        if i > 0 {
            out.push('\n');
        }
        let mut piece = chars_of(lines[i].as_str());
        out.append(&mut piece);
        proof {
            assert(next.drop_last() =~= done);
            assert(next.last() == lines@[i as int]@);
            if i == 0 {
                assert(out@ =~= next[0]);
            }
        }
        i = i + 1;
    }
    proof {
        assert(views(lines@).take(i as int) =~= views(lines@));
    }
    out
}

/// Joins the lines with one line feed between each two of them.
pub fn join_lines(lines: &Vec<String>) -> (out: String)
    ensures
        out@ == joined(views(lines@)),
{
    let out = join_chars(lines);
    string_of(&out)
}

} // verus!
