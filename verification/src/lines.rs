//! Splitting a text into its lines.

use crate::chars::{collect_chars, find_char};
use vstd::prelude::*;
use vstd::string::StrSliceExecFns;

verus! {

/// `s` without a carriage return at its end.
pub open spec fn strip_cr(s: Seq<char>) -> Seq<char> {
    if s.len() > 0 && s.last() == '\r' {
        s.drop_last()
    } else {
        s
    }
}

/// The lines of `text`. A line ends at a line feed, or at a carriage return
/// directly followed by a line feed; neither belongs to the line. What
/// follows the last line feed is a line of its own unless it is empty.
pub open spec fn lines_of(text: Seq<char>) -> Seq<Seq<char>>
    decreases text.len(),
    via lines_of_decreases
{
    if text.len() == 0 {
        Seq::empty()
    } else {
        match text.index_of_first('\n') {
            None => seq![text],
            Some(i) => seq![strip_cr(text.take(i))] + lines_of(text.skip(i + 1)),
        }
    }
}

#[via_fn]
proof fn lines_of_decreases(text: Seq<char>) {
    text.index_of_first_ensures('\n');
}

/// The views of the string slices in `lines`.
pub open spec fn line_views(lines: Seq<&str>) -> Seq<Seq<char>> {
    Seq::new(lines.len(), |i: int| lines[i]@)
}

/// The lines of `text`, each as a slice of it.
pub fn split_lines(text: &str) -> (lines: Vec<&str>)
    ensures
        line_views(lines@) == lines_of(text@),
{
    let chars = collect_chars(text);
    let n = chars.len();
    let mut lines: Vec<&str> = Vec::new();
    let mut start: usize = 0;
    proof {
        assert(text@.skip(0) =~= text@);
        assert(line_views(lines@) + lines_of(text@) =~= lines_of(text@));
    }
    while start < n
        invariant
            start <= n,
            n == chars.len(),
            chars@ == text@,
            lines_of(text@) == line_views(lines@) + lines_of(text@.skip(start as int)),
        decreases n - start,
    {
        let ghost rest = text@.skip(start as int);
        let ghost done = line_views(lines@);
        assert(rest =~= chars@.subrange(start as int, n as int));
        match find_char(&chars, start, n, '\n') {
            None => {
                let line = text.substring_char(start, n);
                lines.push(line);
                proof {
                    assert(line@ =~= rest);
                    assert(text@.skip(n as int) =~= Seq::<char>::empty());
                    assert(lines_of(rest) == seq![rest]);
                    assert(lines_of(text@.skip(n as int)) =~= Seq::<Seq<char>>::empty());
                    assert(line_views(lines@) =~= done + seq![rest]);
                }
                start = n;
            },
            Some(feed) => {
                let end = if feed > start && chars[feed - 1] == '\r' {
                    feed - 1
                } else {
                    feed
                };
                let line = text.substring_char(start, end);
                lines.push(line);
                proof {
                    let i = feed - start;
                    assert(rest.index_of_first('\n') == Some(i));
                    assert(rest.take(i) =~= text@.subrange(start as int, feed as int));
                    assert(line@ =~= strip_cr(rest.take(i)));
                    assert(rest.skip(i + 1) =~= text@.skip(feed + 1));
                    assert(line_views(lines@) =~= done + seq![line@]);
                    assert(lines_of(rest) == seq![line@] + lines_of(text@.skip(feed + 1)));
                    assert(done + (seq![line@] + lines_of(text@.skip(feed + 1))) =~= (done
                        + seq![line@]) + lines_of(text@.skip(feed + 1)));
                }
                start = feed + 1;
            },
        }
    }
    proof {
        assert(text@.skip(start as int) =~= Seq::<char>::empty());
        assert(line_views(lines@) + Seq::<Seq<char>>::empty() =~= line_views(lines@));
    }
    lines
}

} // verus!
