//! The line classifier: what one line of a configuration text says.

use crate::chars::{
    collect_chars, find_char, skip_whitespace, skip_whitespace_back, trim, trim_start,
};
use crate::error::{ParseError, ParseFailure};
use vstd::prelude::*;
use vstd::string::StrSliceExecFns;

verus! {

/// What one line of a configuration text says.
pub enum Line {
    /// Nothing: the line is blank or a comment.
    Ignore,
    /// A directive with its value.
    Directive { name: Seq<char>, value: Seq<char> },
    /// Nothing that can be read: `text` is the line without the white space
    /// around it.
    Malformed { text: Seq<char> },
}

/// What `line` says. With the white space around it taken off, an empty line
/// and one that begins with `#` say nothing. Any other line is a directive if
/// it holds a space: the name is what stands before the first space, the
/// value what follows it, without the white space at its start.
pub open spec fn classify(line: Seq<char>) -> Line {
    let text = trim(line);
    if text.len() == 0 || text.first() == '#' {
        Line::Ignore
    } else {
        match text.index_of_first(' ') {
            None => Line::Malformed { text },
            Some(i) => Line::Directive { name: text.take(i), value: trim_start(text.skip(i)) },
        }
    }
}

/// Reads one line: `Ok(None)` for a blank line or a comment, the name and the
/// value of a directive, or the error for a line that holds neither.
pub fn parse_config_line(line: &str) -> (parsed: Result<Option<(&str, &str)>, ParseError>)
    ensures
        match parsed {
            Ok(None) => classify(line@) == Line::Ignore,
            Ok(Some((name, value))) => classify(line@) == (Line::Directive {
                name: name@,
                value: value@,
            }),
            Err(e) => classify(line@) == (Line::Malformed { text: trim(line@) }) && e@ == (
            ParseFailure::MalformedLine { line: trim(line@) }),
        },
{
    let chars = collect_chars(line);
    let n = chars.len();
    let start = skip_whitespace(&chars, 0, n);
    let end = skip_whitespace_back(&chars, start, n);
    let ghost text = line@.subrange(start as int, end as int);
    proof {
        assert(chars@.subrange(0, n as int) =~= line@);
        assert(trim(line@) == text);
    }
    if start == end {
        return Ok(None);
    }
    if chars[start] == '#' {
        return Ok(None);
    }
    match find_char(&chars, start, end, ' ') {
        None => {
            let trimmed = line.substring_char(start, end);
            Err(ParseError::MalformedLine { line: trimmed.to_owned() })
        },
        Some(space) => {
            let value_start = skip_whitespace(&chars, space, end);
            let name = line.substring_char(start, space);
            let value = line.substring_char(value_start, end);
            proof {
                let i = space - start;
                assert(text.take(i) =~= name@);
                assert(text.skip(i) =~= chars@.subrange(space as int, end as int));
            }
            Ok(Some((name, value)))
        },
    }
}

} // verus!
