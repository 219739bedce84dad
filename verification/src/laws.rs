//! What holds of every configuration: theorems about `parse_lines`, the
//! function that `parse_config` computes on the lines of its text.

use crate::chars::{is_whitespace, trim_end, trim_start};
use crate::directive::{classify, Line};
use crate::entry::{host_keyword, HostBlock, PatternEntry};
use crate::error::{ParseError, ParseFailure};
use crate::parser::{lemma_failure_stays, outcome_of, parse_lines, parse_text};
use vstd::prelude::*;

verus! {

/// The pattern that `line` opens a host block with, if it is a `Host` line.
pub open spec fn opened_pattern(line: Seq<char>) -> Option<Seq<char>> {
    match classify(line) {
        Line::Directive { name, value } => if name == host_keyword() {
            Some(value)
        } else {
            None
        },
        _ => None,
    }
}

/// Whether `line` is a `Host` line.
pub open spec fn is_host_line(line: Seq<char>) -> bool {
    opened_pattern(line) is Some
}

/// Whether `line` is a directive `name` that is no `Host` line.
pub open spec fn sets_option(line: Seq<char>, name: Seq<char>) -> bool {
    classify(line) is Directive && classify(line)->name == name && name != host_keyword()
}

/// The patterns of the `Host` lines among `lines`, in their order.
pub open spec fn host_patterns(lines: Seq<Seq<char>>) -> Seq<Seq<char>> {
    lines.filter_map(|line: Seq<char>| opened_pattern(line))
}

/// Whether the line at `i` cannot be taken: it is malformed, or a directive
/// that no `Host` line precedes.
pub open spec fn offends(lines: Seq<Seq<char>>, i: int) -> bool {
    match classify(lines[i]) {
        Line::Ignore => false,
        Line::Malformed { .. } => true,
        Line::Directive { name, .. } => name != host_keyword() && forall|j: int|
            0 <= j < i ==> !is_host_line(#[trigger] lines[j]),
    }
}

/// The failure that stands for a line which cannot be taken.
pub open spec fn failure_of(line: Seq<char>) -> ParseFailure {
    match classify(line) {
        Line::Malformed { text } => ParseFailure::MalformedLine { line: text },
        Line::Directive { name, .. } => ParseFailure::OrphanDirective { name },
        Line::Ignore => arbitrary(),
    }
}

/// One more line: the patterns of the `Host` lines grow by at most one.
proof fn lemma_host_patterns_step(lines: Seq<Seq<char>>)
    requires
        lines.len() > 0,
    ensures
        host_patterns(lines) == match opened_pattern(lines.last()) {
            Some(pattern) => host_patterns(lines.drop_last()).push(pattern),
            None => host_patterns(lines.drop_last()),
        },
{
    let rest = host_patterns(lines.drop_last());
    if let Some(pattern) = opened_pattern(lines.last()) {
        assert(rest + seq![pattern] =~= rest.push(pattern));
    }
}

/// The number of `Host` lines does not shrink as the lines go on.
proof fn lemma_host_patterns_grow(lines: Seq<Seq<char>>, m: int, n: int)
    requires
        0 <= m <= n <= lines.len(),
    ensures
        host_patterns(lines.take(m)).len() <= host_patterns(lines.take(n)).len(),
    decreases n - m,
{
    if m < n {
        lemma_host_patterns_grow(lines, m, n - 1);
        lemma_host_patterns_step(lines.take(n));
        assert(lines.take(n).drop_last() =~= lines.take(n - 1));
    }
}

/// Entries follow the `Host` lines: an accepted configuration has as many
/// host blocks as it has `Host` lines, and the block at each place has the
/// one pattern of the `Host` line at that place.
pub proof fn law_blocks_follow_host_lines(lines: Seq<Seq<char>>)
    requires
        parse_lines(lines) is Ok,
    ensures
        parse_lines(lines)->Ok_0.len() == host_patterns(lines).len(),
        forall|k: int|
            0 <= k < host_patterns(lines).len() ==> (#[trigger] parse_lines(lines)->Ok_0[k]).patterns
                == seq![host_patterns(lines)[k]],
    decreases lines.len(),
{
    if lines.len() > 0 {
        lemma_host_patterns_step(lines);
        law_blocks_follow_host_lines(lines.drop_last());
    }
}

/// The last value wins: where a directive that is no `Host` line stands at
/// `at`, and no line between it and `end`, the next `Host` line or the end of
/// the lines, has the same name, the host block that the directive stands in
/// has its value under its name.
pub proof fn law_last_value_wins(lines: Seq<Seq<char>>, at: int, end: int)
    requires
        parse_lines(lines) is Ok,
        0 <= at < end <= lines.len(),
        classify(lines[at]) is Directive,
        classify(lines[at])->name != host_keyword(),
        forall|m: int|
            at < m < end ==> !is_host_line(#[trigger] lines[m]) && !sets_option(
                lines[m],
                classify(lines[at])->name,
            ),
        end < lines.len() ==> is_host_line(lines[end]),
    ensures
        ({
            let blocks = parse_lines(lines)->Ok_0;
            let k = host_patterns(lines.take(at)).len() - 1;
            &&& 0 <= k < blocks.len()
            &&& blocks[k].options.contains_key(classify(lines[at])->name)
            &&& blocks[k].options[classify(lines[at])->name] == classify(lines[at])->value
        }),
    decreases lines.len(),
{
    let rest = lines.drop_last();
    let last = lines.len() - 1;
    assert(parse_lines(rest) is Ok);
    law_blocks_follow_host_lines(rest);
    law_blocks_follow_host_lines(lines);
    if at == last {
        assert(lines.take(at) =~= rest);
    } else {
        assert(rest.take(at) =~= lines.take(at));
        assert(rest[at] == lines[at]);
        if end == lines.len() {
            law_last_value_wins(rest, at, last);
        } else {
            if end < last {
                assert(rest[end] == lines[end]);
                assert(rest.take(end + 1) =~= lines.take(end + 1));
                assert(lines.take(end + 1).drop_last() =~= lines.take(end));
                assert(rest.take(rest.len() as int) =~= rest);
                lemma_host_patterns_step(lines.take(end + 1));
                lemma_host_patterns_grow(lines, at, end);
                lemma_host_patterns_grow(rest, end + 1, rest.len() as int);
            }
            law_last_value_wins(rest, at, end);
        }
    }
}

/// What no line sets is not there: where a `Host` line stands at `host`, and
/// no line between it and `end`, the next `Host` line or the end of the
/// lines, is a directive `name`, the host block of that `Host` line has no
/// option `name`.
pub proof fn law_unset_option_is_absent(
    lines: Seq<Seq<char>>,
    host: int,
    end: int,
    name: Seq<char>,
)
    requires
        parse_lines(lines) is Ok,
        0 <= host < end <= lines.len(),
        is_host_line(lines[host]),
        forall|m: int|
            host < m < end ==> !is_host_line(#[trigger] lines[m]) && !sets_option(lines[m], name),
        end < lines.len() ==> is_host_line(lines[end]),
    ensures
        ({
            let blocks = parse_lines(lines)->Ok_0;
            let k = host_patterns(lines.take(host)).len() as int;
            &&& 0 <= k < blocks.len()
            &&& !blocks[k].options.contains_key(name)
        }),
    decreases lines.len(),
{
    let rest = lines.drop_last();
    let last = lines.len() - 1;
    assert(parse_lines(rest) is Ok);
    law_blocks_follow_host_lines(rest);
    law_blocks_follow_host_lines(lines);
    lemma_host_patterns_step(lines);
    if host == last {
        assert(lines.take(host) =~= rest);
    } else {
        assert(rest.take(host) =~= lines.take(host));
        assert(rest[host] == lines[host]);
        if end == lines.len() {
            law_unset_option_is_absent(rest, host, last, name);
            lemma_host_patterns_step(lines.take(host + 1));
            assert(lines.take(host + 1).drop_last() =~= lines.take(host));
            lemma_no_host_line_no_pattern(lines, host + 1, lines.len() as int);
            assert(lines.take(lines.len() as int) =~= lines);
        } else {
            if end < last {
                assert(rest[end] == lines[end]);
                assert(rest.take(end + 1) =~= lines.take(end + 1));
                assert(lines.take(end + 1).drop_last() =~= lines.take(end));
                assert(lines.take(host + 1).drop_last() =~= lines.take(host));
                assert(rest.take(rest.len() as int) =~= rest);
                lemma_host_patterns_step(lines.take(end + 1));
                lemma_host_patterns_step(lines.take(host + 1));
                lemma_host_patterns_grow(lines, host + 1, end);
                lemma_host_patterns_grow(rest, end + 1, rest.len() as int);
            }
            law_unset_option_is_absent(rest, host, end, name);
        }
    }
}

/// Lines among which there is no `Host` line add no pattern.
proof fn lemma_no_host_line_no_pattern(lines: Seq<Seq<char>>, m: int, n: int)
    requires
        0 <= m <= n <= lines.len(),
        forall|i: int| m <= i < n ==> !is_host_line(#[trigger] lines[i]),
    ensures
        host_patterns(lines.take(n)) == host_patterns(lines.take(m)),
    decreases n - m,
{
    if m < n {
        lemma_no_host_line_no_pattern(lines, m, n - 1);
        lemma_host_patterns_step(lines.take(n));
        assert(lines.take(n).drop_last() =~= lines.take(n - 1));
    }
}

/// Where a `Host` line stands before `n`, the lines before `n` have a pattern.
proof fn lemma_host_line_has_pattern(lines: Seq<Seq<char>>, j: int, n: int)
    requires
        0 <= j < n <= lines.len(),
        is_host_line(lines[j]),
    ensures
        host_patterns(lines.take(n)).len() > 0,
{
    lemma_host_patterns_step(lines.take(j + 1));
    lemma_host_patterns_grow(lines, j + 1, n);
}

/// A configuration is accepted when each of its lines can be taken.
pub proof fn law_accepted_without_offence(lines: Seq<Seq<char>>)
    requires
        forall|i: int| 0 <= i < lines.len() ==> !offends(lines, i),
    ensures
        parse_lines(lines) is Ok,
    decreases lines.len(),
{
    if lines.len() > 0 {
        let rest = lines.drop_last();
        let last = lines.len() - 1;
        assert forall|i: int| 0 <= i < rest.len() implies !offends(rest, i) by {
            assert(!offends(lines, i));
            assert(rest[i] == lines[i]);
            assert(forall|j: int| 0 <= j < i ==> rest[j] == lines[j]);
        }
        law_accepted_without_offence(rest);
        law_blocks_follow_host_lines(rest);
        assert(!offends(lines, last));
        if classify(lines[last]) is Directive && classify(lines[last])->name != host_keyword() {
            let j = choose|j: int| 0 <= j < last && is_host_line(#[trigger] lines[j]);
            lemma_host_line_has_pattern(lines, j, last);
            assert(lines.take(last) =~= rest);
        }
    }
}

/// The first line that cannot be taken decides: the configuration is
/// rejected with the failure of that line.
pub proof fn law_first_offence_decides(lines: Seq<Seq<char>>, i: int)
    requires
        0 <= i < lines.len(),
        offends(lines, i),
        forall|j: int| 0 <= j < i ==> !offends(lines, j),
    ensures
        parse_lines(lines) == Err::<Seq<HostBlock>, ParseFailure>(failure_of(lines[i])),
{
    let before = lines.take(i);
    let upto = lines.take(i + 1);
    assert forall|j: int| 0 <= j < before.len() implies !offends(before, j) by {
        assert(!offends(lines, j));
        assert(before[j] == lines[j]);
        assert(forall|m: int| 0 <= m < j ==> before[m] == lines[m]);
    }
    law_accepted_without_offence(before);
    law_blocks_follow_host_lines(before);
    assert(upto.drop_last() =~= before);
    assert(upto.last() == lines[i]);
    if classify(lines[i]) is Directive {
        lemma_no_host_line_no_pattern(lines, 0, i);
        assert(lines.take(0) =~= Seq::<Seq<char>>::empty());
    }
    assert(parse_lines(upto) == Err::<Seq<HostBlock>, ParseFailure>(failure_of(lines[i])));
    lemma_failure_stays(lines, i + 1);
}

/// A malformed line rejects the configuration, wherever it stands.
pub proof fn law_malformed_line_rejects(lines: Seq<Seq<char>>, i: int)
    requires
        0 <= i < lines.len(),
        classify(lines[i]) is Malformed,
    ensures
        parse_lines(lines) is Err,
{
    let upto = lines.take(i + 1);
    assert(upto.last() == lines[i]);
    assert(parse_lines(upto) is Err);
    lemma_failure_stays(lines, i + 1);
}

/// Without a `Host` line there is no host block: a configuration in which
/// no `Host` line stands, and no malformed line before the first directive,
/// has no host blocks if none of its lines is a directive, and is rejected
/// for the first of its directives otherwise.
pub proof fn law_without_host_lines(lines: Seq<Seq<char>>)
    requires
        forall|i: int| 0 <= i < lines.len() ==> !is_host_line(#[trigger] lines[i]),
        forall|i: int|
            0 <= i < lines.len() && classify(#[trigger] lines[i]) is Malformed ==> exists|j: int|
                0 <= j < i && classify(#[trigger] lines[j]) is Directive,
    ensures
        (forall|i: int| 0 <= i < lines.len() ==> !(classify(#[trigger] lines[i]) is Directive))
            ==> parse_lines(lines) == Ok::<Seq<HostBlock>, ParseFailure>(Seq::empty()),
        forall|i: int|
            0 <= i < lines.len() && classify(#[trigger] lines[i]) is Directive && (forall|j: int|
                0 <= j < i ==> !(classify(#[trigger] lines[j]) is Directive)) ==> parse_lines(lines)
                == Err::<Seq<HostBlock>, ParseFailure>(
                ParseFailure::OrphanDirective { name: classify(lines[i])->name },
            ),
{
    if forall|i: int| 0 <= i < lines.len() ==> !(classify(#[trigger] lines[i]) is Directive) {
        assert forall|i: int| 0 <= i < lines.len() implies !offends(lines, i) by {
            assert(!(classify(lines[i]) is Directive));
            assert(!(classify(lines[i]) is Malformed));
        }
        law_accepted_without_offence(lines);
        law_blocks_follow_host_lines(lines);
        lemma_no_host_line_no_pattern(lines, 0, lines.len() as int);
        assert(lines.take(0) =~= Seq::<Seq<char>>::empty());
        assert(lines.take(lines.len() as int) =~= lines);
        assert(parse_lines(lines)->Ok_0 =~= Seq::<HostBlock>::empty());
    }
    assert forall|i: int|
        0 <= i < lines.len() && classify(#[trigger] lines[i]) is Directive && (forall|j: int|
            0 <= j < i ==> !(classify(#[trigger] lines[j]) is Directive)) implies parse_lines(lines)
        == Err::<Seq<HostBlock>, ParseFailure>(
        ParseFailure::OrphanDirective { name: classify(lines[i])->name },
    ) by {
        assert(!is_host_line(lines[i]));
        assert forall|j: int| 0 <= j < i implies !offends(lines, j) by {
            assert(!(classify(lines[j]) is Directive));
            if classify(lines[j]) is Malformed {
                let m = choose|m: int| 0 <= m < j && classify(#[trigger] lines[m]) is Directive;
                assert(!(classify(lines[m]) is Directive));
            }
        }
        law_first_offence_decides(lines, i);
    }
}

/// A line that says nothing contributes nothing: the configuration without
/// it has the same host blocks, or is rejected for the same reason.
pub proof fn law_ignored_line_changes_nothing(lines: Seq<Seq<char>>, i: int)
    requires
        0 <= i < lines.len(),
        classify(lines[i]) is Ignore,
    ensures
        parse_lines(lines.remove(i)) == parse_lines(lines),
    decreases lines.len(),
{
    let rest = lines.drop_last();
    if i == lines.len() - 1 {
        assert(lines.remove(i) =~= rest);
    } else {
        assert(rest[i] == lines[i]);
        law_ignored_line_changes_nothing(rest, i);
        assert(lines.remove(i).drop_last() =~= rest.remove(i));
        assert(lines.remove(i).last() == lines.last());
    }
}

/// Parsing is repeatable: two results of parsing one text stand for the
/// same host blocks, or for the same failure.
pub proof fn law_parsing_is_repeatable(
    text: Seq<char>,
    first: Result<Vec<PatternEntry>, ParseError>,
    second: Result<Vec<PatternEntry>, ParseError>,
)
    requires
        outcome_of(first) == parse_text(text),
        outcome_of(second) == parse_text(text),
    ensures
        outcome_of(first) == outcome_of(second),
{
}

/// Trimming the start leaves nothing of white space alone.
proof fn lemma_trim_start_of_whitespace(s: Seq<char>)
    requires
        forall|i: int| 0 <= i < s.len() ==> is_whitespace(#[trigger] s[i]),
    ensures
        trim_start(s).len() == 0,
    decreases s.len(),
{
    if s.len() > 0 {
        let rest = s.drop_first();
        assert forall|i: int| 0 <= i < rest.len() implies is_whitespace(#[trigger] rest[i]) by {
            assert(rest[i] == s[i + 1]);
        }
        lemma_trim_start_of_whitespace(rest);
    }
}

/// Trimming the end keeps a first character that is no white space.
proof fn lemma_trim_end_keeps_first(s: Seq<char>)
    requires
        s.len() > 0,
        !is_whitespace(s.first()),
    ensures
        trim_end(s).len() > 0,
        trim_end(s).first() == s.first(),
    decreases s.len(),
{
    if is_whitespace(s.last()) {
        lemma_trim_end_keeps_first(s.drop_last());
    }
}

/// A blank line says nothing.
pub proof fn law_blank_line_is_ignored(line: Seq<char>)
    requires
        forall|i: int| 0 <= i < line.len() ==> is_whitespace(#[trigger] line[i]),
    ensures
        classify(line) == Line::Ignore,
{
    lemma_trim_start_of_whitespace(line);
}

/// A comment says nothing: a line whose first character that is no white
/// space is `#`.
pub proof fn law_comment_line_is_ignored(line: Seq<char>)
    requires
        trim_start(line).len() > 0,
        trim_start(line).first() == '#',
    ensures
        classify(line) == Line::Ignore,
{
    lemma_trim_end_keeps_first(trim_start(line));
}

} // verus!
