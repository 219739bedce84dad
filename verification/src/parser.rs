//! The block accumulator: from the lines of a configuration text to its host
//! blocks.

use crate::directive::{classify, parse_config_line, Line};
use crate::entry::{host_keyword, HostBlock, PatternEntry};
use crate::error::{ParseError, ParseFailure};
use crate::lines::{line_views, lines_of, split_lines};
use vstd::prelude::*;
use vstd::string::StringExecFns;

verus! {

/// The host blocks that `blocks` become when `line` follows them, or the
/// reason why `line` cannot follow them. A `Host` line opens a new block
/// behind the others, any other directive goes to the last block, and a line
/// that says nothing changes nothing.
pub open spec fn after_line(blocks: Seq<HostBlock>, line: Line) -> Result<
    Seq<HostBlock>,
    ParseFailure,
> {
    match line {
        Line::Ignore => Ok(blocks),
        Line::Malformed { text } => Err(ParseFailure::MalformedLine { line: text }),
        Line::Directive { name, value } => {
            if name == host_keyword() {
                Ok(blocks.push(HostBlock::opened(value)))
            } else if blocks.len() == 0 {
                Err(ParseFailure::OrphanDirective { name })
            } else {
                Ok(blocks.update(blocks.len() - 1, blocks.last().with_option(name, value)))
            }
        },
    }
}

/// The host blocks of a configuration with these lines, in the order of
/// their `Host` lines, or the failure of the first line that cannot be taken.
pub open spec fn parse_lines(lines: Seq<Seq<char>>) -> Result<Seq<HostBlock>, ParseFailure>
    decreases lines.len(),
{
    if lines.len() == 0 {
        Ok(Seq::empty())
    } else {
        match parse_lines(lines.drop_last()) {
            Ok(blocks) => after_line(blocks, classify(lines.last())),
            Err(failure) => Err(failure),
        }
    }
}

/// The host blocks of the configuration `text`, or why it is rejected.
pub open spec fn parse_text(text: Seq<char>) -> Result<Seq<HostBlock>, ParseFailure> {
    parse_lines(lines_of(text))
}

/// The host blocks that `entries` stand for.
pub open spec fn blocks_of(entries: Seq<PatternEntry>) -> Seq<HostBlock> {
    Seq::new(entries.len(), |i: int| entries[i]@)
}

/// What a result of parsing stands for.
pub open spec fn outcome_of(parsed: Result<Vec<PatternEntry>, ParseError>) -> Result<
    Seq<HostBlock>,
    ParseFailure,
> {
    match parsed {
        Ok(entries) => Ok(blocks_of(entries@)),
        Err(e) => Err(e@),
    }
}

/// The closed entries followed by the open one, as host blocks.
spec fn gathered(closed: Seq<PatternEntry>, open: Option<PatternEntry>) -> Seq<HostBlock> {
    match open {
        Some(entry) => blocks_of(closed).push(entry@),
        None => blocks_of(closed),
    }
}

/// Whether `name` is the name of the directive that opens a host block.
fn is_host_keyword(name: &str) -> (host: bool)
    ensures
        host == (name@ == host_keyword()),
{
    String::from_str(name) == String::from_str("Host")
}

/// Parses the text of a configuration into its host entries, in the order of
/// their `Host` lines. The text is rejected, and no entry returned, when a
/// line can not be read or a directive stands before the first `Host` line.
pub fn parse_config(config: &str) -> (parsed: Result<Vec<PatternEntry>, ParseError>)
    ensures
        outcome_of(parsed) == parse_text(config@),
{
    let lines = split_lines(config);
    let ghost all = lines_of(config@);
    let mut current_host: Option<PatternEntry> = None;
    let mut result: Vec<PatternEntry> = Vec::new();
    assert(blocks_of(result@) =~= Seq::empty());
    assert(all.take(0) =~= Seq::empty());
    for i in 0..lines.len()
        invariant
            all == lines_of(config@),
            line_views(lines@) == all,
            current_host is None ==> result@.len() == 0,
            parse_lines(all.take(i as int)) == Ok::<Seq<HostBlock>, ParseFailure>(
                gathered(result@, current_host),
            ),
    {
        let ghost before = gathered(result@, current_host);
        proof {
            assert(all.take(i + 1).drop_last() =~= all.take(i as int));
            assert(all.take(i + 1).last() == lines@[i as int]@);
            if i + 1 == lines.len() {
                assert(all.take(i + 1) =~= all);
            }
        }
        match parse_config_line(lines[i]) {
            Err(e) => {
                proof {
                    lemma_failure_stays(all, i + 1);
                }
                return Err(e);
            },
            Ok(None) => {},
            Ok(Some((name, value))) => {
                if is_host_keyword(name) {
                    match current_host {
                        Some(entry) => {
                            result.push(entry);
                            assert(blocks_of(result@) =~= before);
                        },
                        None => {},
                    }
                    current_host = Some(PatternEntry::new(String::from_str(value)));
                } else {
                    match current_host {
                        Some(entry) => {
                            let entry = entry.with_option(
                                String::from_str(name),
                                String::from_str(value),
                            );
                            current_host = Some(entry);
                            assert(gathered(result@, current_host) =~= before.update(
                                before.len() - 1,
                                before.last().with_option(name@, value@),
                            ));
                        },
                        None => {
                            proof {
                                lemma_failure_stays(all, i + 1);
                            }
                            return Err(ParseError::OrphanDirective { name: String::from_str(name) });
                        },
                    }
                }
            },
        }
    }
    assert(all.take(lines.len() as int) =~= all);
    match current_host {
        Some(entry) => {
            let ghost before = blocks_of(result@);
            result.push(entry);
            assert(blocks_of(result@) =~= before.push(entry@));
        },
        None => {},
    }
    Ok(result)
}

/// Once a prefix of the lines is rejected, the whole is rejected for the
/// same reason.
pub proof fn lemma_failure_stays(lines: Seq<Seq<char>>, n: int)
    requires
        0 <= n <= lines.len(),
        parse_lines(lines.take(n)) is Err,
    ensures
        parse_lines(lines) == parse_lines(lines.take(n)),
    decreases lines.len() - n,
{
    if n == lines.len() {
        assert(lines.take(n) =~= lines);
    } else {
        assert(lines.drop_last().take(n) =~= lines.take(n));
        lemma_failure_stays(lines.drop_last(), n);
    }
}

} // verus!
