//! The listing of the tunnels among the host entries of a configuration.

use crate::entry::{HostBlock, PatternEntry};
use crate::parser::blocks_of;
use vstd::prelude::*;
use vstd::string::StringExecFns;

verus! {

/// The line that lists a tunnel: an empty check box, then the first pattern
/// of the host block.
pub open spec fn checkbox_line(block: HostBlock) -> Seq<char> {
    "[ ] "@ + block.patterns[0]
}

/// The lines that list the tunnels among `blocks`, in the order of the blocks.
pub open spec fn tunnel_lines(blocks: Seq<HostBlock>) -> Seq<Seq<char>> {
    blocks.filter(|block: HostBlock| block.is_tunnel()).map_values(
        |block: HostBlock| checkbox_line(block),
    )
}

/// The views of the strings in `lines`.
pub open spec fn string_views(lines: Seq<String>) -> Seq<Seq<char>> {
    Seq::new(lines.len(), |i: int| lines[i]@)
}

/// One line for each tunnel among `entries`, in their order: an empty check
/// box and the first pattern of the entry.
pub fn list_tunnels(entries: &Vec<PatternEntry>) -> (listing: Vec<String>)
    ensures
        string_views(listing@) == tunnel_lines(blocks_of(entries@)),
{
    let mut listing: Vec<String> = Vec::new();
    let ghost blocks = blocks_of(entries@);
    proof {
        reveal(Seq::filter);
        assert(blocks.take(0) =~= Seq::<HostBlock>::empty());
        assert(string_views(listing@) =~= tunnel_lines(blocks.take(0)));
    }
    for i in 0..entries.len()
        invariant
            blocks == blocks_of(entries@),
            string_views(listing@) == tunnel_lines(blocks.take(i as int)),
    {
        let entry = &entries[i];
        let ghost done = string_views(listing@);
        proof {
            reveal(Seq::filter);
            assert(blocks.take(i + 1).drop_last() =~= blocks.take(i as int));
            assert(blocks.take(i + 1).last() == entry@);
        }
        if entry.is_tunnel() {
            let line = String::from_str("[ ] ").concat(entry.first_pattern().as_str());
            listing.push(line);
            assert(string_views(listing@) =~= done.push(checkbox_line(entry@)));
            assert(tunnel_lines(blocks.take(i + 1)) =~= done.push(checkbox_line(entry@)));
        }
    }
    assert(blocks.take(entries.len() as int) =~= blocks);
    listing
}

} // verus!
