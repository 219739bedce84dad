//! One host block of a configuration: its patterns and its options.

use vstd::hash_map::StringHashMap;
use vstd::prelude::*;

verus! {

/// The name of the directive that opens a host block.
pub open spec fn host_keyword() -> Seq<char> {
    "Host"@
}

/// The name of the directive that makes a host block a tunnel.
pub open spec fn tunnel_keyword() -> Seq<char> {
    "LocalForward"@
}

/// A host block as a mathematical value: the patterns of its `Host` line and,
/// for each directive name that occurs in it, the value that the name has.
pub struct HostBlock {
    pub patterns: Seq<Seq<char>>,
    pub options: Map<Seq<char>, Seq<char>>,
}

impl HostBlock {
    /// The block that a `Host` line with `pattern` opens.
    pub open spec fn opened(pattern: Seq<char>) -> HostBlock {
        HostBlock { patterns: seq![pattern], options: Map::empty() }
    }

    /// This block after a directive `name` with `value`: an earlier value of
    /// the same name is gone.
    pub open spec fn with_option(self, name: Seq<char>, value: Seq<char>) -> HostBlock {
        HostBlock { patterns: self.patterns, options: self.options.insert(name, value) }
    }

    /// Whether this block forwards a local port.
    pub open spec fn is_tunnel(self) -> bool {
        self.options.contains_key(tunnel_keyword())
    }
}

/// One host block of a configuration.
pub struct PatternEntry {
    patterns: Vec<String>,
    options: StringHashMap<String>,
}

impl View for PatternEntry {
    type V = HostBlock;

    closed spec fn view(&self) -> HostBlock {
        HostBlock {
            patterns: Seq::new(self.patterns@.len(), |i: int| self.patterns@[i]@),
            options: Map::new(
                |name: Seq<char>| self.options@.contains_key(name),
                |name: Seq<char>| self.options@[name]@,
            ),
        }
    }
}

impl PatternEntry {
    #[verifier::type_invariant]
    spec fn has_pattern(self) -> bool {
        self.patterns@.len() > 0
    }

    /// The entry that a `Host` line with `pattern` opens.
    pub fn new(pattern: String) -> (entry: PatternEntry)
        ensures
            entry@ == HostBlock::opened(pattern@),
    {
        let mut patterns: Vec<String> = Vec::new();
        patterns.push(pattern);
        let entry = PatternEntry { patterns, options: StringHashMap::new() };
        assert(entry@.patterns =~= seq![pattern@]);
        assert(entry@.options =~= Map::empty());
        entry
    }

    /// This entry with the directive `name` set to `value`, in place of an
    /// earlier value of the same name.
    pub fn with_option(self, name: String, value: String) -> (entry: PatternEntry)
        ensures
            entry@ == self@.with_option(name@, value@),
    {
        proof {
            use_type_invariant(&self);
        }
        let PatternEntry { patterns, mut options } = self;
        options.insert(name, value);
        let entry = PatternEntry { patterns, options };
        assert(entry@.options =~= self@.options.insert(name@, value@));
        assert(entry@.patterns =~= self@.patterns);
        entry
    }

    /// Whether this entry forwards a local port: whether it has an option
    /// `LocalForward`, whatever its value.
    pub fn is_tunnel(self: &PatternEntry) -> (tunnel: bool)
        ensures
            tunnel == self@.is_tunnel(),
    {
        self.options.contains_key("LocalForward")
    }

    /// The patterns of the `Host` line: there is at least one.
    pub fn patterns(&self) -> (patterns: &Vec<String>)
        ensures
            patterns@.len() == self@.patterns.len(),
            patterns@.len() > 0,
            forall|i: int| 0 <= i < patterns@.len() ==> (#[trigger] patterns@[i])@ == self@.patterns[i],
    {
        proof {
            use_type_invariant(self);
        }
        &self.patterns
    }

    /// The first pattern of the `Host` line.
    pub fn first_pattern(&self) -> (pattern: &String)
        ensures
            self@.patterns.len() > 0,
            pattern@ == self@.patterns[0],
    {
        proof {
            use_type_invariant(self);
        }
        &self.patterns[0]
    }

    /// The value of the option `name`, if the entry has one.
    pub fn option(&self, name: &str) -> (value: Option<&String>)
        ensures
            match value {
                Some(v) => self@.options.contains_key(name@) && v@ == self@.options[name@],
                None => !self@.options.contains_key(name@),
            },
    {
        self.options.get(name)
    }
}

} // verus!
