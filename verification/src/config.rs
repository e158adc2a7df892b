//! The parsed representation of a configuration file: a root directory and a
//! mapping from subcommand names to their entries.

use vstd::prelude::*;

verus! {

/// One alias entry: a shell-syntax command template and a free-text
/// description shown in the help listing.
#[derive(Debug, Clone, PartialEq, Eq)]
pub struct SubcommandConfig {
    pub cmd: String,
    pub help: String,
}

/// Strict lexicographic order on character sequences, by code point. This is
/// the order in which string keys come back out of the parser.
pub open spec fn char_seq_lt(a: Seq<char>, b: Seq<char>) -> bool
    decreases a.len(),
{
    if b.len() == 0 {
        false
    } else if a.len() == 0 {
        true
    } else if a[0] != b[0] {
        (a[0] as u32) < (b[0] as u32)
    } else {
        char_seq_lt(a.skip(1), b.skip(1))
    }
}

/// The first entry of `entries` whose name is `name`, as its `(cmd, help)`
/// pair. With pairwise distinct names this is the only such entry.
pub open spec fn lookup_spec(
    entries: Seq<(Seq<char>, Seq<char>, Seq<char>)>,
    name: Seq<char>,
) -> Option<(Seq<char>, Seq<char>)>
    decreases entries.len(),
{
    if entries.len() == 0 {
        None
    } else if entries[0].0 == name {
        Some((entries[0].1, entries[0].2))
    } else {
        lookup_spec(entries.skip(1), name)
    }
}

/// The mathematical value of an entry list: per entry its name, command
/// template and help text.
pub open spec fn entries_view(s: Seq<(String, SubcommandConfig)>) -> Seq<
    (Seq<char>, Seq<char>, Seq<char>),
> {
    s.map_values(|p: (String, SubcommandConfig)| (p.0@, p.1.cmd@, p.1.help@))
}

/// The mapping from subcommand names to entries. Entries are kept sorted by
/// name, so listings are deterministic and names are unique.
#[derive(Debug, Clone, PartialEq, Eq)]
pub struct CommandMap {
    pub entries: Vec<(String, SubcommandConfig)>,
}

impl View for CommandMap {
    type V = Seq<(Seq<char>, Seq<char>, Seq<char>)>;

    open spec fn view(&self) -> Seq<(Seq<char>, Seq<char>, Seq<char>)> {
        entries_view(self.entries@)
    }
}

impl CommandMap {
    /// Names strictly ascend, so each name appears at most once.
    pub open spec fn wf(self) -> bool {
        forall|i: int, j: int|
            0 <= i < j < self@.len() ==> char_seq_lt(#[trigger] self@[i].0, #[trigger] self@[j].0)
    }

    /// The entry under `name`, if the configuration defines one.
    pub fn get(&self, name: &str) -> (r: Option<&SubcommandConfig>)
        ensures
            match r {
                Some(e) => lookup_spec(self@, name@) == Some((e.cmd@, e.help@)),
                None => lookup_spec(self@, name@) is None,
            },
    {
        let key = String::from_str(name);
        let n = self.entries.len();
        for i in 0..n
            invariant
                n == self.entries.len(),
                key@ == name@,
                forall|k: int| 0 <= k < i ==> #[trigger] self@[k].0 != name@,
        {
            if self.entries[i].0 == key {
                proof {
                    lemma_lookup_prefix_misses(self@, name@, i as int);
                }
                return Some(&self.entries[i].1);
            }
        }
        proof {
            lemma_lookup_prefix_misses(self@, name@, n as int);
        }
        None
    }

    /// The `(name, help)` pairs of every entry, in the stored (sorted) order:
    /// what the help listing shows.
    pub fn help_entries(&self) -> (r: Vec<(String, String)>)
        ensures
            r@.len() == self@.len(),
            forall|i: int|
                0 <= i < r@.len() ==> (#[trigger] r@[i]).0@ == self@[i].0 && r@[i].1@
                    == self@[i].2,
    {
        let mut out: Vec<(String, String)> = Vec::new();
        let n = self.entries.len();
        for i in 0..n
            invariant
                n == self.entries.len(),
                out@.len() == i,
                forall|k: int|
                    0 <= k < i ==> (#[trigger] out@[k]).0@ == self@[k].0 && out@[k].1@
                        == self@[k].2,
        {
            out.push((self.entries[i].0.clone(), self.entries[i].1.help.clone()));
        }
        out
    }
}

/// If no entry among the first `i` carries `name`, the lookup result is
/// decided by the remaining entries alone.
proof fn lemma_lookup_prefix_misses(
    entries: Seq<(Seq<char>, Seq<char>, Seq<char>)>,
    name: Seq<char>,
    i: int,
)
    requires
        0 <= i <= entries.len(),
        forall|k: int| 0 <= k < i ==> #[trigger] entries[k].0 != name,
    ensures
        lookup_spec(entries, name) == lookup_spec(entries.skip(i), name),
    decreases i,
{
    if i > 0 {
        assert(entries.skip(1).skip(i - 1) =~= entries.skip(i));
        lemma_lookup_prefix_misses(entries.skip(1), name, i - 1);
    } else {
        assert(entries.skip(0) =~= entries);
    }
}

/// One located, parsed configuration: the directory that held the
/// configuration file (the working directory for every spawned subcommand)
/// and the name-to-entry mapping.
#[derive(Debug, Clone, PartialEq, Eq)]
pub struct KdConfig {
    pub root_path: String,
    pub commands_by_name: CommandMap,
}

} // verus!
