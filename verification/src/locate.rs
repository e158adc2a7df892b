//! Discovery of the configuration file: a strictly upward walk over the
//! ancestors of the working directory, decided one probe at a time.

use vstd::prelude::*;

verus! {

/// What opening the candidate file in one ancestor directory yielded.
#[derive(Debug, Clone, Copy, PartialEq, Eq, Structural)]
pub enum ProbeOutcome {
    /// The file opened.
    Found,
    /// The file does not exist there.
    Missing,
    /// The file is there but cannot be opened; the walk gives up, the same
    /// terminal signal as absence.
    Unreadable,
}

/// What the walk does after one probe. `Ascend` is only offered while a
/// parent directory remains.
#[derive(Debug, Clone, Copy, PartialEq, Eq, Structural)]
pub enum LocateDecision {
    /// Use this ancestor: it holds the configuration file.
    UseHere,
    /// Try the parent directory.
    Ascend,
    /// Stop and report that no configuration was found.
    GiveUp,
}

/// Where the walk settles, over the whole chain of probe outcomes, from the
/// working directory upward: the index of the first ancestor whose probe
/// found the file, or nothing if a probe failed otherwise or the chain ran
/// out first.
pub open spec fn locate_model(probes: Seq<ProbeOutcome>) -> Option<int>
    decreases probes.len(),
{
    if probes.len() == 0 {
        None
    } else if probes[0] == ProbeOutcome::Found {
        Some(0)
    } else if probes[0] == ProbeOutcome::Missing {
        match locate_model(probes.skip(1)) {
            Some(i) => Some(i + 1),
            None => None,
        }
    } else {
        None
    }
}

/// The per-step decision of the walk.
pub fn locate_decision(probe: ProbeOutcome, can_ascend: bool) -> (d: LocateDecision)
    ensures
        (d == LocateDecision::UseHere) <==> (probe == ProbeOutcome::Found),
        (d == LocateDecision::Ascend) <==> (probe == ProbeOutcome::Missing && can_ascend),
        (d == LocateDecision::GiveUp) <==> (probe == ProbeOutcome::Unreadable || (probe
            == ProbeOutcome::Missing && !can_ascend)),
{
    match probe {
        ProbeOutcome::Found => LocateDecision::UseHere,
        ProbeOutcome::Missing => if can_ascend {
            LocateDecision::Ascend
        } else {
            LocateDecision::GiveUp
        },
        ProbeOutcome::Unreadable => LocateDecision::GiveUp,
    }
}

/// When the first `i` probes all missed, the walk's outcome is decided by
/// the rest of the chain, shifted by `i`.
proof fn lemma_locate_skip(probes: Seq<ProbeOutcome>, i: int)
    requires
        0 <= i <= probes.len(),
        forall|k: int| 0 <= k < i ==> #[trigger] probes[k] == ProbeOutcome::Missing,
    ensures
        locate_model(probes) == match locate_model(probes.skip(i)) {
            Some(x) => Some(x + i),
            None => None::<int>,
        },
    decreases i,
{
    if i == 0 {
        assert(probes.skip(0) =~= probes);
    } else {
        assert(probes.skip(1).skip(i - 1) =~= probes.skip(i));
        lemma_locate_skip(probes.skip(1), i - 1);
    }
}

/// Iterating the per-step decision over a chain of probe outcomes reaches
/// exactly what `locate_model` names: the walk is faithful to its model.
pub fn locate_from_probes(probes: &Vec<ProbeOutcome>) -> (r: Option<usize>)
    ensures
        match r {
            Some(i) => locate_model(probes@) == Some(i as int),
            None => locate_model(probes@) is None,
        },
{
    let n = probes.len();
    for i in 0..n
        invariant
            n == probes.len(),
            forall|k: int| 0 <= k < i ==> #[trigger] probes@[k] == ProbeOutcome::Missing,
    {
        proof {
            lemma_locate_skip(probes@, i as int);
        }
        match locate_decision(probes[i], i + 1 < n) {
            LocateDecision::UseHere => {
                proof {
                    assert(probes@.skip(i as int)[0] == probes@[i as int]);
                }
                return Some(i);
            },
            LocateDecision::Ascend => {},
            LocateDecision::GiveUp => {
                proof {
                    assert(probes@.skip(i as int)[0] == probes@[i as int]);
                    if probes@[i as int] == ProbeOutcome::Missing {
                        assert(i + 1 == n);
                        assert(probes@.skip(i as int).skip(1) =~= probes@.skip(i + 1));
                        lemma_locate_skip(probes@.skip(i as int), 1);
                        assert(probes@.skip(i + 1).len() == 0);
                    }
                }
                return None;
            },
        }
    }
    proof {
        lemma_locate_skip(probes@, n as int);
        assert(probes@.skip(n as int).len() == 0);
    }
    None
}

/// With the configuration file present `n` levels up and absent in every
/// directory below, discovery settles on exactly that ancestor, whatever the
/// depth.
pub proof fn lemma_locate_finds_nearest(probes: Seq<ProbeOutcome>, n: int)
    requires
        0 <= n < probes.len(),
        probes[n] == ProbeOutcome::Found,
        forall|k: int| 0 <= k < n ==> #[trigger] probes[k] == ProbeOutcome::Missing,
    ensures
        locate_model(probes) == Some(n),
{
    lemma_locate_skip(probes, n);
    assert(probes.skip(n)[0] == probes[n]);
}

/// With the file absent from every ancestor up to the root, discovery
/// reports absence: a valid terminal state, not an error.
pub proof fn lemma_locate_absent(probes: Seq<ProbeOutcome>)
    requires
        forall|k: int| 0 <= k < probes.len() ==> #[trigger] probes[k] == ProbeOutcome::Missing,
    ensures
        locate_model(probes) is None,
{
    lemma_locate_skip(probes, probes.len() as int);
    assert(probes.skip(probes.len() as int).len() == 0);
}

} // verus!
