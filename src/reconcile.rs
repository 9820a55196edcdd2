//! The bounded verify-and-fetch loop of one manifest tier, as a state machine.
//! The caller verifies, hands the report to `evaluate`, and performs what it
//! returns: nothing more, a fetch followed by another verification, or a fatal
//! stop.
use vstd::prelude::*;
use crate::url::{LocalPath, address_of, url};
use crate::verify::{CorruptedReason, failures};

verus! {

/// The most verification passes that one tier gets.
pub const MAX_PASSES: usize = 2;

/// What a tier does after one verification pass.
pub enum Step {
    /// Nothing is missing or corrupted: the tier is reconciled.
    Done,
    /// Fetch these (address, destination) pairs, then verify again.
    Fetch { corrupted: Vec<(String, LocalPath)>, missing: Vec<(String, LocalPath)> },
    /// The bound is reached with entries still wrong: the run fails.
    Exhausted { corrupted_count: usize, missing_count: usize },
}

/// A report that breaks the verifier's contract.
#[derive(Clone, Copy, Debug, PartialEq, Eq, Structural)]
pub enum ReconcileError {
    /// The report lists an entry as in order.
    UnexpectedOutcome,
}

/// The kind of step taken after a pass.
#[derive(Clone, Copy, Debug, PartialEq, Eq, Structural)]
pub enum Verdict {
    Done,
    Fetch,
    Exhausted,
    Invalid,
}

/// The step after the pass that follows `passes` earlier passes, on a report
/// with the states `reasons`.
pub open spec fn verdict(passes: nat, reasons: Seq<CorruptedReason>) -> Verdict {
    if reasons.contains(CorruptedReason::Intact) {
        Verdict::Invalid
    } else if reasons.len() == 0 {
        Verdict::Done
    } else if passes + 1 < MAX_PASSES {
        Verdict::Fetch
    } else {
        Verdict::Exhausted
    }
}

pub open spec fn reasons_of(report: Seq<(LocalPath, CorruptedReason)>) -> Seq<CorruptedReason> {
    report.map_values(|e: (LocalPath, CorruptedReason)| e.1)
}

/// The (address, destination) pairs of the report's entries in the state
/// `reason`, in order.
pub open spec fn fetch_items(report: Seq<(LocalPath, CorruptedReason)>, reason: CorruptedReason) -> Seq<(Seq<char>, Seq<Seq<char>>)>
    decreases report.len(),
{
    if report.len() == 0 {
        seq![]
    } else {
        let rest = fetch_items(report.drop_last(), reason);
        if report.last().1 == reason {
            rest.push((address_of(report.last().0@), report.last().0@))
        } else {
            rest
        }
    }
}

pub open spec fn fetch_views(v: Seq<(String, LocalPath)>) -> Seq<(Seq<char>, Seq<Seq<char>>)> {
    v.map_values(|e: (String, LocalPath)| (e.0@, e.1@))
}

/// The reconciliation of one tier: how many verification passes it has seen.
pub struct Reconciler {
    passes: usize,
}

impl Reconciler {
    /// A tier that has not been verified yet.
    pub fn new() -> (r: Reconciler)
        ensures
            r.passes() == 0,
    {
        Reconciler { passes: 0 }
    }

    pub closed spec fn passes(&self) -> nat {
        self.passes as nat
    }

    /// The number of verification passes seen so far.
    pub fn pass_count(&self) -> (r: usize)
        ensures
            r == self.passes(),
    {
        self.passes
    }

    /// Whether the tier may still be verified.
    pub fn can_verify(&self) -> (r: bool)
        ensures
            r == (self.passes() < MAX_PASSES),
    {
        self.passes < MAX_PASSES
    }

    /// Takes the report of one verification pass and says what follows: done
    /// when the report is empty; otherwise a fetch of the corrupted and of the
    /// missing entries while a pass is left, and exhaustion (with the counts)
    /// after the last pass. A report with an entry in order is refused.
    pub fn evaluate(&mut self, report: &Vec<(LocalPath, CorruptedReason)>) -> (r: Result<Step, ReconcileError>)
        requires
            old(self).passes() < MAX_PASSES,
        ensures
            final(self).passes() == old(self).passes() + 1,
            match r {
                Err(e) => e == ReconcileError::UnexpectedOutcome && verdict(old(self).passes(), reasons_of(report@))
                    == Verdict::Invalid,
                Ok(Step::Done) => verdict(old(self).passes(), reasons_of(report@)) == Verdict::Done,
                Ok(Step::Fetch { corrupted, missing }) => verdict(old(self).passes(), reasons_of(report@))
                    == Verdict::Fetch && fetch_views(corrupted@) == fetch_items(report@, CorruptedReason::Corrupted)
                    && fetch_views(missing@) == fetch_items(report@, CorruptedReason::Missing),
                Ok(Step::Exhausted { corrupted_count, missing_count }) => verdict(old(self).passes(), reasons_of(report@))
                    == Verdict::Exhausted && corrupted_count == fetch_items(report@, CorruptedReason::Corrupted).len()
                    && missing_count == fetch_items(report@, CorruptedReason::Missing).len(),
            },
    {
        let ghost rs = reasons_of(report@);
        self.passes = self.passes + 1;
        let mut corrupted: Vec<(String, LocalPath)> = Vec::new();
        let mut missing: Vec<(String, LocalPath)> = Vec::new();
        let mut i: usize = 0;
        while i < report.len()
            invariant
                0 <= i <= report@.len(),
                rs == reasons_of(report@),
                self.passes() == old(self).passes() + 1,
                forall|j: int| 0 <= j < i ==> rs[j] != CorruptedReason::Intact,
                fetch_views(corrupted@) == fetch_items(report@.take(i as int), CorruptedReason::Corrupted),
                fetch_views(missing@) == fetch_items(report@.take(i as int), CorruptedReason::Missing),
            decreases report@.len() - i,
        {
            let ghost pre = report@.take(i as int);
            let ghost c0 = fetch_views(corrupted@);
            let ghost m0 = fetch_views(missing@);
            assert(report@.take(i as int + 1).drop_last() =~= pre);
            let p = &report[i].0;
            match report[i].1 {
                CorruptedReason::Intact => {
                    assert(rs[i as int] == CorruptedReason::Intact);
                    return Err(ReconcileError::UnexpectedOutcome);
                },
                CorruptedReason::Corrupted => {
                    corrupted.push((url(p), p.duplicate()));
                    assert(fetch_views(corrupted@) =~= c0.push((address_of(p@), p@)));
                },
                CorruptedReason::Missing => {
                    missing.push((url(p), p.duplicate()));
                    assert(fetch_views(missing@) =~= m0.push((address_of(p@), p@)));
                },
            }
            i = i + 1;
        }
        assert(report@.take(report@.len() as int) =~= report@);
        assert(!rs.contains(CorruptedReason::Intact));
        proof {
            lemma_fetch_items_split(report@);
        }
        if report.len() == 0 {
            Ok(Step::Done)
        } else if self.passes < MAX_PASSES {
            Ok(Step::Fetch { corrupted, missing })
        } else {
            Ok(Step::Exhausted { corrupted_count: corrupted.len(), missing_count: missing.len() })
        }
    }
}

/// A report without entries in order splits into its corrupted and its missing
/// entries.
proof fn lemma_fetch_items_split(report: Seq<(LocalPath, CorruptedReason)>)
    requires
        !reasons_of(report).contains(CorruptedReason::Intact),
    ensures
        fetch_items(report, CorruptedReason::Corrupted).len() + fetch_items(report, CorruptedReason::Missing).len()
            == report.len(),
    decreases report.len(),
{
    if report.len() > 0 {
        let n = report.len() - 1;
        assert(reasons_of(report)[n] == report.last().1);
        assert(!reasons_of(report.drop_last()).contains(CorruptedReason::Intact)) by {
            if reasons_of(report.drop_last()).contains(CorruptedReason::Intact) {
                let k = choose|k: int| 0 <= k < n && reasons_of(report.drop_last())[k] == CorruptedReason::Intact;
                assert(reasons_of(report)[k] == CorruptedReason::Intact);
            }
        }
        lemma_fetch_items_split(report.drop_last());
    }
}

/// A tier ends within two passes. The first pass ends it when nothing is wrong
/// and fetches otherwise; the second ends it, as done when the fetch repaired
/// everything and as exhausted when anything is still wrong; no later pass ever
/// fetches.
pub proof fn lemma_tier_terminates(first: Seq<CorruptedReason>, second: Seq<CorruptedReason>, later: nat)
    requires
        !first.contains(CorruptedReason::Intact),
        !second.contains(CorruptedReason::Intact),
        later >= 1,
    ensures
        verdict(0, first) == (if first.len() == 0 { Verdict::Done } else { Verdict::Fetch }),
        verdict(1, second) == (if second.len() == 0 { Verdict::Done } else { Verdict::Exhausted }),
        verdict(later, second) != Verdict::Fetch,
{
}

/// One entry whose file is absent, and a fetch that writes the right bytes: the
/// first pass reports it missing and fetches exactly it, with an empty corrupted
/// batch; the second pass reports nothing and the tier is done.
pub proof fn lemma_missing_entry_repaired(p: LocalPath, h: Seq<u8>)
    ensures
        failures(seq![(p@, h)], seq![None]) == seq![(p@, CorruptedReason::Missing)],
        verdict(0, seq![CorruptedReason::Missing]) == Verdict::Fetch,
        fetch_items(seq![(p, CorruptedReason::Missing)], CorruptedReason::Missing) == seq![(address_of(p@), p@)],
        fetch_items(seq![(p, CorruptedReason::Missing)], CorruptedReason::Corrupted).len() == 0,
        failures(seq![(p@, h)], seq![Some(h)]).len() == 0,
        verdict(1, Seq::<CorruptedReason>::empty()) == Verdict::Done,
{
    reveal_with_fuel(failures, 2);
    reveal_with_fuel(fetch_items, 2);
    let files = seq![(p@, h)];
    assert(files.drop_last() =~= Seq::<(Seq<Seq<char>>, Seq<u8>)>::empty());
    assert(seq![Option::<Seq<u8>>::None].take(0) =~= Seq::<Option<Seq<u8>>>::empty());
    assert(seq![Some(h)].take(0) =~= Seq::<Option<Seq<u8>>>::empty());
    assert(failures(files, seq![None]) =~= seq![(p@, CorruptedReason::Missing)]);
    let report = seq![(p, CorruptedReason::Missing)];
    assert(report.drop_last() =~= Seq::<(LocalPath, CorruptedReason)>::empty());
    assert(fetch_items(report, CorruptedReason::Missing) =~= seq![(address_of(p@), p@)]);
    assert(seq![CorruptedReason::Missing][0] == CorruptedReason::Missing);
    assert(!seq![CorruptedReason::Missing].contains(CorruptedReason::Intact));
}

/// One entry whose file keeps wrong bytes through every fetch: both passes
/// report it corrupted; the first fetches exactly it, with an empty missing
/// batch, and the second exhausts the tier with one corrupted entry.
pub proof fn lemma_corrupted_entry_exhausts(p: LocalPath, h: Seq<u8>, d: Seq<u8>)
    requires
        d != h,
    ensures
        failures(seq![(p@, h)], seq![Some(d)]) == seq![(p@, CorruptedReason::Corrupted)],
        verdict(0, seq![CorruptedReason::Corrupted]) == Verdict::Fetch,
        fetch_items(seq![(p, CorruptedReason::Corrupted)], CorruptedReason::Corrupted) == seq![(address_of(p@), p@)],
        fetch_items(seq![(p, CorruptedReason::Corrupted)], CorruptedReason::Missing).len() == 0,
        verdict(1, seq![CorruptedReason::Corrupted]) == Verdict::Exhausted,
{
    reveal_with_fuel(failures, 2);
    reveal_with_fuel(fetch_items, 2);
    let files = seq![(p@, h)];
    assert(files.drop_last() =~= Seq::<(Seq<Seq<char>>, Seq<u8>)>::empty());
    assert(seq![Some(d)].take(0) =~= Seq::<Option<Seq<u8>>>::empty());
    assert(failures(files, seq![Some(d)]) =~= seq![(p@, CorruptedReason::Corrupted)]);
    let report = seq![(p, CorruptedReason::Corrupted)];
    assert(report.drop_last() =~= Seq::<(LocalPath, CorruptedReason)>::empty());
    assert(fetch_items(report, CorruptedReason::Corrupted) =~= seq![(address_of(p@), p@)]);
    assert(seq![CorruptedReason::Corrupted][0] == CorruptedReason::Corrupted);
    assert(!seq![CorruptedReason::Corrupted].contains(CorruptedReason::Intact));
}

} // verus!
