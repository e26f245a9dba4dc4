use vstd::prelude::*;
use crate::catalog::{all_names, core_names, get_domains_for_target, spec_core_domains, spec_optional_domains};
use crate::hosts_file::{entry_views, line_views};
use crate::models::OptimizationTarget;
use crate::probe::Candidate;

verus! {

/// The best candidate found so far for each domain of a target, by the
/// domain's position in the catalog (core domains first, then optional ones).
#[derive(Debug)]
pub struct BestCandidates {
    pub slots: Vec<Option<Candidate>>,
}

/// Why a run failed.
#[derive(Debug)]
pub enum OptimizeError {
    /// No domain got a reachable address.
    NoReachableIp,
    /// All work finished, but these core domains got no address.
    CoreDomainsFailed(Vec<String>),
    /// The deadline passed before these core domains got an address.
    CoreDomainsTimedOut(Vec<String>),
}

/// Some domain has a candidate.
pub open spec fn any_found(slots: Seq<Option<Candidate>>) -> bool {
    exists|j: int| 0 <= j < slots.len() && (#[trigger] slots[j]) is Some
}

/// The names among the first `n` domains that have no candidate, in order.
pub open spec fn missing_upto(names: Seq<Seq<char>>, slots: Seq<Option<Candidate>>, n: int) -> Seq<
    Seq<char>,
>
    decreases n,
{
    if n <= 0 {
        seq![]
    } else {
        let p = missing_upto(names, slots, n - 1);
        if slots[n - 1] is None {
            p.push(names[n - 1])
        } else {
            p
        }
    }
}

/// The (domain, address) pairs of the first `n` domains that have a
/// candidate, in order.
pub open spec fn chosen_upto(names: Seq<Seq<char>>, slots: Seq<Option<Candidate>>, n: int) -> Seq<
    (Seq<char>, Seq<char>),
>
    decreases n,
{
    if n <= 0 {
        seq![]
    } else {
        let p = chosen_upto(names, slots, n - 1);
        if slots[n - 1] is Some {
            p.push((names[n - 1], slots[n - 1]->Some_0.ip@))
        } else {
            p
        }
    }
}

/// The core domains of `t` that have no candidate in `slots`.
pub open spec fn missing_core(t: OptimizationTarget, slots: Seq<Option<Candidate>>) -> Seq<Seq<char>> {
    missing_upto(all_names(t), slots, core_names(t).len() as int)
}

/// The entries to write for `t`: every domain with a candidate, core domains
/// first, each group in catalog order.
pub open spec fn chosen_entries(t: OptimizationTarget, slots: Seq<Option<Candidate>>) -> Seq<
    (Seq<char>, Seq<char>),
> {
    chosen_upto(all_names(t), slots, all_names(t).len() as int)
}

impl BestCandidates {
    /// One slot per domain of `t`.
    pub open spec fn wf(&self, t: OptimizationTarget) -> bool {
        self.slots@.len() == all_names(t).len()
    }

    /// A table for `target` with no candidate yet.
    pub fn new(target: OptimizationTarget) -> (r: BestCandidates)
        ensures
            r.wf(target),
            forall|j: int| 0 <= j < r.slots@.len() ==> (#[trigger] r.slots@[j]) is None,
    {
        let list = get_domains_for_target(&target);
        let n = list.core.len() + list.optional.len();
        let mut slots: Vec<Option<Candidate>> = Vec::new();
        let mut i: usize = 0;
        while i < n
            invariant
                i <= n,
                n == all_names(target).len(),
                slots@.len() == i,
                forall|j: int| 0 <= j < i ==> (#[trigger] slots@[j]) is None,
            decreases n - i,
        {
            slots.push(None);
            i += 1;
        }
        BestCandidates { slots }
    }

    /// Records the best candidate of the domain at `index`.
    pub fn record(&mut self, index: usize, candidate: Candidate)
        requires
            index < old(self).slots@.len(),
        ensures
            final(self).slots@ == old(self).slots@.update(index as int, Some(candidate)),
    {
        self.slots.set(index, Some(candidate));
    }
}

/// Decides the outcome of a run from the candidates collected when all work
/// finished (`deadline_hit` false) or when the deadline passed (true). No
/// candidate at all fails the run; else a core domain without one fails it,
/// naming the missing core domains; else the result lists every domain with a
/// candidate as a (domain, address) pair, core domains first.
pub fn finalize(target: OptimizationTarget, best: &BestCandidates, deadline_hit: bool) -> (r: Result<
    Vec<(String, String)>,
    OptimizeError,
>)
    requires
        best.wf(target),
    ensures
        !any_found(best.slots@) ==> r matches Err(OptimizeError::NoReachableIp),
        any_found(best.slots@) && missing_core(target, best.slots@).len() > 0 && !deadline_hit
            ==> (r matches Err(OptimizeError::CoreDomainsFailed(v)) && line_views(v@)
            == missing_core(target, best.slots@)),
        any_found(best.slots@) && missing_core(target, best.slots@).len() > 0 && deadline_hit
            ==> (r matches Err(OptimizeError::CoreDomainsTimedOut(v)) && line_views(v@)
            == missing_core(target, best.slots@)),
        any_found(best.slots@) && missing_core(target, best.slots@).len() == 0 ==> (r matches Ok(v)
            && entry_views(v@) == chosen_entries(target, best.slots@)),
{
    let list = get_domains_for_target(&target);
    let ghost slots = best.slots@;
    let ghost names = all_names(target);
    let nc = list.core.len();
    let n = best.slots.len();
    proof {
        assert(names.len() == nc + list.optional@.len());
    }
    let mut found = false;
    let mut i: usize = 0;
    while i < n
        invariant
            i <= n,
            n == slots.len(),
            slots == best.slots@,
            found <==> exists|j: int| 0 <= j < i && (#[trigger] slots[j]) is Some,
        decreases n - i,
    {
        if best.slots[i].is_some() {
            found = true;
        }
        i += 1;
    }
    if !found {
        return Err(OptimizeError::NoReachableIp);
    }
    let mut missing: Vec<String> = Vec::new();
    let mut i: usize = 0;
    while i < nc
        invariant
            i <= nc,
            nc == list.core@.len(),
            nc <= n,
            n == slots.len(),
            slots == best.slots@,
            names == all_names(target),
            list.core@ == spec_core_domains(target),
            list.optional@ == spec_optional_domains(target),
            line_views(missing@) == missing_upto(names, slots, i as int),
        decreases nc - i,
    {
        let ghost prev = missing@;
        if best.slots[i].is_none() {
            missing.push(list.core[i].to_owned());
            proof {
                assert(names[i as int] == list.core@[i as int]@);
                assert(line_views(missing@) =~= line_views(prev).push(list.core@[i as int]@));
            }
        }
        i += 1;
    }
    if missing.len() > 0 {
        if deadline_hit {
            return Err(OptimizeError::CoreDomainsTimedOut(missing));
        } else {
            return Err(OptimizeError::CoreDomainsFailed(missing));
        }
    }
    let mut entries: Vec<(String, String)> = Vec::new();
    let mut i: usize = 0;
    while i < n
        invariant
            i <= n,
            nc == list.core@.len(),
            n == slots.len(),
            n == nc + list.optional@.len(),
            slots == best.slots@,
            names == all_names(target),
            list.core@ == spec_core_domains(target),
            list.optional@ == spec_optional_domains(target),
            entry_views(entries@) == chosen_upto(names, slots, i as int),
        decreases n - i,
    {
        let ghost prev = entries@;
        match &best.slots[i] {
            Some(c) => {
                let name = if i < nc {
                    list.core[i]
                } else {
                    list.optional[i - nc]
                };
                proof {
                    assert(names[i as int] == name@);
                }
                entries.push((name.to_owned(), c.ip.clone()));
                proof {
                    assert(entry_views(entries@) =~= entry_views(prev).push((name@, c.ip@)));
                }
            },
            None => {},
        }
        i += 1;
    }
    Ok(entries)
}

proof fn lemma_none_missing(names: Seq<Seq<char>>, slots: Seq<Option<Candidate>>, n: int)
    requires
        forall|i: int| 0 <= i < n ==> (#[trigger] slots[i]) is Some,
    ensures
        missing_upto(names, slots, n).len() == 0,
    decreases n,
{
    if n > 0 {
        lemma_none_missing(names, slots, n - 1);
    }
}

proof fn lemma_all_chosen(names: Seq<Seq<char>>, slots: Seq<Option<Candidate>>, n: int)
    requires
        n >= 0,
        forall|i: int| 0 <= i < n ==> (#[trigger] slots[i]) is Some,
    ensures
        chosen_upto(names, slots, n).len() == n,
        forall|i: int|
            0 <= i < n ==> #[trigger] chosen_upto(names, slots, n)[i] == (
                names[i],
                slots[i]->Some_0.ip@,
            ),
    decreases n,
{
    if n > 0 {
        lemma_all_chosen(names, slots, n - 1);
        assert(slots[n - 1] is Some);
    }
}

proof fn lemma_chosen_grows(names: Seq<Seq<char>>, slots: Seq<Option<Candidate>>, n: int, m: int)
    requires
        0 <= n <= m,
    ensures
        chosen_upto(names, slots, n).len() <= chosen_upto(names, slots, m).len(),
        forall|i: int|
            0 <= i < chosen_upto(names, slots, n).len() ==> #[trigger] chosen_upto(names, slots, m)[i]
                == chosen_upto(names, slots, n)[i],
    decreases m - n,
{
    if n < m {
        lemma_chosen_grows(names, slots, n, m - 1);
    }
}

/// When every core domain holds a candidate, whether or not the deadline has
/// passed, the run is no failure, and its entries start with all core domains
/// in catalog order; optional domains without a candidate are left out.
pub proof fn law_core_done_suffices(t: OptimizationTarget, slots: Seq<Option<Candidate>>)
    requires
        slots.len() == all_names(t).len(),
        forall|i: int| 0 <= i < core_names(t).len() ==> (#[trigger] slots[i]) is Some,
    ensures
        any_found(slots),
        missing_core(t, slots).len() == 0,
        chosen_entries(t, slots).len() >= core_names(t).len(),
        forall|i: int|
            0 <= i < core_names(t).len() ==> #[trigger] chosen_entries(t, slots)[i] == (
                core_names(t)[i],
                slots[i]->Some_0.ip@,
            ),
{
    let names = all_names(t);
    let nc = core_names(t).len() as int;
    assert(slots[0] is Some);
    lemma_none_missing(names, slots, nc);
    lemma_all_chosen(names, slots, nc);
    lemma_chosen_grows(names, slots, nc, names.len() as int);
    assert forall|i: int| 0 <= i < nc implies #[trigger] core_names(t)[i] == names[i] by {
        assert((spec_core_domains(t) + spec_optional_domains(t))[i] == spec_core_domains(t)[i]);
    }
}

proof fn lemma_gap_is_missing(names: Seq<Seq<char>>, slots: Seq<Option<Candidate>>, n: int, k: int)
    requires
        0 <= k < n,
        slots[k] is None,
    ensures
        missing_upto(names, slots, n).len() > 0,
    decreases n,
{
    if k < n - 1 {
        lemma_gap_is_missing(names, slots, n - 1, k);
    }
}

/// A core domain without a candidate makes the run fail: with no candidate
/// at all as a run without reachable addresses, else as a core-domain failure
/// (see `finalize`), so no entries are produced for the override file.
pub proof fn law_core_gap_fails(t: OptimizationTarget, slots: Seq<Option<Candidate>>, k: int)
    requires
        slots.len() == all_names(t).len(),
        0 <= k < core_names(t).len(),
        slots[k] is None,
    ensures
        missing_core(t, slots).len() > 0,
{
    lemma_gap_is_missing(all_names(t), slots, core_names(t).len() as int, k);
}

} // verus!
