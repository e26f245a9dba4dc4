use vstd::prelude::*;

verus! {

/// The sum of a sequence of round-trip times.
pub open spec fn total(s: Seq<u64>) -> int
    decreases s.len(),
{
    if s.len() == 0 {
        0
    } else {
        total(s.drop_last()) + s.last()
    }
}

/// The mean of the round-trip times of the probes that got a reply, rounded
/// down; `None` when no probe got one (the address is unreachable).
pub fn mean_latency(rtts: &Vec<u64>) -> (r: Option<u64>)
    ensures
        rtts@.len() == 0 <==> r is None,
        r is Some ==> r->Some_0 == total(rtts@) / (rtts@.len() as int),
{
    if rtts.len() == 0 {
        return None;
    }
    let mut sum: u128 = 0;
    let mut i: usize = 0;
    while i < rtts.len()
        invariant
            i <= rtts@.len(),
            sum == total(rtts@.take(i as int)),
            sum <= i * 0xffff_ffff_ffff_ffffu64,
        decreases rtts.len() - i,
    {
        proof {
            assert(rtts@.take(i as int + 1).drop_last() == rtts@.take(i as int));
            assert((i + 1) * 0xffff_ffff_ffff_ffffu64 == i * 0xffff_ffff_ffff_ffffu64
                + 0xffff_ffff_ffff_ffffu64) by (nonlinear_arith);
            assert(i * 0xffff_ffff_ffff_ffffu64 <= 0xffff_ffff_ffff_ffffu64 * 0xffff_ffff_ffff_ffffu64)
                by (nonlinear_arith)
                requires
                    i <= 0xffff_ffff_ffff_ffffu64,
            ;
        }
        sum = sum + rtts[i] as u128;
        i += 1;
    }
    proof {
        assert(rtts@.take(rtts@.len() as int) == rtts@);
    }
    let n = rtts.len() as u128;
    let mean = sum / n;
    proof {
        assert(mean <= 0xffff_ffff_ffff_ffffu64) by (nonlinear_arith)
            requires
                mean == sum / n,
                sum <= n * 0xffff_ffff_ffff_ffffu64,
                n > 0,
        ;
    }
    Some(mean as u64)
}

/// The chosen address of a domain and its mean round-trip time.
#[derive(Debug, Clone)]
pub struct Candidate {
    pub ip: String,
    pub latency_us: u64,
}

/// Position `k` of `probes` is reachable, no reachable one is faster, and
/// every reachable one before it is slower: the first fastest.
pub open spec fn is_fastest_at(probes: Seq<(String, Option<u64>)>, k: int) -> bool {
    &&& 0 <= k < probes.len()
    &&& probes[k].1 is Some
    &&& forall|j: int|
        0 <= j < probes.len() && (#[trigger] probes[j]).1 is Some ==> probes[k].1->Some_0
            <= probes[j].1->Some_0
    &&& forall|j: int|
        0 <= j < k && (#[trigger] probes[j]).1 is Some ==> probes[k].1->Some_0 < probes[j].1->Some_0
}

/// Picks, among the probed addresses of one domain (in the order in which
/// their results came in, each with its mean latency or `None` if it was
/// unreachable), the one with the lowest latency; among equally fast ones the
/// first that came in. `None` when no address was reachable.
pub fn pick_fastest(probes: &Vec<(String, Option<u64>)>) -> (r: Option<Candidate>)
    ensures
        r is None <==> forall|j: int| 0 <= j < probes@.len() ==> (#[trigger] probes@[j]).1 is None,
        r is Some ==> exists|k: int|
            is_fastest_at(probes@, k) && r->Some_0.ip@ == (#[trigger] probes@[k]).0@
                && r->Some_0.latency_us == probes@[k].1->Some_0,
{
    let mut best: Option<usize> = None;
    let mut i: usize = 0;
    while i < probes.len()
        invariant
            i <= probes@.len(),
            best is None <==> forall|j: int| 0 <= j < i ==> (#[trigger] probes@[j]).1 is None,
            best is Some ==> is_fastest_at(probes@.take(i as int), best->Some_0 as int),
        decreases probes.len() - i,
    {
        let ghost old_best = best;
        if let Some(rtt) = probes[i].1 {
            match best {
                None => {
                    best = Some(i);
                },
                Some(b) => {
                    let current = probes[b].1.unwrap();
                    if rtt < current {
                        best = Some(i);
                    }
                },
            }
        }
        proof {
            let p = probes@.take(i as int + 1);
            assert forall|j: int| 0 <= j < i implies #[trigger] p[j] == probes@.take(i as int)[j] by {}
            assert(p[i as int] == probes@[i as int]);
            if best is Some {
                let k = best->Some_0 as int;
                assert forall|j: int| 0 <= j < p.len() && (#[trigger] p[j]).1 is Some
                    implies p[k].1->Some_0 <= p[j].1->Some_0 by {
                    if j < i {
                        assert(probes@.take(i as int)[j] == p[j]);
                    }
                }
                assert forall|j: int| 0 <= j < k && (#[trigger] p[j]).1 is Some
                    implies p[k].1->Some_0 < p[j].1->Some_0 by {
                    assert(probes@.take(i as int)[j] == p[j]);
                    if old_best is Some {
                        assert(probes@.take(i as int)[old_best->Some_0 as int] == p[old_best->Some_0 as int]);
                    }
                }
            }
        }
        i += 1;
    }
    proof {
        assert(probes@.take(probes@.len() as int) == probes@);
    }
    match best {
        None => None,
        Some(b) => {
            let latency = probes[b].1.unwrap();
            Some(Candidate { ip: probes[b].0.clone(), latency_us: latency })
        },
    }
}

} // verus!
