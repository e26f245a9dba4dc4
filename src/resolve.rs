use vstd::prelude::*;

verus! {

/// The DNS-over-HTTPS resolvers, in the order in which they are asked.
pub open spec fn spec_doh_servers() -> Seq<&'static str> {
    seq![
        "https://doh.pub/dns-query",
        "https://dns.alidns.com/dns-query",
        "https://cloudflare-dns.com/dns-query",
        "https://dns.google/resolve",
    ]
}

/// The resolver endpoints in priority order.
pub fn doh_servers() -> (r: Vec<&'static str>)
    ensures
        r@ == spec_doh_servers(),
{
    vec![
        "https://doh.pub/dns-query",
        "https://dns.alidns.com/dns-query",
        "https://cloudflare-dns.com/dns-query",
        "https://dns.google/resolve",
    ]
}

/// The address of the query for the A records of `domain` at `server`.
pub fn doh_query_url(server: &str, domain: &str) -> (r: String)
    ensures
        r@ == server@ + "?name="@ + domain@ + "&type=A"@,
{
    let mut url = server.to_owned();
    url.append("?name=");
    url.append(domain);
    url.append("&type=A");
    url
}

/// What came of asking one resolver about one domain.
#[derive(Debug)]
pub enum Attempt {
    /// No answer within the per-attempt time limit.
    TimedOut,
    /// A transport or HTTP error, or a body that could not be read.
    Failed,
    /// The valid addresses of the answer list (none if it was absent or empty).
    Answered(Vec<String>),
}

/// What to do next while resolving one domain.
#[derive(Debug)]
pub enum ResolveStep {
    /// Ask the resolver at this position of the list.
    Query(usize),
    /// The domain resolved to these addresses.
    Resolved(Vec<String>),
    /// Every resolver failed: the domain stays unresolved.
    Exhausted,
}

/// The step that starts the resolution of a domain with `count` resolvers.
pub open spec fn spec_first_step(count: int) -> ResolveStep {
    if count > 0 {
        ResolveStep::Query(0)
    } else {
        ResolveStep::Exhausted
    }
}

/// The step after the resolver at `index` (of `count`) gave `attempt`: a
/// non-empty answer resolves the domain, anything else moves on to the next
/// resolver, and after the last one the domain is given up.
pub open spec fn spec_step_after(index: int, count: int, attempt: Attempt) -> ResolveStep {
    match attempt {
        Attempt::Answered(ips) if ips@.len() > 0 => ResolveStep::Resolved(ips),
        _ => if index + 1 < count {
            ResolveStep::Query((index + 1) as usize)
        } else {
            ResolveStep::Exhausted
        },
    }
}

/// How the resolution of a domain begins.
pub fn first_step(count: usize) -> (r: ResolveStep)
    ensures
        r == spec_first_step(count as int),
{
    if count > 0 {
        ResolveStep::Query(0)
    } else {
        ResolveStep::Exhausted
    }
}

/// Decides what follows an attempt at the resolver at `index`.
pub fn step_after(index: usize, count: usize, attempt: Attempt) -> (r: ResolveStep)
    requires
        index < count,
    ensures
        r == spec_step_after(index as int, count as int, attempt),
{
    match attempt {
        Attempt::Answered(ips) => {
            if ips.len() > 0 {
                ResolveStep::Resolved(ips)
            } else if index + 1 < count {
                ResolveStep::Query(index + 1)
            } else {
                ResolveStep::Exhausted
            }
        },
        _ => {
            if index + 1 < count {
                ResolveStep::Query(index + 1)
            } else {
                ResolveStep::Exhausted
            }
        },
    }
}

/// When the first resolver times out or fails and the second answers with at
/// least one address, the domain resolves to the second resolver's addresses.
pub proof fn law_fallback_to_next_resolver(count: int, first: Attempt, second: Vec<String>)
    requires
        count >= 2,
        !(first is Answered) || first->Answered_0@.len() == 0,
        second@.len() > 0,
    ensures
        spec_first_step(count) == ResolveStep::Query(0),
        spec_step_after(0, count, first) == ResolveStep::Query(1),
        spec_step_after(1, count, Attempt::Answered(second)) == ResolveStep::Resolved(second),
{
}

} // verus!
