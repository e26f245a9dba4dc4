use host_preferred::catalog::{block_markers, get_domains_for_target};
use host_preferred::governor::{finalize, BestCandidates, OptimizeError};
use host_preferred::hosts_file::rewrite_block;
use host_preferred::models::OptimizationTarget;
use host_preferred::probe::{mean_latency, pick_fastest, Candidate};
use host_preferred::resolve::{doh_query_url, doh_servers, first_step, step_after, Attempt, ResolveStep};

fn lines(v: &[&str]) -> Vec<String> {
    v.iter().map(|s| s.to_string()).collect()
}

fn entries(v: &[(&str, &str)]) -> Vec<(String, String)> {
    v.iter().map(|(d, i)| (d.to_string(), i.to_string())).collect()
}

fn candidate(ip: &str, latency_us: u64) -> Candidate {
    Candidate { ip: ip.to_string(), latency_us }
}

#[test]
fn target_names() {
    assert_eq!(OptimizationTarget::GitHub.fmt(), "GitHub");
    assert_eq!(OptimizationTarget::Cloudflare.fmt(), "Cloudflare");
    assert_eq!(OptimizationTarget::NexusMods.fmt(), "NexusMods");
}

#[test]
fn catalog_lists_core_then_optional() {
    let gh = get_domains_for_target(&OptimizationTarget::GitHub);
    assert_eq!(gh.core, vec!["github.com", "github.githubassets.com", "raw.githubusercontent.com", "avatars.githubusercontent.com"]);
    assert_eq!(gh.optional.len(), 20);
    assert_eq!(gh.optional[19], "github.global.ssl.fastly.net");
    let cf = get_domains_for_target(&OptimizationTarget::Cloudflare);
    assert_eq!(cf.core, vec!["dash.cloudflare.com", "cloudflare.com", "one.one.one.one"]);
    assert_eq!(cf.optional.len(), 5);
    let nm = get_domains_for_target(&OptimizationTarget::NexusMods);
    assert_eq!(nm.core, vec!["www.nexusmods.com", "staticdelivery.nexusmods.com"]);
    assert_eq!(nm.optional.len(), 3);
}

#[test]
fn markers_per_target() {
    assert_eq!(block_markers(OptimizationTarget::GitHub), ("# == Github ==", "# ========="));
    assert_eq!(block_markers(OptimizationTarget::Cloudflare), ("# == Cloudflare ==", "# ============"));
    assert_eq!(block_markers(OptimizationTarget::NexusMods), ("# == Nexusmods ==", "# ============"));
}

#[test]
fn rewrite_appends_block() {
    let file = lines(&["127.0.0.1 localhost"]);
    let out = rewrite_block(&file, OptimizationTarget::GitHub, &entries(&[("github.com", "1.2.3.4"), ("api.github.com", "5.6.7.8")]));
    assert_eq!(out, lines(&["127.0.0.1 localhost", "", "# == Github ==", "1.2.3.4 github.com", "5.6.7.8 api.github.com", "# ========="]));
}

#[test]
fn rewrite_replaces_old_block() {
    let file = lines(&["a", "# == Github ==", "9.9.9.9 github.com", "# =========", "b"]);
    let out = rewrite_block(&file, OptimizationTarget::GitHub, &entries(&[("github.com", "1.1.1.1")]));
    assert_eq!(out, lines(&["a", "b", "", "# == Github ==", "1.1.1.1 github.com", "# ========="]));
}

#[test]
fn rewrite_matches_markers_after_trimming() {
    let file = lines(&["a", "  # == Github ==\t", "9.9.9.9 github.com", " # =========  ", "b"]);
    let out = rewrite_block(&file, OptimizationTarget::GitHub, &Vec::new());
    assert_eq!(out, lines(&["a", "b"]));
}

#[test]
fn rewrite_keeps_end_marker_outside_block() {
    let file = lines(&["# =========", "x"]);
    let out = rewrite_block(&file, OptimizationTarget::GitHub, &Vec::new());
    assert_eq!(out, file);
}

#[test]
fn rewrite_leaves_other_target_block() {
    let file = lines(&[
        "127.0.0.1 localhost",
        "# == Cloudflare ==",
        "1.0.0.1 cloudflare.com",
        "# ============",
        "# comment",
        "# == Github ==",
        "9.9.9.9 github.com",
        "# =========",
        "tail",
    ]);
    let out = rewrite_block(&file, OptimizationTarget::GitHub, &entries(&[("github.com", "2.2.2.2")]));
    assert_eq!(out, lines(&[
        "127.0.0.1 localhost",
        "# == Cloudflare ==",
        "1.0.0.1 cloudflare.com",
        "# ============",
        "# comment",
        "tail",
        "",
        "# == Github ==",
        "2.2.2.2 github.com",
        "# =========",
    ]));
}

#[test]
fn rewrite_cloudflare_leaves_nexusmods_block() {
    let file = lines(&["# == Nexusmods ==", "3.3.3.3 www.nexusmods.com", "# ============", "# == Cloudflare ==", "1.1.1.1 cloudflare.com", "# ============"]);
    let out = rewrite_block(&file, OptimizationTarget::Cloudflare, &Vec::new());
    assert_eq!(out, lines(&["# == Nexusmods ==", "3.3.3.3 www.nexusmods.com", "# ============"]));
}

#[test]
fn rewrite_with_empty_list_removes_block() {
    let file = lines(&["x", "# == Github ==", "1.2.3.4 github.com", "# =========", "y"]);
    let out = rewrite_block(&file, OptimizationTarget::GitHub, &Vec::new());
    assert_eq!(out, lines(&["x", "y"]));
    let again = rewrite_block(&out, OptimizationTarget::GitHub, &Vec::new());
    assert_eq!(again, out);
}

#[test]
fn rewrite_twice_is_idempotent() {
    let file = lines(&["x"]);
    let e = entries(&[("github.com", "1.2.3.4"), ("api.github.com", "5.6.7.8")]);
    let once = rewrite_block(&file, OptimizationTarget::GitHub, &e);
    let twice = rewrite_block(&once, OptimizationTarget::GitHub, &e);
    assert_eq!(once, lines(&["x", "", "# == Github ==", "1.2.3.4 github.com", "5.6.7.8 api.github.com", "# ========="]));
    assert_eq!(twice, once);
    assert_eq!(twice.iter().filter(|l| l.as_str() == "# == Github ==").count(), 1);
}

#[test]
fn rewrite_of_empty_file_is_idempotent() {
    let e = entries(&[("cloudflare.com", "1.0.0.1")]);
    let once = rewrite_block(&Vec::new(), OptimizationTarget::Cloudflare, &e);
    assert_eq!(once, lines(&["", "# == Cloudflare ==", "1.0.0.1 cloudflare.com", "# ============"]));
    assert_eq!(rewrite_block(&once, OptimizationTarget::Cloudflare, &e), once);
}

#[test]
fn rewrite_adds_no_separator_after_blank_line() {
    let file = lines(&["x", ""]);
    let out = rewrite_block(&file, OptimizationTarget::GitHub, &entries(&[("github.com", "1.2.3.4")]));
    assert_eq!(out, lines(&["x", "", "# == Github ==", "1.2.3.4 github.com", "# ========="]));
}

#[test]
fn rewrite_with_new_entries_replaces_block_once() {
    let first = rewrite_block(&lines(&["x"]), OptimizationTarget::GitHub, &entries(&[("github.com", "1.2.3.4")]));
    let second = rewrite_block(&first, OptimizationTarget::GitHub, &entries(&[("github.com", "9.9.9.9")]));
    assert_eq!(second, lines(&["x", "", "# == Github ==", "9.9.9.9 github.com", "# ========="]));
}

#[test]
fn resolvers_in_priority_order() {
    assert_eq!(doh_servers(), vec![
        "https://doh.pub/dns-query",
        "https://dns.alidns.com/dns-query",
        "https://cloudflare-dns.com/dns-query",
        "https://dns.google/resolve",
    ]);
}

#[test]
fn query_url_shape() {
    assert_eq!(doh_query_url("https://dns.google/resolve", "github.com"), "https://dns.google/resolve?name=github.com&type=A");
}

#[test]
fn resolver_fallback_uses_second_answer() {
    assert!(matches!(first_step(4), ResolveStep::Query(0)));
    assert!(matches!(step_after(0, 4, Attempt::TimedOut), ResolveStep::Query(1)));
    assert!(matches!(step_after(0, 4, Attempt::Failed), ResolveStep::Query(1)));
    match step_after(1, 4, Attempt::Answered(vec!["140.82.112.3".to_string()])) {
        ResolveStep::Resolved(ips) => assert_eq!(ips, vec!["140.82.112.3".to_string()]),
        other => panic!("unexpected step {:?}", other),
    }
}

#[test]
fn resolver_empty_answer_moves_on_and_exhausts() {
    assert!(matches!(step_after(2, 4, Attempt::Answered(Vec::new())), ResolveStep::Query(3)));
    assert!(matches!(step_after(3, 4, Attempt::Failed), ResolveStep::Exhausted));
    assert!(matches!(first_step(0), ResolveStep::Exhausted));
}

#[test]
fn mean_of_replies() {
    assert_eq!(mean_latency(&vec![10, 20, 31]), Some(20));
    assert_eq!(mean_latency(&vec![7]), Some(7));
    assert_eq!(mean_latency(&Vec::new()), None);
    assert_eq!(mean_latency(&vec![u64::MAX, u64::MAX, u64::MAX]), Some(u64::MAX));
}

#[test]
fn latency_selection_picks_fastest() {
    let probes = vec![
        ("ip1".to_string(), Some(50_000)),
        ("ip2".to_string(), Some(10_000)),
        ("ip3".to_string(), None),
    ];
    let best = pick_fastest(&probes).unwrap();
    assert_eq!(best.ip, "ip2");
    assert_eq!(best.latency_us, 10_000);
}

#[test]
fn latency_selection_unreachable_and_ties() {
    let none = vec![("a".to_string(), None), ("b".to_string(), None)];
    assert!(pick_fastest(&none).is_none());
    assert!(pick_fastest(&Vec::new()).is_none());
    let tie = vec![("a".to_string(), None), ("b".to_string(), Some(5)), ("c".to_string(), Some(5))];
    assert_eq!(pick_fastest(&tie).unwrap().ip, "b");
}

#[test]
fn total_failure_without_any_ip() {
    let best = BestCandidates::new(OptimizationTarget::Cloudflare);
    assert_eq!(best.slots.len(), 8);
    assert!(matches!(finalize(OptimizationTarget::Cloudflare, &best, false), Err(OptimizeError::NoReachableIp)));
    assert!(matches!(finalize(OptimizationTarget::Cloudflare, &best, true), Err(OptimizeError::NoReachableIp)));
}

#[test]
fn core_gap_fails_run() {
    let mut best = BestCandidates::new(OptimizationTarget::Cloudflare);
    best.record(0, candidate("1.1.1.1", 10));
    best.record(4, candidate("2.2.2.2", 10));
    match finalize(OptimizationTarget::Cloudflare, &best, false) {
        Err(OptimizeError::CoreDomainsFailed(v)) => assert_eq!(v, vec!["cloudflare.com".to_string(), "one.one.one.one".to_string()]),
        other => panic!("unexpected {:?}", other),
    }
    match finalize(OptimizationTarget::Cloudflare, &best, true) {
        Err(OptimizeError::CoreDomainsTimedOut(v)) => assert_eq!(v, vec!["cloudflare.com".to_string(), "one.one.one.one".to_string()]),
        other => panic!("unexpected {:?}", other),
    }
}

#[test]
fn deadline_with_core_done_succeeds() {
    let mut best = BestCandidates::new(OptimizationTarget::NexusMods);
    best.record(4, candidate("5.5.5.5", 3));
    best.record(1, candidate("2.2.2.2", 9));
    best.record(0, candidate("1.1.1.1", 7));
    let out = finalize(OptimizationTarget::NexusMods, &best, true).unwrap();
    assert_eq!(out, entries(&[
        ("www.nexusmods.com", "1.1.1.1"),
        ("staticdelivery.nexusmods.com", "2.2.2.2"),
        ("users.nexusmods.com", "5.5.5.5"),
    ]));
}

#[test]
fn record_overwrites_slot() {
    let mut best = BestCandidates::new(OptimizationTarget::NexusMods);
    best.record(0, candidate("1.1.1.1", 7));
    best.record(0, candidate("4.4.4.4", 2));
    best.record(1, candidate("2.2.2.2", 9));
    let out = finalize(OptimizationTarget::NexusMods, &best, false).unwrap();
    assert_eq!(out, entries(&[("www.nexusmods.com", "4.4.4.4"), ("staticdelivery.nexusmods.com", "2.2.2.2")]));
}
