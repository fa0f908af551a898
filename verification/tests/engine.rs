use rustbuster::candidates::{path_candidates, vhost_candidates, Mode, RequestTemplate};
use rustbuster::executor::{dns_outcome, error_outcome, http_outcome};
use rustbuster::dispatch::Dispatcher;
use rustbuster::filter::{accepts_exec, validate_policy, FilterPolicy};
use rustbuster::session::{same_key, throughput, CancelReason, ProbeOutcome, ScanSession};

fn v(s: &str) -> Vec<u8> {
    s.as_bytes().to_vec()
}

fn policy(inc: Vec<u16>, exc: Vec<u16>) -> FilterPolicy {
    FilterPolicy {
        include_codes: inc,
        exclude_codes: exc,
        include_body: Vec::new(),
        exclude_body: Vec::new(),
    }
}

fn outcome(mode: Mode, identity: &str, method: &str, status: u16) -> ProbeOutcome {
    ProbeOutcome {
        mode,
        identity: v(identity),
        method: v(method),
        status,
        resolved: false,
        resolved_addresses: Vec::new(),
        body_excerpt: None,
        ignored: false,
        elapsed_ms: 0,
        error: None,
    }
}

#[test]
fn path_scenario_one_accepted_result() {
    // Candidates admin, admin.php, login, login.php; exclude {404}; a probe
    // returning 200 for admin and 404 for the rest yields exactly one
    // accepted result: (admin, 200).
    let words = vec![v("admin"), v("login")];
    let exts = vec![v("php")];
    let t = RequestTemplate { method: v("GET"), body: Vec::new(), headers: Vec::new() };
    let cs = path_candidates(b"", &words, &exts, false, &t);
    assert_eq!(cs.len(), 4);

    let mut session = ScanSession::new(policy(Vec::new(), vec![404]), false);
    for c in &cs {
        let status = if c.identity == v("admin") { 200 } else { 404 };
        let o = outcome(Mode::Path, std::str::from_utf8(&c.identity).unwrap(), "GET", status);
        let d = session.process_outcome(o);
        assert!(!d.cancel);
    }
    assert_eq!(session.accepted.len(), 1);
    assert_eq!(session.accepted[0].identity, v("admin"));
    assert_eq!(session.accepted[0].status, 200);
}

#[test]
fn outcome_count_matches_candidates() {
    // Absent cancellation, the aggregator receives one outcome per
    // generated candidate.
    let total = 4;
    let mut d = Dispatcher::new(total);
    let mut session = ScanSession::new(policy(Vec::new(), vec![404]), false);
    let mut received = 0;
    while let Some(i) = d.pull() {
        let o = outcome(Mode::Path, &format!("c{}", i), "GET", 200);
        d.record_outcome();
        let dir = session.process_outcome(o);
        assert!(!dir.cancel);
        received += 1;
    }
    assert_eq!(received, total);
    assert!(d.drained());
    assert!(d.finished_naturally());
    assert_eq!(session.stats.completed_count, total as u64);
}

#[test]
fn dispatcher_hands_out_each_candidate_once_in_order() {
    let mut d = Dispatcher::new(3);
    assert_eq!(d.pull(), Some(0));
    assert_eq!(d.pull(), Some(1));
    assert_eq!(d.pull(), Some(2));
    assert_eq!(d.pull(), None);
}

#[test]
fn cancellation_stops_new_dispatch_but_not_in_flight() {
    let mut d = Dispatcher::new(10);
    assert_eq!(d.pull(), Some(0));
    assert_eq!(d.pull(), Some(1));
    assert_eq!(d.in_flight(), 2);
    d.cancel();
    // No new candidate is pulled once the flag is set.
    assert_eq!(d.pull(), None);
    assert_eq!(d.pull(), None);
    assert_eq!(d.next, 2);
    // In-flight probes still complete and drain the run.
    d.record_outcome();
    d.record_outcome();
    assert!(d.drained());
    assert!(!d.finished_naturally());
}

#[test]
fn dedup_no_two_accepted_share_key() {
    let mut session = ScanSession::new(policy(Vec::new(), vec![404]), false);
    let a = outcome(Mode::Path, "http://t/admin", "GET", 200);
    let b = outcome(Mode::Path, "http://t/admin", "GET", 200);
    let c = outcome(Mode::Path, "http://t/admin", "GET", 301);
    let d1 = session.process_outcome(a);
    assert!(d1.accepted && d1.display);
    let d2 = session.process_outcome(b);
    assert!(!d2.accepted && !d2.display);
    let d3 = session.process_outcome(c);
    assert!(d3.accepted);
    assert_eq!(session.accepted.len(), 2);
    for i in 0..session.accepted.len() {
        for j in 0..session.accepted.len() {
            if i != j {
                assert!(!same_key(&session.accepted[i], &session.accepted[j]));
            }
        }
    }
}

#[test]
fn first_outcome_error_cancels_run() {
    let mut session = ScanSession::new(policy(Vec::new(), vec![404]), false);
    let mut o = outcome(Mode::Path, "http://t/a", "GET", 0);
    o.error = Some(v("connection refused"));
    let d = session.process_outcome(o);
    assert!(d.cancel);
    assert_eq!(d.reason, Some(CancelReason::TargetUnreachable));
    assert!(!d.accepted);
    assert_eq!(session.accepted.len(), 0);
}

#[test]
fn later_error_does_not_cancel_without_flag() {
    let mut session = ScanSession::new(policy(Vec::new(), vec![404]), false);
    let ok = outcome(Mode::Path, "http://t/a", "GET", 200);
    assert!(!session.process_outcome(ok).cancel);
    let mut bad = outcome(Mode::Path, "http://t/b", "GET", 0);
    bad.error = Some(v("timeout"));
    let d = session.process_outcome(bad);
    assert!(!d.cancel);
    assert_eq!(d.reason, None);
}

#[test]
fn later_error_cancels_with_exit_on_error() {
    let mut session = ScanSession::new(policy(Vec::new(), vec![404]), true);
    let ok = outcome(Mode::Path, "http://t/a", "GET", 200);
    assert!(!session.process_outcome(ok).cancel);
    let mut bad = outcome(Mode::Path, "http://t/b", "GET", 0);
    bad.error = Some(v("timeout"));
    let d = session.process_outcome(bad);
    assert!(d.cancel);
    assert_eq!(d.reason, Some(CancelReason::ExitOnErrorConfigured));
}

#[test]
fn include_codes_win_over_default() {
    let p = policy(vec![200, 301], Vec::new());
    assert!(accepts_exec(&p, 200, b""));
    assert!(accepts_exec(&p, 301, b""));
    assert!(!accepts_exec(&p, 404, b""));
    assert!(!accepts_exec(&p, 500, b""));
}

#[test]
fn exclude_codes_reject_only_listed() {
    let p = policy(Vec::new(), vec![404]);
    assert!(accepts_exec(&p, 200, b""));
    assert!(accepts_exec(&p, 500, b""));
    assert!(!accepts_exec(&p, 404, b""));
}

#[test]
fn body_substring_filters() {
    let inc = FilterPolicy {
        include_codes: Vec::new(),
        exclude_codes: Vec::new(),
        include_body: vec![v("Welcome")],
        exclude_body: Vec::new(),
    };
    assert!(accepts_exec(&inc, 200, b"Welcome home"));
    assert!(!accepts_exec(&inc, 200, b"Not found"));
    let exc = FilterPolicy {
        include_codes: Vec::new(),
        exclude_codes: Vec::new(),
        include_body: Vec::new(),
        exclude_body: vec![v("Error")],
    };
    assert!(accepts_exec(&exc, 200, b"all good"));
    assert!(!accepts_exec(&exc, 200, b"Error: nope"));
}

#[test]
fn filter_is_idempotent_on_same_outcome() {
    let p = policy(Vec::new(), vec![404]);
    let first = accepts_exec(&p, 200, b"body");
    for _ in 0..3 {
        assert_eq!(accepts_exec(&p, 200, b"body"), first);
    }
}

#[test]
fn conflicting_policy_rejected_at_startup() {
    let both_codes = policy(vec![200], vec![404]);
    assert!(!validate_policy(&both_codes));
    let both_bodies = FilterPolicy {
        include_codes: Vec::new(),
        exclude_codes: Vec::new(),
        include_body: vec![v("a")],
        exclude_body: vec![v("b")],
    };
    assert!(!validate_policy(&both_bodies));
    assert!(validate_policy(&policy(vec![200], Vec::new())));
    assert!(validate_policy(&policy(Vec::new(), vec![404])));
}

#[test]
fn dns_scenario_one_resolved_result() {
    // www.example.com. resolves to one IPv4 address, mail.example.com.
    // fails: exactly one accepted result carrying one address.
    let mut session = ScanSession::new(policy(Vec::new(), Vec::new()), false);
    let mut www = outcome(Mode::Dns, "www.example.com.", "", 0);
    www.resolved = true;
    www.resolved_addresses = vec![v("93.184.216.34")];
    let d1 = session.process_outcome(www);
    assert!(d1.accepted && d1.display);
    let mail = outcome(Mode::Dns, "mail.example.com.", "", 0);
    let d2 = session.process_outcome(mail);
    assert!(!d2.accepted && !d2.display);
    assert_eq!(session.accepted.len(), 1);
    assert_eq!(session.accepted[0].identity, v("www.example.com."));
    assert_eq!(session.accepted[0].resolved_addresses.len(), 1);
}

#[test]
fn vhost_scenario_ignore_string() {
    // Ignore-string "Hello": a response body containing "Hello World" sets
    // the ignored flag at probe time and yields zero accepted results; a
    // body "Welcome" yields one.
    let ignore = vec![v("Hello")];
    let t = RequestTemplate { method: v("GET"), body: Vec::new(), headers: Vec::new() };
    let cs = vhost_candidates(&vec![v("staging")], b"example.com", b"http://example.com/", &t);
    let mut session = ScanSession::new(policy(Vec::new(), Vec::new()), false);

    let o1 = http_outcome(&cs[0], 200, v("Hello World"), false, &ignore, 3);
    assert!(o1.ignored);
    assert_eq!(o1.identity, v("staging.example.com"));
    let d1 = session.process_outcome(o1);
    assert!(!d1.accepted && !d1.display);
    assert_eq!(session.accepted.len(), 0);

    let o2 = http_outcome(&cs[0], 200, v("Welcome"), false, &ignore, 3);
    assert!(!o2.ignored);
    let d2 = session.process_outcome(o2);
    assert!(d2.accepted && d2.display);
    assert_eq!(session.accepted.len(), 1);
}

#[test]
fn http_outcome_keeps_body_only_when_filtering_asks() {
    let t = RequestTemplate { method: v("GET"), body: Vec::new(), headers: Vec::new() };
    let cs = path_candidates(b"http://t/", &vec![v("admin")], &Vec::new(), false, &t);
    let with_body = http_outcome(&cs[0], 200, v("payload"), true, &Vec::new(), 1);
    assert_eq!(with_body.body_excerpt, Some(v("payload")));
    let without = http_outcome(&cs[0], 200, v("payload"), false, &Vec::new(), 1);
    assert_eq!(without.body_excerpt, None);
    assert_eq!(without.status, 200);
    assert_eq!(without.identity, v("http://t/admin"));
}

#[test]
fn dns_outcome_resolved_iff_addresses() {
    let words = vec![v("www")];
    let cs = rustbuster::candidates::dns_candidates(&words, b"example.com");
    let hit = dns_outcome(&cs[0], vec![v("93.184.216.34")], 2);
    assert!(hit.resolved);
    assert_eq!(hit.resolved_addresses, vec![v("93.184.216.34")]);
    let miss = dns_outcome(&cs[0], Vec::new(), 2);
    assert!(!miss.resolved);
}

#[test]
fn error_outcome_captures_failure() {
    let t = RequestTemplate { method: v("GET"), body: Vec::new(), headers: Vec::new() };
    let cs = path_candidates(b"http://t/", &vec![v("admin")], &Vec::new(), false, &t);
    let o = error_outcome(&cs[0], v("connection refused"), 5);
    assert_eq!(o.error, Some(v("connection refused")));
    assert_eq!(o.identity, v("http://t/admin"));
    assert_eq!(o.elapsed_ms, 5);
}

#[test]
fn throughput_formula() {
    assert_eq!(throughput(10, 0), None);
    assert_eq!(throughput(10, 2), Some(5));
    assert_eq!(throughput(7, 2), Some(3));
    assert_eq!(throughput(0, 5), Some(0));
}

#[test]
fn fuzz_duplicate_still_displayed() {
    // A deduplicated fuzz result is not re-added but stays eligible for
    // display: cartesian products may hit one effective URL repeatedly.
    let mut session = ScanSession::new(policy(Vec::new(), vec![404]), false);
    let first = outcome(Mode::Fuzz, "http://t/login?u=alice", "POST", 200);
    let again = outcome(Mode::Fuzz, "http://t/login?u=alice", "POST", 200);
    let d1 = session.process_outcome(first);
    assert!(d1.accepted && d1.display);
    let d2 = session.process_outcome(again);
    assert!(!d2.accepted);
    assert!(d2.display);
    assert_eq!(session.accepted.len(), 1);
}
