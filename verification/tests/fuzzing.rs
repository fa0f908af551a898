use rustbuster::bytes::{contains_bytes, find_from, replace_all};
use rustbuster::candidates::{Candidate, Mode};
use rustbuster::csrf::extract_token;
use rustbuster::fuzz::{fuzz_candidates, substitute_candidate, FuzzList};
use rustbuster::validate::{
    adjust_display, check_target_url, filter_status_tokens, split_header, UrlCheck,
};

fn v(s: &str) -> Vec<u8> {
    s.as_bytes().to_vec()
}

fn fuzz_template(url: &str, body: &str) -> Candidate {
    Candidate {
        mode: Mode::Fuzz,
        identity: v(url),
        method: v("POST"),
        body: v(body),
        headers: vec![(v("Content-Type"), v("application/json"))],
        host_override: None,
    }
}

#[test]
fn replace_all_substitutes_every_occurrence() {
    assert_eq!(replace_all(b"aFUZZbFUZZc", b"FUZZ", b"x"), v("axbxc"));
    assert_eq!(replace_all(b"no marker", b"FUZZ", b"x"), v("no marker"));
    assert_eq!(replace_all(b"", b"FUZZ", b"x"), v(""));
}

#[test]
fn replace_all_scans_left_to_right_without_overlap() {
    assert_eq!(replace_all(b"aaa", b"aa", b"b"), v("ba"));
}

#[test]
fn find_from_first_occurrence() {
    assert_eq!(find_from(b"abcabc", b"bc", 0), Some(1));
    assert_eq!(find_from(b"abcabc", b"bc", 2), Some(4));
    assert_eq!(find_from(b"abcabc", b"zz", 0), None);
    assert!(contains_bytes(b"abcabc", b"cab"));
    assert!(!contains_bytes(b"abc", b"abcd"));
}

#[test]
fn csrf_extraction_scenario() {
    // Fetch body {"csrf":"abc123"}; the pattern's capture is delimited by
    // the literal prefix and suffix around the token.
    let tok = extract_token(b"{\"csrf\":\"abc123\"}", b"{\"csrf\":\"", b"\"}");
    assert_eq!(tok, Some(v("abc123")));
}

#[test]
fn csrf_extraction_failure_is_none() {
    // No match means no token: fuzz mode treats this as a fatal startup
    // error, never as an empty token.
    assert_eq!(extract_token(b"<html>nope</html>", b"{\"csrf\":\"", b"\"}"), None);
    assert_eq!(extract_token(b"{\"csrf\":\"unterminated", b"{\"csrf\":\"", b"\"}"), None);
}

#[test]
fn fuzz_scenario_with_csrf_injection() {
    // Body template {"user":"FUZZ","csrf":"CSRFCSRF"} against wordlist
    // ["alice"], then the captured token abc123 injected at its marker.
    let t = fuzz_template("http://t/login", "{\"user\":\"FUZZ\",\"csrf\":\"CSRFCSRF\"}");
    let lists = vec![FuzzList { marker: v("FUZZ"), words: vec![v("alice")] }];
    let cs = fuzz_candidates(&t, &lists);
    assert_eq!(cs.len(), 1);
    assert_eq!(cs[0].body, v("{\"user\":\"alice\",\"csrf\":\"CSRFCSRF\"}"));

    let token = extract_token(b"{\"csrf\":\"abc123\"}", b"{\"csrf\":\"", b"\"}").unwrap();
    let dispatched = substitute_candidate(&cs[0], b"CSRFCSRF", &token);
    assert_eq!(dispatched.body, v("{\"user\":\"alice\",\"csrf\":\"abc123\"}"));
    assert_eq!(dispatched.identity, v("http://t/login"));
    assert_eq!(dispatched.method, v("POST"));
}

#[test]
fn fuzz_cartesian_product_order() {
    // Two wordlists with the conventional markers: the first list is the
    // most significant position, and FUZZ never swallows FUZZ2 because the
    // longest matching marker wins at each position.
    let t = fuzz_template("http://t/?a=FUZZ&b=FUZZ2", "");
    let lists = vec![
        FuzzList { marker: v("FUZZ"), words: vec![v("1"), v("2")] },
        FuzzList { marker: v("FUZZ2"), words: vec![v("x"), v("y")] },
    ];
    let cs = fuzz_candidates(&t, &lists);
    let urls: Vec<Vec<u8>> = cs.iter().map(|c| c.identity.clone()).collect();
    assert_eq!(
        urls,
        vec![
            v("http://t/?a=1&b=x"),
            v("http://t/?a=1&b=y"),
            v("http://t/?a=2&b=x"),
            v("http://t/?a=2&b=y"),
        ]
    );
}

#[test]
fn fuzz_substitutes_url_body_and_headers() {
    let t = Candidate {
        mode: Mode::Fuzz,
        identity: v("http://t/FUZZ"),
        method: v("GET"),
        body: v("q=FUZZ"),
        headers: vec![(v("X-Probe"), v("FUZZ-probe"))],
        host_override: None,
    };
    let lists = vec![FuzzList { marker: v("FUZZ"), words: vec![v("admin")] }];
    let cs = fuzz_candidates(&t, &lists);
    assert_eq!(cs.len(), 1);
    assert_eq!(cs[0].identity, v("http://t/admin"));
    assert_eq!(cs[0].body, v("q=admin"));
    assert_eq!(cs[0].headers[0].1, v("admin-probe"));
    // The method is never a substitution site.
    assert_eq!(cs[0].method, v("GET"));
}

#[test]
fn url_validation_verdicts() {
    assert_eq!(check_target_url(b"http://localhost:3000/"), UrlCheck::Valid);
    assert_eq!(check_target_url(b"https://example.com/x"), UrlCheck::Valid);
    assert_eq!(check_target_url(b"ftp://example.com/"), UrlCheck::UnsupportedScheme);
    assert_eq!(check_target_url(b"example.com"), UrlCheck::MissingScheme);
    assert_eq!(check_target_url(b""), UrlCheck::Invalid);
    assert_eq!(check_target_url(b"http://exa mple.com/"), UrlCheck::Invalid);
}

#[test]
fn status_token_validation() {
    let toks = vec![v("200"), v("abc"), v(""), v("404"), v("99"), v("1000")];
    let (codes, dropped) = filter_status_tokens(&toks);
    assert_eq!(codes, vec![200u16, 404u16]);
    assert_eq!(dropped, vec![v("abc"), v("99"), v("1000")]);
}

#[test]
fn header_argument_splitting() {
    assert_eq!(
        split_header(b"Content-Type: application/json"),
        (v("Content-Type"), v("application/json"))
    );
    assert_eq!(split_header(b"X-Key:value"), (v("X-Key"), v("value")));
    assert_eq!(split_header(b"X-Key:   spaced"), (v("X-Key"), v("spaced")));
    assert_eq!(split_header(b"NoColon"), (v("NoColon"), v("")));
}

#[test]
fn terminal_size_display_adjustment() {
    // Wide terminal: nothing changes.
    assert_eq!(adjust_display(Some((130, 40)), false, false), (false, false));
    // Under 122 columns the banner goes; under 104 also the progress bar.
    assert_eq!(adjust_display(Some((110, 40)), false, false), (true, false));
    assert_eq!(adjust_display(Some((80, 40)), false, false), (true, true));
    // Unknown size drops both.
    assert_eq!(adjust_display(None, false, false), (true, true));
    // Explicit flags are never overridden back on.
    assert_eq!(adjust_display(Some((130, 40)), true, true), (true, true));
}

#[test]
fn fuzz_empty_wordlist_yields_no_candidates() {
    let t = fuzz_template("http://t/FUZZ", "");
    let lists = vec![FuzzList { marker: v("FUZZ"), words: Vec::new() }];
    assert_eq!(fuzz_candidates(&t, &lists).len(), 0);
}

#[test]
fn fuzz_without_lists_yields_the_template() {
    let t = fuzz_template("http://t/x", "b");
    let cs = fuzz_candidates(&t, &Vec::new());
    assert_eq!(cs.len(), 1);
    assert_eq!(cs[0].identity, v("http://t/x"));
    assert_eq!(cs[0].body, v("b"));
}

#[test]
fn csrf_first_occurrence_wins() {
    let tok = extract_token(b"t=\"one\" t=\"two\"", b"t=\"", b"\"");
    assert_eq!(tok, Some(v("one")));
}

#[test]
fn empty_marker_leaves_input_unchanged() {
    assert_eq!(replace_all(b"abc", b"", b"x"), v("abc"));
}

#[test]
fn fuzz_overlapping_markers_bind_independently() {
    // FUZZ is a prefix of FUZZ2; the simultaneous substitution keeps the
    // two placeholders apart in the body as well.
    let t = fuzz_template("http://t/login", "{\"a\":\"FUZZ\",\"b\":\"FUZZ2\"}");
    let lists = vec![
        FuzzList { marker: v("FUZZ"), words: vec![v("w1")] },
        FuzzList { marker: v("FUZZ2"), words: vec![v("w2")] },
    ];
    let cs = fuzz_candidates(&t, &lists);
    assert_eq!(cs.len(), 1);
    assert_eq!(cs[0].body, v("{\"a\":\"w1\",\"b\":\"w2\"}"));
}

#[test]
fn fuzz_substituted_words_are_not_rescanned() {
    // A word that happens to contain another marker is emitted verbatim.
    let t = fuzz_template("http://t/FUZZ-FUZZ2", "");
    let lists = vec![
        FuzzList { marker: v("FUZZ"), words: vec![v("FUZZ2")] },
        FuzzList { marker: v("FUZZ2"), words: vec![v("z")] },
    ];
    let cs = fuzz_candidates(&t, &lists);
    assert_eq!(cs.len(), 1);
    assert_eq!(cs[0].identity, v("http://t/FUZZ2-z"));
}
