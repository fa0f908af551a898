use rustbuster::candidates::{dns_candidates, path_candidates, vhost_candidates, Mode, RequestTemplate};
use rustbuster::wordlist::{parse_wordlist, sanitize_tokens};

fn v(s: &str) -> Vec<u8> {
    s.as_bytes().to_vec()
}

fn get_template() -> RequestTemplate {
    RequestTemplate { method: v("GET"), body: Vec::new(), headers: Vec::new() }
}

#[test]
fn wordlist_basic_lines() {
    let words = parse_wordlist(b"admin\nlogin\n");
    assert_eq!(words, vec![v("admin"), v("login")]);
}

#[test]
fn wordlist_blank_lines_dropped() {
    let words = parse_wordlist(b"admin\n\n\nlogin\n\n");
    assert_eq!(words, vec![v("admin"), v("login")]);
}

#[test]
fn wordlist_crlf_stripped() {
    let words = parse_wordlist(b"admin\r\nlogin\r\n");
    assert_eq!(words, vec![v("admin"), v("login")]);
}

#[test]
fn wordlist_last_line_without_newline() {
    let words = parse_wordlist(b"admin\nlogin");
    assert_eq!(words, vec![v("admin"), v("login")]);
}

#[test]
fn wordlist_empty_input() {
    let words = parse_wordlist(b"");
    assert!(words.is_empty());
}

#[test]
fn wordlist_duplicates_preserved() {
    let words = parse_wordlist(b"a\na\nb\n");
    assert_eq!(words, vec![v("a"), v("a"), v("b")]);
}

#[test]
fn extensions_empty_strings_removed() {
    let exts = vec![v("php"), v(""), v("html"), v("")];
    assert_eq!(sanitize_tokens(&exts), vec![v("php"), v("html")]);
}

#[test]
fn path_scenario_admin_login_php() {
    // Wordlist ["admin","login"], extensions ["php"], append-slash off:
    // four candidates, in wordlist order with the bare path first.
    let words = vec![v("admin"), v("login")];
    let exts = vec![v("php")];
    let t = get_template();
    let cs = path_candidates(b"", &words, &exts, false, &t);
    let ids: Vec<Vec<u8>> = cs.iter().map(|c| c.identity.clone()).collect();
    assert_eq!(ids, vec![v("admin"), v("admin.php"), v("login"), v("login.php")]);
    assert_eq!(cs.len(), 4);
    assert!(cs.iter().all(|c| c.mode == Mode::Path));
    assert!(cs.iter().all(|c| c.method == v("GET")));
    assert!(cs.iter().all(|c| c.host_override.is_none()));
}

#[test]
fn path_base_url_prefixes_every_identity() {
    let words = vec![v("admin")];
    let exts: Vec<Vec<u8>> = Vec::new();
    let t = get_template();
    let cs = path_candidates(b"http://localhost:3000/", &words, &exts, false, &t);
    assert_eq!(cs.len(), 1);
    assert_eq!(cs[0].identity, v("http://localhost:3000/admin"));
}

#[test]
fn path_append_slash_adds_one_variant_per_word() {
    let words = vec![v("admin")];
    let exts = vec![v("php")];
    let t = get_template();
    let cs = path_candidates(b"", &words, &exts, true, &t);
    let ids: Vec<Vec<u8>> = cs.iter().map(|c| c.identity.clone()).collect();
    assert_eq!(ids, vec![v("admin"), v("admin.php"), v("admin/")]);
}

#[test]
fn path_generation_deterministic() {
    // Two runs over the same wordlist and template yield the same ordered
    // sequence; the worker count is no input to generation at all.
    let words = vec![v("a"), v("b"), v("c")];
    let exts = vec![v("php"), v("txt")];
    let t = get_template();
    let first = path_candidates(b"http://t/", &words, &exts, true, &t);
    let second = path_candidates(b"http://t/", &words, &exts, true, &t);
    let ids1: Vec<Vec<u8>> = first.iter().map(|c| c.identity.clone()).collect();
    let ids2: Vec<Vec<u8>> = second.iter().map(|c| c.identity.clone()).collect();
    assert_eq!(ids1, ids2);
}

#[test]
fn dns_scenario_www_mail() {
    // Wordlist ["www","mail"], domain example.com: canonical absolute names.
    let words = vec![v("www"), v("mail")];
    let cs = dns_candidates(&words, b"example.com");
    let ids: Vec<Vec<u8>> = cs.iter().map(|c| c.identity.clone()).collect();
    assert_eq!(ids, vec![v("www.example.com."), v("mail.example.com.")]);
    assert!(cs.iter().all(|c| c.mode == Mode::Dns));
}

#[test]
fn vhost_scenario_staging_host_override() {
    // Wordlist ["staging"], domain example.com: the probe goes to the
    // original URL with a host override of staging.example.com.
    let words = vec![v("staging")];
    let t = get_template();
    let cs = vhost_candidates(&words, b"example.com", b"http://example.com/", &t);
    assert_eq!(cs.len(), 1);
    assert_eq!(cs[0].mode, Mode::Vhost);
    assert_eq!(cs[0].identity, v("http://example.com/"));
    assert_eq!(cs[0].host_override, Some(v("staging.example.com")));
}

#[test]
fn wordlist_to_candidates_end_to_end() {
    // Raw file contents straight through expansion: blank lines never reach
    // the candidate set.
    let words = parse_wordlist(b"admin\n\nlogin\n");
    let t = get_template();
    let cs = path_candidates(b"http://t/", &words, &Vec::new(), false, &t);
    let ids: Vec<Vec<u8>> = cs.iter().map(|c| c.identity.clone()).collect();
    assert_eq!(ids, vec![v("http://t/admin"), v("http://t/login")]);
}
