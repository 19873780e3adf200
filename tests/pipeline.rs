use index_harvest::aggregate::{Aggregate, CandidateOutcome, Entry};
use index_harvest::config::{CommitmentConfig, VerifierConfig};
use index_harvest::dispatch::Dispatcher;
use index_harvest::enumerate::Pager;
use index_harvest::error::HarvestError;
use index_harvest::fetch::{
    blob_url_string, classify_status, commitment_outcome, contents_url_string, has_file,
    raw_url_string, select_dirs, select_json_files, sublisting_outcome, tags_url_string,
    verifier_outcome, ContentItem, ContentKind, ListingReply,
};

fn s(x: &str) -> String {
    x.to_string()
}

fn names(v: &[&str]) -> Vec<String> {
    v.iter().map(|x| x.to_string()).collect()
}

fn entry(k: &str, v: &str) -> Entry {
    Entry { key: s(k), value: s(v), url: s("u"), description: s("d") }
}

fn keys(a: &Aggregate) -> Vec<String> {
    a.entries.iter().map(|e| e.key.clone()).collect()
}

fn item(name: &str, path: &str, kind: ContentKind) -> ContentItem {
    ContentItem { name: s(name), path: s(path), kind }
}

#[test]
fn prefix_filter_keeps_matching_tags() {
    let mut p = Pager::new(s("v"), None);
    assert_eq!(p.next_page(), Some(1));
    p.accept_page(&names(&["v1.0.0", "v1.1.0", "beta1"]));
    assert_eq!(p.next_page(), Some(2));
    p.accept_page(&vec![]);
    assert_eq!(p.next_page(), None);
    assert_eq!(p.finish().unwrap(), names(&["v1.0.0", "v1.1.0"]));
}

#[test]
fn pagination_requests_through_the_empty_page() {
    // Five items at two per page: three full or short pages, then an empty one.
    let pages = vec![names(&["v1", "v2"]), names(&["v3", "v4"]), names(&["v5"]), vec![]];
    let mut p = Pager::new(s(""), None);
    let mut asked = Vec::new();
    let mut k = 0;
    while let Some(n) = p.next_page() {
        asked.push(n);
        p.accept_page(&pages[k]);
        k += 1;
    }
    assert_eq!(asked, vec![1, 2, 3, 4]);
    assert_eq!(p.requested, 4);
    assert_eq!(p.finish().unwrap(), names(&["v1", "v2", "v3", "v4", "v5"]));
}

#[test]
fn short_page_does_not_end_pagination() {
    let mut p = Pager::new(s("v"), None);
    p.accept_page(&names(&["v1"]));
    assert_eq!(p.next_page(), Some(2));
}

#[test]
fn max_count_truncates_and_stops() {
    let mut p = Pager::new(s("v"), Some(2));
    p.accept_page(&names(&["v1", "x", "v2", "v3"]));
    assert_eq!(p.next_page(), None);
    assert_eq!(p.finish().unwrap(), names(&["v1", "v2"]));
}

#[test]
fn empty_filtered_result_is_an_error() {
    let mut p = Pager::new(s("v"), None);
    p.accept_page(&names(&["beta1", "alpha"]));
    p.accept_page(&vec![]);
    assert_eq!(p.finish().unwrap_err(), HarvestError::EmptyResult);
}

#[test]
fn empty_first_page_is_an_empty_result() {
    let mut p = Pager::new(s("v"), None);
    p.accept_page(&vec![]);
    assert_eq!(p.finish().unwrap_err(), HarvestError::EmptyResult);
}

#[test]
fn absence_is_not_failure() {
    let out = sublisting_outcome(404, &s("X"));
    assert!(matches!(out, Some(CandidateOutcome::Absent)));
    let mut a = Aggregate::new();
    a.absorb(&CandidateOutcome::Extracted(vec![entry("k", "v")]));
    a.absorb(&out.unwrap());
    assert_eq!(keys(&a), names(&["k"]));
}

#[test]
fn status_classification() {
    assert_eq!(classify_status(200), ListingReply::Listed);
    assert_eq!(classify_status(404), ListingReply::Absent);
    assert_eq!(classify_status(403), ListingReply::Failed);
    assert_eq!(classify_status(500), ListingReply::Failed);
    assert_eq!(classify_status(204), ListingReply::Listed);
    assert_eq!(classify_status(302), ListingReply::Failed);
    assert_eq!(classify_status(101), ListingReply::Failed);
    assert_eq!(classify_status(600), ListingReply::Failed);
    assert!(sublisting_outcome(200, &s("X")).is_none());
    match sublisting_outcome(502, &s("X")) {
        Some(CandidateOutcome::FetchFailed(m)) => assert_eq!(m, "X"),
        _ => panic!("expected a fetch failure"),
    }
}

#[test]
fn sort_invariant_whatever_the_merge_order() {
    let mut a = Aggregate::new();
    for k in ["m", "b", "z", "a", "ab", "B"] {
        a.insert(entry(k, "1"));
    }
    assert_eq!(keys(&a), names(&["B", "a", "ab", "b", "m", "z"]));
    let mut b = Aggregate::new();
    for k in ["z", "ab", "a", "B", "m", "b"] {
        b.insert(entry(k, "1"));
    }
    assert_eq!(keys(&a), keys(&b));
    assert_eq!(a.len(), 6);
}

#[test]
fn later_contribution_replaces_earlier_value() {
    let mut a = Aggregate::new();
    a.merge(&vec![entry("k", "first"), entry("j", "x")]);
    a.merge(&vec![entry("k", "second")]);
    assert_eq!(keys(&a), names(&["j", "k"]));
    assert_eq!(a.entries[1].value, "second");
}

#[test]
fn same_contributions_give_same_items() {
    let c1 = vec![entry("t1/a", "1"), entry("t1/b", "2")];
    let c2 = vec![entry("t2/a", "3"), entry("t1/b", "2")];
    let mut x = Aggregate::new();
    x.merge(&c1);
    x.merge(&c2);
    let mut y = Aggregate::new();
    y.merge(&c2);
    y.merge(&c1);
    let ox = x.finish_at(s("src"), s("2024-01-01T00:00:00Z"));
    let oy = y.finish_at(s("src"), s("2024-06-01T00:00:00Z"));
    let vx: Vec<(String, String)> = ox.items.iter().map(|e| (e.key.clone(), e.value.clone())).collect();
    let vy: Vec<(String, String)> = oy.items.iter().map(|e| (e.key.clone(), e.value.clone())).collect();
    assert_eq!(vx, vy);
    assert_ne!(ox.fetched_at, oy.fetched_at);
    assert_eq!(ox.source, "src");
}

#[test]
fn one_failed_candidate_is_isolated() {
    let outcomes = vec![
        CandidateOutcome::Extracted(vec![entry("a", "1")]),
        CandidateOutcome::FetchFailed(s("boom")),
        CandidateOutcome::Extracted(vec![entry("c", "3")]),
        CandidateOutcome::ExtractFailed(s("bad")),
        CandidateOutcome::Extracted(vec![entry("b", "2")]),
    ];
    let mut a = Aggregate::new();
    for o in &outcomes {
        a.absorb(o);
    }
    assert_eq!(keys(&a), names(&["a", "b", "c"]));
}

#[test]
fn dispatcher_bounds_in_flight() {
    let mut d = Dispatcher::new(5, 2);
    assert_eq!(d.try_start(), Some(0));
    assert_eq!(d.try_start(), Some(1));
    assert_eq!(d.try_start(), None);
    d.complete();
    assert_eq!(d.try_start(), Some(2));
    d.complete();
    d.complete();
    assert_eq!(d.try_start(), Some(3));
    assert_eq!(d.try_start(), Some(4));
    assert_eq!(d.try_start(), None);
    assert!(!d.is_finished());
    d.complete();
    d.complete();
    assert!(d.is_finished());
}

#[test]
fn dispatcher_zero_limit_counts_as_one() {
    let mut d = Dispatcher::new(2, 0);
    assert_eq!(d.limit, 1);
    assert_eq!(d.try_start(), Some(0));
    assert_eq!(d.try_start(), None);
}

#[test]
fn listing_filters() {
    let items = vec![
        item("a.json", "tools/verifier/a.json", ContentKind::File),
        item("b.txt", "tools/verifier/b.txt", ContentKind::File),
        item("c.json", "tools/verifier/c.json", ContentKind::Dir),
        item("d.json", "tools/verifier/d.json", ContentKind::File),
    ];
    let files = select_json_files(&items);
    let got: Vec<String> = files.iter().map(|f| f.path.clone()).collect();
    assert_eq!(got, names(&["tools/verifier/a.json", "tools/verifier/d.json"]));
    assert_eq!(select_dirs(&items).unwrap(), names(&["c.json"]));
    assert!(has_file(&items, &s("a.json")));
    assert!(!has_file(&items, &s("c.json")));
    let none = vec![item("x", "x", ContentKind::File)];
    assert_eq!(select_dirs(&none).unwrap_err(), HarvestError::EmptyResult);
}

#[test]
fn urls() {
    assert_eq!(
        tags_url_string(&s("o"), &s("r"), 100, 12),
        "https://api.github.com/repos/o/r/tags?per_page=100&page=12"
    );
    assert_eq!(
        contents_url_string(&s("o"), &s("r"), &s("p/q"), &s("v1")),
        "https://api.github.com/repos/o/r/contents/p/q?ref=v1"
    );
    assert_eq!(
        raw_url_string(&s("o"), &s("r"), &s("v1"), &s("p/a.json")),
        "https://raw.githubusercontent.com/o/r/v1/p/a.json"
    );
    assert_eq!(
        blob_url_string(&s("o"), &s("r"), &s("v1"), &s("p/a.json")),
        "https://github.com/o/r/blob/v1/p/a.json"
    );
}

#[test]
fn verifier_file_outcome() {
    let h1 = format!("0x{}", "a".repeat(64));
    let h2 = format!("0x{}", "b".repeat(64));
    let text = format!(
        "{{\"a\":{{\"bytecode_hash_hex\":\"{}\"}},\"list\":[{{\"params_hex\":\"{}\"}}]}}",
        h1, h2
    );
    let out = verifier_outcome(&s("zksync-airbender"), &s("v1"), &s("f.json"), &s("U"), &s("p/f.json"), &text);
    match out {
        CandidateOutcome::Extracted(es) => {
            assert_eq!(es.len(), 2);
            assert_eq!(es[0].key, "v1/f.json/bytecode");
            assert_eq!(es[0].value, h1);
            assert_eq!(es[0].description, "Bytecode hash for f.json for tag v1 in zksync-airbender");
            assert_eq!(es[1].key, "v1/f.json/params");
            assert_eq!(es[1].value, h2);
            assert_eq!(es[1].url, "U");
        }
        _ => panic!("expected entries"),
    }
    let bad = verifier_outcome(&s("r"), &s("v1"), &s("f.json"), &s("U"), &s("p/f.json"), &s("{not json"));
    match bad {
        CandidateOutcome::ExtractFailed(m) => assert_eq!(m, "p/f.json: invalid JSON"),
        _ => panic!("expected a parse failure"),
    }
}

#[test]
fn commitment_file_outcome() {
    let h = format!("0x{}", "C".repeat(64));
    let text = format!("{{\"leaf\":\"{h}\",\"arr\":[\"0x12\",{{\"x\":\"{h}\"}}],\"n\":5}}");
    match commitment_outcome(&s("zksync-era"), &s("24"), &s("U"), &s("RAW"), &text) {
        CandidateOutcome::Extracted(es) => {
            let ks: Vec<String> = es.iter().map(|e| e.key.clone()).collect();
            let mut sorted = ks.clone();
            sorted.sort();
            assert_eq!(sorted, names(&["24.arr[1].x", "24.leaf"]));
            assert!(es.iter().all(|e| e.value == h));
            let leaf = es.iter().find(|e| e.key == "24.leaf").unwrap();
            assert_eq!(leaf.description, "Boojum Hash for 24.leaf version 24 in zksync-era");
        }
        _ => panic!("expected entries"),
    }
    match commitment_outcome(&s("zksync-era"), &s("24"), &s("U"), &s("RAW"), &s("nope")) {
        CandidateOutcome::ExtractFailed(m) => assert_eq!(m, "RAW: invalid JSON"),
        _ => panic!("expected a parse failure"),
    }
}

#[test]
fn config_defaults_and_sources() {
    let v = VerifierConfig::default();
    assert_eq!(v.owner, "matter-labs");
    assert_eq!(v.parallel, 16);
    assert_eq!(v.max_tags, None);
    assert_eq!(v.source(), "matter-labs/zksync-airbender/tools/verifier");
    let c = CommitmentConfig::default();
    assert_eq!(c.source(), "matter-labs/zksync-era/prover/data/historical_data/main");
    assert_eq!(c.out_path, "commitments.json");
}
