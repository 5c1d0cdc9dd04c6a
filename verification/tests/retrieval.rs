use railway_rs::retrieval::{doc_terms, exact_code_hits, term_frequencies, IndexEntry};

fn entry(kind: &'static str, code: &str, title: &str, detail: &str) -> IndexEntry {
    IndexEntry { kind, code: code.into(), title: title.into(), detail: detail.into() }
}

#[test]
fn documents_are_indexed_under_title_twice_detail_and_code() {
    let e = entry("station", "NDLS", "NEW DELHI", "Delhi Central");
    assert_eq!(doc_terms(&e), vec!["new", "delhi", "new", "delhi", "delhi", "central", "ndls"]);
}

#[test]
fn term_frequencies_count_each_term_once_in_first_seen_order() {
    let terms: Vec<String> = ["new", "delhi", "new", "delhi", "delhi", "ndls"].iter().map(|s| s.to_string()).collect();
    let tf = term_frequencies(&terms);
    assert_eq!(tf, vec![("new".to_string(), 2), ("delhi".to_string(), 3), ("ndls".to_string(), 1)]);
}

#[test]
fn exact_codes_are_found_for_short_alphanumeric_queries_only() {
    let corpus = vec![
        entry("station", "NDLS", "NEW DELHI", ""),
        entry("train", "12951", "RAJDHANI", ""),
        entry("station", "ndls", "DUPLICATE", ""),
    ];
    assert_eq!(exact_code_hits(&corpus, " ndls "), vec![0, 2]);
    assert_eq!(exact_code_hits(&corpus, "12951"), vec![1]);
    assert!(exact_code_hits(&corpus, "n").is_empty(), "too short");
    assert!(exact_code_hits(&corpus, "new delhi").is_empty(), "not one code");
    assert!(exact_code_hits(&corpus, "1234567").is_empty(), "too long");
}
