use railway_rs::data::{clean_opt, filter_trains, station_score, tokenize, train_score, Suggestion, TrainRecord};
use railway_rs::retrieval;

fn sample_trains() -> Vec<TrainRecord> {
    vec![
        TrainRecord { number: "12951".into(), name: "MUMBAI RAJDHANI".into() },
        TrainRecord { number: "12952".into(), name: "MUMBAI RAJDHANI".into() },
        TrainRecord { number: "12001".into(), name: "NDLS SHATABDI".into() },
    ]
}

#[test]
fn trains_search_and_limit() {
    let t = sample_trains();
    assert_eq!(filter_trains(&t, "1295", 5).len(), 2);
    assert_eq!(filter_trains(&t, "rajdhani", 1).len(), 1);
    assert_eq!(filter_trains(&t, "12951", 5).len(), 1);
}

#[test]
fn trains_multiword_ranks_all_tokens_first() {
    let t = sample_trains();
    let hits = filter_trains(&t, "mumbai rajdhani", 5);
    assert_eq!(hits.len(), 2);
    assert!(hits.iter().all(|t| t.name.contains("RAJDHANI")));
    assert_eq!(hits[0].number, "12951");
    assert_eq!(hits[1].number, "12952");
}

#[test]
fn trains_ranked_by_score_then_number() {
    let t = vec![
        TrainRecord { number: "22222".into(), name: "X EXPRESS".into() },
        TrainRecord { number: "11111".into(), name: "EXPRESS".into() },
        TrainRecord { number: "00000".into(), name: "X EXPRESS".into() },
    ];
    let hits = filter_trains(&t, "express", 10);
    let numbers: Vec<&str> = hits.iter().map(|h| h.number.as_str()).collect();
    assert_eq!(numbers, vec!["11111", "00000", "22222"]);
    assert!(filter_trains(&t, "   ", 10).is_empty());
}

#[test]
fn train_scores_follow_the_table() {
    let toks = vec!["129".to_string()];
    assert_eq!(train_score("12951", "x", &toks), Some(4));
    let toks = vec!["951".to_string()];
    assert_eq!(train_score("12951", "x", &toks), Some(2));
    let toks = vec!["mumbai".to_string(), "zz".to_string()];
    assert_eq!(train_score("1", "mumbai", &toks), Some(6));
    let toks = vec!["mum".to_string(), "raj".to_string()];
    assert_eq!(train_score("1", "mumbai rajdhani", &toks), Some(5 + 3 + 100));
    let toks = vec!["zz".to_string()];
    assert_eq!(train_score("1", "mumbai", &toks), None);
}

#[test]
fn station_codes_outweigh_names() {
    let toks = vec!["ndls".to_string()];
    assert_eq!(station_score("ndls", "new delhi", &toks), Some(8));
    let toks = vec!["nd".to_string()];
    assert_eq!(station_score("ndls", "new delhi", &toks), Some(6));
    let toks = vec!["delhi".to_string()];
    assert_eq!(station_score("ndls", "new delhi", &toks), Some(2));
}

#[test]
fn query_words_are_trimmed_and_lowercased() {
    assert_eq!(tokenize("  Mumbai   RAJDHANI "), vec!["mumbai".to_string(), "rajdhani".to_string()]);
    assert!(tokenize(" \t ").is_empty());
}

#[test]
fn blank_optional_text_is_absent() {
    assert_eq!(clean_opt(Some("  x ")), Some("x".to_string()));
    assert_eq!(clean_opt(Some("   ")), None);
    assert_eq!(clean_opt(None), None);
}

#[test]
fn train_suggestion_carries_number_only() {
    let s = Suggestion::train("12951", "MUMBAI RAJDHANI");
    assert_eq!(s.kind, "train");
    assert_eq!(s.number.as_deref(), Some("12951"));
    assert!(s.code.is_none() && s.name_hi.is_none() && s.district.is_none());
}

#[test]
fn retrieval_terms_are_ascii_alnum_runs() {
    assert_eq!(
        retrieval::tokenize("New-Delhi (NDLS) 12951!"),
        vec!["new".to_string(), "delhi".to_string(), "ndls".to_string(), "12951".to_string()]
    );
    assert!(retrieval::tokenize("  --  ").is_empty());
}
