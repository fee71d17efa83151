use torrentai::models::{Action, EvaluatedResult, PipelineError, TorrentResult};
use torrentai::smart_search::{decide, deduplicate_results, merge_source_results, rank};
use torrentai::urlencoding::encode;
use torrentai::prompts::{build_parse_prompt, build_evaluation_prompt,
    build_query_generation_prompt};
use torrentai::models::{ContentType, SearchIntent, TvDetails};

fn record(title: &str, link: &str) -> TorrentResult {
    TorrentResult {
        title: String::from(title),
        magnet_link: String::from(link),
        size: None,
        seeders: None,
        leechers: None,
        uploaded: None,
    }
}

fn scored(title: &str, link: &str, relevance: u32, confidence: u32) -> EvaluatedResult {
    EvaluatedResult {
        torrent: record(title, link),
        relevance_score: relevance,
        confidence,
        match_reasons: vec![],
        warnings: vec![],
        quality_score: 0,
        completeness_score: 0,
    }
}

#[test]
fn dedup_keeps_first_per_identity() {
    let input = vec![
        record("first a", "magnet:a"),
        record("b", "magnet:b"),
        record("second a", "magnet:a"),
        record("c", "magnet:c"),
        record("second b", "magnet:b"),
    ];
    let out = deduplicate_results(input);
    assert_eq!(out.len(), 3);
    assert_eq!(out[0].title, "first a");
    assert_eq!(out[1].title, "b");
    assert_eq!(out[2].title, "c");
}

#[test]
fn dedup_no_duplicates_is_identity() {
    let input = vec![record("a", "magnet:a"), record("b", "magnet:b")];
    let out = deduplicate_results(input.clone());
    assert_eq!(out, input);
}

#[test]
fn dedup_empty() {
    assert!(deduplicate_results(vec![]).is_empty());
}

#[test]
fn rank_sorts_descending_and_filters() {
    let evs = vec![
        scored("low", "magnet:a", 300, 900),
        scored("high", "magnet:b", 950, 800),
        scored("dropped", "magnet:c", 999, 600),
        scored("mid", "magnet:d", 700, 700),
    ];
    let out = rank(evs, 700);
    assert_eq!(out.len(), 3);
    assert_eq!(out[0].torrent.title, "high");
    assert_eq!(out[1].torrent.title, "mid");
    assert_eq!(out[2].torrent.title, "low");
    for w in out.windows(2) {
        assert!(w[0].relevance_score >= w[1].relevance_score);
    }
    for e in &out {
        assert!(e.confidence >= 700);
    }
}

#[test]
fn rank_confidence_boundary_inclusive() {
    let evs = vec![scored("edge", "magnet:a", 500, 700)];
    let out = rank(evs, 700);
    assert_eq!(out.len(), 1);
}

#[test]
fn rank_ties_keep_evaluation_order() {
    let evs = vec![
        scored("first", "magnet:a", 800, 900),
        scored("second", "magnet:b", 800, 900),
        scored("third", "magnet:c", 800, 900),
    ];
    let out = rank(evs, 0);
    let titles: Vec<&str> = out.iter().map(|e| e.torrent.title.as_str()).collect();
    assert_eq!(titles, vec!["first", "second", "third"]);
}

#[test]
fn rank_empty_when_nothing_confident() {
    let evs = vec![scored("a", "magnet:a", 990, 100), scored("b", "magnet:b", 980, 200)];
    assert!(rank(evs, 700).is_empty());
}

#[test]
fn decide_download_at_threshold() {
    // Top relevance 0.92 against the default unattended threshold of 0.9.
    let ranked = vec![scored("top", "magnet:top", 920, 950)];
    assert_eq!(
        decide(&ranked, true, torrentai::smart_search::AUTO_DOWNLOAD_THRESHOLD),
        Action::Download(String::from("magnet:top"))
    );
}

#[test]
fn decide_manual_below_threshold() {
    let ranked = vec![scored("top", "magnet:top", 850, 950)];
    assert_eq!(
        decide(&ranked, true, 900),
        Action::SuggestManual(String::from("magnet:top"))
    );
}

#[test]
fn decide_manual_when_not_auto() {
    let ranked = vec![scored("top", "magnet:top", 990, 950)];
    assert_eq!(
        decide(&ranked, false, 900),
        Action::SuggestManual(String::from("magnet:top"))
    );
}

#[test]
fn decide_nothing_on_empty() {
    assert_eq!(decide(&vec![], true, 900), Action::NoAction);
}

#[test]
fn merge_all_sources_succeed() {
    let outcomes = vec![
        Ok(vec![record("a", "magnet:a"), record("b", "magnet:b")]),
        Ok(vec![record("c", "magnet:c")]),
    ];
    let all = merge_source_results(outcomes).unwrap();
    assert_eq!(all.len(), 3);
    assert_eq!(all[0].title, "a");
    assert_eq!(all[2].title, "c");
}

#[test]
fn merge_fails_fast_on_any_source() {
    // One of two adapters fails: the whole aggregation fails, and the
    // successful adapter's records are not surfaced.
    let outcomes: Vec<Result<Vec<TorrentResult>, String>> = vec![
        Ok(vec![record("a", "magnet:a")]),
        Err(String::from("network error: piratebay unreachable")),
    ];
    assert_eq!(
        merge_source_results(outcomes),
        Err(PipelineError::SourceFailure(String::from(
            "network error: piratebay unreachable"
        )))
    );
}

#[test]
fn merge_reports_first_failure() {
    let outcomes: Vec<Result<Vec<TorrentResult>, String>> = vec![
        Err(String::from("first down")),
        Err(String::from("second down")),
    ];
    assert_eq!(
        merge_source_results(outcomes),
        Err(PipelineError::SourceFailure(String::from("first down")))
    );
}

#[test]
fn encode_reserved_characters() {
    assert_eq!(encode("Breaking Bad S02"), "Breaking%20Bad%20S02");
    assert_eq!(encode("a&b?c=d"), "a%26b%3Fc%3Dd");
    assert_eq!(encode("100%"), "100%25");
    assert_eq!(encode("safe-chars_.~"), "safe-chars_.~");
}

#[test]
fn encode_empty() {
    assert_eq!(encode(""), "");
}

#[test]
fn encode_non_ascii_uses_low_byte() {
    // U+00E9 is not in the reserved table and counts as alphanumeric, so
    // it passes through unchanged.
    assert_eq!(encode("é"), "é");
    // U+2014 (em dash) is not alphanumeric: its low byte 0x14 is escaped.
    assert_eq!(encode("\u{2014}"), "%14");
}

fn movie_intent(title: &str) -> SearchIntent {
    SearchIntent {
        content_type: ContentType::Movie,
        title: String::from(title),
        year: None,
        tv_details: None,
        quality_preferences: vec![],
        language: None,
        additional_context: vec![],
    }
}

#[test]
fn parse_prompt_embeds_query() {
    let p = build_parse_prompt("Breaking Bad season 2 complete 1080p");
    assert!(p.contains("Query: \"Breaking Bad season 2 complete 1080p\""));
    assert!(p.contains("Respond with ONLY valid JSON"));
}

#[test]
fn evaluation_prompt_lists_records_with_ordinals() {
    let mut intent = movie_intent("Show X");
    intent.content_type = ContentType::TVShow;
    intent.tv_details = Some(TvDetails {
        season: Some(2),
        episode: None,
        episode_range: None,
        complete_season: true,
        complete_series: false,
    });
    let records = vec![record("Show X S02 1080p", "magnet:a"), record("Show X full", "magnet:b")];
    let p = build_evaluation_prompt(&intent, &records);
    assert!(p.contains("User wants: TV Show - Show X Season 2"));
    assert!(p.contains("1: Show X S02 1080p\n2: Show X full"));
}

#[test]
fn query_prompt_names_content() {
    let p = build_query_generation_prompt(&movie_intent("Inception"));
    assert!(p.contains("finding: Movie - Inception"));
    assert!(p.contains("Respond with JSON"));
}
