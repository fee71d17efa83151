use torrentai::llm_service::{parse_intent_response, parse_strategy_response,
    parse_evaluation_response, model_available};
use torrentai::models::{ContentType, PipelineError, SearchIntent, TorrentResult, TvDetails};

fn record(title: &str, link: &str) -> TorrentResult {
    TorrentResult {
        title: String::from(title),
        magnet_link: String::from(link),
        size: None,
        seeders: None,
        leechers: None,
        uploaded: None,
    }
}

const INTENT_JSON: &str = r#"{
    "content_type": "tv_show",
    "title": "Breaking Bad",
    "year": null,
    "tv_details": {
        "season": 2,
        "episode": null,
        "episode_range": null,
        "complete_season": true,
        "complete_series": false
    },
    "quality_preferences": ["1080p"],
    "language": null,
    "additional_context": []
}"#;

fn expected_intent() -> SearchIntent {
    SearchIntent {
        content_type: ContentType::TVShow,
        title: String::from("Breaking Bad"),
        year: None,
        tv_details: Some(TvDetails {
            season: Some(2),
            episode: None,
            episode_range: None,
            complete_season: true,
            complete_series: false,
        }),
        quality_preferences: vec![String::from("1080p")],
        language: None,
        additional_context: vec![],
    }
}

#[test]
fn intent_clean_json() {
    let got = parse_intent_response(INTENT_JSON).unwrap();
    assert_eq!(got, expected_intent());
}

#[test]
fn intent_wrapped_in_prose() {
    let wrapped = format!(
        "Sure! Here is the structured intent you asked for:\n{}\nLet me know if you need more.",
        INTENT_JSON
    );
    let got = parse_intent_response(&wrapped).unwrap();
    assert_eq!(got, expected_intent());
}

#[test]
fn intent_no_braces_fails() {
    assert_eq!(
        parse_intent_response("no json here at all"),
        Err(PipelineError::IntentParse)
    );
}

#[test]
fn intent_empty_response_fails() {
    assert_eq!(parse_intent_response(""), Err(PipelineError::IntentParse));
}

#[test]
fn intent_truncated_json_fails() {
    assert_eq!(
        parse_intent_response(r#"{"content_type": "movie", "title": "Up"#),
        Err(PipelineError::IntentParse)
    );
}

#[test]
fn intent_missing_title_fails() {
    let resp = r#"{"content_type": "movie", "year": null, "tv_details": null,
        "quality_preferences": [], "language": null, "additional_context": []}"#;
    assert_eq!(parse_intent_response(resp), Err(PipelineError::IntentParse));
}

#[test]
fn intent_missing_quality_list_fails() {
    let resp = r#"{"content_type": "movie", "title": "Up", "year": null,
        "tv_details": null, "language": null, "additional_context": []}"#;
    assert_eq!(parse_intent_response(resp), Err(PipelineError::IntentParse));
}

#[test]
fn intent_other_content_type() {
    let resp = r#"{"content_type": {"other": "podcast"}, "title": "Serial", "year": 2014,
        "tv_details": null, "quality_preferences": [], "language": "en",
        "additional_context": ["weekly"]}"#;
    let got = parse_intent_response(resp).unwrap();
    assert_eq!(got.content_type, ContentType::Other(String::from("podcast")));
    assert_eq!(got.year, Some(2014));
    assert_eq!(got.language, Some(String::from("en")));
    assert_eq!(got.additional_context, vec![String::from("weekly")]);
}

#[test]
fn intent_unknown_content_type_fails() {
    let resp = r#"{"content_type": "hologram", "title": "X", "year": null,
        "tv_details": null, "quality_preferences": [], "language": null,
        "additional_context": []}"#;
    assert_eq!(parse_intent_response(resp), Err(PipelineError::IntentParse));
}

#[test]
fn intent_episode_range() {
    let resp = r#"{"content_type": "tv_show", "title": "X", "year": null,
        "tv_details": {"season": 1, "episode": null, "episode_range": [3, 7],
            "complete_season": false, "complete_series": false},
        "quality_preferences": [], "language": null, "additional_context": []}"#;
    let got = parse_intent_response(resp).unwrap();
    assert_eq!(got.tv_details.unwrap().episode_range, Some((3, 7)));
}

#[test]
fn intent_missing_complete_season_fails() {
    let resp = r#"{"content_type": "tv_show", "title": "X", "year": null,
        "tv_details": {"season": 1, "episode": null, "episode_range": null,
            "complete_series": false},
        "quality_preferences": [], "language": null, "additional_context": []}"#;
    assert_eq!(parse_intent_response(resp), Err(PipelineError::IntentParse));
}

#[test]
fn intent_fractional_year_fails() {
    let resp = r#"{"content_type": "movie", "title": "Up", "year": 2009.5,
        "tv_details": null, "quality_preferences": [], "language": null,
        "additional_context": []}"#;
    assert_eq!(parse_intent_response(resp), Err(PipelineError::IntentParse));
}

#[test]
fn intent_unicode_escape_in_title() {
    let resp = r#"{"content_type": "movie", "title": "\u0041BC \n\"quoted\"", "year": null,
        "tv_details": null, "quality_preferences": [], "language": null,
        "additional_context": []}"#;
    let got = parse_intent_response(resp).unwrap();
    assert_eq!(got.title, "ABC \n\"quoted\"");
}

#[test]
fn intent_surrogate_escape_fails() {
    let resp = r#"{"content_type": "movie", "title": "\uD800", "year": null,
        "tv_details": null, "quality_preferences": [], "language": null,
        "additional_context": []}"#;
    assert_eq!(parse_intent_response(resp), Err(PipelineError::IntentParse));
}

#[test]
fn strategy_clean_json() {
    let resp = r#"Here you go:
{
    "primary_queries": ["Show X S02", "Show X Season 2"],
    "fallback_queries": ["Show X"],
    "scraper_hints": {
        "piratebay": ["special format"],
        "yts": ["movie specific format"]
    }
}"#;
    let got = parse_strategy_response(resp).unwrap();
    assert_eq!(
        got.primary_queries,
        vec![String::from("Show X S02"), String::from("Show X Season 2")]
    );
    assert_eq!(got.fallback_queries, vec![String::from("Show X")]);
    assert_eq!(got.scraper_hints.len(), 2);
    assert_eq!(got.scraper_hints[0].0, "piratebay");
    assert_eq!(got.scraper_hints[0].1, vec![String::from("special format")]);
}

#[test]
fn strategy_missing_hints_fails() {
    let resp = r#"{"primary_queries": ["a"], "fallback_queries": []}"#;
    assert_eq!(parse_strategy_response(resp), Err(PipelineError::StrategyParse));
}

#[test]
fn strategy_non_string_query_fails() {
    let resp = r#"{"primary_queries": ["a", 3], "fallback_queries": [], "scraper_hints": {}}"#;
    assert_eq!(parse_strategy_response(resp), Err(PipelineError::StrategyParse));
}

#[test]
fn evaluation_short_array_drops_tail() {
    // Five records but only two scored entries: exactly two come back.
    let records: Vec<TorrentResult> = (0..5)
        .map(|i| record(&format!("t{}", i), &format!("magnet:?xt=urn:btih:{}", i)))
        .collect();
    let resp = r#"[
        {"relevance_score": 0.95, "confidence": 0.9, "match_reasons": ["good"],
         "warnings": [], "quality_score": 0.9, "completeness_score": 1.0},
        {"relevance_score": 0.5, "confidence": 0.4, "match_reasons": [],
         "warnings": ["old"], "quality_score": 0.2, "completeness_score": 0.3}
    ]"#;
    let got = parse_evaluation_response(resp, records).unwrap();
    assert_eq!(got.len(), 2);
    assert_eq!(got[0].relevance_score, 950);
    assert_eq!(got[0].confidence, 900);
    assert_eq!(got[0].completeness_score, 1000);
    assert_eq!(got[0].match_reasons, vec![String::from("good")]);
    assert_eq!(got[1].warnings, vec![String::from("old")]);
    assert_eq!(got[1].quality_score, 200);
    assert_eq!(got[0].torrent.title, "t0");
    assert_eq!(got[1].torrent.title, "t1");
}

#[test]
fn evaluation_extra_entries_ignored() {
    let records = vec![record("only", "magnet:?xt=urn:btih:a")];
    let resp = r#"[{"relevance_score": 0.8, "confidence": 0.7, "match_reasons": [],
        "warnings": [], "quality_score": 0.5, "completeness_score": 0.5},
        {"relevance_score": 0.1, "confidence": 0.1, "match_reasons": [],
        "warnings": [], "quality_score": 0.1, "completeness_score": 0.1}]"#;
    let got = parse_evaluation_response(resp, records).unwrap();
    assert_eq!(got.len(), 1);
    assert_eq!(got[0].relevance_score, 800);
}

#[test]
fn evaluation_missing_fields_default_to_zero() {
    let records = vec![record("a", "magnet:a")];
    let resp = r#"[{"confidence": 0.9}]"#;
    let got = parse_evaluation_response(resp, records).unwrap();
    assert_eq!(got.len(), 1);
    assert_eq!(got[0].relevance_score, 0);
    assert_eq!(got[0].confidence, 900);
    assert_eq!(got[0].quality_score, 0);
    assert!(got[0].match_reasons.is_empty());
    assert!(got[0].warnings.is_empty());
}

#[test]
fn evaluation_malformed_fields_default() {
    let records = vec![record("a", "magnet:a"), record("b", "magnet:b")];
    // A string where a number belongs, a number where a list belongs, and
    // a bare non-object element: recovered per field, never failing.
    let resp = r#"[
        {"relevance_score": "high", "confidence": 0.6, "match_reasons": 7,
         "warnings": ["w", 1, "x"], "quality_score": -0.5, "completeness_score": 1.5},
        "not an object"
    ]"#;
    let got = parse_evaluation_response(resp, records).unwrap();
    assert_eq!(got.len(), 2);
    assert_eq!(got[0].relevance_score, 0);
    assert_eq!(got[0].confidence, 600);
    assert!(got[0].match_reasons.is_empty());
    assert_eq!(got[0].warnings, vec![String::from("w"), String::from("x")]);
    assert_eq!(got[0].quality_score, 0);
    assert_eq!(got[0].completeness_score, 1000);
    assert_eq!(got[1].relevance_score, 0);
    assert_eq!(got[1].confidence, 0);
}

#[test]
fn evaluation_not_an_array_fails() {
    let records = vec![record("a", "magnet:a")];
    assert_eq!(
        parse_evaluation_response("the service rambled with no brackets", records),
        Err(PipelineError::EvaluationParse)
    );
}

#[test]
fn evaluation_object_instead_of_array_fails() {
    // Brackets exist inside, but the outermost span is not a JSON array.
    let records = vec![record("a", "magnet:a")];
    assert_eq!(
        parse_evaluation_response("x [this is not json] y", records),
        Err(PipelineError::EvaluationParse)
    );
}

#[test]
fn model_listing_check() {
    let models = vec![String::from("llama3"), String::from("deepseek-r1:7b")];
    assert!(model_available(&models, &String::from("deepseek-r1:7b")));
    assert!(!model_available(&models, &String::from("mistral")));
    assert!(!model_available(&vec![], &String::from("mistral")));
}
