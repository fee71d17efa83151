use torrentai::models::{Action, TorrentResult};
use torrentai::smart_search::{decide, PipelineAction, PipelineEvent, PipelineState, SmartSearcher};

fn record(title: &str, link: &str) -> TorrentResult {
    TorrentResult {
        title: String::from(title),
        magnet_link: String::from(link),
        size: Some(String::from("1.4 GiB")),
        seeders: Some(120),
        leechers: Some(4),
        uploaded: Some(String::from("2020-05-01")),
    }
}

const INTENT_REPLY: &str = r#"Understood, here is my reading:
{
    "content_type": "tv_show",
    "title": "Show X",
    "year": null,
    "tv_details": {
        "season": 2,
        "episode": null,
        "episode_range": null,
        "complete_season": true,
        "complete_series": false
    },
    "quality_preferences": [],
    "language": null,
    "additional_context": []
}"#;

const STRATEGY_REPLY: &str = r#"{
    "primary_queries": ["Show X S02"],
    "fallback_queries": ["Show X"],
    "scraper_hints": {}
}"#;

// Six evaluations: confidences 0.9/0.8/0.6/0.95/0.3/0.7 with a 0.7 floor
// keeping four, ranked by relevance 0.92/0.85/0.70/0.75 -> b, a, f, d.
const EVAL_REPLY: &str = r#"[
    {"relevance_score": 0.85, "confidence": 0.9, "match_reasons": [], "warnings": [],
     "quality_score": 0.8, "completeness_score": 1.0},
    {"relevance_score": 0.92, "confidence": 0.8, "match_reasons": ["complete season"],
     "warnings": [], "quality_score": 0.9, "completeness_score": 1.0},
    {"relevance_score": 0.99, "confidence": 0.6, "match_reasons": [], "warnings": ["fake"],
     "quality_score": 0.1, "completeness_score": 0.1},
    {"relevance_score": 0.75, "confidence": 0.95, "match_reasons": [], "warnings": [],
     "quality_score": 0.7, "completeness_score": 0.9},
    {"relevance_score": 0.4, "confidence": 0.3, "match_reasons": [], "warnings": [],
     "quality_score": 0.4, "completeness_score": 0.4},
    {"relevance_score": 0.7, "confidence": 0.7, "match_reasons": [], "warnings": [],
     "quality_score": 0.6, "completeness_score": 0.6}
]"#;

/// Two sources of three distinct records each: six unique records, six
/// scores, a 0.7 confidence gate, and a ranking by relevance.
#[test]
fn full_pipeline_two_sources_six_records() {
    let searcher = SmartSearcher::new(700);

    let (state, action) = searcher.step(
        PipelineState::Ready,
        PipelineEvent::Begin(String::from("Show X season 2 complete")),
    );
    assert!(matches!(state, PipelineState::AwaitingIntent));
    let prompt = match action {
        PipelineAction::QueryLlm(p) => p,
        other => panic!("expected a prompt, got {:?}", other),
    };
    assert!(prompt.contains("Show X season 2 complete"));

    let (state, action) = searcher.step(state, PipelineEvent::LlmReply(String::from(INTENT_REPLY)));
    assert!(matches!(state, PipelineState::AwaitingStrategy(_)));
    assert!(matches!(action, PipelineAction::QueryLlm(_)));

    let (state, action) = searcher.step(
        state,
        PipelineEvent::LlmReply(String::from(STRATEGY_REPLY)),
    );
    match &state {
        PipelineState::Gathering(_, _, idx, collected) => {
            assert_eq!(*idx, 0);
            assert!(collected.is_empty());
        },
        other => panic!("expected gathering, got {:?}", other),
    }
    match &action {
        PipelineAction::SearchSources(q) => assert_eq!(q, "Show X S02"),
        other => panic!("expected a source query, got {:?}", other),
    }

    // Both sources answered: their records joined into one batch.
    let batch = vec![
        record("a", "magnet:a"),
        record("b", "magnet:b"),
        record("c", "magnet:c"),
        record("d", "magnet:d"),
        record("e", "magnet:e"),
        record("f", "magnet:f"),
    ];
    let (state, action) = searcher.step(state, PipelineEvent::SourceBatch(Ok(batch)));
    match &state {
        PipelineState::AwaitingEvaluation(_, unique) => assert_eq!(unique.len(), 6),
        other => panic!("expected evaluation stage, got {:?}", other),
    }
    let eval_prompt = match action {
        PipelineAction::QueryLlm(p) => p,
        other => panic!("expected the evaluation prompt, got {:?}", other),
    };
    assert!(eval_prompt.contains("1: a"));
    assert!(eval_prompt.contains("6: f"));

    let (state, action) = searcher.step(state, PipelineEvent::LlmReply(String::from(EVAL_REPLY)));
    assert!(matches!(action, PipelineAction::Report));
    let ranked = match state {
        PipelineState::Complete(ranked) => ranked,
        other => panic!("expected completion, got {:?}", other),
    };
    let titles: Vec<&str> = ranked.iter().map(|e| e.torrent.title.as_str()).collect();
    assert_eq!(titles, vec!["b", "a", "d", "f"]);
    for w in ranked.windows(2) {
        assert!(w[0].relevance_score >= w[1].relevance_score);
    }
    for e in &ranked {
        assert!(e.confidence >= 700);
    }
}

/// A source failure fails the whole request at the gathering stage.
#[test]
fn pipeline_source_failure_fails_request() {
    let searcher = SmartSearcher::new(700);
    let (state, _) = searcher.step(
        PipelineState::Ready,
        PipelineEvent::Begin(String::from("anything")),
    );
    let (state, _) = searcher.step(state, PipelineEvent::LlmReply(String::from(INTENT_REPLY)));
    let (state, _) = searcher.step(
        state,
        PipelineEvent::LlmReply(String::from(STRATEGY_REPLY)),
    );
    let (state, action) = searcher.step(
        state,
        PipelineEvent::SourceBatch(Err(String::from("yts: connection refused"))),
    );
    assert!(matches!(action, PipelineAction::Report));
    match state {
        PipelineState::Failed(e) => {
            assert_eq!(
                e,
                torrentai::models::PipelineError::SourceFailure(String::from(
                    "yts: connection refused"
                ))
            );
        },
        other => panic!("expected failure, got {:?}", other),
    }
}

/// Nothing passes the confidence gate: an empty ranking, reported as a
/// normal outcome, and no action to take.
#[test]
fn pipeline_empty_ranking_is_not_a_failure() {
    let searcher = SmartSearcher::new(700);
    let (state, _) = searcher.step(
        PipelineState::Ready,
        PipelineEvent::Begin(String::from("anything")),
    );
    let (state, _) = searcher.step(state, PipelineEvent::LlmReply(String::from(INTENT_REPLY)));
    let (state, _) = searcher.step(
        state,
        PipelineEvent::LlmReply(String::from(STRATEGY_REPLY)),
    );
    let batch = vec![record("a", "magnet:a"), record("b", "magnet:b")];
    let (state, _) = searcher.step(state, PipelineEvent::SourceBatch(Ok(batch)));
    let low_reply = r#"[
        {"relevance_score": 0.9, "confidence": 0.2, "match_reasons": [], "warnings": [],
         "quality_score": 0.5, "completeness_score": 0.5},
        {"relevance_score": 0.8, "confidence": 0.1, "match_reasons": [], "warnings": [],
         "quality_score": 0.5, "completeness_score": 0.5}
    ]"#;
    let (state, action) = searcher.step(state, PipelineEvent::LlmReply(String::from(low_reply)));
    assert!(matches!(action, PipelineAction::Report));
    let ranked = match state {
        PipelineState::Complete(ranked) => ranked,
        other => panic!("expected a normal outcome, got {:?}", other),
    };
    assert!(ranked.is_empty());
    assert_eq!(decide(&ranked, true, 900), Action::NoAction);
}

/// The gathering loop stops issuing queries once the cap is reached.
#[test]
fn pipeline_caps_gathered_results() {
    let searcher = SmartSearcher::new(700);
    let (state, _) = searcher.step(
        PipelineState::Ready,
        PipelineEvent::Begin(String::from("anything")),
    );
    let (state, _) = searcher.step(state, PipelineEvent::LlmReply(String::from(INTENT_REPLY)));
    let many_queries = r#"{
        "primary_queries": ["q1", "q2", "q3"],
        "fallback_queries": [],
        "scraper_hints": {}
    }"#;
    let (state, action) = searcher.step(state, PipelineEvent::LlmReply(String::from(many_queries)));
    match &action {
        PipelineAction::SearchSources(q) => assert_eq!(q, "q1"),
        other => panic!("expected the first query, got {:?}", other),
    }
    // Twenty records from the first query alone: the cap is met, so the
    // pipeline moves on to evaluation instead of issuing q2.
    let batch: Vec<TorrentResult> = (0..20)
        .map(|i| record(&format!("t{}", i), &format!("magnet:{}", i)))
        .collect();
    let (state, action) = searcher.step(state, PipelineEvent::SourceBatch(Ok(batch)));
    assert!(matches!(state, PipelineState::AwaitingEvaluation(_, _)));
    assert!(matches!(action, PipelineAction::QueryLlm(_)));
}

/// Below the cap, the next primary query goes out.
#[test]
fn pipeline_continues_to_next_query_below_cap() {
    let searcher = SmartSearcher::new(700);
    let (state, _) = searcher.step(
        PipelineState::Ready,
        PipelineEvent::Begin(String::from("anything")),
    );
    let (state, _) = searcher.step(state, PipelineEvent::LlmReply(String::from(INTENT_REPLY)));
    let many_queries = r#"{
        "primary_queries": ["q1", "q2"],
        "fallback_queries": [],
        "scraper_hints": {}
    }"#;
    let (state, _) = searcher.step(state, PipelineEvent::LlmReply(String::from(many_queries)));
    let batch = vec![record("a", "magnet:a")];
    let (state, action) = searcher.step(state, PipelineEvent::SourceBatch(Ok(batch)));
    match &action {
        PipelineAction::SearchSources(q) => assert_eq!(q, "q2"),
        other => panic!("expected the second query, got {:?}", other),
    }
    match &state {
        PipelineState::Gathering(_, _, idx, collected) => {
            assert_eq!(*idx, 1);
            assert_eq!(collected.len(), 1);
        },
        other => panic!("expected gathering to continue, got {:?}", other),
    }
}

/// A garbled intent reply fails the request with the intent stage named.
#[test]
fn pipeline_intent_garbage_fails() {
    let searcher = SmartSearcher::new(700);
    let (state, _) = searcher.step(
        PipelineState::Ready,
        PipelineEvent::Begin(String::from("anything")),
    );
    let (state, action) = searcher.step(
        state,
        PipelineEvent::LlmReply(String::from("I could not help with that.")),
    );
    assert!(matches!(action, PipelineAction::Report));
    assert!(matches!(
        state,
        PipelineState::Failed(torrentai::models::PipelineError::IntentParse)
    ));
}
