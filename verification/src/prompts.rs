use vstd::prelude::*;
use vstd::string::StringExecFns;
use crate::models::{ContentType, ContentTypeView, SearchIntent, TorrentResult, TvDetailsView,
    torrents_view};
use crate::text::{spec_dec, append_dec};

verus! {

pub const PARSE_PROMPT_PRE: &'static str = r#"
You are a torrent search assistant. Parse the following natural language query into structured JSON.

Query: ""#;

pub const PARSE_PROMPT_POST: &'static str = r#""

Extract the following information:
1. Content type (movie, tv_show, music, software, book, game, other)
2. Title of the content
3. For TV shows: season number, episode number(s), whether they want complete season/series
4. Year (if mentioned)
5. Quality preferences (1080p, 4K, BluRay, etc.)
6. Language preferences
7. Any other relevant context

Respond with ONLY valid JSON in this format:
{
    "content_type": "tv_show",
    "title": "Breaking Bad",
    "year": null,
    "tv_details": {
        "season": 2,
        "episode": null,
        "episode_range": null,
        "complete_season": true,
        "complete_series": false
    },
    "quality_preferences": [],
    "language": null,
    "additional_context": []
}
"#;

/// The text of the intent-extraction prompt for a raw query.
pub open spec fn spec_parse_prompt(q: Seq<char>) -> Seq<char> {
    PARSE_PROMPT_PRE@ + q + PARSE_PROMPT_POST@
}

/// Builds the prompt that asks the text-generation service to turn a raw
/// query into the structured intent schema.
pub fn build_parse_prompt(query: &str) -> (r: String)
    ensures
        r@ == spec_parse_prompt(query@),
{
    let mut s = String::new();
    s.append(PARSE_PROMPT_PRE);
    s.append(query);
    s.append(PARSE_PROMPT_POST);
    s
}

/// The label a content type is described with in prompts.
pub open spec fn spec_content_label(ct: ContentTypeView) -> Seq<char> {
    match ct {
        ContentTypeView::TVShow => "TV Show"@,
        ContentTypeView::Movie => "Movie"@,
        _ => "Content"@,
    }
}

fn content_label(ct: &ContentType) -> (r: &'static str)
    ensures
        r@ == spec_content_label(ct@),
{
    match ct {
        ContentType::TVShow => "TV Show",
        ContentType::Movie => "Movie",
        _ => "Content",
    }
}

/// The season rider appended to a title: present exactly when television
/// details are, naming the season or zero when none was set.
pub open spec fn spec_season_part(tv: Option<TvDetailsView>) -> Seq<char> {
    match tv {
        Some(t) => " Season "@ + spec_dec(
            match t.season {
                Some(n) => n as int,
                None => 0,
            },
        ),
        None => Seq::empty(),
    }
}

fn append_season_part(s: &mut String, intent: &SearchIntent)
    ensures
        final(s)@ == old(s)@ + spec_season_part(intent@.tv_details),
{
    match &intent.tv_details {
        Some(tv) => {
            s.append(" Season ");
            let n: u8 = match tv.season {
                Some(n) => n,
                None => 0,
            };
            append_dec(s, n as u64);
        },
        None => {
            proof {
                assert(s@ =~= old(s)@ + spec_season_part(intent@.tv_details));
            }
        },
    }
}

pub const EVAL_PROMPT_PRE: &'static str = r#"
You are evaluating torrent search results for relevance.

User wants: "#;

pub const EVAL_PROMPT_MID: &'static str = r#"

Results to evaluate:
"#;

pub const EVAL_PROMPT_POST: &'static str = r#"

For each result, provide:
1. Relevance score (0.0-1.0) - how well it matches the request
2. Confidence (0.0-1.0) - how sure you are about the match
3. Match reasons - why this is or isn't a good match
4. Warnings - any concerns (fake, wrong content, low quality)
5. Quality score (0.0-1.0) - based on resolution, encoding, source
6. Completeness score (0.0-1.0) - does it have everything requested?

Respond with a JSON array of evaluations in order. Each evaluation should have this structure:
{
    "relevance_score": 0.95,
    "confidence": 0.9,
    "match_reasons": ["Complete season 2", "High quality BluRay"],
    "warnings": [],
    "quality_score": 0.9,
    "completeness_score": 1.0
}
"#;

/// One line of the result listing: the one-based ordinal, a colon, and the
/// record's title.
pub open spec fn spec_listing_line(title: Seq<char>, ordinal: int) -> Seq<char> {
    spec_dec(ordinal) + ": "@ + title
}

/// The listing of records from position `i` on, one line each, joined with
/// line breaks and labelled with one-based ordinals.
pub open spec fn spec_listing_from(recs: Seq<crate::models::TorrentResultView>, i: int) -> Seq<
    char,
>
    decreases recs.len() - i,
{
    if i < 0 || i >= recs.len() {
        Seq::empty()
    } else if i == recs.len() - 1 {
        spec_listing_line(recs[i].title, i + 1)
    } else {
        spec_listing_line(recs[i].title, i + 1) + "\n"@ + spec_listing_from(recs, i + 1)
    }
}

/// The text of the evaluation prompt for an intent and its records.
pub open spec fn spec_evaluation_prompt(
    intent: crate::models::SearchIntentView,
    recs: Seq<crate::models::TorrentResultView>,
) -> Seq<char> {
    EVAL_PROMPT_PRE@ + spec_content_label(intent.content_type) + " - "@ + intent.title
        + spec_season_part(intent.tv_details) + EVAL_PROMPT_MID@ + spec_listing_from(recs, 0)
        + EVAL_PROMPT_POST@
}

/// Builds the prompt that asks the service to score every record against
/// the intent, in order, as a JSON array.
pub fn build_evaluation_prompt(intent: &SearchIntent, results: &Vec<TorrentResult>) -> (r: String)
    ensures
        r@ == spec_evaluation_prompt(intent@, torrents_view(results@)),
{
    let mut s = String::new();
    s.append(EVAL_PROMPT_PRE);
    s.append(content_label(&intent.content_type));
    s.append(" - ");
    s.append(intent.title.as_str());
    append_season_part(&mut s, intent);
    s.append(EVAL_PROMPT_MID);
    append_listing(&mut s, results, 0);
    s.append(EVAL_PROMPT_POST);
    s
}

/// Appends the listing of the records from `i` on.
fn append_listing(s: &mut String, results: &Vec<TorrentResult>, i: usize)
    requires
        i <= results@.len(),
        i < usize::MAX,
    ensures
        final(s)@ == old(s)@ + spec_listing_from(torrents_view(results@), i as int),
    decreases results@.len() - i,
{
    if i >= results.len() {
        proof {
            assert(s@ =~= old(s)@ + spec_listing_from(torrents_view(results@), i as int));
        }
    } else {
        append_dec(s, (i as u64) + 1);
        s.append(": ");
        s.append(results[i].title.as_str());
        proof {
            assert(torrents_view(results@)[i as int].title == results@[i as int].title@);
        }
        if i + 1 < results.len() {
            s.append("\n");
            append_listing(s, results, i + 1);
        }
    }
}

pub const QUERY_PROMPT_PRE: &'static str = r#"
Generate optimized search queries for finding: "#;

pub const QUERY_PROMPT_POST: &'static str = r#"

Create multiple search query variations that torrent sites would understand:
1. Primary queries - most likely to find exact matches
2. Fallback queries - broader searches if primary fails
3. Scraper-specific hints - special formats for different sites

Consider variations like:
- "Breaking Bad S02" vs "Breaking Bad Season 2"
- With/without year
- Complete/Full/All episodes
- Different quality indicators

Respond with JSON:
{
    "primary_queries": ["query1", "query2"],
    "fallback_queries": ["query3"],
    "scraper_hints": {
        "piratebay": ["special format"],
        "yts": ["movie specific format"]
    }
}
"#;

/// The text of the query-planning prompt for an intent.
pub open spec fn spec_query_prompt(intent: crate::models::SearchIntentView) -> Seq<char> {
    QUERY_PROMPT_PRE@ + spec_content_label(intent.content_type) + " - "@ + intent.title
        + spec_season_part(intent.tv_details) + QUERY_PROMPT_POST@
}

/// Builds the prompt that asks the service for candidate search queries.
pub fn build_query_generation_prompt(intent: &SearchIntent) -> (r: String)
    ensures
        r@ == spec_query_prompt(intent@),
{
    let mut s = String::new();
    s.append(QUERY_PROMPT_PRE);
    s.append(content_label(&intent.content_type));
    s.append(" - ");
    s.append(intent.title.as_str());
    append_season_part(&mut s, intent);
    s.append(QUERY_PROMPT_POST);
    s
}

} // verus!
