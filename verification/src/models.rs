use vstd::prelude::*;

verus! {

/// Scores are fixed-point values in thousandths: `SCORE_UNIT` stands for a
/// full score of one, so a relevance of `920` means 0.92.
pub const SCORE_UNIT: u32 = 1000;

/// The kind of content a request asks for, with an open escape hatch for
/// anything outside the fixed set.
#[derive(Debug, Clone, PartialEq, Eq)]
pub enum ContentType {
    Movie,
    TVShow,
    Music,
    Software,
    Book,
    Game,
    Other(String),
}

/// Spec-level image of a `ContentType`.
pub enum ContentTypeView {
    Movie,
    TVShow,
    Music,
    Software,
    Book,
    Game,
    Other(Seq<char>),
}

impl View for ContentType {
    type V = ContentTypeView;

    open spec fn view(&self) -> ContentTypeView {
        match self {
            ContentType::Movie => ContentTypeView::Movie,
            ContentType::TVShow => ContentTypeView::TVShow,
            ContentType::Music => ContentTypeView::Music,
            ContentType::Software => ContentTypeView::Software,
            ContentType::Book => ContentTypeView::Book,
            ContentType::Game => ContentTypeView::Game,
            ContentType::Other(label) => ContentTypeView::Other(label@),
        }
    }
}

/// Season and episode details for television requests.
#[derive(Debug, Clone, PartialEq, Eq)]
pub struct TvDetails {
    pub season: Option<u8>,
    pub episode: Option<u8>,
    pub episode_range: Option<(u8, u8)>,
    pub complete_season: bool,
    pub complete_series: bool,
}

/// Spec-level image of `TvDetails`. Every field is already a plain value, so
/// the view keeps them as they are.
pub struct TvDetailsView {
    pub season: Option<u8>,
    pub episode: Option<u8>,
    pub episode_range: Option<(u8, u8)>,
    pub complete_season: bool,
    pub complete_series: bool,
}

impl View for TvDetails {
    type V = TvDetailsView;

    open spec fn view(&self) -> TvDetailsView {
        TvDetailsView {
            season: self.season,
            episode: self.episode,
            episode_range: self.episode_range,
            complete_season: self.complete_season,
            complete_series: self.complete_series,
        }
    }
}

/// The structured interpretation of a free-text content request.
#[derive(Debug, Clone, PartialEq, Eq)]
pub struct SearchIntent {
    pub content_type: ContentType,
    pub title: String,
    pub year: Option<u16>,
    pub tv_details: Option<TvDetails>,
    pub quality_preferences: Vec<String>,
    pub language: Option<String>,
    pub additional_context: Vec<String>,
}

/// Spec-level image of a `SearchIntent`.
pub struct SearchIntentView {
    pub content_type: ContentTypeView,
    pub title: Seq<char>,
    pub year: Option<u16>,
    pub tv_details: Option<TvDetailsView>,
    pub quality_preferences: Seq<Seq<char>>,
    pub language: Option<Seq<char>>,
    pub additional_context: Seq<Seq<char>>,
}

impl View for SearchIntent {
    type V = SearchIntentView;

    open spec fn view(&self) -> SearchIntentView {
        SearchIntentView {
            content_type: self.content_type@,
            title: self.title@,
            year: self.year,
            tv_details: match self.tv_details {
                Some(tv) => Some(tv@),
                None => None,
            },
            quality_preferences: self.quality_preferences.deep_view(),
            language: match self.language {
                Some(l) => Some(l@),
                None => None,
            },
            additional_context: self.additional_context.deep_view(),
        }
    }
}

/// The ordered query plan derived from an intent. Hints are advisory and
/// keyed by source name, kept as pairs in the order they were written.
#[derive(Debug, Clone, PartialEq, Eq)]
pub struct SearchStrategy {
    pub primary_queries: Vec<String>,
    pub fallback_queries: Vec<String>,
    pub scraper_hints: Vec<(String, Vec<String>)>,
}

/// Spec-level image of a `SearchStrategy`.
pub struct SearchStrategyView {
    pub primary_queries: Seq<Seq<char>>,
    pub fallback_queries: Seq<Seq<char>>,
    pub scraper_hints: Seq<(Seq<char>, Seq<Seq<char>>)>,
}

/// The spec-level image of a sequence of hint pairs.
pub open spec fn hints_view(s: Seq<(String, Vec<String>)>) -> Seq<(Seq<char>, Seq<Seq<char>>)> {
    Seq::new(s.len(), |i: int| (s[i].0@, s[i].1.deep_view()))
}

impl View for SearchStrategy {
    type V = SearchStrategyView;

    open spec fn view(&self) -> SearchStrategyView {
        SearchStrategyView {
            primary_queries: self.primary_queries.deep_view(),
            fallback_queries: self.fallback_queries.deep_view(),
            scraper_hints: hints_view(self.scraper_hints@),
        }
    }
}

/// One normalized listing from a content source. The magnet link is the
/// stable identity used for deduplication and retrieval.
#[derive(Debug, Clone, PartialEq, Eq)]
pub struct TorrentResult {
    pub title: String,
    pub magnet_link: String,
    pub size: Option<String>,
    pub seeders: Option<u32>,
    pub leechers: Option<u32>,
    pub uploaded: Option<String>,
}

/// Spec-level image of a `TorrentResult`.
pub struct TorrentResultView {
    pub title: Seq<char>,
    pub magnet_link: Seq<char>,
    pub size: Option<Seq<char>>,
    pub seeders: Option<u32>,
    pub leechers: Option<u32>,
    pub uploaded: Option<Seq<char>>,
}

impl View for TorrentResult {
    type V = TorrentResultView;

    open spec fn view(&self) -> TorrentResultView {
        TorrentResultView {
            title: self.title@,
            magnet_link: self.magnet_link@,
            size: match self.size {
                Some(s) => Some(s@),
                None => None,
            },
            seeders: self.seeders,
            leechers: self.leechers,
            uploaded: match self.uploaded {
                Some(u) => Some(u@),
                None => None,
            },
        }
    }
}

/// One result together with its scores, each in thousandths and at most
/// `SCORE_UNIT`.
#[derive(Debug, Clone, PartialEq, Eq)]
pub struct EvaluatedResult {
    pub torrent: TorrentResult,
    pub relevance_score: u32,
    pub confidence: u32,
    pub match_reasons: Vec<String>,
    pub warnings: Vec<String>,
    pub quality_score: u32,
    pub completeness_score: u32,
}

/// Spec-level image of an `EvaluatedResult`.
pub struct EvaluatedResultView {
    pub torrent: TorrentResultView,
    pub relevance_score: u32,
    pub confidence: u32,
    pub match_reasons: Seq<Seq<char>>,
    pub warnings: Seq<Seq<char>>,
    pub quality_score: u32,
    pub completeness_score: u32,
}

impl View for EvaluatedResult {
    type V = EvaluatedResultView;

    open spec fn view(&self) -> EvaluatedResultView {
        EvaluatedResultView {
            torrent: self.torrent@,
            relevance_score: self.relevance_score,
            confidence: self.confidence,
            match_reasons: self.match_reasons.deep_view(),
            warnings: self.warnings.deep_view(),
            quality_score: self.quality_score,
            completeness_score: self.completeness_score,
        }
    }
}

/// The spec-level images of a sequence of records.
pub open spec fn torrents_view(s: Seq<TorrentResult>) -> Seq<TorrentResultView> {
    Seq::new(s.len(), |i: int| s[i]@)
}

/// The spec-level images of a sequence of evaluated records.
pub open spec fn evals_view(s: Seq<EvaluatedResult>) -> Seq<EvaluatedResultView> {
    Seq::new(s.len(), |i: int| s[i]@)
}

impl EvaluatedResultView {
    /// Every score stays within the unit interval.
    pub open spec fn wf(self) -> bool {
        &&& self.relevance_score <= SCORE_UNIT
        &&& self.confidence <= SCORE_UNIT
        &&& self.quality_score <= SCORE_UNIT
        &&& self.completeness_score <= SCORE_UNIT
    }
}

/// The stage-tagged failures the pipeline can surface. Per-field scoring
/// defects are never surfaced: they are recovered locally with defaults.
#[derive(Debug, Clone, PartialEq, Eq)]
pub enum PipelineError {
    /// The intent response held no parseable object.
    IntentParse,
    /// The strategy response held no parseable object.
    StrategyParse,
    /// The evaluation response held no parseable array.
    EvaluationParse,
    /// One source failed during aggregation; the whole call fails with it.
    SourceFailure(String),
    /// The text-generation backend is unreachable or lacks the model.
    ServiceUnavailable(String),
}

/// What the decision gate asks the caller to do with the ranked results.
#[derive(Debug, Clone, PartialEq, Eq)]
pub enum Action {
    /// Nothing ranked high enough to act on, or no results at all.
    NoAction,
    /// Start retrieval of the identified content unattended.
    Download(String),
    /// Suggest the identified content for manual confirmation.
    SuggestManual(String),
}

} // verus!
