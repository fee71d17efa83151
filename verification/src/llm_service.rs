use vstd::prelude::*;
use vstd::string::StrSliceExecFns;
use crate::json::{
    Json, JsonV, jview, obj_view, arr_view, lemma_obj_view, lemma_arr_view, spec_json, parse_json,
};
use crate::text::{has_char, first_idx, last_idx, lemma_first_idx, lemma_last_idx, find_first,
    find_last, str_chars_vec, chars_to_string};
use crate::models::{ContentType, ContentTypeView, TvDetails, TvDetailsView, SearchIntent,
    SearchIntentView, SearchStrategy, SearchStrategyView, PipelineError, hints_view,
    TorrentResult, TorrentResultView, EvaluatedResult, EvaluatedResultView, torrents_view,
    evals_view, SCORE_UNIT};
use crate::json::JsonNum;

verus! {

/// The slice from the first occurrence of `open` to the last occurrence of
/// `close`, both included; nothing when either is missing or they cross.
pub open spec fn spec_extract_span(s: Seq<char>, open: char, close: char) -> Option<Seq<char>> {
    if has_char(s, open) && has_char(s, close) && first_idx(s, open) <= last_idx(s, close) {
        Some(s.subrange(first_idx(s, open), last_idx(s, close) + 1))
    } else {
        None
    }
}

/// Cuts the span between the outermost pair of brackets out of a response.
pub fn extract_span(s: &Vec<char>, open: char, close: char) -> (r: Option<Vec<char>>)
    ensures
        match r {
            Some(v) => spec_extract_span(s@, open, close) == Some(v@),
            None => spec_extract_span(s@, open, close) is None,
        },
{
    let lo = match find_first(s, open) {
        Some(i) => i,
        None => {
            return None;
        },
    };
    let hi = match find_last(s, close) {
        Some(i) => i,
        None => {
            return None;
        },
    };
    if lo > hi {
        return None;
    }
    proof {
        lemma_first_idx(s@, open);
        lemma_last_idx(s@, close);
    }
    let mut v: Vec<char> = Vec::new();
    let mut i = lo;
    while i <= hi
        invariant
            lo <= i <= hi + 1,
            hi < s.len(),
            v@ == s@.subrange(lo as int, i as int),
        decreases hi + 1 - i,
    {
        v.push(s[i]);
        i = i + 1;
        proof {
            assert(v@ =~= s@.subrange(lo as int, i as int));
        }
    }
    Some(v)
}

/// The value of the first member with the given key, if any.
pub open spec fn jv_lookup(members: Seq<(Seq<char>, JsonV)>, key: Seq<char>) -> Option<JsonV>
    decreases members,
{
    if members.len() == 0 {
        None
    } else if members[0].0 == key {
        Some(members[0].1)
    } else {
        jv_lookup(members.drop_first(), key)
    }
}

/// A first match at `idx` settles the lookup.
proof fn lemma_jv_lookup_found(members: Seq<(Seq<char>, JsonV)>, key: Seq<char>, idx: int)
    requires
        0 <= idx < members.len(),
        members[idx].0 == key,
        forall|j: int| 0 <= j < idx ==> (#[trigger] members[j]).0 != key,
    ensures
        jv_lookup(members, key) == Some(members[idx].1),
    decreases idx,
{
    if idx > 0 {
        assert(members.drop_first()[idx - 1] == members[idx]);
        assert forall|j: int| 0 <= j < idx - 1 implies (#[trigger] members.drop_first()[j]).0
            != key by {
            assert(members.drop_first()[j] == members[j + 1]);
        }
        lemma_jv_lookup_found(members.drop_first(), key, idx - 1);
    }
}

/// No match anywhere settles the lookup too.
proof fn lemma_jv_lookup_missing(members: Seq<(Seq<char>, JsonV)>, key: Seq<char>)
    requires
        forall|j: int| 0 <= j < members.len() ==> (#[trigger] members[j]).0 != key,
    ensures
        jv_lookup(members, key) is None,
    decreases members,
{
    if members.len() > 0 {
        assert forall|j: int| 0 <= j < members.len() - 1 implies (
        #[trigger] members.drop_first()[j]).0 != key by {
            assert(members.drop_first()[j] == members[j + 1]);
        }
        lemma_jv_lookup_missing(members.drop_first(), key);
    }
}

/// Whether a character vector spells the same text as a string slice.
pub fn chars_eq_str(v: &Vec<char>, s: &str) -> (r: bool)
    ensures
        r == (v@ == s@),
{
    let n = s.unicode_len();
    if v.len() != n {
        return false;
    }
    let mut i: usize = 0;
    while i < n
        invariant
            i <= n,
            n == s@.len(),
            v@.len() == n,
            forall|j: int| 0 <= j < i ==> v@[j] == s@[j],
        decreases n - i,
    {
        if v[i] != s.get_char(i) {
            return false;
        }
        i = i + 1;
    }
    proof {
        assert(v@ =~= s@);
    }
    true
}

/// Finds the first member with the given key.
pub fn obj_lookup<'a>(members: &'a Vec<(Vec<char>, Json)>, key: &str) -> (r: Option<&'a Json>)
    ensures
        match r {
            Some(j) => jv_lookup(obj_view(members@), key@) == Some(jview(*j)),
            None => jv_lookup(obj_view(members@), key@) is None,
        },
{
    proof {
        lemma_obj_view(members@);
    }
    let mut i: usize = 0;
    while i < members.len()
        invariant
            i <= members@.len(),
            obj_view(members@).len() == members@.len(),
            forall|k: int| 0 <= k < members@.len() ==> obj_view(members@)[k] == (
                (#[trigger] members@[k]).0@,
                jview(members@[k].1),
            ),
            forall|j: int| 0 <= j < i ==> (#[trigger] obj_view(members@)[j]).0 != key@,
        decreases members@.len() - i,
    {
        if chars_eq_str(&members[i].0, key) {
            proof {
                lemma_jv_lookup_found(obj_view(members@), key@, i as int);
            }
            return Some(&members[i].1);
        }
        i = i + 1;
    }
    proof {
        lemma_jv_lookup_missing(obj_view(members@), key@);
    }
    None
}

/// Whether the wanted model's name stands in the list the service offers.
pub fn model_available(models: &Vec<String>, model: &String) -> (r: bool)
    ensures
        r == exists|i: int| 0 <= i < models@.len() && (#[trigger] models@[i])@ == model@,
{
    let mut i: usize = 0;
    while i < models.len()
        invariant
            i <= models@.len(),
            forall|j: int| 0 <= j < i ==> (#[trigger] models@[j])@ != model@,
        decreases models@.len() - i,
    {
        if models[i].eq(model) {
            proof {
                assert(models@[i as int]@ == model@);
            }
            return true;
        }
        i = i + 1;
    }
    false
}


/// The spec-level image of an optionally found member value.
pub open spec fn oview(o: Option<&Json>) -> Option<JsonV> {
    match o {
        Some(j) => Some(jview(*j)),
        None => None,
    }
}

/// The content type a member value stands for: one of the six fixed names
/// as a string, or an object with the single key `other` naming a label.
pub open spec fn spec_content_type_of(o: Option<JsonV>) -> Option<ContentTypeView> {
    match o {
        Some(JsonV::Str(s)) => if s == "movie"@ {
            Some(ContentTypeView::Movie)
        } else if s == "tv_show"@ {
            Some(ContentTypeView::TVShow)
        } else if s == "music"@ {
            Some(ContentTypeView::Music)
        } else if s == "software"@ {
            Some(ContentTypeView::Software)
        } else if s == "book"@ {
            Some(ContentTypeView::Book)
        } else if s == "game"@ {
            Some(ContentTypeView::Game)
        } else {
            None
        },
        Some(JsonV::Obj(ms)) => if ms.len() == 1 && ms[0].0 == "other"@ {
            match ms[0].1 {
                JsonV::Str(label) => Some(ContentTypeView::Other(label)),
                _ => None,
            }
        } else {
            None
        },
        _ => None,
    }
}

/// A required string member.
pub open spec fn spec_req_str(o: Option<JsonV>) -> Option<Seq<char>> {
    match o {
        Some(JsonV::Str(s)) => Some(s),
        _ => None,
    }
}

/// An optional string member: absent or null stands for nothing.
pub open spec fn spec_opt_str(o: Option<JsonV>) -> Option<Option<Seq<char>>> {
    match o {
        None => Some(None),
        Some(JsonV::Null) => Some(None),
        Some(JsonV::Str(s)) => Some(Some(s)),
        _ => None,
    }
}

/// An optional unsigned member bounded by `max`: absent or null stands for
/// nothing; a negative, fractional or too large number is malformed.
pub open spec fn spec_opt_small_int(o: Option<JsonV>, max: int) -> Option<Option<int>> {
    match o {
        None => Some(None),
        Some(JsonV::Null) => Some(None),
        Some(JsonV::Num(n)) => if !n.neg && !n.has_frac && n.int_part <= max {
            Some(Some(n.int_part as int))
        } else {
            None
        },
        _ => None,
    }
}

/// A required boolean member.
pub open spec fn spec_req_bool(o: Option<JsonV>) -> Option<bool> {
    match o {
        Some(JsonV::Bool(b)) => Some(b),
        _ => None,
    }
}

/// The texts of a sequence of values that must all be strings.
pub open spec fn spec_strs(items: Seq<JsonV>) -> Option<Seq<Seq<char>>>
    decreases items,
{
    if items.len() == 0 {
        Some(Seq::empty())
    } else {
        match items[0] {
            JsonV::Str(s) => match spec_strs(items.drop_first()) {
                Some(rest) => Some(seq![s] + rest),
                None => None,
            },
            _ => None,
        }
    }
}

/// A required member that must be an array of strings.
pub open spec fn spec_req_strs(o: Option<JsonV>) -> Option<Seq<Seq<char>>> {
    match o {
        Some(JsonV::Arr(items)) => spec_strs(items),
        _ => None,
    }
}

/// An optional pair of small numbers written as a two-item array.
pub open spec fn spec_opt_range(o: Option<JsonV>) -> Option<Option<(u8, u8)>> {
    match o {
        None => Some(None),
        Some(JsonV::Null) => Some(None),
        Some(JsonV::Arr(items)) => if items.len() == 2 {
            match (spec_opt_small_int(Some(items[0]), 255), spec_opt_small_int(
                Some(items[1]),
                255,
            )) {
                (Some(Some(a)), Some(Some(b))) => Some(Some((a as u8, b as u8))),
                _ => None,
            }
        } else {
            None
        },
        _ => None,
    }
}

/// The television details a member value stands for.
pub open spec fn spec_tv_of(o: Option<JsonV>) -> Option<Option<TvDetailsView>> {
    match o {
        None => Some(None),
        Some(JsonV::Null) => Some(None),
        Some(JsonV::Obj(ms)) => {
            match (spec_opt_small_int(jv_lookup(ms, "season"@), 255), spec_opt_small_int(
                jv_lookup(ms, "episode"@),
                255,
            ), spec_opt_range(jv_lookup(ms, "episode_range"@)), spec_req_bool(
                jv_lookup(ms, "complete_season"@),
            ), spec_req_bool(jv_lookup(ms, "complete_series"@))) {
                (Some(season), Some(episode), Some(range), Some(cs), Some(cx)) => Some(
                    Some(
                        TvDetailsView {
                            season: match season {
                                Some(n) => Some(n as u8),
                                None => None,
                            },
                            episode: match episode {
                                Some(n) => Some(n as u8),
                                None => None,
                            },
                            episode_range: range,
                            complete_season: cs,
                            complete_series: cx,
                        },
                    ),
                ),
                _ => None,
            }
        },
        _ => None,
    }
}

/// The structured intent a JSON value stands for, with the field rules the
/// schema asks for: a malformed required field fails the whole intent.
pub open spec fn spec_intent_of(v: JsonV) -> Option<SearchIntentView> {
    match v {
        JsonV::Obj(ms) => {
            match (spec_content_type_of(jv_lookup(ms, "content_type"@)), spec_req_str(
                jv_lookup(ms, "title"@),
            ), spec_opt_small_int(jv_lookup(ms, "year"@), 65535), spec_tv_of(
                jv_lookup(ms, "tv_details"@),
            ), spec_req_strs(jv_lookup(ms, "quality_preferences"@)), spec_opt_str(
                jv_lookup(ms, "language"@),
            ), spec_req_strs(jv_lookup(ms, "additional_context"@))) {
                (
                    Some(ct),
                    Some(title),
                    Some(year),
                    Some(tv),
                    Some(quality),
                    Some(language),
                    Some(context),
                ) => Some(
                    SearchIntentView {
                        content_type: ct,
                        title: title,
                        year: match year {
                            Some(n) => Some(n as u16),
                            None => None,
                        },
                        tv_details: tv,
                        quality_preferences: quality,
                        language: language,
                        additional_context: context,
                    },
                ),
                _ => None,
            }
        },
        _ => None,
    }
}

/// The query plan a JSON value stands for.
pub open spec fn spec_strategy_of(v: JsonV) -> Option<SearchStrategyView> {
    match v {
        JsonV::Obj(ms) => {
            match (spec_req_strs(jv_lookup(ms, "primary_queries"@)), spec_req_strs(
                jv_lookup(ms, "fallback_queries"@),
            ), spec_hints_of(jv_lookup(ms, "scraper_hints"@))) {
                (Some(primary), Some(fallback), Some(hints)) => Some(
                    SearchStrategyView {
                        primary_queries: primary,
                        fallback_queries: fallback,
                        scraper_hints: hints,
                    },
                ),
                _ => None,
            }
        },
        _ => None,
    }
}

/// A required member that must be an object whose values are all arrays of
/// strings; the pairs keep their written order.
pub open spec fn spec_hints_of(o: Option<JsonV>) -> Option<Seq<(Seq<char>, Seq<Seq<char>>)>> {
    match o {
        Some(JsonV::Obj(ms)) => spec_hints(ms),
        _ => None,
    }
}

/// The hint pairs of an object's members.
pub open spec fn spec_hints(ms: Seq<(Seq<char>, JsonV)>) -> Option<
    Seq<(Seq<char>, Seq<Seq<char>>)>,
>
    decreases ms,
{
    if ms.len() == 0 {
        Some(Seq::empty())
    } else {
        match spec_req_strs(Some(ms[0].1)) {
            Some(strs) => match spec_hints(ms.drop_first()) {
                Some(rest) => Some(seq![(ms[0].0, strs)] + rest),
                None => None,
            },
            None => None,
        }
    }
}


/// Both sides of `spec_strs`: it succeeds exactly when every item is a
/// string, and then maps them one for one.
proof fn lemma_spec_strs(items: Seq<JsonV>)
    ensures
        spec_strs(items) is Some <==> (forall|k: int|
            0 <= k < items.len() ==> (#[trigger] items[k]) is Str),
        spec_strs(items) matches Some(r) ==> r.len() == items.len() && (forall|k: int|
            0 <= k < items.len() ==> #[trigger] r[k] == items[k]->Str_0),
    decreases items,
{
    if items.len() > 0 {
        lemma_spec_strs(items.drop_first());
        assert forall|k: int| 0 <= k < items.len() - 1 implies #[trigger] items.drop_first()[k]
            == items[k + 1] by {}
        if forall|k: int| 0 <= k < items.len() ==> (#[trigger] items[k]) is Str {
            assert(items[0] is Str);
            assert forall|k: int|
                0 <= k < items.drop_first().len() implies (
            #[trigger] items.drop_first()[k]) is Str by {
                assert(items.drop_first()[k] == items[k + 1]);
                assert(items[k + 1] is Str);
            }
            assert(spec_strs(items.drop_first()) is Some);
        }
        if spec_strs(items) is Some {
            assert(spec_strs(items.drop_first()) is Some);
            assert forall|k: int| 0 <= k < items.len() implies (#[trigger] items[k]) is Str by {
                if k > 0 {
                    assert(items.drop_first()[k - 1] is Str);
                }
            }
            let r = spec_strs(items)->Some_0;
            let rest = spec_strs(items.drop_first())->Some_0;
            assert forall|k: int| 0 <= k < items.len() implies #[trigger] r[k]
                == items[k]->Str_0 by {
                if k > 0 {
                    assert(rest[k - 1] == items.drop_first()[k - 1]->Str_0);
                }
            }
        }
    }
}

/// Converts an array of strings, or reports the element that is not one.
#[verifier::loop_isolation(false)]
fn strs_from_items(items: &Vec<Json>) -> (r: Option<Vec<String>>)
    ensures
        match r {
            Some(v) => spec_strs(arr_view(items@)) == Some(v.deep_view()),
            None => spec_strs(arr_view(items@)) is None,
        },
{
    proof {
        lemma_arr_view(items@);
        lemma_spec_strs(arr_view(items@));
    }
    let mut out: Vec<String> = Vec::new();
    let mut i: usize = 0;
    while i < items.len()
        invariant
            i <= items@.len(),
            arr_view(items@).len() == items@.len(),
            forall|k: int| 0 <= k < items@.len() ==> arr_view(items@)[k] == jview(
                #[trigger] items@[k],
            ),
            out@.len() == i,
            forall|k: int| 0 <= k < i ==> (#[trigger] arr_view(items@)[k]) is Str,
            forall|k: int| 0 <= k < i ==> (#[trigger] out@[k])@ == arr_view(items@)[k]->Str_0,
        decreases items@.len() - i,
    {
        match &items[i] {
            Json::Str(s) => {
                out.push(chars_to_string(s));
            },
            _ => {
                proof {
                    assert(!(arr_view(items@)[i as int] is Str));
                }
                return None;
            },
        }
        i = i + 1;
    }
    proof {
        let r = spec_strs(arr_view(items@))->Some_0;
        assert(out.deep_view() =~= r);
    }
    Some(out)
}

/// Converts a required array-of-strings member.
fn req_strs_from(o: Option<&Json>, ) -> (r: Option<Vec<String>>)
    ensures
        match r {
            Some(v) => spec_req_strs(oview(o)) == Some(v.deep_view()),
            None => spec_req_strs(oview(o)) is None,
        },
{
    match o {
        Some(Json::Arr(items)) => strs_from_items(items),
        _ => None,
    }
}

/// Converts a required string member.
fn req_str_from(o: Option<&Json>) -> (r: Option<String>)
    ensures
        match r {
            Some(t) => spec_req_str(oview(o)) == Some(t@),
            None => spec_req_str(oview(o)) is None,
        },
{
    match o {
        Some(Json::Str(s)) => Some(chars_to_string(s)),
        _ => None,
    }
}

/// Converts an optional string member.
fn opt_str_from(o: Option<&Json>) -> (r: Option<Option<String>>)
    ensures
        match r {
            Some(os) => spec_opt_str(oview(o)) == Some(
                match os {
                    Some(s) => Some(s@),
                    None => None,
                },
            ),
            None => spec_opt_str(oview(o)) is None,
        },
{
    match o {
        None => Some(None),
        Some(Json::Null) => Some(None),
        Some(Json::Str(s)) => Some(Some(chars_to_string(s))),
        _ => None,
    }
}

/// Converts an optional small number member bounded by `max`.
fn opt_small_from(o: Option<&Json>, max: u64) -> (r: Option<Option<u64>>)
    ensures
        match r {
            Some(on) => spec_opt_small_int(oview(o), max as int) == Some(
                match on {
                    Some(n) => Some(n as int),
                    None => None,
                },
            ) && (on matches Some(n) ==> n <= max),
            None => spec_opt_small_int(oview(o), max as int) is None,
        },
{
    match o {
        None => Some(None),
        Some(Json::Null) => Some(None),
        Some(Json::Num(n)) => if !n.neg && !n.has_frac && n.int_part <= max {
            Some(Some(n.int_part))
        } else {
            None
        },
        _ => None,
    }
}

/// Converts a required boolean member.
fn req_bool_from(o: Option<&Json>) -> (r: Option<bool>)
    ensures
        match r {
            Some(b) => spec_req_bool(oview(o)) == Some(b),
            None => spec_req_bool(oview(o)) is None,
        },
{
    match o {
        Some(Json::Bool(b)) => Some(*b),
        _ => None,
    }
}

/// Converts an optional two-item range member.
fn opt_range_from(o: Option<&Json>) -> (r: Option<Option<(u8, u8)>>)
    ensures
        match r {
            Some(range) => spec_opt_range(oview(o)) == Some(range),
            None => spec_opt_range(oview(o)) is None,
        },
{
    match o {
        None => Some(None),
        Some(Json::Null) => Some(None),
        Some(Json::Arr(items)) => {
            proof {
                lemma_arr_view(items@);
            }
            if items.len() == 2 {
                let a = match opt_small_from(Some(&items[0]), 255) {
                    Some(Some(a)) => a,
                    _ => {
                        return None;
                    },
                };
                let b = match opt_small_from(Some(&items[1]), 255) {
                    Some(Some(b)) => b,
                    _ => {
                        return None;
                    },
                };
                Some(Some((a as u8, b as u8)))
            } else {
                None
            }
        },
        _ => None,
    }
}

/// Converts the content-type member.
fn content_type_from(o: Option<&Json>) -> (r: Option<ContentType>)
    ensures
        match r {
            Some(ct) => spec_content_type_of(oview(o)) == Some(ct@),
            None => spec_content_type_of(oview(o)) is None,
        },
{
    match o {
        Some(Json::Str(s)) => {
            if chars_eq_str(s, "movie") {
                Some(ContentType::Movie)
            } else if chars_eq_str(s, "tv_show") {
                Some(ContentType::TVShow)
            } else if chars_eq_str(s, "music") {
                Some(ContentType::Music)
            } else if chars_eq_str(s, "software") {
                Some(ContentType::Software)
            } else if chars_eq_str(s, "book") {
                Some(ContentType::Book)
            } else if chars_eq_str(s, "game") {
                Some(ContentType::Game)
            } else {
                None
            }
        },
        Some(Json::Obj(ms)) => {
            proof {
                lemma_obj_view(ms@);
            }
            if ms.len() == 1 && chars_eq_str(&ms[0].0, "other") {
                match &ms[0].1 {
                    Json::Str(label) => Some(ContentType::Other(chars_to_string(label))),
                    _ => None,
                }
            } else {
                None
            }
        },
        _ => None,
    }
}

/// Converts the television-details member.
fn tv_from(o: Option<&Json>) -> (r: Option<Option<TvDetails>>)
    ensures
        match r {
            Some(otv) => spec_tv_of(oview(o)) == Some(
                match otv {
                    Some(tv) => Some(tv@),
                    None => None,
                },
            ),
            None => spec_tv_of(oview(o)) is None,
        },
{
    match o {
        None => Some(None),
        Some(Json::Null) => Some(None),
        Some(Json::Obj(ms)) => {
            let season = match opt_small_from(obj_lookup(ms, "season"), 255) {
                Some(s) => s,
                None => {
                    return None;
                },
            };
            let episode = match opt_small_from(obj_lookup(ms, "episode"), 255) {
                Some(e) => e,
                None => {
                    return None;
                },
            };
            let episode_range = match opt_range_from(obj_lookup(ms, "episode_range")) {
                Some(rg) => rg,
                None => {
                    return None;
                },
            };
            let complete_season = match req_bool_from(obj_lookup(ms, "complete_season")) {
                Some(b) => b,
                None => {
                    return None;
                },
            };
            let complete_series = match req_bool_from(obj_lookup(ms, "complete_series")) {
                Some(b) => b,
                None => {
                    return None;
                },
            };
            Some(
                Some(
                    TvDetails {
                        season: match season {
                            Some(n) => Some(n as u8),
                            None => None,
                        },
                        episode: match episode {
                            Some(n) => Some(n as u8),
                            None => None,
                        },
                        episode_range,
                        complete_season,
                        complete_series,
                    },
                ),
            )
        },
        _ => None,
    }
}

/// Builds the structured intent a parsed value stands for.
pub fn intent_from_json(j: &Json) -> (r: Option<SearchIntent>)
    ensures
        match r {
            Some(it) => spec_intent_of(jview(*j)) == Some(it@),
            None => spec_intent_of(jview(*j)) is None,
        },
{
    let members = match j {
        Json::Obj(ms) => ms,
        _ => {
            return None;
        },
    };
    let content_type = match content_type_from(obj_lookup(members, "content_type")) {
        Some(ct) => ct,
        None => {
            return None;
        },
    };
    let title = match req_str_from(obj_lookup(members, "title")) {
        Some(t) => t,
        None => {
            return None;
        },
    };
    let year = match opt_small_from(obj_lookup(members, "year"), 65535) {
        Some(y) => y,
        None => {
            return None;
        },
    };
    let tv_details = match tv_from(obj_lookup(members, "tv_details")) {
        Some(tv) => tv,
        None => {
            return None;
        },
    };
    let quality_preferences = match req_strs_from(obj_lookup(members, "quality_preferences")) {
        Some(q) => q,
        None => {
            return None;
        },
    };
    let language = match opt_str_from(obj_lookup(members, "language")) {
        Some(l) => l,
        None => {
            return None;
        },
    };
    let additional_context = match req_strs_from(obj_lookup(members, "additional_context")) {
        Some(a) => a,
        None => {
            return None;
        },
    };
    Some(
        SearchIntent {
            content_type,
            title,
            year: match year {
                Some(n) => Some(n as u16),
                None => None,
            },
            tv_details,
            quality_preferences,
            language,
            additional_context,
        },
    )
}

/// Both sides of `spec_hints`: it succeeds exactly when every value is an
/// array of strings, and then maps the pairs one for one.
proof fn lemma_spec_hints(ms: Seq<(Seq<char>, JsonV)>)
    ensures
        spec_hints(ms) is Some <==> (forall|k: int|
            0 <= k < ms.len() ==> spec_req_strs(Some((#[trigger] ms[k]).1)) is Some),
        spec_hints(ms) matches Some(r) ==> r.len() == ms.len() && (forall|k: int|
            0 <= k < ms.len() ==> #[trigger] r[k] == (
                ms[k].0,
                spec_req_strs(Some(ms[k].1))->Some_0,
            )),
    decreases ms,
{
    if ms.len() > 0 {
        lemma_spec_hints(ms.drop_first());
        assert forall|k: int| 0 <= k < ms.len() - 1 implies #[trigger] ms.drop_first()[k] == ms[k
            + 1] by {}
        if forall|k: int| 0 <= k < ms.len() ==> spec_req_strs(Some((#[trigger] ms[k]).1)) is Some {
            assert(spec_req_strs(Some(ms[0].1)) is Some);
            assert forall|k: int| 0 <= k < ms.drop_first().len() implies spec_req_strs(
                Some((#[trigger] ms.drop_first()[k]).1),
            ) is Some by {
                assert(ms.drop_first()[k] == ms[k + 1]);
                assert(spec_req_strs(Some(ms[k + 1].1)) is Some);
            }
            assert(spec_hints(ms.drop_first()) is Some);
        }
        if spec_hints(ms) is Some {
            assert(spec_hints(ms.drop_first()) is Some);
            assert forall|k: int| 0 <= k < ms.len() implies spec_req_strs(
                Some((#[trigger] ms[k]).1),
            ) is Some by {
                if k > 0 {
                    assert(spec_req_strs(Some(ms.drop_first()[k - 1].1)) is Some);
                }
            }
            let r = spec_hints(ms)->Some_0;
            let rest = spec_hints(ms.drop_first())->Some_0;
            assert forall|k: int| 0 <= k < ms.len() implies #[trigger] r[k] == (
                ms[k].0,
                spec_req_strs(Some(ms[k].1))->Some_0,
            ) by {
                if k > 0 {
                    assert(rest[k - 1] == (
                        ms.drop_first()[k - 1].0,
                        spec_req_strs(Some(ms.drop_first()[k - 1].1))->Some_0,
                    ));
                }
            }
        }
    }
}

/// Converts the scraper-hints member.
#[verifier::loop_isolation(false)]
fn hints_from(o: Option<&Json>) -> (r: Option<Vec<(String, Vec<String>)>>)
    ensures
        match r {
            Some(v) => spec_hints_of(oview(o)) == Some(hints_view(v@)),
            None => spec_hints_of(oview(o)) is None,
        },
{
    let ms = match o {
        Some(Json::Obj(ms)) => ms,
        _ => {
            return None;
        },
    };
    proof {
        lemma_obj_view(ms@);
        lemma_spec_hints(obj_view(ms@));
    }
    let mut out: Vec<(String, Vec<String>)> = Vec::new();
    let mut i: usize = 0;
    while i < ms.len()
        invariant
            i <= ms@.len(),
            obj_view(ms@).len() == ms@.len(),
            forall|k: int| 0 <= k < ms@.len() ==> obj_view(ms@)[k] == (
                (#[trigger] ms@[k]).0@,
                jview(ms@[k].1),
            ),
            out@.len() == i,
            forall|k: int| 0 <= k < i ==> spec_req_strs(
                Some((#[trigger] obj_view(ms@)[k]).1),
            ) is Some,
            forall|k: int| 0 <= k < i ==> (#[trigger] out@[k]).0@ == obj_view(ms@)[k].0
                && out@[k].1.deep_view() == spec_req_strs(Some(obj_view(ms@)[k].1))->Some_0,
        decreases ms@.len() - i,
    {
        let key = chars_to_string(&ms[i].0);
        let strs = match req_strs_from(Some(&ms[i].1)) {
            Some(v) => v,
            None => {
                proof {
                    assert(spec_req_strs(Some(obj_view(ms@)[i as int].1)) is None);
                }
                return None;
            },
        };
        out.push((key, strs));
        i = i + 1;
    }
    proof {
        let r = spec_hints(obj_view(ms@))->Some_0;
        assert(hints_view(out@) =~= r);
    }
    Some(out)
}

/// Builds the query plan a parsed value stands for.
pub fn strategy_from_json(j: &Json) -> (r: Option<SearchStrategy>)
    ensures
        match r {
            Some(st) => spec_strategy_of(jview(*j)) == Some(st@),
            None => spec_strategy_of(jview(*j)) is None,
        },
{
    let members = match j {
        Json::Obj(ms) => ms,
        _ => {
            return None;
        },
    };
    let primary_queries = match req_strs_from(obj_lookup(members, "primary_queries")) {
        Some(q) => q,
        None => {
            return None;
        },
    };
    let fallback_queries = match req_strs_from(obj_lookup(members, "fallback_queries")) {
        Some(q) => q,
        None => {
            return None;
        },
    };
    let scraper_hints = match hints_from(obj_lookup(members, "scraper_hints")) {
        Some(h) => h,
        None => {
            return None;
        },
    };
    Some(SearchStrategy { primary_queries, fallback_queries, scraper_hints })
}


/// The intent a whole response stands for: the outermost braced span,
/// parsed as JSON, read as an intent.
pub open spec fn spec_intent_response(s: Seq<char>) -> Option<SearchIntentView> {
    match spec_extract_span(s, '{', '}') {
        None => None,
        Some(span) => match spec_json(span) {
            None => None,
            Some(v) => spec_intent_of(v),
        },
    }
}

/// Parses the text-generation response for the intent stage. The service
/// may wrap the object in prose, so the slice from the first `{` to the
/// last `}` is what gets parsed; anything less than a well-formed intent
/// object in that span fails the request.
pub fn parse_intent_response(response: &str) -> (r: Result<SearchIntent, PipelineError>)
    ensures
        match r {
            Ok(it) => spec_intent_response(response@) == Some(it@),
            Err(e) => e == PipelineError::IntentParse && spec_intent_response(response@) is None,
        },
{
    let chars = str_chars_vec(response);
    let span = match extract_span(&chars, '{', '}') {
        Some(s) => s,
        None => {
            return Err(PipelineError::IntentParse);
        },
    };
    let parsed = match parse_json(&span) {
        Some(j) => j,
        None => {
            return Err(PipelineError::IntentParse);
        },
    };
    match intent_from_json(&parsed) {
        Some(it) => Ok(it),
        None => Err(PipelineError::IntentParse),
    }
}

/// The query plan a whole response stands for.
pub open spec fn spec_strategy_response(s: Seq<char>) -> Option<SearchStrategyView> {
    match spec_extract_span(s, '{', '}') {
        None => None,
        Some(span) => match spec_json(span) {
            None => None,
            Some(v) => spec_strategy_of(v),
        },
    }
}

/// Parses the text-generation response for the planning stage, under the
/// same outermost-braces rule as the intent stage.
pub fn parse_strategy_response(response: &str) -> (r: Result<SearchStrategy, PipelineError>)
    ensures
        match r {
            Ok(st) => spec_strategy_response(response@) == Some(st@),
            Err(e) => e == PipelineError::StrategyParse && spec_strategy_response(response@)
                is None,
        },
{
    let chars = str_chars_vec(response);
    let span = match extract_span(&chars, '{', '}') {
        Some(s) => s,
        None => {
            return Err(PipelineError::StrategyParse);
        },
    };
    let parsed = match parse_json(&span) {
        Some(j) => j,
        None => {
            return Err(PipelineError::StrategyParse);
        },
    };
    match strategy_from_json(&parsed) {
        Some(st) => Ok(st),
        None => Err(PipelineError::StrategyParse),
    }
}

/// Robustness to surrounding text: a braced body between prose that adds
/// no `{` before it and no `}` after it is read exactly as the body alone.
pub proof fn lemma_intent_robust_to_prose(before: Seq<char>, body: Seq<char>, after: Seq<char>)
    requires
        !has_char(before, '{'),
        !has_char(after, '}'),
        body.len() > 0,
        body[0] == '{',
        body[body.len() - 1] == '}',
    ensures
        spec_intent_response(before + body + after) == spec_intent_response(body),
        spec_strategy_response(before + body + after) == spec_strategy_response(body),
{
    let s = before + body + after;
    lemma_prose_span(before, body, after);
    assert(spec_extract_span(s, '{', '}') == Some(body));
    assert(spec_extract_span(body, '{', '}') == Some(body));
}

/// The span between the outermost braces of prose-wrapped text is the
/// braced body itself, both in the wrapped text and in the body alone.
pub proof fn lemma_prose_span(before: Seq<char>, body: Seq<char>, after: Seq<char>)
    requires
        !has_char(before, '{'),
        !has_char(after, '}'),
        body.len() > 0,
        body[0] == '{',
        body[body.len() - 1] == '}',
    ensures
        spec_extract_span(before + body + after, '{', '}') == Some(body),
        spec_extract_span(body, '{', '}') == Some(body),
{
    let s = before + body + after;
    let open_at = before.len() as int;
    let close_at = before.len() + body.len() - 1;
    assert(s[open_at] == '{');
    assert(s[close_at] == '}');
    assert(has_char(s, '{'));
    assert(has_char(s, '}'));
    lemma_first_idx(s, '{');
    lemma_last_idx(s, '}');
    let f = first_idx(s, '{');
    let l = last_idx(s, '}');
    if f < open_at {
        assert(before[f] == '{');
        assert(has_char(before, '{'));
    }
    if f > open_at {
        assert(s[open_at] != '{');
    }
    assert(f == open_at);
    if l > close_at {
        assert(after[l - close_at - 1] == s[l]);
        assert(has_char(after, '}'));
    }
    if l < close_at {
        assert(s[close_at] != '}');
    }
    assert(l == close_at);
    assert(s.subrange(f, l + 1) =~= body);
    assert(has_char(body, '{')) by {
        assert(body[0] == '{');
    }
    assert(has_char(body, '}')) by {
        assert(body[body.len() - 1] == '}');
    }
    lemma_first_idx(body, '{');
    lemma_last_idx(body, '}');
    let fb = first_idx(body, '{');
    let lb = last_idx(body, '}');
    if fb > 0 {
        assert(body[0] != '{');
    }
    if lb < body.len() - 1 {
        assert(body[body.len() - 1] != '}');
    }
    assert(fb == 0);
    assert(lb == body.len() - 1);
    assert(body.subrange(0, body.len() as int) =~= body);
}

/// A score read from a number, clamped to the unit interval: negatives
/// fall to zero, anything at one or above saturates at one.
pub open spec fn spec_score_of(n: JsonNum) -> u32 {
    if n.neg {
        0u32
    } else if n.int_part >= 1 {
        SCORE_UNIT
    } else if n.milli >= SCORE_UNIT {
        SCORE_UNIT
    } else {
        n.milli
    }
}

/// A scoring field: a number scores, anything else falls back to zero.
pub open spec fn spec_score_field(ms: Seq<(Seq<char>, JsonV)>, key: Seq<char>) -> u32 {
    match jv_lookup(ms, key) {
        Some(JsonV::Num(n)) => spec_score_of(n),
        _ => 0u32,
    }
}

/// The strings among a sequence of values; anything else is passed over.
pub open spec fn spec_texts(items: Seq<JsonV>) -> Seq<Seq<char>>
    decreases items,
{
    if items.len() == 0 {
        Seq::empty()
    } else {
        match items[0] {
            JsonV::Str(s) => seq![s] + spec_texts(items.drop_first()),
            _ => spec_texts(items.drop_first()),
        }
    }
}

/// A text-list field: the strings of an array, or nothing at all.
pub open spec fn spec_texts_field(ms: Seq<(Seq<char>, JsonV)>, key: Seq<char>) -> Seq<Seq<char>> {
    match jv_lookup(ms, key) {
        Some(JsonV::Arr(items)) => spec_texts(items),
        _ => Seq::empty(),
    }
}

/// The evaluation one response element gives one record: every missing or
/// malformed field falls back to zero or to the empty list, never failing
/// the record.
pub open spec fn spec_eval_of(elem: JsonV, rec: TorrentResultView) -> EvaluatedResultView {
    match elem {
        JsonV::Obj(ms) => EvaluatedResultView {
            torrent: rec,
            relevance_score: spec_score_field(ms, "relevance_score"@),
            confidence: spec_score_field(ms, "confidence"@),
            match_reasons: spec_texts_field(ms, "match_reasons"@),
            warnings: spec_texts_field(ms, "warnings"@),
            quality_score: spec_score_field(ms, "quality_score"@),
            completeness_score: spec_score_field(ms, "completeness_score"@),
        },
        _ => EvaluatedResultView {
            torrent: rec,
            relevance_score: 0u32,
            confidence: 0u32,
            match_reasons: Seq::empty(),
            warnings: Seq::empty(),
            quality_score: 0u32,
            completeness_score: 0u32,
        },
    }
}

/// The evaluations of records paired with response elements by position:
/// exactly one per record the response array has an element for; records
/// past the array's end are dropped, extra elements are ignored.
pub open spec fn spec_evals(arr: Seq<JsonV>, recs: Seq<TorrentResultView>) -> Seq<
    EvaluatedResultView,
> {
    Seq::new(
        if arr.len() <= recs.len() {
            arr.len()
        } else {
            recs.len()
        },
        |i: int| spec_eval_of(arr[i], recs[i]),
    )
}

/// The evaluations a whole response stands for: the outermost bracketed
/// span must parse as a JSON array, else the call fails.
pub open spec fn spec_evaluation_response(s: Seq<char>, recs: Seq<TorrentResultView>) -> Option<
    Seq<EvaluatedResultView>,
> {
    match spec_extract_span(s, '[', ']') {
        None => None,
        Some(span) => match spec_json(span) {
            Some(JsonV::Arr(items)) => Some(spec_evals(items, recs)),
            _ => None,
        },
    }
}

fn score_of(n: &JsonNum) -> (r: u32)
    ensures
        r == spec_score_of(*n),
        r <= SCORE_UNIT,
{
    if n.neg {
        0
    } else if n.int_part >= 1 {
        SCORE_UNIT
    } else if n.milli >= SCORE_UNIT {
        SCORE_UNIT
    } else {
        n.milli
    }
}

fn score_field(ms: &Vec<(Vec<char>, Json)>, key: &str) -> (r: u32)
    ensures
        r == spec_score_field(obj_view(ms@), key@),
        r <= SCORE_UNIT,
{
    match obj_lookup(ms, key) {
        Some(Json::Num(n)) => score_of(n),
        _ => 0,
    }
}

/// Collects the strings among the items from `i` on.
fn texts_from(items: &Vec<Json>, i: usize) -> (r: Vec<String>)
    requires
        i <= items@.len(),
    ensures
        r.deep_view() == spec_texts(arr_view(items@).skip(i as int)),
    decreases items@.len() - i,
{
    proof {
        lemma_arr_view(items@);
    }
    if i >= items.len() {
        let r: Vec<String> = Vec::new();
        proof {
            assert(r.deep_view() =~= spec_texts(arr_view(items@).skip(i as int)));
        }
        r
    } else {
        proof {
            assert(arr_view(items@).skip(i as int).len() > 0);
            assert(arr_view(items@).skip(i as int)[0] == arr_view(items@)[i as int]);
            assert(arr_view(items@).skip(i as int).drop_first() =~= arr_view(items@).skip(
                i as int + 1,
            ));
        }
        match &items[i] {
            Json::Str(s) => {
                let ghost s_view = s@;
                let text = chars_to_string(s);
                let mut r = texts_from(items, i + 1);
                let ghost rest_view = r.deep_view();
                r.insert(0, text);
                proof {
                    assert(r.deep_view() =~= seq![s_view] + rest_view);
                }
                r
            },
            _ => texts_from(items, i + 1),
        }
    }
}

fn texts_field(ms: &Vec<(Vec<char>, Json)>, key: &str) -> (r: Vec<String>)
    ensures
        r.deep_view() == spec_texts_field(obj_view(ms@), key@),
{
    match obj_lookup(ms, key) {
        Some(Json::Arr(items)) => {
            let r = texts_from(items, 0);
            proof {
                assert(arr_view(items@).skip(0) =~= arr_view(items@));
            }
            r
        },
        _ => {
            let r: Vec<String> = Vec::new();
            proof {
                assert(r.deep_view() =~= Seq::<Seq<char>>::empty());
            }
            r
        },
    }
}

/// Scores one record from its response element.
fn eval_of_elem(elem: &Json, rec: TorrentResult) -> (ev: EvaluatedResult)
    ensures
        ev@ == spec_eval_of(jview(*elem), rec@),
        ev@.wf(),
{
    match elem {
        Json::Obj(ms) => EvaluatedResult {
            torrent: rec,
            relevance_score: score_field(ms, "relevance_score"),
            confidence: score_field(ms, "confidence"),
            match_reasons: texts_field(ms, "match_reasons"),
            warnings: texts_field(ms, "warnings"),
            quality_score: score_field(ms, "quality_score"),
            completeness_score: score_field(ms, "completeness_score"),
        },
        _ => {
            let reasons: Vec<String> = Vec::new();
            let warnings: Vec<String> = Vec::new();
            proof {
                assert(reasons.deep_view() =~= Seq::<Seq<char>>::empty());
                assert(warnings.deep_view() =~= Seq::<Seq<char>>::empty());
            }
            EvaluatedResult {
                torrent: rec,
                relevance_score: 0,
                confidence: 0,
                match_reasons: reasons,
                warnings: warnings,
                quality_score: 0,
                completeness_score: 0,
            }
        },
    }
}

/// Parses the text-generation response for the evaluation stage: the
/// outermost bracketed span must hold a JSON array, whose elements score
/// the records by position. Fields are recovered with defaults; a missing
/// element drops its record; only an unparseable array fails the call.
#[verifier::loop_isolation(false)]
#[verifier::rlimit(60)]
pub fn parse_evaluation_response(response: &str, results: Vec<TorrentResult>) -> (r: Result<
    Vec<EvaluatedResult>,
    PipelineError,
>)
    ensures
        match r {
            Ok(evs) => spec_evaluation_response(response@, torrents_view(results@)) == Some(
                evals_view(evs@),
            ) && forall|k: int| 0 <= k < evs@.len() ==> (#[trigger] evs@[k])@.wf(),
            Err(e) => e == PipelineError::EvaluationParse && spec_evaluation_response(
                response@,
                torrents_view(results@),
            ) is None,
        },
{
    let ghost recs = torrents_view(results@);
    let chars = str_chars_vec(response);
    let span = match extract_span(&chars, '[', ']') {
        Some(s) => s,
        None => {
            return Err(PipelineError::EvaluationParse);
        },
    };
    let parsed = match parse_json(&span) {
        Some(j) => j,
        None => {
            return Err(PipelineError::EvaluationParse);
        },
    };
    let items = match parsed {
        Json::Arr(items) => items,
        _ => {
            return Err(PipelineError::EvaluationParse);
        },
    };
    proof {
        lemma_arr_view(items@);
    }
    let count = if items.len() <= results.len() {
        items.len()
    } else {
        results.len()
    };
    let ghost results0 = results@;
    let mut rest = results;
    let mut out: Vec<EvaluatedResult> = Vec::new();
    let mut i: usize = 0;
    while i < count
        invariant
            i <= count,
            out@.len() == i,
            rest@ =~= results0.skip(i as int),
            forall|k: int| 0 <= k < i ==> (#[trigger] out@[k])@ == spec_eval_of(
                arr_view(items@)[k],
                recs[k],
            ),
            forall|k: int| 0 <= k < i ==> (#[trigger] out@[k])@.wf(),
        decreases count - i,
    {
        proof {
            assert(rest@[0] == results0[i as int]);
        }
        let rec = rest.remove(0);
        let ev = eval_of_elem(&items[i], rec);
        out.push(ev);
        i = i + 1;
        proof {
            assert(rest@ =~= results0.skip(i as int));
        }
    }
    proof {
        assert(evals_view(out@) =~= spec_evals(arr_view(items@), recs));
    }
    Ok(out)
}


/// The evaluation pairing law: exactly one evaluation comes back per
/// record the response array has an element for, each wrapping its own
/// record; records past the array's end are dropped, and nothing is
/// fabricated past either end.
pub proof fn lemma_evaluation_pairing(arr: Seq<JsonV>, recs: Seq<TorrentResultView>)
    ensures
        spec_evals(arr, recs).len() == if arr.len() <= recs.len() {
            arr.len()
        } else {
            recs.len()
        },
        forall|i: int| 0 <= i < spec_evals(arr, recs).len() ==> (#[trigger] spec_evals(
            arr,
            recs,
        )[i]).torrent == recs[i],
{
    assert forall|i: int| 0 <= i < spec_evals(arr, recs).len() implies (#[trigger] spec_evals(
        arr,
        recs,
    )[i]).torrent == recs[i] by {
        assert(spec_evals(arr, recs)[i] == spec_eval_of(arr[i], recs[i]));
    }
}

} // verus!



