use vstd::prelude::*;
use crate::models::{TorrentResult, TorrentResultView, EvaluatedResult, EvaluatedResultView,
    SearchIntent, SearchStrategy, PipelineError, Action, torrents_view, evals_view};
use crate::llm_service::{spec_intent_response, spec_strategy_response, spec_evaluation_response};
use crate::prompts::spec_evaluation_prompt;
use crate::RESULT_CAP;

verus! {

/// The default relevance floor for unattended downloads, in thousandths:
/// independent of the confidence floor applied before ranking.
pub const AUTO_DOWNLOAD_THRESHOLD: u32 = 900;

/// The set of texts a list of strings holds.
pub open spec fn strs_set(s: Seq<String>) -> Set<Seq<char>> {
    Set::new(|x: Seq<char>| exists|k: int| 0 <= k < s.len() && (#[trigger] s[k])@ == x)
}

/// Deduplication by identity, keeping the first record seen for each
/// magnet link; `seen` holds the links already taken.
pub open spec fn spec_dedup_from(s: Seq<TorrentResultView>, seen: Set<Seq<char>>) -> Seq<
    TorrentResultView,
>
    decreases s.len(),
{
    if s.len() == 0 {
        Seq::empty()
    } else if seen.contains(s[0].magnet_link) {
        spec_dedup_from(s.drop_first(), seen)
    } else {
        seq![s[0]] + spec_dedup_from(s.drop_first(), seen.insert(s[0].magnet_link))
    }
}

/// Deduplication of a whole list.
pub open spec fn spec_dedup(s: Seq<TorrentResultView>) -> Seq<TorrentResultView> {
    spec_dedup_from(s, Set::empty())
}

/// Whether position `k` holds the first record with its link.
pub open spec fn is_first_occurrence(s: Seq<TorrentResultView>, k: int) -> bool {
    forall|k2: int| 0 <= k2 < k ==> (#[trigger] s[k2]).magnet_link != s[k].magnet_link
}

proof fn lemma_dedup_from_unseen(s: Seq<TorrentResultView>, seen: Set<Seq<char>>)
    ensures
        forall|i: int| 0 <= i < spec_dedup_from(s, seen).len() ==> !seen.contains(
            (#[trigger] spec_dedup_from(s, seen)[i]).magnet_link,
        ),
    decreases s.len(),
{
    if s.len() > 0 {
        let rest = s.drop_first();
        let link0 = s[0].magnet_link;
        if seen.contains(link0) {
            lemma_dedup_from_unseen(rest, seen);
        } else {
            lemma_dedup_from_unseen(rest, seen.insert(link0));
            let d = spec_dedup_from(s, seen);
            let dr = spec_dedup_from(rest, seen.insert(link0));
            assert forall|i: int| 0 <= i < d.len() implies !seen.contains(
                (#[trigger] d[i]).magnet_link,
            ) by {
                if i > 0 {
                    assert(d[i] == dr[i - 1]);
                    assert(!seen.insert(link0).contains(dr[i - 1].magnet_link));
                }
            }
        }
    }
}

proof fn lemma_dedup_from_unique(s: Seq<TorrentResultView>, seen: Set<Seq<char>>)
    ensures
        forall|i: int, j: int| 0 <= i < j < spec_dedup_from(s, seen).len() ==> (
        #[trigger] spec_dedup_from(s, seen)[i]).magnet_link != (#[trigger] spec_dedup_from(
            s,
            seen,
        )[j]).magnet_link,
    decreases s.len(),
{
    if s.len() > 0 {
        let rest = s.drop_first();
        let link0 = s[0].magnet_link;
        if seen.contains(link0) {
            lemma_dedup_from_unique(rest, seen);
        } else {
            lemma_dedup_from_unique(rest, seen.insert(link0));
            lemma_dedup_from_unseen(rest, seen.insert(link0));
            let d = spec_dedup_from(s, seen);
            let dr = spec_dedup_from(rest, seen.insert(link0));
            assert forall|i: int, j: int| 0 <= i < j < d.len() implies (
            #[trigger] d[i]).magnet_link != (#[trigger] d[j]).magnet_link by {
                assert(d[j] == dr[j - 1]);
                assert(!seen.insert(link0).contains(dr[j - 1].magnet_link));
                if i > 0 {
                    assert(d[i] == dr[i - 1]);
                }
            }
        }
    }
}

proof fn lemma_dedup_from_complete(s: Seq<TorrentResultView>, seen: Set<Seq<char>>)
    ensures
        forall|k: int| 0 <= k < s.len() && !seen.contains((#[trigger] s[k]).magnet_link) ==> exists|
            i: int,
        | 0 <= i < spec_dedup_from(s, seen).len() && (#[trigger] spec_dedup_from(s, seen)[i]).magnet_link
            == s[k].magnet_link,
    decreases s.len(),
{
    if s.len() > 0 {
        let rest = s.drop_first();
        let link0 = s[0].magnet_link;
        assert forall|k: int| 0 <= k < rest.len() implies #[trigger] rest[k] == s[k + 1] by {}
        let d = spec_dedup_from(s, seen);
        if seen.contains(link0) {
            lemma_dedup_from_complete(rest, seen);
            assert forall|k: int|
                0 <= k < s.len() && !seen.contains((#[trigger] s[k]).magnet_link) implies exists|
                i: int,
            | 0 <= i < d.len() && (#[trigger] d[i]).magnet_link == s[k].magnet_link by {
                if k > 0 {
                    assert(rest[k - 1] == s[k]);
                }
            }
        } else {
            lemma_dedup_from_complete(rest, seen.insert(link0));
            let dr = spec_dedup_from(rest, seen.insert(link0));
            assert(d[0] == s[0]);
            assert forall|k: int|
                0 <= k < s.len() && !seen.contains((#[trigger] s[k]).magnet_link) implies exists|
                i: int,
            | 0 <= i < d.len() && (#[trigger] d[i]).magnet_link == s[k].magnet_link by {
                if k == 0 {
                    assert(d[0].magnet_link == s[0].magnet_link);
                } else if s[k].magnet_link == link0 {
                    assert(d[0].magnet_link == s[k].magnet_link);
                } else {
                    assert(rest[k - 1] == s[k]);
                    assert(!seen.insert(link0).contains(rest[k - 1].magnet_link));
                    let i = choose|i: int|
                        0 <= i < dr.len() && (#[trigger] dr[i]).magnet_link == rest[k
                            - 1].magnet_link;
                    assert(d[i + 1] == dr[i]);
                }
            }
        }
    }
}

proof fn lemma_dedup_from_first(s: Seq<TorrentResultView>, seen: Set<Seq<char>>)
    ensures
        forall|i: int| 0 <= i < spec_dedup_from(s, seen).len() ==> exists|k: int| 0 <= k < s.len()
            && (#[trigger] spec_dedup_from(s, seen)[i]) == s[k] && is_first_occurrence(s, k),
    decreases s.len(),
{
    if s.len() > 0 {
        let rest = s.drop_first();
        let link0 = s[0].magnet_link;
        assert forall|k: int| 0 <= k < rest.len() implies #[trigger] rest[k] == s[k + 1] by {}
        let d = spec_dedup_from(s, seen);
        if seen.contains(link0) {
            lemma_dedup_from_first(rest, seen);
            lemma_dedup_from_unseen(rest, seen);
            assert forall|i: int| 0 <= i < d.len() implies exists|k: int| 0 <= k < s.len() && (
            #[trigger] d[i]) == s[k] && is_first_occurrence(s, k) by {
                let k = choose|k: int| 0 <= k < rest.len() && d[i] == rest[k]
                    && is_first_occurrence(rest, k);
                assert(!seen.contains(d[i].magnet_link));
                assert(d[i].magnet_link != link0);
                assert(d[i] == s[k + 1]);
                assert forall|k2: int| 0 <= k2 < k + 1 implies (#[trigger] s[k2]).magnet_link
                    != s[k + 1].magnet_link by {
                    if k2 == 0 {
                        assert(s[k + 1] == rest[k]);
                    } else {
                        assert(s[k2] == rest[k2 - 1]);
                        assert(rest[k2 - 1].magnet_link != rest[k].magnet_link);
                    }
                }
                assert(is_first_occurrence(s, k + 1));
            }
        } else {
            lemma_dedup_from_first(rest, seen.insert(link0));
            lemma_dedup_from_unseen(rest, seen.insert(link0));
            let dr = spec_dedup_from(rest, seen.insert(link0));
            assert(d[0] == s[0]);
            assert forall|i: int| 0 <= i < d.len() implies exists|k: int| 0 <= k < s.len() && (
            #[trigger] d[i]) == s[k] && is_first_occurrence(s, k) by {
                if i == 0 {
                    assert(d[0] == s[0] && is_first_occurrence(s, 0));
                } else {
                    assert(d[i] == dr[i - 1]);
                    let k = choose|k: int| 0 <= k < rest.len() && dr[i - 1] == rest[k]
                        && is_first_occurrence(rest, k);
                    assert(!seen.insert(link0).contains(dr[i - 1].magnet_link));
                    assert(dr[i - 1].magnet_link != link0);
                    assert(d[i] == s[k + 1]);
                    assert forall|k2: int| 0 <= k2 < k + 1 implies (#[trigger] s[k2]).magnet_link
                        != s[k + 1].magnet_link by {
                        if k2 == 0 {
                            assert(s[k + 1] == rest[k]);
                        } else {
                            assert(s[k2] == rest[k2 - 1]);
                            assert(rest[k2 - 1].magnet_link != rest[k].magnet_link);
                        }
                    }
                    assert(is_first_occurrence(s, k + 1));
                }
            }
        }
    }
}

/// The deduplication law: the output holds at most one record for each
/// magnet link, every link of the input survives, and each kept record is
/// the first of its link in input order.
pub proof fn lemma_dedup_properties(s: Seq<TorrentResultView>)
    ensures
        forall|i: int, j: int| 0 <= i < j < spec_dedup(s).len() ==> (
        #[trigger] spec_dedup(s)[i]).magnet_link != (#[trigger] spec_dedup(s)[j]).magnet_link,
        forall|k: int| 0 <= k < s.len() ==> exists|i: int| 0 <= i < spec_dedup(s).len() && (
        #[trigger] spec_dedup(s)[i]).magnet_link == (#[trigger] s[k]).magnet_link,
        forall|i: int| 0 <= i < spec_dedup(s).len() ==> exists|k: int| 0 <= k < s.len() && (
        #[trigger] spec_dedup(s)[i]) == s[k] && is_first_occurrence(s, k),
{
    lemma_dedup_from_unique(s, Set::empty());
    lemma_dedup_from_complete(s, Set::empty());
    lemma_dedup_from_first(s, Set::empty());
}

/// Whether `link` spells a text already seen.
fn seen_contains(seen: &Vec<String>, link: &String) -> (r: bool)
    ensures
        r == strs_set(seen@).contains(link@),
{
    let mut i: usize = 0;
    while i < seen.len()
        invariant
            i <= seen@.len(),
            forall|j: int| 0 <= j < i ==> (#[trigger] seen@[j])@ != link@,
        decreases seen@.len() - i,
    {
        if seen[i].eq(link) {
            proof {
                assert(seen@[i as int]@ == link@);
            }
            return true;
        }
        i = i + 1;
    }
    proof {
        if strs_set(seen@).contains(link@) {
            let k = choose|k: int| 0 <= k < seen@.len() && (#[trigger] seen@[k])@ == link@;
            assert(seen@[k]@ != link@);
        }
    }
    false
}


/// Removes duplicate records, keeping the first record seen for each
/// magnet link and the order in which links first appeared.
#[verifier::loop_isolation(false)]
pub fn deduplicate_results(results: Vec<TorrentResult>) -> (r: Vec<TorrentResult>)
    ensures
        torrents_view(r@) == spec_dedup(torrents_view(results@)),
{
    let ghost orig = torrents_view(results@);
    let mut rest = results;
    let mut out: Vec<TorrentResult> = Vec::new();
    let mut seen: Vec<String> = Vec::new();
    proof {
        assert(strs_set(seen@) =~= Set::<Seq<char>>::empty());
        assert(torrents_view(out@) + spec_dedup_from(torrents_view(rest@), strs_set(seen@))
            =~= spec_dedup_from(orig, Set::empty()));
    }
    while rest.len() > 0
        invariant
            spec_dedup(orig) == torrents_view(out@) + spec_dedup_from(
                torrents_view(rest@),
                strs_set(seen@),
            ),
        decreases rest@.len(),
    {
        let ghost rest_before = torrents_view(rest@);
        let ghost seen_before = strs_set(seen@);
        let rec = rest.remove(0);
        let ghost rec_view = rec@;
        proof {
            assert(rest_before[0] == rec_view);
            assert(torrents_view(rest@) =~= rest_before.drop_first());
        }
        if seen_contains(&seen, &rec.magnet_link) {
            proof {
                assert(spec_dedup_from(rest_before, seen_before) == spec_dedup_from(
                    rest_before.drop_first(),
                    seen_before,
                ));
            }
        } else {
            let ghost out_before = torrents_view(out@);
            let ghost seen_seq_before = seen@;
            let ghost link_str: String = rec.magnet_link;
            seen.push(rec.magnet_link.clone());
            out.push(rec);
            proof {
                assert(seen@ =~= seen_seq_before.push(link_str));
                assert(link_str@ == rec_view.magnet_link);
                assert(strs_set(seen@) =~= seen_before.insert(rec_view.magnet_link)) by {
                    assert forall|x: Seq<char>| strs_set(seen@).contains(x) implies seen_before.insert(
                        rec_view.magnet_link,
                    ).contains(x) by {
                        let k = choose|k: int| 0 <= k < seen@.len() && (#[trigger] seen@[k])@ == x;
                        if k < seen_seq_before.len() {
                            assert(seen_seq_before[k]@ == x);
                        }
                    }
                    assert forall|x: Seq<char>| seen_before.insert(rec_view.magnet_link).contains(
                        x,
                    ) implies strs_set(seen@).contains(x) by {
                        if x == rec_view.magnet_link {
                            assert((seen@[seen@.len() - 1])@ == x);
                        } else {
                            let k = choose|k: int| 0 <= k < seen_seq_before.len() && (
                            #[trigger] seen_seq_before[k])@ == x;
                            assert(seen@[k]@ == x);
                        }
                    }
                }
                assert(torrents_view(out@) =~= out_before + seq![rec_view]);
                assert(spec_dedup_from(rest_before, seen_before) == seq![rec_view]
                    + spec_dedup_from(
                    rest_before.drop_first(),
                    seen_before.insert(rec_view.magnet_link),
                ));
                assert(out_before + spec_dedup_from(rest_before, seen_before) =~= torrents_view(
                    out@,
                ) + spec_dedup_from(rest_before.drop_first(), strs_set(seen@)));
            }
        }
    }
    proof {
        assert(torrents_view(rest@).len() == 0);
        assert(spec_dedup(orig) =~= torrents_view(out@));
    }
    out
}

/// The evaluated records whose confidence reaches the threshold, in their
/// given order.
pub open spec fn spec_keep(s: Seq<EvaluatedResultView>, min: u32) -> Seq<EvaluatedResultView>
    decreases s.len(),
{
    if s.len() == 0 {
        Seq::empty()
    } else if s[0].confidence >= min {
        seq![s[0]] + spec_keep(s.drop_first(), min)
    } else {
        spec_keep(s.drop_first(), min)
    }
}

/// Insertion into a non-increasing run: the new record goes after every
/// record scoring at least as much, which keeps earlier equals first.
pub open spec fn spec_insert_desc(sorted: Seq<EvaluatedResultView>, e: EvaluatedResultView) -> Seq<
    EvaluatedResultView,
>
    decreases sorted.len(),
{
    if sorted.len() == 0 {
        seq![e]
    } else if sorted[0].relevance_score < e.relevance_score {
        seq![e] + sorted
    } else {
        seq![sorted[0]] + spec_insert_desc(sorted.drop_first(), e)
    }
}

/// Stable insertion sort, non-increasing by relevance.
pub open spec fn spec_sort_desc(s: Seq<EvaluatedResultView>) -> Seq<EvaluatedResultView>
    decreases s.len(),
{
    if s.len() == 0 {
        Seq::empty()
    } else {
        spec_insert_desc(spec_sort_desc(s.drop_last()), s.last())
    }
}

/// What ranking returns: the confident records, sorted.
pub open spec fn spec_rank(s: Seq<EvaluatedResultView>, min: u32) -> Seq<EvaluatedResultView> {
    spec_sort_desc(spec_keep(s, min))
}

/// A run that never increases in relevance.
pub open spec fn sorted_desc(s: Seq<EvaluatedResultView>) -> bool {
    forall|i: int, j: int| 0 <= i < j < s.len() ==> (#[trigger] s[i]).relevance_score >= (
    #[trigger] s[j]).relevance_score
}

#[verifier::spinoff_prover]
proof fn lemma_insert_desc(sorted: Seq<EvaluatedResultView>, e: EvaluatedResultView)
    requires
        sorted_desc(sorted),
    ensures
        sorted_desc(spec_insert_desc(sorted, e)),
        spec_insert_desc(sorted, e).len() == sorted.len() + 1,
        forall|i: int| 0 <= i < spec_insert_desc(sorted, e).len() ==> (
        #[trigger] spec_insert_desc(sorted, e)[i]) == e || exists|j: int| 0 <= j < sorted.len()
            && spec_insert_desc(sorted, e)[i] == sorted[j],
    decreases sorted.len(),
{
    let d = spec_insert_desc(sorted, e);
    if sorted.len() == 0 {
    } else if sorted[0].relevance_score < e.relevance_score {
        assert forall|i: int| 0 <= i < d.len() implies (#[trigger] d[i]) == e || exists|j: int|
            0 <= j < sorted.len() && d[i] == sorted[j] by {
            if i > 0 {
                assert(d[i] == sorted[i - 1]);
            }
        }
    } else {
        let rest = sorted.drop_first();
        assert forall|k: int| 0 <= k < rest.len() implies #[trigger] rest[k] == sorted[k + 1] by {}
        lemma_insert_desc(rest, e);
        let dr = spec_insert_desc(rest, e);
        assert(d == seq![sorted[0]] + dr);
        assert forall|i: int| 0 <= i < d.len() implies (#[trigger] d[i]) == e || exists|j: int|
            0 <= j < sorted.len() && d[i] == sorted[j] by {
            if i == 0 {
                assert(d[0] == sorted[0]);
            } else {
                assert(d[i] == dr[i - 1]);
                if dr[i - 1] == e {
                } else {
                    let j = choose|j: int| 0 <= j < rest.len() && dr[i - 1] == rest[j];
                    assert(d[i] == sorted[j + 1]);
                }
            }
        }
        assert forall|i: int, j: int| 0 <= i < j < d.len() implies (#[trigger] d[i]).relevance_score
            >= (#[trigger] d[j]).relevance_score by {
            if i > 0 {
                assert(d[i] == dr[i - 1] && d[j] == dr[j - 1]);
            } else {
                assert(d[j] == dr[j - 1]);
                if dr[j - 1] == e {
                } else {
                    let j2 = choose|j2: int| 0 <= j2 < rest.len() && dr[j - 1] == rest[j2];
                    assert(rest[j2] == sorted[j2 + 1]);
                }
            }
        }
    }
}

#[verifier::spinoff_prover]
proof fn lemma_sort_desc(s: Seq<EvaluatedResultView>)
    ensures
        sorted_desc(spec_sort_desc(s)),
        spec_sort_desc(s).len() == s.len(),
        forall|i: int| 0 <= i < spec_sort_desc(s).len() ==> exists|j: int| 0 <= j < s.len() && (
        #[trigger] spec_sort_desc(s)[i]) == s[j],
    decreases s.len(),
{
    if s.len() > 0 {
        let front = s.drop_last();
        lemma_sort_desc(front);
        lemma_insert_desc(spec_sort_desc(front), s.last());
        assert forall|i: int| 0 <= i < spec_sort_desc(s).len() implies exists|j: int|
            0 <= j < s.len() && (#[trigger] spec_sort_desc(s)[i]) == s[j] by {
            let d = spec_sort_desc(s);
            if d[i] == s.last() {
                assert(d[i] == s[s.len() - 1]);
            } else {
                let j = choose|j: int| 0 <= j < spec_sort_desc(front).len() && d[i]
                    == spec_sort_desc(front)[j];
                let j2 = choose|j2: int| 0 <= j2 < front.len() && spec_sort_desc(front)[j]
                    == front[j2];
                assert(front[j2] == s[j2]);
            }
        }
    }
}

#[verifier::spinoff_prover]
proof fn lemma_keep(s: Seq<EvaluatedResultView>, min: u32)
    ensures
        forall|i: int| 0 <= i < spec_keep(s, min).len() ==> (
        #[trigger] spec_keep(s, min)[i]).confidence >= min,
        forall|i: int| 0 <= i < spec_keep(s, min).len() ==> exists|j: int| 0 <= j < s.len() && (
        #[trigger] spec_keep(s, min)[i]) == s[j],
    decreases s.len(),
{
    if s.len() > 0 {
        let rest = s.drop_first();
        assert forall|k: int| 0 <= k < rest.len() implies #[trigger] rest[k] == s[k + 1] by {}
        lemma_keep(rest, min);
        let d = spec_keep(s, min);
        if s[0].confidence >= min {
            assert forall|i: int| 0 <= i < d.len() implies exists|j: int| 0 <= j < s.len() && (
            #[trigger] d[i]) == s[j] by {
                if i == 0 {
                    assert(d[0] == s[0]);
                } else {
                    assert(d[i] == spec_keep(rest, min)[i - 1]);
                    let j = choose|j: int| 0 <= j < rest.len() && spec_keep(rest, min)[i - 1]
                        == rest[j];
                    assert(d[i] == s[j + 1]);
                }
            }
        } else {
            assert forall|i: int| 0 <= i < d.len() implies exists|j: int| 0 <= j < s.len() && (
            #[trigger] d[i]) == s[j] by {
                let j = choose|j: int| 0 <= j < rest.len() && spec_keep(rest, min)[i] == rest[j];
                assert(d[i] == s[j + 1]);
            }
        }
    }
}

/// The ranking law: everything ranked is confident enough, and relevance
/// never increases along the ranking.
pub proof fn lemma_rank_properties(s: Seq<EvaluatedResultView>, min: u32)
    ensures
        sorted_desc(spec_rank(s, min)),
        forall|i: int| 0 <= i < spec_rank(s, min).len() ==> (
        #[trigger] spec_rank(s, min)[i]).confidence >= min,
        forall|i: int| 0 <= i < spec_rank(s, min).len() ==> exists|j: int| 0 <= j < s.len() && (
        #[trigger] spec_rank(s, min)[i]) == s[j],
{
    let kept = spec_keep(s, min);
    lemma_keep(s, min);
    lemma_sort_desc(kept);
    assert forall|i: int| 0 <= i < spec_rank(s, min).len() implies (
    #[trigger] spec_rank(s, min)[i]).confidence >= min && exists|j: int| 0 <= j < s.len() && (
    #[trigger] spec_rank(s, min)[i]) == s[j] by {
        let k = choose|k: int| 0 <= k < kept.len() && spec_rank(s, min)[i] == kept[k];
        let j = choose|j: int| 0 <= j < s.len() && kept[k] == s[j];
    }
}

/// `spec_insert_desc` places the new record at the first position whose
/// score falls below the new one.
proof fn lemma_insert_desc_at(sorted: Seq<EvaluatedResultView>, e: EvaluatedResultView, p: int)
    requires
        0 <= p <= sorted.len(),
        forall|j: int| 0 <= j < p ==> (#[trigger] sorted[j]).relevance_score >= e.relevance_score,
        p < sorted.len() ==> sorted[p].relevance_score < e.relevance_score,
    ensures
        spec_insert_desc(sorted, e) == sorted.subrange(0, p) + seq![e] + sorted.subrange(
            p,
            sorted.len() as int,
        ),
    decreases p,
{
    if sorted.len() == 0 {
        assert(spec_insert_desc(sorted, e) =~= sorted.subrange(0, p) + seq![e] + sorted.subrange(
            p,
            sorted.len() as int,
        ));
    } else if p == 0 {
        assert(sorted[0].relevance_score < e.relevance_score);
        assert(spec_insert_desc(sorted, e) =~= sorted.subrange(0, p) + seq![e] + sorted.subrange(
            p,
            sorted.len() as int,
        ));
    } else {
        let rest = sorted.drop_first();
        assert forall|k: int| 0 <= k < rest.len() implies #[trigger] rest[k] == sorted[k + 1] by {}
        lemma_insert_desc_at(rest, e, p - 1);
        assert(spec_insert_desc(sorted, e) =~= sorted.subrange(0, p) + seq![e] + sorted.subrange(
            p,
            sorted.len() as int,
        ));
    }
}

/// Inserts one evaluated record into a run sorted non-increasing by
/// relevance, after every record scoring at least as much.
#[verifier::loop_isolation(false)]
fn insert_ranked(sorted: Vec<EvaluatedResult>, e: EvaluatedResult) -> (r: Vec<EvaluatedResult>)
    ensures
        evals_view(r@) == spec_insert_desc(evals_view(sorted@), e@),
{
    let ghost sv = evals_view(sorted@);
    let mut p: usize = 0;
    while p < sorted.len()
        invariant
            p <= sorted@.len(),
            forall|j: int| 0 <= j < p ==> (#[trigger] sv[j]).relevance_score >= e@.relevance_score,
        decreases sorted@.len() - p,
    {
        if sorted[p].relevance_score < e.relevance_score {
            break ;
        }
        proof {
            assert(sv[p as int].relevance_score >= e@.relevance_score);
        }
        p = p + 1;
    }
    proof {
        lemma_insert_desc_at(sv, e@, p as int);
    }
    let mut r = sorted;
    r.insert(p, e);
    proof {
        assert(evals_view(r@) =~= sv.subrange(0, p as int) + seq![e@] + sv.subrange(
            p as int,
            sv.len() as int,
        ));
    }
    r
}

/// Filters out records below the confidence threshold and sorts the rest
/// non-increasing by relevance; scores tie without reordering, and the
/// fixed-point scores order totally, so the sort cannot trap.
#[verifier::loop_isolation(false)]
pub fn rank(evaluated: Vec<EvaluatedResult>, min_confidence: u32) -> (r: Vec<EvaluatedResult>)
    ensures
        evals_view(r@) == spec_rank(evals_view(evaluated@), min_confidence),
{
    let ghost orig = evals_view(evaluated@);
    let mut rest = evaluated;
    let mut kept: Vec<EvaluatedResult> = Vec::new();
    while rest.len() > 0
        invariant
            spec_keep(orig, min_confidence) == evals_view(kept@) + spec_keep(
                evals_view(rest@),
                min_confidence,
            ),
        decreases rest@.len(),
    {
        let ghost rest_before = evals_view(rest@);
        let ghost kept_before = evals_view(kept@);
        let e = rest.remove(0);
        proof {
            assert(rest_before[0] == e@);
            assert(evals_view(rest@) =~= rest_before.drop_first());
        }
        if e.confidence >= min_confidence {
            kept.push(e);
            proof {
                assert(evals_view(kept@) =~= kept_before + seq![rest_before[0]]);
                assert(kept_before + spec_keep(rest_before, min_confidence) =~= evals_view(kept@)
                    + spec_keep(rest_before.drop_first(), min_confidence));
            }
        }
    }
    proof {
        assert(evals_view(rest@).len() == 0);
        assert(spec_keep(orig, min_confidence) =~= evals_view(kept@));
    }
    let ghost kept_view = evals_view(kept@);
    let mut rest2 = kept;
    let mut sorted: Vec<EvaluatedResult> = Vec::new();
    let ghost total = kept_view.len();
    let ghost done: int = 0;
    while rest2.len() > 0
        invariant
            0 <= done <= total,
            evals_view(rest2@) =~= kept_view.skip(done),
            evals_view(sorted@) == spec_sort_desc(kept_view.take(done)),
        decreases rest2@.len(),
    {
        let ghost rest2_before = evals_view(rest2@);
        let e = rest2.remove(0);
        proof {
            assert(rest2_before[0] == e@);
            assert(kept_view.skip(done)[0] == kept_view[done]);
            assert(e@ == kept_view[done]);
        }
        sorted = insert_ranked(sorted, e);
        proof {
            assert(evals_view(rest2@) =~= rest2_before.drop_first());
            assert(rest2_before.drop_first() =~= kept_view.skip(done + 1));
            assert(kept_view.take(done + 1).drop_last() =~= kept_view.take(done));
            assert(kept_view.take(done + 1).last() == kept_view[done]);
            done = done + 1;
        }
    }
    proof {
        assert(kept_view.take(done) =~= kept_view);
    }
    sorted
}

/// What the decision gate returns for a ranked list: nothing to act on,
/// an unattended download of the top result, or a manual suggestion.
pub fn decide(ranked: &Vec<EvaluatedResult>, auto_download: bool, auto_threshold: u32) -> (r:
    Action)
    ensures
        ranked@.len() == 0 ==> r == Action::NoAction,
        ranked@.len() > 0 && auto_download && ranked@[0].relevance_score >= auto_threshold ==> r
            == Action::Download(ranked@[0].torrent.magnet_link),
        ranked@.len() > 0 && !(auto_download && ranked@[0].relevance_score >= auto_threshold)
            ==> r == Action::SuggestManual(ranked@[0].torrent.magnet_link),
{
    if ranked.len() == 0 {
        Action::NoAction
    } else if auto_download && ranked[0].relevance_score >= auto_threshold {
        Action::Download(ranked[0].torrent.magnet_link.clone())
    } else {
        Action::SuggestManual(ranked[0].torrent.magnet_link.clone())
    }
}

/// The records of the outcomes up to the first failure, concatenated.
pub open spec fn spec_concat_from(
    outs: Seq<Result<Vec<TorrentResult>, String>>,
    i: int,
) -> Seq<TorrentResultView>
    decreases outs.len() - i,
{
    if i < 0 || i >= outs.len() {
        Seq::empty()
    } else {
        (match outs[i] {
            Ok(batch) => torrents_view(batch@),
            Err(_) => Seq::empty(),
        }) + spec_concat_from(outs, i + 1)
    }
}

/// Joins the outcomes of the per-source searches under the fail-fast
/// policy: one failure fails the whole aggregation, naming the first
/// failure's message, and no partial records come back.
#[verifier::loop_isolation(false)]
pub fn merge_source_results(outcomes: Vec<Result<Vec<TorrentResult>, String>>) -> (r: Result<
    Vec<TorrentResult>,
    PipelineError,
>)
    ensures
        r is Ok <==> (forall|k: int| 0 <= k < outcomes@.len() ==> (#[trigger] outcomes@[k]) is Ok),
        r matches Ok(all) ==> torrents_view(all@) == spec_concat_from(outcomes@, 0),
        r matches Err(e) ==> exists|k: int|
            0 <= k < outcomes@.len() && (#[trigger] outcomes@[k]) is Err && e
                == PipelineError::SourceFailure(outcomes@[k]->Err_0) && (forall|j: int|
                0 <= j < k ==> (#[trigger] outcomes@[j]) is Ok),
{
    let ghost orig = outcomes@;
    let mut rest = outcomes;
    let mut all: Vec<TorrentResult> = Vec::new();
    let mut i: usize = 0;
    proof {
        assert(rest.len() == orig.len());
    }
    while rest.len() > 0
        invariant
            orig.len() <= usize::MAX,
            i + rest.len() == orig.len(),
            rest@ =~= orig.skip(i as int),
            forall|j: int| 0 <= j < i ==> (#[trigger] orig[j]) is Ok,
            torrents_view(all@) + spec_concat_from(orig, i as int) =~= spec_concat_from(orig, 0),
        decreases rest@.len(),
    {
        let ghost rest_before = rest@;
        let out = rest.remove(0);
        proof {
            assert(rest_before[0] == orig[i as int]);
            assert(rest@ =~= rest_before.drop_first());
            assert(rest_before.drop_first() =~= orig.skip(i as int + 1));
        }
        match out {
            Ok(mut batch) => {
                let ghost all_before = torrents_view(all@);
                let ghost batch_view = torrents_view(batch@);
                all.append(&mut batch);
                proof {
                    assert(torrents_view(all@) =~= all_before + batch_view);
                    assert(torrents_view(all@) + spec_concat_from(orig, i as int + 1)
                        =~= all_before + (batch_view + spec_concat_from(orig, i as int + 1)));
                }
                i = i + 1;
            },
            Err(msg) => {
                return Err(PipelineError::SourceFailure(msg));
            },
        }
    }
    proof {
        assert(spec_concat_from(orig, i as int).len() == 0);
        assert(torrents_view(all@) =~= spec_concat_from(orig, 0));
    }
    Ok(all)
}


/// Where one search request stands: the states walk from intent
/// extraction through planning, source fan-out and evaluation to a ranked
/// outcome or a stage-tagged failure.
#[derive(Debug)]
pub enum PipelineState {
    /// Nothing has happened yet.
    Ready,
    /// The intent prompt went out; an intent response is owed.
    AwaitingIntent,
    /// The planning prompt went out for this intent.
    AwaitingStrategy(SearchIntent),
    /// Sources are being queried: the intent, the plan, which primary
    /// query is in flight, and the records gathered so far.
    Gathering(SearchIntent, SearchStrategy, usize, Vec<TorrentResult>),
    /// The evaluation prompt went out for these deduplicated records.
    AwaitingEvaluation(SearchIntent, Vec<TorrentResult>),
    /// The ranked, confidence-filtered results.
    Complete(Vec<EvaluatedResult>),
    /// The request failed at some stage.
    Failed(PipelineError),
}

/// What the outside world hands back to the pipeline.
#[derive(Debug)]
pub enum PipelineEvent {
    /// The user's free-text request.
    Begin(String),
    /// A text-generation response.
    LlmReply(String),
    /// One query's joined outcome across all sources: all records, or the
    /// first failure's message.
    SourceBatch(Result<Vec<TorrentResult>, String>),
}

/// What the caller must do next.
#[derive(Debug)]
pub enum PipelineAction {
    /// Send this prompt to the text-generation service.
    QueryLlm(String),
    /// Run this query against every source and join the outcomes.
    SearchSources(String),
    /// The request is over: report the completed or failed state.
    Report,
}

/// Which events a state can take: exactly the response the state's last
/// action asked for, with the in-flight query index in range.
pub open spec fn expects(state: PipelineState, event: PipelineEvent) -> bool {
    match (state, event) {
        (PipelineState::Ready, PipelineEvent::Begin(_)) => true,
        (PipelineState::AwaitingIntent, PipelineEvent::LlmReply(_)) => true,
        (PipelineState::AwaitingStrategy(_), PipelineEvent::LlmReply(_)) => true,
        (PipelineState::Gathering(_, st, idx, _), PipelineEvent::SourceBatch(_)) => idx
            < st.primary_queries.len(),
        (PipelineState::AwaitingEvaluation(_, _), PipelineEvent::LlmReply(_)) => true,
        _ => false,
    }
}

/// What holds after entering the gathering stage with `collected` records
/// and `next` the first query not yet issued: either the cap is reached or
/// the queries ran out, and evaluation of the deduplicated records starts,
/// or the next query goes out.
pub open spec fn gathering_post(
    r: (PipelineState, PipelineAction),
    intent: SearchIntent,
    strategy: SearchStrategy,
    next: int,
    collected: Seq<TorrentResult>,
) -> bool {
    if collected.len() >= RESULT_CAP || next >= strategy.primary_queries@.len() {
        &&& (r.0 matches PipelineState::AwaitingEvaluation(it, unique) && it == intent
            && torrents_view(unique@) == spec_dedup(torrents_view(collected)))
        &&& (r.1 matches PipelineAction::QueryLlm(p) && p@ == spec_evaluation_prompt(
            intent@,
            spec_dedup(torrents_view(collected)),
        ))
    } else {
        &&& (r.0 matches PipelineState::Gathering(it, st, n, c) && it == intent && st == strategy
            && n == next && c@ == collected)
        &&& (r.1 matches PipelineAction::SearchSources(q) && q@ == strategy.primary_queries@[next]@)
    }
}

/// What holds after a plan arrives: gathering starts with the first
/// primary query, or, with no queries at all, evaluation of nothing.
pub open spec fn strategy_entry_post(
    r: (PipelineState, PipelineAction),
    intent: SearchIntent,
    sv: crate::models::SearchStrategyView,
) -> bool {
    if sv.primary_queries.len() > 0 {
        &&& (r.0 matches PipelineState::Gathering(it, st, n, c) && it == intent && st@ == sv && n
            == 0 && c@.len() == 0)
        &&& (r.1 matches PipelineAction::SearchSources(q) && q@ == sv.primary_queries[0])
    } else {
        &&& (r.0 matches PipelineState::AwaitingEvaluation(it, unique) && it == intent
            && unique@.len() == 0)
        &&& (r.1 matches PipelineAction::QueryLlm(p) && p@ == spec_evaluation_prompt(
            intent@,
            Seq::empty(),
        ))
    }
}

/// The search orchestrator: one value of it drives one request through
/// the pipeline, one event at a time, with no work of its own between the
/// suspension points the caller owns.
pub struct SmartSearcher {
    /// The confidence floor applied before ranking, in thousandths.
    pub min_confidence: u32,
}

impl SmartSearcher {
    pub fn new(min_confidence: u32) -> (s: Self)
        ensures
            s.min_confidence == min_confidence,
    {
        SmartSearcher { min_confidence }
    }

    /// Takes what the caller gathered and says what to do next. Every
    /// transition is driven by the verified parsing, deduplication,
    /// ranking and prompt-building functions.
    pub fn step(&self, state: PipelineState, event: PipelineEvent) -> (r: (
        PipelineState,
        PipelineAction,
    ))
        requires
            expects(state, event),
        ensures
            state is Ready ==> (event matches PipelineEvent::Begin(q) ==> (r.0
                is AwaitingIntent && (r.1 matches PipelineAction::QueryLlm(p) && p@
                == crate::prompts::spec_parse_prompt(q@)))),
            state is AwaitingIntent ==> (event matches PipelineEvent::LlmReply(resp) ==> (
            match spec_intent_response(resp@) {
                Some(iv) => (r.0 matches PipelineState::AwaitingStrategy(it) && it@ == iv) && (
                r.1 matches PipelineAction::QueryLlm(p) && p@ == crate::prompts::spec_query_prompt(
                    iv,
                )),
                None => r.0 == PipelineState::Failed(PipelineError::IntentParse) && r.1 is Report,
            })),
            state matches PipelineState::AwaitingStrategy(intent) ==> (event
                matches PipelineEvent::LlmReply(resp) ==> (match spec_strategy_response(resp@) {
                Some(sv) => strategy_entry_post(r, intent, sv),
                None => r.0 == PipelineState::Failed(PipelineError::StrategyParse) && r.1
                    is Report,
            })),
            state matches PipelineState::Gathering(intent, strategy, idx, collected) ==> (event
                matches PipelineEvent::SourceBatch(Result::Ok(batch)) ==> gathering_post(
                r,
                intent,
                strategy,
                idx + 1,
                collected@ + batch@,
            )),
            state matches PipelineState::Gathering(intent, strategy, idx, collected) ==> (event
                matches PipelineEvent::SourceBatch(Result::Err(source)) ==> r.0
                == PipelineState::Failed(PipelineError::SourceFailure(source)) && r.1 is Report),
            state matches PipelineState::AwaitingEvaluation(intent, unique) ==> (event
                matches PipelineEvent::LlmReply(resp) ==> (match spec_evaluation_response(
                resp@,
                torrents_view(unique@),
            ) {
                Some(evs) => (r.0 matches PipelineState::Complete(ranked) && evals_view(ranked@)
                    == spec_rank(evs, self.min_confidence)) && r.1 is Report,
                None => r.0 == PipelineState::Failed(PipelineError::EvaluationParse) && r.1
                    is Report,
            })),
    {
        match (state, event) {
            (PipelineState::Ready, PipelineEvent::Begin(q)) => {
                let prompt = crate::prompts::build_parse_prompt(q.as_str());
                (PipelineState::AwaitingIntent, PipelineAction::QueryLlm(prompt))
            },
            (PipelineState::AwaitingIntent, PipelineEvent::LlmReply(resp)) => {
                match crate::llm_service::parse_intent_response(resp.as_str()) {
                    Ok(intent) => {
                        let prompt = crate::prompts::build_query_generation_prompt(&intent);
                        (
                            PipelineState::AwaitingStrategy(intent),
                            PipelineAction::QueryLlm(prompt),
                        )
                    },
                    Err(e) => (PipelineState::Failed(e), PipelineAction::Report),
                }
            },
            (PipelineState::AwaitingStrategy(intent), PipelineEvent::LlmReply(resp)) => {
                match crate::llm_service::parse_strategy_response(resp.as_str()) {
                    Ok(strategy) => {
                        if strategy.primary_queries.len() > 0 {
                            let q = strategy.primary_queries[0].clone();
                            proof {
                                assert(strategy.primary_queries.deep_view()[0]
                                    == strategy.primary_queries@[0]@);
                            }
                            (
                                PipelineState::Gathering(intent, strategy, 0, Vec::new()),
                                PipelineAction::SearchSources(q),
                            )
                        } else {
                            let unique: Vec<TorrentResult> = Vec::new();
                            let prompt = crate::prompts::build_evaluation_prompt(
                                &intent,
                                &unique,
                            );
                            proof {
                                assert(torrents_view(unique@) =~= Seq::<TorrentResultView>::empty());
                            }
                            (
                                PipelineState::AwaitingEvaluation(intent, unique),
                                PipelineAction::QueryLlm(prompt),
                            )
                        }
                    },
                    Err(e) => (PipelineState::Failed(e), PipelineAction::Report),
                }
            },
            (
                PipelineState::Gathering(intent, strategy, idx, collected),
                PipelineEvent::SourceBatch(outcome),
            ) => {
                match outcome {
                    Ok(mut batch) => {
                        let ghost collected_before = collected@;
                        let ghost batch_view = batch@;
                        let mut all = collected;
                        all.append(&mut batch);
                        proof {
                            assert(all@ =~= collected_before + batch_view);
                        }
                        continue_gathering(intent, strategy, idx + 1, all)
                    },
                    Err(source) => (
                        PipelineState::Failed(PipelineError::SourceFailure(source)),
                        PipelineAction::Report,
                    ),
                }
            },
            (PipelineState::AwaitingEvaluation(intent, unique), PipelineEvent::LlmReply(resp)) => {
                match crate::llm_service::parse_evaluation_response(resp.as_str(), unique) {
                    Ok(evs) => {
                        let ranked = rank(evs, self.min_confidence);
                        (PipelineState::Complete(ranked), PipelineAction::Report)
                    },
                    Err(e) => (PipelineState::Failed(e), PipelineAction::Report),
                }
            },
            _ => {
                proof {
                    assert(false);
                }
                (PipelineState::Ready, PipelineAction::Report)
            },
        }
    }
}

/// Issues the next primary query, or moves to evaluation once the cap is
/// reached or the plan is exhausted.
fn continue_gathering(
    intent: SearchIntent,
    strategy: SearchStrategy,
    next: usize,
    collected: Vec<TorrentResult>,
) -> (r: (PipelineState, PipelineAction))
    ensures
        gathering_post(r, intent, strategy, next as int, collected@),
{
    if collected.len() >= crate::result_cap() || next >= strategy.primary_queries.len() {
        let unique = deduplicate_results(collected);
        let prompt = crate::prompts::build_evaluation_prompt(&intent, &unique);
        (PipelineState::AwaitingEvaluation(intent, unique), PipelineAction::QueryLlm(prompt))
    } else {
        let q = strategy.primary_queries[next].clone();
        (
            PipelineState::Gathering(intent, strategy, next, collected),
            PipelineAction::SearchSources(q),
        )
    }
}

} // verus!


