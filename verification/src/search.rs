//! A search from the query to the reply.
//!
//! The query is embedded and the store searched; [`SearchQuery::answered`] takes the outcome. Where
//! there are hits, their assets are fetched one after the other through [`PendingAssets`], which
//! then gives the results. The caller adds what lies on disk, scores the results, and has the reply
//! made by [`crate::results::search_answer`] and [`handle_query`].

use vstd::prelude::*;

use crate::errors::{is_forgiven, no_results, normalize_search_result};
use crate::flows::{with_owner, AssetFetch};
use crate::float_bits::{at_most, rank};
use crate::helix::owner_request;
use crate::hits::{
    distance_ranks, hit_views, hits_are_the_rows_that_count, hits_in, ids_of, is_bookkeeping, is_hit, is_ranking,
    ranked_hits, ranking_is_by_distance, ranking_is_unique, ranking_keeps_the_hits, row_content, Hit,
    HitContent,
};
use crate::json::{lemma_object_view, member_views, views, Json, Member, Value};
use crate::parse::parse_u64;
use crate::query::request_content;
use crate::results::{
    answer_json, assemble, chosen, every_first_hash_is_shown, is_answer, lemma_chosen, paired, preview, result_views,
    results_are_distinct, results_for, results_keep_the_order, row_with_id, score_keys, scored, search_answer, ResultContent, SearchResult,
};
use crate::sorting::{arranged, is_stable_order};
use crate::text::unsigned_value;

verus! {

/// The bit pattern of 0.30, the distance up to which an embedding counts as a match.
pub const DEFAULT_THRESHOLD: u64 = 0x3FD3_3333_3333_3333;

/// How long the store may take to search, in milliseconds.
pub const DEFAULT_TIMEOUT_MS: u64 = 12_000;

/// The code of a JSON-RPC reply that reports an internal error.
pub const INTERNAL_ERROR: i64 = -32603;

/// The bit pattern of the distance up to which an embedding counts as a match, by that of the number
/// in `SEARCH_DISTANCE_THRESHOLD`, where it holds one.
pub fn distance_threshold(configured: Option<u64>) -> (threshold: u64)
    ensures
        threshold == match configured {
            Some(bits) => bits,
            None => DEFAULT_THRESHOLD,
        },
{
    match configured {
        Some(bits) => bits,
        None => DEFAULT_THRESHOLD,
    }
}

/// How long the store may take to search, in milliseconds, by
/// `SIDECAR_SEARCH_BACKEND_TIMEOUT_MS`.
pub fn backend_timeout_ms(configured: Option<String>) -> (milliseconds: u64)
    ensures
        match configured {
            Some(text) => match unsigned_value(text@) {
                Some(n) if n <= u64::MAX => milliseconds == n,
                _ => milliseconds == DEFAULT_TIMEOUT_MS,
            },
            None => milliseconds == DEFAULT_TIMEOUT_MS,
        },
{
    match configured {
        Some(text) => match parse_u64(text.as_str()) {
            Some(n) => n,
            None => DEFAULT_TIMEOUT_MS,
        },
        None => DEFAULT_TIMEOUT_MS,
    }
}

/// What became of the request to search.
pub enum SearchOutcome {
    TimedOut,
    Answered(Result<Value, String>),
}

/// The rows that the request to search has brought up; none where it ran out of time or failed in a
/// way that is forgiven. Any other failure is told.
pub open spec fn rows_found(outcome: SearchOutcome) -> Result<Seq<Json>, Seq<char>> {
    match outcome {
        SearchOutcome::TimedOut => Ok(Seq::empty()),
        SearchOutcome::Answered(Ok(v)) => Ok(v@.rows("embeddings"@)),
        SearchOutcome::Answered(Err(message)) => if is_forgiven(message@) {
            Ok(Seq::empty())
        } else {
            Err("asset"@ + " search failed: "@ + message@)
        },
    }
}

/// The rows that the request to search has brought up.
fn settle(outcome: SearchOutcome) -> (rows: Result<Vec<Value>, String>)
    ensures
        match rows_found(outcome) {
            Ok(found) => rows matches Ok(items) && views(items@) == found,
            Err(text) => rows matches Err(e) && e@ == text,
        },
{
    let settled = match outcome {
        SearchOutcome::TimedOut => Ok(no_results()),
        SearchOutcome::Answered(result) => normalize_search_result("asset", result),
    };
    match settled {
        Ok(response) => {
            let rows: Vec<Value> = match response.rows("embeddings") {
                Some(items) => copied(items),
                None => Vec::new(),
            };
            assert(views(rows@) =~= response@.rows("embeddings"@));
            Ok(rows)
        },
        Err(e) => Err(e),
    }
}

/// A query, and the distance up to which an embedding counts as a match for it.
pub struct SearchQuery {
    pub query: String,
    pub threshold: u64,
}

/// How a search goes on once the store has been searched.
pub enum SearchStage {
    /// There are no hits: this is the answer.
    Answered(Value),
    /// The assets of the hits have to be fetched.
    Assets(PendingAssets),
}

/// A search whose hits are known and whose assets are being fetched.
pub struct PendingAssets {
    rows: Vec<Value>,
    hits: Vec<Hit>,
    fetch: AssetFetch,
}

impl SearchQuery {
    /// Takes in the outcome of the request to search.
    pub fn answered(&self, outcome: SearchOutcome) -> (stage: Result<SearchStage, String>)
        ensures
            match rows_found(outcome) {
                Ok(rows) => {
                    let found = hits_in(rows, self.threshold);
                    match stage {
                        Ok(SearchStage::Answered(answer)) => {
                            &&& found.len() == 0
                            &&& answer@ == answer_json(self.query@, Seq::empty())
                        },
                        Ok(SearchStage::Assets(pending)) => {
                            &&& found.len() > 0
                            &&& pending.wf()
                            &&& pending.rows() == rows
                            &&& is_ranking(found, pending.hits())
                            &&& pending.assets() == Seq::<Json>::empty()
                        },
                        Err(_) => false,
                    }
                },
                Err(text) => stage matches Err(e) && e@ == text,
            },
    {
        let rows = match settle(outcome) {
            Ok(rows) => rows,
            Err(e) => {
                return Err(e);
            },
        };
        let hits = ranked_hits(&rows, self.threshold);
        proof {
            ranking_is_by_distance(hits_in(views(rows@), self.threshold), hit_views(hits@));
        }
        if hits.len() == 0 {
            let none: Vec<SearchResult> = Vec::new();
            let scores: Vec<u64> = Vec::new();
            let answer = search_answer(self.query.as_str(), &none, &scores);
            proof {
                lemma_empty_answer(self.query@, result_views(none@), scores@, answer@);
            }
            Ok(SearchStage::Answered(answer))
        } else {
            let fetch = AssetFetch::begin(ids_of(&hits));
            Ok(SearchStage::Assets(PendingAssets { rows, hits, fetch }))
        }
    }
}

/// An answer made of no results is the empty one.
proof fn lemma_empty_answer(
    query: Seq<char>,
    results: Seq<ResultContent>,
    scores: Seq<u64>,
    answer: Json,
)
    requires
        is_answer(query, results, scores, answer),
        results.len() == 0,
        scores.len() == 0,
    ensures
        answer == answer_json(query, Seq::empty()),
{
    let order = choose|order: Seq<usize>| #[trigger]
        is_stable_order(score_keys(scores), order) && answer
            == answer_json(
            query,
            arranged(scored(results, scores), order),
        );
    assert(arranged(scored(results, scores), order) =~= Seq::<
        Json,
    >::empty());
}

/// A copy of some values.
fn copied(items: &Vec<Value>) -> (copies: Vec<Value>)
    ensures
        views(copies@) == views(items@),
{
    let mut copies: Vec<Value> = Vec::new();
    let mut i: usize = 0;
    while i < items.len()
        invariant
            i <= items.len(),
            copies@.len() == i,
            forall|j: int| 0 <= j < i ==> (#[trigger] copies@[j])@ == items@[j]@,
        decreases items.len() - i,
    {
        copies.push(items[i].clone());
        i = i + 1;
    }
    assert(views(copies@) =~= views(items@));
    copies
}

impl PendingAssets {
    /// The rows that the search has brought up.
    pub closed spec fn rows(&self) -> Seq<Json> {
        views(self.rows@)
    }

    /// The hits, nearest first.
    pub closed spec fn hits(&self) -> Seq<HitContent> {
        hit_views(self.hits@)
    }

    /// The assets fetched so far, in the order of the hits.
    pub closed spec fn assets(&self) -> Seq<Json> {
        self.fetch.assets()
    }

    /// The assets that are fetched are those of the hits, in their order.
    pub closed spec fn wf(&self) -> bool {
        &&& self.fetch.wf()
        &&& self.fetch.ids() == self.hits().map_values(|h: HitContent| h.id)
    }

    /// The next request to send, or `None` once the asset of every hit has been asked for.
    pub fn next_request(&self) -> (request: Option<helix_db::DynamicQueryRequest>)
        requires
            self.wf(),
        ensures
            match request {
                Some(r) => {
                    &&& self.assets().len() < self.hits().len()
                    &&& request_content(r) == owner_request(
                        self.hits()[self.assets().len() as int].id,
                    )
                },
                None => self.assets().len() == self.hits().len(),
            },
    {
        self.fetch.next_request()
    }

    /// Takes the answer to the last request in; an error ends the search.
    pub fn answered(self, answer: Result<Value, String>) -> (next: Result<PendingAssets, String>)
        requires
            self.wf(),
            self.assets().len() < self.hits().len(),
        ensures
            match answer {
                Ok(v) => {
                    &&& next matches Ok(pending)
                    &&& pending.wf()
                    &&& pending.rows() == self.rows()
                    &&& pending.hits() == self.hits()
                    &&& pending.assets() == with_owner(self.assets(), v@)
                },
                Err(e) => next == Err::<PendingAssets, String>(e),
            },
    {
        let PendingAssets { rows, hits, fetch } = self;
        match fetch.answered(answer) {
            Ok(more) => Ok(PendingAssets { rows, hits, fetch: more }),
            Err(e) => Err(e),
        }
    }

    /// The results: one for each content hash among the assets, best first.
    pub fn into_results(self) -> (results: Vec<SearchResult>)
        ensures
            result_views(results@) == results_for(self.hits(), self.assets(), self.rows()),
    {
        let PendingAssets { rows, hits, fetch } = self;
        let assets = fetch.into_assets();
        assemble(&hits, &assets, &rows)
    }
}

/// `results` are what a search shows: the hits among `rows`, nearest first, beside the assets that
/// were fetched for them.
pub open spec fn is_search(
    rows: Seq<Json>,
    threshold: u64,
    assets: Seq<Json>,
    results: Seq<ResultContent>,
) -> bool {
    exists|hits: Seq<HitContent>| #[trigger]
        is_ranking(hits_in(rows, threshold), hits) && results == results_for(hits, assets, rows)
}

/// Every result comes from a row that counts as a hit: it is no farther away than the threshold, and
/// it is no bookkeeping.
pub proof fn results_are_hits(
    rows: Seq<Json>,
    threshold: u64,
    assets: Seq<Json>,
    results: Seq<ResultContent>,
    p: int,
)
    requires
        is_search(rows, threshold, assets, results),
        rows.len() <= usize::MAX,
        0 <= p < results.len(),
    ensures
        at_most(results[p].distance, threshold),
        !is_bookkeeping(results[p].match_kind),
        exists|i: int|
            0 <= i < rows.len() && is_hit(#[trigger] rows[i], threshold) && row_content(
                rows[i],
            ).distance == results[p].distance && row_content(rows[i]).unit_kind
                == results[p].match_kind,
{
    let found = hits_in(rows, threshold);
    let hits = choose|hits: Seq<HitContent>| #[trigger]
        is_ranking(found, hits) && results == results_for(hits, assets, rows);
    let picked = chosen(assets, paired(hits, assets));
    lemma_chosen(assets, paired(hits, assets));
    let hit = hits[picked[p]];
    lemma_hits_len(rows, threshold);
    ranking_keeps_the_hits(found, hits, hit);
    assert(hits.contains(hit));
    hits_are_the_rows_that_count(rows, threshold);
    let i = choose|i: int|
        0 <= i < rows.len() && is_hit(#[trigger] rows[i], threshold) && row_content(rows[i]) == hit;
    assert(row_content(rows[i]) == hit);
}

/// There are no more hits than rows.
proof fn lemma_hits_len(rows: Seq<Json>, threshold: u64)
    ensures
        hits_in(rows, threshold).len() <= rows.len(),
    decreases rows.len(),
{
    if rows.len() > 0 {
        lemma_hits_len(rows.drop_last(), threshold);
    }
}

/// Results come nearest first, and no content hash comes twice.
pub proof fn results_are_ordered_and_distinct(
    rows: Seq<Json>,
    threshold: u64,
    assets: Seq<Json>,
    results: Seq<ResultContent>,
    p: int,
    q: int,
)
    requires
        is_search(rows, threshold, assets, results),
        0 <= p < q < results.len(),
    ensures
        rank(results[p].distance) <= rank(results[q].distance),
        results[p].content_hash != results[q].content_hash,
{
    let found = hits_in(rows, threshold);
    let hits = choose|hits: Seq<HitContent>| #[trigger]
        is_ranking(found, hits) && results == results_for(hits, assets, rows);
    ranking_is_by_distance(found, hits);
    results_keep_the_order(hits, assets, rows, p, q);
    results_are_distinct(hits, assets, rows, p, q);
}

/// The same rows, threshold and assets lead to the same results.
pub proof fn search_is_determined(
    rows: Seq<Json>,
    threshold: u64,
    assets: Seq<Json>,
    one: Seq<ResultContent>,
    two: Seq<ResultContent>,
)
    requires
        is_search(rows, threshold, assets, one),
        is_search(rows, threshold, assets, two),
    ensures
        one == two,
{
    let found = hits_in(rows, threshold);
    let first = choose|hits: Seq<HitContent>| #[trigger]
        is_ranking(found, hits) && one == results_for(hits, assets, rows);
    let second = choose|hits: Seq<HitContent>| #[trigger]
        is_ranking(found, hits) && two == results_for(hits, assets, rows);
    ranking_is_unique(found, first, second);
}

/// The rows of an answer that are no bookkeeping.
pub open spec fn content_rows(rows: Seq<Json>) -> Seq<Json> {
    rows.filter(|row: Json| !is_bookkeeping(row_content(row).unit_kind))
}

/// No bookkeeping row has the id of a row that is none.
pub open spec fn bookkeeping_has_own_ids(rows: Seq<Json>) -> bool {
    forall|i: int, j: int|
        #![trigger rows[i], rows[j]]
        0 <= i < rows.len() && 0 <= j < rows.len() && is_bookkeeping(row_content(rows[i]).unit_kind)
            && !is_bookkeeping(row_content(rows[j]).unit_kind) && rows[j].integer_at("$id"@) is Some
            ==> rows[i].integer_at("$id"@) != rows[j].integer_at("$id"@)
}

/// Bookkeeping rows have no influence on a search: without them it has the same hits and the same
/// results, as long as their ids are their own.
pub proof fn bookkeeping_is_ignored(
    rows: Seq<Json>,
    threshold: u64,
    assets: Seq<Json>,
    results: Seq<ResultContent>,
)
    requires
        bookkeeping_has_own_ids(rows),
    ensures
        hits_in(rows, threshold) == hits_in(content_rows(rows), threshold),
        is_search(rows, threshold, assets, results) <==> is_search(
            content_rows(rows),
            threshold,
            assets,
            results,
        ),
{
    lemma_content_hits(rows, threshold);
    let found = hits_in(rows, threshold);
    assert forall|hits: Seq<HitContent>| #[trigger] is_ranking(found, hits) implies results_for(
        hits,
        assets,
        rows,
    ) == results_for(hits, assets, content_rows(rows)) by {
        let order = choose|order: Seq<usize>| #[trigger]
            is_stable_order(distance_ranks(found), order) && hits == arranged(found, order);
        let picked = chosen(assets, paired(hits, assets));
        lemma_chosen(assets, paired(hits, assets));
        assert forall|p: int| 0 <= p < picked.len() implies preview(
            rows,
            hits[#[trigger] picked[p]].id,
        ) == preview(content_rows(rows), hits[picked[p]].id) by {
            let hit = hits[picked[p]];
            assert(found[order[picked[p]] as int] == hit);
            assert(found.contains(hit));
            hits_are_the_rows_that_count(rows, threshold);
            let j = choose|j: int|
                0 <= j < rows.len() && is_hit(#[trigger] rows[j], threshold) && row_content(rows[j])
                    == hit;
            assert(rows[j].integer_at("$id"@) == Some(hit.id));
            assert forall|i: int|
                0 <= i < rows.len() && is_bookkeeping(
                    row_content(#[trigger] rows[i]).unit_kind,
                ) implies rows[i].integer_at("$id"@) != Some(hit.id) by {
                assert(rows[i].integer_at("$id"@) != rows[j].integer_at("$id"@));
            }
            lemma_content_row_with_id(rows, hit.id);
        }
        assert(results_for(hits, assets, rows) =~= results_for(hits, assets, content_rows(rows)));
    }
}

/// The hits are all among the rows that are no bookkeeping.
proof fn lemma_content_hits(rows: Seq<Json>, threshold: u64)
    ensures
        hits_in(rows, threshold) == hits_in(content_rows(rows), threshold),
    decreases rows.len(),
{
    reveal(Seq::filter);
    if rows.len() > 0 {
        lemma_content_hits(rows.drop_last(), threshold);
        let before = content_rows(rows.drop_last());
        if !is_bookkeeping(row_content(rows.last()).unit_kind) {
            assert(content_rows(rows) == before.push(rows.last()));
            assert(content_rows(rows).drop_last() =~= before);
        }
    }
}

/// The first row with an id is the same without bookkeeping, where that has no such id.
proof fn lemma_content_row_with_id(rows: Seq<Json>, id: i64)
    requires
        forall|i: int|
            0 <= i < rows.len() && is_bookkeeping(row_content(#[trigger] rows[i]).unit_kind)
                ==> rows[i].integer_at("$id"@) != Some(id),
    ensures
        row_with_id(rows, id) == row_with_id(content_rows(rows), id),
    decreases rows.len(),
{
    if rows.len() > 0 {
        let kept = |row: Json| !is_bookkeeping(row_content(row).unit_kind);
        let first = seq![rows[0]];
        let rest = rows.drop_first();
        assert forall|i: int|
            0 <= i < rest.len() && is_bookkeeping(
                row_content(#[trigger] rest[i]).unit_kind,
            ) implies rest[i].integer_at("$id"@) != Some(id) by {
            assert(rest[i] == rows[i + 1]);
        }
        lemma_content_row_with_id(rest, id);
        assert(rows =~= first + rest);
        Seq::filter_distributes_over_add(first, rest, kept);
        reveal_with_fuel(Seq::filter, 2);
        assert(first.drop_last() =~= Seq::<Json>::empty());
        if kept(rows[0]) {
            assert(content_rows(rows) =~= first + content_rows(rest));
            assert(content_rows(rows).drop_first() =~= content_rows(rest));
        } else {
            assert(content_rows(rows) =~= content_rows(rest));
        }
    }
}

/// How the run of a query went.
pub enum QueryRun<I> {
    /// The parameters were refused with this reply.
    BadParams(RpcReply<I>),
    /// There was nothing to run it on.
    NoRuntime(String),
    /// It ran to its end.
    Finished(Result<Value, String>),
}

/// A JSON-RPC reply to the request with an id.
#[derive(Debug)]
pub enum RpcReply<I> {
    Success { id: I, result: Value },
    Failure { id: I, code: i64, message: String, data: Option<Value> },
}

/// The data of a reply that reports why a query failed.
pub open spec fn reason_json(reason: Seq<char>) -> Json {
    Json::Object(seq![("reason"@, Json::Text(reason))])
}

/// The reply reports that the search failed, and why.
pub open spec fn reports_failure<I>(reply: RpcReply<I>, id: I, reason: Seq<char>) -> bool {
    match reply {
        RpcReply::Success { .. } => false,
        RpcReply::Failure { id: to, code, message, data } => {
            &&& to == id
            &&& code == INTERNAL_ERROR
            &&& message@ == "Search query failed"@
            &&& data matches Some(d)
            &&& d@ == reason_json(reason)
        },
    }
}

fn failure<I>(id: I, reason: String) -> (reply: RpcReply<I>)
    ensures
        reports_failure(reply, id, reason@),
{
    let ghost text = reason@;
    let mut members: Vec<Member> = Vec::new();
    members.push(Member { key: "reason".to_owned(), value: Value::Text(reason) });
    proof {
        lemma_object_view(members);
        assert(member_views(members@) =~= reason_json(text)->Object_0);
    }
    RpcReply::Failure {
        id,
        code: INTERNAL_ERROR,
        message: "Search query failed".to_owned(),
        data: Some(Value::Object(members)),
    }
}

/// The reply to the request with an id to run a query.
pub fn handle_query<I>(id: I, run: QueryRun<I>) -> (reply: RpcReply<I>)
    ensures
        match run {
            QueryRun::BadParams(refusal) => reply == refusal,
            QueryRun::NoRuntime(error) => reports_failure(
                reply,
                id,
                "failed to init runtime: "@ + error@,
            ),
            QueryRun::Finished(Ok(result)) => reply == (RpcReply::Success { id, result }),
            QueryRun::Finished(Err(message)) => reports_failure(reply, id, message@),
        },
{
    match run {
        QueryRun::BadParams(refusal) => refusal,
        QueryRun::NoRuntime(error) => {
            let mut reason = "failed to init runtime: ".to_owned();
            reason.append(error.as_str());
            failure(id, reason)
        },
        QueryRun::Finished(Ok(result)) => RpcReply::Success { id, result },
        QueryRun::Finished(Err(message)) => failure(id, message),
    }
}

/// What the settings are where nothing is configured: a distance of 0.30, by its bit pattern, and
/// twelve seconds.
pub proof fn settings_are_these()
    ensures
        DEFAULT_THRESHOLD == 0x3FD3_3333_3333_3333,
        DEFAULT_TIMEOUT_MS == 12_000,
        INTERNAL_ERROR == -32603,
{
}

/// A search that was answered has the rows under `embeddings`; one that ran out of time, or failed in a
/// way that is forgiven, has none. Any other failure is told in full.
pub proof fn outcomes_give_rows(answer: Value, message: String)
    ensures
        rows_found(SearchOutcome::TimedOut) == Ok::<Seq<Json>, Seq<char>>(Seq::empty()),
        rows_found(SearchOutcome::Answered(Ok(answer))) == Ok::<Seq<Json>, Seq<char>>(
            answer@.rows("embeddings"@),
        ),
        is_forgiven(message@) ==> rows_found(SearchOutcome::Answered(Err(message))) == Ok::<
            Seq<Json>,
            Seq<char>,
        >(Seq::empty()),
        !is_forgiven(message@) ==> rows_found(SearchOutcome::Answered(Err(message))) == Err::<
            Seq<Json>,
            Seq<char>,
        >("asset"@ + " search failed: "@ + message@),
{
}

/// A reply that reports a failure answers the request that failed, with the code of an internal error
/// and the whole of the reason.
pub proof fn failures_are_told_in_full<I>(reply: RpcReply<I>, id: I, reason: Seq<char>)
    requires
        reports_failure(reply, id, reason),
    ensures
        ({
            &&& reply matches RpcReply::Failure { id: to, code, message, data }
            &&& to == id
            &&& code == -32603
            &&& message@ == "Search query failed"@
            &&& data matches Some(told)
            &&& told@ == Json::Object(seq![("reason"@, Json::Text(reason))])
        }),
{
}

/// A search shows every asset that is brought up, by the nearest of its hits: where an asset has a
/// content hash, and all assets with that hash have a path, a result with the hash is shown, no farther
/// away than the hit.
pub proof fn search_shows_every_asset(
    hits: Seq<HitContent>,
    rows: Seq<Json>,
    threshold: u64,
    assets: Seq<Json>,
    results: Seq<ResultContent>,
    i: int,
    content_hash: Seq<char>,
)
    requires
        is_ranking(hits_in(rows, threshold), hits),
        is_search(rows, threshold, assets, results),
        0 <= i < hits.len(),
        i < assets.len(),
        assets[i].text_at("content_hash"@) == Some(content_hash),
        forall|k: int|
            0 <= k < assets.len() && (#[trigger] assets[k]).text_at("content_hash"@) == Some(
                content_hash,
            ) ==> assets[k].text_at("path"@) is Some,
    ensures
        exists|p: int|
            0 <= p < results.len() && (#[trigger] results[p]).content_hash == content_hash && rank(
                results[p].distance,
            ) <= rank(hits[i].distance),
    decreases i,
{
    let found = hits_in(rows, threshold);
    let same = choose|same: Seq<HitContent>| #[trigger]
        is_ranking(found, same) && results == results_for(same, assets, rows);
    ranking_is_unique(found, hits, same);
    ranking_is_by_distance(found, hits);
    if exists|k: int|
        0 <= k < i && (#[trigger] assets[k]).text_at("content_hash"@) == Some(content_hash) {
        let k = choose|k: int|
            0 <= k < i && (#[trigger] assets[k]).text_at("content_hash"@) == Some(content_hash);
        search_shows_every_asset(hits, rows, threshold, assets, results, k, content_hash);
        let p = choose|p: int|
            0 <= p < results.len() && (#[trigger] results[p]).content_hash == content_hash && rank(
                results[p].distance,
            ) <= rank(hits[k].distance);
        assert(rank(hits[k].distance) <= rank(hits[i].distance));
        assert(results[p].content_hash == content_hash);
    } else {
        assert(assets[i].text_at("path"@) is Some);
        let path = assets[i].text_at("path"@)->0;
        every_first_hash_is_shown(hits, assets, rows, i, content_hash, path);
        let shown = ResultContent {
            label: match assets[i].text_at("kind"@) {
                Some(kind) => kind,
                None => "file"@,
            },
            path,
            content_hash,
            distance: hits[i].distance,
            match_kind: hits[i].unit_kind,
            content: preview(rows, hits[i].id),
            thumbnail_url: None,
        };
        let p = choose|p: int| 0 <= p < results.len() && results[p] == shown;
        assert(results[p].content_hash == content_hash);
    }
}

} // verus!
