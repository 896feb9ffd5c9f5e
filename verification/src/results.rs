//! From hits and their assets to the answer that is shown.

use vstd::prelude::*;
use vstd::utf8::encode_utf8;

use crate::float_bits::{finite, is_finite, rank, rank_of};
use crate::hits::{hit_views, Hit, HitContent};
use crate::json::{
    lemma_array_view, lemma_object_view, member_views, value_as_string, views, Json, Member, Number,
    Value,
};
use crate::percent::{encoded, percent_encode};
use crate::sorting::{
    arranged, is_stable_order, key_ranks, sorted_list_is_kept, stable_order,
};
use crate::text::{first_chars, same_text};

verus! {

/// How many characters of a matched text are shown.
pub const PREVIEW_CHARS: usize = 300;

/// One result of a search.
#[derive(Debug)]
pub struct SearchResult {
    pub label: String,
    pub path: String,
    pub content_hash: String,
    /// The bit pattern of the distance from the query.
    pub distance: u64,
    pub match_kind: String,
    pub content: Option<String>,
    pub thumbnail_url: Option<String>,
}

/// The mathematical content of a [`SearchResult`].
#[verifier::ext_equal]
pub ghost struct ResultContent {
    pub label: Seq<char>,
    pub path: Seq<char>,
    pub content_hash: Seq<char>,
    pub distance: u64,
    pub match_kind: Seq<char>,
    pub content: Option<Seq<char>>,
    pub thumbnail_url: Option<Seq<char>>,
}

/// The text of an optional string.
pub open spec fn optional_text(s: Option<String>) -> Option<Seq<char>> {
    match s {
        Some(text) => Some(text@),
        None => None,
    }
}

impl View for SearchResult {
    type V = ResultContent;

    open spec fn view(&self) -> ResultContent {
        ResultContent {
            label: self.label@,
            path: self.path@,
            content_hash: self.content_hash@,
            distance: self.distance,
            match_kind: self.match_kind@,
            content: optional_text(self.content),
            thumbnail_url: optional_text(self.thumbnail_url),
        }
    }
}

/// The contents of a run of results.
pub open spec fn result_views(results: Seq<SearchResult>) -> Seq<ResultContent> {
    results.map_values(|r: SearchResult| r@)
}

/// The first row with an id.
pub open spec fn row_with_id(rows: Seq<Json>, id: i64) -> Option<Json>
    decreases rows.len(),
{
    if rows.len() == 0 {
        None
    } else if rows[0].integer_at("$id"@) == Some(id) {
        Some(rows[0])
    } else {
        row_with_id(rows.drop_first(), id)
    }
}

/// The beginning of a text, as far as it is shown.
pub open spec fn shown(s: Seq<char>) -> Seq<char> {
    s.take(
        if s.len() < PREVIEW_CHARS {
            s.len() as int
        } else {
            PREVIEW_CHARS as int
        },
    )
}

/// The beginning of the text that was matched, if the row with the hit's id has one.
pub open spec fn preview(rows: Seq<Json>, id: i64) -> Option<Seq<char>> {
    match row_with_id(rows, id) {
        Some(row) => match row.text_at("content"@) {
            Some(s) => Some(shown(s)),
            None => None,
        },
        None => None,
    }
}

/// The content hash of the asset at a position.
pub open spec fn hash_at(assets: Seq<Json>, i: int) -> Option<Seq<char>> {
    assets[i].text_at("content_hash"@)
}

/// The asset at a position gives a result: it has a content hash that no asset before it has, and a
/// path.
pub open spec fn gives_result(assets: Seq<Json>, i: int) -> bool {
    &&& hash_at(assets, i) is Some
    &&& assets[i].text_at("path"@) is Some
    &&& forall|j: int| 0 <= j < i ==> #[trigger] hash_at(assets, j) != hash_at(assets, i)
}

/// The result for a hit and its asset.
pub open spec fn result_for(hit: HitContent, asset: Json, rows: Seq<Json>) -> ResultContent {
    ResultContent {
        label: match asset.text_at("kind"@) {
            Some(kind) => kind,
            None => "file"@,
        },
        path: asset.text_at("path"@)->0,
        content_hash: asset.text_at("content_hash"@)->0,
        distance: hit.distance,
        match_kind: hit.unit_kind,
        content: preview(rows, hit.id),
        thumbnail_url: None,
    }
}

/// The positions among the first `n` assets that give a result.
pub open spec fn chosen(assets: Seq<Json>, n: nat) -> Seq<int>
    decreases n,
{
    if n == 0 {
        Seq::empty()
    } else {
        let before = chosen(assets, (n - 1) as nat);
        if gives_result(assets, n - 1) {
            before.push(n - 1)
        } else {
            before
        }
    }
}

/// How many hits have an asset beside them.
pub open spec fn paired(hits: Seq<HitContent>, assets: Seq<Json>) -> nat {
    if hits.len() < assets.len() {
        hits.len()
    } else {
        assets.len()
    }
}

/// The results for some hits and the assets beside them, in the order of the hits.
pub open spec fn results_for(
    hits: Seq<HitContent>,
    assets: Seq<Json>,
    rows: Seq<Json>,
) -> Seq<ResultContent> {
    chosen(assets, paired(hits, assets)).map_values(
        |i: int| result_for(hits[i], assets[i], rows),
    )
}

/// The beginning of the matched text of the hit with an id.
pub fn preview_of(rows: &Vec<Value>, id: i64) -> (text: Option<String>)
    ensures
        optional_text(text) == preview(views(rows@), id),
{
    let ghost all = views(rows@);
    assert(all.skip(0) == all);
    let mut i: usize = 0;
    while i < rows.len()
        invariant
            i <= rows.len(),
            all == views(rows@),
            row_with_id(all, id) == row_with_id(all.skip(i as int), id),
        decreases rows.len() - i,
    {
        assert(all.skip(i as int)[0] == rows@[i as int]@);
        if let Some(found) = rows[i].integer_at("$id") {
            if found == id {
                return match rows[i].text_at("content") {
                    Some(s) => Some(first_chars(s, PREVIEW_CHARS)),
                    None => None,
                };
            }
        }
        assert(all.skip(i as int).drop_first() == all.skip(i + 1));
        i = i + 1;
    }
    None
}

/// The texts of some strings.
pub open spec fn texts(strings: Seq<String>) -> Seq<Seq<char>> {
    strings.map_values(|s: String| s@)
}

/// Some asset among the first `n` has this content hash.
spec fn hash_among(assets: Seq<Json>, n: int, hash: Seq<char>) -> bool {
    exists|j: int| 0 <= j < n && #[trigger] hash_at(assets, j) == Some(hash)
}

/// `seen` holds the content hashes of the first `n` assets.
spec fn has_seen(seen: Seq<Seq<char>>, assets: Seq<Json>, n: int) -> bool {
    forall|h: Seq<char>| #[trigger] seen.contains(h) <==> hash_among(assets, n, h)
}

/// What the next asset does to the hashes seen so far, and to whether it gives a result.
proof fn lemma_seen_next(seen: Seq<Seq<char>>, assets: Seq<Json>, n: int)
    requires
        0 <= n,
        has_seen(seen, assets, n),
    ensures
        match hash_at(assets, n) {
            Some(h) => {
                &&& has_seen(if seen.contains(h) { seen } else { seen.push(h) }, assets, n + 1)
                &&& gives_result(assets, n) == (!seen.contains(h) && assets[n].text_at(
                    "path"@,
                ) is Some)
            },
            None => has_seen(seen, assets, n + 1) && !gives_result(assets, n),
        },
{
    let after = match hash_at(assets, n) {
        Some(h) => if seen.contains(h) {
            seen
        } else {
            seen.push(h)
        },
        None => seen,
    };
    assert forall|h: Seq<char>| #[trigger] after.contains(h) <==> hash_among(
        assets,
        n + 1,
        h,
    ) by {
        if hash_among(assets, n + 1, h) {
            let j = choose|j: int| 0 <= j < n + 1 && #[trigger] hash_at(assets, j) == Some(h);
            if j < n {
                assert(hash_among(assets, n, h));
                assert(seen.contains(h));
                let p = choose|p: int| 0 <= p < seen.len() && seen[p] == h;
                assert(after[p] == h);
            } else if !seen.contains(h) {
                assert(after[seen.len() as int] == h);
            }
        }
        if after.contains(h) {
            if seen.contains(h) {
                assert(hash_among(assets, n, h));
                let j = choose|j: int| 0 <= j < n && #[trigger] hash_at(assets, j) == Some(h);
                assert(hash_at(assets, j) == Some(h));
            } else {
                assert(hash_at(assets, n) == Some(h));
            }
        }
    }
    if let Some(h) = hash_at(assets, n) {
        if seen.contains(h) {
            assert(hash_among(assets, n, h));
            let j = choose|j: int| 0 <= j < n && #[trigger] hash_at(assets, j) == Some(h);
            assert(hash_at(assets, j) == hash_at(assets, n));
        } else {
            assert(!hash_among(assets, n, h));
            assert forall|j: int| 0 <= j < n implies #[trigger] hash_at(assets, j) != hash_at(
                assets,
                n,
            ) by {}
        }
    }
}

fn seen_before(seen: &Vec<String>, hash: &str) -> (yes: bool)
    ensures
        yes == texts(seen@).contains(hash@),
{
    let ghost all = texts(seen@);
    let mut p: usize = 0;
    while p < seen.len()
        invariant
            p <= seen.len(),
            all == texts(seen@),
            forall|q: int| 0 <= q < p ==> #[trigger] all[q] != hash@,
        decreases seen.len() - p,
    {
        assert(all[p as int] == seen@[p as int]@);
        if same_text(seen[p].as_str(), hash) {
            return true;
        }
        p = p + 1;
    }
    false
}

/// The result for a hit and its asset, once the asset's hash and path have been read.
fn make_result(
    hit: &Hit,
    asset: &Value,
    hash: String,
    path: String,
    rows: &Vec<Value>,
) -> (result: SearchResult)
    requires
        asset@.text_at("content_hash"@) == Some(hash@),
        asset@.text_at("path"@) == Some(path@),
    ensures
        result@ == result_for(hit@, asset@, views(rows@)),
{
    let label = match value_as_string(asset.get("kind")) {
        Some(kind) => kind,
        None => "file".to_owned(),
    };
    let result = SearchResult {
        label,
        path,
        content_hash: hash,
        distance: hit.distance,
        match_kind: hit.unit_kind.clone(),
        content: preview_of(rows, hit.id),
        thumbnail_url: None,
    };
    assert(result@ =~= result_for(hit@, asset@, views(rows@)));
    result
}

/// The results for some hits and the assets beside them: one for each content hash, the first.
pub fn assemble(hits: &Vec<Hit>, assets: &Vec<Value>, rows: &Vec<Value>) -> (results: Vec<
    SearchResult,
>)
    ensures
        result_views(results@) == results_for(hit_views(hits@), views(assets@), views(rows@)),
{
    let ghost all = views(assets@);
    let ghost found = hit_views(hits@);
    let ghost make = |i: int| result_for(found[i], all[i], views(rows@));
    let count = if hits.len() < assets.len() { hits.len() } else { assets.len() };
    let mut seen: Vec<String> = Vec::new();
    let mut results: Vec<SearchResult> = Vec::new();
    assert(has_seen(texts(seen@), all, 0));
    assert(result_views(results@) =~= chosen(all, 0).map_values(make));
    let mut i: usize = 0;
    while i < count
        invariant
            i <= count,
            count <= hits.len(),
            count <= assets.len(),
            all == views(assets@),
            found == hit_views(hits@),
            make == (|i: int| result_for(found[i], all[i], views(rows@))),
            has_seen(texts(seen@), all, i as int),
            result_views(results@) == chosen(all, i as nat).map_values(make),
        decreases count - i,
    {
        let asset = &assets[i];
        let ghost seen_then = texts(seen@);
        let ghost results_then = result_views(results@);
        proof {
            assert(all[i as int] == asset@);
            assert(found[i as int] == hits@[i as int]@);
            lemma_seen_next(seen_then, all, i as int);
            assert(chosen(all, (i + 1) as nat).map_values(make) =~= if gives_result(all, i as int) {
                chosen(all, i as nat).map_values(make).push(make(i as int))
            } else {
                chosen(all, i as nat).map_values(make)
            });
        }
        if let Some(hash) = value_as_string(asset.get("content_hash")) {
            assert(hash_at(all, i as int) == Some(hash@));
            if !seen_before(&seen, hash.as_str()) {
                seen.push(hash.clone());
                assert(texts(seen@) =~= seen_then.push(hash@));
                if let Some(path) = value_as_string(asset.get("path")) {
                    let result = make_result(&hits[i], asset, hash, path, rows);
                    assert(result@ == make(i as int));
                    results.push(result);
                    assert(result_views(results@) =~= results_then.push(result@));
                }
            }
        }
        i = i + 1;
    }
    assert(result_views(results@) =~= results_for(found, all, views(rows@)));
    results
}

/// A result to which the text of its file has been added, where it is a file that could be read.
pub open spec fn with_text(result: ResultContent, text: Option<Seq<char>>) -> ResultContent {
    if result.label == "file"@ && text is Some {
        ResultContent { content: text, ..result }
    } else {
        result
    }
}

/// Where the picture at a path is shown from.
pub open spec fn thumbnail_url(path: Seq<char>) -> Seq<char> {
    "localimg://preview?path="@ + encoded(encode_utf8(path))
}

/// A result to which its picture has been added, where it is a video that has one.
pub open spec fn with_picture(result: ResultContent, path: Option<Seq<char>>) -> ResultContent {
    if result.label == "video"@ && path is Some {
        ResultContent { thumbnail_url: Some(thumbnail_url(path->0)), ..result }
    } else {
        result
    }
}

impl SearchResult {
    /// Whether the file at the path is to be read.
    pub fn wants_file_text(&self) -> (yes: bool)
        ensures
            yes == (self@.label == "file"@),
    {
        same_text(self.label.as_str(), "file")
    }

    /// Whether a picture is to be looked for.
    pub fn wants_thumbnail(&self) -> (yes: bool)
        ensures
            yes == (self@.label == "video"@),
    {
        same_text(self.label.as_str(), "video")
    }

    /// Shows the text of the file in place of the matched text.
    pub fn with_file_text(self, text: Option<String>) -> (result: SearchResult)
        ensures
            result@ == with_text(self@, optional_text(text)),
    {
        if self.wants_file_text() {
            if let Some(read) = text {
                return SearchResult { content: Some(read), ..self };
            }
        }
        self
    }

    /// Shows the picture at a path.
    pub fn with_thumbnail(self, path: Option<String>) -> (result: SearchResult)
        ensures
            result@ == with_picture(self@, optional_text(path)),
    {
        if self.wants_thumbnail() {
            if let Some(found) = path {
                let mut url = "localimg://preview?path=".to_owned();
                let escaped = percent_encode(found.as_str());
                url.append(escaped.as_str());
                return SearchResult { thumbnail_url: Some(url), ..self };
            }
        }
        self
    }
}

/// A score as JSON: null where it is not finite.
pub open spec fn score_json(score: u64) -> Json {
    if is_finite(score) {
        Json::Number(Number { integer: None, float: Some(score) })
    } else {
        Json::Null
    }
}

/// A text that may be missing, as JSON.
pub open spec fn optional_json(s: Option<Seq<char>>) -> Json {
    match s {
        Some(text) => Json::Text(text),
        None => Json::Null,
    }
}

/// A result as JSON.
pub open spec fn result_json(result: ResultContent, score: u64) -> Json {
    let members = seq![
        ("label"@, Json::Text(result.label)),
        ("path"@, Json::Text(result.path)),
        ("score"@, score_json(score)),
        ("match_kind"@, Json::Text(result.match_kind)),
        ("content"@, optional_json(result.content)),
    ];
    Json::Object(
        match result.thumbnail_url {
            Some(url) => members.push(("thumbnail_url"@, Json::Text(url))),
            None => members,
        },
    )
}

/// An answer as JSON.
pub open spec fn answer_json(query: Seq<char>, results: Seq<Json>) -> Json {
    Json::Object(seq![("query"@, Json::Text(query)), ("results"@, Json::Array(results))])
}

/// What results are ordered by: the score, highest first; one that is not finite counts as zero.
pub open spec fn score_keys(scores: Seq<u64>) -> Seq<i64> {
    scores.map_values(
        |s: u64|
            if is_finite(s) {
                -rank(s) as i64
            } else {
                0
            },
    )
}

/// The results as JSON, each with its score.
pub open spec fn scored(results: Seq<ResultContent>, scores: Seq<u64>) -> Seq<Json> {
    Seq::new(results.len(), |i: int| result_json(results[i], scores[i]))
}

/// `answer` gives the results by score, highest first; those with equal scores keep their order.
pub open spec fn is_answer(
    query: Seq<char>,
    results: Seq<ResultContent>,
    scores: Seq<u64>,
    answer: Json,
) -> bool {
    exists|order: Seq<usize>| #[trigger]
        is_stable_order(score_keys(scores), order) && answer == answer_json(
            query,
            arranged(scored(results, scores), order),
        )
}

fn text_member(key: &str, text: &str) -> (member: Member)
    ensures
        member.key@ == key@,
        member.value@ == Json::Text(text@),
{
    Member { key: key.to_owned(), value: Value::Text(text.to_owned()) }
}

/// A result as JSON.
pub fn result_value(result: &SearchResult, score: u64) -> (value: Value)
    ensures
        value@ == result_json(result@, score),
{
    let score_value = if finite(score) {
        Value::Number(Number { integer: None, float: Some(score) })
    } else {
        Value::Null
    };
    let content_value = match &result.content {
        Some(text) => Value::Text(text.clone()),
        None => Value::Null,
    };
    let mut members: Vec<Member> = Vec::new();
    members.push(text_member("label", result.label.as_str()));
    members.push(text_member("path", result.path.as_str()));
    members.push(Member { key: "score".to_owned(), value: score_value });
    members.push(text_member("match_kind", result.match_kind.as_str()));
    members.push(Member { key: "content".to_owned(), value: content_value });
    if let Some(url) = &result.thumbnail_url {
        members.push(text_member("thumbnail_url", url.as_str()));
    }
    proof {
        lemma_object_view(members);
        assert(member_views(members@) =~= result_json(result@, score)->Object_0);
    }
    Value::Object(members)
}

/// An answer as JSON.
fn answer_value(query: &str, results: Vec<Value>) -> (value: Value)
    ensures
        value@ == answer_json(query@, views(results@)),
{
    proof {
        lemma_array_view(results);
    }
    let ghost shown = views(results@);
    let mut members: Vec<Member> = Vec::new();
    members.push(text_member("query", query));
    members.push(Member { key: "results".to_owned(), value: Value::Array(results) });
    proof {
        lemma_object_view(members);
        assert(member_views(members@) =~= answer_json(query@, shown)->Object_0);
    }
    Value::Object(members)
}

/// The answer to a query: its results by score, highest first.
pub fn search_answer(query: &str, results: &Vec<SearchResult>, scores: &Vec<u64>) -> (answer: Value)
    requires
        results@.len() == scores@.len(),
    ensures
        is_answer(query@, result_views(results@), scores@, answer@),
{
    let ghost shown = result_views(results@);
    let mut keys: Vec<i64> = Vec::new();
    let mut i: usize = 0;
    while i < scores.len()
        invariant
            i <= scores.len(),
            keys@ == score_keys(scores@.take(i as int)),
        decreases scores.len() - i,
    {
        keys.push(if finite(scores[i]) { -rank_of(scores[i]) } else { 0 });
        assert(scores@.take(i + 1) == scores@.take(i as int).push(scores@[i as int]));
        assert(keys@ =~= score_keys(scores@.take(i + 1)));
        i = i + 1;
    }
    assert(scores@.take(scores@.len() as int) == scores@);
    let order = stable_order(&keys);
    assert(key_ranks(keys@) =~= keys@);
    let ghost all = scored(shown, scores@);
    let mut values: Vec<Value> = Vec::new();
    let mut n: usize = 0;
    while n < order.len()
        invariant
            n <= order.len(),
            order.len() == results.len(),
            results@.len() == scores@.len(),
            keys@.len() == results@.len(),
            shown == result_views(results@),
            all == scored(shown, scores@),
            is_stable_order(keys@, order@),
            views(values@) == arranged(all, order@.take(n as int)),
        decreases order.len() - n,
    {
        let at = order[n];
        let value = result_value(&results[at], scores[at]);
        let ghost before = values@;
        assert(value@ == all[at as int]);
        values.push(value);
        assert(views(values@) =~= views(before).push(value@));
        assert(order@.take(n + 1) == order@.take(n as int).push(at));
        assert(views(values@) =~= arranged(all, order@.take(n + 1)));
        n = n + 1;
    }
    assert(order@.take(order@.len() as int) == order@);
    answer_value(query, values)
}

/// No two results share a content hash.
pub proof fn results_are_distinct(
    hits: Seq<HitContent>,
    assets: Seq<Json>,
    rows: Seq<Json>,
    p: int,
    q: int,
)
    requires
        0 <= p < q < results_for(hits, assets, rows).len(),
    ensures
        results_for(hits, assets, rows)[p].content_hash != results_for(
            hits,
            assets,
            rows,
        )[q].content_hash,
{
    let picked = chosen(assets, paired(hits, assets));
    lemma_chosen(assets, paired(hits, assets));
    assert(gives_result(assets, picked[p]) && gives_result(assets, picked[q]));
    assert(picked[p] < picked[q]);
    assert(hash_at(assets, picked[p]) != hash_at(assets, picked[q]));
}

/// The chosen positions rise, and are those that give a result.
pub proof fn lemma_chosen(assets: Seq<Json>, n: nat)
    ensures
        forall|p: int|
            0 <= p < chosen(assets, n).len() ==> 0 <= #[trigger] chosen(assets, n)[p] < n
                && gives_result(assets, chosen(assets, n)[p]),
        forall|p: int, q: int|
            #![trigger chosen(assets, n)[p], chosen(assets, n)[q]]
            0 <= p < q < chosen(assets, n).len() ==> chosen(assets, n)[p] < chosen(assets, n)[q],
        forall|i: int|
            0 <= i < n && #[trigger] gives_result(assets, i) ==> chosen(assets, n).contains(i),
    decreases n,
{
    if n > 0 {
        lemma_chosen(assets, (n - 1) as nat);
        let before = chosen(assets, (n - 1) as nat);
        let now = chosen(assets, n);
        assert forall|i: int| 0 <= i < n && #[trigger] gives_result(assets, i) implies now.contains(
            i,
        ) by {
            if i < n - 1 {
                let p = choose|p: int| 0 <= p < before.len() && before[p] == i;
                assert(now[p] == i);
            } else {
                assert(now[before.len() as int] == i);
            }
        }
    }
}

/// Of several hits on one asset the nearest is shown: every result comes from a hit whose distance
/// is no greater than that of any other hit with the same content hash.
pub proof fn nearest_hit_is_shown(
    hits: Seq<HitContent>,
    assets: Seq<Json>,
    rows: Seq<Json>,
    p: int,
    k: int,
)
    requires
        forall|i: int, j: int|
            #![trigger hits[i], hits[j]]
            0 <= i < j < hits.len() ==> rank(hits[i].distance) <= rank(hits[j].distance),
        0 <= p < results_for(hits, assets, rows).len(),
        0 <= k < paired(hits, assets),
        hash_at(assets, k) == Some(results_for(hits, assets, rows)[p].content_hash),
    ensures
        rank(results_for(hits, assets, rows)[p].distance) <= rank(hits[k].distance),
{
    let picked = chosen(assets, paired(hits, assets));
    lemma_chosen(assets, paired(hits, assets));
    let i = picked[p];
    assert(gives_result(assets, i));
    assert(hash_at(assets, i) == hash_at(assets, k));
    assert(i <= k);
    assert(rank(hits[i].distance) <= rank(hits[k].distance));
}

/// An asset with a hash and a path that is first with its hash is not left out.
pub proof fn no_asset_is_left_out(
    hits: Seq<HitContent>,
    assets: Seq<Json>,
    rows: Seq<Json>,
    i: int,
)
    requires
        0 <= i < paired(hits, assets),
        gives_result(assets, i),
    ensures
        results_for(hits, assets, rows).contains(result_for(hits[i], assets[i], rows)),
{
    let picked = chosen(assets, paired(hits, assets));
    lemma_chosen(assets, paired(hits, assets));
    let p = choose|p: int| 0 <= p < picked.len() && picked[p] == i;
    assert(results_for(hits, assets, rows)[p] == result_for(hits[i], assets[i], rows));
}

/// Results stand in the order of their hits: where the distances of the hits never fall, those of
/// the results never do.
pub proof fn results_keep_the_order(
    hits: Seq<HitContent>,
    assets: Seq<Json>,
    rows: Seq<Json>,
    p: int,
    q: int,
)
    requires
        forall|i: int, j: int|
            #![trigger hits[i], hits[j]]
            0 <= i < j < hits.len() ==> rank(hits[i].distance) <= rank(hits[j].distance),
        0 <= p < q < results_for(hits, assets, rows).len(),
    ensures
        rank(results_for(hits, assets, rows)[p].distance) <= rank(
            results_for(hits, assets, rows)[q].distance,
        ),
{
    let picked = chosen(assets, paired(hits, assets));
    lemma_chosen(assets, paired(hits, assets));
    assert(picked[p] < picked[q] < paired(hits, assets));
    assert(rank(hits[picked[p]].distance) <= rank(hits[picked[q]].distance));
}

/// Where the scores never rise along the results, the answer gives the results as they stand.
pub proof fn falling_scores_keep_the_order(
    query: Seq<char>,
    results: Seq<ResultContent>,
    scores: Seq<u64>,
    answer: Json,
)
    requires
        is_answer(query, results, scores, answer),
        results.len() == scores.len() <= usize::MAX,
        forall|i: int| 0 <= i < scores.len() ==> is_finite(#[trigger] scores[i]),
        forall|i: int, j: int|
            #![trigger scores[i], scores[j]]
            0 <= i < j < scores.len() ==> rank(scores[j]) <= rank(scores[i]),
    ensures
        answer == answer_json(query, scored(results, scores)),
{
    let order = choose|order: Seq<usize>| #[trigger]
        is_stable_order(score_keys(scores), order) && answer == answer_json(
            query,
            arranged(scored(results, scores), order),
        );
    let keys = score_keys(scores);
    assert forall|i: int, j: int|
        #![trigger keys[i], keys[j]]
        0 <= i < j < keys.len() implies crate::sorting::Ranked::key_le(keys[i], keys[j]) by {
        assert(is_finite(scores[i]) && is_finite(scores[j]));
        assert(rank(scores[j]) <= rank(scores[i]));
    }
    sorted_list_is_kept(keys, order, scored(results, scores));
}

/// A picture is shown with videos only, and the text of a file with files only.
pub proof fn details_go_with_their_kind(
    result: ResultContent,
    text: Option<Seq<char>>,
    path: Option<Seq<char>>,
)
    requires
        result.thumbnail_url is None,
    ensures
        with_picture(with_text(result, text), path).thumbnail_url is Some ==> result.label
            == "video"@,
        result.label != "file"@ ==> with_picture(with_text(result, text), path).content
            == result.content,
{
}

/// Every hit whose asset has a path, and a content hash that no asset before it has, is shown: with
/// the asset's kind, which is `file` where it has none, its path and hash, and the hit's distance and
/// kind.
pub proof fn every_first_hash_is_shown(
    hits: Seq<HitContent>,
    assets: Seq<Json>,
    rows: Seq<Json>,
    i: int,
    content_hash: Seq<char>,
    path: Seq<char>,
)
    requires
        0 <= i < hits.len(),
        i < assets.len(),
        assets[i].text_at("content_hash"@) == Some(content_hash),
        assets[i].text_at("path"@) == Some(path),
        forall|k: int|
            0 <= k < i ==> (#[trigger] assets[k]).text_at("content_hash"@) != Some(content_hash),
    ensures
        results_for(hits, assets, rows).contains(
            (ResultContent {
                label: match assets[i].text_at("kind"@) {
                    Some(kind) => kind,
                    None => "file"@,
                },
                path,
                content_hash,
                distance: hits[i].distance,
                match_kind: hits[i].unit_kind,
                content: preview(rows, hits[i].id),
                thumbnail_url: None,
            }),
        ),
{
    assert forall|k: int| 0 <= k < i implies #[trigger] hash_at(assets, k) != hash_at(assets, i) by {
        assert(assets[k].text_at("content_hash"@) != Some(content_hash));
    }
    assert(gives_result(assets, i));
    no_asset_is_left_out(hits, assets, rows, i);
}

/// Every result comes from a hit and the asset beside it, the first with its hash; results stand in
/// the order of their hits, no two from the same.
pub proof fn results_come_from_first_hashes(
    hits: Seq<HitContent>,
    assets: Seq<Json>,
    rows: Seq<Json>,
)
    ensures
        exists|from: Seq<int>|
            #![trigger from.len()]
            {
                let results = results_for(hits, assets, rows);
                &&& from.len() == results.len()
                &&& forall|p: int|
                    0 <= p < from.len() ==> {
                        &&& 0 <= #[trigger] from[p] < hits.len()
                        &&& from[p] < assets.len()
                        &&& assets[from[p]].text_at("content_hash"@) == Some(
                            results[p].content_hash,
                        )
                        &&& assets[from[p]].text_at("path"@) == Some(results[p].path)
                        &&& forall|k: int|
                            0 <= k < from[p] ==> (#[trigger] assets[k]).text_at("content_hash"@)
                                != Some(results[p].content_hash)
                        &&& results[p].label == match assets[from[p]].text_at("kind"@) {
                            Some(kind) => kind,
                            None => "file"@,
                        }
                        &&& results[p].distance == hits[from[p]].distance
                        &&& results[p].match_kind == hits[from[p]].unit_kind
                        &&& results[p].content == preview(rows, hits[from[p]].id)
                        &&& results[p].thumbnail_url is None
                    }
                &&& forall|p: int, q: int|
                    #![trigger from[p], from[q]]
                    0 <= p < q < from.len() ==> from[p] < from[q]
            },
{
    let from = chosen(assets, paired(hits, assets));
    let results = results_for(hits, assets, rows);
    lemma_chosen(assets, paired(hits, assets));
    assert forall|p: int| 0 <= p < from.len() implies {
        &&& 0 <= #[trigger] from[p] < hits.len()
        &&& from[p] < assets.len()
        &&& assets[from[p]].text_at("content_hash"@) == Some(results[p].content_hash)
        &&& assets[from[p]].text_at("path"@) == Some(results[p].path)
        &&& forall|k: int|
            0 <= k < from[p] ==> (#[trigger] assets[k]).text_at("content_hash"@) != Some(
                results[p].content_hash,
            )
        &&& results[p] == result_for(hits[from[p]], assets[from[p]], rows)
    } by {
        let i = from[p];
        assert(gives_result(assets, i));
        assert(results[p] == result_for(hits[i], assets[i], rows));
        assert forall|k: int| 0 <= k < i implies (#[trigger] assets[k]).text_at("content_hash"@)
            != Some(results[p].content_hash) by {
            assert(hash_at(assets, k) != hash_at(assets, i));
        }
    }
}

/// Where every asset has a path and a content hash of its own, every hit with an asset is shown: there
/// are as many results as pairs.
pub proof fn different_assets_are_all_shown(
    hits: Seq<HitContent>,
    assets: Seq<Json>,
    rows: Seq<Json>,
)
    requires
        forall|i: int|
            0 <= i < assets.len() ==> (#[trigger] assets[i]).text_at("path"@) is Some
                && assets[i].text_at("content_hash"@) is Some,
        forall|i: int, j: int|
            #![trigger assets[i], assets[j]]
            0 <= i < j < assets.len() ==> assets[i].text_at("content_hash"@)
                != assets[j].text_at("content_hash"@),
    ensures
        hits.len() <= assets.len() ==> results_for(hits, assets, rows).len() == hits.len(),
        assets.len() <= hits.len() ==> results_for(hits, assets, rows).len() == assets.len(),
{
    lemma_all_chosen(assets, paired(hits, assets));
}

proof fn lemma_all_chosen(assets: Seq<Json>, n: nat)
    requires
        n <= assets.len(),
        forall|i: int|
            0 <= i < assets.len() ==> (#[trigger] assets[i]).text_at("path"@) is Some
                && assets[i].text_at("content_hash"@) is Some,
        forall|i: int, j: int|
            #![trigger assets[i], assets[j]]
            0 <= i < j < assets.len() ==> assets[i].text_at("content_hash"@)
                != assets[j].text_at("content_hash"@),
    ensures
        chosen(assets, n).len() == n,
    decreases n,
{
    if n > 0 {
        lemma_all_chosen(assets, (n - 1) as nat);
        assert(gives_result(assets, n - 1)) by {
            assert(assets[n - 1].text_at("path"@) is Some);
            assert forall|j: int| 0 <= j < n - 1 implies #[trigger] hash_at(assets, j) != hash_at(
                assets,
                n - 1,
            ) by {
                assert(assets[j].text_at("content_hash"@) != assets[n - 1].text_at(
                    "content_hash"@,
                ));
            }
        }
    }
}

/// The preview of a hit is taken from the first row with its id: the text under `content`, whole where
/// it has no more than three hundred characters, otherwise the first three hundred.
pub proof fn preview_begins_the_matched_text(rows: Seq<Json>, id: i64, i: int)
    requires
        0 <= i < rows.len(),
        rows[i].integer_at("$id"@) == Some(id),
        forall|k: int| 0 <= k < i ==> (#[trigger] rows[k]).integer_at("$id"@) != Some(id),
    ensures
        match rows[i].text_at("content"@) {
            Some(text) => {
                &&& preview(rows, id) matches Some(beginning)
                &&& text.len() <= 300 ==> beginning == text
                &&& text.len() > 300 ==> beginning.len() == 300 && text.take(300) == beginning
            },
            None => preview(rows, id) is None,
        },
{
    lemma_row_with_id(rows, id, i);
    if let Some(text) = rows[i].text_at("content"@) {
        assert(text.take(text.len() as int) =~= text);
    }
}

proof fn lemma_row_with_id(rows: Seq<Json>, id: i64, i: int)
    requires
        0 <= i < rows.len(),
        rows[i].integer_at("$id"@) == Some(id),
        forall|k: int| 0 <= k < i ==> (#[trigger] rows[k]).integer_at("$id"@) != Some(id),
    ensures
        row_with_id(rows, id) == Some(rows[i]),
    decreases rows.len(),
{
    if i > 0 {
        let rest = rows.drop_first();
        assert(rows[0].integer_at("$id"@) != Some(id));
        assert(rest[i - 1] == rows[i]);
        assert forall|k: int| 0 <= k < i - 1 implies (#[trigger] rest[k]).integer_at("$id"@) != Some(
            id,
        ) by {
            assert(rest[k] == rows[k + 1]);
        }
        lemma_row_with_id(rest, id, i - 1);
    }
}

/// There is no preview where no row has the id.
pub proof fn no_row_gives_no_preview(rows: Seq<Json>, id: i64)
    requires
        forall|k: int| 0 <= k < rows.len() ==> (#[trigger] rows[k]).integer_at("$id"@) != Some(id),
    ensures
        preview(rows, id) is None,
    decreases rows.len(),
{
    if rows.len() > 0 {
        let rest = rows.drop_first();
        assert(rows[0].integer_at("$id"@) != Some(id));
        assert forall|k: int| 0 <= k < rest.len() implies (#[trigger] rest[k]).integer_at("$id"@)
            != Some(id) by {
            assert(rest[k] == rows[k + 1]);
        }
        no_row_gives_no_preview(rest, id);
    }
}

/// A file shows the whole of the text that was read of it. Nothing else of the result changes, and
/// nothing at all where it is no file or could not be read.
pub proof fn file_shows_the_whole_text(result: ResultContent, text: Seq<char>)
    ensures
        result.label == "file"@ ==> with_text(result, Some(text)).content == Some(text),
        with_text(result, Some(text)).label == result.label,
        with_text(result, Some(text)).path == result.path,
        with_text(result, Some(text)).content_hash == result.content_hash,
        with_text(result, Some(text)).distance == result.distance,
        with_text(result, Some(text)).match_kind == result.match_kind,
        with_text(result, Some(text)).thumbnail_url == result.thumbnail_url,
        result.label != "file"@ ==> with_text(result, Some(text)) == result,
        with_text(result, None) == result,
{
}

/// A video shows the picture at a path, by the URL that ends in the encoded path. Nothing else of the
/// result changes, and nothing at all where it is no video or has no picture.
pub proof fn video_shows_its_picture(result: ResultContent, path: Seq<char>)
    ensures
        result.label == "video"@ ==> with_picture(result, Some(path)).thumbnail_url == Some(
            "localimg://preview?path="@ + encoded(encode_utf8(path)),
        ),
        with_picture(result, Some(path)).label == result.label,
        with_picture(result, Some(path)).path == result.path,
        with_picture(result, Some(path)).content_hash == result.content_hash,
        with_picture(result, Some(path)).distance == result.distance,
        with_picture(result, Some(path)).match_kind == result.match_kind,
        with_picture(result, Some(path)).content == result.content,
        result.label != "video"@ ==> with_picture(result, Some(path)) == result,
        with_picture(result, None) == result,
{
}

/// A result is written with all of its parts as they are: label, path, score, match kind and content,
/// and the URL of its picture where it has one. A missing content is null, and so is a score that is
/// not finite.
pub proof fn results_are_written_whole(result: ResultContent, score: u64)
    ensures
        ({
            &&& result_json(result, score) matches Json::Object(members)
            &&& members.len() == if result.thumbnail_url is Some { 6int } else { 5int }
            &&& members[0] == ("label"@, Json::Text(result.label))
            &&& members[1] == ("path"@, Json::Text(result.path))
            &&& members[2].0 == "score"@
            &&& is_finite(score) ==> members[2].1 == Json::Number(
                Number { integer: None, float: Some(score) },
            )
            &&& !is_finite(score) ==> members[2].1 is Null
            &&& members[3] == ("match_kind"@, Json::Text(result.match_kind))
            &&& members[4].0 == "content"@
            &&& result.content matches Some(text) ==> members[4].1 == Json::Text(text)
            &&& result.content is None ==> members[4].1 is Null
            &&& result.thumbnail_url matches Some(url) ==> members[5] == (
                "thumbnail_url"@,
                Json::Text(url),
            )
        }),
{
}

/// An answer holds the query and every one of the results, each once: those with the higher score
/// before the others, and those with equal scores as they stood.
pub proof fn answer_holds_every_result(
    query: Seq<char>,
    results: Seq<ResultContent>,
    scores: Seq<u64>,
    answer: Json,
)
    requires
        is_answer(query, results, scores, answer),
        results.len() == scores.len() <= usize::MAX,
    ensures
        exists|order: Seq<usize>, written: Seq<Json>|
            #![trigger order.len(), written.len()]
            {
                &&& answer == Json::Object(
                    seq![("query"@, Json::Text(query)), ("results"@, Json::Array(written))],
                )
                &&& written.len() == results.len()
                &&& order.len() == results.len()
                &&& forall|p: int|
                    0 <= p < order.len() ==> #[trigger] order[p] < results.len()
                        && #[trigger] written[p] == result_json(
                        results[order[p] as int],
                        scores[order[p] as int],
                    )
                &&& forall|i: usize| 0 <= i < results.len() ==> #[trigger] order.contains(i)
                &&& forall|p: int, q: int|
                    #![trigger order[p], order[q]]
                    0 <= p < q < order.len() ==> {
                        let a = scores[order[p] as int];
                        let b = scores[order[q] as int];
                        ||| (if is_finite(a) { rank(a) } else { 0 }) > (if is_finite(b) {
                            rank(b)
                        } else {
                            0
                        })
                        ||| (if is_finite(a) { rank(a) } else { 0 }) == (if is_finite(b) {
                            rank(b)
                        } else {
                            0
                        }) && order[p] < order[q]
                    }
            },
{
    let keys = score_keys(scores);
    let order = choose|order: Seq<usize>| #[trigger]
        is_stable_order(keys, order) && answer == answer_json(
            query,
            arranged(scored(results, scores), order),
        );
    let written = arranged(scored(results, scores), order);
    assert forall|i: usize| 0 <= i < results.len() implies #[trigger] order.contains(i) by {
        crate::sorting::stable_order_is_complete(keys, order, i);
    }
    assert forall|p: int| 0 <= p < order.len() implies #[trigger] order[p] < results.len()
        && #[trigger] written[p] == result_json(
        results[order[p] as int],
        scores[order[p] as int],
    ) by {}
    assert forall|p: int, q: int|
        #![trigger order[p], order[q]]
        0 <= p < q < order.len() implies {
        let a = scores[order[p] as int];
        let b = scores[order[q] as int];
        ||| (if is_finite(a) { rank(a) } else { 0 }) > (if is_finite(b) { rank(b) } else { 0 })
        ||| (if is_finite(a) { rank(a) } else { 0 }) == (if is_finite(b) { rank(b) } else { 0 })
            && order[p] < order[q]
    } by {
        assert(crate::sorting::goes_before(keys, order[p] as int, order[q] as int));
    }
    assert(written.len() == results.len() && order.len() == results.len());
    assert(answer == Json::Object(
        seq![("query"@, Json::Text(query)), ("results"@, Json::Array(written))],
    ));
}

/// The content of results is what their fields hold.
pub proof fn result_contents_are_the_fields(results: Seq<SearchResult>, i: int)
    requires
        0 <= i < results.len(),
    ensures
        result_views(results).len() == results.len(),
        result_views(results)[i].label == results[i].label@,
        result_views(results)[i].path == results[i].path@,
        result_views(results)[i].content_hash == results[i].content_hash@,
        result_views(results)[i].distance == results[i].distance,
        result_views(results)[i].match_kind == results[i].match_kind@,
        results[i].content matches Some(text) ==> result_views(results)[i].content == Some(text@),
        results[i].content is None ==> result_views(results)[i].content is None,
        results[i].thumbnail_url matches Some(url) ==> result_views(results)[i].thumbnail_url
            == Some(url@),
        results[i].thumbnail_url is None ==> result_views(results)[i].thumbnail_url is None,
{
}

} // verus!
