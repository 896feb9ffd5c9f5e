//! Searches, from the rows that the store finds to the reply.

use search_thing::float_bits::{finite, not_above, rank_of, LARGEST};
use search_thing::hits::{hit_of, ids_of, ranked_hits};
use search_thing::json::{value_as_string, Member, Number, Value};
use search_thing::pacing::{CallPacer, CALL_GAP_MS};
use search_thing::results::{assemble, preview_of, result_value, search_answer, SearchResult};
use search_thing::search::{
    backend_timeout_ms, distance_threshold, handle_query, PendingAssets, QueryRun, RpcReply,
    SearchOutcome, SearchQuery, SearchStage, DEFAULT_THRESHOLD, INTERNAL_ERROR,
};
use search_thing::sorting::stable_order;

fn value_of(json: &serde_json::Value) -> Value {
    match json {
        serde_json::Value::Null => Value::Null,
        serde_json::Value::Bool(b) => Value::Bool(*b),
        serde_json::Value::Number(n) => Value::Number(Number {
            integer: n.as_i64(),
            float: n.as_f64().map(f64::to_bits),
        }),
        serde_json::Value::String(s) => Value::Text(s.clone()),
        serde_json::Value::Array(items) => Value::Array(items.iter().map(value_of).collect()),
        serde_json::Value::Object(map) => Value::Object(
            map.iter().map(|(k, v)| Member { key: k.clone(), value: value_of(v) }).collect(),
        ),
    }
}

fn parsed(text: &str) -> Value {
    let json: serde_json::Value = serde_json::from_str(text).unwrap();
    value_of(&json)
}

fn rows(text: &str) -> Vec<Value> {
    match parsed(text) {
        Value::Array(items) => items,
        _ => panic!("rows are an array"),
    }
}

const ROWS: &str = "[
    {\"$id\": 1, \"$distance\": 0.29, \"unit_kind\": \"image_caption\", \"content\": \"far\"},
    {\"$id\": 2, \"$distance\": 0.1, \"unit_kind\": \"video_transcript\", \"content\": \"near\"},
    {\"$id\": 3, \"$distance\": 0.0, \"unit_kind\": \"file_path\", \"content\": \"path\"},
    {\"$id\": 4, \"$distance\": 0.0, \"unit_kind\": \"video_index_state\"},
    {\"$id\": 5, \"$distance\": 0.31, \"unit_kind\": \"image_caption\"},
    {\"$id\": -1, \"$distance\": 0.0, \"unit_kind\": \"image_caption\"},
    {\"$distance\": 0.0, \"unit_kind\": \"image_caption\"},
    {\"$id\": 6, \"unit_kind\": \"image_caption\"},
    7,
    {\"$id\": 8, \"$distance\": 0.1},
    {\"$id\": 9, \"$distance\": 0.30, \"unit_kind\": \"image_caption\"}
]";

fn query(threshold: f64) -> SearchQuery {
    SearchQuery { query: "cats".to_string(), threshold: threshold.to_bits() }
}

fn pending(outcome: SearchOutcome) -> PendingAssets {
    match query(0.30).answered(outcome) {
        Ok(SearchStage::Assets(pending)) => pending,
        _ => panic!("there are hits"),
    }
}

fn found() -> SearchOutcome {
    SearchOutcome::Answered(Ok(parsed(&format!("{{\"embeddings\": {{\"properties\": {}}}}}", ROWS))))
}

fn empty_answer() -> Value {
    parsed("{\"query\": \"cats\", \"results\": []}")
}

#[test]
fn settings_have_defaults() {
    assert_eq!(DEFAULT_THRESHOLD, (0.30f64).to_bits());
    assert_eq!(distance_threshold(None), (0.30f64).to_bits());
    assert_eq!(distance_threshold(Some((0.7f64).to_bits())), (0.7f64).to_bits());
    let timeout = |text: &str| backend_timeout_ms(Some(text.to_string()));
    assert_eq!(backend_timeout_ms(None), 12_000);
    assert_eq!(timeout("250"), 250);
    assert_eq!(timeout("+18446744073709551615"), u64::MAX);
    assert_eq!(timeout("18446744073709551616"), 12_000);
    assert_eq!(timeout("12s"), 12_000);
    assert_eq!(timeout(""), 12_000);
}

#[test]
fn float_order_agrees_with_the_machine() {
    let samples = [
        f64::NEG_INFINITY,
        f64::MIN,
        -1.0,
        -f64::MIN_POSITIVE,
        -0.0,
        0.0,
        5e-324,
        0.3,
        1.0,
        f64::MAX,
        f64::INFINITY,
        f64::NAN,
        -f64::NAN,
    ];
    assert_eq!(LARGEST, f64::MAX.to_bits());
    for a in samples {
        assert_eq!(finite(a.to_bits()), a.is_finite());
        for b in samples {
            assert_eq!(not_above(a.to_bits(), b.to_bits()), a <= b, "{} {}", a, b);
        }
    }
    assert_eq!(rank_of((-0.0f64).to_bits()), 0);
    assert_eq!(rank_of((0.0f64).to_bits()), 0);
}

#[test]
fn sorting_is_stable() {
    assert_eq!(stable_order(&vec![3i64, 1, 2, 1, 3]), vec![1, 3, 2, 0, 4]);
    assert_eq!(stable_order(&vec![1i64, 2, 3]), vec![0, 1, 2]);
    let words: Vec<Vec<char>> = ["b", "", "ab", "a"].iter().map(|w| w.chars().collect()).collect();
    assert_eq!(stable_order(&words), vec![1, 3, 2, 0]);
}

#[test]
fn hits_are_ranked() {
    let hits = ranked_hits(&rows(ROWS), (0.30f64).to_bits());
    assert_eq!(ids_of(&hits), vec![2, 8, 1, 9]);
    assert_eq!(hits[0].distance, (0.1f64).to_bits());
    assert_eq!(hits[0].unit_kind, "video_transcript");
    assert_eq!(hits[1].unit_kind, "");
}

#[test]
fn thresholds_let_hits_through() {
    let count = |threshold: f64| ranked_hits(&rows(ROWS), threshold.to_bits()).len();
    assert_eq!(count(0.05), 0);
    assert_eq!(count(0.1), 2);
    assert_eq!(count(1.0), 5);
    assert_eq!(count(f64::MAX), 6);
    assert_eq!(count(f64::NAN), 0);
}

#[test]
fn single_rows_are_judged() {
    let hit = |text: &str| hit_of(&parsed(text), (0.5f64).to_bits());
    let good = hit("{\"$id\": 0, \"$distance\": 0, \"unit_kind\": \"x\"}").unwrap();
    assert_eq!((good.id, good.distance, good.unit_kind.as_str()), (0, 0, "x"));
    assert!(hit("{\"$id\": 0, \"$distance\": 0.6}").is_none());
    assert!(hit("{\"$id\": 0.5, \"$distance\": 0.1}").is_none());
    assert!(hit("[]").is_none());
    assert!(hit("null").is_none());
}

#[test]
fn previews_come_from_the_row() {
    let long = "é".repeat(301);
    let items = rows(&format!(
        "[5, {{\"$id\": 1, \"content\": \"one\"}}, {{\"$id\": 1, \"content\": \"two\"}},
          {{\"$id\": 2}}, {{\"$id\": 3, \"content\": \"{}\"}}]",
        long
    ));
    assert_eq!(preview_of(&items, 1), Some("one".to_string()));
    assert_eq!(preview_of(&items, 2), None);
    assert_eq!(preview_of(&items, 3), Some("é".repeat(300)));
    assert_eq!(preview_of(&items, 4), None);
}

#[test]
fn results_are_assembled() {
    let hits = ranked_hits(&rows(ROWS), (0.30f64).to_bits());
    let assets = rows(
        "[{\"content_hash\": \"h1\", \"path\": \"/a\", \"kind\": \"video\"},
          {\"content_hash\": \"h1\", \"path\": \"/b\"},
          {\"content_hash\": \"h2\", \"path\": \"/c\"},
          null]",
    );
    let results = assemble(&hits, &assets, &rows(ROWS));
    assert_eq!(results.len(), 2);
    assert_eq!(results[0].label, "video");
    assert_eq!(results[0].path, "/a");
    assert_eq!(results[0].content_hash, "h1");
    assert_eq!(results[0].distance, (0.1f64).to_bits());
    assert_eq!(results[0].match_kind, "video_transcript");
    assert_eq!(results[0].content, Some("near".to_string()));
    assert_eq!(results[0].thumbnail_url, None);
    assert_eq!(results[1].label, "file");
    assert_eq!(results[1].path, "/c");
    assert_eq!(results[1].content, Some("far".to_string()));
}

#[test]
fn assets_without_hash_or_path_are_skipped() {
    let hits = ranked_hits(&rows(ROWS), (0.30f64).to_bits());
    let assets = rows(
        "[{\"path\": \"/a\"}, {\"content_hash\": \"h1\"}, {\"content_hash\": \"h1\", \"path\": \"/b\"}, 4]",
    );
    assert!(assemble(&hits, &assets, &rows(ROWS)).is_empty());
    let fewer = rows("[{\"content_hash\": \"h\", \"path\": \"/p\"}]");
    assert_eq!(assemble(&hits, &fewer, &rows(ROWS)).len(), 1);
}

fn result(label: &str, path: &str) -> SearchResult {
    SearchResult {
        label: label.to_string(),
        path: path.to_string(),
        content_hash: "h".to_string(),
        distance: 0,
        match_kind: "k".to_string(),
        content: Some("matched".to_string()),
        thumbnail_url: None,
    }
}

#[test]
fn files_show_their_text() {
    let shown = result("file", "/a").with_file_text(Some("whole".to_string()));
    assert_eq!(shown.content, Some("whole".to_string()));
    let unread = result("file", "/a").with_file_text(None);
    assert_eq!(unread.content, Some("matched".to_string()));
    let image = result("image", "/a").with_file_text(Some("whole".to_string()));
    assert_eq!(image.content, Some("matched".to_string()));
    assert!(result("file", "/a").wants_file_text());
    assert!(!result("video", "/a").wants_file_text());
}

#[test]
fn videos_show_their_picture() {
    let video = result("video", "/a").with_thumbnail(Some("/t/a b.jpg".to_string()));
    assert_eq!(video.thumbnail_url, Some("localimg://preview?path=/t/a%20b.jpg".to_string()));
    let bare = result("video", "/a").with_thumbnail(None);
    assert_eq!(bare.thumbnail_url, None);
    let file = result("file", "/a").with_thumbnail(Some("/t/a.jpg".to_string()));
    assert_eq!(file.thumbnail_url, None);
    assert!(result("video", "/a").wants_thumbnail());
    assert!(!result("file", "/a").wants_thumbnail());
}

#[test]
fn results_are_written_as_json() {
    let mut one = result("video", "/a");
    one.thumbnail_url = Some("u".to_string());
    let member = |key: &str, value: Value| Member { key: key.to_string(), value };
    let text = |s: &str| Value::Text(s.to_string());
    let score = (0.75f64).to_bits();
    assert_eq!(
        result_value(&one, score),
        Value::Object(vec![
            member("label", text("video")),
            member("path", text("/a")),
            member("score", Value::Number(Number { integer: None, float: Some(score) })),
            member("match_kind", text("k")),
            member("content", text("matched")),
            member("thumbnail_url", text("u")),
        ])
    );
    let mut two = result("file", "/b");
    two.content = None;
    assert_eq!(
        result_value(&two, f64::NAN.to_bits()),
        Value::Object(vec![
            member("label", text("file")),
            member("path", text("/b")),
            member("score", Value::Null),
            member("match_kind", text("k")),
            member("content", Value::Null),
        ])
    );
}

#[test]
fn answers_go_by_score() {
    let results = vec![result("a", "/1"), result("b", "/2"), result("c", "/3"), result("d", "/4")];
    let scores: Vec<u64> = [0.2f64, 0.9, 0.2, f64::NAN].iter().map(|s| s.to_bits()).collect();
    let answer = search_answer("cats", &results, &scores);
    assert_eq!(value_as_string(answer.get("query")), Some("cats".to_string()));
    let labels: Vec<&str> = answer
        .get("results")
        .unwrap()
        .as_array()
        .unwrap()
        .iter()
        .map(|r| r.text_at("label").unwrap())
        .collect();
    assert_eq!(labels, ["b", "a", "c", "d"]);
    let falling: Vec<u64> = [0.9f64, 0.9, 0.5, 0.0].iter().map(|s| s.to_bits()).collect();
    let kept = search_answer("cats", &results, &falling);
    assert_eq!(kept.get("results").unwrap().as_array().unwrap()[3].text_at("label"), Some("d"));
}

#[test]
fn searches_without_hits_are_answered_at_once() {
    let outcomes = [
        SearchOutcome::TimedOut,
        SearchOutcome::Answered(Ok(Value::Null)),
        SearchOutcome::Answered(Ok(parsed("{\"embeddings\": []}"))),
        SearchOutcome::Answered(Err("Embedding error".to_string())),
        SearchOutcome::Answered(Err("no entry point found for hnsw index".to_string())),
    ];
    for outcome in outcomes {
        match query(0.30).answered(outcome) {
            Ok(SearchStage::Answered(answer)) => assert_eq!(answer, empty_answer()),
            _ => panic!("there are no hits"),
        }
    }
    match query(0.05).answered(found()) {
        Ok(SearchStage::Answered(answer)) => assert_eq!(answer, empty_answer()),
        _ => panic!("nothing is that near"),
    }
}

#[test]
fn failed_searches_are_told() {
    let outcome = SearchOutcome::Answered(Err("refused".to_string()));
    assert_eq!(query(0.30).answered(outcome).err().unwrap(), "asset search failed: refused");
}

#[test]
fn searches_run_to_their_results() {
    let mut pending = pending(found());
    let mut asked = 0usize;
    while pending.next_request().is_some() {
        let answer = format!(
            "{{\"asset\": [{{\"content_hash\": \"h{}\", \"path\": \"/p{}\", \"kind\": \"file\"}}]}}",
            asked % 3,
            asked
        );
        pending = pending.answered(Ok(parsed(&answer))).unwrap();
        asked += 1;
    }
    assert_eq!(asked, 4);
    let results = pending.into_results();
    let paths: Vec<&str> = results.iter().map(|r| r.path.as_str()).collect();
    assert_eq!(paths, ["/p0", "/p1", "/p2"]);
    let distances: Vec<f64> = results.iter().map(|r| f64::from_bits(r.distance)).collect();
    assert_eq!(distances, [0.1, 0.1, 0.29]);
}

#[test]
fn lost_assets_end_a_search() {
    let pending = pending(found());
    assert_eq!(pending.answered(Err("down".to_string())).err().unwrap(), "down");
}

#[test]
fn replies_report_the_outcome() {
    let id = || parsed("12");
    match handle_query(id(), QueryRun::Finished(Ok(empty_answer()))) {
        RpcReply::Success { id: to, result } => {
            assert_eq!(to, id());
            assert_eq!(result, empty_answer());
        }
        RpcReply::Failure { .. } => panic!("it succeeded"),
    }
    for (run, reason) in [
        (QueryRun::Finished(Err("down".to_string())), "down"),
        (QueryRun::NoRuntime("no threads".to_string()), "failed to init runtime: no threads"),
    ] {
        match handle_query(id(), run) {
            RpcReply::Failure { id: to, code, message, data } => {
                assert_eq!(to, id());
                assert_eq!(code, INTERNAL_ERROR);
                assert_eq!(code, -32603);
                assert_eq!(message, "Search query failed");
                assert_eq!(data, Some(parsed(&format!("{{\"reason\": \"{}\"}}", reason))));
            }
            RpcReply::Success { .. } => panic!("it failed"),
        }
    }
    let refusal = RpcReply::Failure {
        id: id(),
        code: -32602,
        message: "Invalid params".to_string(),
        data: None,
    };
    match handle_query(id(), QueryRun::BadParams(refusal)) {
        RpcReply::Failure { code, message, data, .. } => {
            assert_eq!((code, message.as_str(), data), (-32602, "Invalid params", None));
        }
        RpcReply::Success { .. } => panic!("it was refused"),
    }
}

#[test]
fn calls_are_kept_apart() {
    let mut pacer = CallPacer::new();
    assert_eq!(CALL_GAP_MS, 21_000);
    assert_eq!(pacer.try_start(500), 0);
    assert_eq!(pacer.try_start(1_500), 20_000);
    assert_eq!(pacer.try_start(21_499), 1);
    assert_eq!(pacer.try_start(21_500), 0);
    assert_eq!(pacer.try_start(21_500), 21_000);
    assert_eq!(pacer.try_start(90_000), 0);
    assert_eq!(pacer.try_start(80_000), 31_000);
    assert_eq!(pacer.try_start(u64::MAX), 0);
    assert_eq!(pacer.try_start(u64::MAX), 21_000);
    assert_eq!(pacer.try_start(0), u64::MAX);
}

#[test]
fn bookkeeping_rows_change_nothing() {
    let plain = rows("[{\"$id\": 1, \"$distance\": 0.2, \"unit_kind\": \"x\", \"content\": \"one\"}]");
    let mixed = rows(
        "[{\"$id\": 7, \"$distance\": 0.0, \"unit_kind\": \"file_path\", \"content\": \"p\"},
          {\"$id\": 1, \"$distance\": 0.2, \"unit_kind\": \"x\", \"content\": \"one\"},
          {\"$id\": 8, \"$distance\": 0.1, \"unit_kind\": \"video_index_state\"}]",
    );
    let assets = rows("[{\"content_hash\": \"h\", \"path\": \"/p\"}]");
    for items in [plain, mixed] {
        let hits = ranked_hits(&items, (0.30f64).to_bits());
        assert_eq!(ids_of(&hits), vec![1]);
        let results = assemble(&hits, &assets, &items);
        assert_eq!(results.len(), 1);
        assert_eq!(results[0].content, Some("one".to_string()));
    }
}
