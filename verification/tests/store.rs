//! The requests that the store makes, and what it makes of the answers.

use helix_db::{
    g, read_batch, write_batch, DynamicQueryRequest, IndexSpec, NodeRef, PropertyInput,
    PropertyValue, SourcePredicate,
};
use search_thing::flows::{first_owner, AssetFetch, ClientSlot};
use search_thing::helix::{CreateStep, HelixTextStore, UpsertStep};
use search_thing::json::{Member, Number, Value};

fn value_of(json: &serde_json::Value) -> Value {
    match json {
        serde_json::Value::Null => Value::Null,
        serde_json::Value::Bool(b) => Value::Bool(*b),
        serde_json::Value::Number(n) => Value::Number(Number {
            integer: n.as_i64(),
            float: n.as_f64().map(f64::to_bits),
        }),
        serde_json::Value::String(s) => Value::Text(s.clone()),
        serde_json::Value::Array(items) => Value::Array(items.iter().map(value_of).collect()),
        serde_json::Value::Object(map) => Value::Object(
            map.iter().map(|(k, v)| Member { key: k.clone(), value: value_of(v) }).collect(),
        ),
    }
}

fn parsed(text: &str) -> Value {
    let json: serde_json::Value = serde_json::from_str(text).unwrap();
    value_of(&json)
}

fn store() -> HelixTextStore {
    HelixTextStore::from_env(None, None).unwrap()
}

fn asset_predicate(hash: &str) -> SourcePredicate {
    SourcePredicate::and(vec![
        SourcePredicate::eq("$label", "Asset"),
        SourcePredicate::eq("content_hash", hash),
    ])
}

fn floats() -> Vec<f32> {
    vec![0.25, -1.5, 3.0]
}

fn stamped_request(created_at: &str) -> DynamicQueryRequest {
    DynamicQueryRequest::write(
        write_batch()
            .var_as("asset", g().n_where(asset_predicate("h1")))
            .var_as(
                "embedding",
                g().add_n(
                    "AssetEmbedding",
                    vec![
                        ("unit_kind", PropertyInput::from("image_caption")),
                        ("unit_key", PropertyInput::from("0")),
                        ("content", PropertyInput::from("a cat")),
                        ("vector", PropertyInput::from(PropertyValue::F32Array(floats()))),
                    ],
                ),
            )
            .var_as(
                "edge",
                g().n(NodeRef::var("asset")).add_e(
                    "HasAssetEmbedding",
                    NodeRef::var("embedding"),
                    vec![("created_at", PropertyInput::from(created_at.to_string()))],
                ),
            )
            .returning(["embedding"]),
    )
}

#[test]
fn endpoint_defaults() {
    assert_eq!(store().endpoint(), "http://localhost:6969");
}

#[test]
fn endpoint_loses_slashes_and_leading_zeros() {
    let one = HelixTextStore::from_env(Some("http://db//".to_string()), Some("0080".to_string()));
    assert_eq!(one.unwrap().endpoint(), "http://db:80");
    let two = HelixTextStore::from_env(Some("///".to_string()), Some("+65535".to_string()));
    assert_eq!(two.unwrap().endpoint(), ":65535");
    let three = HelixTextStore::from_env(Some("http://db".to_string()), Some("0".to_string()));
    assert_eq!(three.unwrap().endpoint(), "http://db:0");
}

#[test]
fn bad_ports_are_refused() {
    let bad = |port: &str| HelixTextStore::from_env(None, Some(port.to_string())).unwrap_err();
    assert_eq!(bad("80a"), "invalid HELIX_PORT: invalid digit found in string");
    assert_eq!(bad(" 80"), "invalid HELIX_PORT: invalid digit found in string");
    assert_eq!(bad("-1"), "invalid HELIX_PORT: invalid digit found in string");
    assert_eq!(bad("+"), "invalid HELIX_PORT: invalid digit found in string");
    assert_eq!(bad(""), "invalid HELIX_PORT: cannot parse integer from empty string");
    assert_eq!(bad("65536"), "invalid HELIX_PORT: number too large to fit in target type");
}

#[test]
fn index_request() {
    let expected = DynamicQueryRequest::write(
        write_batch()
            .var_as(
                "idx_hash",
                g().create_index_if_not_exists(IndexSpec::node_equality("Asset", "content_hash")),
            )
            .var_as(
                "idx_vec",
                g().create_vector_index_nodes("AssetEmbedding", "vector", None::<&str>),
            )
            .returning(["idx_hash", "idx_vec"]),
    );
    assert_eq!(store().ensure_indexes(), expected);
}

#[test]
fn asset_lookup_request() {
    let expected = DynamicQueryRequest::read(
        read_batch()
            .var_as("asset", g().n_where(asset_predicate("h1")).value_map(None::<Vec<&str>>))
            .returning(["asset"]),
    );
    assert_eq!(store().get_asset_by_hash("h1"), expected);
    assert_ne!(store().get_asset_by_hash("h2"), expected);
}

#[test]
fn embeddings_lookup_request() {
    let expected = DynamicQueryRequest::read(
        read_batch()
            .var_as("asset", g().n_where(asset_predicate("h1")))
            .var_as(
                "embeddings",
                g().n(NodeRef::var("asset"))
                    .out(Some("HasAssetEmbedding"))
                    .value_map(None::<Vec<&str>>),
            )
            .returning(["embeddings"]),
    );
    assert_eq!(store().get_asset_embeddings_by_hash("h1"), expected);
}

#[test]
fn new_asset_is_written() {
    let expected = DynamicQueryRequest::write(
        write_batch()
            .var_as(
                "asset",
                g().add_n(
                    "Asset",
                    vec![("content_hash", "h1"), ("kind", "video"), ("path", "/v/a.mp4")],
                )
                .value_map(None::<Vec<&str>>),
            )
            .returning(["asset"]),
    );
    let missing = parsed("{\"asset\": {\"properties\": []}}");
    match store().create_asset(Ok(missing), "h1", "video", "/v/a.mp4") {
        CreateStep::Write(request) => assert_eq!(request, expected),
        CreateStep::Finished(_) => panic!("nothing is there yet"),
    }
    match store().create_asset(Ok(Value::Null), "h1", "video", "/v/a.mp4") {
        CreateStep::Write(request) => assert_eq!(request, expected),
        CreateStep::Finished(_) => panic!("nothing is there yet"),
    }
}

#[test]
fn asset_that_is_there_is_kept() {
    let there = "{\"asset\": [{\"id\": \"a-1\", \"kind\": \"file\"}]}";
    match store().create_asset(Ok(parsed(there)), "h1", "video", "/v/a.mp4") {
        CreateStep::Finished(Ok(value)) => assert_eq!(value, parsed(there)),
        _ => panic!("it is there"),
    }
    match store().create_asset(Err("down".to_string()), "h1", "video", "/v/a.mp4") {
        CreateStep::Finished(Err(message)) => assert_eq!(message, "down"),
        _ => panic!("the lookup failed"),
    }
}

#[test]
fn new_embedding_request_is_stamped() {
    let vector = PropertyInput::from(PropertyValue::F32Array(floats()));
    let made = store().create_asset_embedding(
        "h1",
        "image_caption",
        "0",
        "a cat",
        vector,
        1_700_000_000,
        999_999_999,
    );
    assert_eq!(made.unwrap(), stamped_request("2023-11-14T22:13:20Z"));
    let vector = PropertyInput::from(PropertyValue::F32Array(floats()));
    let given =
        store().stamped_embedding("h1", "image_caption", "0", "a cat", vector, "yesterday");
    assert_eq!(given, stamped_request("yesterday"));
}

#[test]
fn times_beyond_the_calendar_are_told() {
    let vector = || PropertyInput::from(PropertyValue::F32Array(floats()));
    assert!(store()
        .create_asset_embedding("h", "k", "u", "c", vector(), i64::MAX, 0)
        .is_none());
    let made = |seconds: i64, nanoseconds: u32| {
        store()
            .create_asset_embedding("h", "k", "u", "c", vector(), seconds, nanoseconds)
            .is_some()
    };
    assert!(made(58, 999_999_999));
    assert!(!made(58, 1_000_000_000));
    assert!(made(59, 1_999_999_999));
    assert!(!made(59, 2_000_000_000));
    let step = store().upsert_embedded(Ok(vector()), "h", "k", "u", "c", i64::MAX, 0);
    assert!(matches!(step, UpsertStep::NoTime));
}

#[test]
fn vector_search_request() {
    let expected = DynamicQueryRequest::read(
        read_batch()
            .var_as(
                "embeddings",
                g().vector_search_nodes("AssetEmbedding", "vector", floats(), 50, None)
                    .value_map(None::<Vec<&str>>),
            )
            .returning(["embeddings"]),
    );
    let vector = PropertyInput::from(PropertyValue::F32Array(floats()));
    assert_eq!(store().search_asset_embeddings(vector), expected);
}

#[test]
fn clearing_request() {
    let expected = DynamicQueryRequest::write(
        write_batch()
            .var_as("embeddings", g().n_with_label("Asset").out(Some("HasAssetEmbedding")))
            .var_as("drop_embeddings", g().n(NodeRef::var("embeddings")).drop())
            .var_as("assets", g().n_with_label("Asset"))
            .var_as("drop_assets", g().n(NodeRef::var("assets")).drop())
            .returning(["drop_assets"]),
    );
    assert_eq!(store().clear_search_index(), expected);
}

fn owner_of(id: i64) -> DynamicQueryRequest {
    DynamicQueryRequest::read(
        read_batch()
            .var_as("emb", g().n_where(SourcePredicate::eq("$id", id)))
            .var_as(
                "asset",
                g().n(NodeRef::var("emb"))
                    .in_(Some("HasAssetEmbedding"))
                    .value_map(None::<Vec<&str>>),
            )
            .returning(["asset"]),
    )
}

#[test]
fn assets_are_fetched_in_order_with_repetitions() {
    let fetch = store().get_assets_for_embedding_ids(vec![7, 3, 7]);
    assert_eq!(fetch.next_request().unwrap(), owner_of(7));
    let fetch = fetch.answered(Ok(parsed("{\"asset\": [{\"path\": \"a\"}]}"))).unwrap();
    assert_eq!(fetch.next_request().unwrap(), owner_of(3));
    let fetch = fetch.answered(Ok(Value::Null)).unwrap();
    assert_eq!(fetch.next_request().unwrap(), owner_of(7));
    let fetch = fetch
        .answered(Ok(parsed("{\"asset\": {\"properties\": [{\"path\": \"b\"}, 1]}}")))
        .unwrap();
    assert!(fetch.next_request().is_none());
    let assets = fetch.into_assets();
    assert_eq!(
        assets,
        vec![parsed("{\"path\": \"a\"}"), Value::Null, parsed("{\"path\": \"b\"}")]
    );
}

#[test]
fn no_ids_ask_for_nothing() {
    let fetch = store().get_assets_for_embedding_ids(Vec::new());
    assert!(fetch.next_request().is_none());
    assert!(fetch.into_assets().is_empty());
}

#[test]
fn failed_fetch_is_told() {
    let fetch = AssetFetch::begin(vec![1]);
    assert_eq!(fetch.answered(Err("down".to_string())).err().unwrap(), "down");
}

#[test]
fn owner_is_the_first_row() {
    assert_eq!(first_owner(&parsed("{\"asset\": [1, 2]}")), parsed("1"));
    assert_eq!(first_owner(&parsed("{\"asset\": []}")), Value::Null);
    assert_eq!(first_owner(&parsed("{\"asset\": 5}")), Value::Null);
    assert_eq!(first_owner(&parsed("{\"asset\": {\"properties\": 5}}")), Value::Null);
    assert_eq!(first_owner(&parsed("[]")), Value::Null);
}

#[test]
fn not_found_counts_as_null() {
    let settled = |message: &str| HelixTextStore::exec_optional(Err(message.to_string()));
    assert_eq!(settled("HTTP 500: GRAPH error: No value FOUND."), Ok(Value::Null));
    assert_eq!(settled("{\"error\":\"Graph error: no value found\"}"), Ok(Value::Null));
    assert_eq!(settled("graph error"), Err("graph error".to_string()));
    assert_eq!(HelixTextStore::exec_optional(Ok(Value::Bool(true))), Ok(Value::Bool(true)));
    assert!(HelixTextStore::is_not_found_error("graph error: no value found"));
    assert!(!HelixTextStore::is_not_found_error("graph error: no values found"));
}

#[test]
fn asset_id_is_found_at_any_depth() {
    let id = |text: &str| HelixTextStore::extract_asset_id(&parsed(text));
    assert_eq!(id("{\"id\": \"x\", \"asset_id\": \"y\"}"), Some("y".to_string()));
    assert_eq!(id("{\"asset_id\": 4, \"id\": \"x\"}"), Some("x".to_string()));
    assert_eq!(id("[[], [{\"a\": {\"id\": \"deep\"}}], {\"id\": \"late\"}]"), Some("deep".to_string()));
    assert_eq!(id("{\"a\": {\"id\": \"first\"}, \"b\": {\"asset_id\": \"second\"}}"), Some("first".to_string()));
    assert_eq!(id("{\"id\": 4, \"$id\": \"x\"}"), None);
    assert_eq!(id("\"id\""), None);
}

#[test]
fn units_are_found_at_any_depth() {
    let answer = parsed(
        "{\"embeddings\": {\"properties\": [{\"unit_kind\": \"file_path\", \"unit_key\": \"0\"},
          {\"unit_kind\": \"video_index_state\", \"unit_key\": \"complete\"}]}}",
    );
    assert!(HelixTextStore::embedding_unit_exists(&answer, "file_path", "0"));
    assert!(!HelixTextStore::embedding_unit_exists(&answer, "file_path", "1"));
    assert!(!HelixTextStore::embedding_unit_exists(&answer, "file_path", "complete"));
    assert!(HelixTextStore::has_video_completion_marker(&answer));
    assert!(!HelixTextStore::has_video_completion_marker(&Value::Null));
    let other = parsed("[{\"unit_kind\": \"video_index_state\", \"unit_key\": \"started\"}]");
    assert!(!HelixTextStore::has_video_completion_marker(&other));
    let parted = parsed("[{\"unit_kind\": \"video_index_state\"}, {\"unit_key\": \"complete\"}]");
    assert!(!HelixTextStore::has_video_completion_marker(&parted));
}

#[test]
fn lookups_are_read() {
    let found = HelixTextStore::existing_asset(Ok(parsed("[{\"id\": \"a\"}]")));
    assert_eq!(found, Ok(Some("a".to_string())));
    assert_eq!(HelixTextStore::existing_asset(Ok(Value::Null)), Ok(None));
    assert_eq!(
        HelixTextStore::existing_asset(Err("down".to_string())),
        Err("down".to_string())
    );
    let mark = "{\"unit_kind\": \"video_index_state\", \"unit_key\": \"complete\"}";
    assert_eq!(HelixTextStore::video_asset_has_embeddings(Ok(parsed(mark))), Ok(true));
    assert_eq!(HelixTextStore::video_asset_has_embeddings(Ok(Value::Null)), Ok(false));
    assert_eq!(
        HelixTextStore::video_asset_has_embeddings(Err("down".to_string())),
        Err("down".to_string())
    );
}

#[test]
fn units_are_written_once() {
    let there = "[{\"unit_kind\": \"k\", \"unit_key\": \"u\"}]";
    let step = store().upsert_asset_embedding(Ok(parsed(there)), "k", "u");
    assert!(matches!(step, UpsertStep::Finished(Ok(()))));
    let step = store().upsert_asset_embedding(Ok(parsed(there)), "k", "v");
    assert!(matches!(step, UpsertStep::Embed));
    match store().upsert_asset_embedding(Err("down".to_string()), "k", "v") {
        UpsertStep::Finished(Err(message)) => assert_eq!(message, "down"),
        _ => panic!("the lookup failed"),
    }
}

#[test]
fn embedded_units_are_written() {
    let vector = PropertyInput::from(PropertyValue::F32Array(floats()));
    let step = store().upsert_embedded(Ok(vector), "h1", "image_caption", "0", "a cat", 0, 5);
    match step {
        UpsertStep::Write(request) => {
            assert_eq!(request, stamped_request("1970-01-01T00:00:00Z"));
        }
        _ => panic!("it is to be written"),
    }
    let step = store().upsert_embedded(Err("no key".to_string()), "h", "k", "u", "c", 0, 0);
    match step {
        UpsertStep::Finished(Err(message)) => assert_eq!(message, "no key"),
        _ => panic!("it was not embedded"),
    }
}

#[test]
fn blank_keys_are_not_sent() {
    let key = |text: &str| HelixTextStore::usable_api_key(Some(text.to_string()));
    assert_eq!(key(" k "), Some(" k ".to_string()));
    assert_eq!(key(""), None);
    assert_eq!(key(" \t\n\u{a0}\u{3000}"), None);
    assert_eq!(HelixTextStore::usable_api_key(None), None);
}

#[test]
fn client_is_made_once() {
    let mut slot: ClientSlot<String> = ClientSlot::new();
    assert_eq!(slot.client(), None);
    assert_eq!(slot.install(Err("no key".to_string())), Err("no key".to_string()));
    assert_eq!(slot.client(), None);
    assert_eq!(slot.install(Ok("client".to_string())), Ok("client".to_string()));
    assert_eq!(slot.client(), Some("client".to_string()));
    assert_eq!(slot.client(), Some("client".to_string()));
}
