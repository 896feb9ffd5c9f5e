//! The store of assets and their embeddings: which requests it makes, and what it makes of the
//! answers.

use vstd::prelude::*;

use crate::assets::{asset_id, completed, find_asset_id, find_unit, unit_within};
use crate::json::{Json, Value};
use crate::parse::{parse_u16, port_error, rfc3339_seconds, rfc3339_utc};
use crate::query::{
    add_edge, add_node, all_of, drop_nodes, ensure_equality_index, ensure_vector_index,
    found_nodes_as, input_content, into_nodes, nearest_nodes, nodes_in, nodes_where,
    nodes_with_label, number_is, out, property_contents, read_batch, read_nodes_as, read_request,
    read_rows_as, read_values, request_content, text_input, text_is, write_batch, write_request,
    written_nodes_as, written_rows_as, written_values, Batch, Content, Filter, Index, Query,
    Request, Step,
};
use crate::text::{
    contains_text, has_text, lowered, lowered_chars, numeral, numeral_of, trim_end, trimmed_end,
    unsigned_value,
};

verus! {

/// How many of the nearest embeddings a search asks for.
pub const SEARCH_COUNT: usize = 50;

/// The filter that selects the asset with a content hash.
pub open spec fn asset_filter(content_hash: Seq<char>) -> Filter {
    Filter::All(
        seq![
            Filter::TextIs("$label"@, "Asset"@),
            Filter::TextIs("content_hash"@, content_hash),
        ],
    )
}

/// Reads the asset with a content hash.
pub open spec fn asset_request(content_hash: Seq<char>) -> Request {
    Request {
        writes: false,
        batch: Batch {
            queries: seq![
                Query {
                    name: "asset"@,
                    steps: seq![Step::NodesWhere(asset_filter(content_hash)), Step::AllValues],
                },
            ],
            returns: seq!["asset"@],
        },
    }
}

/// The properties of an asset's node.
pub open spec fn asset_properties(
    content_hash: Seq<char>,
    kind: Seq<char>,
    path: Seq<char>,
) -> Seq<(Seq<char>, Content)> {
    seq![
        ("content_hash"@, Content::Text(content_hash)),
        ("kind"@, Content::Text(kind)),
        ("path"@, Content::Text(path)),
    ]
}

/// Creates an asset and reads it back.
pub open spec fn new_asset_request(
    content_hash: Seq<char>,
    kind: Seq<char>,
    path: Seq<char>,
) -> Request {
    Request {
        writes: true,
        batch: Batch {
            queries: seq![
                Query {
                    name: "asset"@,
                    steps: seq![
                        Step::AddNode {
                            label: "Asset"@,
                            properties: asset_properties(content_hash, kind, path),
                        },
                        Step::AllValues,
                    ],
                },
            ],
            returns: seq!["asset"@],
        },
    }
}

/// Reads the embeddings of the asset with a content hash.
pub open spec fn embeddings_request(content_hash: Seq<char>) -> Request {
    Request {
        writes: false,
        batch: Batch {
            queries: seq![
                Query {
                    name: "asset"@,
                    steps: seq![Step::NodesWhere(asset_filter(content_hash))],
                },
                Query {
                    name: "embeddings"@,
                    steps: seq![
                        Step::NodesIn("asset"@),
                        Step::Out("HasAssetEmbedding"@),
                        Step::AllValues,
                    ],
                },
            ],
            returns: seq!["embeddings"@],
        },
    }
}

/// The properties of an embedding's node.
pub open spec fn embedding_properties(
    unit_kind: Seq<char>,
    unit_key: Seq<char>,
    text: Seq<char>,
    vector: Content,
) -> Seq<(Seq<char>, Content)> {
    seq![
        ("unit_kind"@, Content::Text(unit_kind)),
        ("unit_key"@, Content::Text(unit_key)),
        ("content"@, Content::Text(text)),
        ("vector"@, vector),
    ]
}

/// Creates an embedding and ties it to the asset with a content hash.
pub open spec fn new_embedding_request(
    content_hash: Seq<char>,
    properties: Seq<(Seq<char>, Content)>,
    created_at: Seq<char>,
) -> Request {
    Request {
        writes: true,
        batch: Batch {
            queries: seq![
                Query {
                    name: "asset"@,
                    steps: seq![Step::NodesWhere(asset_filter(content_hash))],
                },
                Query {
                    name: "embedding"@,
                    steps: seq![Step::AddNode { label: "AssetEmbedding"@, properties }],
                },
                Query {
                    name: "edge"@,
                    steps: seq![
                        Step::NodesIn("asset"@),
                        Step::AddEdge {
                            label: "HasAssetEmbedding"@,
                            to: "embedding"@,
                            properties: seq![("created_at"@, Content::Text(created_at))],
                        },
                    ],
                },
            ],
            returns: seq!["embedding"@],
        },
    }
}

/// Reads the embeddings whose vectors are nearest.
pub open spec fn search_request(vector: Content) -> Request {
    Request {
        writes: false,
        batch: Batch {
            queries: seq![
                Query {
                    name: "embeddings"@,
                    steps: seq![
                        Step::Nearest {
                            label: "AssetEmbedding"@,
                            property: "vector"@,
                            vector,
                            count: SEARCH_COUNT as nat,
                        },
                        Step::AllValues,
                    ],
                },
            ],
            returns: seq!["embeddings"@],
        },
    }
}

/// Reads the asset to which the embedding with an id is tied.
pub open spec fn owner_request(id: i64) -> Request {
    Request {
        writes: false,
        batch: Batch {
            queries: seq![
                Query {
                    name: "emb"@,
                    steps: seq![Step::NodesWhere(Filter::NumberIs("$id"@, id))],
                },
                Query {
                    name: "asset"@,
                    steps: seq![
                        Step::NodesIn("emb"@),
                        Step::In("HasAssetEmbedding"@),
                        Step::AllValues,
                    ],
                },
            ],
            returns: seq!["asset"@],
        },
    }
}

/// Creates the two indexes that lookup and search rest on, where they are missing.
pub open spec fn indexes_request() -> Request {
    Request {
        writes: true,
        batch: Batch {
            queries: seq![
                Query {
                    name: "idx_hash"@,
                    steps: seq![
                        Step::EnsureIndex(
                            Index::Equality { label: "Asset"@, property: "content_hash"@ },
                        ),
                    ],
                },
                Query {
                    name: "idx_vec"@,
                    steps: seq![
                        Step::EnsureIndex(
                            Index::Vector { label: "AssetEmbedding"@, property: "vector"@ },
                        ),
                    ],
                },
            ],
            returns: seq!["idx_hash"@, "idx_vec"@],
        },
    }
}

/// Deletes every embedding that is tied to an asset, and every asset.
pub open spec fn clear_request() -> Request {
    let assets = Step::NodesWhere(Filter::TextIs("$label"@, "Asset"@));
    Request {
        writes: true,
        batch: Batch {
            queries: seq![
                Query { name: "embeddings"@, steps: seq![assets, Step::Out("HasAssetEmbedding"@)] },
                Query {
                    name: "drop_embeddings"@,
                    steps: seq![Step::NodesIn("embeddings"@), Step::DropNodes],
                },
                Query { name: "assets"@, steps: seq![assets] },
                Query {
                    name: "drop_assets"@,
                    steps: seq![Step::NodesIn("assets"@), Step::DropNodes],
                },
            ],
            returns: seq!["drop_assets"@],
        },
    }
}

/// The message says that nothing was found.
pub open spec fn says_not_found(message: Seq<char>) -> bool {
    has_text(lowered(message), "graph error: no value found"@) || has_text(
        lowered(message),
        "\"error\":\"graph error: no value found\""@,
    )
}

/// The asset in the answer to an owner request: its first row, or null.
pub open spec fn owner_in(answer: Json) -> Json {
    let rows = answer.rows("asset"@);
    if rows.len() > 0 {
        rows[0]
    } else {
        Json::Null
    }
}

/// Where the store is reached.
#[derive(Debug)]
pub struct HelixTextStore {
    endpoint: String,
}

impl View for HelixTextStore {
    type V = Seq<char>;

    closed spec fn view(&self) -> Seq<char> {
        self.endpoint@
    }
}

/// What is to be done about an asset that is to be there.
pub enum CreateStep {
    /// Nothing more: this is the outcome.
    Finished(Result<Value, String>),
    /// Send this request; its outcome is the outcome.
    Write(helix_db::DynamicQueryRequest),
}

/// What is to be done about an embedding that is to be there.
pub enum UpsertStep {
    /// Nothing more: this is the outcome.
    Finished(Result<(), String>),
    /// Have the content embedded, and go on with [`HelixTextStore::upsert_embedded`].
    Embed,
    /// Send this request; whether it succeeds is the outcome.
    Write(helix_db::DynamicQueryRequest),
    /// The clock shows no time: one that the calendar does not reach, or more nanoseconds than its
    /// second has.
    NoTime,
}

/// The port that the configuration asks for, as text.
pub open spec fn port_text(port: Option<String>) -> Seq<char> {
    match port {
        Some(text) => text@,
        None => "6969"@,
    }
}

/// The host that the configuration asks for.
pub open spec fn host_text(host: Option<String>) -> Seq<char> {
    match host {
        Some(text) => text@,
        None => "http://localhost"@,
    }
}

/// `text` is a port number.
pub open spec fn is_port(text: Seq<char>, port: nat) -> bool {
    unsigned_value(text) == Some(port) && port <= u16::MAX
}

/// `host:port`, the host without the slashes at its end.
pub open spec fn endpoint_at(host: Seq<char>, port: nat) -> Seq<char> {
    trimmed_end(host, '/') + ":"@ + numeral(port)
}

impl HelixTextStore {
    /// The store at the configured host and port; `HELIX_ENDPOINT` and `HELIX_PORT` where they are
    /// set.
    pub fn from_env(host: Option<String>, port: Option<String>) -> (store: Result<Self, String>)
        ensures
            match store {
                Ok(s) => exists|n: nat|
                    #[trigger] is_port(port_text(port), n) && s@ == endpoint_at(host_text(host), n),
                Err(message) => {
                    &&& forall|n: nat| !is_port(port_text(port), n)
                    &&& message@ == "invalid HELIX_PORT: "@ + port_error(port_text(port))
                },
            },
    {
        let ghost asked_host = host_text(host);
        let ghost asked_port = port_text(port);
        let host = match host {
            Some(text) => text,
            None => "http://localhost".to_owned(),
        };
        let port = match port {
            Some(text) => text,
            None => "6969".to_owned(),
        };
        match parse_u16(port.as_str()) {
            Ok(number) => {
                let mut endpoint = trim_end(host.as_str(), '/');
                endpoint.append(":");
                let digits = numeral_of(number);
                endpoint.append(digits.as_str());
                assert(is_port(asked_port, number as nat));
                assert(endpoint@ == endpoint_at(asked_host, number as nat));
                Ok(HelixTextStore { endpoint })
            },
            Err(reason) => {
                let mut message = "invalid HELIX_PORT: ".to_owned();
                message.append(reason.as_str());
                Err(message)
            },
        }
    }

    /// Where the store is reached.
    pub fn endpoint(&self) -> (text: &str)
        ensures
            text@ == self@,
    {
        self.endpoint.as_str()
    }

    /// The request that creates the indexes where they are missing.
    pub fn ensure_indexes(&self) -> (request: helix_db::DynamicQueryRequest)
        ensures
            request_content(request) == indexes_request(),
    {
        let batch = write_batch();
        let batch = written_rows_as(batch, "idx_hash", ensure_equality_index("Asset", "content_hash"));
        let batch = written_rows_as(batch, "idx_vec", ensure_vector_index("AssetEmbedding", "vector"));
        let names = vec!["idx_hash", "idx_vec"];
        let request = write_request(batch, names);
        assert(request_content(request) =~~= indexes_request());
        request
    }

    /// Whether an error says that nothing was found.
    pub fn is_not_found_error(msg: &str) -> (yes: bool)
        ensures
            yes == says_not_found(msg@),
    {
        let low = lowered_chars(msg);
        contains_text(&low, "graph error: no value found") || contains_text(
            &low,
            "\"error\":\"graph error: no value found\"",
        )
    }

    /// The first `asset_id` or `id` anywhere in an answer.
    pub fn extract_asset_id(value: &Value) -> (found: Option<String>)
        ensures
            match found {
                Some(s) => asset_id(value@) == Some(s@),
                None => asset_id(value@) is None,
            },
    {
        find_asset_id(value)
    }

    /// Whether an answer holds the mark that a video has been indexed to its end.
    pub fn has_video_completion_marker(value: &Value) -> (found: bool)
        ensures
            found == completed(value@),
    {
        find_unit(value, "video_index_state", "complete")
    }

    /// Whether an answer holds the record of an indexed unit.
    pub fn embedding_unit_exists(value: &Value, unit_kind: &str, unit_key: &str) -> (found: bool)
        ensures
            found == unit_within(value@, unit_kind@, unit_key@),
    {
        find_unit(value, unit_kind, unit_key)
    }

    /// An outcome in which finding nothing counts as success with null.
    pub fn exec_optional(outcome: Result<Value, String>) -> (settled: Result<Value, String>)
        ensures
            match outcome {
                Ok(_) => settled == outcome,
                Err(e) => if says_not_found(e@) {
                    settled matches Ok(v) && v@ is Null
                } else {
                    settled == outcome
                },
            },
    {
        match outcome {
            Ok(v) => Ok(v),
            Err(e) => if Self::is_not_found_error(e.as_str()) {
                Ok(Value::Null)
            } else {
                Err(e)
            },
        }
    }

    /// The request for the asset with a content hash.
    pub fn get_asset_by_hash(&self, content_hash: &str) -> (request: helix_db::DynamicQueryRequest)
        ensures
            request_content(request) == asset_request(content_hash@),
    {
        let rows = read_values(Self::nodes_of_asset(content_hash));
        let request = read_request(read_rows_as(read_batch(), "asset", rows), vec!["asset"]);
        assert(request_content(request) =~~= asset_request(content_hash@));
        request
    }

    fn nodes_of_asset(content_hash: &str) -> (nodes: crate::query::ReadNodes)
        ensures
            crate::query::read_node_steps(nodes) == seq![
                Step::NodesWhere(asset_filter(content_hash@)),
            ],
    {
        let parts = vec![text_is("$label", "Asset"), text_is("content_hash", content_hash)];
        assert(parts@.map_values(|p: helix_db::SourcePredicate| crate::query::filter_content(p))
            =~= seq![
            Filter::TextIs("$label"@, "Asset"@),
            Filter::TextIs("content_hash"@, content_hash@),
        ]);
        nodes_where(all_of(parts))
    }

    /// What is to be done so that an asset is there, once the lookup by its hash has been answered:
    /// an asset that is there is kept as it is.
    pub fn create_asset(
        &self,
        existing: Result<Value, String>,
        content_hash: &str,
        kind: &str,
        path: &str,
    ) -> (step: CreateStep)
        ensures
            match existing {
                Ok(found) if asset_id(found@) is None => step matches CreateStep::Write(request)
                    && request_content(request) == new_asset_request(content_hash@, kind@, path@),
                _ => step == CreateStep::Finished(existing),
            },
    {
        match existing {
            Ok(found) => {
                if Self::extract_asset_id(&found).is_some() {
                    return CreateStep::Finished(Ok(found));
                }
                let properties = vec![
                    ("content_hash", text_input(content_hash)),
                    ("kind", text_input(kind)),
                    ("path", text_input(path)),
                ];
                assert(property_contents(properties@) =~= asset_properties(
                    content_hash@,
                    kind@,
                    path@,
                ));
                let rows = written_values(add_node("Asset", properties));
                let request = write_request(
                    written_rows_as(write_batch(), "asset", rows),
                    vec!["asset"],
                );
                assert(request_content(request) =~~= new_asset_request(content_hash@, kind@, path@));
                CreateStep::Write(request)
            },
            Err(e) => CreateStep::Finished(Err(e)),
        }
    }

    /// The request for the embeddings of the asset with a content hash.
    pub fn get_asset_embeddings_by_hash(&self, content_hash: &str) -> (request:
        helix_db::DynamicQueryRequest)
        ensures
            request_content(request) == embeddings_request(content_hash@),
    {
        let batch = read_nodes_as(read_batch(), "asset", Self::nodes_of_asset(content_hash));
        let rows = read_values(out(nodes_in("asset"), "HasAssetEmbedding"));
        let batch = read_rows_as(batch, "embeddings", rows);
        let request = read_request(batch, vec!["embeddings"]);
        assert(request_content(request) =~~= embeddings_request(content_hash@));
        request
    }

    /// The request that creates an embedding of an asset, stamped with the time that the clock
    /// shows; `None` where that is no time: where the calendar does not reach it, or where there are
    /// two thousand million nanoseconds or more, or a thousand million or more in a second that is not
    /// the last of its minute.
    pub fn create_asset_embedding(
        &self,
        content_hash: &str,
        unit_kind: &str,
        unit_key: &str,
        content: &str,
        vector: helix_db::PropertyInput,
        seconds: i64,
        nanoseconds: u32,
    ) -> (request: Option<helix_db::DynamicQueryRequest>)
        ensures
            match rfc3339_utc(seconds, nanoseconds) {
                Some(created_at) => request matches Some(r) && request_content(r)
                    == new_embedding_request(
                    content_hash@,
                    embedding_properties(unit_kind@, unit_key@, content@, input_content(vector)),
                    created_at,
                ),
                None => request is None,
            },
    {
        match rfc3339_seconds(seconds, nanoseconds) {
            Some(created_at) => Some(
                self.stamped_embedding(
                    content_hash,
                    unit_kind,
                    unit_key,
                    content,
                    vector,
                    created_at.as_str(),
                ),
            ),
            None => None,
        }
    }

    /// The request that creates an embedding of an asset, stamped with the given time.
    pub fn stamped_embedding(
        &self,
        content_hash: &str,
        unit_kind: &str,
        unit_key: &str,
        content: &str,
        vector: helix_db::PropertyInput,
        created_at: &str,
    ) -> (request: helix_db::DynamicQueryRequest)
        ensures
            request_content(request) == new_embedding_request(
                content_hash@,
                embedding_properties(unit_kind@, unit_key@, content@, input_content(vector)),
                created_at@,
            ),
    {
        let properties = vec![
            ("unit_kind", text_input(unit_kind)),
            ("unit_key", text_input(unit_key)),
            ("content", text_input(content)),
            ("vector", vector),
        ];
        let ghost wanted = embedding_properties(
            unit_kind@,
            unit_key@,
            content@,
            input_content(vector),
        );
        assert(property_contents(properties@) =~= wanted);
        let stamp = vec![("created_at", text_input(created_at))];
        assert(property_contents(stamp@) =~= seq![("created_at"@, Content::Text(created_at@))]);
        let batch = found_nodes_as(write_batch(), "asset", Self::nodes_of_asset(content_hash));
        let batch = written_nodes_as(batch, "embedding", add_node("AssetEmbedding", properties));
        let edge = add_edge(nodes_in("asset"), "HasAssetEmbedding", "embedding", stamp);
        let batch = written_nodes_as(batch, "edge", edge);
        let request = write_request(batch, vec!["embedding"]);
        assert(request_content(request) =~~= new_embedding_request(
            content_hash@,
            wanted,
            created_at@,
        ));
        request
    }

    /// The request for the embeddings nearest to a query's vector.
    pub fn search_asset_embeddings(&self, query_vector: helix_db::PropertyInput) -> (request:
        helix_db::DynamicQueryRequest)
        ensures
            request_content(request) == search_request(input_content(query_vector)),
    {
        let ghost vector = input_content(query_vector);
        let nodes = nearest_nodes("AssetEmbedding", "vector", query_vector, SEARCH_COUNT);
        let batch = read_rows_as(read_batch(), "embeddings", read_values(nodes));
        let request = read_request(batch, vec!["embeddings"]);
        assert(request_content(request) =~~= search_request(vector));
        request
    }

    /// The request for the asset to which the embedding with an id is tied.
    pub fn asset_of_embedding(id: i64) -> (request: helix_db::DynamicQueryRequest)
        ensures
            request_content(request) == owner_request(id),
    {
        let batch = read_nodes_as(read_batch(), "emb", nodes_where(number_is("$id", id)));
        let rows = read_values(into_nodes(nodes_in("emb"), "HasAssetEmbedding"));
        let batch = read_rows_as(batch, "asset", rows);
        let request = read_request(batch, vec!["asset"]);
        assert(request_content(request) =~~= owner_request(id));
        request
    }

    /// The request that deletes every asset and its embeddings.
    pub fn clear_search_index(&self) -> (request: helix_db::DynamicQueryRequest)
        ensures
            request_content(request) == clear_request(),
    {
        let embeddings = out(nodes_with_label("Asset"), "HasAssetEmbedding");
        let batch = found_nodes_as(write_batch(), "embeddings", embeddings);
        let batch = written_nodes_as(batch, "drop_embeddings", drop_nodes(nodes_in("embeddings")));
        let batch = found_nodes_as(batch, "assets", nodes_with_label("Asset"));
        let batch = written_nodes_as(batch, "drop_assets", drop_nodes(nodes_in("assets")));
        let request = write_request(batch, vec!["drop_assets"]);
        assert(request_content(request) =~~= clear_request());
        request
    }
}

/// Where the store is reached is told by what is configured, whole; where nothing is, it is the local
/// host and port 6969. Slashes at the end of the host are left off.
pub proof fn configuration_is_taken_whole(text: String, host: Seq<char>, port: nat)
    ensures
        host_text(Some(text)) == text@,
        host_text(None) == "http://localhost"@,
        port_text(Some(text)) == text@,
        port_text(None) == "6969"@,
        is_port(host, port) <==> unsigned_value(host) == Some(port) && port <= 65_535,
        endpoint_at(host, port) == trimmed_end(host, '/') + ":"@ + numeral(port),
{
}

/// The asset of an embedding is the first row under `asset`, or null where there is none.
pub proof fn owner_is_the_first_asset(answer: Json)
    ensures
        answer.rows("asset"@).len() > 0 ==> owner_in(answer) == answer.rows("asset"@)[0],
        answer.rows("asset"@).len() == 0 ==> owner_in(answer) == Json::Null,
{
}

} // verus!
