//! How the store's requests fit together: what one of them writes, the others find.

use vstd::prelude::*;

use crate::assets::{completed, is_unit, is_within, unit_is_found_anywhere, unit_within};
use crate::float_bits::at_most;
use crate::helix::{
    asset_filter, asset_properties, asset_request, clear_request, embedding_properties,
    embeddings_request, endpoint_at, indexes_request, new_asset_request, new_embedding_request,
    owner_request, search_request,
};
use crate::hits::{is_bookkeeping, is_hit, row_content, HitContent};
use crate::json::Json;
use crate::query::{Batch, Content, Filter, Index, Query, Request, Step};
use crate::results::{preview, result_for, row_with_id, shown};
use crate::text::{digits_value, is_digit, numeral, unsigned_digits, unsigned_value};

verus! {

/// A node of the graph.
pub ghost struct Node {
    pub id: i64,
    pub label: Seq<char>,
    pub properties: Seq<(Seq<char>, Content)>,
}

/// The first property under a key.
pub open spec fn property_at(
    properties: Seq<(Seq<char>, Content)>,
    key: Seq<char>,
) -> Option<Content>
    decreases properties.len(),
{
    if properties.len() == 0 {
        None
    } else if properties[0].0 == key {
        Some(properties[0].1)
    } else {
        property_at(properties.drop_first(), key)
    }
}

/// A filter selects a node. The label and the id of a node count as properties.
pub open spec fn selects(filter: Filter, node: Node) -> bool
    decreases filter,
{
    match filter {
        Filter::TextIs(key, text) => if key == "$label"@ {
            node.label == text
        } else {
            property_at(node.properties, key) == Some(Content::Text(text))
        },
        Filter::NumberIs(key, number) => key == "$id"@ && node.id == number,
        Filter::All(parts) => forall|i: int|
            0 <= i < parts.len() ==> selects(#[trigger] parts[i], node),
    }
}

/// Some query of a request takes this step.
pub open spec fn has_step(request: Request, step: Step) -> bool {
    exists|q: int, s: int|
        0 <= q < request.batch.queries.len() && 0 <= s < request.batch.queries[q].steps.len()
            && #[trigger] request.batch.queries[q].steps[s] == step
}

/// One of the first `n` queries has this name.
pub open spec fn is_bound(batch: Batch, name: Seq<char>, n: int) -> bool {
    exists|q: int| 0 <= q < n && (#[trigger] batch.queries[q]).name == name
}

/// A step speaks only of names that one of the first `n` queries has.
pub open spec fn step_is_bound(batch: Batch, step: Step, n: int) -> bool {
    match step {
        Step::NodesIn(name) => is_bound(batch, name, n),
        Step::AddEdge { to, .. } => is_bound(batch, to, n),
        _ => true,
    }
}

/// Every query speaks only of queries before it, and every name that is returned is that of a query.
pub open spec fn names_are_bound(batch: Batch) -> bool {
    &&& forall|q: int, s: int|
        0 <= q < batch.queries.len() && 0 <= s < batch.queries[q].steps.len() ==> step_is_bound(
            batch,
            #[trigger] batch.queries[q].steps[s],
            q,
        )
    &&& forall|r: int|
        0 <= r < batch.returns.len() ==> is_bound(
            batch,
            #[trigger] batch.returns[r],
            batch.queries.len() as int,
        )
}

/// A row of an answer shows the texts among some properties.
pub open spec fn shows(row: Json, properties: Seq<(Seq<char>, Content)>) -> bool {
    forall|i: int|
        0 <= i < properties.len() ==> ((#[trigger] properties[i]).1 matches Content::Text(text)
            ==> row.text_at(properties[i].0) == Some(text))
}

/// The node that a new asset becomes.
pub open spec fn asset_node(
    id: i64,
    content_hash: Seq<char>,
    kind: Seq<char>,
    path: Seq<char>,
) -> Node {
    Node { id, label: "Asset"@, properties: asset_properties(content_hash, kind, path) }
}

/// Looking something up changes nothing that is stored.
pub proof fn lookups_only_read(content_hash: Seq<char>, vector: Content, id: i64)
    ensures
        !asset_request(content_hash).writes && asset_request(content_hash).batch.only_reads(),
        !embeddings_request(content_hash).writes && embeddings_request(
            content_hash,
        ).batch.only_reads(),
        !search_request(vector).writes && search_request(vector).batch.only_reads(),
        !owner_request(id).writes && owner_request(id).batch.only_reads(),
{
}

/// No request speaks of a name that nothing has.
pub proof fn requests_are_closed(
    content_hash: Seq<char>,
    kind: Seq<char>,
    path: Seq<char>,
    properties: Seq<(Seq<char>, Content)>,
    created_at: Seq<char>,
    vector: Content,
    id: i64,
)
    ensures
        names_are_bound(asset_request(content_hash).batch),
        names_are_bound(new_asset_request(content_hash, kind, path).batch),
        names_are_bound(embeddings_request(content_hash).batch),
        names_are_bound(new_embedding_request(content_hash, properties, created_at).batch),
        names_are_bound(search_request(vector).batch),
        names_are_bound(owner_request(id).batch),
        names_are_bound(indexes_request().batch),
        names_are_bound(clear_request().batch),
{
    let one = asset_request(content_hash).batch;
    assert(one.queries[0].name == one.returns[0]);
    let two = new_asset_request(content_hash, kind, path).batch;
    assert(two.queries[0].name == two.returns[0]);
    let three = embeddings_request(content_hash).batch;
    assert(three.queries[0].name == "asset"@ && three.queries[1].name == "embeddings"@);
    let four = new_embedding_request(content_hash, properties, created_at).batch;
    assert(four.queries[0].name == "asset"@ && four.queries[1].name == "embedding"@);
    let five = search_request(vector).batch;
    assert(five.queries[0].name == five.returns[0]);
    let six = owner_request(id).batch;
    assert(six.queries[0].name == "emb"@ && six.queries[1].name == "asset"@);
    let seven = indexes_request().batch;
    assert(seven.queries[0].name == "idx_hash"@ && seven.queries[1].name == "idx_vec"@);
    let eight = clear_request().batch;
    assert(eight.queries[0].name == "embeddings"@ && eight.queries[2].name == "assets"@
        && eight.queries[3].name == "drop_assets"@);
}

/// Ensuring the indexes does nothing else, so that it may be asked for at any time.
pub proof fn ensuring_indexes_only_ensures(q: int, s: int)
    requires
        0 <= q < indexes_request().batch.queries.len(),
        0 <= s < indexes_request().batch.queries[q].steps.len(),
    ensures
        indexes_request().batch.queries[q].steps[s] is EnsureIndex,
{
}

/// An asset is found again by its content hash, and by no other.
pub proof fn asset_is_found_by_its_hash(
    id: i64,
    content_hash: Seq<char>,
    kind: Seq<char>,
    path: Seq<char>,
    wanted: Seq<char>,
)
    ensures
        has_step(
            new_asset_request(content_hash, kind, path),
            Step::AddNode {
                label: asset_node(id, content_hash, kind, path).label,
                properties: asset_node(id, content_hash, kind, path).properties,
            },
        ),
        has_step(asset_request(wanted), Step::NodesWhere(asset_filter(wanted))),
        has_step(embeddings_request(wanted), Step::NodesWhere(asset_filter(wanted))),
        selects(asset_filter(wanted), asset_node(id, content_hash, kind, path)) <==> wanted
            == content_hash,
{
    reveal_strlit("$label");
    reveal_strlit("content_hash");
    let request = new_asset_request(content_hash, kind, path);
    assert(request.batch.queries[0].steps[0] == Step::AddNode {
        label: "Asset"@,
        properties: asset_properties(content_hash, kind, path),
    });
    assert(asset_request(wanted).batch.queries[0].steps[0] == Step::NodesWhere(
        asset_filter(wanted),
    ));
    assert(embeddings_request(wanted).batch.queries[0].steps[0] == Step::NodesWhere(
        asset_filter(wanted),
    ));
    lemma_asset_filter(wanted, asset_node(id, content_hash, kind, path));
    assert(property_at(asset_properties(content_hash, kind, path), "content_hash"@) == Some(
        Content::Text(content_hash),
    ));
}

/// What the filter for an asset asks of a node.
proof fn lemma_asset_filter(wanted: Seq<char>, node: Node)
    ensures
        selects(asset_filter(wanted), node) <==> node.label == "Asset"@ && property_at(
            node.properties,
            "content_hash"@,
        ) == Some(Content::Text(wanted)),
{
    reveal_strlit("$label");
    reveal_strlit("content_hash");
    assert("$label"@.len() != "content_hash"@.len());
    reveal_with_fuel(selects, 3);
    let parts = asset_filter(wanted)->All_0;
    assert(selects(parts[0], node) <==> node.label == "Asset"@);
    assert(selects(parts[1], node) <==> property_at(node.properties, "content_hash"@) == Some(
        Content::Text(wanted),
    ));
}

/// No embedding is taken for an asset, whatever it holds.
pub proof fn embedding_is_no_asset(
    wanted: Seq<char>,
    id: i64,
    properties: Seq<(Seq<char>, Content)>,
)
    ensures
        !selects(asset_filter(wanted), (Node { id, label: "AssetEmbedding"@, properties })),
{
    reveal_strlit("Asset");
    reveal_strlit("AssetEmbedding");
    assert("Asset"@.len() != "AssetEmbedding"@.len());
    lemma_asset_filter(wanted, Node { id, label: "AssetEmbedding"@, properties });
}

/// The node that a search asks about is the one with the embedding's id, and no other.
pub proof fn owner_is_asked_by_id(id: i64, node: Node)
    ensures
        has_step(owner_request(id), Step::NodesWhere(Filter::NumberIs("$id"@, id))),
        selects(Filter::NumberIs("$id"@, id), node) <==> node.id == id,
{
    assert(owner_request(id).batch.queries[0].steps[0] == Step::NodesWhere(
        Filter::NumberIs("$id"@, id),
    ));
}

/// A search looks through the index that is made for it, and every embedding that is written lies in
/// that index: it has the label and the vector that the index is about.
pub proof fn search_goes_through_the_vector_index(
    content_hash: Seq<char>,
    unit_kind: Seq<char>,
    unit_key: Seq<char>,
    text: Seq<char>,
    vector: Content,
    created_at: Seq<char>,
    wanted: Content,
    label: Seq<char>,
    property: Seq<char>,
    count: nat,
)
    requires
        has_step(search_request(wanted), Step::Nearest { label, property, vector: wanted, count }),
    ensures
        has_step(indexes_request(), Step::EnsureIndex(Index::Vector { label, property })),
        has_step(
            new_embedding_request(
                content_hash,
                embedding_properties(unit_kind, unit_key, text, vector),
                created_at,
            ),
            Step::AddNode {
                label,
                properties: embedding_properties(unit_kind, unit_key, text, vector),
            },
        ),
        property_at(embedding_properties(unit_kind, unit_key, text, vector), property) == Some(
            vector,
        ),
{
    let properties = embedding_properties(unit_kind, unit_key, text, vector);
    assert(label == "AssetEmbedding"@ && property == "vector"@);
    assert(indexes_request().batch.queries[1].steps[0] == Step::EnsureIndex(
        Index::Vector { label, property },
    ));
    assert(new_embedding_request(content_hash, properties, created_at).batch.queries[1].steps[0]
        == Step::AddNode { label, properties });
    reveal_strlit("unit_kind");
    reveal_strlit("unit_key");
    reveal_strlit("content");
    reveal_strlit("vector");
    assert("unit_kind"@.len() == 9 && "unit_key"@.len() == 8 && "content"@.len() == 7
        && "vector"@.len() == 6);
    reveal_with_fuel(property_at, 5);
}

/// Assets are looked up through the property that an index is made for.
pub proof fn lookup_goes_through_the_hash_index(wanted: Seq<char>)
    ensures
        has_step(
            indexes_request(),
            Step::EnsureIndex(Index::Equality { label: "Asset"@, property: "content_hash"@ }),
        ),
        asset_filter(wanted)->All_0.contains(Filter::TextIs("$label"@, "Asset"@)),
        asset_filter(wanted)->All_0.contains(Filter::TextIs("content_hash"@, wanted)),
{
    assert(indexes_request().batch.queries[0].steps[0] == Step::EnsureIndex(
        Index::Equality { label: "Asset"@, property: "content_hash"@ },
    ));
    assert(asset_filter(wanted)->All_0[0] == Filter::TextIs("$label"@, "Asset"@));
    assert(asset_filter(wanted)->All_0[1] == Filter::TextIs("content_hash"@, wanted));
}

/// The edges by which embeddings are tied to their asset are those that lookups and clearing follow.
pub proof fn edges_are_followed(
    content_hash: Seq<char>,
    properties: Seq<(Seq<char>, Content)>,
    created_at: Seq<char>,
    label: Seq<char>,
    to: Seq<char>,
    stamp: Seq<(Seq<char>, Content)>,
    wanted: Seq<char>,
    id: i64,
)
    requires
        has_step(
            new_embedding_request(content_hash, properties, created_at),
            Step::AddEdge { label, to, properties: stamp },
        ),
    ensures
        has_step(embeddings_request(wanted), Step::Out(label)),
        has_step(owner_request(id), Step::In(label)),
        has_step(clear_request(), Step::Out(label)),
{
    assert(label == "HasAssetEmbedding"@);
    assert(embeddings_request(wanted).batch.queries[1].steps[1] == Step::Out(label));
    assert(owner_request(id).batch.queries[1].steps[1] == Step::In(label));
    assert(clear_request().batch.queries[0].steps[1] == Step::Out(label));
}

/// Clearing deletes every asset.
pub proof fn clearing_deletes_every_asset(node: Node)
    ensures
        clear_request().batch.queries[2].steps == seq![
            Step::NodesWhere(Filter::TextIs("$label"@, "Asset"@)),
        ],
        clear_request().batch.queries[3].steps == seq![
            Step::NodesIn(clear_request().batch.queries[2].name),
            Step::DropNodes,
        ],
        selects(Filter::TextIs("$label"@, "Asset"@), node) <==> node.label == "Asset"@,
{
}

/// A result tells of its asset what was written when the asset was created.
pub proof fn result_tells_what_was_written(
    hit: HitContent,
    asset: Json,
    rows: Seq<Json>,
    content_hash: Seq<char>,
    kind: Seq<char>,
    path: Seq<char>,
)
    requires
        shows(asset, asset_properties(content_hash, kind, path)),
    ensures
        result_for(hit, asset, rows).content_hash == content_hash,
        result_for(hit, asset, rows).label == kind,
        result_for(hit, asset, rows).path == path,
{
    let written = asset_properties(content_hash, kind, path);
    assert(written[0].1 is Text && written[1].1 is Text && written[2].1 is Text);
}

/// A unit that was written is known to be there wherever an answer shows it, so that it is not
/// written again; and a video's mark of completion is recognised.
pub proof fn written_unit_is_known(
    answer: Json,
    row: Json,
    unit_kind: Seq<char>,
    unit_key: Seq<char>,
    text: Seq<char>,
    vector: Content,
)
    requires
        is_within(row, answer),
        shows(row, embedding_properties(unit_kind, unit_key, text, vector)),
    ensures
        unit_within(answer, unit_kind, unit_key),
        unit_kind == "video_index_state"@ && unit_key == "complete"@ ==> completed(answer),
{
    let written = embedding_properties(unit_kind, unit_key, text, vector);
    assert(written[0].1 is Text && written[1].1 is Text);
    assert(is_unit(row, unit_kind, unit_key));
    unit_is_found_anywhere(answer, unit_kind, unit_key);
}

/// A row that shows a written unit has its kind and, as the first row with its id, shows its text. It
/// counts as a hit exactly where the unit is no bookkeeping, the row has an id, and it is no farther
/// away than the threshold.
pub proof fn written_unit_is_matched(
    rows: Seq<Json>,
    row: Json,
    threshold: u64,
    unit_kind: Seq<char>,
    unit_key: Seq<char>,
    text: Seq<char>,
    vector: Content,
)
    requires
        shows(row, embedding_properties(unit_kind, unit_key, text, vector)),
    ensures
        row_content(row).unit_kind == unit_kind,
        is_hit(row, threshold) <==> {
            &&& !is_bookkeeping(unit_kind)
            &&& row_content(row).id >= 0
            &&& at_most(row_content(row).distance, threshold)
        },
        row_with_id(rows, row_content(row).id) == Some(row) ==> preview(rows, row_content(row).id)
            == Some(shown(text)),
{
    let written = embedding_properties(unit_kind, unit_key, text, vector);
    assert(written[0].1 is Text && written[2].1 is Text);
}

/// Slashes at the end of the host play no part in where the store is reached.
pub proof fn slashes_after_the_host_are_ignored(host: Seq<char>, port: nat)
    ensures
        endpoint_at(host.push('/'), port) == endpoint_at(host, port),
{
    assert(host.push('/').drop_last() =~= host);
}

/// A number is read back from its numeral.
pub proof fn numeral_is_read_back(n: nat)
    ensures
        unsigned_value(numeral(n)) == Some(n),
{
    lemma_numeral(n);
    assert(numeral(n)[0] != '+') by {
        assert(is_digit(numeral(n)[0]));
    }
    assert(unsigned_digits(numeral(n)) == numeral(n));
}

proof fn lemma_numeral(n: nat)
    ensures
        numeral(n).len() > 0,
        forall|i: int| 0 <= i < numeral(n).len() ==> is_digit(#[trigger] numeral(n)[i]),
        digits_value(numeral(n)) == n,
    decreases n,
{
    let s = numeral(n);
    if n < 10 {
        assert(s.drop_last() =~= Seq::<char>::empty());
        assert(digits_value(s.drop_last()) == 0);
    } else {
        lemma_numeral(n / 10);
        assert(s.drop_last() =~= numeral(n / 10));
    }
}

/// A numeral has no zeros at its beginning, but for that of zero itself.
pub proof fn numerals_have_no_leading_zeros(n: nat)
    ensures
        n < 10 ==> numeral(n).len() == 1,
        n > 0 ==> numeral(n)[0] != '0',
    decreases n,
{
    if n >= 10 {
        numerals_have_no_leading_zeros(n / 10);
        lemma_numeral(n / 10);
        assert(numeral(n)[0] == numeral(n / 10)[0]);
    }
}

/// An asset and an embedding are written with everything that was given for them, and with nothing
/// else.
pub proof fn everything_given_is_written(
    content_hash: Seq<char>,
    kind: Seq<char>,
    path: Seq<char>,
    unit_kind: Seq<char>,
    unit_key: Seq<char>,
    text: Seq<char>,
    vector: Content,
)
    ensures
        asset_properties(content_hash, kind, path).len() == 3,
        property_at(asset_properties(content_hash, kind, path), "content_hash"@) == Some(
            Content::Text(content_hash),
        ),
        property_at(asset_properties(content_hash, kind, path), "kind"@) == Some(
            Content::Text(kind),
        ),
        property_at(asset_properties(content_hash, kind, path), "path"@) == Some(
            Content::Text(path),
        ),
        embedding_properties(unit_kind, unit_key, text, vector).len() == 4,
        property_at(embedding_properties(unit_kind, unit_key, text, vector), "unit_kind"@) == Some(
            Content::Text(unit_kind),
        ),
        property_at(embedding_properties(unit_kind, unit_key, text, vector), "unit_key"@) == Some(
            Content::Text(unit_key),
        ),
        property_at(embedding_properties(unit_kind, unit_key, text, vector), "content"@) == Some(
            Content::Text(text),
        ),
        property_at(embedding_properties(unit_kind, unit_key, text, vector), "vector"@) == Some(
            vector,
        ),
{
    reveal_strlit("content_hash");
    reveal_strlit("kind");
    reveal_strlit("path");
    reveal_strlit("unit_kind");
    reveal_strlit("unit_key");
    reveal_strlit("content");
    reveal_strlit("vector");
    assert("content_hash"@.len() == 12 && "kind"@[0] == 'k' && "path"@[0] == 'p');
    assert("unit_kind"@.len() == 9 && "unit_key"@.len() == 8 && "content"@.len() == 7
        && "vector"@.len() == 6);
    reveal_with_fuel(property_at, 5);
}

/// The property of a node under a key is the first with that key.
pub proof fn property_is_the_first_with_its_key(
    before: Seq<(Seq<char>, Content)>,
    key: Seq<char>,
    value: Content,
    after: Seq<(Seq<char>, Content)>,
)
    requires
        forall|i: int| 0 <= i < before.len() ==> (#[trigger] before[i]).0 != key,
    ensures
        property_at(before + seq![(key, value)] + after, key) == Some(value),
    decreases before.len(),
{
    let all = before + seq![(key, value)] + after;
    if before.len() > 0 {
        let rest = before.drop_first();
        assert(before[0].0 != key);
        assert forall|i: int| 0 <= i < rest.len() implies (#[trigger] rest[i]).0 != key by {
            assert(rest[i] == before[i + 1]);
        }
        property_is_the_first_with_its_key(rest, key, value, after);
        assert(all[0] == before[0]);
        assert(all.drop_first() =~= rest + seq![(key, value)] + after);
    } else {
        assert(all[0] == (key, value));
    }
}

/// What each lookup asks the database: the asset with a hash, its embeddings, the fifty embeddings
/// nearest to a vector, and the asset that an embedding belongs to.
pub proof fn lookups_ask_for_this(content_hash: Seq<char>, vector: Content, id: i64)
    ensures
        ({
            let asset = Step::NodesWhere(
                Filter::All(
                    seq![
                        Filter::TextIs("$label"@, "Asset"@),
                        Filter::TextIs("content_hash"@, content_hash),
                    ],
                ),
            );
            &&& asset_request(content_hash).batch == (Batch {
                queries: seq![Query { name: "asset"@, steps: seq![asset, Step::AllValues] }],
                returns: seq!["asset"@],
            })
            &&& embeddings_request(content_hash).batch == (Batch {
                queries: seq![
                    Query { name: "asset"@, steps: seq![asset] },
                    Query {
                        name: "embeddings"@,
                        steps: seq![
                            Step::NodesIn("asset"@),
                            Step::Out("HasAssetEmbedding"@),
                            Step::AllValues,
                        ],
                    },
                ],
                returns: seq!["embeddings"@],
            })
        }),
        search_request(vector).batch == (Batch {
            queries: seq![
                Query {
                    name: "embeddings"@,
                    steps: seq![
                        Step::Nearest {
                            label: "AssetEmbedding"@,
                            property: "vector"@,
                            vector,
                            count: 50,
                        },
                        Step::AllValues,
                    ],
                },
            ],
            returns: seq!["embeddings"@],
        }),
        owner_request(id).batch == (Batch {
            queries: seq![
                Query { name: "emb"@, steps: seq![Step::NodesWhere(Filter::NumberIs("$id"@, id))] },
                Query {
                    name: "asset"@,
                    steps: seq![
                        Step::NodesIn("emb"@),
                        Step::In("HasAssetEmbedding"@),
                        Step::AllValues,
                    ],
                },
            ],
            returns: seq!["asset"@],
        }),
{
}

/// What each change asks the database: an asset that is created and read back, an embedding that is
/// created and tied to its asset with the time, the two indexes, and the deletion of all embeddings of
/// assets before the assets.
pub proof fn changes_ask_for_this(
    content_hash: Seq<char>,
    kind: Seq<char>,
    path: Seq<char>,
    properties: Seq<(Seq<char>, Content)>,
    created_at: Seq<char>,
)
    ensures
        new_asset_request(content_hash, kind, path) == (Request {
            writes: true,
            batch: Batch {
                queries: seq![
                    Query {
                        name: "asset"@,
                        steps: seq![
                            Step::AddNode {
                                label: "Asset"@,
                                properties: seq![
                                    ("content_hash"@, Content::Text(content_hash)),
                                    ("kind"@, Content::Text(kind)),
                                    ("path"@, Content::Text(path)),
                                ],
                            },
                            Step::AllValues,
                        ],
                    },
                ],
                returns: seq!["asset"@],
            },
        }),
        new_embedding_request(content_hash, properties, created_at) == (Request {
            writes: true,
            batch: Batch {
                queries: seq![
                    Query {
                        name: "asset"@,
                        steps: seq![
                            Step::NodesWhere(
                                Filter::All(
                                    seq![
                                        Filter::TextIs("$label"@, "Asset"@),
                                        Filter::TextIs("content_hash"@, content_hash),
                                    ],
                                ),
                            ),
                        ],
                    },
                    Query {
                        name: "embedding"@,
                        steps: seq![Step::AddNode { label: "AssetEmbedding"@, properties }],
                    },
                    Query {
                        name: "edge"@,
                        steps: seq![
                            Step::NodesIn("asset"@),
                            Step::AddEdge {
                                label: "HasAssetEmbedding"@,
                                to: "embedding"@,
                                properties: seq![("created_at"@, Content::Text(created_at))],
                            },
                        ],
                    },
                ],
                returns: seq!["embedding"@],
            },
        }),
        indexes_request() == (Request {
            writes: true,
            batch: Batch {
                queries: seq![
                    Query {
                        name: "idx_hash"@,
                        steps: seq![
                            Step::EnsureIndex(
                                Index::Equality { label: "Asset"@, property: "content_hash"@ },
                            ),
                        ],
                    },
                    Query {
                        name: "idx_vec"@,
                        steps: seq![
                            Step::EnsureIndex(
                                Index::Vector { label: "AssetEmbedding"@, property: "vector"@ },
                            ),
                        ],
                    },
                ],
                returns: seq!["idx_hash"@, "idx_vec"@],
            },
        }),
        ({
            let assets = Step::NodesWhere(Filter::TextIs("$label"@, "Asset"@));
            clear_request() == (Request {
                writes: true,
                batch: Batch {
                    queries: seq![
                        Query {
                            name: "embeddings"@,
                            steps: seq![assets, Step::Out("HasAssetEmbedding"@)],
                        },
                        Query {
                            name: "drop_embeddings"@,
                            steps: seq![Step::NodesIn("embeddings"@), Step::DropNodes],
                        },
                        Query { name: "assets"@, steps: seq![assets] },
                        Query {
                            name: "drop_assets"@,
                            steps: seq![Step::NodesIn("assets"@), Step::DropNodes],
                        },
                    ],
                    returns: seq!["drop_assets"@],
                },
            })
        }),
{
}

} // verus!
