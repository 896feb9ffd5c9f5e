//! Building the requests that are sent to the graph database.
//!
//! The requests are values of the `helix_db` crate, made by its builder functions. Nothing of that
//! crate is proved here: each function below makes one builder call, or the few that make up one step,
//! and its contract says what they add. The ghost types say what a finished value holds.

use vstd::prelude::*;

verus! {

/// A property value of a node or an edge: text, or an array of 32-bit floats by bit pattern. Texts are
/// made here; arrays of floats are handed in by the caller, and passed on as they are.
#[verifier::ext_equal]
pub ghost enum Content {
    Text(Seq<char>),
    Floats(Seq<u32>),
}

/// A condition on the properties of a node.
#[verifier::ext_equal]
pub ghost enum Filter {
    /// The property is this text.
    TextIs(Seq<char>, Seq<char>),
    /// The property is this integer.
    NumberIs(Seq<char>, i64),
    /// Every one of these holds.
    All(Seq<Filter>),
}

/// An index over the nodes with a label.
#[verifier::ext_equal]
pub ghost enum Index {
    /// Lookup of nodes by the value of a property, which several may share.
    Equality { label: Seq<char>, property: Seq<char> },
    /// Nearest neighbours by the vector in a property.
    Vector { label: Seq<char>, property: Seq<char> },
}

/// One step of a traversal of the graph.
#[verifier::ext_equal]
pub ghost enum Step {
    /// Start from the nodes that a filter selects.
    NodesWhere(Filter),
    /// Start from the nodes that an earlier query of the batch found.
    NodesIn(Seq<char>),
    /// Start from the `count` nodes whose vector is nearest.
    Nearest { label: Seq<char>, property: Seq<char>, vector: Content, count: nat },
    /// Follow the outgoing edges with a label.
    Out(Seq<char>),
    /// Follow the incoming edges with a label.
    In(Seq<char>),
    /// Read every property of the current nodes.
    AllValues,
    /// Create a node.
    AddNode { label: Seq<char>, properties: Seq<(Seq<char>, Content)> },
    /// Create an edge from each current node to each node of an earlier query.
    AddEdge { label: Seq<char>, to: Seq<char>, properties: Seq<(Seq<char>, Content)> },
    /// Delete the current nodes and their edges.
    DropNodes,
    /// Create an index where it is missing.
    EnsureIndex(Index),
}

/// A traversal under the name by which the rest of the batch refers to what it finds.
#[verifier::ext_equal]
pub ghost struct Query {
    pub name: Seq<char>,
    pub steps: Seq<Step>,
}

/// Queries in the order in which they run, and the names whose findings are returned.
#[verifier::ext_equal]
pub ghost struct Batch {
    pub queries: Seq<Query>,
    pub returns: Seq<Seq<char>>,
}

/// A whole request.
#[verifier::ext_equal]
pub ghost struct Request {
    pub writes: bool,
    pub batch: Batch,
}

impl Step {
    /// The step changes what is stored.
    pub open spec fn writes(self) -> bool {
        match self {
            Step::AddNode { .. } => true,
            Step::AddEdge { .. } => true,
            Step::DropNodes => true,
            Step::EnsureIndex(_) => true,
            _ => false,
        }
    }
}

impl Batch {
    /// The batch with one more query at its end.
    pub open spec fn with(self, name: Seq<char>, steps: Seq<Step>) -> Batch {
        Batch { queries: self.queries.push(Query { name, steps }), returns: self.returns }
    }

    /// No step of the batch changes what is stored.
    pub open spec fn only_reads(self) -> bool {
        forall|q: int, s: int|
            0 <= q < self.queries.len() && 0 <= s < self.queries[q].steps.len()
                ==> !(#[trigger] self.queries[q].steps[s]).writes()
    }
}

/// The batch with no queries.
pub open spec fn empty_batch() -> Batch {
    Batch { queries: Seq::empty(), returns: Seq::empty() }
}

/// Keys and contents of a list of properties.
pub open spec fn property_contents(
    properties: Seq<(&str, helix_db::PropertyInput)>,
) -> Seq<(Seq<char>, Content)> {
    properties.map_values(|p: (&str, helix_db::PropertyInput)| (p.0@, input_content(p.1)))
}

/// The texts of a list of names.
pub open spec fn name_texts(names: Seq<&str>) -> Seq<Seq<char>> {
    names.map_values(|n: &str| n@)
}

/// A property value as `helix_db` takes it.
#[verifier::external_type_specification]
#[verifier::external_body]
pub struct ExPropertyInput(helix_db::PropertyInput);

/// A filter as `helix_db` takes it.
#[verifier::external_type_specification]
#[verifier::external_body]
pub struct ExSourcePredicate(helix_db::SourcePredicate);

/// A batch of reading queries.
#[verifier::external_type_specification]
#[verifier::external_body]
pub struct ExReadBatch(helix_db::ReadBatch);

/// A batch of queries that may write.
#[verifier::external_type_specification]
#[verifier::external_body]
pub struct ExWriteBatch(helix_db::WriteBatch);

/// A request, ready to be sent.
#[verifier::external_type_specification]
#[verifier::external_body]
pub struct ExDynamicQueryRequest(helix_db::DynamicQueryRequest);

/// A traversal that reads and stands on nodes.
#[verifier::external_body]
pub struct ReadNodes(helix_db::Traversal<helix_db::OnNodes, helix_db::ReadOnly>);

/// A traversal that reads and has ended in rows of values.
#[verifier::external_body]
pub struct ReadRows(helix_db::Traversal<helix_db::Terminal, helix_db::ReadOnly>);

/// A traversal that writes and stands on nodes.
#[verifier::external_body]
pub struct WriteNodes(helix_db::Traversal<helix_db::OnNodes, helix_db::WriteEnabled>);

/// A traversal that writes and has ended.
#[verifier::external_body]
pub struct WriteRows(helix_db::Traversal<helix_db::Terminal, helix_db::WriteEnabled>);

/// What a property value holds.
pub uninterp spec fn input_content(input: helix_db::PropertyInput) -> Content;

/// What a filter asks for.
pub uninterp spec fn filter_content(filter: helix_db::SourcePredicate) -> Filter;

/// The steps of a traversal, in order.
pub uninterp spec fn read_node_steps(traversal: ReadNodes) -> Seq<Step>;

/// The steps of a traversal, in order.
pub uninterp spec fn read_row_steps(traversal: ReadRows) -> Seq<Step>;

/// The steps of a traversal, in order.
pub uninterp spec fn write_node_steps(traversal: WriteNodes) -> Seq<Step>;

/// The steps of a traversal, in order.
pub uninterp spec fn write_row_steps(traversal: WriteRows) -> Seq<Step>;

/// The queries and returned names of a batch.
pub uninterp spec fn read_batch_content(batch: helix_db::ReadBatch) -> Batch;

/// The queries and returned names of a batch.
pub uninterp spec fn write_batch_content(batch: helix_db::WriteBatch) -> Batch;

/// The kind of a request and its batch.
pub uninterp spec fn request_content(request: helix_db::DynamicQueryRequest) -> Request;

/// `helix_db::PropertyInput::from` on a text makes a literal text value.
#[verifier::external_body]
pub(crate) fn text_input(text: &str) -> (input: helix_db::PropertyInput)
    ensures
        input_content(input) == Content::Text(text@),
{
    helix_db::PropertyInput::from(text)
}

/// `helix_db::SourcePredicate::eq` on a text asks that the property be that text.
#[verifier::external_body]
pub(crate) fn text_is(property: &str, text: &str) -> (filter: helix_db::SourcePredicate)
    ensures
        filter_content(filter) == Filter::TextIs(property@, text@),
{
    helix_db::SourcePredicate::eq(property, text)
}

/// `helix_db::SourcePredicate::eq` on an integer asks that the property be that integer.
#[verifier::external_body]
pub(crate) fn number_is(property: &str, number: i64) -> (filter: helix_db::SourcePredicate)
    ensures
        filter_content(filter) == Filter::NumberIs(property@, number),
{
    helix_db::SourcePredicate::eq(property, number)
}

/// `helix_db::SourcePredicate::and` asks for every one of its parts, in their order.
#[verifier::external_body]
pub(crate) fn all_of(parts: Vec<helix_db::SourcePredicate>) -> (filter: helix_db::SourcePredicate)
    ensures
        filter_content(filter) == Filter::All(
            parts@.map_values(|p: helix_db::SourcePredicate| filter_content(p)),
        ),
{
    helix_db::SourcePredicate::and(parts)
}

/// `helix_db::Traversal::n_where`, on the empty traversal that `helix_db::g` makes, is the one step
/// that starts from the filter's nodes.
#[verifier::external_body]
pub(crate) fn nodes_where(filter: helix_db::SourcePredicate) -> (traversal: ReadNodes)
    ensures
        read_node_steps(traversal) == seq![Step::NodesWhere(filter_content(filter))],
{
    ReadNodes(helix_db::g().n_where(filter))
}

/// `helix_db::Traversal::n_with_label`, on the empty traversal, starts from the nodes whose property
/// `$label` is the label.
#[verifier::external_body]
pub(crate) fn nodes_with_label(label: &str) -> (traversal: ReadNodes)
    ensures
        read_node_steps(traversal) == seq![Step::NodesWhere(Filter::TextIs("$label"@, label@))],
{
    ReadNodes(helix_db::g().n_with_label(label))
}

/// `helix_db::Traversal::n`, on the empty traversal and with `helix_db::NodeRef::var`, starts from
/// the nodes under a name of the batch.
#[verifier::external_body]
pub(crate) fn nodes_in(name: &str) -> (traversal: ReadNodes)
    ensures
        read_node_steps(traversal) == seq![Step::NodesIn(name@)],
{
    ReadNodes(helix_db::g().n(helix_db::NodeRef::var(name)))
}

/// `helix_db::Traversal::vector_search_nodes_with`, on the empty traversal and with no tenant, starts
/// from the `count` nearest nodes.
#[verifier::external_body]
pub(crate) fn nearest_nodes(
    label: &str,
    property: &str,
    vector: helix_db::PropertyInput,
    count: usize,
) -> (traversal: ReadNodes)
    ensures
        read_node_steps(traversal) == seq![
            Step::Nearest {
                label: label@,
                property: property@,
                vector: input_content(vector),
                count: count as nat,
            },
        ],
{
    ReadNodes(helix_db::g().vector_search_nodes_with(label, property, vector, count, None))
}

/// `helix_db::Traversal::create_index_if_not_exists`, on the empty traversal and with
/// `helix_db::IndexSpec::node_equality`, is the one step that ensures that index.
#[verifier::external_body]
pub(crate) fn ensure_equality_index(label: &str, property: &str) -> (traversal: WriteRows)
    ensures
        write_row_steps(traversal) == seq![
            Step::EnsureIndex(Index::Equality { label: label@, property: property@ }),
        ],
{
    let spec = helix_db::IndexSpec::node_equality(label, property);
    WriteRows(helix_db::g().create_index_if_not_exists(spec))
}

/// `helix_db::Traversal::create_vector_index_nodes`, on the empty traversal and with no tenant, is
/// the one step that ensures that index.
#[verifier::external_body]
pub(crate) fn ensure_vector_index(label: &str, property: &str) -> (traversal: WriteRows)
    ensures
        write_row_steps(traversal) == seq![
            Step::EnsureIndex(Index::Vector { label: label@, property: property@ }),
        ],
{
    WriteRows(helix_db::g().create_vector_index_nodes(label, property, None::<&str>))
}

/// `helix_db::Traversal::add_n`, on the empty traversal, is the one step that creates the node.
#[verifier::external_body]
pub(crate) fn add_node(
    label: &str,
    properties: Vec<(&str, helix_db::PropertyInput)>,
) -> (traversal: WriteNodes)
    ensures
        write_node_steps(traversal) == seq![
            Step::AddNode { label: label@, properties: property_contents(properties@) },
        ],
{
    WriteNodes(helix_db::g().add_n(label, properties))
}

/// `helix_db::Traversal::out` with a label adds the step along outgoing edges.
#[verifier::external_body]
pub(crate) fn out(traversal: ReadNodes, label: &str) -> (longer: ReadNodes)
    ensures
        read_node_steps(longer) == read_node_steps(traversal).push(Step::Out(label@)),
{
    ReadNodes(traversal.0.out(Some(label)))
}

/// `helix_db::Traversal::in_` with a label adds the step along incoming edges.
#[verifier::external_body]
pub(crate) fn into_nodes(traversal: ReadNodes, label: &str) -> (longer: ReadNodes)
    ensures
        read_node_steps(longer) == read_node_steps(traversal).push(Step::In(label@)),
{
    ReadNodes(traversal.0.in_(Some(label)))
}

/// `helix_db::Traversal::value_map` without a list of properties adds the step that reads them all.
#[verifier::external_body]
pub(crate) fn read_values(traversal: ReadNodes) -> (rows: ReadRows)
    ensures
        read_row_steps(rows) == read_node_steps(traversal).push(Step::AllValues),
{
    ReadRows(traversal.0.value_map(None::<Vec<&str>>))
}

/// `helix_db::Traversal::value_map`, as [`read_values`], on a traversal that writes.
#[verifier::external_body]
pub(crate) fn written_values(traversal: WriteNodes) -> (rows: WriteRows)
    ensures
        write_row_steps(rows) == write_node_steps(traversal).push(Step::AllValues),
{
    WriteRows(traversal.0.value_map(None::<Vec<&str>>))
}

/// `helix_db::Traversal::add_e`, with `helix_db::NodeRef::var` as its target, adds the step that
/// creates the edges.
#[verifier::external_body]
pub(crate) fn add_edge(
    traversal: ReadNodes,
    label: &str,
    to: &str,
    properties: Vec<(&str, helix_db::PropertyInput)>,
) -> (longer: WriteNodes)
    ensures
        write_node_steps(longer) == read_node_steps(traversal).push(
            Step::AddEdge {
                label: label@,
                to: to@,
                properties: property_contents(properties@),
            },
        ),
{
    WriteNodes(traversal.0.add_e(label, helix_db::NodeRef::var(to), properties))
}

/// `helix_db::Traversal::drop` adds the step that deletes the current nodes.
#[verifier::external_body]
pub(crate) fn drop_nodes(traversal: ReadNodes) -> (longer: WriteNodes)
    ensures
        write_node_steps(longer) == read_node_steps(traversal).push(Step::DropNodes),
{
    WriteNodes(traversal.0.drop())
}

/// `helix_db::read_batch` makes the empty batch.
#[verifier::external_body]
pub(crate) fn read_batch() -> (batch: helix_db::ReadBatch)
    ensures
        read_batch_content(batch) == empty_batch(),
{
    helix_db::read_batch()
}

/// `helix_db::ReadBatch::var_as` adds a query at the end.
#[verifier::external_body]
pub(crate) fn read_nodes_as(
    batch: helix_db::ReadBatch,
    name: &str,
    traversal: ReadNodes,
) -> (longer: helix_db::ReadBatch)
    ensures
        read_batch_content(longer) == read_batch_content(batch).with(
            name@,
            read_node_steps(traversal),
        ),
{
    batch.var_as(name, traversal.0)
}

/// `helix_db::ReadBatch::var_as`, as [`read_nodes_as`], on rows.
#[verifier::external_body]
pub(crate) fn read_rows_as(
    batch: helix_db::ReadBatch,
    name: &str,
    traversal: ReadRows,
) -> (longer: helix_db::ReadBatch)
    ensures
        read_batch_content(longer) == read_batch_content(batch).with(
            name@,
            read_row_steps(traversal),
        ),
{
    batch.var_as(name, traversal.0)
}

/// `helix_db::ReadBatch::returning` sets the names that are returned, and
/// `helix_db::DynamicQueryRequest::read` makes the batch a reading request.
#[verifier::external_body]
pub(crate) fn read_request(
    batch: helix_db::ReadBatch,
    names: Vec<&str>,
) -> (request: helix_db::DynamicQueryRequest)
    ensures
        request_content(request) == (Request {
            writes: false,
            batch: Batch {
                queries: read_batch_content(batch).queries,
                returns: name_texts(names@),
            },
        }),
{
    helix_db::DynamicQueryRequest::read(batch.returning(names))
}

/// `helix_db::write_batch` makes the empty batch.
#[verifier::external_body]
pub(crate) fn write_batch() -> (batch: helix_db::WriteBatch)
    ensures
        write_batch_content(batch) == empty_batch(),
{
    helix_db::write_batch()
}

/// `helix_db::WriteBatch::var_as` adds a query at the end; here one that only reads.
#[verifier::external_body]
pub(crate) fn found_nodes_as(
    batch: helix_db::WriteBatch,
    name: &str,
    traversal: ReadNodes,
) -> (longer: helix_db::WriteBatch)
    ensures
        write_batch_content(longer) == write_batch_content(batch).with(
            name@,
            read_node_steps(traversal),
        ),
{
    batch.var_as(name, traversal.0)
}

/// `helix_db::WriteBatch::var_as`, as [`found_nodes_as`], on nodes that are written.
#[verifier::external_body]
pub(crate) fn written_nodes_as(
    batch: helix_db::WriteBatch,
    name: &str,
    traversal: WriteNodes,
) -> (longer: helix_db::WriteBatch)
    ensures
        write_batch_content(longer) == write_batch_content(batch).with(
            name@,
            write_node_steps(traversal),
        ),
{
    batch.var_as(name, traversal.0)
}

/// `helix_db::WriteBatch::var_as`, as [`found_nodes_as`], on an ended traversal.
#[verifier::external_body]
pub(crate) fn written_rows_as(
    batch: helix_db::WriteBatch,
    name: &str,
    traversal: WriteRows,
) -> (longer: helix_db::WriteBatch)
    ensures
        write_batch_content(longer) == write_batch_content(batch).with(
            name@,
            write_row_steps(traversal),
        ),
{
    batch.var_as(name, traversal.0)
}

/// `helix_db::WriteBatch::returning` sets the names that are returned, and
/// `helix_db::DynamicQueryRequest::write` makes the batch a writing request.
#[verifier::external_body]
pub(crate) fn write_request(
    batch: helix_db::WriteBatch,
    names: Vec<&str>,
) -> (request: helix_db::DynamicQueryRequest)
    ensures
        request_content(request) == (Request {
            writes: true,
            batch: Batch {
                queries: write_batch_content(batch).queries,
                returns: name_texts(names@),
            },
        }),
{
    helix_db::DynamicQueryRequest::write(batch.returning(names))
}

/// The contents of properties and names are those of each, in order.
pub proof fn contents_are_taken_one_by_one(
    properties: Seq<(&str, helix_db::PropertyInput)>,
    names: Seq<&str>,
    i: int,
    j: int,
)
    requires
        0 <= i < properties.len(),
        0 <= j < names.len(),
    ensures
        property_contents(properties).len() == properties.len(),
        property_contents(properties)[i].0 == properties[i].0@,
        property_contents(properties)[i].1 == input_content(properties[i].1),
        name_texts(names).len() == names.len(),
        name_texts(names)[j] == names[j]@,
{
}

/// A query is added behind the others, which stay as they are.
pub proof fn queries_are_added_at_the_end(batch: Batch, name: Seq<char>, steps: Seq<Step>, i: int)
    requires
        0 <= i < batch.queries.len(),
    ensures
        batch.with(name, steps).queries.len() == batch.queries.len() + 1,
        batch.with(name, steps).queries[i] == batch.queries[i],
        batch.with(name, steps).queries.last() == (Query { name, steps }),
        batch.with(name, steps).returns == batch.returns,
        empty_batch().queries.len() == 0,
        empty_batch().returns.len() == 0,
{
}

} // verus!
