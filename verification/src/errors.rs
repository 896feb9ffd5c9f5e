//! Which failures of the backend count as an empty result.

use vstd::prelude::*;

use crate::helix::says_not_found;
use crate::json::{Json, Value};
use crate::text::{contains_text, has_text, lowered, lowered_chars, stands_at};

verus! {

/// The message says that the vector index holds nothing.
pub open spec fn says_empty_index(message: Seq<char>) -> bool {
    let low = lowered(message);
    ||| has_text(low, "no entry point found for hnsw index"@)
    ||| has_text(low, "empty input provided to reranker"@)
    ||| has_text(low, "graph_error"@) && has_text(low, "vector error"@)
    ||| has_text(low, "graph_error"@) && has_text(low, "reranker error"@)
}

/// The message says that the service that embeds text could not be used.
pub open spec fn says_embedding_failed(message: Seq<char>) -> bool {
    let low = lowered(message);
    ||| has_text(low, "embeddingerror"@)
    ||| has_text(low, "embedding error"@)
    ||| has_text(low, "error while embedding text"@)
    ||| has_text(low, "failed to send request to openai"@)
    ||| has_text(low, "error sending request for url"@)
}

/// The failure counts as an empty result.
pub open spec fn is_forgiven(message: Seq<char>) -> bool {
    says_empty_index(message) || says_embedding_failed(message)
}

/// Whether an error says that the vector index holds nothing.
pub fn is_empty_vector_index_error(message: &str) -> (yes: bool)
    ensures
        yes == says_empty_index(message@),
{
    let low = lowered_chars(message);
    contains_text(&low, "no entry point found for hnsw index") || contains_text(
        &low,
        "empty input provided to reranker",
    ) || (contains_text(&low, "graph_error") && contains_text(&low, "vector error")) || (
    contains_text(&low, "graph_error") && contains_text(&low, "reranker error"))
}

/// Whether an error says that the service that embeds text could not be used.
pub fn is_transient_embedding_error(message: &str) -> (yes: bool)
    ensures
        yes == says_embedding_failed(message@),
{
    let low = lowered_chars(message);
    contains_text(&low, "embeddingerror") || contains_text(&low, "embedding error")
        || contains_text(&low, "error while embedding text") || contains_text(
        &low,
        "failed to send request to openai",
    ) || contains_text(&low, "error sending request for url")
}

/// The outcome of a search, in which a failure that is forgiven counts as no results; any other
/// failure names the search.
pub fn normalize_search_result(label: &str, result: Result<Value, String>) -> (settled: Result<
    Value,
    String,
>)
    ensures
        match result {
            Ok(_) => settled == result,
            Err(message) => if is_forgiven(message@) {
                settled matches Ok(v) && v@ == Json::Array(Seq::empty())
            } else {
                settled matches Err(e) && e@ == label@ + " search failed: "@ + message@
            },
        },
{
    match result {
        Ok(value) => Ok(value),
        Err(message) => if is_empty_vector_index_error(message.as_str())
            || is_transient_embedding_error(message.as_str()) {
            Ok(no_results())
        } else {
            let mut text = label.to_owned();
            text.append(" search failed: ");
            text.append(message.as_str());
            Err(text)
        },
    }
}

/// The answer that holds no results.
pub(crate) fn no_results() -> (v: Value)
    ensures
        v@ == Json::Array(Seq::empty()),
{
    let items: Vec<Value> = Vec::new();
    proof {
        crate::json::lemma_array_view(items);
        assert(crate::json::views(items@) =~= Seq::<Json>::empty());
    }
    Value::Array(items)
}

/// Lower-casing twice is lower-casing once.
pub proof fn lowering_is_idempotent(message: Seq<char>)
    ensures
        lowered(lowered(message)) == lowered(message),
{
    assert(lowered(lowered(message)) =~= lowered(message));
}

/// The case of ASCII letters plays no part in how a message is read.
pub proof fn case_is_ignored(a: Seq<char>, b: Seq<char>)
    requires
        lowered(a) == lowered(b),
    ensures
        says_empty_index(a) == says_empty_index(b),
        says_embedding_failed(a) == says_embedding_failed(b),
        says_not_found(a) == says_not_found(b),
{
}

/// A message says that nothing was found exactly where the plain sentence stands in it: the quoted
/// form holds that sentence.
pub proof fn not_found_is_one_sentence(message: Seq<char>)
    ensures
        says_not_found(message) == has_text(lowered(message), "graph error: no value found"@),
{
    let low = lowered(message);
    let plain = "graph error: no value found"@;
    let quoted = "\"error\":\"graph error: no value found\""@;
    if has_text(low, quoted) {
        reveal_strlit("graph error: no value found");
        reveal_strlit("\"error\":\"graph error: no value found\"");
        let at = choose|at: int| stands_at(low, quoted, at);
        assert(quoted.subrange(9, 9int + plain.len()) =~= plain);
        assert(low.subrange(at + 9, at + 9 + plain.len()) =~= low.subrange(
            at,
            at + quoted.len(),
        ).subrange(9, 9int + plain.len()));
        assert(stands_at(low, plain, at + 9));
    }
}

/// Words around a message do not change that it counts as an empty result.
pub proof fn context_keeps_forgiveness(before: Seq<char>, message: Seq<char>, after: Seq<char>)
    requires
        is_forgiven(message),
    ensures
        is_forgiven(before + message + after),
{
    let whole = before + message + after;
    assert forall|needle: Seq<char>| has_text(lowered(message), needle) implies has_text(
        lowered(whole),
        needle,
    ) by {
        let at = choose|at: int| stands_at(lowered(message), needle, at);
        let there = before.len() + at;
        assert(lowered(whole).subrange(there, there + needle.len()) =~= lowered(message).subrange(
            at,
            at + needle.len(),
        ));
        assert(stands_at(lowered(whole), needle, there));
    }
}

/// A message says that the index is empty exactly where one of two sentences stands in it, or the name
/// of a graph error together with that of a vector or a reranker error, in capitals or not.
pub proof fn empty_index_is_told_by_these_words(message: Seq<char>)
    ensures
        says_empty_index(message) <==> {
            let low = lowered(message);
            ||| has_text(low, "no entry point found for hnsw index"@)
            ||| has_text(low, "empty input provided to reranker"@)
            ||| has_text(low, "graph_error"@) && (has_text(low, "vector error"@) || has_text(
                low,
                "reranker error"@,
            ))
        },
{
}

/// A message says that embedding failed exactly where one of five phrases stands in it, in capitals or
/// not.
pub proof fn failed_embedding_is_told_by_these_words(message: Seq<char>)
    ensures
        says_embedding_failed(message) <==> {
            let low = lowered(message);
            ||| has_text(low, "embeddingerror"@)
            ||| has_text(low, "embedding error"@)
            ||| has_text(low, "error while embedding text"@)
            ||| has_text(low, "failed to send request to openai"@)
            ||| has_text(low, "error sending request for url"@)
        },
        is_forgiven(message) <==> says_empty_index(message) || says_embedding_failed(message),
{
}

} // verus!
