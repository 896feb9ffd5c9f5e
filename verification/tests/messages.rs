//! Texts: errors, encoding, white space.

use search_thing::errors::{
    is_empty_vector_index_error, is_transient_embedding_error, normalize_search_result,
};
use search_thing::json::Value;
use search_thing::percent::percent_encode;
use search_thing::text::{
    blank, contains_text, first_chars, forward_slashes, lowered_chars, numeral_of, trim_end,
    white_space,
};

#[test]
fn empty_index_errors() {
    assert!(is_empty_vector_index_error("No entry point found for HNSW index"));
    assert!(is_empty_vector_index_error("x: Empty input provided to RERANKER!"));
    assert!(is_empty_vector_index_error("GRAPH_ERROR: Vector error"));
    assert!(is_empty_vector_index_error("reranker error in graph_error"));
    assert!(!is_empty_vector_index_error("graph_error"));
    assert!(!is_empty_vector_index_error("vector error"));
    assert!(!is_empty_vector_index_error("graph error: vector error"));
    assert!(!is_empty_vector_index_error(""));
}

#[test]
fn embedding_errors() {
    assert!(is_transient_embedding_error("EmbeddingError(..)"));
    assert!(is_transient_embedding_error("an Embedding Error"));
    assert!(is_transient_embedding_error("Error while embedding text: 429"));
    assert!(is_transient_embedding_error("Failed to send request to OpenAI"));
    assert!(is_transient_embedding_error("error sending request for url (http://x)"));
    assert!(!is_transient_embedding_error("embedding-error"));
    assert!(!is_transient_embedding_error("error sending request"));
}

#[test]
fn failures_are_settled() {
    let settled = |message: &str| normalize_search_result("asset", Err(message.to_string()));
    assert_eq!(settled("embedding error"), Ok(Value::Array(Vec::new())));
    assert_eq!(settled("prefix: graph_error vector error :suffix"), Ok(Value::Array(Vec::new())));
    assert_eq!(settled("timeout"), Err("asset search failed: timeout".to_string()));
    assert_eq!(normalize_search_result("asset", Ok(Value::Null)), Ok(Value::Null));
}

#[test]
fn case_of_letters_is_ignored() {
    assert_eq!(lowered_chars("AbZ\u{c4}1"), vec!['a', 'b', 'z', '\u{c4}', '1']);
    let text = "Grüße AUS Zürich";
    let expected: Vec<char> = text.to_ascii_lowercase().chars().collect();
    assert_eq!(lowered_chars(text), expected);
}

#[test]
fn texts_are_found() {
    let hay: Vec<char> = "abcabd".chars().collect();
    assert!(contains_text(&hay, "abd"));
    assert!(contains_text(&hay, ""));
    assert!(contains_text(&hay, "abcabd"));
    assert!(!contains_text(&hay, "abcabdx"));
    assert!(!contains_text(&hay, "cc"));
    assert!(contains_text(&Vec::new(), ""));
}

#[test]
fn paths_are_encoded() {
    assert_eq!(percent_encode("C:/a b/é%.jpg"), "C:/a%20b/%C3%A9%25.jpg");
    assert_eq!(percent_encode("azAZ09-_.~/:"), "azAZ09-_.~/:");
    assert_eq!(percent_encode(""), "");
    assert_eq!(percent_encode("\u{1f600}&?=#+"), "%F0%9F%98%80%26%3F%3D%23%2B");
}

#[test]
fn parts_are_encoded_one_by_one() {
    let (one, two) = ("a b/é", "%\u{1f600}c");
    let whole = percent_encode(&format!("{}{}", one, two));
    assert_eq!(whole, format!("{}{}", percent_encode(one), percent_encode(two)));
    assert_eq!(whole, "a%20b/%C3%A9%25%F0%9F%98%80c");
    assert_eq!(whole.len(), (one.len() + two.len()) + 2 * 8);
}

#[test]
fn encoding_agrees_byte_for_byte() {
    for code in 0..256u32 {
        let c = char::from_u32(code).unwrap();
        let mut expected = String::new();
        for byte in c.to_string().bytes() {
            let kept = byte.is_ascii_alphanumeric() || b"-_.~/:".contains(&byte);
            if kept {
                expected.push(byte as char);
            } else {
                expected.push_str(&format!("%{:02X}", byte));
            }
        }
        assert_eq!(percent_encode(&c.to_string()), expected);
    }
}

#[test]
fn white_space_is_that_of_unicode() {
    for code in 0..0x11_0000u32 {
        if let Some(c) = char::from_u32(code) {
            assert_eq!(white_space(c), c.is_whitespace(), "{:x}", code);
        }
    }
    assert!(blank(""));
    assert!(blank(" \u{2003}"));
    assert!(!blank(" x "));
}

#[test]
fn numerals_are_decimal() {
    for n in [0u16, 9, 10, 80, 6969, 10_000, 65_535] {
        assert_eq!(numeral_of(n), n.to_string());
    }
}

#[test]
fn ends_are_trimmed() {
    assert_eq!(trim_end("a//b//", '/'), "a//b");
    assert_eq!(trim_end("//", '/'), "");
    assert_eq!(trim_end("", '/'), "");
    assert_eq!(trim_end("a", '/'), "a");
}

#[test]
fn slashes_and_beginnings() {
    assert_eq!(forward_slashes("a\\b/c\\"), "a/b/c/");
    assert_eq!(first_chars("äbc", 2), "äb");
    assert_eq!(first_chars("äbc", 9), "äbc");
    assert_eq!(first_chars("äbc", 0), "");
}
