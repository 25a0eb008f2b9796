//! Truncation of a SearXNG answer's `results` array, on a field-accurate
//! answer of a real instance. The JSON is read here as plain
//! `serde_json::Value`s; what is kept is decided by the library.

use modular_agent_web::searxng::truncate_results;
use serde_json::Value;

/// Trimmed-down but field-accurate response from a real SearXNG instance.
const FIXTURE: &str = r#"{
  "query": "rust async",
  "number_of_results": 0,
  "results": [
    {
      "url": "https://rust-lang.github.io/async-book/",
      "title": "Asynchronous Programming in Rust",
      "content": "This book aims to be a comprehensive, up-to-date guide.",
      "engine": "duckduckgo",
      "parsed_url": ["https", "rust-lang.github.io", "/async-book/", "", "", ""],
      "template": "default.html",
      "engines": ["duckduckgo", "google"],
      "positions": [1, 2],
      "publishedDate": "2024-03-11T00:00:00",
      "score": 4.0,
      "category": "general"
    },
    {
      "url": "https://tokio.rs/",
      "title": "Tokio - An asynchronous Rust runtime",
      "content": null,
      "engine": "google",
      "parsed_url": ["https", "tokio.rs", "/", "", "", ""],
      "template": "default.html",
      "engines": ["google"],
      "positions": [3],
      "score": 2.0,
      "category": "general"
    },
    {
      "url": "https://docs.rs/futures/latest/futures/",
      "title": "futures - Rust",
      "content": "Abstractions for asynchronous programming.",
      "engine": "brave",
      "parsed_url": ["https", "docs.rs", "/futures/latest/futures/", "", "", ""],
      "template": "default.html",
      "engines": ["brave"],
      "positions": [4],
      "score": 1.0,
      "category": "general"
    }
  ],
  "answers": [],
  "corrections": [],
  "infoboxes": [],
  "suggestions": ["rust async book"],
  "unresponsive_engines": []
}"#;

fn fixture_results() -> Vec<Value> {
    let answer: Value = serde_json::from_str(FIXTURE).unwrap();
    answer.get("results").unwrap().as_array().unwrap().clone()
}

#[test]
fn truncates_to_max_results() {
    let results = truncate_results(fixture_results(), 2);
    assert_eq!(results.len(), 2);
    assert_eq!(results[1].get("url").unwrap(), "https://tokio.rs/");
}

#[test]
fn max_results_larger_than_available_keeps_all() {
    let results = truncate_results(fixture_results(), 100);
    assert_eq!(results.len(), 3);
}

#[test]
fn zero_max_results_keeps_every_result() {
    let results = truncate_results(fixture_results(), 0);
    assert_eq!(results.len(), 3);
    assert_eq!(
        results[0].get("url").unwrap(),
        "https://rust-lang.github.io/async-book/"
    );
}
