use modular_agent_web::error::AgentError;
use modular_agent_web::html_scraper::scrape;
use modular_agent_web::html_to_markdown::{html2markdown, markdown_output, MarkdownOutput};
use modular_agent_web::input::{require_string, InputValue};
use modular_agent_web::number::i64_to_string;
use modular_agent_web::searxng::{
    check_search_query, check_search_status, plan_search, search_endpoint, search_request,
    searxng_base_url, truncate_results, QueryInput, SearchRequest, SearchSettings,
    DEFAULT_MAX_RESULTS, DEFAULT_SAFESEARCH,
};
use modular_agent_web::text::{str_eq_ignore_ascii_case, trim_string};

fn message_of(e: &AgentError) -> String {
    e.message().clone()
}

fn defaults() -> SearchSettings {
    SearchSettings {
        max_results: DEFAULT_MAX_RESULTS,
        categories: String::new(),
        language: String::new(),
        time_range: String::new(),
        safesearch: DEFAULT_SAFESEARCH,
    }
}

fn pairs(plan: &[(String, String)]) -> Vec<(&str, &str)> {
    plan.iter().map(|(k, v)| (k.as_str(), v.as_str())).collect()
}

#[test]
fn truncation_keeps_a_prefix() {
    let results = vec!["a", "b", "c"];
    assert_eq!(truncate_results(results.clone(), 2), vec!["a", "b"]);
    assert_eq!(truncate_results(results.clone(), 100), vec!["a", "b", "c"]);
    assert_eq!(truncate_results(results.clone(), 3), vec!["a", "b", "c"]);
    assert_eq!(truncate_results(results.clone(), 0), vec!["a", "b", "c"]);
    assert_eq!(truncate_results(results.clone(), -5), vec!["a", "b", "c"]);
    assert!(truncate_results(Vec::<u8>::new(), 10).is_empty());
}

#[test]
fn plain_query_uses_the_settings() {
    let request = search_request(QueryInput::Text("rust async".to_string())).unwrap();
    assert!(check_search_query(&request).is_ok());
    let plan = plan_search(request, &defaults());
    assert_eq!(pairs(&plan.params), vec![("q", "rust async"), ("format", "json")]);
    assert_eq!(plan.max_results, 10);
}

#[test]
fn request_fields_override_the_settings() {
    let mut settings = defaults();
    settings.categories = "general,news".to_string();
    settings.time_range = "day".to_string();
    settings.safesearch = 2;
    let request = SearchRequest {
        query: "rust".to_string(),
        categories: None,
        language: Some("ja".to_string()),
        time_range: Some(String::new()),
        safesearch: Some(0),
        pageno: Some(2),
        max_results: Some(3),
    };
    let plan = plan_search(request, &settings);
    assert_eq!(
        pairs(&plan.params),
        vec![
            ("q", "rust"),
            ("format", "json"),
            ("categories", "general,news"),
            ("language", "ja"),
            ("safesearch", "0"),
            ("pageno", "2"),
        ]
    );
    assert_eq!(plan.max_results, 3);
}

#[test]
fn blank_queries_and_other_inputs_are_refused() {
    let request = search_request(QueryInput::Text(" \t ".to_string())).unwrap();
    let err = check_search_query(&request).unwrap_err();
    assert!(matches!(err, AgentError::InvalidValue(_)));
    assert_eq!(message_of(&err), "Search query is empty");
    let err = search_request(QueryInput::Other).unwrap_err();
    assert_eq!(
        message_of(&err),
        "Input value for 'query' must be a string or an object"
    );
}

#[test]
fn searxng_url_is_trimmed_and_required() {
    assert_eq!(
        searxng_base_url(&Some("  http://localhost:8080// ".to_string())).unwrap(),
        "http://localhost:8080"
    );
    let err = searxng_base_url(&Some(" / ".to_string())).unwrap_err();
    assert!(matches!(err, AgentError::InvalidConfig(_)));
    assert_eq!(
        message_of(&err),
        "SearXNG URL is not set. Configure it in global settings."
    );
    assert!(matches!(searxng_base_url(&None), Err(AgentError::InvalidConfig(_))));
    assert_eq!(search_endpoint("http://h"), "http://h/search");
}

#[test]
fn forbidden_answers_explain_the_json_api() {
    let err = check_search_status(403, "http://h").unwrap_err();
    assert!(matches!(err, AgentError::IoError(_)));
    assert_eq!(
        message_of(&err),
        "SearXNG at http://h returned 403 Forbidden. The JSON API is likely disabled; add 'json' to 'search.formats' in the instance settings.yml"
    );
    assert!(check_search_status(200, "http://h").is_ok());
    assert!(check_search_status(500, "http://h").is_ok());
}

#[test]
fn integers_are_written_in_decimal() {
    assert_eq!(i64_to_string(0), "0");
    assert_eq!(i64_to_string(42), "42");
    assert_eq!(i64_to_string(-7), "-7");
    assert_eq!(i64_to_string(i64::MAX), i64::MAX.to_string());
    assert_eq!(i64_to_string(i64::MIN), i64::MIN.to_string());
}

#[test]
fn string_ports_refuse_other_values() {
    assert_eq!(require_string(&InputValue::Text("x".to_string()), "url").unwrap(), "x");
    let err = require_string(&InputValue::Other, "url").unwrap_err();
    assert!(matches!(err, AgentError::InvalidValue(_)));
    assert_eq!(message_of(&err), "Input value for 'url' must be a string");
}

#[test]
fn markdown_conversion_converts() {
    let md = html2markdown("<h1>Title</h1><p>Hello <b>world</b></p>").unwrap();
    assert!(md.contains("Title"));
    assert!(md.contains("world"));
    assert!(!md.contains("<h1>"));
    assert_ne!(md, "<h1>Title</h1><p>Hello <b>world</b></p>");
}

#[test]
fn markdown_output_follows_the_input_shape() {
    match markdown_output(&InputValue::Text("<p>one</p>".to_string())).unwrap() {
        MarkdownOutput::Single(s) => assert!(s.contains("one")),
        MarkdownOutput::Many(_) => panic!("expected one document"),
    }
    let items = vec![Some("<p>one</p>".to_string()), Some("<p>two</p>".to_string())];
    match markdown_output(&InputValue::List(items)).unwrap() {
        MarkdownOutput::Many(v) => {
            assert_eq!(v.len(), 2);
            assert!(v[1].contains("two"));
        }
        MarkdownOutput::Single(_) => panic!("expected a list"),
    }
    let err = markdown_output(&InputValue::List(vec![Some("<p>a</p>".to_string()), None]))
        .unwrap_err();
    assert_eq!(message_of(&err), "Input array items for 'html' must be strings");
    let err = markdown_output(&InputValue::Other).unwrap_err();
    assert_eq!(message_of(&err), "Input value for 'html' must be a string");
}

#[test]
fn scraper_selects_outer_html() {
    let html = "<div><p>a</p><span>x</span><p>b</p></div>";
    assert_eq!(
        scrape("p", &InputValue::Text(html.to_string())).unwrap(),
        Some(vec!["<p>a</p>".to_string(), "<p>b</p>".to_string()])
    );
    let items = vec![Some("<p>x</p>".to_string()), Some("<i>n</i><p>y</p>".to_string())];
    assert_eq!(
        scrape("p", &InputValue::List(items)).unwrap(),
        Some(vec!["<p>x</p>".to_string(), "<p>y</p>".to_string()])
    );
    assert_eq!(scrape("", &InputValue::Other).unwrap(), None);
}

#[test]
fn scraper_refusals() {
    let err = scrape("[[", &InputValue::Text("<p>a</p>".to_string())).unwrap_err();
    assert!(matches!(err, AgentError::InvalidValue(_)));
    assert!(message_of(&err).starts_with("Invalid CSS selector '[[': "));
    let err = scrape("p", &InputValue::List(vec![None])).unwrap_err();
    assert_eq!(message_of(&err), "Input array items for 'html' must be strings");
    let err = scrape("p", &InputValue::Other).unwrap_err();
    assert_eq!(message_of(&err), "Input value for 'html' must be a string");
}

#[test]
fn text_helpers_follow_std() {
    assert_eq!(trim_string("\u{3000} a b \u{85}\n"), "a b");
    assert_eq!(trim_string("\u{200B}x"), "\u{200B}x");
    assert!(str_eq_ignore_ascii_case("EnGlish", "english"));
    assert!(!str_eq_ignore_ascii_case("é", "É"));
    assert!(!str_eq_ignore_ascii_case("en", "eng"));
}
