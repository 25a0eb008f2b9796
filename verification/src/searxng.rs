//! SearXNG search: the search request an input describes, the parameters
//! sent to the instance's JSON API, and the handling of its answer.
//!
//! The request is sent as `GET {searxng_url}/search?q=...&format=json`; the
//! instance must have `json` enabled in `search.formats`, otherwise it
//! answers 403. Unset parameters are left out of the request so that the
//! instance's own defaults apply.

use vstd::prelude::*;
use crate::error::{AgentError, ErrorView};
use crate::input::concat3;
use crate::number::{i64_decimal, i64_to_string};
use crate::text::{chars_of, is_blank, is_blank_str, string_from_chars, trim, trim_bounds};

verus! {

/// The `max_results` setting when none is configured.
pub const DEFAULT_MAX_RESULTS: i64 = 10;

/// The `safesearch` setting when none is configured: the instance decides.
pub const DEFAULT_SAFESEARCH: i64 = -1;

/// A search, as the `query` port describes it. Every field but `query`
/// overrides the matching setting for this one search.
#[derive(Debug)]
pub struct SearchRequest {
    pub query: String,
    pub categories: Option<String>,
    pub language: Option<String>,
    pub time_range: Option<String>,
    pub safesearch: Option<i64>,
    pub pageno: Option<i64>,
    pub max_results: Option<i64>,
}

/// The agent's settings.
#[derive(Debug)]
pub struct SearchSettings {
    /// Results to emit at most; 0 or less is unlimited.
    pub max_results: i64,
    /// Comma-separated categories; empty leaves them to the instance.
    pub categories: String,
    /// Language code; empty leaves it to the instance.
    pub language: String,
    /// `day`, `month` or `year`; empty is no time filter.
    pub time_range: String,
    /// 0 off, 1 moderate, 2 strict; negative leaves it to the instance.
    pub safesearch: i64,
}

/// What the `query` port received: a plain query string, an object read as
/// a [`SearchRequest`], or anything else.
#[derive(Debug)]
pub enum QueryInput {
    Text(String),
    Object(SearchRequest),
    Other,
}

/// The parameters of the search request, and how many results to keep.
#[derive(Debug)]
pub struct SearchPlan {
    pub params: Vec<(String, String)>,
    pub max_results: i64,
}

impl SearchRequest {
    /// A search for `query` with every other parameter taken from the
    /// settings.
    pub fn from_query(query: &str) -> (r: SearchRequest)
        ensures
            r.query@ == query@,
            r.categories is None,
            r.language is None,
            r.time_range is None,
            r.safesearch is None,
            r.pageno is None,
            r.max_results is None,
    {
        SearchRequest {
            query: String::from_str(query),
            categories: None,
            language: None,
            time_range: None,
            safesearch: None,
            pageno: None,
            max_results: None,
        }
    }
}

/// The search an input describes; an input that is neither a string nor an
/// object is refused.
pub fn search_request(input: QueryInput) -> (r: Result<SearchRequest, AgentError>)
    ensures
        match input {
            QueryInput::Text(q) => r matches Ok(req) && req.query@ == q@ && req.categories is None
                && req.language is None && req.time_range is None && req.safesearch is None
                && req.pageno is None && req.max_results is None,
            QueryInput::Object(req) => r matches Ok(x) && x == req,
            QueryInput::Other => r matches Err(e) && e@ == ErrorView::InvalidValue(
                "Input value for 'query' must be a string or an object"@,
            ),
        },
{
    match input {
        QueryInput::Text(q) => Ok(SearchRequest::from_query(q.as_str())),
        QueryInput::Object(req) => Ok(req),
        QueryInput::Other => Err(
            AgentError::InvalidValue(
                String::from_str("Input value for 'query' must be a string or an object"),
            ),
        ),
    }
}

/// Refuses a search whose query is blank.
pub fn check_search_query(request: &SearchRequest) -> (r: Result<(), AgentError>)
    ensures
        is_blank(request.query@) ==> (r matches Err(e) && e@ == ErrorView::InvalidValue(
            "Search query is empty"@,
        )),
        !is_blank(request.query@) ==> r is Ok,
{
    if is_blank_str(request.query.as_str()) {
        Err(AgentError::InvalidValue(String::from_str("Search query is empty")))
    } else {
        Ok(())
    }
}

pub open spec fn string_or_setting(v: Option<String>, setting: String) -> Seq<char> {
    match v {
        Some(s) => s@,
        None => setting@,
    }
}

pub open spec fn i64_or_setting(v: Option<i64>, setting: i64) -> i64 {
    match v {
        Some(x) => x,
        None => setting,
    }
}

/// `(key, value)` when `value` is not empty, else nothing.
pub open spec fn param_if_set(key: Seq<char>, value: Seq<char>) -> Seq<(Seq<char>, Seq<char>)> {
    if value.len() > 0 {
        seq![(key, value)]
    } else {
        Seq::empty()
    }
}

/// The parameters of the search request: the query and `format=json`, then
/// each of categories, language and time range that is not empty, the
/// safesearch level when it is not negative, and the page when one is
/// asked for. The request's fields override the settings.
pub open spec fn search_params(request: SearchRequest, settings: SearchSettings) -> Seq<
    (Seq<char>, Seq<char>),
> {
    let safesearch = i64_or_setting(request.safesearch, settings.safesearch);
    seq![("q"@, request.query@), ("format"@, "json"@)] + param_if_set(
        "categories"@,
        string_or_setting(request.categories, settings.categories),
    ) + param_if_set("language"@, string_or_setting(request.language, settings.language))
        + param_if_set("time_range"@, string_or_setting(request.time_range, settings.time_range))
        + (if safesearch >= 0 {
        seq![("safesearch"@, i64_decimal(safesearch))]
    } else {
        Seq::empty()
    }) + match request.pageno {
        Some(p) => seq![("pageno"@, i64_decimal(p))],
        None => Seq::empty(),
    }
}

pub open spec fn params_view(v: Seq<(String, String)>) -> Seq<(Seq<char>, Seq<char>)> {
    v.map_values(|p: (String, String)| (p.0@, p.1@))
}

fn push_param(params: &mut Vec<(String, String)>, key: &str, value: String)
    ensures
        params_view(final(params)@) == params_view(old(params)@).push((key@, value@)),
{
    let ghost before = params@;
    params.push((String::from_str(key), value));
    assert(params_view(params@) =~= params_view(before).push((key@, value@)));
}

fn push_param_if_set(params: &mut Vec<(String, String)>, key: &str, value: String)
    ensures
        params_view(final(params)@) == params_view(old(params)@) + param_if_set(key@, value@),
{
    if value.as_str().is_empty() {
        assert(params_view(params@) + param_if_set(key@, value@) =~= params_view(params@));
    } else {
        let ghost before = params_view(params@);
        push_param(params, key, value);
        assert(before.push((key@, value@)) =~= before + param_if_set(key@, value@));
    }
}

/// The search request's parameters and the number of results to keep (the
/// request's `max_results`, else the setting).
pub fn plan_search(request: SearchRequest, settings: &SearchSettings) -> (plan: SearchPlan)
    ensures
        params_view(plan.params@) == search_params(request, *settings),
        plan.max_results == i64_or_setting(request.max_results, settings.max_results),
{
    proof {
        reveal_strlit("q");
        reveal_strlit("format");
        reveal_strlit("json");
        reveal_strlit("categories");
        reveal_strlit("language");
        reveal_strlit("time_range");
        reveal_strlit("safesearch");
        reveal_strlit("pageno");
    }
    let ghost req = request;
    let max_results = match request.max_results {
        Some(m) => m,
        None => settings.max_results,
    };
    let categories = match request.categories {
        Some(c) => c,
        None => settings.categories.clone(),
    };
    let language = match request.language {
        Some(l) => l,
        None => settings.language.clone(),
    };
    let time_range = match request.time_range {
        Some(t) => t,
        None => settings.time_range.clone(),
    };
    let safesearch = match request.safesearch {
        Some(s) => s,
        None => settings.safesearch,
    };
    let mut params: Vec<(String, String)> = Vec::new();
    assert(params_view(params@) =~= Seq::<(Seq<char>, Seq<char>)>::empty());
    push_param(&mut params, "q", request.query);
    assert(params_view(params@) =~= seq![("q"@, req.query@)]);
    push_param(&mut params, "format", String::from_str("json"));
    assert(params_view(params@) =~= seq![("q"@, req.query@), ("format"@, "json"@)]);
    push_param_if_set(&mut params, "categories", categories);
    push_param_if_set(&mut params, "language", language);
    push_param_if_set(&mut params, "time_range", time_range);
    let ghost mid = params_view(params@);
    assert(mid =~= seq![("q"@, req.query@), ("format"@, "json"@)] + param_if_set(
        "categories"@,
        string_or_setting(req.categories, settings.categories),
    ) + param_if_set("language"@, string_or_setting(req.language, settings.language))
        + param_if_set("time_range"@, string_or_setting(req.time_range, settings.time_range)));
    assert(safesearch == i64_or_setting(req.safesearch, settings.safesearch));
    if safesearch >= 0 {
        push_param(&mut params, "safesearch", i64_to_string(safesearch));
    }
    match request.pageno {
        Some(p) => push_param(&mut params, "pageno", i64_to_string(p)),
        None => {},
    }
    assert(params_view(params@) =~= search_params(req, *settings));
    SearchPlan { params, max_results }
}

/// `s` without its trailing `c`s (std `trim_end_matches` with a char).
pub open spec fn strip_trailing(s: Seq<char>, c: char) -> Seq<char>
    decreases s.len(),
{
    if s.len() > 0 && s.last() == c {
        strip_trailing(s.drop_last(), c)
    } else {
        s
    }
}

/// The SearXNG base URL from the global setting: trimmed, without trailing
/// slashes, and required to be set and not empty.
pub open spec fn searxng_url_of(configured: Option<Seq<char>>) -> Result<Seq<char>, ErrorView> {
    match configured {
        Some(u) => if strip_trailing(trim(u), '/').len() > 0 {
            Ok(strip_trailing(trim(u), '/'))
        } else {
            Err(ErrorView::InvalidConfig("SearXNG URL is not set. Configure it in global settings."@))
        },
        None => Err(ErrorView::InvalidConfig("SearXNG URL is not set. Configure it in global settings."@)),
    }
}

pub open spec fn result_view(r: Result<String, AgentError>) -> Result<Seq<char>, ErrorView> {
    match r {
        Ok(s) => Ok(s@),
        Err(e) => Err(e@),
    }
}

/// The base URL of the SearXNG instance (see [`searxng_url_of`]).
pub fn searxng_base_url(configured: &Option<String>) -> (r: Result<String, AgentError>)
    ensures
        result_view(r) == searxng_url_of(
            match configured {
                Some(u) => Some(u@),
                None => None,
            },
        ),
{
    match configured {
        Some(u) => {
            let cs = chars_of(u.as_str());
            let (a, b) = trim_bounds(&cs, 0, cs.len());
            assert(cs@.subrange(0, cs@.len() as int) =~= cs@);
            let mut e = b;
            while e > a && cs[e - 1] == '/'
                invariant
                    a <= e <= b <= cs.len(),
                    strip_trailing(trim(u@), '/') == strip_trailing(cs@.subrange(a as int, e as int), '/'),
                decreases e - a,
            {
                assert(cs@.subrange(a as int, e as int).drop_last() =~= cs@.subrange(a as int, e - 1));
                e = e - 1;
            }
            if a < e {
                Ok(string_from_chars(&cs, a, e))
            } else {
                Err(
                    AgentError::InvalidConfig(
                        String::from_str("SearXNG URL is not set. Configure it in global settings."),
                    ),
                )
            }
        },
        None => Err(
            AgentError::InvalidConfig(
                String::from_str("SearXNG URL is not set. Configure it in global settings."),
            ),
        ),
    }
}

/// The search endpoint of the instance at `base_url`.
pub fn search_endpoint(base_url: &str) -> (s: String)
    ensures
        s@ == base_url@ + "/search"@,
{
    let mut s = String::from_str(base_url);
    s.append("/search");
    s
}

/// The instance answered 403: its JSON API is most likely disabled.
pub open spec fn forbidden_message(base_url: Seq<char>) -> Seq<char> {
    "SearXNG at "@ + base_url
        + " returned 403 Forbidden. The JSON API is likely disabled; add 'json' to 'search.formats' in the instance settings.yml"@
}

/// Turns a 403 answer into an error that says how to enable the JSON API;
/// any other status passes.
pub fn check_search_status(status: u16, base_url: &str) -> (r: Result<(), AgentError>)
    ensures
        status == 403 ==> (r matches Err(e) && e@ == ErrorView::IoError(forbidden_message(base_url@))),
        status != 403 ==> r is Ok,
{
    if status == 403 {
        Err(
            AgentError::IoError(
                concat3(
                    "SearXNG at ",
                    base_url,
                    " returned 403 Forbidden. The JSON API is likely disabled; add 'json' to 'search.formats' in the instance settings.yml",
                ),
            ),
        )
    } else {
        Ok(())
    }
}

/// The results to emit: the first `max_results` of them, or all of them
/// when `max_results` is 0 or less.
pub open spec fn kept_results<T>(results: Seq<T>, max_results: i64) -> Seq<T> {
    if max_results > 0 && max_results < results.len() {
        results.take(max_results as int)
    } else {
        results
    }
}

/// Keeps the first `max_results` results; 0 or less means unlimited.
pub fn truncate_results<T>(results: Vec<T>, max_results: i64) -> (kept: Vec<T>)
    ensures
        kept@ == kept_results(results@, max_results),
{
    let mut results = results;
    if max_results > 0 && (max_results as u64) < (results.len() as u64) {
        results.truncate(max_results as usize);
    }
    results
}

/// Every parameter has a value.
pub open spec fn values_set(ps: Seq<(Seq<char>, Seq<char>)>) -> bool {
    forall|i: int| 0 <= i < ps.len() ==> (#[trigger] ps[i]).1.len() > 0
}

proof fn lemma_decimal_nonempty(n: nat)
    ensures
        crate::number::nat_decimal(n).len() > 0,
    decreases n,
{
    if n >= 10 {
        lemma_decimal_nonempty(n / 10);
    }
}

proof fn lemma_values_set_concat(a: Seq<(Seq<char>, Seq<char>)>, b: Seq<(Seq<char>, Seq<char>)>)
    requires
        values_set(a),
        values_set(b),
    ensures
        values_set(a + b),
{
    assert forall|i: int| 0 <= i < (a + b).len() implies (#[trigger] (a + b)[i]).1.len() > 0 by {
        if i < a.len() {
            assert((a + b)[i] == a[i]);
        } else {
            assert((a + b)[i] == b[i - a.len()]);
        }
    }
}

/// Unset parameters are left out of the request: it starts with the query
/// and `format=json`, and every parameter after them has a value.
pub proof fn law_search_params_leave_out_unset(request: SearchRequest, settings: SearchSettings)
    ensures
        search_params(request, settings).len() >= 2,
        search_params(request, settings)[0] == ("q"@, request.query@),
        search_params(request, settings)[1] == ("format"@, "json"@),
        values_set(search_params(request, settings).skip(2)),
{
    let safesearch = i64_or_setting(request.safesearch, settings.safesearch);
    let head = seq![("q"@, request.query@), ("format"@, "json"@)];
    let c = param_if_set("categories"@, string_or_setting(request.categories, settings.categories));
    let l = param_if_set("language"@, string_or_setting(request.language, settings.language));
    let t = param_if_set("time_range"@, string_or_setting(request.time_range, settings.time_range));
    let s = if safesearch >= 0 {
        seq![("safesearch"@, i64_decimal(safesearch))]
    } else {
        Seq::empty()
    };
    let p = match request.pageno {
        Some(n) => seq![("pageno"@, i64_decimal(n))],
        None => Seq::empty(),
    };
    assert(search_params(request, settings) =~= head + (c + l + t + s + p));
    assert(values_set(c));
    assert(values_set(l));
    assert(values_set(t));
    if safesearch >= 0 {
        lemma_decimal_nonempty(safesearch as nat);
    }
    assert(values_set(s));
    if let Some(n) = request.pageno {
        if n < 0 {
            assert(i64_decimal(n).len() > 0);
        } else {
            lemma_decimal_nonempty(n as nat);
        }
    }
    assert(values_set(p));
    lemma_values_set_concat(c, l);
    lemma_values_set_concat(c + l, t);
    lemma_values_set_concat(c + l + t, s);
    lemma_values_set_concat(c + l + t + s, p);
    assert((head + (c + l + t + s + p)).skip(2) =~= c + l + t + s + p);
}

proof fn lemma_contains_left<A>(a: Seq<A>, b: Seq<A>, x: A)
    requires
        a.contains(x),
    ensures
        (a + b).contains(x),
{
    let i = choose|i: int| 0 <= i < a.len() && a[i] == x;
    assert((a + b)[i] == x);
}

proof fn lemma_contains_right<A>(a: Seq<A>, b: Seq<A>, x: A)
    requires
        b.contains(x),
    ensures
        (a + b).contains(x),
{
    let i = choose|i: int| 0 <= i < b.len() && b[i] == x;
    assert((a + b)[a.len() + i] == x);
}

proof fn lemma_param_if_set_contains(key: Seq<char>, value: Seq<char>)
    requires
        value.len() > 0,
    ensures
        param_if_set(key, value).contains((key, value)),
{
    assert(param_if_set(key, value)[0] == (key, value));
}

/// A request parameter that the request leaves unset falls back to its
/// setting, one that it sets overrides the setting, and either is sent
/// when its value is not empty (the safesearch level when it is not
/// negative); a page asked for is always sent.
pub proof fn law_search_params_fall_back(request: SearchRequest, settings: SearchSettings)
    ensures
        request.categories is None && settings.categories@.len() > 0 ==> search_params(
            request,
            settings,
        ).contains(("categories"@, settings.categories@)),
        request.categories matches Some(c) ==> (c@.len() > 0 ==> search_params(
            request,
            settings,
        ).contains(("categories"@, c@))),
        request.language is None && settings.language@.len() > 0 ==> search_params(
            request,
            settings,
        ).contains(("language"@, settings.language@)),
        request.language matches Some(l) ==> (l@.len() > 0 ==> search_params(
            request,
            settings,
        ).contains(("language"@, l@))),
        request.time_range is None && settings.time_range@.len() > 0 ==> search_params(
            request,
            settings,
        ).contains(("time_range"@, settings.time_range@)),
        request.time_range matches Some(t) ==> (t@.len() > 0 ==> search_params(
            request,
            settings,
        ).contains(("time_range"@, t@))),
        request.safesearch is None && settings.safesearch >= 0 ==> search_params(
            request,
            settings,
        ).contains(("safesearch"@, i64_decimal(settings.safesearch))),
        request.safesearch matches Some(x) ==> (x >= 0 ==> search_params(request, settings).contains(
            ("safesearch"@, i64_decimal(x)),
        )),
        request.pageno matches Some(p) ==> search_params(request, settings).contains(
            ("pageno"@, i64_decimal(p)),
        ),
{
    let safesearch = i64_or_setting(request.safesearch, settings.safesearch);
    let head = seq![("q"@, request.query@), ("format"@, "json"@)];
    let cv = string_or_setting(request.categories, settings.categories);
    let lv = string_or_setting(request.language, settings.language);
    let tv = string_or_setting(request.time_range, settings.time_range);
    let c = param_if_set("categories"@, cv);
    let l = param_if_set("language"@, lv);
    let t = param_if_set("time_range"@, tv);
    let sp = if safesearch >= 0 {
        seq![("safesearch"@, i64_decimal(safesearch))]
    } else {
        Seq::empty()
    };
    let p = match request.pageno {
        Some(n) => seq![("pageno"@, i64_decimal(n))],
        None => Seq::empty(),
    };
    let all = search_params(request, settings);
    assert(all == head + c + l + t + sp + p);
    if cv.len() > 0 {
        let x = ("categories"@, cv);
        lemma_param_if_set_contains("categories"@, cv);
        lemma_contains_right(head, c, x);
        lemma_contains_left(head + c, l, x);
        lemma_contains_left(head + c + l, t, x);
        lemma_contains_left(head + c + l + t, sp, x);
        lemma_contains_left(head + c + l + t + sp, p, x);
    }
    if lv.len() > 0 {
        let x = ("language"@, lv);
        lemma_param_if_set_contains("language"@, lv);
        lemma_contains_right(head + c, l, x);
        lemma_contains_left(head + c + l, t, x);
        lemma_contains_left(head + c + l + t, sp, x);
        lemma_contains_left(head + c + l + t + sp, p, x);
    }
    if tv.len() > 0 {
        let x = ("time_range"@, tv);
        lemma_param_if_set_contains("time_range"@, tv);
        lemma_contains_right(head + c + l, t, x);
        lemma_contains_left(head + c + l + t, sp, x);
        lemma_contains_left(head + c + l + t + sp, p, x);
    }
    if safesearch >= 0 {
        let x = ("safesearch"@, i64_decimal(safesearch));
        assert(sp[0] == x);
        lemma_contains_right(head + c + l + t, sp, x);
        lemma_contains_left(head + c + l + t + sp, p, x);
    }
    if let Some(n) = request.pageno {
        let x = ("pageno"@, i64_decimal(n));
        assert(p[0] == x);
        lemma_contains_right(head + c + l + t + sp, p, x);
    }
}

/// The number of results to keep is the request's `max_results` when it
/// sets one, else the setting.
pub proof fn law_max_results_fall_back(request: SearchRequest, settings: SearchSettings)
    ensures
        request.max_results is None ==> i64_or_setting(request.max_results, settings.max_results)
            == settings.max_results,
        request.max_results matches Some(m) ==> i64_or_setting(
            request.max_results,
            settings.max_results,
        ) == m,
{
}

proof fn lemma_strip_trailing(s: Seq<char>, c: char)
    ensures
        strip_trailing(s, c).len() <= s.len(),
        strip_trailing(s, c) =~= s.take(strip_trailing(s, c).len() as int),
        strip_trailing(s, c).len() > 0 ==> strip_trailing(s, c).last() != c,
    decreases s.len(),
{
    if s.len() > 0 && s.last() == c {
        lemma_strip_trailing(s.drop_last(), c);
    }
}

/// The base URL is never empty, does not end with a slash and does not
/// start with white space.
pub proof fn law_searxng_url_normalized(configured: Option<Seq<char>>)
    ensures
        searxng_url_of(configured) matches Ok(u) ==> {
            &&& u.len() > 0
            &&& u.last() != '/'
            &&& !crate::text::is_white_space(u[0])
        },
{
    if let Some(u) = configured {
        let t = trim(u);
        lemma_strip_trailing(t, '/');
        crate::text::lemma_trim_edges(u);
        if strip_trailing(t, '/').len() > 0 {
            assert(strip_trailing(t, '/')[0] == t[0]);
        }
    }
}

} // verus!
