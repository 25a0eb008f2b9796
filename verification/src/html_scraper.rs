//! Extraction of HTML elements by CSS selector, through the scraper crate.

use vstd::prelude::*;
use crate::error::{AgentError, ErrorView};
use crate::input::{concat3, not_a_string_message, InputValue};
use crate::text::strings_view;

verus! {

/// scraper's `Selector::parse` on `selector`: `None` when the selector
/// parses, else the parse error's message.
pub uninterp spec fn selector_error(selector: Seq<char>) -> Option<Seq<char>>;

/// The outer HTML of the elements that the (valid) CSS selector `selector`
/// picks in the fragment `html`, in document order, as scraper finds them.
pub uninterp spec fn select_in_fragment(html: Seq<char>, selector: Seq<char>) -> Seq<Seq<char>>;

/// The same in the document `html`.
pub uninterp spec fn select_in_document(html: Seq<char>, selector: Seq<char>) -> Seq<Seq<char>>;

/// scraper `Selector::parse`: the parse error's message, if any.
#[verifier::external_body]
fn check_selector(selector: &str) -> (r: Option<String>)
    ensures
        match (r, selector_error(selector@)) {
            (Some(e), Some(m)) => e@ == m,
            (None, None) => true,
            _ => false,
        },
{
    match scraper::Selector::parse(selector) {
        Ok(_) => None,
        Err(e) => Some(e.to_string()),
    }
}

/// scraper `Html::select` on `Html::parse_fragment(html)`, each element
/// given by `ElementRef::html`.
#[verifier::external_body]
fn fragment_outer_html(html: &str, selector: &str) -> (r: Vec<String>)
    requires
        selector_error(selector@) is None,
    ensures
        strings_view(r@) == select_in_fragment(html@, selector@),
{
    match scraper::Selector::parse(selector) {
        Ok(s) => scraper::Html::parse_fragment(html).select(&s).map(|e| e.html()).collect(),
        Err(_) => Vec::new(),
    }
}

/// scraper `Html::select` on `Html::parse_document(html)`, each element
/// given by `ElementRef::html`.
#[verifier::external_body]
fn document_outer_html(html: &str, selector: &str) -> (r: Vec<String>)
    requires
        selector_error(selector@) is None,
    ensures
        strings_view(r@) == select_in_document(html@, selector@),
{
    match scraper::Selector::parse(selector) {
        Ok(s) => scraper::Html::parse_document(html).select(&s).map(|e| e.html()).collect(),
        Err(_) => Vec::new(),
    }
}

/// The message for an invalid selector, with the parser's reason.
pub open spec fn invalid_selector_message(selector: Seq<char>, reason: Seq<char>) -> Seq<char> {
    "Invalid CSS selector '"@ + selector + "': "@ + reason
}

/// The message for an array item that is not a string.
pub open spec fn scraper_item_message() -> Seq<char> {
    "Input array items for 'html' must be strings"@
}

/// The selections from each fragment of `items`, concatenated, up to the
/// first item that is not a string.
pub open spec fn select_in_items(items: Seq<Option<String>>, selector: Seq<char>) -> Result<
    Seq<Seq<char>>,
    ErrorView,
>
    decreases items.len(),
{
    if items.len() == 0 {
        Ok(Seq::empty())
    } else {
        match select_in_items(items.drop_last(), selector) {
            Err(e) => Err(e),
            Ok(done) => match items.last() {
                None => Err(ErrorView::InvalidValue(scraper_item_message())),
                Some(h) => Ok(done + select_in_fragment(h@, selector)),
            },
        }
    }
}

/// One fragment gives every element the selector picks in it, and an item
/// that is not a string is refused.
pub proof fn law_select_in_one_item(h: String, selector: Seq<char>)
    ensures
        select_in_items(seq![Some(h)], selector) == Ok::<Seq<Seq<char>>, ErrorView>(
            select_in_fragment(h@, selector),
        ),
        select_in_items(seq![None::<String>], selector) == Err::<Seq<Seq<char>>, ErrorView>(
            ErrorView::InvalidValue(scraper_item_message()),
        ),
{
    let empty = Seq::<Option<String>>::empty();
    assert(select_in_items(empty, selector) == Ok::<Seq<Seq<char>>, ErrorView>(Seq::empty()));
    assert(seq![Some(h)].drop_last() =~= empty);
    assert(seq![Some(h)].last() == Some(h));
    assert(seq![None::<String>].drop_last() =~= empty);
    assert(seq![None::<String>].last() == None::<String>);
    assert(Seq::<Seq<char>>::empty() + select_in_fragment(h@, selector) =~= select_in_fragment(
        h@,
        selector,
    ));
}

/// The selection from two lists of items one after the other is the
/// selection from the first followed by the selection from the second; the
/// first refusal, if any, is the answer.
pub proof fn law_select_in_items_concat(
    a: Seq<Option<String>>,
    b: Seq<Option<String>>,
    selector: Seq<char>,
)
    ensures
        select_in_items(a + b, selector) == match select_in_items(a, selector) {
            Err(e) => Err(e),
            Ok(x) => match select_in_items(b, selector) {
                Err(e) => Err(e),
                Ok(y) => Ok::<Seq<Seq<char>>, ErrorView>(x + y),
            },
        },
    decreases b.len(),
{
    if b.len() == 0 {
        assert(a + b =~= a);
        if let Ok(x) = select_in_items(a, selector) {
            assert(x + Seq::<Seq<char>>::empty() =~= x);
        }
    } else {
        assert((a + b).drop_last() =~= a + b.drop_last());
        assert((a + b).last() == b.last());
        law_select_in_items_concat(a, b.drop_last(), selector);
        if let Ok(x) = select_in_items(a, selector) {
            if let Ok(y) = select_in_items(b.drop_last(), selector) {
                if let Some(h) = b.last() {
                    assert(x + y + select_in_fragment(h@, selector) =~= x + (y + select_in_fragment(
                        h@,
                        selector,
                    )));
                }
            }
        }
    }
}

/// What the agent outputs for `input` with the selector setting
/// `selector`: nothing for an empty selector; the selected elements from
/// each fragment of an array, concatenated, or from the document of a
/// string. An invalid selector, an array item that is not a string, or an
/// input that is neither is refused.
pub open spec fn scrape_result(selector: Seq<char>, input: InputValue) -> Result<
    Option<Seq<Seq<char>>>,
    ErrorView,
> {
    if selector.len() == 0 {
        Ok(None)
    } else {
        match selector_error(selector) {
            Some(reason) => Err(ErrorView::InvalidValue(invalid_selector_message(selector, reason))),
            None => match input {
                InputValue::List(items) => match select_in_items(items@, selector) {
                    Ok(v) => Ok(Some(v)),
                    Err(e) => Err(e),
                },
                InputValue::Text(h) => Ok(Some(select_in_document(h@, selector))),
                InputValue::Other => Err(ErrorView::InvalidValue(not_a_string_message("html"@))),
            },
        }
    }
}

pub open spec fn scrape_view(r: Result<Option<Vec<String>>, AgentError>) -> Result<
    Option<Seq<Seq<char>>>,
    ErrorView,
> {
    match r {
        Ok(Some(v)) => Ok(Some(strings_view(v@))),
        Ok(None) => Ok(None),
        Err(e) => Err(e@),
    }
}

/// Selects elements by the CSS selector `selector` (see [`scrape_result`]).
#[verifier::loop_isolation(false)]
pub fn scrape(selector: &str, input: &InputValue) -> (r: Result<Option<Vec<String>>, AgentError>)
    ensures
        scrape_view(r) == scrape_result(selector@, *input),
{
    proof {
        reveal_strlit("Invalid CSS selector '");
        reveal_strlit("': ");
        reveal_strlit("Input array items for 'html' must be strings");
        reveal_strlit("Input value for '");
        reveal_strlit("' must be a string");
        reveal_strlit("html");
    }
    if selector.is_empty() {
        return Ok(None);
    }
    match check_selector(selector) {
        Some(reason) => {
            let mut message = concat3("Invalid CSS selector '", selector, "': ");
            message.append(reason.as_str());
            return Err(AgentError::InvalidValue(message));
        },
        None => {},
    }
    match input {
        InputValue::List(items) => {
            let mut selected: Vec<String> = Vec::new();
            let mut i: usize = 0;
            assert(items@.take(0) =~= Seq::<Option<String>>::empty());
            assert(strings_view(selected@) =~= Seq::<Seq<char>>::empty());
            while i < items.len()
                invariant
                    i <= items.len(),
                    select_in_items(items@.take(i as int), selector@) == Ok::<
                        Seq<Seq<char>>,
                        ErrorView,
                    >(strings_view(selected@)),
                decreases items.len() - i,
            {
                assert(items@.take(i + 1).drop_last() =~= items@.take(i as int));
                assert(items@.take(i + 1).last() == items@[i as int]);
                match &items[i] {
                    None => {
                        proof {
                            lemma_select_in_items_prefix_error(items@, i as int + 1, selector@);
                        }
                        return Err(
                            AgentError::InvalidValue(
                                String::from_str("Input array items for 'html' must be strings"),
                            ),
                        );
                    },
                    Some(html) => {
                        let ghost before = strings_view(selected@);
                        let mut found = fragment_outer_html(html.as_str(), selector);
                        let ghost added = strings_view(found@);
                        selected.append(&mut found);
                        assert(strings_view(selected@) =~= before + added);
                    },
                }
                i = i + 1;
            }
            assert(items@.take(items.len() as int) =~= items@);
            Ok(Some(selected))
        },
        InputValue::Text(html) => Ok(Some(document_outer_html(html.as_str(), selector))),
        InputValue::Other => Err(
            AgentError::InvalidValue(concat3("Input value for '", "html", "' must be a string")),
        ),
    }
}

/// Once a prefix of the items fails, every longer prefix fails the same way.
proof fn lemma_select_in_items_prefix_error(items: Seq<Option<String>>, k: int, selector: Seq<char>)
    requires
        0 <= k <= items.len(),
        select_in_items(items.take(k), selector) is Err,
    ensures
        select_in_items(items, selector) == select_in_items(items.take(k), selector),
    decreases items.len() - k,
{
    if k < items.len() {
        assert(items.take(k + 1).drop_last() =~= items.take(k));
        lemma_select_in_items_prefix_error(items, k + 1, selector);
    } else {
        assert(items.take(k) =~= items);
    }
}

} // verus!
