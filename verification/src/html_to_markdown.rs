//! HTML to Markdown conversion, through the html-to-markdown-rs crate with
//! aggressive preprocessing (navigation and forms removed).

use vstd::prelude::*;
use crate::error::{AgentError, ErrorView};
use crate::input::{not_a_string_message, InputValue};

verus! {

/// How much non-content the converter strips before converting.
#[derive(Clone, Copy, PartialEq, Eq, Structural, Debug)]
pub enum CleanupPreset {
    Minimal,
    Standard,
    Aggressive,
}

/// What html-to-markdown-rs `convert` makes of a page with the given
/// preprocessing options: the converted text (the result's `content`), or
/// the conversion error's message.
pub uninterp spec fn converted_markdown(
    html: Seq<char>,
    preprocessing: bool,
    preset: CleanupPreset,
    remove_navigation: bool,
    remove_forms: bool,
) -> Result<Option<Seq<char>>, Seq<char>>;

/// html-to-markdown-rs `convert`, with the default options but for the
/// preprocessing ones given here. Its result is a function of the page and
/// the options.
#[verifier::external_body]
fn convert_html(
    html: &str,
    preprocessing: bool,
    preset: CleanupPreset,
    remove_navigation: bool,
    remove_forms: bool,
) -> (r: Result<Option<String>, String>)
    ensures
        match (r, converted_markdown(html@, preprocessing, preset, remove_navigation, remove_forms)) {
            (Ok(Some(s)), Ok(Some(t))) => s@ == t,
            (Ok(None), Ok(None)) => true,
            (Err(e), Err(t)) => e@ == t,
            _ => false,
        },
{
    let mut options = html_to_markdown_rs::ConversionOptions::default();
    options.preprocessing.enabled = preprocessing;
    options.preprocessing.preset = match preset {
        CleanupPreset::Minimal => html_to_markdown_rs::PreprocessingPreset::Minimal,
        CleanupPreset::Standard => html_to_markdown_rs::PreprocessingPreset::Standard,
        CleanupPreset::Aggressive => html_to_markdown_rs::PreprocessingPreset::Aggressive,
    };
    options.preprocessing.remove_navigation = remove_navigation;
    options.preprocessing.remove_forms = remove_forms;
    match html_to_markdown_rs::convert(html, Some(options)) {
        Ok(result) => Ok(result.content),
        Err(e) => Err(e.to_string()),
    }
}

/// The Markdown of a page: converted with aggressive preprocessing that
/// removes navigation and forms; a conversion without text is empty.
pub open spec fn markdown_of(html: Seq<char>) -> Result<Seq<char>, ErrorView> {
    match converted_markdown(html, true, CleanupPreset::Aggressive, true, true) {
        Ok(Some(s)) => Ok(s),
        Ok(None) => Ok(Seq::empty()),
        Err(m) => Err(ErrorView::InvalidValue("Failed to convert HTML to Markdown: "@ + m)),
    }
}

/// A page's Markdown is what the converter makes of it with preprocessing
/// on, the aggressive cleanup preset, and navigation and forms removed,
/// whatever the page: it succeeds exactly when that conversion does, with
/// the converted text (empty when there is none), and otherwise reports the
/// converter's message.
pub proof fn law_markdown_drops_navigation_and_forms(html: Seq<char>)
    ensures
        markdown_of(html) is Ok <==> converted_markdown(
            html,
            true,
            CleanupPreset::Aggressive,
            true,
            true,
        ) is Ok,
        converted_markdown(html, true, CleanupPreset::Aggressive, true, true) matches Ok(text) ==> (
        markdown_of(html) matches Ok(md) && md == match text {
            Some(t) => t,
            None => Seq::<char>::empty(),
        }),
        converted_markdown(html, true, CleanupPreset::Aggressive, true, true) matches Err(m) ==> (
        markdown_of(html) matches Err(e) && e == ErrorView::InvalidValue(
            "Failed to convert HTML to Markdown: "@ + m,
        )),
{
}

pub open spec fn markdown_result_view(r: Result<String, AgentError>) -> Result<Seq<char>, ErrorView> {
    match r {
        Ok(s) => Ok(s@),
        Err(e) => Err(e@),
    }
}

/// Converts a page to Markdown (see [`markdown_of`]).
pub fn html2markdown(html: &str) -> (r: Result<String, AgentError>)
    ensures
        markdown_result_view(r) == markdown_of(html@),
{
    match convert_html(html, true, CleanupPreset::Aggressive, true, true) {
        Ok(Some(markdown)) => Ok(markdown),
        Ok(None) => Ok(String::new()),
        Err(m) => {
            let mut message = String::from_str("Failed to convert HTML to Markdown: ");
            message.append(m.as_str());
            Err(AgentError::InvalidValue(message))
        },
    }
}

/// The output of the agent: one document for a string input, a list for an
/// array input.
#[derive(Debug)]
pub enum MarkdownOutput {
    Single(String),
    Many(Vec<String>),
}

/// The message for an array item that is not a string.
pub open spec fn item_not_a_string_message() -> Seq<char> {
    "Input array items for 'html' must be strings"@
}

/// The conversions of `items`, in order, up to the first failure.
pub open spec fn markdown_items(items: Seq<Option<String>>) -> Result<Seq<Seq<char>>, ErrorView>
    decreases items.len(),
{
    if items.len() == 0 {
        Ok(Seq::empty())
    } else {
        match markdown_items(items.drop_last()) {
            Err(e) => Err(e),
            Ok(done) => match items.last() {
                None => Err(ErrorView::InvalidValue(item_not_a_string_message())),
                Some(h) => match markdown_of(h@) {
                    Ok(m) => Ok(done.push(m)),
                    Err(e) => Err(e),
                },
            },
        }
    }
}

pub open spec fn strings_of(v: Seq<String>) -> Seq<Seq<char>> {
    v.map_values(|s: String| s@)
}

/// Converts the agent's input: each page of an array, or the one page of a
/// string. The first item that is not a string, or the first failed
/// conversion, ends the conversion with its error.
#[verifier::loop_isolation(false)]
pub fn markdown_output(input: &InputValue) -> (r: Result<MarkdownOutput, AgentError>)
    ensures
        match *input {
            InputValue::Text(h) => match markdown_of(h@) {
                Ok(m) => r matches Ok(MarkdownOutput::Single(s)) && s@ == m,
                Err(e) => r matches Err(x) && x@ == e,
            },
            InputValue::List(items) => match markdown_items(items@) {
                Ok(ms) => r matches Ok(MarkdownOutput::Many(v)) && strings_of(v@) == ms,
                Err(e) => r matches Err(x) && x@ == e,
            },
            InputValue::Other => r matches Err(x) && x@ == ErrorView::InvalidValue(
                not_a_string_message("html"@),
            ),
        },
{
    proof {
        reveal_strlit("Input array items for 'html' must be strings");
        reveal_strlit("Input value for '");
        reveal_strlit("' must be a string");
        reveal_strlit("html");
    }
    match input {
        InputValue::List(items) => {
            let mut out: Vec<String> = Vec::new();
            let mut i: usize = 0;
            assert(items@.take(0) =~= Seq::<Option<String>>::empty());
            assert(strings_of(out@) =~= Seq::<Seq<char>>::empty());
            while i < items.len()
                invariant
                    i <= items.len(),
                    markdown_items(items@.take(i as int)) == Ok::<Seq<Seq<char>>, ErrorView>(
                        strings_of(out@),
                    ),
                decreases items.len() - i,
            {
                assert(items@.take(i + 1).drop_last() =~= items@.take(i as int));
                assert(items@.take(i + 1).last() == items@[i as int]);
                match &items[i] {
                    None => {
                        proof {
                            lemma_markdown_items_prefix_error(items@, i as int + 1);
                        }
                        return Err(
                            AgentError::InvalidValue(
                                String::from_str("Input array items for 'html' must be strings"),
                            ),
                        );
                    },
                    Some(h) => match html2markdown(h.as_str()) {
                        Ok(m) => {
                            let ghost before = out@;
                            out.push(m);
                            assert(strings_of(out@) =~= strings_of(before).push(out@.last()@));
                        },
                        Err(e) => {
                            proof {
                                lemma_markdown_items_prefix_error(items@, i as int + 1);
                            }
                            return Err(e);
                        },
                    },
                }
                i = i + 1;
            }
            assert(items@.take(items.len() as int) =~= items@);
            Ok(MarkdownOutput::Many(out))
        },
        InputValue::Text(h) => match html2markdown(h.as_str()) {
            Ok(m) => Ok(MarkdownOutput::Single(m)),
            Err(e) => Err(e),
        },
        InputValue::Other => Err(
            AgentError::InvalidValue(crate::input::concat3("Input value for '", "html", "' must be a string")),
        ),
    }
}

/// Once a prefix of the items fails, every longer prefix fails the same way.
proof fn lemma_markdown_items_prefix_error(items: Seq<Option<String>>, k: int)
    requires
        0 <= k <= items.len(),
        markdown_items(items.take(k)) is Err,
    ensures
        markdown_items(items) == markdown_items(items.take(k)),
    decreases items.len() - k,
{
    if k < items.len() {
        let longer = items.take(k + 1);
        assert(longer.drop_last() =~= items.take(k));
        lemma_markdown_items_prefix_error(items, k + 1);
    } else {
        assert(items.take(k) =~= items);
    }
}

} // verus!
