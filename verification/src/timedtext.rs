//! Timedtext caption documents: the srv3 format (`<p t="ms" d="ms">`, with
//! the words of auto-generated tracks in nested `<s>` elements) and the
//! legacy one (`<text start="s" dur="s">`, with entities escaped twice).
//!
//! A document is read as quick-xml events; each event yields at most one
//! [`TimedTextToken`] ([`event_token`]), and the snippets are assembled from
//! those tokens by a small state machine whose every step is specified by
//! [`step`]. What a whole document gives is [`timedtext_snippets`].

use vstd::prelude::*;
use crate::entity::{predefined_entity, unescape, unescape_lenient};
use crate::error::{AgentError, ErrorView};
use crate::number::{is_float_literal, is_float_literal_chars};
use crate::text::{chars_of, is_blank, is_blank_str, string_from_chars, trim, trim_bounds};
use crate::xml::{
    kind_of, last_is_tag, last_tag, tag_attribute, unescaped_attribute_value, xml_attribute_value,
    xml_content, xml_end_name, xml_event, xml_next, xml_reference, xml_stream, xml_tag_attribute,
    xml_tag_name, XmlEventView, XmlKind, XmlStream,
};

verus! {

/// The unit a time attribute is written in.
#[derive(Clone, Copy, PartialEq, Eq, Structural, Debug)]
pub enum TimeUnit {
    /// Legacy documents: `start` and `dur` in seconds.
    Seconds,
    /// srv3 documents: `t` and `d` in milliseconds.
    Milliseconds,
}

/// A time as the document writes it: a literal that `str::parse::<f64>`
/// accepts, and its unit. In seconds it is the literal's value, divided by
/// 1000 for milliseconds.
#[derive(Debug)]
pub struct TimeValue {
    pub literal: String,
    pub unit: TimeUnit,
}

pub struct TimeValueView {
    pub literal: Seq<char>,
    pub unit: TimeUnit,
}

impl View for TimeValue {
    type V = TimeValueView;

    open spec fn view(&self) -> TimeValueView {
        TimeValueView { literal: self.literal@, unit: self.unit }
    }
}

/// One timed segment of a transcript.
#[derive(Debug)]
pub struct TranscriptSnippet {
    pub text: String,
    /// Time from the start of the video.
    pub start: TimeValue,
    /// How long the snippet stays on screen; `None` is zero.
    pub duration: Option<TimeValue>,
}

pub struct SnippetView {
    pub text: Seq<char>,
    pub start: TimeValueView,
    pub duration: Option<TimeValueView>,
}

pub open spec fn option_time_view(t: Option<TimeValue>) -> Option<TimeValueView> {
    match t {
        Some(v) => Some(v@),
        None => None,
    }
}

impl View for TranscriptSnippet {
    type V = SnippetView;

    open spec fn view(&self) -> SnippetView {
        SnippetView {
            text: self.text@,
            start: self.start@,
            duration: option_time_view(self.duration),
        }
    }
}

pub open spec fn snippets_view(v: Seq<TranscriptSnippet>) -> Seq<SnippetView> {
    v.map_values(|s: TranscriptSnippet| s@)
}

/// What the snippet assembly reads of a timedtext document.
#[derive(Debug)]
pub enum TimedTextToken {
    /// The start of a `<p>` (srv3) or `<text>` (legacy) element, with the raw
    /// values of its start and duration attributes.
    Cue { legacy: bool, start: Option<String>, duration: Option<String> },
    /// The end of a `<p>` or `<text>` element.
    CueEnd,
    /// Decoded character data.
    Text(String),
    /// A general reference `&name;`, with the character it resolves to when
    /// it is a valid character reference.
    Reference { name: String, char_ref: Option<char> },
    /// The end of the document.
    Eof,
}

pub enum TokenView {
    Cue { legacy: bool, start: Option<Seq<char>>, duration: Option<Seq<char>> },
    CueEnd,
    Text(Seq<char>),
    Reference { name: Seq<char>, char_ref: Option<char> },
    Eof,
}

pub open spec fn option_string_view(s: Option<String>) -> Option<Seq<char>> {
    match s {
        Some(v) => Some(v@),
        None => None,
    }
}

impl View for TimedTextToken {
    type V = TokenView;

    open spec fn view(&self) -> TokenView {
        match self {
            TimedTextToken::Cue { legacy, start, duration } => TokenView::Cue {
                legacy: *legacy,
                start: option_string_view(*start),
                duration: option_string_view(*duration),
            },
            TimedTextToken::CueEnd => TokenView::CueEnd,
            TimedTextToken::Text(t) => TokenView::Text(t@),
            TimedTextToken::Reference { name, char_ref } => TokenView::Reference {
                name: name@,
                char_ref: *char_ref,
            },
            TimedTextToken::Eof => TokenView::Eof,
        }
    }
}

pub open spec fn tokens_view(v: Seq<TimedTextToken>) -> Seq<TokenView> {
    v.map_values(|t: TimedTextToken| t@)
}

/// The state of the assembly: the snippets kept so far, and the snippet
/// being built with whether it comes from a legacy element.
pub struct AssemblyView {
    pub snippets: Seq<SnippetView>,
    pub open: Option<(SnippetView, bool)>,
}

/// A time attribute's raw value read in `unit`: its trimmed text, when that
/// is a number.
pub open spec fn time_value(raw: Option<Seq<char>>, unit: TimeUnit) -> Option<TimeValueView> {
    match raw {
        Some(r) => if is_float_literal(trim(r)) {
            Some(TimeValueView { literal: trim(r), unit })
        } else {
            None
        },
        None => None,
    }
}

/// Closes the snippet being built: legacy text is unescaped once more, and
/// the snippet is kept unless its text is blank.
pub open spec fn flush(a: AssemblyView) -> AssemblyView {
    match a.open {
        None => a,
        Some((snippet, legacy)) => {
            let text = if legacy {
                unescape(snippet.text)
            } else {
                snippet.text
            };
            AssemblyView {
                snippets: if is_blank(text) {
                    a.snippets
                } else {
                    a.snippets.push(SnippetView { text, ..snippet })
                },
                open: None,
            }
        },
    }
}

/// Adds `t` to the text of the snippet being built, if there is one.
pub open spec fn append_text(a: AssemblyView, t: Seq<char>) -> AssemblyView {
    match a.open {
        Some((snippet, legacy)) => AssemblyView {
            open: Some((SnippetView { text: snippet.text + t, ..snippet }, legacy)),
            ..a
        },
        None => a,
    }
}

/// The text a general reference contributes: its character, else the
/// predefined entity it names, else the reference verbatim.
pub open spec fn reference_text(name: Seq<char>, char_ref: Option<char>) -> Seq<char> {
    match char_ref {
        Some(c) => seq![c],
        None => match predefined_entity(name) {
            Some(v) => v,
            None => seq!['&'] + name + seq![';'],
        },
    }
}

/// The unit of a cue's times: seconds in legacy documents, milliseconds in
/// srv3 ones.
pub open spec fn cue_unit(legacy: bool) -> TimeUnit {
    if legacy {
        TimeUnit::Seconds
    } else {
        TimeUnit::Milliseconds
    }
}

/// One step of the assembly. A cue whose start does not parse as a number is
/// not caption data and changes nothing; another cue closes the snippet
/// being built and opens a new one.
pub open spec fn step(a: AssemblyView, token: TokenView) -> AssemblyView {
    match token {
        TokenView::Cue { legacy, start, duration } => {
            let unit = cue_unit(legacy);
            match time_value(start, unit) {
                None => a,
                Some(st) => AssemblyView {
                    open: Some(
                        (
                            SnippetView {
                                text: Seq::empty(),
                                start: st,
                                duration: time_value(duration, unit),
                            },
                            legacy,
                        ),
                    ),
                    ..flush(a)
                },
            }
        },
        TokenView::CueEnd => flush(a),
        TokenView::Text(t) => append_text(a, t),
        TokenView::Reference { name, char_ref } => append_text(a, reference_text(name, char_ref)),
        TokenView::Eof => flush(a),
    }
}

pub open spec fn initial_assembly() -> AssemblyView {
    AssemblyView { snippets: Seq::empty(), open: None }
}

/// The state after the tokens `tokens`.
pub open spec fn run(tokens: Seq<TokenView>) -> AssemblyView
    decreases tokens.len(),
{
    if tokens.len() == 0 {
        initial_assembly()
    } else {
        step(run(tokens.drop_last()), tokens.last())
    }
}

/// The snippets of a document that reads as `tokens`.
pub open spec fn assemble(tokens: Seq<TokenView>) -> Seq<SnippetView> {
    flush(run(tokens)).snippets
}

/// A snippet as a document can yield it: its text is not blank and its start
/// is a number.
pub open spec fn snippet_well_formed(s: SnippetView) -> bool {
    &&& !is_blank(s.text)
    &&& is_float_literal(s.start.literal)
    &&& match s.duration {
        Some(d) => is_float_literal(d.literal) && d.unit == s.start.unit,
        None => true,
    }
}

pub open spec fn open_well_formed(a: AssemblyView) -> bool {
    &&& forall|i: int| 0 <= i < a.snippets.len() ==> snippet_well_formed(#[trigger] a.snippets[i])
    &&& match a.open {
        Some((s, legacy)) => {
            &&& is_float_literal(s.start.literal)
            &&& s.start.unit == cue_unit(legacy)
            &&& match s.duration {
                Some(d) => is_float_literal(d.literal) && d.unit == s.start.unit,
                None => true,
            }
        },
        None => true,
    }
}

proof fn lemma_flush_well_formed(a: AssemblyView)
    requires
        open_well_formed(a),
    ensures
        open_well_formed(flush(a)),
        flush(a).open is None,
{
}

proof fn lemma_run_well_formed(tokens: Seq<TokenView>)
    ensures
        open_well_formed(run(tokens)),
    decreases tokens.len(),
{
    if tokens.len() > 0 {
        lemma_run_well_formed(tokens.drop_last());
        lemma_flush_well_formed(run(tokens.drop_last()));
    }
}

/// Every snippet that the assembly yields has non-blank text and a start
/// time that parses as a number, whatever the document.
pub proof fn law_assembled_snippets_well_formed(tokens: Seq<TokenView>)
    ensures
        forall|i: int|
            0 <= i < assemble(tokens).len() ==> snippet_well_formed(#[trigger] assemble(tokens)[i]),
{
    lemma_run_well_formed(tokens);
    lemma_flush_well_formed(run(tokens));
}

/// A cue's text is unescaped once more in a legacy document, which escapes
/// entities twice, and kept as decoded in an srv3 one; the snippet is kept
/// unless that text is blank.
pub proof fn law_cue_text_by_format(
    legacy: bool,
    start: Seq<char>,
    duration: Option<Seq<char>>,
    text: Seq<char>,
)
    requires
        time_value(Some(start), cue_unit(legacy)) is Some,
    ensures
        ({
            let tokens = seq![
                TokenView::Cue { legacy, start: Some(start), duration },
                TokenView::Text(text),
                TokenView::Eof,
            ];
            let shown = if legacy {
                unescape(text)
            } else {
                text
            };
            let snippet = SnippetView {
                text: shown,
                start: time_value(Some(start), cue_unit(legacy)).unwrap(),
                duration: time_value(duration, cue_unit(legacy)),
            };
            assemble(tokens) == if is_blank(shown) {
                Seq::<SnippetView>::empty()
            } else {
                seq![snippet]
            }
        }),
{
    let tokens = seq![
        TokenView::Cue { legacy, start: Some(start), duration },
        TokenView::Text(text),
        TokenView::Eof,
    ];
    assert(tokens.drop_last().drop_last().drop_last() =~= Seq::<TokenView>::empty());
    assert(tokens.drop_last().drop_last().last() == TokenView::Cue { legacy, start: Some(start), duration });
    assert(tokens.drop_last().last() == TokenView::Text(text));
    assert(Seq::<char>::empty() + text =~= text);
    reveal_with_fuel(run, 4);
}

/// The time in `raw`, trimmed, when it is a number.
pub fn parse_time_value(raw: &Option<String>, unit: TimeUnit) -> (r: Option<TimeValue>)
    ensures
        option_time_view(r) == time_value(option_string_view(*raw), unit),
{
    match raw {
        None => None,
        Some(text) => {
            let cs = chars_of(text.as_str());
            let (a, b) = trim_bounds(&cs, 0, cs.len());
            assert(cs@.subrange(0, cs@.len() as int) =~= cs@);
            if is_float_literal_chars(&cs, a, b) {
                Some(TimeValue { literal: string_from_chars(&cs, a, b), unit })
            } else {
                None
            }
        },
    }
}

struct OpenCue {
    snippet: TranscriptSnippet,
    legacy: bool,
}

/// The snippet assembly state machine.
pub struct TimedTextAssembler {
    snippets: Vec<TranscriptSnippet>,
    open: Option<OpenCue>,
}

impl View for TimedTextAssembler {
    type V = AssemblyView;

    closed spec fn view(&self) -> AssemblyView {
        AssemblyView {
            snippets: snippets_view(self.snippets@),
            open: match self.open {
                Some(o) => Some((o.snippet@, o.legacy)),
                None => None,
            },
        }
    }
}

impl TimedTextAssembler {
    pub fn new() -> (a: Self)
        ensures
            a@ == initial_assembly(),
    {
        let a = TimedTextAssembler { snippets: Vec::new(), open: None };
        assert(a@.snippets =~= Seq::<SnippetView>::empty());
        a
    }

    /// Whether a snippet is being built.
    pub fn is_open(&self) -> (b: bool)
        ensures
            b == (self@.open is Some),
    {
        self.open.is_some()
    }

    fn flush(&mut self)
        ensures
            final(self)@ == flush(old(self)@),
    {
        let open = self.open.take();
        match open {
            None => {},
            Some(cue) => {
                let OpenCue { snippet, legacy } = cue;
                let TranscriptSnippet { text, start, duration } = snippet;
                let text = if legacy {
                    unescape_lenient(text.as_str())
                } else {
                    text
                };
                if !is_blank_str(text.as_str()) {
                    let ghost before = self.snippets@;
                    self.snippets.push(TranscriptSnippet { text, start, duration });
                    assert(snippets_view(self.snippets@) =~= snippets_view(before).push(
                        self.snippets@.last()@,
                    ));
                }
            },
        }
    }

    fn append(&mut self, t: &str)
        ensures
            final(self)@ == append_text(old(self)@, t@),
    {
        match &mut self.open {
            Some(cue) => {
                cue.snippet.text.append(t);
            },
            None => {},
        }
    }

    /// Feeds one token to the assembly.
    pub fn push(&mut self, token: TimedTextToken)
        ensures
            final(self)@ == step(old(self)@, token@),
    {
        match token {
            TimedTextToken::Cue { legacy, start, duration } => {
                let unit = if legacy {
                    TimeUnit::Seconds
                } else {
                    TimeUnit::Milliseconds
                };
                match parse_time_value(&start, unit) {
                    None => {},
                    Some(st) => {
                        let dur = parse_time_value(&duration, unit);
                        self.flush();
                        let snippet = TranscriptSnippet { text: String::new(), start: st, duration: dur };
                        self.open = Some(OpenCue { snippet, legacy });
                    },
                }
            },
            TimedTextToken::CueEnd => self.flush(),
            TimedTextToken::Text(t) => self.append(t.as_str()),
            TimedTextToken::Reference { name, char_ref } => {
                if self.open.is_some() {
                    let t = reference_text_string(&name, char_ref);
                    self.append(t.as_str());
                }
            },
            TimedTextToken::Eof => self.flush(),
        }
    }

    /// The snippets, once the snippet being built is closed.
    pub fn finish(self) -> (v: Vec<TranscriptSnippet>)
        ensures
            snippets_view(v@) == flush(self@).snippets,
    {
        let mut me = self;
        me.flush();
        me.snippets
    }
}

/// The text of the general reference `&name;` (see [`reference_text`]).
pub fn reference_text_string(name: &String, char_ref: Option<char>) -> (t: String)
    ensures
        t@ == reference_text(name@, char_ref),
{
    match char_ref {
        Some(c) => {
            let mut t = String::new();
            t.push(c);
            assert(t@ =~= seq![c]);
            t
        },
        None => match quick_xml::escape::resolve_predefined_entity(name.as_str()) {
            Some(v) => String::from_str(v),
            None => {
                let mut t = String::new();
                t.push('&');
                t.append(name.as_str());
                t.push(';');
                assert(t@ =~= seq!['&'] + name@ + seq![';']);
                t
            },
        },
    }
}

/// The snippets of a document that reads as `tokens`.
pub fn assemble_timedtext(tokens: Vec<TimedTextToken>) -> (v: Vec<TranscriptSnippet>)
    ensures
        snippets_view(v@) == assemble(tokens_view(tokens@)),
{
    let mut assembly = TimedTextAssembler::new();
    let n = tokens.len();
    let mut rest = tokens;
    let ghost all = tokens_view(rest@);
    
    proof {
        assert(tokens_view(rest@).take(0) =~= Seq::<TokenView>::empty());
    }
    let mut i: usize = 0;
    while i < n
        invariant
            i <= n,
            all.len() == n,
            assembly@ == run(all.take(i as int)),
            rest@.len() == n - i,
            forall|k: int| 0 <= k < rest@.len() ==> rest@[k]@ == #[trigger] all[i + k],
        decreases n - i,
    {
        let ghost before = rest@;
        assert(before[0]@ == all[i + 0]);
        let token = rest.remove(0);
        assert(token@ == all[i as int]);
        assert forall|k: int| 0 <= k < rest@.len() implies rest@[k]@ == all[i + 1 + k] by {
            assert(rest@[k] == before[k + 1]);
            assert(before[k + 1]@ == all[i + (k + 1)]);
        }
        assert(all.take(i + 1).drop_last() =~= all.take(i as int));
        assembly.push(token);
        i = i + 1;
    }
    assert(all.take(n as int) =~= all);
    assembly.finish()
}

/// An `IoError` whose message is `prefix` followed by `detail`.
pub fn io_error(prefix: &str, detail: &str) -> (e: AgentError)
    ensures
        e@ == ErrorView::IoError(prefix@ + detail@),
{
    let mut m = String::from_str(prefix);
    m.append(detail);
    AgentError::IoError(m)
}

/// Whether an element named `name` is a cue, and then whether it is a
/// legacy one: `p` is an srv3 cue, `text` a legacy cue.
pub open spec fn cue_kind(name: Seq<u8>) -> Option<bool> {
    if name == seq![0x70u8] {
        Some(false)
    } else if name == seq![0x74u8, 0x65u8, 0x78u8, 0x74u8] {
        Some(true)
    } else {
        None
    }
}

/// [`cue_kind`] of an element name.
fn cue_kind_of(name: &Vec<u8>) -> (r: Option<bool>)
    ensures
        r == cue_kind(name@),
{
    if name.len() == 1 && name[0] == 0x70u8 {
        assert(name@ =~= seq![0x70u8]);
        Some(false)
    } else if name.len() == 4 && name[0] == 0x74u8 && name[1] == 0x65u8 && name[2] == 0x78u8
        && name[3] == 0x74u8 {
        assert(name@ =~= seq![0x74u8, 0x65u8, 0x78u8, 0x74u8]);
        Some(true)
    } else {
        assert(name@ != seq![0x70u8]);
        assert(name@ != seq![0x74u8, 0x65u8, 0x78u8, 0x74u8]);
        None
    }
}

/// The attribute holding a cue's start: `t` in srv3, `start` in legacy.
pub open spec fn start_attribute(legacy: bool) -> Seq<char> {
    if legacy {
        "start"@
    } else {
        "t"@
    }
}

/// The attribute holding a cue's duration: `d` in srv3, `dur` in legacy.
pub open spec fn duration_attribute(legacy: bool) -> Seq<char> {
    if legacy {
        "dur"@
    } else {
        "d"@
    }
}

/// What reading the attribute `name` of a cue element gives, from what the
/// lookup in its tag found: the attribute's value with its entities
/// resolved, nothing when the element has no such attribute, or an
/// `IoError` when the attribute list or the value is malformed.
pub open spec fn time_attribute_of(found: Result<Option<Seq<u8>>, Seq<char>>) -> Result<
    Option<Seq<char>>,
    ErrorView,
> {
    match found {
        Err(m) => Err(ErrorView::IoError("Timedtext attribute error: "@ + m)),
        Ok(None) => Ok(None),
        Ok(Some(raw)) => match unescaped_attribute_value(raw) {
            Ok(v) => Ok(Some(v)),
            Err(m) => Err(ErrorView::IoError("Timedtext attribute error: "@ + m)),
        },
    }
}

/// The token of a start or empty-element tag: for a cue, its kind and the
/// raw values of its start and duration attributes (the start read first).
pub open spec fn tag_token(name: Seq<u8>, content: Seq<u8>, name_len: usize) -> Result<
    Option<TokenView>,
    ErrorView,
> {
    match cue_kind(name) {
        None => Ok(None),
        Some(legacy) => match time_attribute_of(
            tag_attribute(content, name_len, start_attribute(legacy)),
        ) {
            Err(e) => Err(e),
            Ok(start) => match time_attribute_of(
                tag_attribute(content, name_len, duration_attribute(legacy)),
            ) {
                Err(e) => Err(e),
                Ok(duration) => Ok(Some(TokenView::Cue { legacy, start, duration })),
            },
        },
    }
}

/// The token of character data or a CDATA section: its decoded text while a
/// snippet is being built, nothing otherwise.
pub open spec fn content_token(open: bool, content: Result<Seq<char>, Seq<char>>) -> Result<
    Option<TokenView>,
    ErrorView,
> {
    if !open {
        Ok(None)
    } else {
        match content {
            Ok(t) => Ok(Some(TokenView::Text(t))),
            Err(m) => Err(ErrorView::IoError("Timedtext decode error: "@ + m)),
        }
    }
}

/// The token of a general reference while a snippet is being built: its
/// name, and its character when it is a valid character reference.
pub open spec fn reference_token(
    open: bool,
    name: Result<Seq<char>, Seq<char>>,
    char_ref: Result<Option<char>, Seq<char>>,
) -> Result<Option<TokenView>, ErrorView> {
    if !open {
        Ok(None)
    } else {
        match name {
            Err(m) => Err(ErrorView::IoError("Timedtext entity error: "@ + m)),
            Ok(n) => Ok(
                Some(
                    TokenView::Reference {
                        name: n,
                        char_ref: match char_ref {
                            Ok(Some(c)) => Some(c),
                            _ => None,
                        },
                    },
                ),
            ),
        }
    }
}

/// The token an XML event yields, given whether a snippet is being built,
/// or the error that ends the parse.
pub open spec fn event_token(open: bool, event: XmlEventView) -> Result<Option<TokenView>, ErrorView> {
    match event {
        XmlEventView::Start { name, tag, name_len } => tag_token(name, tag, name_len),
        XmlEventView::Empty { name, tag, name_len } => tag_token(name, tag, name_len),
        XmlEventView::End { name } => if cue_kind(name) is Some {
            Ok(Some(TokenView::CueEnd))
        } else {
            Ok(None)
        },
        XmlEventView::Text { text } => content_token(open, text),
        XmlEventView::CData { text } => content_token(open, text),
        XmlEventView::Reference { reference, char_ref } => reference_token(open, reference, char_ref),
        XmlEventView::Eof => Ok(Some(TokenView::Eof)),
        XmlEventView::Other => Ok(None),
    }
}

/// The assembly after an optional token.
pub open spec fn apply(a: AssemblyView, token: Option<TokenView>) -> AssemblyView {
    match token {
        Some(t) => step(a, t),
        None => a,
    }
}

/// The snippets of the document `doc` read from its event `k` on, with the
/// assembly at `a` and at most `remaining` more events to read: the end of
/// the document closes the snippet being built; a reader error, or an error
/// in what an event yields, ends the parse; a document that has not ended
/// within the events allowed is an error.
pub open spec fn parse_events(doc: Seq<char>, k: nat, remaining: nat, a: AssemblyView) -> Result<
    Seq<SnippetView>,
    ErrorView,
>
    decreases remaining,
{
    if remaining == 0 {
        Err(ErrorView::IoError("Timedtext parse error: "@ + "the document did not end"@))
    } else {
        match xml_event(doc, k) {
            Err(m) => Err(ErrorView::IoError("Timedtext parse error: "@ + m)),
            Ok(event) => match event_token(a.open is Some, event) {
                Err(e) => Err(e),
                Ok(token) => if event is Eof {
                    Ok(flush(apply(a, token)).snippets)
                } else {
                    parse_events(doc, k + 1, (remaining - 1) as nat, apply(a, token))
                },
            },
        }
    }
}

/// How many events the parse reads at most: one more than the document has
/// bytes (the reader consumes at least one byte for each event before the
/// end of the document), within what `usize` counts.
pub open spec fn event_limit(byte_len: nat) -> nat {
    if byte_len < usize::MAX {
        byte_len + 1
    } else {
        usize::MAX as nat
    }
}

/// The snippets of the timedtext document `doc`, of `byte_len` bytes, or
/// the error that ends its parse.
pub open spec fn timedtext_snippets(doc: Seq<char>, byte_len: nat) -> Result<
    Seq<SnippetView>,
    ErrorView,
> {
    parse_events(doc, 0, event_limit(byte_len), initial_assembly())
}

pub open spec fn snippets_result_view(r: Result<Vec<TranscriptSnippet>, AgentError>) -> Result<
    Seq<SnippetView>,
    ErrorView,
> {
    match r {
        Ok(v) => Ok(snippets_view(v@)),
        Err(e) => Err(e@),
    }
}

proof fn lemma_step_well_formed(a: AssemblyView, token: TokenView)
    requires
        open_well_formed(a),
    ensures
        open_well_formed(step(a, token)),
{
    lemma_flush_well_formed(a);
}

proof fn lemma_parse_events_well_formed(doc: Seq<char>, k: nat, remaining: nat, a: AssemblyView)
    requires
        open_well_formed(a),
    ensures
        forall|v: Seq<SnippetView>, i: int|
            parse_events(doc, k, remaining, a) == Ok::<Seq<SnippetView>, ErrorView>(v) && 0 <= i
                < v.len() ==> snippet_well_formed(#[trigger] v[i]),
    decreases remaining,
{
    if remaining > 0 {
        if let Ok(event) = xml_event(doc, k) {
            if let Ok(token) = event_token(a.open is Some, event) {
                if let Some(t) = token {
                    lemma_step_well_formed(a, t);
                }
                lemma_flush_well_formed(apply(a, token));
                lemma_parse_events_well_formed(doc, k + 1, (remaining - 1) as nat, apply(a, token));
            }
        }
    }
}

/// Every snippet of a timedtext document has non-blank text and a start time
/// that parses as a number.
pub proof fn law_timedtext_snippets_well_formed(doc: Seq<char>, byte_len: nat)
    ensures
        forall|v: Seq<SnippetView>, i: int|
            timedtext_snippets(doc, byte_len) == Ok::<Seq<SnippetView>, ErrorView>(v) && 0 <= i
                < v.len() ==> snippet_well_formed(#[trigger] v[i]),
{
    lemma_parse_events_well_formed(doc, 0, event_limit(byte_len), initial_assembly());
}

pub open spec fn attribute_result_view(r: Result<Option<String>, AgentError>) -> Result<
    Option<Seq<char>>,
    ErrorView,
> {
    match r {
        Ok(Some(v)) => Ok(Some(v@)),
        Ok(None) => Ok(None),
        Err(e) => Err(e@),
    }
}

/// The value of the time attribute `name` of the cue element the stream
/// read last (see [`time_attribute_of`]).
fn read_time_attribute(s: &XmlStream, name: &str) -> (r: Result<Option<String>, AgentError>)
    requires
        last_is_tag(s),
    ensures
        attribute_result_view(r) == time_attribute_of(
            tag_attribute(last_tag(s).1, last_tag(s).2, name@),
        ),
{
    proof {
        reveal_strlit("Timedtext attribute error: ");
    }
    match xml_tag_attribute(s, name) {
        Err(m) => Err(io_error("Timedtext attribute error: ", m.as_str())),
        Ok(None) => Ok(None),
        Ok(Some(raw)) => match xml_attribute_value(raw.as_slice()) {
            Err(m) => Err(io_error("Timedtext attribute error: ", m.as_str())),
            Ok(value) => Ok(Some(value)),
        },
    }
}

/// The event the stream read last, when it was read without error.
pub open spec fn last_event(s: &XmlStream) -> XmlEventView {
    match s.last() {
        Ok(e) => e,
        Err(_) => XmlEventView::Other,
    }
}

pub open spec fn token_result_view(r: Result<Option<TimedTextToken>, AgentError>) -> Result<
    Option<TokenView>,
    ErrorView,
> {
    match r {
        Ok(Some(t)) => Ok(Some(t@)),
        Ok(None) => Ok(None),
        Err(e) => Err(e@),
    }
}

/// The token of the event the stream read last, of kind `kind` (see
/// [`event_token`]).
fn read_token(s: &XmlStream, kind: XmlKind, open: bool) -> (r: Result<
    Option<TimedTextToken>,
    AgentError,
>)
    requires
        s.read() > 0,
        s.last() matches Ok(e) && kind_of(e) == kind,
    ensures
        token_result_view(r) == event_token(open, last_event(s)),
{
    proof {
        reveal_strlit("Timedtext decode error: ");
        reveal_strlit("Timedtext entity error: ");
    }
    match kind {
        XmlKind::Start | XmlKind::Empty => {
            let name = xml_tag_name(s);
            let legacy = match cue_kind_of(&name) {
                Some(legacy) => legacy,
                // <s> and every other element only contribute text.
                None => return Ok(None),
            };
            let start_name = if legacy { "start" } else { "t" };
            let duration_name = if legacy { "dur" } else { "d" };
            let start = match read_time_attribute(s, start_name) {
                Ok(v) => v,
                Err(e) => return Err(e),
            };
            let duration = match read_time_attribute(s, duration_name) {
                Ok(v) => v,
                Err(e) => return Err(e),
            };
            Ok(Some(TimedTextToken::Cue { legacy, start, duration }))
        },
        XmlKind::End => {
            let name = xml_end_name(s);
            if cue_kind_of(&name).is_some() {
                Ok(Some(TimedTextToken::CueEnd))
            } else {
                Ok(None)
            }
        },
        XmlKind::Text | XmlKind::CData => {
            if !open {
                return Ok(None);
            }
            match xml_content(s) {
                Ok(t) => Ok(Some(TimedTextToken::Text(t))),
                Err(m) => Err(io_error("Timedtext decode error: ", m.as_str())),
            }
        },
        XmlKind::Reference => {
            if !open {
                return Ok(None);
            }
            let (name, char_ref) = xml_reference(s);
            match name {
                Err(m) => Err(io_error("Timedtext entity error: ", m.as_str())),
                Ok(n) => {
                    // An invalid character reference (`&#0;`, a code point out
                    // of range) is kept verbatim rather than ending the parse.
                    let char_ref = match char_ref {
                        Ok(Some(c)) => Some(c),
                        _ => None,
                    };
                    Ok(Some(TimedTextToken::Reference { name: n, char_ref }))
                },
            }
        },
        XmlKind::Eof => Ok(Some(TimedTextToken::Eof)),
        XmlKind::Other => Ok(None),
    }
}

/// Parses a timedtext document into snippets (see [`timedtext_snippets`]).
///
/// Both formats are read in one pass: they differ only in element name,
/// time unit, and escaping depth. Snippets whose text is blank are dropped
/// (srv3 emits them as timing-only markers), and elements without a start
/// time that parses as a number are ignored, so a document that is not
/// timedtext yields no snippets. An error of the XML reader, or in an
/// attribute, text or reference of a cue, ends the parse with an `IoError`.
pub fn parse_timedtext(xml: &str) -> (r: Result<Vec<TranscriptSnippet>, AgentError>)
    ensures
        snippets_result_view(r) == timedtext_snippets(xml@, xml.len() as nat),
        r matches Ok(v) ==> forall|i: int|
            0 <= i < v@.len() ==> snippet_well_formed(#[trigger] snippets_view(v@)[i]),
{
    proof {
        reveal_strlit("Timedtext parse error: ");
        reveal_strlit("the document did not end");
    }
    let limit: usize = if xml.len() < usize::MAX {
        xml.len() + 1
    } else {
        usize::MAX
    };
    let ghost doc = xml@;
    let ghost expected = timedtext_snippets(xml@, xml.len() as nat);
    // Caption text is untrusted input: the stream allows a stray '&' and
    // unbalanced tags rather than throwing away the whole transcript.
    let mut stream = xml_stream(xml);
    let mut assembly = TimedTextAssembler::new();
    let mut events: usize = 0;
    loop
        invariant
            events <= limit,
            limit as nat == event_limit(xml.len() as nat),
            doc == xml@,
            stream.doc() == doc,
            stream.read() == events,
            expected == timedtext_snippets(doc, xml.len() as nat),
            expected == parse_events(doc, events as nat, (limit - events) as nat, assembly@),
        decreases limit - events,
    {
        if events == limit {
            return Err(io_error("Timedtext parse error: ", "the document did not end"));
        }
        let kind = match xml_next(&mut stream) {
            Ok(k) => k,
            Err(m) => return Err(io_error("Timedtext parse error: ", m.as_str())),
        };
        events = events + 1;
        let ghost event = last_event(&stream);
        let ghost before = assembly@;
        assert(xml_event(doc, (events - 1) as nat) == Ok::<XmlEventView, Seq<char>>(event));
        let token = match read_token(&stream, kind, assembly.is_open()) {
            Ok(t) => t,
            Err(e) => return Err(e),
        };
        match token {
            Some(t) => assembly.push(t),
            None => {},
        }
        if kind == XmlKind::Eof {
            let snippets = assembly.finish();
            assert(expected == Ok::<Seq<SnippetView>, ErrorView>(snippets_view(snippets@)));
            assert forall|i: int| 0 <= i < snippets@.len() implies snippet_well_formed(
                #[trigger] snippets_view(snippets@)[i],
            ) by {
                let v = snippets_view(snippets@);
                law_timedtext_snippets_well_formed(doc, xml.len() as nat);
                assert(timedtext_snippets(doc, xml.len() as nat) == Ok::<Seq<SnippetView>, ErrorView>(v));
                assert(v.len() == snippets@.len());
                assert(snippet_well_formed(v[i]));
            }
            return Ok(snippets);
        }
    }
}

} // verus!
