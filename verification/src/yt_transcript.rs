//! YouTube transcripts: caption track selection, the video ID of a watch
//! URL, and the decisions around the two requests that fetch a transcript.
//!
//! The requests themselves (the InnerTube player API and the timedtext
//! download) are made by the caller; the functions here decide what to ask
//! for and what to make of the answers.

use vstd::prelude::*;
use crate::error::{AgentError, ErrorView};
use crate::timedtext::{
    parse_timedtext, snippets_view, timedtext_snippets, SnippetView, TranscriptSnippet,
};
use crate::input::{concat3, not_a_string_message, require_string, InputValue};
use crate::text::{
    chars_of, eq_ignore_ascii_case, join, join_strings, str_eq,
    str_eq_ignore_ascii_case, string_from_chars, strings_view, trim, trim_bounds,
};

verus! {

/// The InnerTube client version the player request claims. The WEB client is
/// rejected without a PoToken, so the ANDROID client is used, with a version
/// that looks plausible to YouTube.
pub const ANDROID_CLIENT_VERSION: &'static str = "20.10.38";

/// The User-Agent that goes with the ANDROID client.
pub open spec fn android_user_agent_spec() -> Seq<char> {
    "com.google.android.youtube/"@ + ANDROID_CLIENT_VERSION@ + " (Linux; U; Android 11) gzip"@
}

/// The User-Agent header of both requests; it echoes the client version.
pub fn android_user_agent() -> (s: String)
    ensures
        s@ == android_user_agent_spec(),
{
    concat3("com.google.android.youtube/", ANDROID_CLIENT_VERSION, " (Linux; U; Android 11) gzip")
}

/// One run of a track label.
#[derive(Debug)]
pub struct TrackNameRun {
    pub text: String,
}

/// A track label: YouTube spells it either as `simpleText` or as a run list,
/// depending on the client and the video.
#[derive(Debug)]
pub struct TrackName {
    pub simple_text: Option<String>,
    pub runs: Option<Vec<TrackNameRun>>,
}

/// A caption track of a video.
#[derive(Debug)]
pub struct CaptionTrack {
    /// Where its timedtext document is served.
    pub base_url: String,
    pub language_code: String,
    /// `"asr"` on auto-generated tracks, absent on manually created ones.
    pub kind: Option<String>,
    pub name: Option<TrackName>,
}

/// The track was generated by speech recognition.
pub open spec fn is_generated_track(t: CaptionTrack) -> bool {
    t.kind matches Some(k) && k@ == "asr"@
}

/// The runs' texts, concatenated.
pub open spec fn runs_text(runs: Seq<TrackNameRun>) -> Seq<char>
    decreases runs.len(),
{
    if runs.len() == 0 {
        Seq::empty()
    } else {
        runs_text(runs.drop_last()) + runs.last().text@
    }
}

/// The label a track name spells: its simple text if it has one (even an
/// empty one), else its runs.
pub open spec fn name_label(name: Option<TrackName>) -> Option<Seq<char>> {
    match name {
        None => None,
        Some(n) => match n.simple_text {
            Some(s) => Some(s@),
            None => match n.runs {
                Some(runs) => Some(runs_text(runs@)),
                None => None,
            },
        },
    }
}

/// A track's label when it is not empty, else its language code.
pub open spec fn display_name_of(t: CaptionTrack) -> Seq<char> {
    match name_label(t.name) {
        Some(label) => if label.len() > 0 {
            label
        } else {
            t.language_code@
        },
        None => t.language_code@,
    }
}

impl CaptionTrack {
    /// Whether the track was generated by speech recognition (`kind` is
    /// `"asr"`).
    pub fn is_generated(&self) -> (b: bool)
        ensures
            b == is_generated_track(*self),
    {
        match &self.kind {
            Some(k) => {
                proof {
                    reveal_strlit("asr");
                }
                str_eq(k.as_str(), "asr")
            },
            None => false,
        }
    }

    /// The track's human-readable name, falling back to its language code.
    pub fn display_name(&self) -> (s: String)
        ensures
            s@ == display_name_of(*self),
    {
        let label: Option<String> = match &self.name {
            None => None,
            Some(name) => match &name.simple_text {
                Some(text) => Some(text.clone()),
                None => match &name.runs {
                    Some(runs) => Some(concat_runs(runs)),
                    None => None,
                },
            },
        };
        match label {
            Some(l) => {
                if l.as_str().is_empty() {
                    self.language_code.clone()
                } else {
                    l
                }
            },
            None => self.language_code.clone(),
        }
    }
}

fn concat_runs(runs: &Vec<TrackNameRun>) -> (s: String)
    ensures
        s@ == runs_text(runs@),
{
    let mut s = String::new();
    let mut i: usize = 0;
    while i < runs.len()
        invariant
            i <= runs.len(),
            s@ == runs_text(runs@.take(i as int)),
        decreases runs.len() - i,
    {
        assert(runs@.take(i + 1).drop_last() =~= runs@.take(i as int));
        s.append(runs[i].text.as_str());
        i = i + 1;
    }
    assert(runs@.take(runs.len() as int) =~= runs@);
    s
}

/// The track is of language `language` (ignoring ASCII case) and is
/// generated or not as `generated` says.
pub open spec fn track_matches(t: CaptionTrack, language: Seq<char>, generated: bool) -> bool {
    &&& is_generated_track(t) == generated
    &&& eq_ignore_ascii_case(t.language_code@, language)
}

/// The index of the first track that matches.
pub open spec fn first_match(tracks: Seq<CaptionTrack>, language: Seq<char>, generated: bool) -> Option<int>
    decreases tracks.len(),
{
    if tracks.len() == 0 {
        None
    } else if track_matches(tracks[0], language, generated) {
        Some(0)
    } else {
        match first_match(tracks.drop_first(), language, generated) {
            Some(i) => Some(i + 1),
            None => None,
        }
    }
}

/// The track that [`select_track`] picks: the languages are walked in order,
/// and within each language the first manually created track beats the
/// first generated one.
pub open spec fn selected_track(tracks: Seq<CaptionTrack>, languages: Seq<Seq<char>>) -> Option<int>
    decreases languages.len(),
{
    if languages.len() == 0 {
        None
    } else {
        match first_match(tracks, languages[0], false) {
            Some(i) => Some(i),
            None => match first_match(tracks, languages[0], true) {
                Some(i) => Some(i),
                None => selected_track(tracks, languages.drop_first()),
            },
        }
    }
}

/// How a track is listed when none matches.
pub open spec fn track_listing(t: CaptionTrack) -> Seq<char> {
    if is_generated_track(t) {
        t.language_code@ + " (auto-generated)"@
    } else {
        t.language_code@
    }
}

pub open spec fn track_listings(tracks: Seq<CaptionTrack>) -> Seq<Seq<char>> {
    tracks.map_values(|t: CaptionTrack| track_listing(t))
}

/// The message when no track matches.
pub open spec fn no_track_message(tracks: Seq<CaptionTrack>, languages: Seq<Seq<char>>) -> Seq<char> {
    "No transcript found for languages ["@ + join(languages, ", "@) + "]. Available: ["@ + join(
        track_listings(tracks),
        ", "@,
    ) + "]"@
}

fn find_track(tracks: &Vec<CaptionTrack>, language: &String, generated: bool) -> (r: Option<usize>)
    ensures
        r matches Some(i) ==> first_match(tracks@, language@, generated) == Some(i as int),
        r is None ==> first_match(tracks@, language@, generated) is None,
{
    let mut k: usize = 0;
    assert(tracks@.skip(0) =~= tracks@);
    while k < tracks.len()
        invariant
            k <= tracks.len(),
            first_match(tracks@, language@, generated) == match first_match(
                tracks@.skip(k as int),
                language@,
                generated,
            ) {
                Some(i) => Some(i + k),
                None => None,
            },
        decreases tracks.len() - k,
    {
        assert(tracks@.skip(k as int).drop_first() =~= tracks@.skip(k + 1));
        assert(tracks@.skip(k as int)[0] == tracks@[k as int]);
        let t = &tracks[k];
        if t.is_generated() == generated && str_eq_ignore_ascii_case(
            t.language_code.as_str(),
            language.as_str(),
        ) {
            return Some(k);
        }
        k = k + 1;
    }
    assert(tracks@.skip(k as int) =~= Seq::<CaptionTrack>::empty());
    None
}

/// Picks a caption track: `languages` is walked in order, and within each
/// language a manually created track beats an auto-generated one. An
/// earlier language always wins, even when it only has an auto-generated
/// track. When no track matches, the error lists the languages asked for
/// and the tracks there are.
pub fn select_track<'a>(tracks: &'a Vec<CaptionTrack>, languages: &Vec<String>) -> (r: Result<
    &'a CaptionTrack,
    AgentError,
>)
    ensures
        match selected_track(tracks@, strings_view(languages@)) {
            Some(i) => r matches Ok(t) && *t == tracks@[i],
            None => r matches Err(e) && e@ == ErrorView::InvalidValue(
                no_track_message(tracks@, strings_view(languages@)),
            ),
        },
{
    match select_track_index(tracks, languages) {
        Ok(i) => Ok(&tracks[i]),
        Err(e) => Err(e),
    }
}

/// The index of the track [`select_track`] picks.
pub fn select_track_index(tracks: &Vec<CaptionTrack>, languages: &Vec<String>) -> (r: Result<
    usize,
    AgentError,
>)
    ensures
        match selected_track(tracks@, strings_view(languages@)) {
            Some(i) => r matches Ok(k) && k == i && i < tracks.len(),
            None => r matches Err(e) && e@ == ErrorView::InvalidValue(
                no_track_message(tracks@, strings_view(languages@)),
            ),
        },
{
    let ghost langs = strings_view(languages@);
    let mut j: usize = 0;
    assert(langs.skip(0) =~= langs);
    while j < languages.len()
        invariant
            j <= languages.len(),
            langs == strings_view(languages@),
            selected_track(tracks@, langs) == selected_track(tracks@, langs.skip(j as int)),
        decreases languages.len() - j,
    {
        assert(langs.skip(j as int)[0] == languages@[j as int]@);
        assert(langs.skip(j as int).drop_first() =~= langs.skip(j + 1));
        let ghost lang = langs.skip(j as int)[0];
        assert(lang == languages@[j as int]@);
        match find_track(tracks, &languages[j], false) {
            Some(i) => {
                proof {
                    lemma_first_match_bounds(tracks@, lang, false);
                    assert(langs.skip(j as int).len() > 0);
                    assert(first_match(tracks@, lang, false) == Some(i as int));
                    assert(selected_track(tracks@, langs.skip(j as int)) == Some(i as int));
                }
                return Ok(i);
            },
            None => {},
        }
        match find_track(tracks, &languages[j], true) {
            Some(i) => {
                proof {
                    lemma_first_match_bounds(tracks@, lang, true);
                    assert(selected_track(tracks@, langs.skip(j as int)) == Some(i as int));
                }
                return Ok(i);
            },
            None => {},
        }
        assert(selected_track(tracks@, langs.skip(j as int)) == selected_track(
            tracks@,
            langs.skip(j + 1),
        ));
        j = j + 1;
    }
    assert(langs.skip(j as int) =~= Seq::<Seq<char>>::empty());
    let mut available: Vec<String> = Vec::new();
    let mut k: usize = 0;
    while k < tracks.len()
        invariant
            k <= tracks.len(),
            strings_view(available@) =~= track_listings(tracks@.take(k as int)),
        decreases tracks.len() - k,
    {
        let t = &tracks[k];
        let listing = if t.is_generated() {
            let mut s = t.language_code.clone();
            s.append(" (auto-generated)");
            s
        } else {
            t.language_code.clone()
        };
        proof {
            reveal_strlit(" (auto-generated)");
        }
        assert(listing@ == track_listing(tracks@[k as int]));
        let ghost before = available@;
        available.push(listing);
        assert(tracks@.take(k + 1).drop_last() =~= tracks@.take(k as int));
        assert(track_listings(tracks@.take(k + 1)) =~= track_listings(tracks@.take(k as int)).push(
            track_listing(tracks@[k as int]),
        ));
        assert(strings_view(available@) =~= strings_view(before).push(listing@));
        k = k + 1;
    }
    assert(tracks@.take(tracks.len() as int) =~= tracks@);
    proof {
        reveal_strlit("No transcript found for languages [");
        reveal_strlit("]. Available: [");
        reveal_strlit("]");
        reveal_strlit(", ");
    }
    let mut message = String::from_str("No transcript found for languages [");
    message.append(join_strings(languages, ", ").as_str());
    message.append("]. Available: [");
    message.append(join_strings(&available, ", ").as_str());
    message.append("]");
    Err(AgentError::InvalidValue(message))
}

proof fn lemma_first_match_bounds(tracks: Seq<CaptionTrack>, language: Seq<char>, generated: bool)
    ensures
        first_match(tracks, language, generated) matches Some(i) ==> 0 <= i < tracks.len()
            && track_matches(tracks[i], language, generated),
        first_match(tracks, language, generated) is None ==> forall|k: int|
            0 <= k < tracks.len() ==> !track_matches(#[trigger] tracks[k], language, generated),
    decreases tracks.len(),
{
    if tracks.len() > 0 {
        lemma_first_match_bounds(tracks.drop_first(), language, generated);
        assert forall|k: int| 0 < k < tracks.len() implies tracks[k] == tracks.drop_first()[k
            - 1] by {}
    }
}

/// No track is of language `language`, generated or not.
pub open spec fn no_track_of(tracks: Seq<CaptionTrack>, language: Seq<char>) -> bool {
    forall|t: int|
        0 <= t < tracks.len() ==> !eq_ignore_ascii_case(#[trigger] tracks[t].language_code@, language)
}

/// Track selection order: the selected track is of some requested language
/// `k` that no track of an earlier requested language precedes; it is
/// generated only when that language has no manually created track; and it
/// is the first track of its language and kind.
pub proof fn law_select_track_order(tracks: Seq<CaptionTrack>, languages: Seq<Seq<char>>)
    ensures
        selected_track(tracks, languages) matches Some(i) ==> exists|k: int|
            #![trigger languages[k]]
            {
                &&& 0 <= k < languages.len()
                &&& 0 <= i < tracks.len()
                &&& eq_ignore_ascii_case(tracks[i].language_code@, languages[k])
                &&& forall|j: int| 0 <= j < k ==> no_track_of(tracks, #[trigger] languages[j])
                &&& is_generated_track(tracks[i]) ==> forall|t: int|
                    0 <= t < tracks.len() ==> !track_matches(#[trigger] tracks[t], languages[k], false)
                &&& forall|t: int|
                    0 <= t < i ==> !track_matches(
                        #[trigger] tracks[t],
                        languages[k],
                        is_generated_track(tracks[i]),
                    )
            },
    decreases languages.len(),
{
    if languages.len() > 0 {
        let l0 = languages[0];
        lemma_first_match_bounds(tracks, l0, false);
        lemma_first_match_bounds(tracks, l0, true);
        lemma_first_match_first(tracks, l0, false);
        lemma_first_match_first(tracks, l0, true);
        match first_match(tracks, l0, false) {
            Some(i) => {
                assert(languages[0] == l0);
            },
            None => match first_match(tracks, l0, true) {
                Some(i) => {
                    assert(languages[0] == l0);
                },
                None => {
                    let rest = languages.drop_first();
                    law_select_track_order(tracks, rest);
                    assert(no_track_of(tracks, l0)) by {
                        assert forall|t: int| 0 <= t < tracks.len() implies !eq_ignore_ascii_case(
                            #[trigger] tracks[t].language_code@,
                            l0,
                        ) by {
                            assert(!track_matches(tracks[t], l0, false));
                            assert(!track_matches(tracks[t], l0, true));
                        }
                    }
                    if let Some(i) = selected_track(tracks, languages) {
                        let k = choose|k: int|
                            #![trigger rest[k]]
                            {
                                &&& 0 <= k < rest.len()
                                &&& 0 <= i < tracks.len()
                                &&& eq_ignore_ascii_case(tracks[i].language_code@, rest[k])
                                &&& forall|j: int| 0 <= j < k ==> no_track_of(tracks, #[trigger] rest[j])
                                &&& is_generated_track(tracks[i]) ==> forall|t: int|
                                    0 <= t < tracks.len() ==> !track_matches(#[trigger] tracks[t], rest[k], false)
                                &&& forall|t: int|
                                    0 <= t < i ==> !track_matches(
                                        #[trigger] tracks[t],
                                        rest[k],
                                        is_generated_track(tracks[i]),
                                    )
                            };
                        assert(languages[k + 1] == rest[k]);
                        assert forall|j: int| 0 <= j < k + 1 implies no_track_of(
                            tracks,
                            #[trigger] languages[j],
                        ) by {
                            if j > 0 {
                                assert(languages[j] == rest[j - 1]);
                            }
                        }
                    }
                },
            },
        }
    }
}

/// Track selection fails exactly when no track is of any requested
/// language.
pub proof fn law_select_track_none(tracks: Seq<CaptionTrack>, languages: Seq<Seq<char>>)
    ensures
        selected_track(tracks, languages) is None <==> forall|j: int|
            0 <= j < languages.len() ==> no_track_of(tracks, #[trigger] languages[j]),
    decreases languages.len(),
{
    if languages.len() > 0 {
        let l0 = languages[0];
        let rest = languages.drop_first();
        lemma_first_match_bounds(tracks, l0, false);
        lemma_first_match_bounds(tracks, l0, true);
        law_select_track_none(tracks, rest);
        if no_track_of(tracks, l0) {
            assert(first_match(tracks, l0, false) is None) by {
                if let Some(i) = first_match(tracks, l0, false) {
                    assert(!eq_ignore_ascii_case(tracks[i].language_code@, l0));
                }
            }
            assert(first_match(tracks, l0, true) is None) by {
                if let Some(i) = first_match(tracks, l0, true) {
                    assert(!eq_ignore_ascii_case(tracks[i].language_code@, l0));
                }
            }
            assert(selected_track(tracks, languages) == selected_track(tracks, rest));
            assert(languages[0] == l0);
            assert((forall|j: int| 0 <= j < languages.len() ==> no_track_of(tracks, #[trigger] languages[j]))
                <==> (forall|j: int| 0 <= j < rest.len() ==> no_track_of(tracks, #[trigger] rest[j]))) by {
                assert forall|j: int| 0 < j < languages.len() implies languages[j] == rest[j - 1] by {}
                assert(no_track_of(tracks, languages[0]));
                assert forall|j: int| 0 <= j < rest.len() implies rest[j] == languages[j + 1] by {}
            }
        } else {
            let t = choose|t: int|
                0 <= t < tracks.len() && eq_ignore_ascii_case(#[trigger] tracks[t].language_code@, l0);
            assert(track_matches(tracks[t], l0, is_generated_track(tracks[t])));
            assert(selected_track(tracks, languages) is Some);
            assert(!no_track_of(tracks, languages[0]));
        }
    }
}

proof fn lemma_first_match_first(tracks: Seq<CaptionTrack>, language: Seq<char>, generated: bool)
    ensures
        first_match(tracks, language, generated) matches Some(i) ==> forall|t: int|
            0 <= t < i ==> !track_matches(#[trigger] tracks[t], language, generated),
    decreases tracks.len(),
{
    if tracks.len() > 0 {
        let rest = tracks.drop_first();
        lemma_first_match_first(rest, language, generated);
        lemma_first_match_bounds(tracks, language, generated);
        if let Some(i) = first_match(tracks, language, generated) {
            assert forall|t: int| 0 <= t < i implies !track_matches(
                #[trigger] tracks[t],
                language,
                generated,
            ) by {
                if t > 0 {
                    assert(tracks[t] == rest[t - 1]);
                }
            }
        }
    }
}

/// What the video ID is read from: the parts of a parsed URL.
#[derive(Debug)]
pub struct UrlParts {
    /// The host, when it is a domain (not an IP address).
    pub domain: Option<String>,
    /// The percent-encoded path.
    pub path: String,
    /// The decoded `key=value` pairs of the query, in order.
    pub query: Vec<(String, String)>,
}

pub struct UrlPartsView {
    pub domain: Option<Seq<char>>,
    pub path: Seq<char>,
    pub query: Seq<(Seq<char>, Seq<char>)>,
}

impl View for UrlParts {
    type V = UrlPartsView;

    open spec fn view(&self) -> UrlPartsView {
        UrlPartsView {
            domain: match self.domain {
                Some(d) => Some(d@),
                None => None,
            },
            path: self.path@,
            query: pairs_view(self.query@),
        }
    }
}

/// What the url crate makes of `input`: the domain, path and query pairs of
/// the URL, or the parse error's message.
pub uninterp spec fn parsed_url(input: Seq<char>) -> Result<UrlPartsView, Seq<char>>;

/// url `Url::parse`, with the parts of the parsed URL read through
/// `Url::domain`, `Url::path` and `Url::query_pairs`. The result is a
/// function of `input`.
#[verifier::external_body]
fn parse_url(input: &str) -> (r: Result<UrlParts, String>)
    ensures
        match (r, parsed_url(input@)) {
            (Ok(p), Ok(v)) => p@ == v,
            (Err(e), Err(m)) => e@ == m,
            _ => false,
        },
{
    match url::Url::parse(input) {
        Ok(u) => Ok(UrlParts {
            domain: u.domain().map(|d| d.to_string()),
            path: u.path().to_string(),
            query: u.query_pairs().map(|(k, v)| (k.into_owned(), v.into_owned())).collect(),
        }),
        Err(e) => Err(e.to_string()),
    }
}

/// A result of the library, by views.
pub open spec fn string_result_view(r: Result<String, AgentError>) -> Result<Seq<char>, ErrorView> {
    match r {
        Ok(s) => Ok(s@),
        Err(e) => Err(e@),
    }
}

pub open spec fn pairs_view(v: Seq<(String, String)>) -> Seq<(Seq<char>, Seq<char>)> {
    v.map_values(|p: (String, String)| (p.0@, p.1@))
}

/// `s` without its leading `c`s (std `trim_start_matches` with a char).
pub open spec fn strip_leading(s: Seq<char>, c: char) -> Seq<char>
    decreases s.len(),
{
    if s.len() > 0 && s[0] == c {
        strip_leading(s.drop_first(), c)
    } else {
        s
    }
}

/// The index of the first pair whose key is `key`.
pub open spec fn first_key(pairs: Seq<(Seq<char>, Seq<char>)>, key: Seq<char>) -> Option<int>
    decreases pairs.len(),
{
    if pairs.len() == 0 {
        None
    } else if pairs[0].0 == key {
        Some(0)
    } else {
        match first_key(pairs.drop_first(), key) {
            Some(i) => Some(i + 1),
            None => None,
        }
    }
}

/// The video ID of a URL with the given domain, path and query pairs: the
/// domain must be `www.youtube.com`, `youtube.com` or `youtu.be`; a
/// `youtu.be` URL names the video by its path, the others by their first
/// `v` parameter.
pub open spec fn video_id_of(
    url: Seq<char>,
    domain: Option<Seq<char>>,
    path: Seq<char>,
    query: Seq<(Seq<char>, Seq<char>)>,
) -> Result<Seq<char>, ErrorView> {
    let d = match domain {
        Some(d) => d,
        None => Seq::empty(),
    };
    if d != "www.youtube.com"@ && d != "youtube.com"@ && d != "youtu.be"@ {
        Err(ErrorView::InvalidValue("URL '"@ + url + "' is not a valid YouTube URL"@))
    } else if d == "youtu.be"@ {
        Ok(strip_leading(path, '/'))
    } else {
        match first_key(query, "v"@) {
            Some(i) => Ok(query[i].1),
            None => Err(ErrorView::InvalidValue("Could not find 'v' parameter in URL '"@ + url + "'"@)),
        }
    }
}

proof fn lemma_first_key(pairs: Seq<(Seq<char>, Seq<char>)>, key: Seq<char>)
    ensures
        first_key(pairs, key) matches Some(i) ==> 0 <= i < pairs.len() && pairs[i].0 == key
            && forall|j: int| 0 <= j < i ==> (#[trigger] pairs[j]).0 != key,
        first_key(pairs, key) is None ==> forall|j: int|
            0 <= j < pairs.len() ==> (#[trigger] pairs[j]).0 != key,
    decreases pairs.len(),
{
    if pairs.len() > 0 {
        lemma_first_key(pairs.drop_first(), key);
        assert forall|j: int| 0 < j < pairs.len() implies pairs[j] == pairs.drop_first()[j - 1] by {}
    }
}

/// A watch URL on `www.youtube.com` or `youtube.com` names the video by the
/// value of its first `v` query pair, whatever pairs come before it.
pub proof fn law_video_id_first_v(
    url: Seq<char>,
    domain: Seq<char>,
    path: Seq<char>,
    query: Seq<(Seq<char>, Seq<char>)>,
    i: int,
)
    requires
        domain == "www.youtube.com"@ || domain == "youtube.com"@,
        0 <= i < query.len(),
        query[i].0 == "v"@,
        forall|j: int| 0 <= j < i ==> (#[trigger] query[j]).0 != "v"@,
    ensures
        video_id_of(url, Some(domain), path, query) == Ok::<Seq<char>, ErrorView>(query[i].1),
{
    reveal_strlit("www.youtube.com");
    reveal_strlit("youtube.com");
    reveal_strlit("youtu.be");
    assert(domain != "youtu.be"@) by {
        assert(domain.len() != "youtu.be"@.len());
    }
    lemma_first_key(query, "v"@);
    match first_key(query, "v"@) {
        Some(k) => {
            if k < i {
                assert(query[k].0 != "v"@);
            } else if k > i {
                assert(query[i].0 != "v"@);
            }
        },
        None => {
            assert(query[i].0 != "v"@);
        },
    }
}

/// Such a URL without any `v` query pair names no video.
pub proof fn law_video_id_without_v(
    url: Seq<char>,
    domain: Seq<char>,
    path: Seq<char>,
    query: Seq<(Seq<char>, Seq<char>)>,
)
    requires
        domain == "www.youtube.com"@ || domain == "youtube.com"@,
        forall|j: int| 0 <= j < query.len() ==> (#[trigger] query[j]).0 != "v"@,
    ensures
        video_id_of(url, Some(domain), path, query) == Err::<Seq<char>, ErrorView>(
            ErrorView::InvalidValue("Could not find 'v' parameter in URL '"@ + url + "'"@),
        ),
{
    reveal_strlit("www.youtube.com");
    reveal_strlit("youtube.com");
    reveal_strlit("youtu.be");
    assert(domain != "youtu.be"@) by {
        assert(domain.len() != "youtu.be"@.len());
    }
    lemma_first_key(query, "v"@);
    if let Some(k) = first_key(query, "v"@) {
        assert(query[k].0 != "v"@);
    }
}

/// `www.youtube.com` and `youtube.com` watch URLs are read alike.
pub proof fn law_video_id_youtube_domains_agree(
    url: Seq<char>,
    path: Seq<char>,
    query: Seq<(Seq<char>, Seq<char>)>,
)
    ensures
        video_id_of(url, Some("www.youtube.com"@), path, query) == video_id_of(
            url,
            Some("youtube.com"@),
            path,
            query,
        ),
{
    reveal_strlit("www.youtube.com");
    reveal_strlit("youtube.com");
    reveal_strlit("youtu.be");
    lemma_first_key(query, "v"@);
    if let Some(i) = first_key(query, "v"@) {
        law_video_id_first_v(url, "www.youtube.com"@, path, query, i);
        law_video_id_first_v(url, "youtube.com"@, path, query, i);
    } else {
        law_video_id_without_v(url, "www.youtube.com"@, path, query);
        law_video_id_without_v(url, "youtube.com"@, path, query);
    }
}

fn strip_leading_slashes(path: &str) -> (s: String)
    ensures
        s@ == strip_leading(path@, '/'),
{
    let cs = chars_of(path);
    let mut i: usize = 0;
    assert(cs@.skip(0) =~= cs@);
    while i < cs.len() && cs[i] == '/'
        invariant
            i <= cs.len(),
            cs@ == path@,
            strip_leading(path@, '/') == strip_leading(cs@.skip(i as int), '/'),
        decreases cs.len() - i,
    {
        assert(cs@.skip(i as int).drop_first() =~= cs@.skip(i + 1));
        i = i + 1;
    }
    assert(cs@.skip(i as int) =~= cs@.subrange(i as int, cs@.len() as int));
    string_from_chars(&cs, i, cs.len())
}

/// The video ID of a YouTube URL from its parts (see [`video_id_of`]).
pub fn video_id_from_parts(
    url: &str,
    domain: &Option<String>,
    path: &str,
    query: &Vec<(String, String)>,
) -> (r: Result<String, AgentError>)
    ensures
        string_result_view(r) == video_id_of(
            url@,
            match domain {
                Some(d) => Some(d@),
                None => None,
            },
            path@,
            pairs_view(query@),
        ),
{
    proof {
        reveal_strlit("www.youtube.com");
        reveal_strlit("youtube.com");
        reveal_strlit("youtu.be");
        reveal_strlit("v");
        reveal_strlit("URL '");
        reveal_strlit("' is not a valid YouTube URL");
        reveal_strlit("Could not find 'v' parameter in URL '");
        reveal_strlit("'");
    }
    let d: &str = match domain {
        Some(d) => d.as_str(),
        None => "",
    };
    proof {
        reveal_strlit("");
    }
    let ghost dv = match domain {
        Some(x) => x@,
        None => Seq::<char>::empty(),
    };
    assert(d@ == dv);
    let youtu_be = str_eq(d, "youtu.be");
    if !str_eq(d, "www.youtube.com") && !str_eq(d, "youtube.com") && !youtu_be {
        return Err(AgentError::InvalidValue(concat3("URL '", url, "' is not a valid YouTube URL")));
    }
    if youtu_be {
        return Ok(strip_leading_slashes(path));
    }
    let ghost pairs = pairs_view(query@);
    let ghost dom = match domain {
        Some(x) => Some(x@),
        None => None,
    };
    let ghost expected = video_id_of(url@, dom, path@, pairs);
    assert(expected == match first_key(pairs, "v"@) {
        Some(i) => Ok(pairs[i].1),
        None => Err(ErrorView::InvalidValue("Could not find 'v' parameter in URL '"@ + url@ + "'"@)),
    });
    let mut k: usize = 0;
    assert(pairs.skip(0) =~= pairs);
    while k < query.len()
        invariant
            k <= query.len(),
            pairs == pairs_view(query@),
            dom == match domain {
                Some(x) => Some(x@),
                None => None,
            },
            expected == video_id_of(url@, dom, path@, pairs),
            expected == match first_key(pairs, "v"@) {
                Some(i) => Ok(pairs[i].1),
                None => Err(ErrorView::InvalidValue("Could not find 'v' parameter in URL '"@ + url@ + "'"@)),
            },
            first_key(pairs, "v"@) == match first_key(pairs.skip(k as int), "v"@) {
                Some(i) => Some(i + k),
                None => None,
            },
        decreases query.len() - k,
    {
        assert(pairs.skip(k as int).drop_first() =~= pairs.skip(k + 1));
        assert(pairs.skip(k as int)[0] == pairs[k as int]);
        assert(pairs[k as int] == (query@[k as int].0@, query@[k as int].1@));
        if str_eq(query[k].0.as_str(), "v") {
            assert(first_key(pairs, "v"@) == Some(k as int));
            let id = query[k].1.clone();
            assert(id@ == pairs[k as int].1);
            assert(expected == Ok::<Seq<char>, ErrorView>(id@));
            return Ok(id);
        }
        k = k + 1;
    }
    assert(pairs.skip(k as int) =~= Seq::<(Seq<char>, Seq<char>)>::empty());
    Err(AgentError::InvalidValue(concat3("Could not find 'v' parameter in URL '", url, "'")))
}

/// The message when `url` does not parse, with the parser's reason.
pub open spec fn invalid_url_message(url: Seq<char>, reason: Seq<char>) -> Seq<char> {
    "Invalid URL '"@ + url + "': "@ + reason
}

/// The video ID of the URL `url`: [`video_id_of`] its parts, or
/// `InvalidValue` with the parser's reason when it is not a URL.
pub open spec fn video_id_of_url(url: Seq<char>) -> Result<Seq<char>, ErrorView> {
    match parsed_url(url) {
        Ok(p) => video_id_of(url, p.domain, p.path, p.query),
        Err(reason) => Err(ErrorView::InvalidValue(invalid_url_message(url, reason))),
    }
}

/// Extracts the video ID from a YouTube watch URL (`youtu.be/<id>`,
/// `youtube.com/watch?v=<id>` or `www.youtube.com/watch?v=<id>`).
pub fn video_id_from_url(url_str: &str) -> (r: Result<String, AgentError>)
    ensures
        string_result_view(r) == video_id_of_url(url_str@),
{
    proof {
        reveal_strlit("Invalid URL '");
        reveal_strlit("': ");
    }
    match parse_url(url_str) {
        Ok(parts) => video_id_from_parts(url_str, &parts.domain, parts.path.as_str(), &parts.query),
        Err(reason) => {
            let mut m = concat3("Invalid URL '", url_str, "': ");
            m.append(reason.as_str());
            Err(AgentError::InvalidValue(m))
        },
    }
}

/// The pieces of `s` between commas (std `str::split(',')`), found left to
/// right.
pub open spec fn comma_pieces(s: Seq<char>) -> Seq<Seq<char>>
    decreases s.len(),
{
    if s.len() == 0 {
        seq![Seq::empty()]
    } else {
        let before = comma_pieces(s.drop_last());
        if s.last() == ',' {
            before.push(Seq::empty())
        } else {
            before.update(before.len() - 1, before.last().push(s.last()))
        }
    }
}

/// The trimmed pieces that are not empty, in order.
pub open spec fn nonempty_trimmed(pieces: Seq<Seq<char>>) -> Seq<Seq<char>>
    decreases pieces.len(),
{
    if pieces.len() == 0 {
        Seq::empty()
    } else {
        let before = nonempty_trimmed(pieces.drop_last());
        if trim(pieces.last()).len() > 0 {
            before.push(trim(pieces.last()))
        } else {
            before
        }
    }
}

/// The language codes of a comma-separated preference list.
pub open spec fn languages_of(config: Seq<char>) -> Seq<Seq<char>> {
    nonempty_trimmed(comma_pieces(config))
}

/// The languages of the `languages` setting, in preference order: the
/// comma-separated codes, trimmed, without empty ones.
pub fn parse_languages(config: &str) -> (v: Vec<String>)
    ensures
        strings_view(v@) == languages_of(config@),
{
    let cs = chars_of(config);
    let mut out: Vec<String> = Vec::new();
    let mut start: usize = 0;
    let mut i: usize = 0;
    let ghost mut done: Seq<Seq<char>> = Seq::empty();
    assert(cs@.take(0) =~= Seq::<char>::empty());
    assert(comma_pieces(cs@.take(0)) =~= done.push(cs@.subrange(0, 0)));
    while i < cs.len()
        invariant
            start <= i <= cs.len(),
            cs@ == config@,
            comma_pieces(cs@.take(i as int)) == done.push(cs@.subrange(start as int, i as int)),
            strings_view(out@) == nonempty_trimmed(done),
        decreases cs.len() - i,
    {
        let ghost piece = cs@.subrange(start as int, i as int);
        assert(cs@.take(i + 1).drop_last() =~= cs@.take(i as int));
        assert(cs@.take(i + 1).last() == cs@[i as int]);
        if cs[i] == ',' {
            let (a, b) = trim_bounds(&cs, start, i);
            if a < b {
                let ghost before = out@;
                out.push(string_from_chars(&cs, a, b));
                assert(strings_view(out@) =~= strings_view(before).push(cs@.subrange(a as int, b as int)));
            }
            proof {
                assert(done.push(piece).drop_last() =~= done);
                done = done.push(piece);
                assert(cs@.subrange((i + 1) as int, (i + 1) as int) =~= Seq::<char>::empty());
            }
            start = i + 1;
        } else {
            proof {
                let before = done.push(piece);
                assert(piece.push(cs@[i as int]) =~= cs@.subrange(start as int, i + 1));
                assert(before.last() == piece);
                assert(before.update(before.len() - 1, before.last().push(cs@[i as int])) =~= done.push(
                    cs@.subrange(start as int, i + 1),
                ));
            }
        }
        i = i + 1;
    }
    let ghost piece = cs@.subrange(start as int, cs.len() as int);
    let (a, b) = trim_bounds(&cs, start, cs.len());
    if a < b {
        let ghost before = out@;
        out.push(string_from_chars(&cs, a, b));
        assert(strings_view(out@) =~= strings_view(before).push(cs@.subrange(a as int, b as int)));
    }
    proof {
        assert(cs@.take(cs.len() as int) =~= cs@);
        assert(done.push(piece).drop_last() =~= done);
    }
    out
}

/// The texts of the snippets, in order.
pub open spec fn snippet_texts(snippets: Seq<SnippetView>) -> Seq<Seq<char>> {
    snippets.map_values(|s: SnippetView| s.text)
}

/// The text output of a transcript: its snippet texts joined with spaces.
pub fn transcript_text(snippets: &Vec<TranscriptSnippet>) -> (s: String)
    ensures
        s@ == join(snippet_texts(snippets_view(snippets@)), " "@),
{
    proof {
        reveal_strlit(" ");
    }
    let ghost all = snippet_texts(snippets_view(snippets@));
    let mut s = String::new();
    let mut i: usize = 0;
    assert(all.take(0) =~= Seq::<Seq<char>>::empty());
    while i < snippets.len()
        invariant
            i <= snippets.len(),
            all == snippet_texts(snippets_view(snippets@)),
            s@ == join(all.take(i as int), " "@),
        decreases snippets.len() - i,
    {
        assert(all.take(i + 1).drop_last() =~= all.take(i as int));
        assert(all[i as int] == snippets@[i as int].text@);
        if i > 0 {
            s.append(" ");
        }
        s.append(snippets[i].text.as_str());
        i = i + 1;
    }
    assert(all.take(snippets.len() as int) =~= all);
    s
}

/// The text of a transcript with one more snippet is the text before it, a
/// single space, and the new snippet's text: the snippet texts are
/// separated by exactly one space each.
pub proof fn law_transcript_text_spacing(snippets: Seq<SnippetView>, next: SnippetView)
    requires
        snippets.len() >= 1,
    ensures
        join(snippet_texts(snippets.push(next)), " "@) == join(snippet_texts(snippets), " "@)
            + " "@ + next.text,
{
    assert(snippet_texts(snippets.push(next)) =~= snippet_texts(snippets).push(next.text));
    crate::text::law_join_push(snippet_texts(snippets), next.text, " "@);
}

/// The video an input port names: a watch URL on `url`, a bare ID on
/// `video_id`; any other port is refused.
pub open spec fn input_video_id_of(port: Seq<char>, value: InputValue) -> Option<
    Result<Seq<char>, ErrorView>,
> {
    if port == "url"@ {
        match value {
            InputValue::Text(_) => None,
            _ => Some(Err(ErrorView::InvalidValue(not_a_string_message("url"@)))),
        }
    } else if port == "video_id"@ {
        match value {
            InputValue::Text(s) => Some(Ok(s@)),
            _ => Some(Err(ErrorView::InvalidValue(not_a_string_message("video_id"@)))),
        }
    } else {
        Some(Err(ErrorView::InvalidValue("Unexpected input port '"@ + port + "'"@)))
    }
}

/// The video ID that the value on `port` names: on `url` the video of the
/// watch URL it holds ([`video_id_of_url`]); otherwise [`input_video_id_of`].
pub fn input_video_id(port: &str, value: &InputValue) -> (r: Result<String, AgentError>)
    ensures
        match input_video_id_of(port@, *value) {
            Some(expected) => string_result_view(r) == expected,
            None => value matches InputValue::Text(u) && string_result_view(r) == video_id_of_url(
                u@,
            ),
        },
{
    proof {
        reveal_strlit("url");
        reveal_strlit("video_id");
        reveal_strlit("Unexpected input port '");
        reveal_strlit("'");
    }
    if str_eq(port, "url") {
        match require_string(value, "url") {
            Ok(u) => video_id_from_url(u.as_str()),
            Err(e) => Err(e),
        }
    } else if str_eq(port, "video_id") {
        require_string(value, "video_id")
    } else {
        Err(AgentError::InvalidValue(concat3("Unexpected input port '", port, "'")))
    }
}

/// Whether YouTube will play the video, as the player response says.
#[derive(Debug)]
pub struct PlayabilityStatus {
    pub status: Option<String>,
    pub reason: Option<String>,
}

#[derive(Debug)]
pub struct CaptionsTracklist {
    pub caption_tracks: Vec<CaptionTrack>,
}

#[derive(Debug)]
pub struct Captions {
    pub player_captions_tracklist_renderer: Option<CaptionsTracklist>,
}

/// What the InnerTube player API answers, as far as transcripts need it.
#[derive(Debug)]
pub struct PlayerResponse {
    pub playability_status: Option<PlayabilityStatus>,
    pub captions: Option<Captions>,
}

/// A fetched transcript.
#[derive(Debug)]
pub struct Transcript {
    pub snippets: Vec<TranscriptSnippet>,
    pub video_id: String,
    /// The track's display name.
    pub language: String,
    pub language_code: String,
    pub is_generated: bool,
}

pub open spec fn string_or(s: Option<String>, default: Seq<char>) -> Seq<char> {
    match s {
        Some(v) => v@,
        None => default,
    }
}

/// The refusal a player response carries: a playability status other than
/// `OK` (a missing status reads as `UNKNOWN`).
pub open spec fn playability_error(video_id: Seq<char>, player: PlayerResponse) -> Option<ErrorView> {
    match player.playability_status {
        Some(p) => {
            let status = string_or(p.status, "UNKNOWN"@);
            if status != "OK"@ {
                Some(
                    ErrorView::IoError(
                        "YouTube will not play video '"@ + video_id + "': "@ + status + " ("@
                            + string_or(p.reason, "no reason given"@) + ")"@,
                    ),
                )
            } else {
                None
            }
        },
        None => None,
    }
}

/// The caption tracks a player response lists (none when it has no caption
/// section).
pub open spec fn player_tracks(player: PlayerResponse) -> Seq<CaptionTrack> {
    match player.captions {
        Some(c) => match c.player_captions_tracklist_renderer {
            Some(t) => t.caption_tracks@,
            None => Seq::empty(),
        },
        None => Seq::empty(),
    }
}

/// Refuses a video that YouTube will not play (private, age-restricted,
/// region-blocked), with the status and reason it gives.
pub fn check_playability(video_id: &str, player: &PlayerResponse) -> (r: Result<(), AgentError>)
    ensures
        match playability_error(video_id@, *player) {
            Some(e) => r matches Err(x) && x@ == e,
            None => r is Ok,
        },
{
    proof {
        reveal_strlit("UNKNOWN");
        reveal_strlit("OK");
        reveal_strlit("no reason given");
        reveal_strlit("YouTube will not play video '");
        reveal_strlit("': ");
        reveal_strlit(" (");
        reveal_strlit(")");
    }
    match &player.playability_status {
        None => Ok(()),
        Some(p) => {
            let status: &str = match &p.status {
                Some(s) => s.as_str(),
                None => "UNKNOWN",
            };
            if str_eq(status, "OK") {
                Ok(())
            } else {
                let reason: &str = match &p.reason {
                    Some(s) => s.as_str(),
                    None => "no reason given",
                };
                let mut m = concat3("YouTube will not play video '", video_id, "': ");
                m.append(status);
                m.append(" (");
                m.append(reason);
                m.append(")");
                Err(AgentError::IoError(m))
            }
        },
    }
}

/// Chooses the caption track to download from a player response: the video
/// must be playable and have captions, and the track is the one
/// [`select_track`] picks for `languages`.
pub fn choose_caption_track(video_id: &str, player: PlayerResponse, languages: &Vec<String>) -> (r:
    Result<CaptionTrack, AgentError>)
    ensures
        match playability_error(video_id@, player) {
            Some(e) => r matches Err(x) && x@ == e,
            None => if player_tracks(player).len() == 0 {
                r matches Err(x) && x@ == ErrorView::InvalidValue(
                    "Video '"@ + video_id@ + "' has no captions"@,
                )
            } else {
                match selected_track(player_tracks(player), strings_view(languages@)) {
                    Some(i) => r matches Ok(t) && t == player_tracks(player)[i],
                    None => r matches Err(x) && x@ == ErrorView::InvalidValue(
                        no_track_message(player_tracks(player), strings_view(languages@)),
                    ),
                }
            },
        },
{
    proof {
        reveal_strlit("Video '");
        reveal_strlit("' has no captions");
    }
    match check_playability(video_id, &player) {
        Err(e) => return Err(e),
        Ok(()) => {},
    }
    let ghost all = player_tracks(player);
    let mut tracks: Vec<CaptionTrack> = match player.captions {
        Some(c) => match c.player_captions_tracklist_renderer {
            Some(t) => t.caption_tracks,
            None => Vec::new(),
        },
        None => Vec::new(),
    };
    assert(tracks@ =~= all);
    if tracks.len() == 0 {
        return Err(AgentError::InvalidValue(concat3("Video '", video_id, "' has no captions")));
    }
    match select_track_index(&tracks, languages) {
        Ok(i) => Ok(tracks.remove(i)),
        Err(e) => Err(e),
    }
}

/// What a transcript says of the video and the track it came from.
pub open spec fn transcript_of_track(t: Transcript, video_id: Seq<char>, track: CaptionTrack) -> bool {
    &&& t.video_id@ == video_id
    &&& t.language@ == display_name_of(track)
    &&& t.language_code@ == track.language_code@
    &&& t.is_generated == is_generated_track(track)
}

/// The message when a track's timedtext document holds no snippet.
pub open spec fn empty_transcript_message(video_id: Seq<char>, language_code: Seq<char>) -> Seq<char> {
    "Transcript for video '"@ + video_id + "' ("@ + language_code + ") came back empty"@
}

/// Builds the transcript of `track` from its timedtext document: the
/// snippets that [`parse_timedtext`] reads from it, with the video and the
/// track it came from. A parse error is returned as it came, and a document
/// that yields no snippets is an error too: YouTube serves such documents
/// (an error page with status 200) when it refuses the download.
pub fn build_transcript(video_id: &str, track: &CaptionTrack, timedtext: &str) -> (r: Result<
    Transcript,
    AgentError,
>)
    ensures
        match timedtext_snippets(timedtext@, timedtext.len() as nat) {
            Err(e) => r matches Err(x) && x@ == e,
            Ok(v) => if v.len() == 0 {
                r matches Err(x) && x@ == ErrorView::IoError(
                    empty_transcript_message(video_id@, track.language_code@),
                )
            } else {
                r matches Ok(t) && snippets_view(t.snippets@) == v && transcript_of_track(
                    t,
                    video_id@,
                    *track,
                )
            },
        },
{
    proof {
        reveal_strlit("Transcript for video '");
        reveal_strlit("' (");
        reveal_strlit(") came back empty");
    }
    let snippets = match parse_timedtext(timedtext) {
        Ok(s) => s,
        Err(e) => return Err(e),
    };
    if snippets.len() == 0 {
        let mut m = concat3("Transcript for video '", video_id, "' (");
        m.append(track.language_code.as_str());
        m.append(") came back empty");
        return Err(AgentError::IoError(m));
    }
    Ok(
        Transcript {
            snippets,
            video_id: String::from_str(video_id),
            language: track.display_name(),
            language_code: track.language_code.clone(),
            is_generated: track.is_generated(),
        },
    )
}

/// Every language of the setting is a non-empty code without surrounding
/// white space.
pub proof fn law_languages_are_trimmed_codes(config: Seq<char>)
    ensures
        forall|k: int|
            0 <= k < languages_of(config).len() ==> {
                let l = #[trigger] languages_of(config)[k];
                &&& l.len() > 0
                &&& !crate::text::is_white_space(l[0])
                &&& !crate::text::is_white_space(l.last())
            },
{
    lemma_nonempty_trimmed(comma_pieces(config));
}

proof fn lemma_nonempty_trimmed(pieces: Seq<Seq<char>>)
    ensures
        forall|k: int|
            0 <= k < nonempty_trimmed(pieces).len() ==> {
                let l = #[trigger] nonempty_trimmed(pieces)[k];
                &&& l.len() > 0
                &&& !crate::text::is_white_space(l[0])
                &&& !crate::text::is_white_space(l.last())
            },
    decreases pieces.len(),
{
    if pieces.len() > 0 {
        lemma_nonempty_trimmed(pieces.drop_last());
        crate::text::lemma_trim_edges(pieces.last());
        let before = nonempty_trimmed(pieces.drop_last());
        assert forall|k: int| 0 <= k < nonempty_trimmed(pieces).len() implies {
            let l = #[trigger] nonempty_trimmed(pieces)[k];
            &&& l.len() > 0
            &&& !crate::text::is_white_space(l[0])
            &&& !crate::text::is_white_space(l.last())
        } by {
            if k < before.len() {
                assert(nonempty_trimmed(pieces)[k] == before[k]);
            }
        }
    }
}

} // verus!
