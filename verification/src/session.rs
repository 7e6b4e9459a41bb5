//! The word-fetch flow: the current selection, the request URL it
//! yields, the reading of a response body, and the result state that a
//! fetch resolves into.
//!
//! The result state is one tagged union, so a word and an error can
//! never be present at the same time.  A fetch first clears a previous
//! error, then resolves into exactly one of the two; when fetches
//! overlap, the resolution that arrives last wins.

use vstd::prelude::*;
use vstd::string::StringExecFns;

use crate::model::GrammaticalType;
use crate::model::LanguageCode;
use crate::model::Word;
use crate::wire::decode_word_list;
use crate::wire::parse_word_list;

verus! {

/// The current menu choices: a grammatical category and a language.
#[derive(Clone, Copy, Debug, PartialEq, Eq, Structural)]
pub struct Selection {
    pub grammatical_type: GrammaticalType,
    pub language: LanguageCode,
}

impl Selection {
    /// The default selection: a random word in English.
    pub fn new() -> (r: Selection)
        ensures
            r.grammatical_type == GrammaticalType::Random,
            r.language == LanguageCode::English,
    {
        Selection { grammatical_type: GrammaticalType::Random, language: LanguageCode::English }
    }
}

/// The request URL for the selection `sel` under the base URL `base`:
/// base, language code and category identifier, joined by slashes.
pub open spec fn spec_request_url(base: Seq<char>, sel: Selection) -> Seq<char> {
    base + "/"@ + sel.language.spec_code() + "/"@ + sel.grammatical_type.spec_api_name()
}

/// Builds the request URL for the selection under the given base URL.
pub fn request_url(base: &str, sel: &Selection) -> (r: String)
    ensures
        r@ == spec_request_url(base@, *sel),
{
    let mut u = String::from_str(base);
    u.append("/");
    u.append(sel.language.code());
    u.append("/");
    u.append(sel.grammatical_type.api_name());
    u
}

/// Message reported when a well-formed response held no words.
pub open spec fn no_words_message() -> Seq<char> {
    "No words found in response"@
}

/// Message reported when a response body does not follow the wire
/// format.
pub open spec fn decode_failure_message() -> Seq<char> {
    "Failed to parse JSON: expected an array of word objects"@
}

/// Reads a response body: the first word of the list it spells, the
/// no-words error on an empty list, or the decode error where the body
/// does not follow the wire format.
pub fn interpret_response(body: &str) -> (r: Result<Word, String>)
    ensures
        match parse_word_list(body@) {
            Some(recs) => if recs.len() == 0 {
                r matches Err(e) && e@ == no_words_message()
            } else {
                r matches Ok(w) && w@ == recs[0]
            },
            None => r matches Err(e) && e@ == decode_failure_message(),
        },
{
    match decode_word_list(body) {
        Some(mut words) => {
            if words.len() == 0 {
                Err(String::from_str("No words found in response"))
            } else {
                Ok(words.remove(0))
            }
        },
        None => Err(String::from_str("Failed to parse JSON: expected an array of word objects")),
    }
}

/// Outcome state of the latest fetch.  One union holds the word and
/// the error, so "both present" is unrepresentable.
pub enum ResultState {
    NoResult,
    HasWord(Word),
    HasError(String),
}

/// The result state after a fetch begins: a previous error is cleared
/// before anything is requested; a previous word stays shown until the
/// fetch resolves.
pub open spec fn spec_clear_error(r: ResultState) -> ResultState {
    match r {
        ResultState::HasError(_) => ResultState::NoResult,
        other => other,
    }
}

/// The result state a resolved fetch leaves behind.
pub open spec fn spec_resolved(o: Result<Word, String>) -> ResultState {
    match o {
        Ok(w) => ResultState::HasWord(w),
        Err(e) => ResultState::HasError(e),
    }
}

/// One UI session: the current selection and the outcome of the
/// latest fetch.
pub struct Session {
    pub selection: Selection,
    pub result: ResultState,
}

impl Session {
    /// A fresh session: the default selection and no result yet.
    pub fn new() -> (r: Session)
        ensures
            r.selection.grammatical_type == GrammaticalType::Random,
            r.selection.language == LanguageCode::English,
            r.result is NoResult,
    {
        Session { selection: Selection::new(), result: ResultState::NoResult }
    }

    /// Picks a grammatical category; the result state is untouched.
    pub fn set_grammatical_type(&mut self, g: GrammaticalType)
        ensures
            final(self).selection.grammatical_type == g,
            final(self).selection.language == old(self).selection.language,
            final(self).result == old(self).result,
    {
        self.selection.grammatical_type = g;
    }

    /// Picks a language; the result state is untouched.
    pub fn set_language(&mut self, l: LanguageCode)
        ensures
            final(self).selection.language == l,
            final(self).selection.grammatical_type == old(self).selection.grammatical_type,
            final(self).result == old(self).result,
    {
        self.selection.language = l;
    }

    /// Begins a fetch: clears a previous error and yields the URL to
    /// request for the current selection.
    pub fn begin_fetch(&mut self, base: &str) -> (url: String)
        ensures
            final(self).selection == old(self).selection,
            final(self).result == spec_clear_error(old(self).result),
            url@ == spec_request_url(base@, old(self).selection),
    {
        let clear = match &self.result {
            ResultState::HasError(_) => true,
            _ => false,
        };
        if clear {
            self.result = ResultState::NoResult;
        }
        request_url(base, &self.selection)
    }

    /// Resolves a fetch with its outcome; the resolution that arrives
    /// last wins.
    pub fn resolve_fetch(&mut self, outcome: Result<Word, String>)
        ensures
            final(self).selection == old(self).selection,
            final(self).result == spec_resolved(outcome),
    {
        match outcome {
            Ok(w) => {
                self.result = ResultState::HasWord(w);
            },
            Err(e) => {
                self.result = ResultState::HasError(e);
            },
        }
    }
}

/// One observable step of the fetch flow: a fetch beginning, or a
/// fetch resolving with its outcome.
pub enum FetchStep {
    Begin,
    Resolve(Result<Word, String>),
}

/// The result state after one fetch step.
pub open spec fn spec_step(r: ResultState, step: FetchStep) -> ResultState {
    match step {
        FetchStep::Begin => spec_clear_error(r),
        FetchStep::Resolve(o) => spec_resolved(o),
    }
}

/// The result state after a sequence of fetch steps, applied in order.
pub open spec fn spec_after_steps(r: ResultState, steps: Seq<FetchStep>) -> ResultState
    decreases steps.len(),
{
    if steps.len() == 0 {
        r
    } else {
        spec_after_steps(spec_step(r, steps[0]), steps.drop_first())
    }
}

/// Law: a resolution leaves exactly one of the word and the error
/// present, the one its outcome names, and never no result.
pub proof fn lemma_resolution_exclusive(o: Result<Word, String>)
    ensures
        o matches Ok(w) ==> spec_resolved(o) == ResultState::HasWord(w),
        o matches Err(e) ==> spec_resolved(o) == ResultState::HasError(e),
        !(spec_resolved(o) is NoResult),
{
}

/// Law: however fetches overlap — any interleaving of beginnings and
/// resolutions — once the last resolution has arrived, the result
/// state is exactly that resolution's outcome: the word on success,
/// the error message on failure.  No stale error survives a later
/// successful resolution.
pub proof fn lemma_last_resolution_wins(
    start: ResultState,
    steps: Seq<FetchStep>,
    o: Result<Word, String>,
)
    requires
        steps.len() > 0,
        steps.last() == FetchStep::Resolve(o),
    ensures
        spec_after_steps(start, steps) == spec_resolved(o),
        o matches Ok(w) ==> spec_after_steps(start, steps) == ResultState::HasWord(w),
        o matches Err(e) ==> spec_after_steps(start, steps) == ResultState::HasError(e),
    decreases steps.len(),
{
    if steps.len() == 1 {
        assert(steps[0] == FetchStep::Resolve(o));
    } else {
        assert(steps.drop_first().last() == FetchStep::Resolve(o));
        lemma_last_resolution_wins(spec_step(start, steps[0]), steps.drop_first(), o);
    }
}

} // verus!
