//! The options a user can pick from: grammatical categories and
//! dictionary languages, each with a display name and the fixed
//! identifiers the word API expects in request paths.

use vstd::prelude::*;

verus! {

/// Part-of-speech category that can be requested from the word API.
#[derive(Clone, Copy, Debug, PartialEq, Eq, Structural)]
pub enum GrammaticalType {
    Random,
    Noun,
    Verb,
    Adjective,
    Adverb,
}

impl GrammaticalType {
    /// Display name of the category, as rendered in a menu.
    pub open spec fn spec_name(self) -> Seq<char> {
        match self {
            GrammaticalType::Random => "Random"@,
            GrammaticalType::Noun => "Noun"@,
            GrammaticalType::Verb => "Verb"@,
            GrammaticalType::Adjective => "Adjective"@,
            GrammaticalType::Adverb => "Adverb"@,
        }
    }

    /// Identifier of the category in API request paths.
    pub open spec fn spec_api_name(self) -> Seq<char> {
        match self {
            GrammaticalType::Random => "random"@,
            GrammaticalType::Noun => "noun"@,
            GrammaticalType::Verb => "verb"@,
            GrammaticalType::Adjective => "adjective"@,
            GrammaticalType::Adverb => "adverb"@,
        }
    }

    pub fn name(&self) -> (r: &'static str)
        ensures
            r@ == self.spec_name(),
    {
        match self {
            GrammaticalType::Random => "Random",
            GrammaticalType::Noun => "Noun",
            GrammaticalType::Verb => "Verb",
            GrammaticalType::Adjective => "Adjective",
            GrammaticalType::Adverb => "Adverb",
        }
    }

    pub fn api_name(&self) -> (r: &'static str)
        ensures
            r@ == self.spec_api_name(),
    {
        match self {
            GrammaticalType::Random => "random",
            GrammaticalType::Noun => "noun",
            GrammaticalType::Verb => "verb",
            GrammaticalType::Adjective => "adjective",
            GrammaticalType::Adverb => "adverb",
        }
    }

    /// All categories, in declaration order (the order menus use).
    pub open spec fn spec_all() -> Seq<GrammaticalType> {
        seq![
            GrammaticalType::Random,
            GrammaticalType::Noun,
            GrammaticalType::Verb,
            GrammaticalType::Adjective,
            GrammaticalType::Adverb,
        ]
    }

    pub fn all() -> (r: Vec<GrammaticalType>)
        ensures
            r@ == GrammaticalType::spec_all(),
    {
        let mut v: Vec<GrammaticalType> = Vec::new();
        v.push(GrammaticalType::Random);
        v.push(GrammaticalType::Noun);
        v.push(GrammaticalType::Verb);
        v.push(GrammaticalType::Adjective);
        v.push(GrammaticalType::Adverb);
        proof {
            assert(v@ =~= GrammaticalType::spec_all());
        }
        v
    }
}

/// Dictionary language that can be requested from the word API.
#[derive(Clone, Copy, Debug, PartialEq, Eq, Structural)]
pub enum LanguageCode {
    English,
}

impl LanguageCode {
    /// ISO-639-1-style identifier of the language in API request paths.
    pub open spec fn spec_code(self) -> Seq<char> {
        match self {
            LanguageCode::English => "en"@,
        }
    }

    /// Display name of the language, as rendered in a menu.
    pub open spec fn spec_language_name(self) -> Seq<char> {
        match self {
            LanguageCode::English => "English"@,
        }
    }

    /// Identifier of the flag icon shown next to the language.
    pub open spec fn spec_flag_code(self) -> Seq<char> {
        match self {
            LanguageCode::English => "us"@,
        }
    }

    pub fn code(&self) -> (r: &'static str)
        ensures
            r@ == self.spec_code(),
    {
        match self {
            LanguageCode::English => "en",
        }
    }

    pub fn name(&self) -> (r: &'static str)
        ensures
            r@ == self.spec_language_name(),
    {
        match self {
            LanguageCode::English => "English",
        }
    }

    pub fn flag_code(&self) -> (r: &'static str)
        ensures
            r@ == self.spec_flag_code(),
    {
        match self {
            LanguageCode::English => "us",
        }
    }

    /// All languages, in declaration order (the order menus use).
    pub open spec fn spec_all() -> Seq<LanguageCode> {
        seq![LanguageCode::English]
    }

    pub fn all() -> (r: Vec<LanguageCode>)
        ensures
            r@ == LanguageCode::spec_all(),
    {
        let mut v: Vec<LanguageCode> = Vec::new();
        v.push(LanguageCode::English);
        proof {
            assert(v@ =~= LanguageCode::spec_all());
        }
        v
    }
}

/// A word with its definition and pronunciation, as served by the API.
#[derive(Clone, Debug)]
pub struct Word {
    pub word: String,
    pub definition: String,
    pub pronunciation: String,
}

/// The three fields of a word record, as sequences of characters.
pub type WordFields = (Seq<char>, Seq<char>, Seq<char>);

impl View for Word {
    type V = WordFields;

    open spec fn view(&self) -> WordFields {
        (self.word@, self.definition@, self.pronunciation@)
    }
}

impl Default for Word {
    /// The empty word record: all three fields empty.
    fn default() -> (r: Self)
        ensures
            r@ == (Seq::<char>::empty(), Seq::<char>::empty(), Seq::<char>::empty()),
    {
        Word { word: String::new(), definition: String::new(), pronunciation: String::new() }
    }
}

/// `c` is a lowercase ASCII letter.
pub open spec fn is_ascii_lower_char(c: char) -> bool {
    'a' <= c && c <= 'z'
}

/// Every character of `s` is a lowercase ASCII letter.
pub open spec fn all_ascii_lower(s: Seq<char>) -> bool {
    forall|i: int| 0 <= i < s.len() ==> is_ascii_lower_char(#[trigger] s[i])
}

/// Law: the API identifier of every grammatical category is a fixed,
/// nonempty string of lowercase ASCII letters, whatever the casing of
/// its display name.
pub proof fn lemma_grammatical_api_names_lowercase(g: GrammaticalType)
    ensures
        g.spec_api_name().len() > 0,
        all_ascii_lower(g.spec_api_name()),
{
    reveal_strlit("random");
    reveal_strlit("noun");
    reveal_strlit("verb");
    reveal_strlit("adjective");
    reveal_strlit("adverb");
}

/// Law: the path identifier and the flag identifier of every language
/// are fixed, nonempty strings of lowercase ASCII letters, whatever the
/// casing of its display name.
pub proof fn lemma_language_identifiers_lowercase(l: LanguageCode)
    ensures
        l.spec_code().len() > 0,
        all_ascii_lower(l.spec_code()),
        l.spec_flag_code().len() > 0,
        all_ascii_lower(l.spec_flag_code()),
{
    reveal_strlit("en");
    reveal_strlit("us");
}

} // verus!
