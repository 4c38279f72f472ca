//! Core data model: providers, request payloads, constraints and the
//! generated-note structure.

use vstd::prelude::*;

verus! {

/// Identifier of a note type in the caller's collection.
#[derive(Debug, Clone, Copy, PartialEq, Eq, Structural)]
pub struct NotetypeId(pub i64);

/// Identifier of a deck in the caller's collection.
#[derive(Debug, Clone, Copy, PartialEq, Eq, Structural)]
pub struct DeckId(pub i64);

/// Providers that can be used for flashcard generation.
#[derive(Debug, Clone)]
pub enum ProviderKind {
    Gemini,
    OpenRouter,
    Perplexity,
    OpenAi,
    /// Catch-all for providers not known at compile time; always rejected
    /// by the factory.
    Custom(String),
}

impl ProviderKind {
    /// The lowercase wire name of the provider.
    pub open spec fn spec_name(&self) -> Seq<char> {
        match self {
            ProviderKind::Gemini => "gemini"@,
            ProviderKind::OpenRouter => "openrouter"@,
            ProviderKind::Perplexity => "perplexity"@,
            ProviderKind::OpenAi => "openai"@,
            ProviderKind::Custom(value) => value@,
        }
    }

    pub fn as_str(&self) -> (r: &str)
        ensures
            r@ == self.spec_name(),
    {
        match self {
            ProviderKind::Gemini => "gemini",
            ProviderKind::OpenRouter => "openrouter",
            ProviderKind::Perplexity => "perplexity",
            ProviderKind::OpenAi => "openai",
            ProviderKind::Custom(value) => value.as_str(),
        }
    }

    /// The kind a lowercase wire name denotes; unknown names become
    /// `Custom`.
    pub fn from_str(value: &str) -> (r: ProviderKind)
        ensures
            r.spec_name() == value@,
            value@ == "gemini"@ <==> r is Gemini,
            value@ == "openrouter"@ <==> r is OpenRouter,
            value@ == "perplexity"@ <==> r is Perplexity,
            value@ == "openai"@ <==> r is OpenAi,
    {
        proof {
            reveal_strlit("gemini");
            reveal_strlit("openrouter");
            reveal_strlit("perplexity");
            reveal_strlit("openai");
            assert("gemini"@ != "openai"@) by {
                assert("gemini"@[0] == 'g' && "openai"@[0] == 'o');
            }
            assert("openrouter"@ != "perplexity"@) by {
                assert("openrouter"@[0] == 'o' && "perplexity"@[0] == 'p');
            }
        }
        let v = crate::text::chars_of(value);
        let r = if crate::text::chars_eq_str(&v, "gemini") {
            ProviderKind::Gemini
        } else if crate::text::chars_eq_str(&v, "openrouter") {
            ProviderKind::OpenRouter
        } else if crate::text::chars_eq_str(&v, "perplexity") {
            ProviderKind::Perplexity
        } else if crate::text::chars_eq_str(&v, "openai") {
            ProviderKind::OpenAi
        } else {
            ProviderKind::Custom(value.to_owned())
        };
        r
    }

    /// Two kinds are the same exactly when they carry the same wire name;
    /// `from_str` never builds a `Custom` that shadows a named kind.
    pub open spec fn same_kind(&self, other: &ProviderKind) -> bool {
        self.spec_name() == other.spec_name()
    }

    pub fn kind_eq(&self, other: &ProviderKind) -> (r: bool)
        ensures
            r == self.same_kind(other),
    {
        let a = crate::text::chars_of(self.as_str());
        let b = crate::text::chars_of(other.as_str());
        crate::text::chars_eq(&a, &b)
    }
}

/// Input data supplied by the user.
#[derive(Debug, Clone)]
pub enum InputPayload {
    Text(String),
    Url(String),
    File(FilePayload),
}

/// Describes a user-supplied file.
#[derive(Debug, Clone)]
pub struct FilePayload {
    pub filename: String,
    pub data: Vec<u8>,
    pub mimetype: Option<String>,
}

impl FilePayload {
    pub fn new(filename: String, data: Vec<u8>, mimetype: Option<String>) -> (r: Self)
        ensures
            r.filename == filename,
            r.data == data,
            r.mimetype == mimetype,
    {
        Self { filename, data, mimetype }
    }
}

/// Optional hints that constrain how flashcards are generated; a `None`
/// field defers to the persisted configuration.
#[derive(Debug, Clone)]
pub struct GenerationConstraints {
    pub max_cards: Option<u32>,
    pub note_type_id: Option<NotetypeId>,
    pub use_default_note_type: bool,
    pub deck_id: Option<DeckId>,
    pub prompt_override: Option<String>,
    pub model_override: Option<String>,
}

impl Default for GenerationConstraints {
    fn default() -> (r: Self)
        ensures
            r.max_cards is None,
            r.note_type_id is None,
            !r.use_default_note_type,
            r.deck_id is None,
            r.prompt_override is None,
            r.model_override is None,
    {
        GenerationConstraints {
            max_cards: None,
            note_type_id: None,
            use_default_note_type: false,
            deck_id: None,
            prompt_override: None,
            model_override: None,
        }
    }
}

/// Field values of an existing note, supplied to the provider as a tone
/// and structure reference.
#[derive(Debug, Clone)]
pub struct StyleExample {
    pub fields: Vec<GeneratedField>,
}

/// Complete request passed to the provider layer.
#[derive(Debug, Clone)]
pub struct GenerationRequest {
    pub provider: ProviderKind,
    pub input: InputPayload,
    pub constraints: GenerationConstraints,
    pub api_key: Option<String>,
    pub model: Option<String>,
    pub style_examples: Vec<StyleExample>,
}

impl GenerationRequest {
    pub fn new(
        provider: ProviderKind,
        input: InputPayload,
        constraints: GenerationConstraints,
        api_key: Option<String>,
        model: Option<String>,
        style_examples: Vec<StyleExample>,
    ) -> (r: Self)
        ensures
            r.provider == provider,
            r.input == input,
            r.constraints == constraints,
            r.api_key == api_key,
            r.model == model,
            r.style_examples == style_examples,
    {
        Self { provider, input, constraints, api_key, model, style_examples }
    }
}

/// Raw response returned by a provider before parsing into notes.
#[derive(Debug, Clone)]
pub struct ProviderResponse {
    pub raw_output: String,
    pub model: Option<String>,
    pub tokens_used: Option<u32>,
}

/// A single named field on a generated note.
#[derive(Debug, Clone, PartialEq, Eq)]
pub struct GeneratedField {
    pub name: String,
    pub value: String,
}

/// Mathematical image of a field.
pub struct FieldModel {
    pub name: Seq<char>,
    pub value: Seq<char>,
}

impl View for GeneratedField {
    type V = FieldModel;

    open spec fn view(&self) -> FieldModel {
        FieldModel { name: self.name@, value: self.value@ }
    }
}

impl GeneratedField {
    pub fn new(name: &str, value: &str) -> (r: Self)
        ensures
            r.name@ == name@,
            r.value@ == value@,
    {
        Self { name: name.to_owned(), value: value.to_owned() }
    }
}

/// The view of an optional string.
pub open spec fn view_opt_str(o: Option<String>) -> Option<Seq<char>> {
    match o {
        Some(s) => Some(s@),
        None => None,
    }
}

/// Optional metadata about the originating source.
#[derive(Debug, Clone, PartialEq, Eq)]
pub struct GeneratedSource {
    pub url: Option<String>,
    pub title: Option<String>,
    pub excerpt: Option<String>,
}

/// Mathematical image of a source.
pub struct SourceModel {
    pub url: Option<Seq<char>>,
    pub title: Option<Seq<char>>,
    pub excerpt: Option<Seq<char>>,
}

impl View for GeneratedSource {
    type V = SourceModel;

    open spec fn view(&self) -> SourceModel {
        SourceModel {
            url: view_opt_str(self.url),
            title: view_opt_str(self.title),
            excerpt: view_opt_str(self.excerpt),
        }
    }
}

impl SourceModel {
    /// All three parts blank after trimming: such a source is represented
    /// as absent, never as an empty object.
    pub open spec fn all_blank(&self) -> bool {
        &&& match self.url {
            Some(u) => crate::text::is_blank(u),
            None => true,
        }
        &&& match self.title {
            Some(t) => crate::text::is_blank(t),
            None => true,
        }
        &&& match self.excerpt {
            Some(e) => crate::text::is_blank(e),
            None => true,
        }
    }
}

/// An entire note to be added to the collection.
#[derive(Debug, Clone, PartialEq, Eq)]
pub struct GeneratedNote {
    pub fields: Vec<GeneratedField>,
    pub source: Option<GeneratedSource>,
    pub note_type_id: Option<NotetypeId>,
    pub deck_id: Option<DeckId>,
}

/// Mathematical image of a note.
pub struct NoteModel {
    pub fields: Seq<FieldModel>,
    pub source: Option<SourceModel>,
    pub note_type_id: Option<NotetypeId>,
    pub deck_id: Option<DeckId>,
}

impl View for GeneratedNote {
    type V = NoteModel;

    open spec fn view(&self) -> NoteModel {
        NoteModel {
            fields: self.fields@.map_values(|f: GeneratedField| f@),
            source: match self.source {
                Some(s) => Some(s@),
                None => None,
            },
            note_type_id: self.note_type_id,
            deck_id: self.deck_id,
        }
    }
}

impl GeneratedNote {
    pub fn new(fields: Vec<GeneratedField>) -> (r: Self)
        ensures
            r.fields == fields,
            r.source is None,
            r.note_type_id is None,
            r.deck_id is None,
    {
        Self { fields, source: None, note_type_id: None, deck_id: None }
    }
}

impl NoteModel {
    /// A well-formed note: at least one field, values never blank and
    /// stored trimmed, and field names unique without regard to ASCII
    /// case.
    pub open spec fn wf(&self) -> bool {
        &&& self.fields.len() >= 1
        &&& forall|i: int|
            0 <= i < self.fields.len() ==> !crate::text::is_blank(#[trigger] self.fields[i].value)
        &&& forall|i: int|
            0 <= i < self.fields.len() ==> (#[trigger] self.fields[i].value)
                == crate::text::spec_trim(self.fields[i].value)
        &&& forall|i: int, j: int|
            0 <= i < j < self.fields.len() ==> crate::text::spec_lower(
                #[trigger] self.fields[i].name,
            ) != crate::text::spec_lower(#[trigger] self.fields[j].name)
    }
}

} // verus!
