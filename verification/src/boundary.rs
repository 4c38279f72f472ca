//! Service boundary messages and their interpretation.
//!
//! The transport is external: these are the plain message shapes it
//! delivers, and the verified rules that turn them into requests.

use vstd::prelude::*;
use crate::config::AiGenerationConfig;
use crate::errors::AiError;
use crate::errors::AiResult;
use crate::text::is_blank;
use crate::text::spec_trim;
use crate::types::DeckId;
use crate::types::FilePayload;
use crate::types::GeneratedField;
use crate::types::GenerationConstraints;
use crate::types::InputPayload;
use crate::types::NotetypeId;
use crate::types::ProviderKind;
use crate::types::StyleExample;

verus! {

/// Wire codes for the provider selection.
pub const PROVIDER_UNSPECIFIED: i32 = 0;

pub const PROVIDER_GEMINI: i32 = 1;

pub const PROVIDER_OPENROUTER: i32 = 2;

pub const PROVIDER_PERPLEXITY: i32 = 3;

pub const PROVIDER_OPENAI: i32 = 4;

/// Wire codes for the input kind.
pub const INPUT_UNSPECIFIED: i32 = 0;

pub const INPUT_TEXT: i32 = 1;

pub const INPUT_URL: i32 = 2;

pub const INPUT_FILE: i32 = 3;

/// An uploaded file as the transport delivers it.
#[derive(Debug, Clone)]
pub struct FileMessage {
    pub filename: String,
    pub data: Vec<u8>,
    pub mimetype: String,
}

/// The generation request message.
#[derive(Debug, Clone)]
pub struct GenerateFlashcardsRequest {
    pub provider: i32,
    pub input_type: i32,
    pub text: String,
    pub url: String,
    pub file: Option<FileMessage>,
    pub max_cards: u32,
    pub note_type_id: i64,
    pub use_default_note_type: bool,
    pub deck_id: i64,
    pub prompt_override: String,
    pub model_override: String,
}

/// The model-listing request message.
#[derive(Debug, Clone)]
pub struct ListModelsRequest {
    pub provider: i32,
    pub api_key: String,
}

/// The provider kind a wire code denotes; unknown codes fall back to
/// Gemini.
pub open spec fn spec_provider_of_code(code: i32) -> ProviderKind {
    if code == PROVIDER_GEMINI {
        ProviderKind::Gemini
    } else if code == PROVIDER_OPENROUTER {
        ProviderKind::OpenRouter
    } else if code == PROVIDER_PERPLEXITY {
        ProviderKind::Perplexity
    } else if code == PROVIDER_OPENAI {
        ProviderKind::OpenAi
    } else {
        ProviderKind::Gemini
    }
}

/// A code that names one of the supported providers.
pub open spec fn spec_known_provider_code(code: i32) -> bool {
    code == PROVIDER_GEMINI || code == PROVIDER_OPENROUTER || code == PROVIDER_PERPLEXITY
        || code == PROVIDER_OPENAI
}

impl crate::controller::AiGenerationController {
    /// Map a wire code to a provider kind.
    pub fn resolve_provider(provider: i32) -> (r: ProviderKind)
        ensures
            r == spec_provider_of_code(provider),
    {
        if provider == PROVIDER_GEMINI {
            ProviderKind::Gemini
        } else if provider == PROVIDER_OPENROUTER {
            ProviderKind::OpenRouter
        } else if provider == PROVIDER_PERPLEXITY {
            ProviderKind::Perplexity
        } else if provider == PROVIDER_OPENAI {
            ProviderKind::OpenAi
        } else {
            ProviderKind::Gemini
        }
    }

    /// Read the optional constraint fields out of the request message:
    /// zero counts and ids mean absent, blank overrides mean absent.
    pub fn build_constraints(req: &GenerateFlashcardsRequest) -> (r: GenerationConstraints)
        ensures
            r.max_cards == (if req.max_cards > 0 {
                Some(req.max_cards)
            } else {
                None::<u32>
            }),
            r.note_type_id == (if req.note_type_id != 0 {
                Some(NotetypeId(req.note_type_id))
            } else {
                None::<NotetypeId>
            }),
            r.use_default_note_type == req.use_default_note_type,
            r.deck_id == (if req.deck_id != 0 {
                Some(DeckId(req.deck_id))
            } else {
                None::<DeckId>
            }),
            (if is_blank(req.prompt_override@) {
                r.prompt_override is None
            } else {
                r.prompt_override matches Some(p) && p@ == req.prompt_override@
            }),
            (if is_blank(req.model_override@) {
                r.model_override is None
            } else {
                r.model_override matches Some(m) && m@ == req.model_override@
            }),
    {
        let po = crate::text::chars_of(req.prompt_override.as_str());
        let mo = crate::text::chars_of(req.model_override.as_str());
        GenerationConstraints {
            max_cards: if req.max_cards > 0 {
                Some(req.max_cards)
            } else {
                None
            },
            note_type_id: if req.note_type_id != 0 {
                Some(NotetypeId(req.note_type_id))
            } else {
                None
            },
            use_default_note_type: req.use_default_note_type,
            deck_id: if req.deck_id != 0 {
                Some(DeckId(req.deck_id))
            } else {
                None
            },
            prompt_override: if crate::text::blank_chars(&po) {
                None
            } else {
                Some(req.prompt_override.clone())
            },
            model_override: if crate::text::blank_chars(&mo) {
                None
            } else {
                Some(req.model_override.clone())
            },
        }
    }
}

/// The provider a request runs against: an explicit known code wins,
/// anything else falls back to the configured selection.
pub fn resolve_provider_with_config(provider: i32, config: &AiGenerationConfig) -> (r:
    ProviderKind)
    ensures
        spec_known_provider_code(provider) ==> r == spec_provider_of_code(provider),
        !spec_known_provider_code(provider) ==> r == (match config.selected_provider {
            Some(k) => k,
            None => ProviderKind::Gemini,
        }),
{
    if provider == PROVIDER_GEMINI || provider == PROVIDER_OPENROUTER || provider
        == PROVIDER_PERPLEXITY || provider == PROVIDER_OPENAI {
        crate::controller::AiGenerationController::resolve_provider(provider)
    } else {
        config.provider_selected()
    }
}

/// The key a model-listing call uses: a non-blank override wins over
/// the stored key for the provider.
pub fn resolve_api_key_override(
    provided: &str,
    config: &AiGenerationConfig,
    provider: &ProviderKind,
) -> (r: Option<String>)
    ensures
        if is_blank(provided@) {
            match crate::config::spec_lookup(config.api_keys@, provider.spec_name()) {
                Some(e) => r == e.api_key,
                None => r is None,
            }
        } else {
            r matches Some(k) && k@ == spec_trim(provided@)
        },
{
    let t = crate::text::chars_trimmed(provided);
    if t.len() == 0 {
        config.api_key_for(provider)
    } else {
        Some(crate::text::string_of_chars(&t))
    }
}

/// The note type style examples are drawn from: the explicit constraint
/// wins; else the configured default when the request opted in.
pub fn effective_note_type_id(
    constraints: &GenerationConstraints,
    config: &AiGenerationConfig,
) -> (r: Option<NotetypeId>)
    ensures
        r == crate::controller::spec_resolved_note_type(
            *constraints,
            config.default_note_type_id,
        ),
{
    if let Some(ntid) = constraints.note_type_id {
        Some(ntid)
    } else if constraints.use_default_note_type {
        config.default_note_type_id
    } else {
        None
    }
}

/// Turn the request message's payload into an input payload: the active
/// variant must carry content.
pub fn payload_from_request(req: &GenerateFlashcardsRequest) -> (r: AiResult<InputPayload>)
    ensures
        req.input_type == INPUT_TEXT ==> (if is_blank(req.text@) {
            r matches Err(e) && e matches AiError::InvalidInput(m) && m@
                == "no text provided for generation"@
        } else {
            r matches Ok(p) && p matches InputPayload::Text(t) && t@ == spec_trim(req.text@)
        }),
        req.input_type == INPUT_URL ==> (if is_blank(req.url@) {
            r matches Err(e) && e matches AiError::InvalidInput(m) && m@
                == "no URL provided for generation"@
        } else {
            r matches Ok(p) && p matches InputPayload::Url(u) && u@ == spec_trim(req.url@)
        }),
        req.input_type == INPUT_FILE ==> (match req.file {
            None => r matches Err(e) && e matches AiError::InvalidInput(m) && m@
                == "missing file payload"@,
            Some(f) => if f.data@.len() == 0 {
                r matches Err(e) && e matches AiError::InvalidInput(m) && m@
                    == "file payload was empty"@
            } else {
                {
                    &&& r matches Ok(p)
                    &&& p matches InputPayload::File(fp)
                    &&& fp.filename@ == (if f.filename@.len() == 0 {
                        "upload"@
                    } else {
                        f.filename@
                    })
                    &&& fp.data@ == f.data@
                    &&& crate::types::view_opt_str(fp.mimetype) == (if is_blank(f.mimetype@) {
                        None::<Seq<char>>
                    } else {
                        Some(f.mimetype@)
                    })
                }
            },
        }),
        !(req.input_type == INPUT_TEXT || req.input_type == INPUT_URL || req.input_type
            == INPUT_FILE) ==> (r matches Err(
            e,
        ) && e matches AiError::InvalidInput(m) && m@
            == "no input provided for flashcard generation"@),
{
    if req.input_type == INPUT_TEXT {
        let t = crate::text::chars_trimmed(req.text.as_str());
        if t.len() == 0 {
            Err(AiError::InvalidInput("no text provided for generation".to_owned()))
        } else {
            Ok(InputPayload::Text(crate::text::string_of_chars(&t)))
        }
    } else if req.input_type == INPUT_URL {
        let u = crate::text::chars_trimmed(req.url.as_str());
        if u.len() == 0 {
            Err(AiError::InvalidInput("no URL provided for generation".to_owned()))
        } else {
            Ok(InputPayload::Url(crate::text::string_of_chars(&u)))
        }
    } else if req.input_type == INPUT_FILE {
        match &req.file {
            None => Err(AiError::InvalidInput("missing file payload".to_owned())),
            Some(f) => {
                if f.data.len() == 0 {
                    return Err(AiError::InvalidInput("file payload was empty".to_owned()));
                }
                let filename = if f.filename.as_str().is_empty() {
                    "upload".to_owned()
                } else {
                    f.filename.clone()
                };
                let mc = crate::text::chars_of(f.mimetype.as_str());
                let mimetype = if crate::text::blank_chars(&mc) {
                    None
                } else {
                    Some(f.mimetype.clone())
                };
                let mut data: Vec<u8> = Vec::new();
                data.extend_from_slice(f.data.as_slice());
                proof {
                    assert(data@ =~= f.data@);
                }
                Ok(InputPayload::File(FilePayload { filename, data, mimetype }))
            },
        }
    } else {
        Err(AiError::InvalidInput("no input provided for flashcard generation".to_owned()))
    }
}

/// A stored note's field record split at the unit separator.
pub fn split_note_fields(fields: &str) -> (r: Vec<String>)
    ensures
        r.deep_view() == crate::text::spec_split_char(fields@, '\u{1f}'),
{
    let fc = crate::text::chars_of(fields);
    let pieces = crate::text::split_char(&fc, '\u{1f}');
    let n = pieces.len();
    let mut out: Vec<String> = Vec::new();
    let mut i: usize = 0;
    while i < n
        invariant
            0 <= i <= n == pieces@.len(),
            out@.len() == i,
            forall|k: int| 0 <= k < i ==> (#[trigger] out@[k])@ == pieces@[k]@,
        decreases n - i,
    {
        out.push(crate::text::string_of_chars(&pieces[i]));
        i = i + 1;
    }
    proof {
        assert forall|k: int| 0 <= k < n implies #[trigger] out.deep_view()[k]
            == pieces.deep_view()[k] by {
            assert(out.deep_view()[k] == out@[k].deep_view());
            assert(out@[k].deep_view() == out@[k]@);
            assert(pieces.deep_view()[k] == pieces@[k].deep_view());
            assert(pieces@[k].deep_view() =~= pieces@[k]@);
        }
        assert(out.deep_view() =~= pieces.deep_view());
    }
    out
}

/// The fields of one style example: positional field values paired with
/// the note type's field names; blank values are dropped and the kept
/// ones trimmed.
pub open spec fn spec_example_fields(
    names: Seq<Seq<char>>,
    values: Seq<Seq<char>>,
    n: int,
) -> Seq<crate::types::FieldModel>
    decreases n,
{
    if n <= 0 {
        Seq::empty()
    } else {
        let prior = spec_example_fields(names, values, n - 1);
        if is_blank(values[n - 1]) {
            prior
        } else {
            prior + seq![
                crate::types::FieldModel { name: names[n - 1], value: spec_trim(values[n - 1]) },
            ]
        }
    }
}

/// The number of positions paired off between names and values.
pub open spec fn spec_pair_count(names_len: int, values_len: int) -> int {
    if names_len <= values_len {
        names_len
    } else {
        values_len
    }
}

/// The views of a record list.
pub open spec fn str_views(s: Seq<String>) -> Seq<Seq<char>> {
    s.map_values(|x: String| x@)
}

/// The views of the examples' field lists.
pub open spec fn example_views(s: Seq<StyleExample>) -> Seq<Seq<crate::types::FieldModel>> {
    s.map_values(|e: StyleExample| crate::parser::field_views(e.fields@))
}

/// The style examples built from field names and stored records: one
/// per record that keeps at least one non-blank field.
pub open spec fn spec_style_examples(
    names: Seq<Seq<char>>,
    records: Seq<Seq<char>>,
    n: int,
) -> Seq<Seq<crate::types::FieldModel>>
    decreases n,
{
    if n <= 0 {
        Seq::empty()
    } else {
        let prior = spec_style_examples(names, records, n - 1);
        let values = crate::text::spec_split_char(records[n - 1], '\u{1f}');
        let fs = spec_example_fields(
            names,
            values,
            spec_pair_count(names.len() as int, values.len() as int),
        );
        if fs.len() == 0 {
            prior
        } else {
            prior + seq![fs]
        }
    }
}

/// At most this many style examples accompany a prompt.
pub const STYLE_EXAMPLE_LIMIT: usize = 5;

/// How many of the stored records are used: the cap, or all of them
/// when fewer exist.
pub open spec fn spec_capped_records(records_len: int) -> int {
    if records_len <= STYLE_EXAMPLE_LIMIT as int {
        records_len
    } else {
        STYLE_EXAMPLE_LIMIT as int
    }
}

proof fn lemma_style_examples_len(names: Seq<Seq<char>>, records: Seq<Seq<char>>, n: int)
    requires
        n >= 0,
    ensures
        spec_style_examples(names, records, n).len() <= n,
    decreases n,
{
    if n > 0 {
        lemma_style_examples_len(names, records, n - 1);
    }
}

/// Gather the style examples for a generation: none without a resolved
/// note type or without field names; otherwise one example per stored
/// record that keeps a non-blank field, from at most
/// [`STYLE_EXAMPLE_LIMIT`] records.
pub fn gather_style_examples(
    note_type: &Option<NotetypeId>,
    field_names: &Vec<String>,
    records: &Vec<String>,
) -> (r: Vec<StyleExample>)
    ensures
        r@.len() <= STYLE_EXAMPLE_LIMIT as int,
        (note_type is None || field_names@.len() == 0) ==> r@.len() == 0,
        (note_type is Some && field_names@.len() > 0) ==> example_views(r@)
            == spec_style_examples(
            field_names.deep_view(),
            str_views(records@),
            spec_capped_records(records@.len() as int),
        ),
{
    if note_type.is_none() || field_names.len() == 0 {
        return Vec::new();
    }
    let capped: Vec<String> = if records.len() <= STYLE_EXAMPLE_LIMIT {
        let mut all: Vec<String> = Vec::new();
        let n = records.len();
        let mut i: usize = 0;
        while i < n
            invariant
                0 <= i <= n == records@.len(),
                all@.len() == i,
                forall|k: int| 0 <= k < i ==> #[trigger] all@[k] == records@[k],
            decreases n - i,
        {
            all.push(records[i].clone());
            i = i + 1;
        }
        all
    } else {
        let mut some: Vec<String> = Vec::new();
        let mut i: usize = 0;
        while i < STYLE_EXAMPLE_LIMIT
            invariant
                0 <= i <= STYLE_EXAMPLE_LIMIT < records@.len(),
                some@.len() == i,
                forall|k: int| 0 <= k < i ==> #[trigger] some@[k] == records@[k],
            decreases STYLE_EXAMPLE_LIMIT - i,
        {
            some.push(records[i].clone());
            i = i + 1;
        }
        some
    };
    proof {
        assert(capped@.len() == spec_capped_records(records@.len() as int));
        assert(str_views(capped@) =~= str_views(records@).take(
            spec_capped_records(records@.len() as int),
        ));
        lemma_style_examples_take(
            field_names.deep_view(),
            str_views(records@),
            spec_capped_records(records@.len() as int),
        );
        lemma_style_examples_len(
            field_names.deep_view(),
            str_views(capped@),
            capped@.len() as int,
        );
    }
    build_style_examples(field_names, &capped)
}

/// A prefix of the records yields the examples of that prefix.
proof fn lemma_style_examples_take(names: Seq<Seq<char>>, records: Seq<Seq<char>>, n: int)
    requires
        0 <= n <= records.len(),
    ensures
        spec_style_examples(names, records.take(n), n) == spec_style_examples(names, records, n),
    decreases n,
{
    if n > 0 {
        assert(records.take(n).take(n - 1) =~= records.take(n - 1));
        lemma_style_examples_take(names, records, n - 1);
        assert(spec_style_examples(names, records.take(n - 1), n - 1) == spec_style_examples(
            names,
            records.take(n),
            n - 1,
        )) by {
            lemma_style_examples_prefix_agree(names, records.take(n), records.take(n - 1), n - 1);
        }
        assert(records.take(n)[n - 1] == records[n - 1]);
    }
}

/// Two record lists agreeing on the first `n` positions yield the same
/// examples up to `n`.
proof fn lemma_style_examples_prefix_agree(
    names: Seq<Seq<char>>,
    a: Seq<Seq<char>>,
    b: Seq<Seq<char>>,
    n: int,
)
    requires
        0 <= n,
        forall|k: int| 0 <= k < n ==> a[k] == b[k],
    ensures
        spec_style_examples(names, a, n) == spec_style_examples(names, b, n),
    decreases n,
{
    if n > 0 {
        lemma_style_examples_prefix_agree(names, a, b, n - 1);
    }
}

/// Build the style examples for a prompt from the note type's field
/// names and the stored field records.
pub fn build_style_examples(field_names: &Vec<String>, records: &Vec<String>) -> (r: Vec<
    StyleExample,
>)
    ensures
        example_views(r@) == spec_style_examples(
            field_names.deep_view(),
            str_views(records@),
            records@.len() as int,
        ),
        r@.len() <= records@.len(),
{
    let ghost names = field_names.deep_view();
    let ghost recs = str_views(records@);
    let rn = records.len();
    let mut out: Vec<StyleExample> = Vec::new();
    let mut ri: usize = 0;
    proof {
        assert(example_views(out@) =~= spec_style_examples(names, recs, 0));
        assert(names.len() == field_names@.len());
    }
    while ri < rn
        invariant
            0 <= ri <= rn == records@.len(),
            names == field_names.deep_view(),
            names.len() == field_names@.len(),
            recs == str_views(records@),
            example_views(out@) == spec_style_examples(names, recs, ri as int),
        decreases rn - ri,
    {
        let values = split_note_fields(records[ri].as_str());
        let ghost vv = values.deep_view();
        proof {
            assert(recs[ri as int] == records@[ri as int]@);
        }
        let nn = field_names.len();
        let vn = values.len();
        let limit = if nn <= vn {
            nn
        } else {
            vn
        };
        let mut fields: Vec<GeneratedField> = Vec::new();
        let mut fi: usize = 0;
        proof {
            assert(crate::parser::field_views(fields@) =~= spec_example_fields(names, vv, 0));
        }
        while fi < limit
            invariant
                0 <= fi <= limit,
                limit == spec_pair_count(names.len() as int, vv.len() as int),
                limit <= field_names@.len(),
                limit <= values@.len(),
                names == field_names.deep_view(),
                names.len() == field_names@.len(),
                vv == values.deep_view(),
                vv.len() == values@.len(),
                crate::parser::field_views(fields@) == spec_example_fields(
                    names,
                    vv,
                    fi as int,
                ),
            decreases limit - fi,
        {
            proof {
                assert(vv[fi as int] == values@[fi as int]@);
                assert(names[fi as int] == field_names@[fi as int]@);
            }
            let ghost pre = crate::parser::field_views(fields@);
            let vc = crate::text::chars_of(values[fi].as_str());
            let t = crate::text::trim_chars(&vc);
            if t.len() > 0 {
                let value = crate::text::string_of_chars(&t);
                fields.push(
                    GeneratedField::new(field_names[fi].as_str(), value.as_str()),
                );
                proof {
                    assert(crate::parser::field_views(fields@) =~= pre + seq![
                        crate::types::FieldModel {
                            name: names[fi as int],
                            value: spec_trim(vv[fi as int]),
                        },
                    ]);
                }
            }
            proof {
                assert(crate::parser::field_views(fields@) =~= spec_example_fields(
                    names,
                    vv,
                    fi + 1,
                ));
            }
            fi = fi + 1;
        }
        let ghost pre_out = example_views(out@);
        if fields.len() > 0 {
            let ghost fv = crate::parser::field_views(fields@);
            out.push(StyleExample { fields });
            proof {
                assert(example_views(out@) =~= pre_out + seq![fv]);
            }
        }
        proof {
            assert(example_views(out@) =~= spec_style_examples(names, recs, ri + 1));
        }
        ri = ri + 1;
    }
    proof {
        lemma_style_examples_len(names, recs, rn as int);
        assert(out@.len() == example_views(out@).len());
    }
    out
}

} // verus!
