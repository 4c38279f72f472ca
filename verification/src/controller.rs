//! Orchestration: configured defaults flow into the request, parsed
//! notes are truncated and backfilled per the effective constraints.

use vstd::prelude::*;
use crate::config::AiGenerationConfig;
use crate::errors::AiResult;
use crate::parser::note_views;
use crate::types::DeckId;
use crate::types::GeneratedNote;
use crate::types::GenerationConstraints;
use crate::types::GenerationRequest;
use crate::types::NoteModel;
use crate::types::NotetypeId;

verus! {

pub struct AiGenerationController;

/// What one generation call hands back: the notes and the raw model
/// output they were recovered from.
#[derive(Debug)]
pub struct GenerationOutcome {
    pub notes: Vec<GeneratedNote>,
    pub raw_response: String,
}

/// The card limit in force: the request's count, else the configured
/// default, kept only when positive.
pub open spec fn spec_effective_limit(mc: Option<u32>, configured: Option<u32>) -> Option<u32> {
    let chosen = match mc {
        Some(m) => Some(m),
        None => configured,
    };
    match chosen {
        Some(m) => if m > 0 {
            Some(m)
        } else {
            None
        },
        None => None,
    }
}

/// The note-type backfill in force: an explicit constraint wins; else
/// the configured default applies only when the request opted in.
pub open spec fn spec_resolved_note_type(
    constraints: GenerationConstraints,
    configured: Option<NotetypeId>,
) -> Option<NotetypeId> {
    if constraints.note_type_id is Some {
        constraints.note_type_id
    } else if constraints.use_default_note_type {
        configured
    } else {
        None
    }
}

/// One note after constraint application: missing ids are backfilled,
/// and a source whose parts are all blank is cleared.
pub open spec fn spec_apply_note(
    m: NoteModel,
    ntid: Option<NotetypeId>,
    did: Option<DeckId>,
) -> NoteModel {
    NoteModel {
        fields: m.fields,
        source: match m.source {
            Some(s) => if s.all_blank() {
                None
            } else {
                Some(s)
            },
            None => None,
        },
        note_type_id: if m.note_type_id is Some {
            m.note_type_id
        } else {
            ntid
        },
        deck_id: if m.deck_id is Some {
            m.deck_id
        } else {
            did
        },
    }
}

/// The whole note list after constraint application: truncated from the
/// tail to the limit, then backfilled note by note.
pub open spec fn spec_apply_notes(
    models: Seq<NoteModel>,
    limit: Option<u32>,
    ntid: Option<NotetypeId>,
    did: Option<DeckId>,
) -> Seq<NoteModel> {
    let kept = match limit {
        Some(l) => if models.len() > l {
            models.take(l as int)
        } else {
            models
        },
        None => models,
    };
    kept.map_values(|m: NoteModel| spec_apply_note(m, ntid, did))
}

impl AiGenerationController {
    /// Fill a request's gaps from the configuration: the stored key for
    /// its provider, the preferred model, and the default card count.
    pub fn apply_config_defaults(request: GenerationRequest, config: &AiGenerationConfig) -> (r:
        GenerationRequest)
        ensures
            r.provider == request.provider,
            r.input == request.input,
            r.style_examples == request.style_examples,
            request.api_key is Some ==> r.api_key == request.api_key,
            request.api_key is None ==> (match crate::config::spec_lookup(
                config.api_keys@,
                request.provider.spec_name(),
            ) {
                Some(e) => r.api_key == e.api_key,
                None => r.api_key is None,
            }),
            r.model == (if request.model is Some {
                request.model
            } else {
                config.preferred_model
            }),
            r.constraints.max_cards == (if request.constraints.max_cards is Some {
                request.constraints.max_cards
            } else {
                config.default_max_cards
            }),
            r.constraints.note_type_id == request.constraints.note_type_id,
            r.constraints.use_default_note_type == request.constraints.use_default_note_type,
            r.constraints.deck_id == request.constraints.deck_id,
            r.constraints.prompt_override == request.constraints.prompt_override,
            r.constraints.model_override == request.constraints.model_override,
    {
        let mut request = request;
        if request.api_key.is_none() {
            request.api_key = config.api_key_for(&request.provider);
        }
        if request.model.is_none() {
            request.model = match &config.preferred_model {
                Some(m) => Some(m.clone()),
                None => None,
            };
        }
        if request.constraints.max_cards.is_none() {
            request.constraints.max_cards = config.default_max_cards;
        }
        request
    }

    /// The note-type id notes are backfilled with.
    pub fn resolve_note_type_id(
        constraints: &GenerationConstraints,
        config: &AiGenerationConfig,
    ) -> (r: Option<NotetypeId>)
        ensures
            r == spec_resolved_note_type(*constraints, config.default_note_type_id),
    {
        if let Some(ntid) = constraints.note_type_id {
            return Some(ntid);
        }
        if constraints.use_default_note_type {
            return config.default_note_type_id;
        }
        None
    }

    /// Apply the effective constraints: truncate the tail beyond the
    /// card limit, backfill missing note-type and deck ids, and clear
    /// any source whose parts are all blank. No surviving note carries
    /// an all-blank source.
    pub fn apply_constraints(
        notes: &mut Vec<GeneratedNote>,
        constraints: &GenerationConstraints,
        config: &AiGenerationConfig,
    )
        ensures
            note_views(final(notes)@) == spec_apply_notes(
                note_views(old(notes)@),
                spec_effective_limit(constraints.max_cards, config.default_max_cards),
                spec_resolved_note_type(*constraints, config.default_note_type_id),
                constraints.deck_id,
            ),
            forall|i: int|
                0 <= i < note_views(final(notes)@).len() ==> (match (#[trigger] note_views(
                    final(notes)@,
                )[i]).source {
                    Some(s) => !s.all_blank(),
                    None => true,
                }),
    {
        let limit: Option<u32> = {
            let chosen = match constraints.max_cards {
                Some(m) => Some(m),
                None => config.default_max_cards,
            };
            match chosen {
                Some(m) => if m > 0 {
                    Some(m)
                } else {
                    None
                },
                None => None,
            }
        };
        let ghost before = note_views(notes@);
        if let Some(l) = limit {
            if notes.len() > l as usize {
                notes.truncate(l as usize);
                proof {
                    assert(note_views(notes@) =~= before.take(l as int));
                }
            }
        }
        let ghost kept = note_views(notes@);
        let ntid = AiGenerationController::resolve_note_type_id(constraints, config);
        let did = constraints.deck_id;
        let ghost n = notes@.len();
        let mut out: Vec<GeneratedNote> = Vec::new();
        while notes.len() > 0
            invariant
                out@.len() + notes@.len() == n == kept.len(),
                forall|j: int|
                    0 <= j < notes@.len() ==> (#[trigger] notes@[j])@ == kept[out@.len() + j],
                forall|j: int|
                    0 <= j < out@.len() ==> (#[trigger] out@[j])@ == spec_apply_note(
                        kept[j],
                        ntid,
                        did,
                    ),
            decreases notes@.len(),
        {
            let mut note = notes.remove(0);
            let ghost pos = out@.len() as int;
            proof {
                assert(note@ == kept[pos]);
            }
            if note.note_type_id.is_none() {
                note.note_type_id = ntid;
            }
            if note.deck_id.is_none() {
                note.deck_id = did;
            }
            let clear = match &note.source {
                Some(s) => {
                    let url_blank = match &s.url {
                        Some(u) => crate::text::blank_chars(&crate::text::chars_of(u.as_str())),
                        None => true,
                    };
                    let excerpt_blank = match &s.excerpt {
                        Some(e) => crate::text::blank_chars(&crate::text::chars_of(e.as_str())),
                        None => true,
                    };
                    let title_blank = match &s.title {
                        Some(t) => crate::text::blank_chars(&crate::text::chars_of(t.as_str())),
                        None => true,
                    };
                    url_blank && excerpt_blank && title_blank
                },
                None => false,
            };
            if clear {
                note.source = None;
            }
            proof {
                assert(note@ == spec_apply_note(kept[pos], ntid, did));
            }
            out.push(note);
        }
        notes.append(&mut out);
        proof {
            assert(note_views(notes@) =~= spec_apply_notes(
                before,
                spec_effective_limit(constraints.max_cards, config.default_max_cards),
                spec_resolved_note_type(*constraints, config.default_note_type_id),
                constraints.deck_id,
            ));
        }
    }

    /// Finish a generation once the provider's raw output is in hand:
    /// parse it leniently and apply the effective constraints.
    pub fn complete_generation(
        config: &AiGenerationConfig,
        constraints: &GenerationConstraints,
        raw_output: String,
    ) -> (r: AiResult<GenerationOutcome>)
        ensures
            crate::text::is_blank(raw_output@) ==> (r matches Err(e) && e matches
                crate::errors::AiError::InvalidInput(m) && m@ == "AI response was empty"@),
            !crate::text::is_blank(raw_output@) ==> match crate::parser::spec_parse_raw_output(
                raw_output@,
            ) {
                Some(models) => r matches Ok(o) && o.raw_response@ == raw_output@ && note_views(
                    o.notes@,
                ) == spec_apply_notes(
                    models,
                    spec_effective_limit(constraints.max_cards, config.default_max_cards),
                    spec_resolved_note_type(*constraints, config.default_note_type_id),
                    constraints.deck_id,
                ),
                None => r matches Err(e) && e matches crate::errors::AiError::InvalidInput(m)
                    && m@ == "AI response did not contain any flashcards"@,
            },
    {
        let mut notes = match crate::parser::parse_raw_output(raw_output.as_str()) {
            Ok(ns) => ns,
            Err(e) => {
                return Err(e);
            },
        };
        AiGenerationController::apply_constraints(&mut notes, constraints, config);
        Ok(GenerationOutcome { notes, raw_response: raw_output })
    }
}

} // verus!
