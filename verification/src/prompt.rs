//! The instruction text sent to a provider.

use vstd::prelude::*;
use crate::input::ProcessedInput;
use crate::types::GenerationConstraints;
use crate::types::StyleExample;

verus! {

/// The card count asked of the model: the constraint when positive,
/// else ten.
pub open spec fn spec_requested_cards(mc: Option<u32>) -> u32 {
    match mc {
        Some(m) => if m > 0 {
            m
        } else {
            10
        },
        None => 10,
    }
}

/// The style examples as plain field pairs.
pub open spec fn style_view(examples: Seq<StyleExample>) -> Seq<Seq<(Seq<char>, Seq<char>)>> {
    examples.map_values(
        |e: StyleExample|
            e.fields@.map_values(|f: crate::types::GeneratedField| (f.name@, f.value@)),
    )
}

/// The serialized style-example block; a function of the field names
/// and values alone.
pub uninterp spec fn style_text_of(examples: Seq<Seq<(Seq<char>, Seq<char>)>>) -> Seq<char>;

/// Relies on `serde_json::to_string_pretty`: the rendering of the style
/// examples, serialized as a list of name-to-value maps, depends on the
/// fields alone.
#[verifier::external_body]
fn style_examples_text(examples: &Vec<StyleExample>) -> (r: String)
    ensures
        r@ == style_text_of(style_view(examples@)),
{
    let maps: Vec<std::collections::BTreeMap<String, String>> = examples.iter().map(
        |e| e.fields.iter().map(|f| (f.name.clone(), f.value.clone())).collect(),
    ).collect();
    match serde_json::to_string_pretty(&maps) {
        Ok(s) => s,
        Err(_) => String::new(),
    }
}

/// The complete prompt: fixed coaching instructions, the requested card
/// range, optional extra instructions, the optional style block, and the
/// delimited content with its optional source line.
pub open spec fn spec_prompt(
    text: Seq<char>,
    source_url: Option<Seq<char>>,
    requested: u32,
    extra: Option<Seq<char>>,
    examples: Seq<Seq<(Seq<char>, Seq<char>)>>,
) -> Seq<char> {
    "You are an expert study coach generating Anki flashcards.\n"@
        + "Return a JSON array where each item has these keys: \"front\", \"back\", \"source_excerpt\", \"source_url\".\n"@
        + "Create between 3 and "@ + crate::text::spec_u32_digits(requested)
        + " high-quality cards covering the most important ideas.\n"@
        + "If information is missing, omit the card. Provide concise phrasing suitable for spaced repetition.\n"@
        + (match extra {
        Some(o) => "Additional instructions:\n"@ + o + "\n\n"@,
        None => Seq::empty(),
    }) + (if examples.len() == 0 {
        Seq::empty()
    } else {
        "Match the tone and structure of these existing cards:\n"@ + style_text_of(examples)
            + "\n\n"@
    }) + "Content starts below:\n<<<\n"@ + (match source_url {
        Some(u) => "Source URL: "@ + u + "\n"@,
        None => Seq::empty(),
    }) + text + "\n>>>"@
}

fn push_str_chars(acc: &mut Vec<char>, s: &str)
    ensures
        final(acc)@ == old(acc)@ + s@,
{
    let cs = crate::text::chars_of(s);
    acc.extend_from_slice(cs.as_slice());
    proof {
        assert(acc@ =~= old(acc)@ + s@);
    }
}

/// Build the provider prompt.
pub fn build_flashcard_prompt(
    input: &ProcessedInput,
    constraints: &GenerationConstraints,
    style_examples: &Vec<StyleExample>,
) -> (r: String)
    ensures
        r@ == spec_prompt(
            input.text@,
            crate::types::view_opt_str(input.source_url),
            spec_requested_cards(constraints.max_cards),
            crate::types::view_opt_str(constraints.prompt_override),
            style_view(style_examples@),
        ),
{
    let requested: u32 = match constraints.max_cards {
        Some(m) => if m > 0 {
            m
        } else {
            10
        },
        None => 10,
    };
    let mut acc: Vec<char> = Vec::new();
    push_str_chars(&mut acc, "You are an expert study coach generating Anki flashcards.\n");
    push_str_chars(
        &mut acc,
        "Return a JSON array where each item has these keys: \"front\", \"back\", \"source_excerpt\", \"source_url\".\n",
    );
    push_str_chars(&mut acc, "Create between 3 and ");
    crate::text::push_u32_digits(requested, &mut acc);
    push_str_chars(&mut acc, " high-quality cards covering the most important ideas.\n");
    push_str_chars(
        &mut acc,
        "If information is missing, omit the card. Provide concise phrasing suitable for spaced repetition.\n",
    );
    match &constraints.prompt_override {
        Some(o) => {
            push_str_chars(&mut acc, "Additional instructions:\n");
            push_str_chars(&mut acc, o.as_str());
            push_str_chars(&mut acc, "\n\n");
        },
        None => {},
    }
    if style_examples.len() > 0 {
        let block = style_examples_text(style_examples);
        push_str_chars(&mut acc, "Match the tone and structure of these existing cards:\n");
        push_str_chars(&mut acc, block.as_str());
        push_str_chars(&mut acc, "\n\n");
    }
    push_str_chars(&mut acc, "Content starts below:\n<<<\n");
    match &input.source_url {
        Some(u) => {
            push_str_chars(&mut acc, "Source URL: ");
            push_str_chars(&mut acc, u.as_str());
            push_str_chars(&mut acc, "\n");
        },
        None => {},
    }
    push_str_chars(&mut acc, input.text.as_str());
    push_str_chars(&mut acc, "\n>>>");
    proof {
        assert(acc@ =~= spec_prompt(
            input.text@,
            crate::types::view_opt_str(input.source_url),
            spec_requested_cards(constraints.max_cards),
            crate::types::view_opt_str(constraints.prompt_override),
            style_view(style_examples@),
        ));
    }
    crate::text::string_of_chars(&acc)
}

} // verus!
