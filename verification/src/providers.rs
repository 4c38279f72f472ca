//! Provider adapters.
//!
//! Each adapter turns a generation request into a description of the one
//! HTTP call to make, and interprets the provider's response body. The
//! caller performs the network round trip and feeds the status and body
//! back in; no request is issued from here.

use vstd::prelude::*;
use crate::errors::AiError;
use crate::errors::AiResult;
use crate::input::ProcessedInput;
use crate::json::JsonValue;
use crate::text::is_blank;
use crate::text::spec_trim;
use crate::types::GenerationRequest;
use crate::types::ProviderKind;
use crate::types::ProviderResponse;
use crate::types::view_opt_str;

verus! {

/// Trim an API key and demand that something is left.
pub fn require_api_key(provider_name: &str, api_key: Option<String>) -> (r: AiResult<String>)
    ensures
        match api_key {
            Some(k) => if is_blank(k@) {
                r matches Err(e) && e matches AiError::InvalidInput(m) && m@ == provider_name@
                    + " API key is required"@
            } else {
                r matches Ok(t) && t@ == spec_trim(k@)
            },
            None => r matches Err(e) && e matches AiError::InvalidInput(m) && m@
                == provider_name@ + " API key is required"@,
        },
{
    match api_key {
        Some(k) => {
            let t = crate::text::chars_trimmed(k.as_str());
            if t.len() == 0 {
                Err(AiError::InvalidInput(missing_key_message(provider_name)))
            } else {
                Ok(crate::text::string_of_chars(&t))
            }
        },
        None => Err(AiError::InvalidInput(missing_key_message(provider_name))),
    }
}

fn missing_key_message(provider_name: &str) -> (r: String)
    ensures
        r@ == provider_name@ + " API key is required"@,
{
    let mut acc: Vec<char> = Vec::new();
    let pc = crate::text::chars_of(provider_name);
    acc.extend_from_slice(pc.as_slice());
    let sc = crate::text::chars_of(" API key is required");
    acc.extend_from_slice(sc.as_slice());
    proof {
        assert(acc@ =~= provider_name@ + " API key is required"@);
    }
    crate::text::string_of_chars(&acc)
}

/// A hexadecimal digit.
pub open spec fn spec_hex_digit(d: u32) -> char {
    if d < 10 {
        ((48 + d) as u8) as char
    } else {
        ((87 + d) as u8) as char
    }
}

/// JSON string escaping of one character: quotes, backslashes and the
/// common control characters get their two-character escapes; other
/// control characters a `\u00XX` escape; everything else stands as is.
pub open spec fn esc_char(c: char) -> Seq<char> {
    if c == '"' {
        seq!['\\', '"']
    } else if c == '\\' {
        seq!['\\', '\\']
    } else if c == '\n' {
        seq!['\\', 'n']
    } else if c == '\r' {
        seq!['\\', 'r']
    } else if c == '\t' {
        seq!['\\', 't']
    } else if (c as u32) < 32 {
        seq!['\\', 'u', '0', '0', spec_hex_digit((c as u32) / 16), spec_hex_digit(
            (c as u32) % 16,
        )]
    } else {
        seq![c]
    }
}

pub open spec fn spec_json_escaped(s: Seq<char>) -> Seq<char>
    decreases s.len(),
{
    if s.len() == 0 {
        Seq::empty()
    } else {
        spec_json_escaped(s.drop_last()) + esc_char(s.last())
    }
}

/// Append the JSON-escaped form of `s` to `acc`.
fn push_escaped(acc: &mut Vec<char>, s: &str)
    ensures
        final(acc)@ == old(acc)@ + spec_json_escaped(s@),
{
    let cs = crate::text::chars_of(s);
    let n = cs.len();
    let mut i: usize = 0;
    proof {
        assert(cs@.take(0) =~= Seq::<char>::empty());
        assert(acc@ =~= old(acc)@ + spec_json_escaped(cs@.take(0)));
    }
    while i < n
        invariant
            0 <= i <= n == cs@.len(),
            cs@ == s@,
            acc@ == old(acc)@ + spec_json_escaped(cs@.take(i as int)),
        decreases n - i,
    {
        let c = cs[i];
        let u = c as u32;
        if c == '"' {
            acc.push('\\');
            acc.push('"');
        } else if c == '\\' {
            acc.push('\\');
            acc.push('\\');
        } else if c == '\n' {
            acc.push('\\');
            acc.push('n');
        } else if c == '\r' {
            acc.push('\\');
            acc.push('r');
        } else if c == '\t' {
            acc.push('\\');
            acc.push('t');
        } else if u < 32 {
            acc.push('\\');
            acc.push('u');
            acc.push('0');
            acc.push('0');
            let hi = u / 16;
            let lo = u % 16;
            let hc = if hi < 10 {
                (48 + (hi as u8)) as char
            } else {
                (87 + (hi as u8)) as char
            };
            let lc = if lo < 10 {
                (48 + (lo as u8)) as char
            } else {
                (87 + (lo as u8)) as char
            };
            acc.push(hc);
            acc.push(lc);
        } else {
            acc.push(c);
        }
        proof {
            assert(cs@.take(i + 1).drop_last() =~= cs@.take(i as int));
            assert(cs@.take(i + 1).last() == cs@[i as int]);
            assert(acc@ =~= old(acc)@ + spec_json_escaped(cs@.take(i + 1)));
        }
        i = i + 1;
    }
    proof {
        assert(cs@.take(n as int) =~= cs@);
    }
}

/// Description of the one HTTP call a provider operation makes.
#[derive(Debug)]
pub struct HttpOutcall {
    pub url: String,
    /// POST when true, GET otherwise.
    pub post: bool,
    pub bearer_token: Option<String>,
    pub query: Option<(String, String)>,
    pub body: Option<String>,
}

/// Mathematical image of an outcall.
pub struct OutcallModel {
    pub url: Seq<char>,
    pub post: bool,
    pub bearer_token: Option<Seq<char>>,
    pub query: Option<(Seq<char>, Seq<char>)>,
    pub body: Option<Seq<char>>,
}

impl View for HttpOutcall {
    type V = OutcallModel;

    open spec fn view(&self) -> OutcallModel {
        OutcallModel {
            url: self.url@,
            post: self.post,
            bearer_token: view_opt_str(self.bearer_token),
            query: match self.query {
                Some(q) => Some((q.0@, q.1@)),
                None => None,
            },
            body: view_opt_str(self.body),
        }
    }
}

/// What interpreting a provider response yields, at the level of views.
pub enum InterpretOutcome {
    Success(ResponseModel),
    /// `true` marks an upstream failure, `false` invalid input.
    Failure(bool, Seq<char>),
}

/// Mathematical image of a provider response.
pub struct ResponseModel {
    pub raw_output: Seq<char>,
    pub model: Option<Seq<char>>,
    pub tokens_used: Option<u32>,
}

impl View for ProviderResponse {
    type V = ResponseModel;

    open spec fn view(&self) -> ResponseModel {
        ResponseModel {
            raw_output: self.raw_output@,
            model: view_opt_str(self.model),
            tokens_used: self.tokens_used,
        }
    }
}

/// Relate an interpretation result to its spec outcome.
pub open spec fn interpret_matches(r: AiResult<ProviderResponse>, o: InterpretOutcome) -> bool {
    match r {
        Ok(p) => o matches InterpretOutcome::Success(m) && m == p@,
        Err(e) => o matches InterpretOutcome::Failure(up, msg) && up == (e is Upstream) && msg
            == e.spec_message(),
    }
}

/// The uniform provider capability: build the generation call, then
/// interpret what came back.
pub trait AiProvider: Sized {
    /// The call this provider makes for a generation request.
    spec fn spec_generate_request(
        &self,
        request: GenerationRequest,
        input: ProcessedInput,
    ) -> OutcallModel;

    /// What this provider's interpretation yields for a response.
    spec fn spec_interpret(
        &self,
        request: GenerationRequest,
        status: u16,
        body: Seq<char>,
    ) -> InterpretOutcome;

    fn build_generate_request(
        &self,
        request: &GenerationRequest,
        input: &ProcessedInput,
    ) -> (r: HttpOutcall)
        ensures
            r@ == self.spec_generate_request(*request, *input),
    ;

    fn interpret_generate_response(
        &self,
        request: &GenerationRequest,
        status: u16,
        body: &str,
    ) -> (r: AiResult<ProviderResponse>)
        ensures
            interpret_matches(r, self.spec_interpret(*request, status, body@)),
    ;
}

/// The compact chat-completions payload shared by the OpenAI-style
/// providers: one fixed system message, the user prompt, and the
/// provider's token budget.
pub open spec fn spec_chat_body(
    model: Seq<char>,
    system: Seq<char>,
    prompt: Seq<char>,
    max_tokens: u32,
) -> Seq<char> {
    "{\"model\":\""@ + spec_json_escaped(model)
        + "\",\"messages\":[{\"role\":\"system\",\"content\":\""@ + spec_json_escaped(system)
        + "\"},{\"role\":\"user\",\"content\":\""@ + spec_json_escaped(prompt)
        + "\"}],\"max_tokens\":"@ + crate::text::spec_u32_digits(max_tokens)
        + ",\"temperature\":0.3}"@
}

fn build_chat_body(model: &str, system: &str, prompt: &str, max_tokens: u32) -> (r: String)
    ensures
        r@ == spec_chat_body(model@, system@, prompt@, max_tokens),
{
    let mut acc: Vec<char> = Vec::new();
    let p1 = crate::text::chars_of("{\"model\":\"");
    acc.extend_from_slice(p1.as_slice());
    push_escaped(&mut acc, model);
    let p2 = crate::text::chars_of("\",\"messages\":[{\"role\":\"system\",\"content\":\"");
    acc.extend_from_slice(p2.as_slice());
    push_escaped(&mut acc, system);
    let p3 = crate::text::chars_of("\"},{\"role\":\"user\",\"content\":\"");
    acc.extend_from_slice(p3.as_slice());
    push_escaped(&mut acc, prompt);
    let p4 = crate::text::chars_of("\"}],\"max_tokens\":");
    acc.extend_from_slice(p4.as_slice());
    crate::text::push_u32_digits(max_tokens, &mut acc);
    let p5 = crate::text::chars_of(",\"temperature\":0.3}");
    acc.extend_from_slice(p5.as_slice());
    proof {
        assert(acc@ =~= spec_chat_body(model@, system@, prompt@, max_tokens));
    }
    crate::text::string_of_chars(&acc)
}

/// The Gemini generation payload: the prompt as the sole user part, and
/// a JSON response type.
pub open spec fn spec_gemini_body(prompt: Seq<char>) -> Seq<char> {
    "{\"contents\":[{\"parts\":[{\"text\":\""@ + spec_json_escaped(prompt)
        + "\"}],\"role\":\"user\"}],\"generationConfig\":{\"responseMimeType\":\"application/json\"}}"@
}

fn build_gemini_body(prompt: &str) -> (r: String)
    ensures
        r@ == spec_gemini_body(prompt@),
{
    let mut acc: Vec<char> = Vec::new();
    let p1 = crate::text::chars_of("{\"contents\":[{\"parts\":[{\"text\":\"");
    acc.extend_from_slice(p1.as_slice());
    push_escaped(&mut acc, prompt);
    let p2 = crate::text::chars_of(
        "\"}],\"role\":\"user\"}],\"generationConfig\":{\"responseMimeType\":\"application/json\"}}",
    );
    acc.extend_from_slice(p2.as_slice());
    proof {
        assert(acc@ =~= spec_gemini_body(prompt@));
    }
    crate::text::string_of_chars(&acc)
}

/// The model a request runs with: the request's override, else the
/// adapter's configured model.
pub open spec fn spec_model_used(request_model: Option<String>, own: Seq<char>) -> Seq<char> {
    match request_model {
        Some(m) => m@,
        None => own,
    }
}

fn model_used(request_model: &Option<String>, own: &String) -> (r: String)
    ensures
        r@ == spec_model_used(*request_model, own@),
{
    match request_model {
        Some(m) => m.clone(),
        None => own.clone(),
    }
}

/// The prompt a generation request produces.
pub open spec fn spec_request_prompt(request: GenerationRequest, input: ProcessedInput) -> Seq<
    char,
> {
    crate::prompt::spec_prompt(
        input.text@,
        view_opt_str(input.source_url),
        crate::prompt::spec_requested_cards(request.constraints.max_cards),
        view_opt_str(request.constraints.prompt_override),
        crate::prompt::style_view(request.style_examples@),
    )
}

/// Join helpers for building messages.
fn join2(a: &str, b: &str) -> (r: String)
    ensures
        r@ == a@ + b@,
{
    let mut acc: Vec<char> = Vec::new();
    let ac = crate::text::chars_of(a);
    acc.extend_from_slice(ac.as_slice());
    let bc = crate::text::chars_of(b);
    acc.extend_from_slice(bc.as_slice());
    proof {
        assert(acc@ =~= a@ + b@);
    }
    crate::text::string_of_chars(&acc)
}

pub open spec fn spec_status_ok(status: u16) -> bool {
    200 <= status && status < 300
}

/// The message for a non-success HTTP status.
pub open spec fn spec_status_fail_msg(pname: Seq<char>, status: u16) -> Seq<char> {
    pname + " request failed with HTTP status "@ + crate::text::spec_u32_digits(status as u32)
}

fn status_fail_msg(pname: &str, status: u16) -> (r: String)
    ensures
        r@ == spec_status_fail_msg(pname@, status),
{
    let mut acc: Vec<char> = Vec::new();
    let pc = crate::text::chars_of(pname);
    acc.extend_from_slice(pc.as_slice());
    let mc = crate::text::chars_of(" request failed with HTTP status ");
    acc.extend_from_slice(mc.as_slice());
    crate::text::push_u32_digits(status as u32, &mut acc);
    proof {
        assert(acc@ =~= spec_status_fail_msg(pname@, status));
    }
    crate::text::string_of_chars(&acc)
}

/// The upstream message carried by an `error` member of the envelope,
/// if one is present: the provider-reported message when it is a
/// string, else a generic one.
pub open spec fn spec_envelope_error_msg(v: JsonValue, pname: Seq<char>) -> Option<Seq<char>> {
    match v {
        JsonValue::Obj(es) => match crate::parser::spec_obj_get(es@, "error"@) {
            Some(ev) => match ev {
                JsonValue::Null => None,
                JsonValue::Obj(eo) => Some(
                    pname + " API error: "@ + (match crate::parser::spec_obj_get(
                        eo@,
                        "message"@,
                    ) {
                        Some(JsonValue::Text(s)) => s@,
                        _ => pname + " API returned an error"@,
                    }),
                ),
                _ => Some(pname + " API error: "@ + pname + " API returned an error"@),
            },
            None => None,
        },
        _ => None,
    }
}

fn envelope_error_msg(v: &JsonValue, pname: &str) -> (r: Option<String>)
    ensures
        view_opt_str(r) == spec_envelope_error_msg(*v, pname@),
{
    match v {
        JsonValue::Obj(es) => {
            match crate::parser::obj_get(es, "error") {
                Some(ev) => match ev {
                    JsonValue::Null => None,
                    JsonValue::Obj(eo) => {
                        let prefix = join2(pname, " API error: ");
                        let inner: String = match crate::parser::obj_get(eo, "message") {
                            Some(JsonValue::Text(s)) => s.clone(),
                            _ => join2(pname, " API returned an error"),
                        };
                        let msg = join2(prefix.as_str(), inner.as_str());
                        proof {
                            assert(msg@ =~= spec_envelope_error_msg(*v, pname@)->0);
                        }
                        Some(msg)
                    },
                    _ => {
                        let prefix = join2(pname, " API error: ");
                        let inner = join2(pname, " API returned an error");
                        let msg = join2(prefix.as_str(), inner.as_str());
                        proof {
                            assert(msg@ =~= spec_envelope_error_msg(*v, pname@)->0);
                        }
                        Some(msg)
                    },
                },
                None => None,
            }
        },
        _ => None,
    }
}

/// The first choice whose message content is a non-blank string.
pub open spec fn spec_first_choice_content(cs: Seq<JsonValue>) -> Option<Seq<char>>
    decreases cs.len(),
{
    if cs.len() == 0 {
        None
    } else {
        let got = spec_choice_content(cs[0]);
        if got is Some {
            got
        } else {
            spec_first_choice_content(cs.drop_first())
        }
    }
}

pub open spec fn spec_choice_content(c: JsonValue) -> Option<Seq<char>> {
    match c {
        JsonValue::Obj(co) => match crate::parser::spec_obj_get(co@, "message"@) {
            Some(JsonValue::Obj(mo)) => match crate::parser::spec_obj_get(mo@, "content"@) {
                Some(JsonValue::Text(s)) => if is_blank(s@) {
                    None
                } else {
                    Some(s@)
                },
                _ => None,
            },
            _ => None,
        },
        _ => None,
    }
}

fn choice_content(c: &JsonValue) -> (r: Option<String>)
    ensures
        view_opt_str(r) == spec_choice_content(*c),
{
    match c {
        JsonValue::Obj(co) => match crate::parser::obj_get(co, "message") {
            Some(JsonValue::Obj(mo)) => match crate::parser::obj_get(mo, "content") {
                Some(JsonValue::Text(s)) => {
                    let sc = crate::text::chars_of(s.as_str());
                    if crate::text::blank_chars(&sc) {
                        None
                    } else {
                        Some(s.clone())
                    }
                },
                _ => None,
            },
            _ => None,
        },
        _ => None,
    }
}

/// The generated text of a chat-style envelope.
pub open spec fn spec_chat_content(v: JsonValue) -> Option<Seq<char>> {
    match v {
        JsonValue::Obj(es) => match crate::parser::spec_obj_get(es@, "choices"@) {
            Some(JsonValue::Arr(cs)) => spec_first_choice_content(cs@),
            _ => None,
        },
        _ => None,
    }
}

fn chat_content(v: &JsonValue) -> (r: Option<String>)
    ensures
        view_opt_str(r) == spec_chat_content(*v),
{
    match v {
        JsonValue::Obj(es) => match crate::parser::obj_get(es, "choices") {
            Some(JsonValue::Arr(cs)) => {
                let n = cs.len();
                let mut i: usize = 0;
                proof {
                    assert(cs@.skip(0) =~= cs@);
                }
                while i < n
                    invariant
                        0 <= i <= n == cs@.len(),
                        spec_chat_content(*v) == spec_first_choice_content(
                            cs@.skip(i as int),
                        ),
                    decreases n - i,
                {
                    proof {
                        assert(cs@.skip(i as int)[0] == cs@[i as int]);
                        assert(cs@.skip(i as int).drop_first() =~= cs@.skip(i + 1));
                    }
                    if let Some(text) = choice_content(&cs[i]) {
                        proof {
                            assert(spec_first_choice_content(cs@.skip(i as int)) == Some(
                                text@,
                            ));
                        }
                        return Some(text);
                    }
                    i = i + 1;
                }
                proof {
                    assert(cs@.skip(n as int) =~= Seq::<JsonValue>::empty());
                }
                None
            },
            _ => None,
        },
        _ => None,
    }
}

/// The token count surfaced from the envelope's usage member: the low
/// 32 bits of the number, when it is a plain decimal that fits 64 bits.
pub open spec fn spec_tokens_of(s: Seq<char>) -> Option<u32> {
    if crate::text::all_digits(s) && crate::text::spec_digits_val(s) <= u64::MAX {
        Some((crate::text::spec_digits_val(s) % 0x100000000) as u32)
    } else {
        None
    }
}

pub open spec fn spec_usage_tokens(v: JsonValue) -> Option<u32> {
    match v {
        JsonValue::Obj(es) => match crate::parser::spec_obj_get(es@, "usage"@) {
            Some(JsonValue::Obj(uo)) => match crate::parser::spec_obj_get(
                uo@,
                "total_tokens"@,
            ) {
                Some(JsonValue::NumText(nt)) => spec_tokens_of(nt@),
                _ => None,
            },
            _ => None,
        },
        _ => None,
    }
}

fn usage_tokens(v: &JsonValue) -> (r: Option<u32>)
    ensures
        r == spec_usage_tokens(*v),
{
    match v {
        JsonValue::Obj(es) => match crate::parser::obj_get(es, "usage") {
            Some(JsonValue::Obj(uo)) => match crate::parser::obj_get(uo, "total_tokens") {
                Some(JsonValue::NumText(nt)) => {
                    let nc = crate::text::chars_of(nt.as_str());
                    match crate::text::parse_digits_u64(&nc) {
                        Some(x) => Some((x % 0x100000000u64) as u32),
                        None => None,
                    }
                },
                _ => None,
            },
            _ => None,
        },
        _ => None,
    }
}

/// What a chat-style provider's interpretation yields.
pub open spec fn spec_chat_interpret(
    pname: Seq<char>,
    status: u16,
    body: Seq<char>,
    model: Seq<char>,
) -> InterpretOutcome {
    if !spec_status_ok(status) {
        InterpretOutcome::Failure(true, spec_status_fail_msg(pname, status))
    } else {
        match crate::json::json_of_text(body) {
            None => InterpretOutcome::Failure(false, pname + " response was not valid JSON"@),
            Some(v) => match spec_envelope_error_msg(v, pname) {
                Some(msg) => InterpretOutcome::Failure(true, msg),
                None => match spec_chat_content(v) {
                    Some(text) => InterpretOutcome::Success(
                        ResponseModel {
                            raw_output: text,
                            model: Some(model),
                            tokens_used: spec_usage_tokens(v),
                        },
                    ),
                    None => InterpretOutcome::Failure(
                        false,
                        pname + " did not return any content"@,
                    ),
                },
            },
        }
    }
}

fn chat_interpret(pname: &str, status: u16, body: &str, model: String) -> (r: AiResult<
    ProviderResponse,
>)
    ensures
        interpret_matches(r, spec_chat_interpret(pname@, status, body@, model@)),
{
    if !(200 <= status && status < 300) {
        return Err(AiError::Upstream(status_fail_msg(pname, status)));
    }
    match crate::json::parse_json_text(body) {
        None => Err(AiError::InvalidInput(join2(pname, " response was not valid JSON"))),
        Some(v) => {
            match envelope_error_msg(&v, pname) {
                Some(msg) => Err(AiError::Upstream(msg)),
                None => match chat_content(&v) {
                    Some(text) => Ok(
                        ProviderResponse {
                            raw_output: text,
                            model: Some(model),
                            tokens_used: usage_tokens(&v),
                        },
                    ),
                    None => Err(
                        AiError::InvalidInput(join2(pname, " did not return any content")),
                    ),
                },
            }
        },
    }
}

/// The generated text of a Gemini envelope: the first candidate part
/// holding a non-blank text.
pub open spec fn spec_part_text(p: JsonValue) -> Option<Seq<char>> {
    match p {
        JsonValue::Obj(po) => match crate::parser::spec_obj_get(po@, "text"@) {
            Some(JsonValue::Text(s)) => if is_blank(s@) {
                None
            } else {
                Some(s@)
            },
            _ => None,
        },
        _ => None,
    }
}

pub open spec fn spec_first_part_text(ps: Seq<JsonValue>) -> Option<Seq<char>>
    decreases ps.len(),
{
    if ps.len() == 0 {
        None
    } else {
        let got = spec_part_text(ps[0]);
        if got is Some {
            got
        } else {
            spec_first_part_text(ps.drop_first())
        }
    }
}

pub open spec fn spec_candidate_text(c: JsonValue) -> Option<Seq<char>> {
    match c {
        JsonValue::Obj(co) => match crate::parser::spec_obj_get(co@, "content"@) {
            Some(JsonValue::Obj(cc)) => match crate::parser::spec_obj_get(cc@, "parts"@) {
                Some(JsonValue::Arr(ps)) => spec_first_part_text(ps@),
                _ => None,
            },
            _ => None,
        },
        _ => None,
    }
}

pub open spec fn spec_first_candidate_text(cs: Seq<JsonValue>) -> Option<Seq<char>>
    decreases cs.len(),
{
    if cs.len() == 0 {
        None
    } else {
        let got = spec_candidate_text(cs[0]);
        if got is Some {
            got
        } else {
            spec_first_candidate_text(cs.drop_first())
        }
    }
}

pub open spec fn spec_gemini_content(v: JsonValue) -> Option<Seq<char>> {
    match v {
        JsonValue::Obj(es) => match crate::parser::spec_obj_get(es@, "candidates"@) {
            Some(JsonValue::Arr(cs)) => spec_first_candidate_text(cs@),
            _ => None,
        },
        _ => None,
    }
}

fn part_text(p: &JsonValue) -> (r: Option<String>)
    ensures
        view_opt_str(r) == spec_part_text(*p),
{
    match p {
        JsonValue::Obj(po) => match crate::parser::obj_get(po, "text") {
            Some(JsonValue::Text(s)) => {
                let sc = crate::text::chars_of(s.as_str());
                if crate::text::blank_chars(&sc) {
                    None
                } else {
                    Some(s.clone())
                }
            },
            _ => None,
        },
        _ => None,
    }
}

fn candidate_text(c: &JsonValue) -> (r: Option<String>)
    ensures
        view_opt_str(r) == spec_candidate_text(*c),
{
    match c {
        JsonValue::Obj(co) => match crate::parser::obj_get(co, "content") {
            Some(JsonValue::Obj(cc)) => match crate::parser::obj_get(cc, "parts") {
                Some(JsonValue::Arr(ps)) => {
                    let n = ps.len();
                    let mut i: usize = 0;
                    proof {
                        assert(ps@.skip(0) =~= ps@);
                    }
                    while i < n
                        invariant
                            0 <= i <= n == ps@.len(),
                            spec_candidate_text(*c) == spec_first_part_text(
                                ps@.skip(i as int),
                            ),
                        decreases n - i,
                    {
                        proof {
                            assert(ps@.skip(i as int)[0] == ps@[i as int]);
                            assert(ps@.skip(i as int).drop_first() =~= ps@.skip(i + 1));
                        }
                        if let Some(text) = part_text(&ps[i]) {
                            proof {
                                assert(spec_first_part_text(ps@.skip(i as int)) == Some(
                                    text@,
                                ));
                            }
                            return Some(text);
                        }
                        i = i + 1;
                    }
                    proof {
                        assert(ps@.skip(n as int) =~= Seq::<JsonValue>::empty());
                    }
                    None
                },
                _ => None,
            },
            _ => None,
        },
        _ => None,
    }
}

fn gemini_content(v: &JsonValue) -> (r: Option<String>)
    ensures
        view_opt_str(r) == spec_gemini_content(*v),
{
    match v {
        JsonValue::Obj(es) => match crate::parser::obj_get(es, "candidates") {
            Some(JsonValue::Arr(cs)) => {
                let n = cs.len();
                let mut i: usize = 0;
                proof {
                    assert(cs@.skip(0) =~= cs@);
                }
                while i < n
                    invariant
                        0 <= i <= n == cs@.len(),
                        spec_gemini_content(*v) == spec_first_candidate_text(
                            cs@.skip(i as int),
                        ),
                    decreases n - i,
                {
                    proof {
                        assert(cs@.skip(i as int)[0] == cs@[i as int]);
                        assert(cs@.skip(i as int).drop_first() =~= cs@.skip(i + 1));
                    }
                    if let Some(text) = candidate_text(&cs[i]) {
                        proof {
                            assert(spec_first_candidate_text(cs@.skip(i as int)) == Some(
                                text@,
                            ));
                        }
                        return Some(text);
                    }
                    i = i + 1;
                }
                proof {
                    assert(cs@.skip(n as int) =~= Seq::<JsonValue>::empty());
                }
                None
            },
            _ => None,
        },
        _ => None,
    }
}

/// What Gemini's interpretation yields; token usage is not surfaced.
pub open spec fn spec_gemini_interpret(
    status: u16,
    body: Seq<char>,
    model: Seq<char>,
) -> InterpretOutcome {
    if !spec_status_ok(status) {
        InterpretOutcome::Failure(true, spec_status_fail_msg("Gemini"@, status))
    } else {
        match crate::json::json_of_text(body) {
            None => InterpretOutcome::Failure(
                false,
                "Gemini"@ + " response was not valid JSON"@,
            ),
            Some(v) => match spec_envelope_error_msg(v, "Gemini"@) {
                Some(msg) => InterpretOutcome::Failure(true, msg),
                None => match spec_gemini_content(v) {
                    Some(text) => InterpretOutcome::Success(
                        ResponseModel {
                            raw_output: text,
                            model: Some(model),
                            tokens_used: None,
                        },
                    ),
                    None => InterpretOutcome::Failure(
                        false,
                        "Gemini"@ + " did not return any content"@,
                    ),
                },
            },
        }
    }
}

fn gemini_interpret(status: u16, body: &str, model: String) -> (r: AiResult<ProviderResponse>)
    ensures
        interpret_matches(r, spec_gemini_interpret(status, body@, model@)),
{
    if !(200 <= status && status < 300) {
        return Err(AiError::Upstream(status_fail_msg("Gemini", status)));
    }
    match crate::json::parse_json_text(body) {
        None => Err(AiError::InvalidInput(join2("Gemini", " response was not valid JSON"))),
        Some(v) => {
            match envelope_error_msg(&v, "Gemini") {
                Some(msg) => Err(AiError::Upstream(msg)),
                None => match gemini_content(&v) {
                    Some(text) => Ok(
                        ProviderResponse { raw_output: text, model: Some(model), tokens_used: None },
                    ),
                    None => Err(
                        AiError::InvalidInput(join2("Gemini", " did not return any content")),
                    ),
                },
            }
        },
    }
}

/// Construction shared by all providers: a trimmed, non-empty API key
/// and the configured or default model.
pub open spec fn new_provider_ok(
    api_key: Option<String>,
    model: Option<String>,
    default_model: Seq<char>,
    out_key: Seq<char>,
    out_model: Seq<char>,
) -> bool {
    &&& api_key matches Some(k) && !is_blank(k@)
    &&& out_key == spec_trim(api_key->0@)
    &&& out_model == (match model {
        Some(m) => m@,
        None => default_model,
    })
}

/// The Gemini adapter.
#[derive(Debug)]
pub struct GeminiProvider {
    pub api_key: String,
    pub model: String,
}

/// The OpenAI adapter.
#[derive(Debug)]
pub struct OpenAiProvider {
    pub api_key: String,
    pub model: String,
}

/// The OpenRouter adapter.
#[derive(Debug)]
pub struct OpenRouterProvider {
    pub api_key: String,
    pub model: String,
}

/// The Perplexity adapter.
#[derive(Debug)]
pub struct PerplexityProvider {
    pub api_key: String,
    pub model: String,
}

fn pick_model(model: Option<String>, default_model: &str) -> (r: String)
    ensures
        r@ == (match model {
            Some(m) => m@,
            None => default_model@,
        }),
{
    match model {
        Some(m) => m,
        None => default_model.to_owned(),
    }
}

impl GeminiProvider {
    pub fn new(api_key: Option<String>, model: Option<String>) -> (r: AiResult<Self>)
        ensures
            match r {
                Ok(p) => new_provider_ok(api_key, model, "gemini-1.5-flash"@, p.api_key@, p.model@),
                Err(e) => {
                    &&& api_key is None || is_blank(api_key->0@)
                    &&& e matches AiError::InvalidInput(m)
                    &&& m@ == "Gemini API key is required"@
                },
            },
    {
        proof {
            reveal_strlit("Gemini");
            reveal_strlit(" API key is required");
            reveal_strlit("Gemini API key is required");
            assert("Gemini"@ + " API key is required"@ =~= "Gemini API key is required"@);
        }
        let key = match require_api_key("Gemini", api_key) {
            Ok(k) => k,
            Err(e) => {
                return Err(e);
            },
        };
        Ok(Self { api_key: key, model: pick_model(model, "gemini-1.5-flash") })
    }
}

impl OpenAiProvider {
    pub fn new(api_key: Option<String>, model: Option<String>) -> (r: AiResult<Self>)
        ensures
            match r {
                Ok(p) => new_provider_ok(api_key, model, "gpt-4o-mini"@, p.api_key@, p.model@),
                Err(e) => {
                    &&& api_key is None || is_blank(api_key->0@)
                    &&& e matches AiError::InvalidInput(m)
                    &&& m@ == "OpenAI API key is required"@
                },
            },
    {
        proof {
            reveal_strlit("OpenAI");
            reveal_strlit(" API key is required");
            reveal_strlit("OpenAI API key is required");
            assert("OpenAI"@ + " API key is required"@ =~= "OpenAI API key is required"@);
        }
        let key = match require_api_key("OpenAI", api_key) {
            Ok(k) => k,
            Err(e) => {
                return Err(e);
            },
        };
        Ok(Self { api_key: key, model: pick_model(model, "gpt-4o-mini") })
    }
}

impl OpenRouterProvider {
    pub fn new(api_key: Option<String>, model: Option<String>) -> (r: AiResult<Self>)
        ensures
            match r {
                Ok(p) => new_provider_ok(
                    api_key,
                    model,
                    "openai/gpt-4o-mini"@,
                    p.api_key@,
                    p.model@,
                ),
                Err(e) => {
                    &&& api_key is None || is_blank(api_key->0@)
                    &&& e matches AiError::InvalidInput(m)
                    &&& m@ == "OpenRouter API key is required"@
                },
            },
    {
        proof {
            reveal_strlit("OpenRouter");
            reveal_strlit(" API key is required");
            reveal_strlit("OpenRouter API key is required");
            assert("OpenRouter"@ + " API key is required"@ =~= "OpenRouter API key is required"@);
        }
        let key = match require_api_key("OpenRouter", api_key) {
            Ok(k) => k,
            Err(e) => {
                return Err(e);
            },
        };
        Ok(Self { api_key: key, model: pick_model(model, "openai/gpt-4o-mini") })
    }
}

impl PerplexityProvider {
    pub fn new(api_key: Option<String>, model: Option<String>) -> (r: AiResult<Self>)
        ensures
            match r {
                Ok(p) => new_provider_ok(
                    api_key,
                    model,
                    "sonar-reasoning"@,
                    p.api_key@,
                    p.model@,
                ),
                Err(e) => {
                    &&& api_key is None || is_blank(api_key->0@)
                    &&& e matches AiError::InvalidInput(m)
                    &&& m@ == "Perplexity API key is required"@
                },
            },
    {
        proof {
            reveal_strlit("Perplexity");
            reveal_strlit(" API key is required");
            reveal_strlit("Perplexity API key is required");
            assert("Perplexity"@ + " API key is required"@ =~= "Perplexity API key is required"@);
        }
        let key = match require_api_key("Perplexity", api_key) {
            Ok(k) => k,
            Err(e) => {
                return Err(e);
            },
        };
        Ok(Self { api_key: key, model: pick_model(model, "sonar-reasoning") })
    }
}

impl AiProvider for GeminiProvider {
    open spec fn spec_generate_request(
        &self,
        request: GenerationRequest,
        input: ProcessedInput,
    ) -> OutcallModel {
        OutcallModel {
            url: "https://generativelanguage.googleapis.com/v1beta/models/"@ + spec_model_used(
                request.model,
                self.model@,
            ) + ":generateContent"@,
            post: true,
            bearer_token: None,
            query: Some(("key"@, self.api_key@)),
            body: Some(spec_gemini_body(spec_request_prompt(request, input))),
        }
    }

    open spec fn spec_interpret(
        &self,
        request: GenerationRequest,
        status: u16,
        body: Seq<char>,
    ) -> InterpretOutcome {
        spec_gemini_interpret(status, body, spec_model_used(request.model, self.model@))
    }

    fn build_generate_request(
        &self,
        request: &GenerationRequest,
        input: &ProcessedInput,
    ) -> (r: HttpOutcall)
    {
        let m = model_used(&request.model, &self.model);
        let prompt = crate::prompt::build_flashcard_prompt(
            input,
            &request.constraints,
            &request.style_examples,
        );
        let base = join2("https://generativelanguage.googleapis.com/v1beta/models/", m.as_str());
        let url = join2(base.as_str(), ":generateContent");
        proof {
            assert(url@ =~= "https://generativelanguage.googleapis.com/v1beta/models/"@
                + spec_model_used(request.model, self.model@) + ":generateContent"@);
        }
        HttpOutcall {
            url,
            post: true,
            bearer_token: None,
            query: Some(("key".to_owned(), self.api_key.clone())),
            body: Some(build_gemini_body(prompt.as_str())),
        }
    }

    fn interpret_generate_response(
        &self,
        request: &GenerationRequest,
        status: u16,
        body: &str,
    ) -> (r: AiResult<ProviderResponse>)
    {
        gemini_interpret(status, body, model_used(&request.model, &self.model))
    }
}

impl AiProvider for OpenAiProvider {
    open spec fn spec_generate_request(
        &self,
        request: GenerationRequest,
        input: ProcessedInput,
    ) -> OutcallModel {
        OutcallModel {
            url: "https://api.openai.com/v1/chat/completions"@,
            post: true,
            bearer_token: Some(self.api_key@),
            query: None,
            body: Some(
                spec_chat_body(
                    spec_model_used(request.model, self.model@),
                    "You generate Anki flashcards. Respond with a JSON array only, where each object has keys front, back, source_excerpt, source_url."@,
                    spec_request_prompt(request, input),
                    2048,
                ),
            ),
        }
    }

    open spec fn spec_interpret(
        &self,
        request: GenerationRequest,
        status: u16,
        body: Seq<char>,
    ) -> InterpretOutcome {
        spec_chat_interpret("OpenAI"@, status, body, spec_model_used(request.model, self.model@))
    }

    fn build_generate_request(
        &self,
        request: &GenerationRequest,
        input: &ProcessedInput,
    ) -> (r: HttpOutcall)
    {
        let m = model_used(&request.model, &self.model);
        let prompt = crate::prompt::build_flashcard_prompt(
            input,
            &request.constraints,
            &request.style_examples,
        );
        HttpOutcall {
            url: "https://api.openai.com/v1/chat/completions".to_owned(),
            post: true,
            bearer_token: Some(self.api_key.clone()),
            query: None,
            body: Some(
                build_chat_body(
                    m.as_str(),
                    "You generate Anki flashcards. Respond with a JSON array only, where each object has keys front, back, source_excerpt, source_url.",
                    prompt.as_str(),
                    2048,
                ),
            ),
        }
    }

    fn interpret_generate_response(
        &self,
        request: &GenerationRequest,
        status: u16,
        body: &str,
    ) -> (r: AiResult<ProviderResponse>)
    {
        chat_interpret("OpenAI", status, body, model_used(&request.model, &self.model))
    }
}

impl AiProvider for OpenRouterProvider {
    open spec fn spec_generate_request(
        &self,
        request: GenerationRequest,
        input: ProcessedInput,
    ) -> OutcallModel {
        OutcallModel {
            url: "https://openrouter.ai/api/v1/chat/completions"@,
            post: true,
            bearer_token: Some(self.api_key@),
            query: None,
            body: Some(
                spec_chat_body(
                    spec_model_used(request.model, self.model@),
                    "You generate Anki flashcards. Respond with a JSON array only, where each object has keys front, back, source_excerpt, source_url."@,
                    spec_request_prompt(request, input),
                    2048,
                ),
            ),
        }
    }

    open spec fn spec_interpret(
        &self,
        request: GenerationRequest,
        status: u16,
        body: Seq<char>,
    ) -> InterpretOutcome {
        spec_chat_interpret(
            "OpenRouter"@,
            status,
            body,
            spec_model_used(request.model, self.model@),
        )
    }

    fn build_generate_request(
        &self,
        request: &GenerationRequest,
        input: &ProcessedInput,
    ) -> (r: HttpOutcall)
    {
        let m = model_used(&request.model, &self.model);
        let prompt = crate::prompt::build_flashcard_prompt(
            input,
            &request.constraints,
            &request.style_examples,
        );
        HttpOutcall {
            url: "https://openrouter.ai/api/v1/chat/completions".to_owned(),
            post: true,
            bearer_token: Some(self.api_key.clone()),
            query: None,
            body: Some(
                build_chat_body(
                    m.as_str(),
                    "You generate Anki flashcards. Respond with a JSON array only, where each object has keys front, back, source_excerpt, source_url.",
                    prompt.as_str(),
                    2048,
                ),
            ),
        }
    }

    fn interpret_generate_response(
        &self,
        request: &GenerationRequest,
        status: u16,
        body: &str,
    ) -> (r: AiResult<ProviderResponse>)
    {
        chat_interpret("OpenRouter", status, body, model_used(&request.model, &self.model))
    }
}

impl AiProvider for PerplexityProvider {
    open spec fn spec_generate_request(
        &self,
        request: GenerationRequest,
        input: ProcessedInput,
    ) -> OutcallModel {
        OutcallModel {
            url: "https://api.perplexity.ai/chat/completions"@,
            post: true,
            bearer_token: Some(self.api_key@),
            query: None,
            body: Some(
                spec_chat_body(
                    spec_model_used(request.model, self.model@),
                    "You generate concise Anki flashcards and respond with JSON only. Each item must include front, back, source_excerpt, source_url."@,
                    spec_request_prompt(request, input),
                    1800,
                ),
            ),
        }
    }

    open spec fn spec_interpret(
        &self,
        request: GenerationRequest,
        status: u16,
        body: Seq<char>,
    ) -> InterpretOutcome {
        spec_chat_interpret(
            "Perplexity"@,
            status,
            body,
            spec_model_used(request.model, self.model@),
        )
    }

    fn build_generate_request(
        &self,
        request: &GenerationRequest,
        input: &ProcessedInput,
    ) -> (r: HttpOutcall)
    {
        let m = model_used(&request.model, &self.model);
        let prompt = crate::prompt::build_flashcard_prompt(
            input,
            &request.constraints,
            &request.style_examples,
        );
        HttpOutcall {
            url: "https://api.perplexity.ai/chat/completions".to_owned(),
            post: true,
            bearer_token: Some(self.api_key.clone()),
            query: None,
            body: Some(
                build_chat_body(
                    m.as_str(),
                    "You generate concise Anki flashcards and respond with JSON only. Each item must include front, back, source_excerpt, source_url.",
                    prompt.as_str(),
                    1800,
                ),
            ),
        }
    }

    fn interpret_generate_response(
        &self,
        request: &GenerationRequest,
        status: u16,
        body: &str,
    ) -> (r: AiResult<ProviderResponse>)
    {
        chat_interpret("Perplexity", status, body, model_used(&request.model, &self.model))
    }
}

/// The closed set of adapters the factory can hand out.
#[derive(Debug)]
pub enum ProviderAdapter {
    Gemini(GeminiProvider),
    OpenAi(OpenAiProvider),
    OpenRouter(OpenRouterProvider),
    Perplexity(PerplexityProvider),
}

impl AiProvider for ProviderAdapter {
    open spec fn spec_generate_request(
        &self,
        request: GenerationRequest,
        input: ProcessedInput,
    ) -> OutcallModel {
        match self {
            ProviderAdapter::Gemini(p) => p.spec_generate_request(request, input),
            ProviderAdapter::OpenAi(p) => p.spec_generate_request(request, input),
            ProviderAdapter::OpenRouter(p) => p.spec_generate_request(request, input),
            ProviderAdapter::Perplexity(p) => p.spec_generate_request(request, input),
        }
    }

    open spec fn spec_interpret(
        &self,
        request: GenerationRequest,
        status: u16,
        body: Seq<char>,
    ) -> InterpretOutcome {
        match self {
            ProviderAdapter::Gemini(p) => p.spec_interpret(request, status, body),
            ProviderAdapter::OpenAi(p) => p.spec_interpret(request, status, body),
            ProviderAdapter::OpenRouter(p) => p.spec_interpret(request, status, body),
            ProviderAdapter::Perplexity(p) => p.spec_interpret(request, status, body),
        }
    }

    fn build_generate_request(
        &self,
        request: &GenerationRequest,
        input: &ProcessedInput,
    ) -> (r: HttpOutcall)
    {
        match self {
            ProviderAdapter::Gemini(p) => p.build_generate_request(request, input),
            ProviderAdapter::OpenAi(p) => p.build_generate_request(request, input),
            ProviderAdapter::OpenRouter(p) => p.build_generate_request(request, input),
            ProviderAdapter::Perplexity(p) => p.build_generate_request(request, input),
        }
    }

    fn interpret_generate_response(
        &self,
        request: &GenerationRequest,
        status: u16,
        body: &str,
    ) -> (r: AiResult<ProviderResponse>)
    {
        match self {
            ProviderAdapter::Gemini(p) => p.interpret_generate_response(request, status, body),
            ProviderAdapter::OpenAi(p) => p.interpret_generate_response(request, status, body),
            ProviderAdapter::OpenRouter(p) => p.interpret_generate_response(
                request,
                status,
                body,
            ),
            ProviderAdapter::Perplexity(p) => p.interpret_generate_response(
                request,
                status,
                body,
            ),
        }
    }
}

/// The message an unsupported provider gets.
pub open spec fn spec_unsupported_msg(name: Seq<char>) -> Seq<char> {
    "unsupported provider: "@ + name
        + ". Please choose Gemini, OpenRouter, OpenAI, or Perplexity"@
}

fn unsupported_msg(name: &str) -> (r: String)
    ensures
        r@ == spec_unsupported_msg(name@),
{
    let p = join2("unsupported provider: ", name);
    let r = join2(p.as_str(), ". Please choose Gemini, OpenRouter, OpenAI, or Perplexity");
    proof {
        assert(r@ =~= spec_unsupported_msg(name@));
    }
    r
}

/// Select and construct the adapter for a provider kind; the custom
/// kind is a deliberate unsupported case.
pub fn provider_factory(
    provider: &ProviderKind,
    api_key: Option<String>,
    model: Option<String>,
) -> (r: AiResult<ProviderAdapter>)
    ensures
        match provider {
            ProviderKind::Gemini => match r {
                Ok(a) => a matches ProviderAdapter::Gemini(p) && new_provider_ok(
                    api_key,
                    model,
                    "gemini-1.5-flash"@,
                    p.api_key@,
                    p.model@,
                ),
                Err(e) => {
                    &&& api_key is None || is_blank(api_key->0@)
                    &&& e matches AiError::InvalidInput(m)
                    &&& m@ == "Gemini API key is required"@
                },
            },
            ProviderKind::OpenAi => match r {
                Ok(a) => a matches ProviderAdapter::OpenAi(p) && new_provider_ok(
                    api_key,
                    model,
                    "gpt-4o-mini"@,
                    p.api_key@,
                    p.model@,
                ),
                Err(e) => {
                    &&& api_key is None || is_blank(api_key->0@)
                    &&& e matches AiError::InvalidInput(m)
                    &&& m@ == "OpenAI API key is required"@
                },
            },
            ProviderKind::OpenRouter => match r {
                Ok(a) => a matches ProviderAdapter::OpenRouter(p) && new_provider_ok(
                    api_key,
                    model,
                    "openai/gpt-4o-mini"@,
                    p.api_key@,
                    p.model@,
                ),
                Err(e) => {
                    &&& api_key is None || is_blank(api_key->0@)
                    &&& e matches AiError::InvalidInput(m)
                    &&& m@ == "OpenRouter API key is required"@
                },
            },
            ProviderKind::Perplexity => match r {
                Ok(a) => a matches ProviderAdapter::Perplexity(p) && new_provider_ok(
                    api_key,
                    model,
                    "sonar-reasoning"@,
                    p.api_key@,
                    p.model@,
                ),
                Err(e) => {
                    &&& api_key is None || is_blank(api_key->0@)
                    &&& e matches AiError::InvalidInput(m)
                    &&& m@ == "Perplexity API key is required"@
                },
            },
            ProviderKind::Custom(name) => r matches Err(e) && e matches AiError::InvalidInput(
                m,
            ) && m@ == spec_unsupported_msg(name@),
        },
{
    match provider {
        ProviderKind::Gemini => match GeminiProvider::new(api_key, model) {
            Ok(p) => Ok(ProviderAdapter::Gemini(p)),
            Err(e) => Err(e),
        },
        ProviderKind::OpenAi => match OpenAiProvider::new(api_key, model) {
            Ok(p) => Ok(ProviderAdapter::OpenAi(p)),
            Err(e) => Err(e),
        },
        ProviderKind::OpenRouter => match OpenRouterProvider::new(api_key, model) {
            Ok(p) => Ok(ProviderAdapter::OpenRouter(p)),
            Err(e) => Err(e),
        },
        ProviderKind::Perplexity => match PerplexityProvider::new(api_key, model) {
            Ok(p) => Ok(ProviderAdapter::Perplexity(p)),
            Err(e) => Err(e),
        },
        ProviderKind::Custom(name) => Err(AiError::InvalidInput(unsupported_msg(name.as_str()))),
    }
}

/// Strictly sorted model names.
pub open spec fn strs_sorted(s: Seq<String>) -> bool {
    forall|i: int, j: int|
        0 <= i < j < s.len() ==> crate::text::lex_lt((#[trigger] s[i])@, (#[trigger] s[j])@)
}

/// Some element carries the view `v`.
pub open spec fn strs_has(s: Seq<String>, v: Seq<char>) -> bool {
    exists|i: int| 0 <= i < s.len() && (#[trigger] s[i])@ == v
}

/// Where a name belongs in a sorted list, and whether it is already
/// there.
fn position_for_str(out: &Vec<String>, xc: &Vec<char>) -> (r: (usize, bool))
    requires
        strs_sorted(out@),
    ensures
        r.0 <= out@.len(),
        forall|j: int| 0 <= j < r.0 ==> crate::text::lex_lt((#[trigger] out@[j])@, xc@),
        r.1 ==> r.0 < out@.len() && (out@[r.0 as int])@ == xc@,
        (!r.1 && r.0 < out@.len()) ==> crate::text::lex_lt(xc@, (out@[r.0 as int])@),
{
    let n = out.len();
    let mut i: usize = 0;
    while i < n
        invariant
            0 <= i <= n == out@.len(),
            strs_sorted(out@),
            forall|j: int| 0 <= j < i ==> crate::text::lex_lt((#[trigger] out@[j])@, xc@),
        decreases n - i,
    {
        let oc = crate::text::chars_of(out[i].as_str());
        if crate::text::lex_lt_chars(&oc, xc) {
            i = i + 1;
        } else {
            if crate::text::chars_eq(&oc, xc) {
                return (i, true);
            }
            proof {
                crate::text::lemma_lex_strict_order(xc@, (out@[i as int])@, (out@[i as int])@);
            }
            return (i, false);
        }
    }
    (n, false)
}

/// Insert a name into a sorted list, dropping it when already present.
fn insert_sorted_str(out: &mut Vec<String>, x: String)
    requires
        strs_sorted(old(out)@),
    ensures
        strs_sorted(final(out)@),
        forall|v: Seq<char>|
            #[trigger] strs_has(final(out)@, v) <==> strs_has(old(out)@, v) || v == x@,
{
    let n = out.len();
    let xc = crate::text::chars_of(x.as_str());
    let (i, found) = position_for_str(out, &xc);
    if found {
        proof {
            assert((out@[i as int])@ == x@);
            assert forall|v: Seq<char>| #[trigger]
                strs_has(out@, v) <==> strs_has(old(out)@, v) || v == x@ by {
                if v == x@ {
                    assert((out@[i as int])@ == v);
                }
            }
        }
        return ;
    }
    let ghost pre = out@;
    proof {
        pre.insert_ensures(i as int, x);
    }
    out.insert(i, x);
    proof {
        assert forall|a: int, b: int| 0 <= a < b < out@.len() implies crate::text::lex_lt(
            (#[trigger] out@[a])@,
            (#[trigger] out@[b])@,
        ) by {
            if a < i && b == i {
            } else if a == i && b > i {
                if b - 1 > i {
                    crate::text::lemma_lex_strict_order(x@, (pre[i as int])@, (pre[b - 1])@);
                }
            } else if a < i && b > i {
                if b - 1 >= i + 1 {
                    crate::text::lemma_lex_strict_order(
                        (pre[a])@,
                        x@,
                        (pre[b - 1])@,
                    );
                    crate::text::lemma_lex_strict_order(
                        x@,
                        (pre[i as int])@,
                        (pre[b - 1])@,
                    );
                }
            }
        }
        assert forall|v: Seq<char>| #[trigger]
            strs_has(out@, v) <==> strs_has(pre, v) || v == x@ by {
            if strs_has(pre, v) {
                let j = choose|j: int| 0 <= j < pre.len() && (pre[j])@ == v;
                if j < i {
                    assert((out@[j])@ == v);
                } else {
                    assert((out@[j + 1])@ == v);
                }
            }
            if v == x@ {
                assert((out@[i as int])@ == v);
            }
            if strs_has(out@, v) {
                let k = choose|k: int| 0 <= k < out@.len() && (out@[k])@ == v;
                if k < i {
                    assert((pre[k])@ == v);
                } else if k > i {
                    assert((pre[k - 1])@ == v);
                }
            }
        }
    }
}

/// Sort model names and drop duplicates.
fn sort_dedup(models: Vec<String>) -> (r: Vec<String>)
    ensures
        strs_sorted(r@),
        forall|v: Seq<char>| #[trigger] strs_has(r@, v) <==> strs_has(models@, v),
{
    let n = models.len();
    let mut out: Vec<String> = Vec::new();
    let mut i: usize = 0;
    while i < n
        invariant
            0 <= i <= n == models@.len(),
            strs_sorted(out@),
            forall|v: Seq<char>|
                #[trigger] strs_has(out@, v) <==> strs_has(models@.take(i as int), v),
        decreases n - i,
    {
        let ghost pre = out@;
        insert_sorted_str(&mut out, models[i].clone());
        proof {
            assert forall|v: Seq<char>| #[trigger]
                strs_has(out@, v) <==> strs_has(models@.take(i + 1), v) by {
                if strs_has(models@.take(i + 1), v) {
                    let j = choose|j: int|
                        0 <= j < models@.take(i + 1).len() && ((#[trigger] models@.take(
                            i + 1,
                        )[j])@ == v);
                    if j < i {
                        assert((models@.take(i as int)[j])@ == v);
                    } else {
                        assert((models@[i as int])@ == v);
                    }
                }
                if strs_has(models@.take(i as int), v) {
                    let j = choose|j: int|
                        0 <= j < models@.take(i as int).len() && ((#[trigger] models@.take(
                            i as int,
                        )[j])@ == v);
                    assert((models@.take(i + 1)[j])@ == v);
                }
                if v == (models@[i as int])@ {
                    assert((models@.take(i + 1)[i as int])@ == v);
                }
            }
        }
        i = i + 1;
    }
    proof {
        assert(models@.take(n as int) =~= models@);
    }
    out
}

/// What listing models yields, before sorting: the extracted names, or
/// a failure.
pub enum ModelsOutcome {
    Items(Seq<Seq<char>>),
    /// `true` marks an upstream failure, `false` invalid input.
    Failure(bool, Seq<char>),
}

/// OpenAI-style model entries: a list of objects with string ids; any
/// other shape is malformed. Blank ids are dropped.
pub open spec fn spec_ids_of(entries: Seq<JsonValue>) -> Option<Seq<Seq<char>>>
    decreases entries.len(),
{
    if entries.len() == 0 {
        Some(Seq::empty())
    } else {
        match spec_ids_of(entries.drop_last()) {
            None => None,
            Some(xs) => match entries.last() {
                JsonValue::Obj(eo) => match crate::parser::spec_obj_get(eo@, "id"@) {
                    Some(JsonValue::Text(s)) => if is_blank(s@) {
                        Some(xs)
                    } else {
                        Some(xs + seq![s@])
                    },
                    _ => None,
                },
                _ => None,
            },
        }
    }
}

/// Gemini model entries: objects with a string name whose `models/`
/// prefix is stripped; blank names are dropped.
pub open spec fn spec_gemini_ids_of(entries: Seq<JsonValue>) -> Option<Seq<Seq<char>>>
    decreases entries.len(),
{
    if entries.len() == 0 {
        Some(Seq::empty())
    } else {
        match spec_gemini_ids_of(entries.drop_last()) {
            None => None,
            Some(xs) => match entries.last() {
                JsonValue::Obj(eo) => match crate::parser::spec_obj_get(eo@, "name"@) {
                    Some(JsonValue::Text(s)) => {
                        let stripped = crate::text::spec_strip_prefix_rep(s@, "models/"@);
                        if is_blank(stripped) {
                            Some(xs)
                        } else {
                            Some(xs + seq![stripped])
                        }
                    },
                    _ => None,
                },
                _ => None,
            },
        }
    }
}

/// Perplexity model entries: objects with a string id, or bare strings;
/// anything else is skipped.
pub open spec fn spec_perplexity_ids_of(entries: Seq<JsonValue>) -> Seq<Seq<char>>
    decreases entries.len(),
{
    if entries.len() == 0 {
        Seq::empty()
    } else {
        spec_perplexity_ids_of(entries.drop_last()) + (match entries.last() {
            JsonValue::Obj(eo) => match crate::parser::spec_obj_get(eo@, "id"@) {
                Some(JsonValue::Text(s)) => if is_blank(s@) {
                    Seq::empty()
                } else {
                    seq![s@]
                },
                _ => Seq::empty(),
            },
            JsonValue::Text(s) => if is_blank(s@) {
                Seq::empty()
            } else {
                seq![s@]
            },
            _ => Seq::empty(),
        })
    }
}

/// The message for model discovery on an unsupported provider.
pub open spec fn spec_models_unsupported_msg(name: Seq<char>) -> Seq<char> {
    "model discovery is not supported for provider: "@ + name
}

/// The display name used in model-listing messages.
pub open spec fn spec_display_name(provider: ProviderKind) -> Seq<char> {
    match provider {
        ProviderKind::Gemini => "Gemini"@,
        ProviderKind::OpenAi => "OpenAI"@,
        ProviderKind::OpenRouter => "OpenRouter"@,
        ProviderKind::Perplexity => "Perplexity"@,
        ProviderKind::Custom(n) => n@,
    }
}

/// The call that lists a provider's models; the custom kind is refused.
pub fn models_request(provider: &ProviderKind, api_key: Option<String>) -> (r: AiResult<
    HttpOutcall,
>)
    ensures
        match provider {
            ProviderKind::Custom(name) => r matches Err(e) && e matches AiError::InvalidInput(
                m,
            ) && m@ == spec_models_unsupported_msg(name@),
            _ => match r {
                Ok(o) => {
                    &&& api_key matches Some(k) && !is_blank(k@)
                    &&& o@.post == false
                    &&& o@.body is None
                    &&& (provider is Gemini ==> o@.url
                        == "https://generativelanguage.googleapis.com/v1beta/models"@
                        && o@.bearer_token is None && o@.query == Some(
                        ("key"@, spec_trim(api_key->0@)),
                    ))
                    &&& (provider is OpenAi ==> o@.url == "https://api.openai.com/v1/models"@
                        && o@.bearer_token == Some(spec_trim(api_key->0@)) && o@.query is None)
                    &&& (provider is OpenRouter ==> o@.url
                        == "https://openrouter.ai/api/v1/models"@ && o@.bearer_token == Some(
                        spec_trim(api_key->0@),
                    ) && o@.query is None)
                    &&& (provider is Perplexity ==> o@.url
                        == "https://api.perplexity.ai/models"@ && o@.bearer_token == Some(
                        spec_trim(api_key->0@),
                    ) && o@.query is None)
                },
                Err(e) => {
                    &&& api_key is None || is_blank(api_key->0@)
                    &&& e matches AiError::InvalidInput(m)
                    &&& m@ == spec_display_name(*provider) + " API key is required"@
                },
            },
        },
{
    match provider {
        ProviderKind::Custom(name) => {
            let msg = join2(
                "model discovery is not supported for provider: ",
                name.as_str(),
            );
            Err(AiError::InvalidInput(msg))
        },
        ProviderKind::Gemini => {
            let key = match require_api_key("Gemini", api_key) {
                Ok(k) => k,
                Err(e) => {
                    return Err(e);
                },
            };
            Ok(
                HttpOutcall {
                    url: "https://generativelanguage.googleapis.com/v1beta/models".to_owned(),
                    post: false,
                    bearer_token: None,
                    query: Some(("key".to_owned(), key)),
                    body: None,
                },
            )
        },
        ProviderKind::OpenAi => {
            let key = match require_api_key("OpenAI", api_key) {
                Ok(k) => k,
                Err(e) => {
                    return Err(e);
                },
            };
            Ok(
                HttpOutcall {
                    url: "https://api.openai.com/v1/models".to_owned(),
                    post: false,
                    bearer_token: Some(key),
                    query: None,
                    body: None,
                },
            )
        },
        ProviderKind::OpenRouter => {
            let key = match require_api_key("OpenRouter", api_key) {
                Ok(k) => k,
                Err(e) => {
                    return Err(e);
                },
            };
            Ok(
                HttpOutcall {
                    url: "https://openrouter.ai/api/v1/models".to_owned(),
                    post: false,
                    bearer_token: Some(key),
                    query: None,
                    body: None,
                },
            )
        },
        ProviderKind::Perplexity => {
            let key = match require_api_key("Perplexity", api_key) {
                Ok(k) => k,
                Err(e) => {
                    return Err(e);
                },
            };
            Ok(
                HttpOutcall {
                    url: "https://api.perplexity.ai/models".to_owned(),
                    post: false,
                    bearer_token: Some(key),
                    query: None,
                    body: None,
                },
            )
        },
    }
}

/// What interpreting a model-listing response yields, before sorting.
pub open spec fn spec_models_interpret(
    provider: ProviderKind,
    status: u16,
    body: Seq<char>,
) -> ModelsOutcome {
    match provider {
        ProviderKind::Custom(name) => ModelsOutcome::Failure(
            false,
            spec_models_unsupported_msg(name@),
        ),
        _ => {
            let pname = spec_display_name(provider);
            if !spec_status_ok(status) {
                ModelsOutcome::Failure(true, spec_status_fail_msg(pname, status))
            } else {
                match crate::json::json_of_text(body) {
                    None => ModelsOutcome::Failure(
                        false,
                        pname + " models response was not valid JSON"@,
                    ),
                    Some(v) => match spec_envelope_error_msg(v, pname) {
                        Some(msg) => ModelsOutcome::Failure(true, msg),
                        None => spec_models_extract(provider, v, pname),
                    },
                }
            }
        },
    }
}

pub open spec fn spec_models_extract(
    provider: ProviderKind,
    v: JsonValue,
    pname: Seq<char>,
) -> ModelsOutcome {
    if provider is Gemini {
        match v {
            JsonValue::Obj(es) => match crate::parser::spec_obj_get(es@, "models"@) {
                Some(JsonValue::Arr(ms)) => match spec_gemini_ids_of(ms@) {
                    Some(xs) => ModelsOutcome::Items(xs),
                    None => ModelsOutcome::Failure(
                        false,
                        pname + " models response was not valid JSON"@,
                    ),
                },
                Some(_) => ModelsOutcome::Failure(
                    false,
                    pname + " models response was not valid JSON"@,
                ),
                None => ModelsOutcome::Items(Seq::empty()),
            },
            _ => ModelsOutcome::Failure(false, pname + " models response was not valid JSON"@),
        }
    } else if provider is Perplexity {
        match v {
            JsonValue::Obj(es) => {
                let arr = if crate::parser::spec_obj_get(es@, "data"@) is Some {
                    crate::parser::spec_obj_get(es@, "data"@)
                } else {
                    crate::parser::spec_obj_get(es@, "models"@)
                };
                match arr {
                    Some(JsonValue::Arr(ms)) => ModelsOutcome::Items(
                        spec_perplexity_ids_of(ms@),
                    ),
                    _ => ModelsOutcome::Failure(
                        false,
                        pname + " models response did not include a data array"@,
                    ),
                }
            },
            _ => ModelsOutcome::Failure(
                false,
                pname + " models response did not include a data array"@,
            ),
        }
    } else {
        match v {
            JsonValue::Obj(es) => match crate::parser::spec_obj_get(es@, "data"@) {
                Some(JsonValue::Arr(ms)) => match spec_ids_of(ms@) {
                    Some(xs) => ModelsOutcome::Items(xs),
                    None => ModelsOutcome::Failure(
                        false,
                        pname + " models response was not valid JSON"@,
                    ),
                },
                Some(_) => ModelsOutcome::Failure(
                    false,
                    pname + " models response was not valid JSON"@,
                ),
                None => ModelsOutcome::Items(Seq::empty()),
            },
            _ => ModelsOutcome::Failure(false, pname + " models response was not valid JSON"@),
        }
    }
}

proof fn lemma_ids_of_none(s: Seq<JsonValue>, k: int)
    requires
        0 <= k <= s.len(),
        spec_ids_of(s.take(k)) is None,
    ensures
        spec_ids_of(s) is None,
    decreases s.len() - k,
{
    if k < s.len() {
        assert(s.take(k + 1).drop_last() =~= s.take(k));
        lemma_ids_of_none(s, k + 1);
    } else {
        assert(s.take(k) =~= s);
    }
}

proof fn lemma_gemini_ids_of_none(s: Seq<JsonValue>, k: int)
    requires
        0 <= k <= s.len(),
        spec_gemini_ids_of(s.take(k)) is None,
    ensures
        spec_gemini_ids_of(s) is None,
    decreases s.len() - k,
{
    if k < s.len() {
        assert(s.take(k + 1).drop_last() =~= s.take(k));
        lemma_gemini_ids_of_none(s, k + 1);
    } else {
        assert(s.take(k) =~= s);
    }
}

fn ids_vec(entries: &Vec<JsonValue>) -> (r: Option<Vec<String>>)
    ensures
        match r {
            Some(ids) => spec_ids_of(entries@) matches Some(xs) && ids.deep_view() == xs,
            None => spec_ids_of(entries@) is None,
        },
{
    let n = entries.len();
    let mut out: Vec<String> = Vec::new();
    let mut i: usize = 0;
    proof {
        assert(entries@.take(0) =~= Seq::<JsonValue>::empty());
        assert(out.deep_view() =~= Seq::<Seq<char>>::empty());
    }
    while i < n
        invariant
            0 <= i <= n == entries@.len(),
            spec_ids_of(entries@.take(i as int)) matches Some(xs) && out.deep_view() == xs,
        decreases n - i,
    {
        let ghost pre = out.deep_view();
        proof {
            assert(entries@.take(i + 1).drop_last() =~= entries@.take(i as int));
            assert(entries@.take(i + 1).last() == entries@[i as int]);
        }
        match &entries[i] {
            JsonValue::Obj(eo) => match crate::parser::obj_get(eo, "id") {
                Some(JsonValue::Text(s)) => {
                    let sc = crate::text::chars_of(s.as_str());
                    if !crate::text::blank_chars(&sc) {
                        out.push(s.clone());
                        proof {
                            assert(out.deep_view() =~= pre + seq![s@]);
                        }
                    }
                },
                _ => {
                    proof {
                        assert(spec_ids_of(entries@.take(i + 1)) is None);
                        lemma_ids_of_none(entries@, i + 1);
                    }
                    return None;
                },
            },
            _ => {
                proof {
                    assert(spec_ids_of(entries@.take(i + 1)) is None);
                    lemma_ids_of_none(entries@, i + 1);
                }
                return None;
            },
        }
        i = i + 1;
    }
    proof {
        assert(entries@.take(n as int) =~= entries@);
    }
    Some(out)
}

fn gemini_ids_vec(entries: &Vec<JsonValue>) -> (r: Option<Vec<String>>)
    ensures
        match r {
            Some(ids) => spec_gemini_ids_of(entries@) matches Some(xs) && ids.deep_view() == xs,
            None => spec_gemini_ids_of(entries@) is None,
        },
{
    let n = entries.len();
    let mut out: Vec<String> = Vec::new();
    let mut i: usize = 0;
    proof {
        assert(entries@.take(0) =~= Seq::<JsonValue>::empty());
        assert(out.deep_view() =~= Seq::<Seq<char>>::empty());
    }
    while i < n
        invariant
            0 <= i <= n == entries@.len(),
            spec_gemini_ids_of(entries@.take(i as int)) matches Some(xs) && out.deep_view()
                == xs,
        decreases n - i,
    {
        let ghost pre = out.deep_view();
        proof {
            assert(entries@.take(i + 1).drop_last() =~= entries@.take(i as int));
            assert(entries@.take(i + 1).last() == entries@[i as int]);
        }
        match &entries[i] {
            JsonValue::Obj(eo) => match crate::parser::obj_get(eo, "name") {
                Some(JsonValue::Text(s)) => {
                    let sc = crate::text::chars_of(s.as_str());
                    let stripped = crate::text::strip_prefix_repeat(&sc, "models/");
                    if !crate::text::blank_chars(&stripped) {
                        out.push(crate::text::string_of_chars(&stripped));
                        proof {
                            assert(out.deep_view() =~= pre + seq![
                                crate::text::spec_strip_prefix_rep(s@, "models/"@),
                            ]);
                        }
                    }
                },
                _ => {
                    proof {
                        assert(spec_gemini_ids_of(entries@.take(i + 1)) is None);
                        lemma_gemini_ids_of_none(entries@, i + 1);
                    }
                    return None;
                },
            },
            _ => {
                proof {
                    assert(spec_gemini_ids_of(entries@.take(i + 1)) is None);
                    lemma_gemini_ids_of_none(entries@, i + 1);
                }
                return None;
            },
        }
        i = i + 1;
    }
    proof {
        assert(entries@.take(n as int) =~= entries@);
    }
    Some(out)
}

fn perplexity_ids_vec(entries: &Vec<JsonValue>) -> (r: Vec<String>)
    ensures
        r.deep_view() == spec_perplexity_ids_of(entries@),
{
    let n = entries.len();
    let mut out: Vec<String> = Vec::new();
    let mut i: usize = 0;
    proof {
        assert(entries@.take(0) =~= Seq::<JsonValue>::empty());
        assert(out.deep_view() =~= spec_perplexity_ids_of(entries@.take(0)));
    }
    while i < n
        invariant
            0 <= i <= n == entries@.len(),
            out.deep_view() == spec_perplexity_ids_of(entries@.take(i as int)),
        decreases n - i,
    {
        let ghost pre = out.deep_view();
        proof {
            assert(entries@.take(i + 1).drop_last() =~= entries@.take(i as int));
            assert(entries@.take(i + 1).last() == entries@[i as int]);
        }
        match &entries[i] {
            JsonValue::Obj(eo) => match crate::parser::obj_get(eo, "id") {
                Some(JsonValue::Text(s)) => {
                    let sc = crate::text::chars_of(s.as_str());
                    if !crate::text::blank_chars(&sc) {
                        out.push(s.clone());
                        proof {
                            assert(out.deep_view() =~= pre + seq![s@]);
                        }
                    }
                },
                _ => {},
            },
            JsonValue::Text(s) => {
                let sc = crate::text::chars_of(s.as_str());
                if !crate::text::blank_chars(&sc) {
                    out.push(s.clone());
                    proof {
                        assert(out.deep_view() =~= pre + seq![s@]);
                    }
                }
            },
            _ => {},
        }
        proof {
            assert(out.deep_view() =~= spec_perplexity_ids_of(entries@.take(i + 1)));
        }
        i = i + 1;
    }
    proof {
        assert(entries@.take(n as int) =~= entries@);
    }
    out
}

/// Interpret a model-listing response: check the status and the error
/// envelope, extract the identifiers, and hand them back sorted with
/// duplicates removed.
pub fn interpret_models_response(provider: &ProviderKind, status: u16, body: &str) -> (r:
    AiResult<Vec<String>>)
    ensures
        match r {
            Ok(ms) => {
                &&& spec_models_interpret(*provider, status, body@) matches ModelsOutcome::Items(
                    xs,
                )
                &&& strs_sorted(ms@)
                &&& forall|v: Seq<char>|
                    #[trigger] strs_has(ms@, v) <==> spec_models_interpret(
                        *provider,
                        status,
                        body@,
                    )->Items_0.contains(v)
            },
            Err(e) => spec_models_interpret(*provider, status, body@)
                matches ModelsOutcome::Failure(up, msg) && up == (e is Upstream) && msg
                == e.spec_message(),
        },
{
    let pname: &str = match provider {
        ProviderKind::Gemini => "Gemini",
        ProviderKind::OpenAi => "OpenAI",
        ProviderKind::OpenRouter => "OpenRouter",
        ProviderKind::Perplexity => "Perplexity",
        ProviderKind::Custom(name) => {
            let msg = join2(
                "model discovery is not supported for provider: ",
                name.as_str(),
            );
            return Err(AiError::InvalidInput(msg));
        },
    };
    if !(200 <= status && status < 300) {
        return Err(AiError::Upstream(status_fail_msg(pname, status)));
    }
    let v = match crate::json::parse_json_text(body) {
        Some(v) => v,
        None => {
            return Err(
                AiError::InvalidInput(join2(pname, " models response was not valid JSON")),
            );
        },
    };
    if let Some(msg) = envelope_error_msg(&v, pname) {
        return Err(AiError::Upstream(msg));
    }
    let raw: Vec<String> = match provider {
        ProviderKind::Gemini => match &v {
            JsonValue::Obj(es) => match crate::parser::obj_get(es, "models") {
                Some(JsonValue::Arr(ms)) => match gemini_ids_vec(ms) {
                    Some(ids) => ids,
                    None => {
                        return Err(
                            AiError::InvalidInput(
                                join2(pname, " models response was not valid JSON"),
                            ),
                        );
                    },
                },
                Some(_) => {
                    return Err(
                        AiError::InvalidInput(
                            join2(pname, " models response was not valid JSON"),
                        ),
                    );
                },
                None => Vec::new(),
            },
            _ => {
                return Err(
                    AiError::InvalidInput(join2(pname, " models response was not valid JSON")),
                );
            },
        },
        ProviderKind::Perplexity => match &v {
            JsonValue::Obj(es) => {
                let arr = match crate::parser::obj_get(es, "data") {
                    Some(a) => Some(a),
                    None => crate::parser::obj_get(es, "models"),
                };
                match arr {
                    Some(JsonValue::Arr(ms)) => perplexity_ids_vec(ms),
                    _ => {
                        return Err(
                            AiError::InvalidInput(
                                join2(
                                    pname,
                                    " models response did not include a data array",
                                ),
                            ),
                        );
                    },
                }
            },
            _ => {
                return Err(
                    AiError::InvalidInput(
                        join2(pname, " models response did not include a data array"),
                    ),
                );
            },
        },
        _ => match &v {
            JsonValue::Obj(es) => match crate::parser::obj_get(es, "data") {
                Some(JsonValue::Arr(ms)) => match ids_vec(ms) {
                    Some(ids) => ids,
                    None => {
                        return Err(
                            AiError::InvalidInput(
                                join2(pname, " models response was not valid JSON"),
                            ),
                        );
                    },
                },
                Some(_) => {
                    return Err(
                        AiError::InvalidInput(
                            join2(pname, " models response was not valid JSON"),
                        ),
                    );
                },
                None => Vec::new(),
            },
            _ => {
                return Err(
                    AiError::InvalidInput(join2(pname, " models response was not valid JSON")),
                );
            },
        },
    };
    let ghost xs = raw.deep_view();
    let ghost rawv = raw@;
    let sorted = sort_dedup(raw);
    proof {
        assert(xs.len() == rawv.len());
        assert forall|vv: Seq<char>| #[trigger]
            strs_has(sorted@, vv) <==> xs.contains(vv) by {
            if strs_has(sorted@, vv) {
                assert(strs_has(rawv, vv));
                let j = choose|j: int| 0 <= j < rawv.len() && (rawv[j])@ == vv;
                assert(xs[j] == vv);
                assert(xs.contains(vv));
            }
            if xs.contains(vv) {
                let j = choose|j: int| 0 <= j < xs.len() && xs[j] == vv;
                assert((rawv[j])@ == vv);
                assert(strs_has(rawv, vv));
            }
        }
    }
    Ok(sorted)
}

} // verus!
