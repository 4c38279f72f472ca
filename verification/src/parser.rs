//! The lenient response parser.
//!
//! Raw model output is rarely a clean JSON array: it may be wrapped in a
//! fenced code block, surrounded by prose, or keyed under `cards`. The
//! parser tries a fixed list of candidate extractions in order and keeps
//! the first that yields at least one valid note.

use vstd::prelude::*;
use crate::json::JsonValue;
use crate::json::json_of_text;
use crate::json::spec_value_to_string;
use crate::text::is_blank;
use crate::text::spec_find;
use crate::text::spec_find_char;
use crate::text::spec_lower;
use crate::text::spec_trim;
use crate::types::FieldModel;
use crate::types::GeneratedField;
use crate::types::GeneratedNote;
use crate::types::GeneratedSource;
use crate::types::NoteModel;
use crate::types::SourceModel;

verus! {

/// `s` begins with a URL scheme prefix.
pub open spec fn spec_looks_like_url(s: Seq<char>) -> bool {
    crate::text::spec_starts_with(s, "http://"@) || crate::text::spec_starts_with(s, "https://"@)
}

pub fn looks_like_url(text: &Vec<char>) -> (r: bool)
    ensures
        r == spec_looks_like_url(text@),
{
    crate::text::starts_with_str(text, "http://") || crate::text::starts_with_str(text, "https://")
}

/// Trailing sentence punctuation stripped from a URL, as the parser's
/// `trim_end_matches` call does.
pub open spec fn is_url_trail_punct(c: char) -> bool {
    c == '.' || c == ',' || c == ';'
}

pub open spec fn spec_strip_trail_punct(s: Seq<char>) -> Seq<char>
    decreases s.len(),
{
    if s.len() > 0 && is_url_trail_punct(s.last()) {
        spec_strip_trail_punct(s.drop_last())
    } else {
        s
    }
}

fn strip_trail_punct(v: &Vec<char>) -> (r: Vec<char>)
    ensures
        r@ == spec_strip_trail_punct(v@),
{
    let mut end = v.len();
    proof {
        assert(v@.subrange(0, v@.len() as int) =~= v@);
    }
    while end > 0 && (v[end - 1] == '.' || v[end - 1] == ',' || v[end - 1] == ';')
        invariant
            0 <= end <= v@.len(),
            spec_strip_trail_punct(v@) == spec_strip_trail_punct(v@.subrange(0, end as int)),
        decreases end,
    {
        proof {
            assert(v@.subrange(0, end as int).drop_last() =~= v@.subrange(0, end - 1));
        }
        end = end - 1;
    }
    proof {
        if end > 0 {
            assert(!is_url_trail_punct(v@.subrange(0, end as int).last()));
        }
    }
    crate::text::subvec(v, 0, end)
}

/// Split free text around the first embedded URL: the text before the
/// URL (trimmed) and the URL itself with trailing `.`/`,`/`;` and white
/// space removed. `https://` is looked for before `http://`.
pub open spec fn spec_split_text_and_url(s: Seq<char>) -> Option<(Seq<char>, Seq<char>)> {
    let pos = if spec_find(s, "https://"@) is Some {
        spec_find(s, "https://"@)
    } else {
        spec_find(s, "http://"@)
    };
    match pos {
        None => None,
        Some(i) => Some(
            (
                spec_trim(s.subrange(0, i)),
                spec_trim(spec_strip_trail_punct(s.subrange(i, s.len() as int))),
            ),
        ),
    }
}

pub fn split_text_and_url(text: &Vec<char>) -> (r: Option<(Vec<char>, Vec<char>)>)
    ensures
        match r {
            Some(p) => spec_split_text_and_url(text@) == Some((p.0@, p.1@)),
            None => spec_split_text_and_url(text@) is None,
        },
{
    let pos = match crate::text::find_str(text, "https://") {
        Some(i) => Some(i),
        None => crate::text::find_str(text, "http://"),
    };
    match pos {
        None => None,
        Some(i) => {
            let before = crate::text::subvec(text, 0, i);
            let prefix = crate::text::trim_chars(&before);
            let tail = crate::text::subvec(text, i, text.len());
            let stripped = strip_trail_punct(&tail);
            let url = crate::text::trim_chars(&stripped);
            Some((prefix, url))
        },
    }
}

/// The contents of the first fenced code block: after the first ```` ``` ````
/// marker, skip the rest of that line, and take everything up to the next
/// ```` ``` ```` marker, trimmed.
pub open spec fn spec_extract_code_block(t: Seq<char>) -> Option<Seq<char>> {
    match spec_find(t, "```"@) {
        None => None,
        Some(s0) => {
            let after = t.subrange(s0 + 3, t.len() as int);
            match spec_find_char(after, '\n') {
                None => None,
                Some(ni) => {
                    let body = after.subrange(ni + 1, after.len() as int);
                    match spec_find(body, "```"@) {
                        None => None,
                        Some(e) => Some(spec_trim(body.subrange(0, e))),
                    }
                },
            }
        },
    }
}

pub fn extract_code_block(text: &Vec<char>) -> (r: Option<Vec<char>>)
    ensures
        match r {
            Some(b) => spec_extract_code_block(text@) == Some(b@),
            None => spec_extract_code_block(text@) is None,
        },
{
    proof {
        reveal_strlit("```");
    }
    let tn = text.len();
    let s0 = match crate::text::find_str(text, "```") {
        Some(i) => i,
        None => {
            return None;
        },
    };
    let after = crate::text::subvec(text, s0 + 3, tn);
    let an = after.len();
    let ni = match crate::text::find_char(&after, '\n') {
        Some(i) => i,
        None => {
            return None;
        },
    };
    let body = crate::text::subvec(&after, ni + 1, an);
    let e = match crate::text::find_str(&body, "```") {
        Some(i) => i,
        None => {
            return None;
        },
    };
    let piece = crate::text::subvec(&body, 0, e);
    Some(crate::text::trim_chars(&piece))
}

/// Position right after the close of the first top-level `[...]` group,
/// scanning with a bracket-depth counter from position `i` at depth
/// `level >= 1`.
pub open spec fn spec_bracket_close(s: Seq<char>, i: int, level: int) -> Option<int>
    decreases s.len() - i + 1,
{
    if i < 0 || i >= s.len() {
        None
    } else if s[i] == '[' {
        spec_bracket_close(s, i + 1, level + 1)
    } else if s[i] == ']' {
        if level <= 1 {
            Some(i)
        } else {
            spec_bracket_close(s, i + 1, level - 1)
        }
    } else {
        spec_bracket_close(s, i + 1, level)
    }
}

/// The first top-level bracket-balanced `[...]` substring.
pub open spec fn spec_extract_json_array(t: Seq<char>) -> Option<Seq<char>> {
    match spec_find_char(t, '[') {
        None => None,
        Some(st) => match spec_bracket_close(t, st + 1, 1) {
            None => None,
            Some(e) => Some(t.subrange(st, e + 1)),
        },
    }
}

pub fn extract_json_array(text: &Vec<char>) -> (r: Option<Vec<char>>)
    ensures
        match r {
            Some(b) => spec_extract_json_array(text@) == Some(b@),
            None => spec_extract_json_array(text@) is None,
        },
{
    let st = match crate::text::find_char(text, '[') {
        Some(i) => i,
        None => {
            return None;
        },
    };
    let n = text.len();
    let mut i: usize = st + 1;
    let mut level: usize = 1;
    while i < n
        invariant
            st < i <= n == text@.len(),
            1 <= level,
            level <= i,
            spec_find_char(text@, '[') == Some(st as int),
            spec_bracket_close(text@, st + 1 as int, 1) == spec_bracket_close(
                text@,
                i as int,
                level as int,
            ),
        decreases n - i,
    {
        let c = text[i];
        if c == '[' {
            level = level + 1;
        } else if c == ']' {
            if level == 1 {
                proof {
                    assert(spec_bracket_close(text@, i as int, level as int) == Some(i as int));
                    assert(spec_bracket_close(text@, st as int + 1, 1) == Some(i as int));
                    assert(spec_extract_json_array(text@) is Some);
                    assert(spec_extract_json_array(text@)->0 =~= text@.subrange(
                        st as int,
                        i as int + 1,
                    ));
                }
                return Some(crate::text::subvec(text, st, i + 1));
            }
            level = level - 1;
        }
        i = i + 1;
    }
    proof {
        assert(spec_bracket_close(text@, i as int, level as int) is None);
    }
    None
}

/// A string card `"front :: back"`: the first separator from the priority
/// list `::`, `=>`, ` - `, ` ~ ` splits the text into a `Front` and a
/// `Back` field; a missing separator or a blank side drops the card.
pub open spec fn spec_split_at_sep(t: Seq<char>, sep: Seq<char>) -> Option<(Seq<char>, Seq<char>)> {
    match spec_find(t, sep) {
        None => None,
        Some(i) => Some(
            (spec_trim(t.subrange(0, i)), spec_trim(t.subrange(i + sep.len(), t.len() as int))),
        ),
    }
}

pub open spec fn spec_front_back_parts(t: Seq<char>) -> Option<(Seq<char>, Seq<char>)> {
    if spec_find(t, "::"@) is Some {
        spec_split_at_sep(t, "::"@)
    } else if spec_find(t, "=>"@) is Some {
        spec_split_at_sep(t, "=>"@)
    } else if spec_find(t, " - "@) is Some {
        spec_split_at_sep(t, " - "@)
    } else if spec_find(t, " ~ "@) is Some {
        spec_split_at_sep(t, " ~ "@)
    } else {
        None
    }
}

pub open spec fn spec_split_front_back(text: Seq<char>) -> Option<NoteModel> {
    let t = spec_trim(text);
    if t.len() == 0 {
        None
    } else {
        match spec_front_back_parts(t) {
            None => None,
            Some(p) => if p.0.len() == 0 || p.1.len() == 0 {
                None
            } else {
                Some(
                    NoteModel {
                        fields: seq![
                            FieldModel { name: "Front"@, value: p.0 },
                            FieldModel { name: "Back"@, value: p.1 },
                        ],
                        source: None,
                        note_type_id: None,
                        deck_id: None,
                    },
                )
            },
        }
    }
}

fn split_at_sep(t: &Vec<char>, sep: &str) -> (r: Option<(Vec<char>, Vec<char>)>)
    ensures
        match r {
            Some(p) => spec_split_at_sep(t@, sep@) == Some((p.0@, p.1@)),
            None => spec_split_at_sep(t@, sep@) is None,
        },
{
    let pat = crate::text::chars_of(sep);
    let tn = t.len();
    match crate::text::find_sub(t, &pat) {
        None => None,
        Some(i) => {
            let before = crate::text::subvec(t, 0, i);
            let after = crate::text::subvec(t, i + pat.len(), tn);
            Some((crate::text::trim_chars(&before), crate::text::trim_chars(&after)))
        },
    }
}

/// Parse a plain-string card.
pub fn split_front_back(text: &Vec<char>) -> (r: Option<GeneratedNote>)
    ensures
        match r {
            Some(n) => spec_split_front_back(text@) == Some(n@),
            None => spec_split_front_back(text@) is None,
        },
{
    let t = crate::text::trim_chars(text);
    if t.len() == 0 {
        return None;
    }
    let parts = if let Some(p) = split_at_sep(&t, "::") {
        Some(p)
    } else if let Some(p) = split_at_sep(&t, "=>") {
        Some(p)
    } else if let Some(p) = split_at_sep(&t, " - ") {
        Some(p)
    } else if let Some(p) = split_at_sep(&t, " ~ ") {
        Some(p)
    } else {
        None
    };
    match parts {
        None => None,
        Some(p) => {
            if p.0.len() == 0 || p.1.len() == 0 {
                return None;
            }
            let front = crate::text::string_of_chars(&p.0);
            let back = crate::text::string_of_chars(&p.1);
            let mut fields: Vec<GeneratedField> = Vec::new();
            fields.push(GeneratedField::new("Front", front.as_str()));
            fields.push(GeneratedField::new("Back", back.as_str()));
            let note = GeneratedNote::new(fields);
            proof {
                assert(note@.fields =~= spec_split_front_back(text@)->0.fields);
            }
            Some(note)
        },
    }
}

/// First entry of a JSON object with exactly the key `key`.
pub open spec fn spec_obj_get(entries: Seq<(String, JsonValue)>, key: Seq<char>) -> Option<
    JsonValue,
>
    decreases entries.len(),
{
    if entries.len() == 0 {
        None
    } else if entries[0].0@ == key {
        Some(entries[0].1)
    } else {
        spec_obj_get(entries.drop_first(), key)
    }
}

pub fn obj_get<'a>(entries: &'a Vec<(String, JsonValue)>, key: &str) -> (r: Option<&'a JsonValue>)
    ensures
        match r {
            Some(v) => spec_obj_get(entries@, key@) == Some(*v),
            None => spec_obj_get(entries@, key@) is None,
        },
{
    let n = entries.len();
    let mut i: usize = 0;
    proof {
        assert(entries@.skip(0) =~= entries@);
    }
    while i < n
        invariant
            0 <= i <= n == entries@.len(),
            spec_obj_get(entries@, key@) == spec_obj_get(entries@.skip(i as int), key@),
        decreases n - i,
    {
        proof {
            assert(entries@.skip(i as int)[0] == entries@[i as int]);
            assert(entries@.skip(i as int).drop_first() =~= entries@.skip(i + 1));
        }
        let name = &entries[i].0;
        let nv = crate::text::chars_of(name.as_str());
        if crate::text::chars_eq_str(&nv, key) {
            return Some(&entries[i].1);
        }
        i = i + 1;
    }
    proof {
        assert(entries@.skip(n as int) =~= Seq::<(String, JsonValue)>::empty());
    }
    None
}

/// Coerce a parsed document to the card array: an array is used as is; an
/// object is searched for `cards`, `flashcards`, `items`, in that order,
/// and the first of those that holds an array is used.
pub open spec fn spec_key_array(entries: Seq<(String, JsonValue)>, key: Seq<char>) -> Option<
    Seq<JsonValue>,
> {
    match spec_obj_get(entries, key) {
        Some(JsonValue::Arr(a)) => Some(a@),
        _ => None,
    }
}

pub open spec fn spec_coerce_to_array(v: JsonValue) -> Option<Seq<JsonValue>> {
    match v {
        JsonValue::Arr(a) => Some(a@),
        JsonValue::Obj(entries) => if spec_key_array(entries@, "cards"@) is Some {
            spec_key_array(entries@, "cards"@)
        } else if spec_key_array(entries@, "flashcards"@) is Some {
            spec_key_array(entries@, "flashcards"@)
        } else if spec_key_array(entries@, "items"@) is Some {
            spec_key_array(entries@, "items"@)
        } else {
            None
        },
        _ => None,
    }
}

fn key_array<'a>(entries: &'a Vec<(String, JsonValue)>, key: &str) -> (r: Option<
    &'a Vec<JsonValue>,
>)
    ensures
        match r {
            Some(a) => spec_key_array(entries@, key@) == Some(a@),
            None => spec_key_array(entries@, key@) is None,
        },
{
    match obj_get(entries, key) {
        Some(JsonValue::Arr(a)) => Some(a),
        _ => None,
    }
}

/// The three parts of a note source while they are being collected.
pub struct SourceParts {
    pub url: Option<Seq<char>>,
    pub excerpt: Option<Seq<char>>,
    pub title: Option<Seq<char>>,
}

/// View of three optional strings as collected source parts.
pub open spec fn spec_parts_of(
    url: Option<String>,
    excerpt: Option<String>,
    title: Option<String>,
) -> SourceParts {
    SourceParts {
        url: crate::types::view_opt_str(url),
        excerpt: crate::types::view_opt_str(excerpt),
        title: crate::types::view_opt_str(title),
    }
}

/// A source given as one string: an embedded URL fills the URL slot (any
/// text before it the excerpt slot); otherwise the whole text fills the
/// URL slot when it looks like a URL, else the excerpt slot. `t` is the
/// already-trimmed text.
pub open spec fn spec_source_from_text(t: Seq<char>, p: SourceParts) -> SourceParts {
    if t.len() == 0 {
        p
    } else if p.url is None && spec_split_text_and_url(t) is Some {
        let q = spec_split_text_and_url(t)->0;
        SourceParts {
            url: Some(q.1),
            excerpt: if q.0.len() > 0 && p.excerpt is None {
                Some(q.0)
            } else {
                p.excerpt
            },
            title: p.title,
        }
    } else if p.url is None && spec_looks_like_url(t) {
        SourceParts { url: Some(t), ..p }
    } else if p.excerpt is None {
        SourceParts { excerpt: Some(t), ..p }
    } else {
        p
    }
}

/// The first present key out of two, three or four alternatives,
/// converted to text.
pub open spec fn spec_get_text2(
    entries: Seq<(String, JsonValue)>,
    k1: Seq<char>,
    k2: Seq<char>,
) -> Option<Seq<char>> {
    let got = if spec_obj_get(entries, k1) is Some {
        spec_obj_get(entries, k1)
    } else {
        spec_obj_get(entries, k2)
    };
    match got {
        Some(v) => spec_value_to_string(v),
        None => None,
    }
}

pub open spec fn spec_get_text3(
    entries: Seq<(String, JsonValue)>,
    k1: Seq<char>,
    k2: Seq<char>,
    k3: Seq<char>,
) -> Option<Seq<char>> {
    if spec_obj_get(entries, k1) is Some {
        spec_get_text2(entries, k1, k1)
    } else {
        spec_get_text2(entries, k2, k3)
    }
}

pub open spec fn spec_get_text4(
    entries: Seq<(String, JsonValue)>,
    k1: Seq<char>,
    k2: Seq<char>,
    k3: Seq<char>,
    k4: Seq<char>,
) -> Option<Seq<char>> {
    if spec_obj_get(entries, k1) is Some || spec_obj_get(entries, k2) is Some {
        spec_get_text2(entries, k1, k2)
    } else {
        spec_get_text2(entries, k3, k4)
    }
}

/// A source given as a nested object: each empty slot is filled from its
/// own alternative keys; `text`/`description` serve as a late fallback
/// for the excerpt.
pub open spec fn spec_source_from_obj(
    entries: Seq<(String, JsonValue)>,
    p: SourceParts,
) -> SourceParts {
    let url = if p.url is None {
        spec_get_text4(entries, "url"@, "link"@, "source_url"@, "reference"@)
    } else {
        p.url
    };
    let excerpt = if p.excerpt is None {
        spec_get_text3(entries, "excerpt"@, "source_excerpt"@, "quote"@)
    } else {
        p.excerpt
    };
    let title = if p.title is None {
        spec_get_text2(entries, "title"@, "source_title"@)
    } else {
        p.title
    };
    let excerpt2 = if excerpt is None {
        spec_get_text2(entries, "text"@, "description"@)
    } else {
        excerpt
    };
    SourceParts { url, excerpt: excerpt2, title }
}

/// Recursive extraction of source parts from a string or object value;
/// any other value changes nothing.
pub open spec fn spec_parse_source(v: JsonValue, p: SourceParts) -> SourceParts {
    match v {
        JsonValue::Text(s) => spec_source_from_text(spec_trim(s@), p),
        JsonValue::Obj(entries) => spec_source_from_obj(entries@, p),
        _ => p,
    }
}

/// Look up two keys in turn and convert the first present value.
fn get_text2(entries: &Vec<(String, JsonValue)>, k1: &str, k2: &str) -> (r: Option<String>)
    ensures
        crate::types::view_opt_str(r) == spec_get_text2(entries@, k1@, k2@),
{
    let got = if let Some(v) = obj_get(entries, k1) {
        Some(v)
    } else {
        obj_get(entries, k2)
    };
    match got {
        Some(v) => crate::json::value_to_string(v),
        None => None,
    }
}

fn get_text3(entries: &Vec<(String, JsonValue)>, k1: &str, k2: &str, k3: &str) -> (r: Option<
    String,
>)
    ensures
        crate::types::view_opt_str(r) == spec_get_text3(entries@, k1@, k2@, k3@),
{
    if let Some(_v) = obj_get(entries, k1) {
        get_text2(entries, k1, k1)
    } else {
        get_text2(entries, k2, k3)
    }
}

fn get_text4(entries: &Vec<(String, JsonValue)>, k1: &str, k2: &str, k3: &str, k4: &str) -> (r:
    Option<String>)
    ensures
        crate::types::view_opt_str(r) == spec_get_text4(entries@, k1@, k2@, k3@, k4@),
{
    let first_two = {
        let a = obj_get(entries, k1);
        if a.is_some() {
            true
        } else {
            obj_get(entries, k2).is_some()
        }
    };
    if first_two {
        get_text2(entries, k1, k2)
    } else {
        get_text2(entries, k3, k4)
    }
}

/// Fill the empty slots among `url`, `excerpt`, `title` from a source
/// value, string or object; slots already filled stay as they are.
pub fn parse_source_object(
    value: &JsonValue,
    url: &mut Option<String>,
    excerpt: &mut Option<String>,
    title: &mut Option<String>,
)
    ensures
        spec_parts_of(*final(url), *final(excerpt), *final(title)) == spec_parse_source(
            *value,
            spec_parts_of(*old(url), *old(excerpt), *old(title)),
        ),
{
    match value {
        JsonValue::Text(s) => {
            let t = crate::text::chars_trimmed(s.as_str());
            if t.len() == 0 {
                return ;
            }
            if url.is_none() {
                if let Some(p) = split_text_and_url(&t) {
                    if p.0.len() > 0 && excerpt.is_none() {
                        *excerpt = Some(crate::text::string_of_chars(&p.0));
                    }
                    *url = Some(crate::text::string_of_chars(&p.1));
                    return ;
                }
            }
            if url.is_none() && looks_like_url(&t) {
                *url = Some(crate::text::string_of_chars(&t));
            } else if excerpt.is_none() {
                *excerpt = Some(crate::text::string_of_chars(&t));
            }
        },
        JsonValue::Obj(entries) => {
            if url.is_none() {
                *url = get_text4(entries, "url", "link", "source_url", "reference");
            }
            if excerpt.is_none() {
                *excerpt = get_text3(entries, "excerpt", "source_excerpt", "quote");
            }
            if title.is_none() {
                *title = get_text2(entries, "title", "source_title");
            }
            if excerpt.is_none() {
                *excerpt = get_text2(entries, "text", "description");
            }
        },
        _ => {},
    }
}

fn coerce_to_array<'a>(v: &'a JsonValue) -> (r: Option<&'a Vec<JsonValue>>)
    ensures
        match r {
            Some(a) => spec_coerce_to_array(*v) == Some(a@),
            None => spec_coerce_to_array(*v) is None,
        },
{
    match v {
        JsonValue::Arr(a) => Some(a),
        JsonValue::Obj(entries) => {
            if let Some(a) = key_array(entries, "cards") {
                Some(a)
            } else if let Some(a) = key_array(entries, "flashcards") {
                Some(a)
            } else if let Some(a) = key_array(entries, "items") {
                Some(a)
            } else {
                None
            }
        },
        _ => None,
    }
}

/// Alias sets for the scan over a card object's keys, matched against the
/// ASCII-lowercased key.
pub open spec fn is_front_key(l: Seq<char>) -> bool {
    l == "front"@ || l == "question"@ || l == "prompt"@ || l == "q"@
}

pub open spec fn is_back_key(l: Seq<char>) -> bool {
    l == "back"@ || l == "answer"@ || l == "response"@ || l == "a"@
}

pub open spec fn is_url_key(l: Seq<char>) -> bool {
    l == "source_url"@ || l == "sourceurl"@ || l == "source_link"@ || l == "sourcelink"@ || l
        == "url"@ || l == "link"@ || l == "reference_url"@ || l == "referenceurl"@
}

pub open spec fn is_excerpt_key(l: Seq<char>) -> bool {
    l == "source_excerpt"@ || l == "sourceexcerpt"@ || l == "excerpt"@ || l == "context"@ || l
        == "quote"@ || l == "source_text"@ || l == "sourcetext"@
}

pub open spec fn is_title_key(l: Seq<char>) -> bool {
    l == "source_title"@ || l == "sourcetitle"@ || l == "title"@ || l == "heading"@
}

pub open spec fn is_source_key(l: Seq<char>) -> bool {
    l == "source"@ || l == "reference"@ || l == "citation"@
}

/// Extra fields contributed by a nested `fields` object: one per entry
/// whose value converts to text.
pub open spec fn spec_fields_extras(m: Seq<(String, JsonValue)>) -> Seq<FieldModel>
    decreases m.len(),
{
    if m.len() == 0 {
        Seq::empty()
    } else {
        spec_fields_extras(m.drop_last()) + (match spec_value_to_string(m.last().1) {
            Some(t) => seq![FieldModel { name: m.last().0@, value: t }],
            None => Seq::empty(),
        })
    }
}

/// Scan state while walking a card object's entries.
pub struct CardScan {
    pub front: Option<FieldModel>,
    pub back: Option<FieldModel>,
    pub extras: Seq<FieldModel>,
    pub parts: SourceParts,
}

pub open spec fn opt_field_view(o: Option<GeneratedField>) -> Option<FieldModel> {
    match o {
        Some(f) => Some(f@),
        None => None,
    }
}

/// One step of the scan: the first hit wins for the front, back and
/// source slots; unmatched keys become extra fields under their original
/// names.
pub open spec fn spec_scan_step(st: CardScan, key: String, val: JsonValue) -> CardScan {
    let lower = spec_lower(key@);
    if is_front_key(lower) {
        if st.front is None && spec_value_to_string(val) is Some {
            CardScan {
                front: Some(FieldModel { name: key@, value: spec_value_to_string(val)->0 }),
                ..st
            }
        } else {
            st
        }
    } else if is_back_key(lower) {
        if st.back is None && spec_value_to_string(val) is Some {
            CardScan {
                back: Some(FieldModel { name: key@, value: spec_value_to_string(val)->0 }),
                ..st
            }
        } else {
            st
        }
    } else if is_url_key(lower) {
        if st.parts.url is None {
            CardScan { parts: SourceParts { url: spec_value_to_string(val), ..st.parts }, ..st }
        } else {
            st
        }
    } else if is_excerpt_key(lower) {
        if st.parts.excerpt is None {
            CardScan {
                parts: SourceParts { excerpt: spec_value_to_string(val), ..st.parts },
                ..st
            }
        } else {
            st
        }
    } else if is_title_key(lower) {
        if st.parts.title is None {
            CardScan { parts: SourceParts { title: spec_value_to_string(val), ..st.parts }, ..st }
        } else {
            st
        }
    } else if is_source_key(lower) {
        if st.parts.url is None || st.parts.excerpt is None || st.parts.title is None {
            CardScan { parts: spec_parse_source(val, st.parts), ..st }
        } else {
            st
        }
    } else if lower == "fields"@ {
        match val {
            JsonValue::Obj(m) => CardScan { extras: st.extras + spec_fields_extras(m@), ..st },
            _ => st,
        }
    } else {
        match spec_value_to_string(val) {
            Some(t) => CardScan {
                extras: st.extras + seq![FieldModel { name: key@, value: t }],
                ..st
            },
            None => st,
        }
    }
}

/// The scan state after the first `n` entries.
pub open spec fn spec_scan(entries: Seq<(String, JsonValue)>, n: int) -> CardScan
    decreases n,
{
    if n <= 0 {
        CardScan {
            front: None,
            back: None,
            extras: Seq::empty(),
            parts: SourceParts { url: None, excerpt: None, title: None },
        }
    } else {
        spec_scan_step(spec_scan(entries, n - 1), entries[n - 1].0, entries[n - 1].1)
    }
}

/// An extra field whose lowercased name is one of two aliases and whose
/// value is not blank.
pub open spec fn spec_alias_hit(f: FieldModel, a1: Seq<char>, a2: Seq<char>) -> bool {
    (spec_lower(f.name) == a1 || spec_lower(f.name) == a2) && !is_blank(f.value)
}

pub open spec fn spec_find_alias(
    extras: Seq<FieldModel>,
    i: int,
    a1: Seq<char>,
    a2: Seq<char>,
) -> Option<int>
    decreases extras.len() - i + 1,
{
    if i < 0 || i >= extras.len() {
        None
    } else if spec_alias_hit(extras[i], a1, a2) {
        Some(i)
    } else {
        spec_find_alias(extras, i + 1, a1, a2)
    }
}

/// Recover a missing front or back from the extra fields: the first
/// non-blank extra matching an alias is removed and used.
pub open spec fn spec_extract_alias(
    extras: Seq<FieldModel>,
    a1: Seq<char>,
    a2: Seq<char>,
) -> Option<(FieldModel, Seq<FieldModel>)> {
    match spec_find_alias(extras, 0, a1, a2) {
        None => None,
        Some(i) => Some((extras[i], extras.remove(i))),
    }
}

pub open spec fn field_views(s: Seq<GeneratedField>) -> Seq<FieldModel> {
    s.map_values(|f: GeneratedField| f@)
}

/// Take the first extra field whose lowercased name is `alias_a` or
/// `alias_b` and whose value is not blank, removing it from the list.
pub fn extract_from_extra(
    extra_fields: &mut Vec<GeneratedField>,
    alias_a: &str,
    alias_b: &str,
) -> (r: Option<GeneratedField>)
    ensures
        match r {
            Some(f) => spec_extract_alias(field_views(old(extra_fields)@), alias_a@, alias_b@)
                == Some((f@, field_views(final(extra_fields)@))),
            None => spec_extract_alias(field_views(old(extra_fields)@), alias_a@, alias_b@)
                is None && final(extra_fields)@ == old(extra_fields)@,
        },
{
    let ghost ev = field_views(extra_fields@);
    let n = extra_fields.len();
    let mut i: usize = 0;
    while i < n
        invariant
            0 <= i <= n == extra_fields@.len(),
            extra_fields@ == old(extra_fields)@,
            ev == field_views(extra_fields@),
            spec_find_alias(ev, 0, alias_a@, alias_b@) == spec_find_alias(
                ev,
                i as int,
                alias_a@,
                alias_b@,
            ),
        decreases n - i,
    {
        let kc = crate::text::chars_of(extra_fields[i].name.as_str());
        let lower = crate::text::ascii_lower(&kc);
        let hit = (crate::text::chars_eq_str(&lower, alias_a) || crate::text::chars_eq_str(
            &lower,
            alias_b,
        )) && !crate::text::blank_chars(&crate::text::chars_of(
            extra_fields[i].value.as_str(),
        ));
        proof {
            assert(ev[i as int] == extra_fields@[i as int]@);
        }
        if hit {
            proof {
                assert(spec_alias_hit(ev[i as int], alias_a@, alias_b@));
                assert(spec_find_alias(ev, i as int, alias_a@, alias_b@) == Some(i as int));
            }
            let f = extra_fields.remove(i);
            proof {
                assert(field_views(extra_fields@) =~= ev.remove(i as int));
            }
            return Some(f);
        }
        proof {
            assert(!spec_alias_hit(ev[i as int], alias_a@, alias_b@));
        }
        i = i + 1;
    }
    proof {
        assert(spec_find_alias(ev, n as int, alias_a@, alias_b@) is None);
    }
    None
}

/// Whether a lowercased field name was already used.
pub open spec fn spec_seen_contains(seen: Seq<Seq<char>>, key: Seq<char>) -> bool {
    exists|i: int| 0 <= i < seen.len() && seen[i] == key
}

pub open spec fn seen_views(s: Seq<String>) -> Seq<Seq<char>> {
    s.map_values(|x: String| x@)
}

fn seen_contains(seen: &Vec<String>, key: &Vec<char>) -> (r: bool)
    ensures
        r == spec_seen_contains(seen_views(seen@), key@),
{
    let n = seen.len();
    let mut i: usize = 0;
    while i < n
        invariant
            0 <= i <= n == seen@.len(),
            forall|j: int| 0 <= j < i ==> seen_views(seen@)[j] != key@,
        decreases n - i,
    {
        let sc = crate::text::chars_of(seen[i].as_str());
        if crate::text::chars_eq(&sc, key) {
            proof {
                assert(seen_views(seen@)[i as int] == key@);
            }
            return true;
        }
        i = i + 1;
    }
    false
}

/// Append a field unless its value is blank or its lowercased name was
/// already used; values are stored trimmed.
pub open spec fn spec_push_field(
    fields: Seq<FieldModel>,
    seen: Seq<Seq<char>>,
    name: Seq<char>,
    value: Seq<char>,
) -> (Seq<FieldModel>, Seq<Seq<char>>) {
    if is_blank(value) {
        (fields, seen)
    } else if spec_seen_contains(seen, spec_lower(name)) {
        (fields, seen)
    } else {
        (
            fields + seq![FieldModel { name, value: spec_trim(value) }],
            seen + seq![spec_lower(name)],
        )
    }
}

pub fn push_field(
    fields: &mut Vec<GeneratedField>,
    seen: &mut Vec<String>,
    name: &str,
    value: &str,
)
    ensures
        ({
            let stepped = spec_push_field(
                field_views(old(fields)@),
                seen_views(old(seen)@),
                name@,
                value@,
            );
            field_views(final(fields)@) == stepped.0 && seen_views(final(seen)@) == stepped.1
        }),
{
    let ghost fv = field_views(fields@);
    let ghost sv = seen_views(seen@);
    let vc = crate::text::chars_of(value);
    let trimmed = crate::text::trim_chars(&vc);
    if trimmed.len() == 0 {
        return ;
    }
    let kc = crate::text::chars_of(name);
    let lower = crate::text::ascii_lower(&kc);
    if seen_contains(seen, &lower) {
        return ;
    }
    let field = GeneratedField::new(name, crate::text::string_of_chars(&trimmed).as_str());
    fields.push(field);
    seen.push(crate::text::string_of_chars(&lower));
    proof {
        assert(field_views(fields@) =~= fv + seq![
            FieldModel { name: name@, value: spec_trim(value@) },
        ]);
        assert(seen_views(seen@) =~= sv + seq![spec_lower(name@)]);
    }
}

/// Fold [`spec_push_field`] over a list of pending fields.
pub open spec fn spec_push_list(
    acc: (Seq<FieldModel>, Seq<Seq<char>>),
    items: Seq<FieldModel>,
) -> (Seq<FieldModel>, Seq<Seq<char>>)
    decreases items.len(),
{
    if items.len() == 0 {
        acc
    } else {
        spec_push_list(
            spec_push_field(acc.0, acc.1, items[0].name, items[0].value),
            items.drop_first(),
        )
    }
}

/// A card given as a JSON object, folded into a note.
pub open spec fn spec_parse_card_object(entries: Seq<(String, JsonValue)>) -> Option<NoteModel> {
    let scan = spec_scan(entries, entries.len() as int);
    let parts = match spec_obj_get(entries, "source"@) {
        Some(v) => spec_parse_source(v, scan.parts),
        None => scan.parts,
    };
    let fr = match scan.front {
        Some(f) => Some((f, scan.extras)),
        None => spec_extract_alias(scan.extras, "front"@, "question"@),
    };
    match fr {
        None => None,
        Some(fp) => {
            let bk = match scan.back {
                Some(b) => Some((b, fp.1)),
                None => spec_extract_alias(fp.1, "back"@, "answer"@),
            };
            match bk {
                None => None,
                Some(bp) => {
                    let s0 = spec_push_field(Seq::empty(), Seq::empty(), fp.0.name, fp.0.value);
                    let s1 = spec_push_field(s0.0, s0.1, bp.0.name, bp.0.value);
                    let s2 = spec_push_list(s1, bp.1);
                    if s2.0.len() == 0 {
                        None
                    } else {
                        let source = if parts.url is Some || parts.excerpt is Some
                            || parts.title is Some {
                            Some(
                                SourceModel {
                                    url: parts.url,
                                    title: parts.title,
                                    excerpt: parts.excerpt,
                                },
                            )
                        } else {
                            None
                        };
                        Some(
                            NoteModel {
                                fields: s2.0,
                                source,
                                note_type_id: None,
                                deck_id: None,
                            },
                        )
                    }
                },
            }
        },
    }
}

fn parse_card_object(entries: &Vec<(String, JsonValue)>) -> (r: Option<GeneratedNote>)
    ensures
        match r {
            Some(n) => spec_parse_card_object(entries@) == Some(n@),
            None => spec_parse_card_object(entries@) is None,
        },
{
    let n = entries.len();
    let mut front: Option<GeneratedField> = None;
    let mut back: Option<GeneratedField> = None;
    let mut extras: Vec<GeneratedField> = Vec::new();
    let mut url: Option<String> = None;
    let mut excerpt: Option<String> = None;
    let mut title: Option<String> = None;
    let mut i: usize = 0;
    proof {
        assert(field_views(extras@) =~= spec_scan(entries@, 0).extras);
    }
    while i < n
        invariant
            0 <= i <= n == entries@.len(),
            ({
                let sc = spec_scan(entries@, i as int);
                opt_field_view(front) == sc.front && opt_field_view(back) == sc.back
                    && field_views(extras@) == sc.extras && spec_parts_of(url, excerpt, title)
                    == sc.parts
            }),
        decreases n - i,
    {
        let ghost pre = spec_scan(entries@, i as int);
        let kc = crate::text::chars_of(entries[i].0.as_str());
        let lower = crate::text::ascii_lower(&kc);
        let val = &entries[i].1;
        if crate::text::chars_eq_str(&lower, "front") || crate::text::chars_eq_str(
            &lower,
            "question",
        ) || crate::text::chars_eq_str(&lower, "prompt") || crate::text::chars_eq_str(
            &lower,
            "q",
        ) {
            if front.is_none() {
                if let Some(tv) = crate::json::value_to_string(val) {
                    front = Some(GeneratedField { name: entries[i].0.clone(), value: tv });
                }
            }
        } else if crate::text::chars_eq_str(&lower, "back") || crate::text::chars_eq_str(
            &lower,
            "answer",
        ) || crate::text::chars_eq_str(&lower, "response") || crate::text::chars_eq_str(
            &lower,
            "a",
        ) {
            if back.is_none() {
                if let Some(tv) = crate::json::value_to_string(val) {
                    back = Some(GeneratedField { name: entries[i].0.clone(), value: tv });
                }
            }
        } else if crate::text::chars_eq_str(&lower, "source_url") || crate::text::chars_eq_str(
            &lower,
            "sourceurl",
        ) || crate::text::chars_eq_str(&lower, "source_link") || crate::text::chars_eq_str(
            &lower,
            "sourcelink",
        ) || crate::text::chars_eq_str(&lower, "url") || crate::text::chars_eq_str(&lower, "link")
            || crate::text::chars_eq_str(&lower, "reference_url") || crate::text::chars_eq_str(
            &lower,
            "referenceurl",
        ) {
            if url.is_none() {
                url = crate::json::value_to_string(val);
            }
        } else if crate::text::chars_eq_str(&lower, "source_excerpt") || crate::text::chars_eq_str(
            &lower,
            "sourceexcerpt",
        ) || crate::text::chars_eq_str(&lower, "excerpt") || crate::text::chars_eq_str(
            &lower,
            "context",
        ) || crate::text::chars_eq_str(&lower, "quote") || crate::text::chars_eq_str(
            &lower,
            "source_text",
        ) || crate::text::chars_eq_str(&lower, "sourcetext") {
            if excerpt.is_none() {
                excerpt = crate::json::value_to_string(val);
            }
        } else if crate::text::chars_eq_str(&lower, "source_title") || crate::text::chars_eq_str(
            &lower,
            "sourcetitle",
        ) || crate::text::chars_eq_str(&lower, "title") || crate::text::chars_eq_str(
            &lower,
            "heading",
        ) {
            if title.is_none() {
                title = crate::json::value_to_string(val);
            }
        } else if crate::text::chars_eq_str(&lower, "source") || crate::text::chars_eq_str(
            &lower,
            "reference",
        ) || crate::text::chars_eq_str(&lower, "citation") {
            if url.is_none() || excerpt.is_none() || title.is_none() {
                parse_source_object(val, &mut url, &mut excerpt, &mut title);
            }
        } else if crate::text::chars_eq_str(&lower, "fields") {
            if let JsonValue::Obj(m) = val {
                let mn = m.len();
                let ghost base = field_views(extras@);
                let mut j: usize = 0;
                proof {
                    assert(m@.take(0) =~= Seq::<(String, JsonValue)>::empty());
                    assert(base + spec_fields_extras(m@.take(0)) =~= base);
                }
                while j < mn
                    invariant
                        0 <= j <= mn == m@.len(),
                        field_views(extras@) == base + spec_fields_extras(m@.take(j as int)),
                    decreases mn - j,
                {
                    let ghost fvpre = field_views(extras@);
                    if let Some(tv) = crate::json::value_to_string(&m[j].1) {
                        extras.push(GeneratedField { name: m[j].0.clone(), value: tv });
                        proof {
                            assert(field_views(extras@) =~= fvpre + seq![
                                FieldModel { name: m@[j as int].0@, value: tv@ },
                            ]);
                        }
                    }
                    proof {
                        assert(m@.take(j + 1).drop_last() =~= m@.take(j as int));
                        assert(m@.take(j + 1).last() == m@[j as int]);
                        assert(field_views(extras@) =~= base + spec_fields_extras(
                            m@.take(j + 1),
                        ));
                    }
                    j = j + 1;
                }
                proof {
                    assert(m@.take(mn as int) =~= m@);
                }
            }
        } else {
            let ghost fvpre = field_views(extras@);
            if let Some(tv) = crate::json::value_to_string(val) {
                extras.push(GeneratedField { name: entries[i].0.clone(), value: tv });
                proof {
                    assert(field_views(extras@) =~= fvpre + seq![
                        FieldModel { name: entries@[i as int].0@, value: tv@ },
                    ]);
                }
            }
        }
        proof {
            assert(spec_scan(entries@, i + 1) == spec_scan_step(
                pre,
                entries@[i as int].0,
                entries@[i as int].1,
            ));
        }
        i = i + 1;
    }
    proof {
        assert(spec_scan(entries@, entries@.len() as int) == spec_scan(entries@, n as int));
    }
    if let Some(sv) = obj_get(entries, "source") {
        parse_source_object(sv, &mut url, &mut excerpt, &mut title);
    }
    let front_got = match front {
        Some(f) => Some(f),
        None => extract_from_extra(&mut extras, "front", "question"),
    };
    let front_field = match front_got {
        Some(f) => f,
        None => {
            return None;
        },
    };
    let back_got = match back {
        Some(b) => Some(b),
        None => extract_from_extra(&mut extras, "back", "answer"),
    };
    let back_field = match back_got {
        Some(b) => b,
        None => {
            return None;
        },
    };
    let mut fields: Vec<GeneratedField> = Vec::new();
    let mut seen: Vec<String> = Vec::new();
    proof {
        assert(field_views(fields@) =~= Seq::<FieldModel>::empty());
        assert(seen_views(seen@) =~= Seq::<Seq<char>>::empty());
    }
    push_field(&mut fields, &mut seen, front_field.name.as_str(), front_field.value.as_str());
    push_field(&mut fields, &mut seen, back_field.name.as_str(), back_field.value.as_str());
    let ghost s1 = (field_views(fields@), seen_views(seen@));
    let ghost pending = field_views(extras@);
    let en = extras.len();
    let mut k: usize = 0;
    proof {
        assert(pending.skip(0) =~= pending);
    }
    while k < en
        invariant
            0 <= k <= en == extras@.len(),
            pending == field_views(extras@),
            spec_push_list(s1, pending) == spec_push_list(
                (field_views(fields@), seen_views(seen@)),
                pending.skip(k as int),
            ),
        decreases en - k,
    {
        proof {
            assert(pending.skip(k as int)[0] == pending[k as int]);
            assert(pending.skip(k as int).drop_first() =~= pending.skip(k + 1));
            assert(pending[k as int] == extras@[k as int]@);
        }
        push_field(&mut fields, &mut seen, extras[k].name.as_str(), extras[k].value.as_str());
        k = k + 1;
    }
    proof {
        assert(pending.skip(en as int) =~= Seq::<FieldModel>::empty());
    }
    if fields.len() == 0 {
        return None;
    }
    let has_source = url.is_some() || excerpt.is_some() || title.is_some();
    let source = if has_source {
        Some(GeneratedSource { url, title, excerpt })
    } else {
        None
    };
    let note = GeneratedNote { fields, source, note_type_id: None, deck_id: None };
    Some(note)
}

/// A card element: an object is scanned key by key; a plain string is
/// split around a separator; anything else never yields a note.
pub open spec fn spec_parse_card(v: JsonValue) -> Option<NoteModel> {
    match v {
        JsonValue::Obj(entries) => spec_parse_card_object(entries@),
        JsonValue::Text(s) => spec_split_front_back(s@),
        _ => None,
    }
}

fn parse_card(v: &JsonValue) -> (r: Option<GeneratedNote>)
    ensures
        match r {
            Some(n) => spec_parse_card(*v) == Some(n@),
            None => spec_parse_card(*v) is None,
        },
{
    match v {
        JsonValue::Obj(entries) => parse_card_object(entries),
        JsonValue::Text(s) => {
            let c = crate::text::chars_of(s.as_str());
            split_front_back(&c)
        },
        _ => None,
    }
}

/// The notes recovered from a card array, invalid elements dropped.
pub open spec fn spec_notes_from_elems(elems: Seq<JsonValue>) -> Seq<NoteModel>
    decreases elems.len(),
{
    if elems.len() == 0 {
        Seq::empty()
    } else {
        spec_notes_from_elems(elems.drop_last()) + (match spec_parse_card(elems.last()) {
            Some(m) => seq![m],
            None => Seq::empty(),
        })
    }
}

pub open spec fn note_views(s: Seq<GeneratedNote>) -> Seq<NoteModel> {
    s.map_values(|n: GeneratedNote| n@)
}

/// Convert every element of a card array.
pub fn notes_from_elems(elems: &Vec<JsonValue>) -> (r: Vec<GeneratedNote>)
    ensures
        note_views(r@) == spec_notes_from_elems(elems@),
{
    let n = elems.len();
    let mut r: Vec<GeneratedNote> = Vec::new();
    let mut i: usize = 0;
    proof {
        assert(elems@.take(0) =~= Seq::<JsonValue>::empty());
        assert(note_views(r@) =~= spec_notes_from_elems(elems@.take(0)));
    }
    while i < n
        invariant
            0 <= i <= n == elems@.len(),
            note_views(r@) == spec_notes_from_elems(elems@.take(i as int)),
        decreases n - i,
    {
        let ghost pre = note_views(r@);
        if let Some(note) = parse_card(&elems[i]) {
            let ghost nv = note@;
            r.push(note);
            proof {
                assert(note_views(r@) =~= pre + seq![nv]);
            }
        }
        proof {
            assert(elems@.take(i + 1).drop_last() =~= elems@.take(i as int));
            assert(elems@.take(i + 1).last() == elems@[i as int]);
            assert(note_views(r@) =~= spec_notes_from_elems(elems@.take(i + 1)));
        }
        i = i + 1;
    }
    proof {
        assert(elems@.take(n as int) =~= elems@);
    }
    r
}

/// The notes a parsed document yields, or `None` when it holds no card
/// array.
pub open spec fn spec_notes_of_value(v: JsonValue) -> Option<Seq<NoteModel>> {
    match spec_coerce_to_array(v) {
        None => None,
        Some(elems) => Some(spec_notes_from_elems(elems)),
    }
}

/// The notes recovered from a parsed document: a public entry point so
/// that a caller holding a tree can run the card logic directly.
pub fn notes_from_json(v: &JsonValue) -> (r: Option<Vec<GeneratedNote>>)
    ensures
        match r {
            Some(ns) => spec_notes_of_value(*v) == Some(note_views(ns@)),
            None => spec_notes_of_value(*v) is None,
        },
{
    match coerce_to_array(v) {
        None => None,
        Some(elems) => Some(notes_from_elems(elems)),
    }
}

/// What one candidate string yields: `None` when it is not JSON at all
/// or holds no card array.
pub open spec fn spec_candidate_notes(c: Seq<char>) -> Option<Seq<NoteModel>> {
    match json_of_text(c) {
        None => None,
        Some(v) => spec_notes_of_value(v),
    }
}

/// Parse one candidate string. Every note handed back keeps at least
/// two fields: the tree well-formedness of the parse guarantees no
/// recovered front or back is blank.
pub fn try_parse_candidate(candidate: &str) -> (r: Option<Vec<GeneratedNote>>)
    ensures
        match r {
            Some(ns) => spec_candidate_notes(candidate@) == Some(note_views(ns@)),
            None => spec_candidate_notes(candidate@) is None,
        },
        r matches Some(ns) ==> forall|k: int|
            0 <= k < ns@.len() ==> (#[trigger] ns@[k])@.fields.len() >= 2,
{
    match crate::json::parse_json_text(candidate) {
        None => None,
        Some(v) => {
            let r = notes_from_json(&v);
            proof {
                if r is Some {
                    let ns = r->0;
                    match spec_coerce_to_array(v) {
                        Some(elems) => {
                            lemma_coerce_children_wf(v);
                            lemma_notes_two_fields(elems);
                            assert forall|k: int| 0 <= k < ns@.len() implies (
                            #[trigger] ns@[k])@.fields.len() >= 2 by {
                                assert(note_views(ns@)[k] == ns@[k]@);
                            }
                        },
                        None => {},
                    }
                }
            }
            r
        },
    }
}

/// The candidate strings tried in order: the trimmed text itself, the
/// first fenced code block, the first bracket-balanced array.
pub open spec fn spec_candidates(t: Seq<char>) -> Seq<Seq<char>> {
    seq![t] + (match spec_extract_code_block(t) {
        Some(b) => seq![b],
        None => Seq::empty(),
    }) + (match spec_extract_json_array(t) {
        Some(a) => seq![a],
        None => Seq::empty(),
    })
}

/// The first non-empty candidate from `i` on that yields at least one
/// note.
pub open spec fn spec_first_success(cands: Seq<Seq<char>>, i: int) -> Option<Seq<NoteModel>>
    decreases cands.len() - i + 1,
{
    if i < 0 || i >= cands.len() {
        None
    } else {
        let c = cands[i];
        if c.len() > 0 && spec_candidate_notes(c) is Some && spec_candidate_notes(c)->0.len()
            > 0 {
            spec_candidate_notes(c)
        } else {
            spec_first_success(cands, i + 1)
        }
    }
}

/// The notes the whole raw output yields, or `None` when every strategy
/// fails.
pub open spec fn spec_parse_raw_output(raw: Seq<char>) -> Option<Seq<NoteModel>> {
    spec_first_success(spec_candidates(spec_trim(raw)), 0)
}

/// Parse the raw output of a model into structured notes.
///
/// Blank input is rejected outright; otherwise the candidates are tried
/// in order and the first that yields at least one valid note wins; when
/// none does, the call fails with a single invalid-input error.
pub fn parse_raw_output(raw: &str) -> (r: crate::errors::AiResult<Vec<GeneratedNote>>)
    ensures
        crate::text::is_blank(raw@) ==> (r matches Err(e) && e matches
            crate::errors::AiError::InvalidInput(m) && m@ == "AI response was empty"@),
        !crate::text::is_blank(raw@) ==> match spec_parse_raw_output(raw@) {
            Some(models) => r matches Ok(ns) && note_views(ns@) == models,
            None => r matches Err(e) && e matches crate::errors::AiError::InvalidInput(m) && m@
                == "AI response did not contain any flashcards"@,
        },
        r matches Ok(ns) ==> forall|k: int|
            0 <= k < ns@.len() ==> (#[trigger] ns@[k])@.fields.len() >= 2,
{
    let t = crate::text::chars_trimmed(raw);
    if t.len() == 0 {
        return Err(crate::errors::AiError::InvalidInput("AI response was empty".to_owned()));
    }
    let ghost cands = spec_candidates(t@);
    let mut candidates: Vec<String> = Vec::new();
    candidates.push(crate::text::string_of_chars(&t));
    if let Some(b) = extract_code_block(&t) {
        candidates.push(crate::text::string_of_chars(&b));
    }
    if let Some(a) = extract_json_array(&t) {
        candidates.push(crate::text::string_of_chars(&a));
    }
    proof {
        assert(candidates@.map_values(|s: String| s@) =~= cands);
    }
    let n = candidates.len();
    let mut i: usize = 0;
    while i < n
        invariant
            0 <= i <= n == cands.len(),
            cands == candidates@.map_values(|s: String| s@),
            cands == spec_candidates(t@),
            t@ == spec_trim(raw@),
            t@.len() > 0,
            spec_first_success(cands, 0) == spec_first_success(cands, i as int),
        decreases n - i,
    {
        proof {
            assert(cands[i as int] == candidates@[i as int]@);
        }
        let c_is_empty = candidates[i].as_str().is_empty();
        if !c_is_empty {
            if let Some(ns) = try_parse_candidate(candidates[i].as_str()) {
                if ns.len() > 0 {
                    proof {
                        assert(spec_first_success(cands, i as int) == Some(note_views(ns@)));
                    }
                    return Ok(ns);
                }
            }
        }
        proof {
            assert(spec_first_success(cands, i as int) == spec_first_success(cands, i + 1));
        }
        i = i + 1;
    }
    proof {
        assert(spec_first_success(cands, n as int) is None);
    }
    Err(
        crate::errors::AiError::InvalidInput(
            "AI response did not contain any flashcards".to_owned(),
        ),
    )
}

/// Law: a document whose card array sits under `cards` yields exactly
/// the notes of the bare array.
pub proof fn lemma_cards_object_parses_alike(obj: JsonValue, arr: JsonValue)
    requires
        obj matches JsonValue::Obj(entries) && spec_obj_get(entries@, "cards"@) == Some(arr),
        arr is Arr,
    ensures
        spec_notes_of_value(obj) == spec_notes_of_value(arr),
        spec_notes_of_value(obj) is Some,
{
}

/// Law: `flashcards` serves the same way when `cards` holds no array.
pub proof fn lemma_flashcards_object_parses_alike(obj: JsonValue, arr: JsonValue)
    requires
        obj matches JsonValue::Obj(entries) && spec_key_array(entries@, "cards"@) is None
            && spec_obj_get(entries@, "flashcards"@) == Some(arr),
        arr is Arr,
    ensures
        spec_notes_of_value(obj) == spec_notes_of_value(arr),
        spec_notes_of_value(obj) is Some,
{
}

/// How many elements of a card array fail to produce a note.
pub open spec fn spec_invalid_count(elems: Seq<JsonValue>) -> int
    decreases elems.len(),
{
    if elems.len() == 0 {
        0
    } else {
        spec_invalid_count(elems.drop_last()) + (if spec_parse_card(elems.last()) is None {
            1int
        } else {
            0int
        })
    }
}

/// Law: invalid cards are dropped one for one; a batch of `N` cards of
/// which `M` are invalid yields exactly `N - M` notes.
pub proof fn lemma_invalid_cards_dropped(elems: Seq<JsonValue>)
    ensures
        0 <= spec_invalid_count(elems) <= elems.len(),
        spec_notes_from_elems(elems).len() == elems.len() - spec_invalid_count(elems),
    decreases elems.len(),
{
    if elems.len() > 0 {
        lemma_invalid_cards_dropped(elems.drop_last());
    }
}

/// The running well-formedness of the field-deduplication fold: values
/// stay non-blank, lowercased names stay distinct, and every used name
/// is recorded in `seen`.
pub open spec fn push_state_wf(fields: Seq<FieldModel>, seen: Seq<Seq<char>>) -> bool {
    &&& forall|i: int| 0 <= i < fields.len() ==> !is_blank(#[trigger] fields[i].value)
    &&& forall|i: int|
        0 <= i < fields.len() ==> (#[trigger] fields[i].value) == spec_trim(fields[i].value)
    &&& forall|i: int, j: int|
        0 <= i < j < fields.len() ==> spec_lower(#[trigger] fields[i].name) != spec_lower(
            #[trigger] fields[j].name,
        )
    &&& forall|i: int|
        0 <= i < fields.len() ==> spec_seen_contains(seen, spec_lower(
            #[trigger] fields[i].name,
        ))
}

proof fn lemma_push_field_wf(
    fields: Seq<FieldModel>,
    seen: Seq<Seq<char>>,
    name: Seq<char>,
    value: Seq<char>,
)
    requires
        push_state_wf(fields, seen),
    ensures
        push_state_wf(
            spec_push_field(fields, seen, name, value).0,
            spec_push_field(fields, seen, name, value).1,
        ),
{
    let stepped = spec_push_field(fields, seen, name, value);
    if !is_blank(value) && !spec_seen_contains(seen, spec_lower(name)) {
        crate::text::lemma_trim_idempotent(value);
        assert forall|i: int| 0 <= i < stepped.0.len() implies !is_blank(
            #[trigger] stepped.0[i].value,
        ) && stepped.0[i].value == spec_trim(stepped.0[i].value) by {
            if i < fields.len() {
                assert(stepped.0[i] == fields[i]);
            } else {
                crate::text::lemma_trim_idempotent(value);
            }
        }
        assert forall|i: int| 0 <= i < stepped.0.len() implies spec_seen_contains(
            stepped.1,
            spec_lower(#[trigger] stepped.0[i].name),
        ) by {
            if i < fields.len() {
                assert(stepped.0[i] == fields[i]);
                let w = choose|w: int|
                    0 <= w < seen.len() && seen[w] == spec_lower(fields[i].name);
                assert(stepped.1[w] == spec_lower(fields[i].name));
            } else {
                assert(stepped.1[seen.len() as int] == spec_lower(name));
            }
        }
        assert forall|i: int, j: int| 0 <= i < j < stepped.0.len() implies spec_lower(
            #[trigger] stepped.0[i].name,
        ) != spec_lower(#[trigger] stepped.0[j].name) by {
            if j == fields.len() {
                assert(stepped.0[i] == fields[i]);
                assert(spec_seen_contains(seen, spec_lower(fields[i].name)));
                if spec_lower(fields[i].name) == spec_lower(name) {
                    assert(spec_seen_contains(seen, spec_lower(name)));
                }
            } else {
                assert(stepped.0[i] == fields[i] && stepped.0[j] == fields[j]);
            }
        }
    }
}

proof fn lemma_push_list_wf(
    fields: Seq<FieldModel>,
    seen: Seq<Seq<char>>,
    items: Seq<FieldModel>,
)
    requires
        push_state_wf(fields, seen),
    ensures
        push_state_wf(
            spec_push_list((fields, seen), items).0,
            spec_push_list((fields, seen), items).1,
        ),
    decreases items.len(),
{
    if items.len() > 0 {
        lemma_push_field_wf(fields, seen, items[0].name, items[0].value);
        let stepped = spec_push_field(fields, seen, items[0].name, items[0].value);
        lemma_push_list_wf(stepped.0, stepped.1, items.drop_first());
    }
}

/// Law: every note the parser accepts is well-formed — it has at least
/// one field, no blank values, and field names unique without regard to
/// ASCII case.
pub proof fn lemma_parse_card_wf(v: JsonValue)
    requires
        spec_parse_card(v) is Some,
    ensures
        spec_parse_card(v)->0.wf(),
{
    match v {
        JsonValue::Obj(entries) => {
            let scan = spec_scan(entries@, entries@.len() as int);
            let fr = match scan.front {
                Some(f) => Some((f, scan.extras)),
                None => spec_extract_alias(scan.extras, "front"@, "question"@),
            };
            let fp = fr->0;
            let bk = match scan.back {
                Some(b) => Some((b, fp.1)),
                None => spec_extract_alias(fp.1, "back"@, "answer"@),
            };
            let bp = bk->0;
            let s0 = spec_push_field(Seq::empty(), Seq::empty(), fp.0.name, fp.0.value);
            let s1 = spec_push_field(s0.0, s0.1, bp.0.name, bp.0.value);
            assert(push_state_wf(Seq::empty(), Seq::empty()));
            lemma_push_field_wf(Seq::empty(), Seq::empty(), fp.0.name, fp.0.value);
            lemma_push_field_wf(s0.0, s0.1, bp.0.name, bp.0.value);
            lemma_push_list_wf(s1.0, s1.1, bp.1);
        },
        JsonValue::Text(s) => {
            let t = spec_trim(s@);
            let p = spec_front_back_parts(t)->0;
            let m = spec_split_front_back(s@)->0;
            reveal_strlit("Front");
            reveal_strlit("Back");
            assert(spec_lower("Front"@).len() == 5 && spec_lower("Back"@).len() == 4);
            assert(!is_blank(m.fields[0].value) && !is_blank(m.fields[1].value)) by {
                lemma_front_back_parts_trimmed(t);
            }
            assert(m.fields[0].value == spec_trim(m.fields[0].value) && m.fields[1].value
                == spec_trim(m.fields[1].value)) by {
                lemma_front_back_parts_idempotent(t);
            }
        },
        _ => {},
    }
}

/// Both halves of a split string card are trimmed, so a non-empty half
/// is non-blank.
proof fn lemma_front_back_parts_trimmed(t: Seq<char>)
    requires
        spec_front_back_parts(t) is Some,
    ensures
        ({
            let p = spec_front_back_parts(t)->0;
            (p.0.len() > 0 ==> !is_blank(p.0)) && (p.1.len() > 0 ==> !is_blank(p.1))
        }),
{
    if spec_find(t, "::"@) is Some {
        let i = spec_find(t, "::"@)->0;
        crate::text::lemma_trim_idempotent(t.subrange(0, i));
        crate::text::lemma_trim_idempotent(t.subrange(i + "::"@.len(), t.len() as int));
    } else if spec_find(t, "=>"@) is Some {
        let i = spec_find(t, "=>"@)->0;
        crate::text::lemma_trim_idempotent(t.subrange(0, i));
        crate::text::lemma_trim_idempotent(t.subrange(i + "=>"@.len(), t.len() as int));
    } else if spec_find(t, " - "@) is Some {
        let i = spec_find(t, " - "@)->0;
        crate::text::lemma_trim_idempotent(t.subrange(0, i));
        crate::text::lemma_trim_idempotent(t.subrange(i + " - "@.len(), t.len() as int));
    } else {
        let i = spec_find(t, " ~ "@)->0;
        crate::text::lemma_trim_idempotent(t.subrange(0, i));
        crate::text::lemma_trim_idempotent(t.subrange(i + " ~ "@.len(), t.len() as int));
    }
}

/// Both halves of a split string card are already trimmed.
proof fn lemma_front_back_parts_idempotent(t: Seq<char>)
    requires
        spec_front_back_parts(t) is Some,
    ensures
        ({
            let p = spec_front_back_parts(t)->0;
            p.0 == spec_trim(p.0) && p.1 == spec_trim(p.1)
        }),
{
    if spec_find(t, "::"@) is Some {
        let i = spec_find(t, "::"@)->0;
        crate::text::lemma_trim_idempotent(t.subrange(0, i));
        crate::text::lemma_trim_idempotent(t.subrange(i + "::"@.len(), t.len() as int));
    } else if spec_find(t, "=>"@) is Some {
        let i = spec_find(t, "=>"@)->0;
        crate::text::lemma_trim_idempotent(t.subrange(0, i));
        crate::text::lemma_trim_idempotent(t.subrange(i + "=>"@.len(), t.len() as int));
    } else if spec_find(t, " - "@) is Some {
        let i = spec_find(t, " - "@)->0;
        crate::text::lemma_trim_idempotent(t.subrange(0, i));
        crate::text::lemma_trim_idempotent(t.subrange(i + " - "@.len(), t.len() as int));
    } else {
        let i = spec_find(t, " ~ "@)->0;
        crate::text::lemma_trim_idempotent(t.subrange(0, i));
        crate::text::lemma_trim_idempotent(t.subrange(i + " ~ "@.len(), t.len() as int));
    }
}

/// Law: every note in a parsed batch is well-formed.
pub proof fn lemma_notes_from_elems_wf(elems: Seq<JsonValue>)
    ensures
        forall|i: int|
            0 <= i < spec_notes_from_elems(elems).len() ==> (#[trigger] spec_notes_from_elems(
                elems,
            )[i]).wf(),
    decreases elems.len(),
{
    if elems.len() > 0 {
        lemma_notes_from_elems_wf(elems.drop_last());
        if spec_parse_card(elems.last()) is Some {
            lemma_parse_card_wf(elems.last());
        }
        let prior = spec_notes_from_elems(elems.drop_last());
        assert forall|i: int| 0 <= i < spec_notes_from_elems(elems).len() implies (
        #[trigger] spec_notes_from_elems(elems)[i]).wf() by {
            if i < prior.len() {
                assert(spec_notes_from_elems(elems)[i] == prior[i]);
            }
        }
    }
}

/// Law: whatever candidate wins, every note handed back by the parser
/// is well-formed.
pub proof fn lemma_first_success_wf(cands: Seq<Seq<char>>, i: int)
    requires
        spec_first_success(cands, i) is Some,
    ensures
        forall|k: int|
            0 <= k < spec_first_success(cands, i)->0.len() ==> (#[trigger] spec_first_success(
                cands,
                i,
            )->0[k]).wf(),
    decreases cands.len() - i + 1,
{
    if 0 <= i < cands.len() {
        let c = cands[i];
        if c.len() > 0 && spec_candidate_notes(c) is Some && spec_candidate_notes(c)->0.len()
            > 0 {
            match json_of_text(c) {
                Some(v) => {
                    match spec_coerce_to_array(v) {
                        Some(elems) => {
                            lemma_notes_from_elems_wf(elems);
                        },
                        None => {},
                    }
                },
                None => {},
            }
        } else {
            lemma_first_success_wf(cands, i + 1);
        }
    }
}

/// Law: every note `parse_raw_output` returns is well-formed.
pub proof fn lemma_parse_raw_output_wf(raw: Seq<char>)
    requires
        spec_parse_raw_output(raw) is Some,
    ensures
        forall|k: int|
            0 <= k < spec_parse_raw_output(raw)->0.len() ==> (#[trigger] spec_parse_raw_output(
                raw,
            )->0[k]).wf(),
{
    lemma_first_success_wf(spec_candidates(spec_trim(raw)), 0);
}

/// Under the tree well-formedness serde_json guarantees, a converted
/// value is never blank.
proof fn lemma_wf_value_nonblank(v: JsonValue)
    requires
        crate::json::json_tree_wf(v),
    ensures
        spec_value_to_string(v) matches Some(t) ==> !is_blank(t),
{
    match v {
        JsonValue::Bool(b) => {
            reveal_strlit("true");
            reveal_strlit("false");
            if b {
                assert(!crate::text::is_space_char("true"@[0]));
                crate::text::lemma_nonspace_head_nonblank("true"@);
            } else {
                assert(!crate::text::is_space_char("false"@[0]));
                crate::text::lemma_nonspace_head_nonblank("false"@);
            }
        },
        JsonValue::Text(s) => {
            if !is_blank(s@) {
                crate::text::lemma_trim_idempotent(s@);
            }
        },
        _ => {},
    }
}

/// No name is both a front alias and a back alias.
proof fn lemma_alias_sets_disjoint(l: Seq<char>)
    ensures
        !(is_front_key(l) && is_back_key(l)),
{
    if is_front_key(l) && is_back_key(l) {
        reveal_strlit("front");
        reveal_strlit("question");
        reveal_strlit("prompt");
        reveal_strlit("q");
        reveal_strlit("back");
        reveal_strlit("answer");
        reveal_strlit("response");
        reveal_strlit("a");
        assert("front"@.len() == 5 && "question"@.len() == 8 && "prompt"@.len() == 6
            && "q"@.len() == 1);
        assert("back"@.len() == 4 && "answer"@.len() == 6 && "response"@.len() == 8
            && "a"@.len() == 1);
        assert("prompt"@[0] == 'p' && "answer"@[0] == 'a');
        assert("question"@[0] == 'q' && "response"@[0] == 'r');
        assert("q"@[0] == 'q' && "a"@[0] == 'a');
        assert(false);
    }
}

/// The first alias hit is a hit.
proof fn lemma_find_alias_hit(extras: Seq<FieldModel>, i: int, a1: Seq<char>, a2: Seq<char>)
    ensures
        spec_find_alias(extras, i, a1, a2) matches Some(j) ==> 0 <= j < extras.len()
            && spec_alias_hit(extras[j], a1, a2),
    decreases extras.len() - i + 1,
{
    if 0 <= i < extras.len() && !spec_alias_hit(extras[i], a1, a2) {
        lemma_find_alias_hit(extras, i + 1, a1, a2);
    }
}

/// What the scan places in the front and back slots: an alias-named key
/// with a non-blank converted value.
proof fn lemma_scan_slots(entries: Seq<(String, JsonValue)>, n: int)
    requires
        0 <= n <= entries.len(),
        forall|i: int|
            0 <= i < entries.len() ==> crate::json::json_tree_wf((#[trigger] entries[i]).1),
    ensures
        ({
            let sc = spec_scan(entries, n);
            &&& match sc.front {
                Some(f) => is_front_key(spec_lower(f.name)) && !is_blank(f.value),
                None => true,
            }
            &&& match sc.back {
                Some(b) => is_back_key(spec_lower(b.name)) && !is_blank(b.value),
                None => true,
            }
        }),
    decreases n,
{
    if n > 0 {
        lemma_scan_slots(entries, n - 1);
        lemma_wf_value_nonblank(entries[n - 1].1);
    }
}

/// Deduplication never shortens the field list.
proof fn lemma_push_list_len(acc: (Seq<FieldModel>, Seq<Seq<char>>), items: Seq<FieldModel>)
    ensures
        spec_push_list(acc, items).0.len() >= acc.0.len(),
    decreases items.len(),
{
    if items.len() > 0 {
        lemma_push_list_len(
            spec_push_field(acc.0, acc.1, items[0].name, items[0].value),
            items.drop_first(),
        );
    }
}

/// Law: under the tree well-formedness serde_json guarantees, every
/// accepted card keeps both a front and a back: at least two fields.
pub proof fn lemma_parse_card_two_fields(v: JsonValue)
    requires
        crate::json::json_tree_wf(v),
        spec_parse_card(v) is Some,
    ensures
        spec_parse_card(v)->0.fields.len() >= 2,
{
    match v {
        JsonValue::Obj(entries) => {
            assert(forall|i: int|
                0 <= i < entries@.len() ==> crate::json::json_tree_wf(
                    (#[trigger] entries@[i]).1,
                ));
            lemma_scan_slots(entries@, entries@.len() as int);
            let scan = spec_scan(entries@, entries@.len() as int);
            let fr = match scan.front {
                Some(f) => Some((f, scan.extras)),
                None => spec_extract_alias(scan.extras, "front"@, "question"@),
            };
            let fp = fr->0;
            let bk = match scan.back {
                Some(b) => Some((b, fp.1)),
                None => spec_extract_alias(fp.1, "back"@, "answer"@),
            };
            let bp = bk->0;
            if scan.front is None {
                lemma_find_alias_hit(scan.extras, 0, "front"@, "question"@);
            }
            if scan.back is None {
                lemma_find_alias_hit(fp.1, 0, "back"@, "answer"@);
            }
            assert(is_front_key(spec_lower(fp.0.name)) && !is_blank(fp.0.value));
            assert(is_back_key(spec_lower(bp.0.name)) && !is_blank(bp.0.value));
            lemma_alias_sets_disjoint(spec_lower(fp.0.name));
            let s0 = spec_push_field(Seq::empty(), Seq::empty(), fp.0.name, fp.0.value);
            let s1 = spec_push_field(s0.0, s0.1, bp.0.name, bp.0.value);
            assert(!spec_seen_contains(Seq::empty(), spec_lower(fp.0.name)));
            assert(s0.0.len() == 1 && s0.1 =~= seq![spec_lower(fp.0.name)]);
            assert(!spec_seen_contains(s0.1, spec_lower(bp.0.name))) by {
                if spec_seen_contains(s0.1, spec_lower(bp.0.name)) {
                    assert(spec_lower(fp.0.name) == spec_lower(bp.0.name));
                }
            }
            assert(s1.0.len() == 2);
            lemma_push_list_len(s1, bp.1);
        },
        JsonValue::Text(_) => {},
        _ => {},
    }
}

/// A value looked up in a well-formed object is well-formed.
proof fn lemma_obj_get_wf(entries: Seq<(String, JsonValue)>, key: Seq<char>)
    requires
        forall|i: int|
            0 <= i < entries.len() ==> crate::json::json_tree_wf((#[trigger] entries[i]).1),
    ensures
        spec_obj_get(entries, key) matches Some(v) ==> crate::json::json_tree_wf(v),
    decreases entries.len(),
{
    if entries.len() > 0 && entries[0].0@ != key {
        assert(forall|i: int|
            0 <= i < entries.drop_first().len() ==> crate::json::json_tree_wf(
                (#[trigger] entries.drop_first()[i]).1,
            )) by {
            assert(forall|i: int|
                0 <= i < entries.drop_first().len() ==> #[trigger] entries.drop_first()[i]
                    == entries[i + 1]);
        }
        lemma_obj_get_wf(entries.drop_first(), key);
    }
}


/// The card array of a well-formed document holds well-formed elements.
pub proof fn lemma_coerce_children_wf(v: JsonValue)
    requires
        crate::json::json_tree_wf(v),
        spec_coerce_to_array(v) is Some,
    ensures
        forall|i: int|
            0 <= i < spec_coerce_to_array(v)->0.len() ==> crate::json::json_tree_wf(
                #[trigger] spec_coerce_to_array(v)->0[i],
            ),
{
    match v {
        JsonValue::Arr(_) => {},
        JsonValue::Obj(entries) => {
            assert(forall|i: int|
                0 <= i < entries@.len() ==> crate::json::json_tree_wf(
                    (#[trigger] entries@[i]).1,
                ));
            lemma_obj_get_wf(entries@, "cards"@);
            lemma_obj_get_wf(entries@, "flashcards"@);
            lemma_obj_get_wf(entries@, "items"@);
        },
        _ => {},
    }
}

/// Law: every note of a well-formed batch keeps at least two fields.
pub proof fn lemma_notes_two_fields(elems: Seq<JsonValue>)
    requires
        forall|i: int|
            0 <= i < elems.len() ==> crate::json::json_tree_wf(#[trigger] elems[i]),
    ensures
        forall|k: int|
            0 <= k < spec_notes_from_elems(elems).len() ==> (#[trigger] spec_notes_from_elems(
                elems,
            )[k]).fields.len() >= 2,
    decreases elems.len(),
{
    if elems.len() > 0 {
        assert(forall|i: int|
            0 <= i < elems.drop_last().len() ==> crate::json::json_tree_wf(
                #[trigger] elems.drop_last()[i],
            ));
        lemma_notes_two_fields(elems.drop_last());
        if spec_parse_card(elems.last()) is Some {
            lemma_parse_card_two_fields(elems.last());
        }
        let prior = spec_notes_from_elems(elems.drop_last());
        assert forall|k: int| 0 <= k < spec_notes_from_elems(elems).len() implies (
        #[trigger] spec_notes_from_elems(elems)[k]).fields.len() >= 2 by {
            if k < prior.len() {
                assert(spec_notes_from_elems(elems)[k] == prior[k]);
            }
        }
    }
}

} // verus!
