//! Input normalization: free text, uploaded files and fetched URL bodies
//! all become one plain-text `ProcessedInput`.
//!
//! Work that only the caller can do safely comes back as an
//! instruction: `prepare` hands out [`PrepareStep::FetchUrl`] for a URL
//! body (finished by [`prepare_fetched`]) and
//! [`PrepareStep::ExtractPdf`] for a PDF payload (finished by
//! [`prepare_extracted`] once the caller has run the extractor).

use vstd::prelude::*;
use crate::errors::AiError;
use crate::errors::AiResult;
use crate::text::is_blank;
use crate::text::spec_lower;
use crate::text::spec_trim;
use crate::types::FilePayload;
use crate::types::GenerationRequest;
use crate::types::InputPayload;

verus! {

/// Normalized input: plain text plus optional source metadata.
#[derive(Debug, Clone)]
pub struct ProcessedInput {
    pub text: String,
    pub source_url: Option<String>,
    pub file: Option<FilePayload>,
}

/// What `prepare` decided: the input is ready, or the caller must fetch
/// a URL and call [`prepare_fetched`] with the response, or the caller
/// must extract a PDF's text and call [`prepare_extracted`] with it.
/// PDF extraction stays outside: the extractor can abort on malformed
/// documents, so no verified function may call it directly.
#[derive(Debug)]
pub enum PrepareStep {
    Ready(ProcessedInput),
    FetchUrl(String),
    ExtractPdf { source_url: Option<String>, file: FilePayload },
}

/// The text `String::from_utf8_lossy` recovers from a byte sequence; a
/// function of the bytes alone.
pub uninterp spec fn utf8_lossy_of(data: Seq<u8>) -> Seq<char>;

/// Relies on `String::from_utf8_lossy`: decodes bytes as UTF-8,
/// substituting replacement characters for invalid sequences.
#[verifier::external_body]
pub fn decode_text(data: &Vec<u8>) -> (r: String)
    ensures
        r@ == utf8_lossy_of(data@),
{
    String::from_utf8_lossy(data.as_slice()).to_string()
}

/// The text fragments scraper finds in an HTML document, in document
/// order; a function of the markup alone.
pub uninterp spec fn html_fragments_of(s: Seq<char>) -> Seq<Seq<char>>;

/// Relies on `scraper::Html::parse_document` and `ElementRef::text`:
/// hands out the document's text fragments in order.
#[verifier::external_body]
fn html_fragments(html: &str) -> (r: Vec<String>)
    ensures
        r.deep_view() == html_fragments_of(html@),
{
    let document = scraper::Html::parse_document(html);
    document.root_element().text().map(|fragment| fragment.to_string()).collect()
}

/// The last path segment of a parsed URL, or `None` when the text does
/// not parse as a URL or the URL has no path segments; a function of the
/// text alone.
pub uninterp spec fn url_last_segment_of(s: Seq<char>) -> Option<Seq<char>>;

/// Relies on `url::Url::parse` and `Url::path_segments`: the last
/// segment of the URL's path.
#[verifier::external_body]
fn url_last_segment(raw: &str) -> (r: Option<String>)
    ensures
        match r {
            Some(s) => url_last_segment_of(raw@) == Some(s@),
            None => url_last_segment_of(raw@) is None,
        },
{
    url::Url::parse(raw).ok().and_then(
        |parsed| parsed.path_segments().and_then(|segments| segments.last().map(|s| s.to_string())),
    )
}

/// Non-empty trimmed HTML fragments joined with single spaces.
pub open spec fn spec_join_fragments(frags: Seq<Seq<char>>, n: int) -> Seq<char>
    decreases n,
{
    if n <= 0 {
        Seq::empty()
    } else {
        let prior = spec_join_fragments(frags, n - 1);
        let t = spec_trim(frags[n - 1]);
        if t.len() == 0 {
            prior
        } else if prior.len() == 0 {
            t
        } else {
            prior + seq![' '] + t
        }
    }
}

/// Strip markup to visible text: every non-empty trimmed text fragment,
/// joined with single spaces.
pub open spec fn spec_html_to_text(html: Seq<char>) -> Seq<char> {
    spec_join_fragments(html_fragments_of(html), html_fragments_of(html).len() as int)
}

pub fn html_to_text(html: &str) -> (r: String)
    ensures
        r@ == spec_html_to_text(html@),
{
    let frags = html_fragments(html);
    let n = frags.len();
    let ghost fv = frags.deep_view();
    let mut acc: Vec<char> = Vec::new();
    let mut i: usize = 0;
    proof {
        assert(fv.len() == frags@.len());
    }
    while i < n
        invariant
            0 <= i <= n == frags@.len(),
            fv == frags.deep_view(),
            fv == html_fragments_of(html@),
            acc@ == spec_join_fragments(fv, i as int),
        decreases n - i,
    {
        proof {
            assert(fv[i as int] == frags@[i as int]@);
        }
        let fc = crate::text::chars_of(frags[i].as_str());
        let t = crate::text::trim_chars(&fc);
        if t.len() > 0 {
            if acc.len() > 0 {
                acc.push(' ');
            }
            acc.extend_from_slice(t.as_slice());
        }
        proof {
            assert(acc@ =~= spec_join_fragments(fv, i + 1));
        }
        i = i + 1;
    }
    crate::text::string_of_chars(&acc)
}

/// One folding step per line: blank lines only mark a paragraph break;
/// a non-blank line is appended after the separator its position calls
/// for.
pub open spec fn spec_norm_fold(lines: Seq<Seq<char>>, n: int) -> (Seq<char>, bool)
    decreases n,
{
    if n <= 0 {
        (Seq::empty(), true)
    } else {
        let prior = spec_norm_fold(lines, n - 1);
        let t = spec_trim(lines[n - 1]);
        if t.len() == 0 {
            (prior.0, true)
        } else {
            let sep: Seq<char> = if prior.0.len() == 0 {
                Seq::empty()
            } else if prior.1 {
                seq!['\n', '\n']
            } else {
                seq!['\n']
            };
            (prior.0 + sep + t, false)
        }
    }
}

/// Whitespace normalization: lines are trimmed, runs of blank lines
/// collapse to one blank line between paragraphs, and leading and
/// trailing blank lines vanish; if nothing remains, fall back to a plain
/// trim of the original text.
pub open spec fn spec_normalize_ws(s: Seq<char>) -> Seq<char> {
    let lines = crate::text::spec_split_char(s, '\n');
    let folded = spec_norm_fold(lines, lines.len() as int);
    if folded.0.len() == 0 {
        spec_trim(s)
    } else {
        folded.0
    }
}

pub fn normalize_whitespace(text: &Vec<char>) -> (r: Vec<char>)
    ensures
        r@ == spec_normalize_ws(text@),
{
    let lines = crate::text::split_char(text, '\n');
    let ghost lv = lines.deep_view();
    let n = lines.len();
    let mut acc: Vec<char> = Vec::new();
    let mut prev_blank = true;
    let mut i: usize = 0;
    proof {
        assert(lv.len() == lines@.len());
    }
    while i < n
        invariant
            0 <= i <= n == lines@.len(),
            lv == lines.deep_view(),
            lv == crate::text::spec_split_char(text@, '\n'),
            (acc@, prev_blank) == spec_norm_fold(lv, i as int),
        decreases n - i,
    {
        proof {
            assert(lv[i as int] == lines@[i as int]@);
        }
        let t = crate::text::trim_chars(&lines[i]);
        if t.len() == 0 {
            prev_blank = true;
        } else {
            if acc.len() > 0 {
                if prev_blank {
                    acc.push('\n');
                    acc.push('\n');
                } else {
                    acc.push('\n');
                }
            }
            acc.extend_from_slice(t.as_slice());
            prev_blank = false;
        }
        proof {
            assert(acc@ =~= spec_norm_fold(lv, i + 1).0);
        }
        i = i + 1;
    }
    if acc.len() == 0 {
        crate::text::trim_chars(text)
    } else {
        acc
    }
}

/// Normalization never loses all content: a text with any non-space
/// character keeps at least that much after normalization.
pub proof fn lemma_normalize_keeps_content(s: Seq<char>)
    requires
        !is_blank(s),
    ensures
        spec_normalize_ws(s).len() > 0,
{
}

/// Position of the last occurrence of `c` in `s`.
pub open spec fn spec_rfind_char(s: Seq<char>, c: char) -> Option<int>
    decreases s.len(),
{
    if s.len() == 0 {
        None
    } else if s.last() == c {
        Some(s.len() - 1)
    } else {
        spec_rfind_char(s.drop_last(), c)
    }
}

proof fn lemma_rfind_scan(s: Seq<char>, c: char, i: int)
    requires
        -1 <= i < s.len(),
        forall|j: int| i < j < s.len() ==> s[j] != c,
        i >= 0 ==> s[i] == c,
    ensures
        spec_rfind_char(s, c) == (if i >= 0 {
            Some(i)
        } else {
            None::<int>
        }),
    decreases s.len(),
{
    if s.len() > 0 {
        if s.last() == c {
            assert(i == s.len() - 1);
        } else {
            assert(i < s.len() - 1);
            lemma_rfind_scan(s.drop_last(), c, i);
        }
    }
}

fn rfind_char(v: &Vec<char>, c: char) -> (r: Option<usize>)
    ensures
        match r {
            Some(i) => spec_rfind_char(v@, c) == Some(i as int) && i < v@.len(),
            None => spec_rfind_char(v@, c) is None,
        },
{
    let n = v.len();
    let mut k: usize = n;
    while k > 0
        invariant
            0 <= k <= n == v@.len(),
            forall|j: int| k <= j < n ==> v@[j] != c,
        decreases k,
    {
        if v[k - 1] == c {
            proof {
                lemma_rfind_scan(v@, c, k - 1);
            }
            return Some(k - 1);
        }
        k = k - 1;
    }
    proof {
        lemma_rfind_scan(v@, c, -1);
    }
    None
}

/// The filename extension: what follows the last dot, unless the dot is
/// missing or leads the name.
pub open spec fn spec_ext(name: Seq<char>) -> Option<Seq<char>> {
    match spec_rfind_char(name, '.') {
        None => None,
        Some(i) => if i == 0 {
            None
        } else {
            Some(name.subrange(i + 1, name.len() as int))
        },
    }
}

/// The MIME type a lowercased filename extension implies.
pub open spec fn spec_mime_for_ext(e: Seq<char>) -> Option<Seq<char>> {
    if e == "pdf"@ {
        Some("application/pdf"@)
    } else if e == "html"@ || e == "htm"@ {
        Some("text/html"@)
    } else if e == "md"@ || e == "markdown"@ {
        Some("text/markdown"@)
    } else if e == "json"@ {
        Some("application/json"@)
    } else if e == "csv"@ {
        Some("text/csv"@)
    } else if e == "txt"@ {
        Some("text/plain"@)
    } else {
        None
    }
}

/// The MIME type of an uploaded file: the explicit field, lowercased,
/// wins; otherwise the filename extension decides.
pub open spec fn spec_infer_mime(mimetype: Option<Seq<char>>, filename: Seq<char>) -> Option<
    Seq<char>,
> {
    match mimetype {
        Some(m) => Some(spec_lower(m)),
        None => match spec_ext(filename) {
            None => None,
            Some(e) => spec_mime_for_ext(spec_lower(e)),
        },
    }
}

pub fn infer_mime(file: &FilePayload) -> (r: Option<String>)
    ensures
        crate::types::view_opt_str(r) == spec_infer_mime(
            crate::types::view_opt_str(file.mimetype),
            file.filename@,
        ),
{
    if let Some(m) = &file.mimetype {
        let mc = crate::text::chars_of(m.as_str());
        let lowered = crate::text::ascii_lower(&mc);
        return Some(crate::text::string_of_chars(&lowered));
    }
    let name = crate::text::chars_of(file.filename.as_str());
    let nlen = name.len();
    let dot = match rfind_char(&name, '.') {
        None => {
            return None;
        },
        Some(i) => i,
    };
    if dot == 0 {
        return None;
    }
    let ext = crate::text::subvec(&name, dot + 1, nlen);
    let e = crate::text::ascii_lower(&ext);
    let m: Option<&str> = if crate::text::chars_eq_str(&e, "pdf") {
        Some("application/pdf")
    } else if crate::text::chars_eq_str(&e, "html") || crate::text::chars_eq_str(&e, "htm") {
        Some("text/html")
    } else if crate::text::chars_eq_str(&e, "md") || crate::text::chars_eq_str(&e, "markdown") {
        Some("text/markdown")
    } else if crate::text::chars_eq_str(&e, "json") {
        Some("application/json")
    } else if crate::text::chars_eq_str(&e, "csv") {
        Some("text/csv")
    } else if crate::text::chars_eq_str(&e, "txt") {
        Some("text/plain")
    } else {
        None
    };
    match m {
        Some(s) => Some(s.to_owned()),
        None => None,
    }
}

/// The input is PDF-like: its MIME type mentions `pdf`, or the URL's
/// last path segment ends in `.pdf`.
pub open spec fn spec_is_pdf(mime: Option<Seq<char>>, url: Option<Seq<char>>) -> bool {
    (match mime {
        Some(m) => crate::text::spec_find(m, "pdf"@) is Some,
        None => false,
    }) || (match url {
        Some(u) => match url_last_segment_of(u) {
            Some(seg) => crate::text::spec_ends_with(seg, ".pdf"@),
            None => false,
        },
        None => false,
    })
}

pub fn is_pdf_mime(mime: Option<&str>, url: Option<&str>) -> (r: bool)
    ensures
        r == spec_is_pdf(
            match mime {
                Some(m) => Some(m@),
                None => None,
            },
            match url {
                Some(u) => Some(u@),
                None => None,
            },
        ),
{
    if let Some(m) = mime {
        let mc = crate::text::chars_of(m);
        if crate::text::find_str(&mc, "pdf").is_some() {
            return true;
        }
    }
    if let Some(u) = url {
        if let Some(seg) = url_last_segment(u) {
            let sc = crate::text::chars_of(seg.as_str());
            return crate::text::ends_with_str(&sc, ".pdf");
        }
    }
    false
}

/// The input is HTML-like or generically text-like.
pub open spec fn spec_is_html(mime: Option<Seq<char>>) -> bool {
    match mime {
        Some(m) => crate::text::spec_find(m, "html"@) is Some || crate::text::spec_starts_with(
            m,
            "text/"@,
        ),
        None => false,
    }
}

pub fn is_html_mime(mime: Option<&str>) -> (r: bool)
    ensures
        r == spec_is_html(
            match mime {
                Some(m) => Some(m@),
                None => None,
            },
        ),
{
    if let Some(m) = mime {
        let mc = crate::text::chars_of(m);
        crate::text::find_str(&mc, "html").is_some() || crate::text::starts_with_str(&mc, "text/")
    } else {
        false
    }
}

/// Copy a file payload field by field.
fn copy_file_payload(file: &FilePayload) -> (r: FilePayload)
    ensures
        r.filename@ == file.filename@,
        r.data@ == file.data@,
        crate::types::view_opt_str(r.mimetype) == crate::types::view_opt_str(file.mimetype),
{
    let mimetype = match &file.mimetype {
        Some(m) => Some(m.clone()),
        None => None,
    };
    let mut data: Vec<u8> = Vec::new();
    data.extend_from_slice(file.data.as_slice());
    proof {
        assert(data@ =~= file.data@);
    }
    FilePayload { filename: file.filename.clone(), data, mimetype }
}

/// Whether an uploaded file routes to PDF extraction.
pub open spec fn spec_file_is_pdf(file: FilePayload) -> bool {
    spec_is_pdf(spec_infer_mime(crate::types::view_opt_str(file.mimetype), file.filename@), None)
}

/// The raw text a non-PDF upload yields before whitespace
/// normalization: HTML stripped to visible text, anything else decoded
/// as UTF-8.
pub open spec fn spec_decoded_file_text(file: FilePayload) -> Seq<char> {
    let mime = spec_infer_mime(crate::types::view_opt_str(file.mimetype), file.filename@);
    let decoded = utf8_lossy_of(file.data@);
    if spec_is_html(mime) {
        spec_html_to_text(decoded)
    } else {
        decoded
    }
}

/// The filename a fetched PDF is retained under: the URL's last path
/// segment when there is a non-empty one, else the whole URL.
pub open spec fn spec_filename_for(url: Seq<char>) -> Seq<char> {
    match url_last_segment_of(url) {
        Some(seg) => if seg.len() > 0 {
            seg
        } else {
            url
        },
        None => url,
    }
}

/// The last path segment of the URL, if it is non-empty.
pub fn filename_from_url(url: &str) -> (r: Option<String>)
    ensures
        match url_last_segment_of(url@) {
            Some(seg) => if seg.len() > 0 {
                r matches Some(s) && s@ == seg
            } else {
                r is None
            },
            None => r is None,
        },
{
    match url_last_segment(url) {
        Some(s) => {
            if s.as_str().is_empty() {
                None
            } else {
                Some(s)
            }
        },
        None => None,
    }
}

pub struct InputProcessor;

impl InputProcessor {
    /// Free text passes through as is.
    pub fn process_text(text: &str) -> (r: ProcessedInput)
        ensures
            r.text@ == text@,
            r.source_url is None,
            r.file is None,
    {
        ProcessedInput { text: text.to_owned(), source_url: None, file: None }
    }

    /// An uploaded file: a PDF comes back as an extraction instruction
    /// with its payload retained; HTML is stripped to visible text,
    /// anything else decoded as UTF-8, with the payload retained too.
    pub fn process_file(file: &FilePayload) -> (r: PrepareStep)
        ensures
            spec_file_is_pdf(*file) ==> {
                &&& r matches PrepareStep::ExtractPdf { source_url, file: f }
                &&& source_url is None
                &&& f.filename@ == file.filename@
                &&& f.data@ == file.data@
                &&& crate::types::view_opt_str(f.mimetype) == crate::types::view_opt_str(
                    file.mimetype,
                )
            },
            !spec_file_is_pdf(*file) ==> {
                &&& r matches PrepareStep::Ready(p)
                &&& p.text@ == spec_decoded_file_text(*file)
                &&& p.source_url is None
                &&& p.file matches Some(f)
                &&& f.filename@ == file.filename@
                &&& f.data@ == file.data@
                &&& crate::types::view_opt_str(f.mimetype) == crate::types::view_opt_str(
                    file.mimetype,
                )
            },
    {
        let mime = infer_mime(file);
        let mime_ref: Option<&str> = match &mime {
            Some(m) => Some(m.as_str()),
            None => None,
        };
        if is_pdf_mime(mime_ref, None) {
            PrepareStep::ExtractPdf { source_url: None, file: copy_file_payload(file) }
        } else {
            let decoded = decode_text(&file.data);
            let content = if is_html_mime(mime_ref) {
                html_to_text(decoded.as_str())
            } else {
                decoded
            };
            PrepareStep::Ready(
                ProcessedInput {
                    text: content,
                    source_url: None,
                    file: Some(copy_file_payload(file)),
                },
            )
        }
    }

    /// Normalize a request's input as far as it can be done locally.
    ///
    /// Text and non-PDF file payloads come back `Ready`, their text
    /// checked non-empty and whitespace-normalized; a URL payload asks
    /// the caller to fetch the resource and continue with
    /// [`prepare_fetched`]; a PDF payload asks the caller to extract
    /// its text and continue with [`prepare_extracted`].
    pub fn prepare(request: &GenerationRequest) -> (r: AiResult<PrepareStep>)
        ensures
            match request.input {
                InputPayload::Url(u) => r matches Ok(PrepareStep::FetchUrl(s)) && s@ == u@,
                InputPayload::Text(t) => if is_blank(t@) {
                    r matches Err(e) && e matches AiError::InvalidInput(m) && m@
                        == "input did not contain any readable content"@
                } else {
                    r matches Ok(PrepareStep::Ready(p)) && p.text@ == spec_normalize_ws(t@)
                        && p.text@.len() > 0 && p.source_url is None && p.file is None
                },
                InputPayload::File(file) => if spec_file_is_pdf(file) {
                    &&& r matches Ok(PrepareStep::ExtractPdf { source_url, file: f })
                    &&& source_url is None
                    &&& f.filename@ == file.filename@
                    &&& f.data@ == file.data@
                    &&& crate::types::view_opt_str(f.mimetype) == crate::types::view_opt_str(
                        file.mimetype,
                    )
                } else {
                    if is_blank(spec_decoded_file_text(file)) {
                        r matches Err(e) && e matches AiError::InvalidInput(m) && m@
                            == "input did not contain any readable content"@
                    } else {
                        &&& r matches Ok(PrepareStep::Ready(p))
                        &&& p.text@ == spec_normalize_ws(spec_decoded_file_text(file))
                        &&& p.text@.len() > 0
                        &&& p.source_url is None
                        &&& p.file matches Some(f)
                        &&& f.filename@ == file.filename@
                        &&& f.data@ == file.data@
                        &&& crate::types::view_opt_str(f.mimetype) == crate::types::view_opt_str(
                            file.mimetype,
                        )
                    }
                },
            },
    {
        let processed = match &request.input {
            InputPayload::Url(u) => {
                return Ok(PrepareStep::FetchUrl(u.clone()));
            },
            InputPayload::Text(t) => InputProcessor::process_text(t.as_str()),
            InputPayload::File(f) => match InputProcessor::process_file(f) {
                PrepareStep::Ready(p) => p,
                step => {
                    return Ok(step);
                },
            },
        };
        match finish_processed(processed) {
            Ok(p) => Ok(PrepareStep::Ready(p)),
            Err(e) => Err(e),
        }
    }
}

/// Finish preparing a PDF payload once the caller has run the
/// extractor: a missing text rejects the document; otherwise the text
/// is checked and normalized as for the other input kinds, with the
/// payload and source URL retained.
pub fn prepare_extracted(
    source_url: Option<String>,
    file: FilePayload,
    text: Option<String>,
) -> (r: AiResult<ProcessedInput>)
    ensures
        text is None ==> (r matches Err(e) && e matches AiError::InvalidInput(m) && m@
            == "unable to read PDF input"@),
        text matches Some(t) ==> if is_blank(t@) {
            r matches Err(e) && e matches AiError::InvalidInput(m) && m@
                == "input did not contain any readable content"@
        } else {
            &&& r matches Ok(p)
            &&& p.text@ == spec_normalize_ws(t@)
            &&& p.text@.len() > 0
            &&& p.source_url == source_url
            &&& p.file == Some(file)
        },
{
    match text {
        None => Err(AiError::InvalidInput("unable to read PDF input".to_owned())),
        Some(t) => finish_processed(
            ProcessedInput { text: t, source_url, file: Some(file) },
        ),
    }
}

/// Shared tail of input preparation/// Shared tail of input preparation: reject blank text, then normalize
/// whitespace.
fn finish_processed(processed: ProcessedInput) -> (r: AiResult<ProcessedInput>)
    ensures
        if is_blank(processed.text@) {
            r matches Err(e) && e matches AiError::InvalidInput(m) && m@
                == "input did not contain any readable content"@
        } else {
            r matches Ok(p) && p.text@ == spec_normalize_ws(processed.text@) && p.text@.len() > 0
                && p.source_url == processed.source_url && p.file == processed.file
        },
{
    let tc = crate::text::chars_of(processed.text.as_str());
    if crate::text::blank_chars(&tc) {
        return Err(AiError::InvalidInput("input did not contain any readable content".to_owned()));
    }
    proof {
        lemma_normalize_keeps_content(processed.text@);
    }
    let normalized = normalize_whitespace(&tc);
    Ok(
        ProcessedInput {
            text: crate::text::string_of_chars(&normalized),
            source_url: processed.source_url,
            file: processed.file,
        },
    )
}

/// The failure message for a fetch that did not succeed.
pub open spec fn spec_fetch_fail_msg(status: u16) -> Seq<char> {
    "fetching the URL failed with HTTP status "@ + crate::text::spec_u32_digits(status as u32)
}

fn fetch_fail_msg(status: u16) -> (r: String)
    ensures
        r@ == spec_fetch_fail_msg(status),
{
    let mut acc: Vec<char> = crate::text::chars_of("fetching the URL failed with HTTP status ");
    crate::text::push_u32_digits(status as u32, &mut acc);
    proof {
        assert(acc@ =~= spec_fetch_fail_msg(status));
    }
    crate::text::string_of_chars(&acc)
}

/// Finish preparing a fetched URL body: a non-success status fails the
/// request; a PDF-like body comes back as an extraction instruction
/// with the bytes retained as a file; HTML-like or plain bodies are
/// decoded, checked and normalized as for the other input kinds.
pub fn prepare_fetched(url: &str, status: u16, content_type: Option<&str>, bytes: Vec<u8>) -> (r:
    AiResult<PrepareStep>)
    ensures
        !crate::providers::spec_status_ok(status) ==> (r matches Err(e) && e matches
            AiError::Upstream(m) && m@ == spec_fetch_fail_msg(status)),
        crate::providers::spec_status_ok(status) ==> ({
            let ct = match content_type {
                Some(c) => Some(spec_lower(c@)),
                None => None,
            };
            if spec_is_pdf(ct, Some(url@)) {
                &&& r matches Ok(PrepareStep::ExtractPdf { source_url, file: f })
                &&& source_url matches Some(su)
                &&& su@ == url@
                &&& f.filename@ == spec_filename_for(url@)
                &&& f.data@ == bytes@
                &&& f.mimetype matches Some(mt)
                &&& mt@ == "application/pdf"@
            } else {
                let decoded = utf8_lossy_of(bytes@);
                let content = if spec_is_html(ct) {
                    spec_html_to_text(decoded)
                } else {
                    decoded
                };
                if is_blank(content) {
                    r matches Err(e) && e matches AiError::InvalidInput(m) && m@
                        == "input did not contain any readable content"@
                } else {
                    &&& r matches Ok(PrepareStep::Ready(p))
                    &&& p.text@ == spec_normalize_ws(content)
                    &&& p.text@.len() > 0
                    &&& p.source_url matches Some(su)
                    &&& su@ == url@
                    &&& p.file is None
                }
            }
        }),
{
    if !(200 <= status && status < 300) {
        return Err(AiError::Upstream(fetch_fail_msg(status)));
    }
    let ct_lowered: Option<String> = match content_type {
        Some(c) => {
            let cc = crate::text::chars_of(c);
            let lc = crate::text::ascii_lower(&cc);
            Some(crate::text::string_of_chars(&lc))
        },
        None => None,
    };
    let ct_ref: Option<&str> = match &ct_lowered {
        Some(c) => Some(c.as_str()),
        None => None,
    };
    if is_pdf_mime(ct_ref, Some(url)) {
        let filename = match filename_from_url(url) {
            Some(name) => name,
            None => url.to_owned(),
        };
        let payload = FilePayload {
            filename,
            data: bytes,
            mimetype: Some("application/pdf".to_owned()),
        };
        Ok(PrepareStep::ExtractPdf { source_url: Some(url.to_owned()), file: payload })
    } else {
        let decoded = decode_text(&bytes);
        let content = if is_html_mime(ct_ref) {
            html_to_text(decoded.as_str())
        } else {
            decoded
        };
        match finish_processed(
            ProcessedInput { text: content, source_url: Some(url.to_owned()), file: None },
        ) {
            Ok(p) => Ok(PrepareStep::Ready(p)),
            Err(e) => Err(e),
        }
    }
}

} // verus!
