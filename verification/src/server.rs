//! The OCR server protocol: the endpoint's URLs, the health check, the
//! request for one page, and the interpretation of the answer.
use vstd::prelude::*;
use crate::error::AppError;
use crate::text::{
    chars_of, decimal, ends_with, is_blank, join, join_parts, push_decimal, push_str, str_eq,
    string_from_chars, to_string, trim, views,
};

verus! {

// ---------------------------------------------------------------- JSON answers

/// A JSON value as the answer logic reads it. Numbers keep their text; an
/// object keeps its members in order, each key once.
pub enum JsonValue {
    Null,
    Bool(bool),
    Number(String),
    String(String),
    Array(Vec<JsonValue>),
    Object(Vec<(String, JsonValue)>),
}

/// The value of the first member named `key` among `entries`.
pub open spec fn lookup(entries: Seq<(String, JsonValue)>, key: Seq<char>) -> Option<JsonValue>
    decreases entries.len(),
{
    if entries.len() == 0 {
        None
    } else if entries[0].0@ == key {
        Some(entries[0].1)
    } else {
        lookup(entries.drop_first(), key)
    }
}

/// The member `key` of an object (`Value::get` with a string index).
pub open spec fn json_get(v: JsonValue, key: Seq<char>) -> Option<JsonValue> {
    match v {
        JsonValue::Object(entries) => lookup(entries@, key),
        _ => None,
    }
}

/// The member `key` of an optional object.
pub open spec fn opt_get(v: Option<JsonValue>, key: Seq<char>) -> Option<JsonValue> {
    match v {
        Some(x) => json_get(x, key),
        None => None,
    }
}

/// The first element of an optional array.
pub open spec fn opt_first(v: Option<JsonValue>) -> Option<JsonValue> {
    match v {
        Some(JsonValue::Array(items)) => if items@.len() > 0 {
            Some(items@[0])
        } else {
            None
        },
        _ => None,
    }
}

/// The text of an optional string value (`Value::as_str`).
pub open spec fn json_text(v: Option<JsonValue>) -> Option<Seq<char>> {
    match v {
        Some(JsonValue::String(s)) => Some(s@),
        _ => None,
    }
}

/// `choices[0].message.content` of an OpenAI chat-completion answer.
pub open spec fn message_content(v: JsonValue) -> Option<JsonValue> {
    opt_get(opt_get(opt_first(json_get(v, "choices"@)), "message"@), "content"@)
}

/// The texts of the content parts of type `text`, in order.
pub open spec fn text_parts(items: Seq<JsonValue>) -> Seq<Seq<char>>
    decreases items.len(),
{
    if items.len() == 0 {
        seq![]
    } else {
        let r = text_parts(items.drop_last());
        let item = items.last();
        if json_text(json_get(item, "type"@)) == Some("text"@) {
            match json_text(json_get(item, "text"@)) {
                Some(t) => r.push(t),
                None => r,
            }
        } else {
            r
        }
    }
}

/// The places where older servers put the Markdown, in the order they
/// are tried.
pub open spec fn legacy_candidates(v: JsonValue) -> Seq<Option<JsonValue>> {
    seq![
        json_get(v, "markdown"@),
        json_get(v, "text"@),
        json_get(v, "content"@),
        opt_get(json_get(v, "data"@), "markdown"@),
        opt_get(json_get(v, "data"@), "text"@),
        opt_get(json_get(v, "result"@), "markdown"@),
        opt_get(json_get(v, "result"@), "text"@),
    ]
}

/// The first of `cands` that is a string.
pub open spec fn first_text(cands: Seq<Option<JsonValue>>) -> Option<Seq<char>>
    decreases cands.len(),
{
    if cands.len() == 0 {
        None
    } else {
        match json_text(cands[0]) {
            Some(t) => Some(t),
            None => first_text(cands.drop_first()),
        }
    }
}

/// The Markdown of an OCR answer: the chat-completion message content when
/// it is a string, or the `\n`-join of its text parts when that is not
/// blank; otherwise the first string among the older answer fields.
pub open spec fn spec_extract_markdown(v: JsonValue) -> Option<Seq<char>> {
    match message_content(v) {
        Some(JsonValue::String(t)) => Some(t@),
        Some(JsonValue::Array(items)) => {
            let text = join(text_parts(items@), seq!['\n']);
            if trim(text).len() > 0 {
                Some(text)
            } else {
                first_text(legacy_candidates(v))
            }
        },
        _ => first_text(legacy_candidates(v)),
    }
}

/// The JSON document type of `serde_json`, carried only inside the parse.
#[verifier::external_type_specification]
#[verifier::external_body]
pub struct ExSerdeJsonValue(serde_json::Value);

/// What parsing `text` as JSON gives (`serde_json::from_str` into a
/// `serde_json::Value`, taken member by member into a [`JsonValue`]), or
/// the parser's message.
pub uninterp spec fn spec_parse_json(text: Seq<char>) -> Result<JsonValue, Seq<char>>;

/// The [`JsonValue`] of a `serde_json::Value`, one for one: numbers as
/// their text, arrays and objects element by element in `serde_json`'s
/// order. This is the conversion step of [`parse_json`], kept as a
/// function of its own because it recurses.
#[verifier::external_body]
fn json_value_of(value: serde_json::Value) -> JsonValue {
    match value {
        serde_json::Value::Null => JsonValue::Null,
        serde_json::Value::Bool(flag) => JsonValue::Bool(flag),
        serde_json::Value::Number(number) => JsonValue::Number(number.to_string()),
        serde_json::Value::String(text) => JsonValue::String(text),
        serde_json::Value::Array(items) => JsonValue::Array(items.into_iter().map(json_value_of).collect()),
        serde_json::Value::Object(members) => JsonValue::Object(
            members.into_iter().map(|(key, member)| (key, json_value_of(member))).collect(),
        ),
    }
}

/// `serde_json::from_str::<serde_json::Value>`: the text parsed as JSON, or
/// the parser's error message. Both are only named here; the parser
/// returns an error rather than panicking, also on deeply nested input.
#[verifier::external_body]
fn parse_json(text: &str) -> (r: Result<JsonValue, String>)
    ensures
        match r {
            Ok(v) => spec_parse_json(text@) == Ok::<JsonValue, Seq<char>>(v),
            Err(e) => spec_parse_json(text@) == Err::<JsonValue, Seq<char>>(e@),
        },
{
    serde_json::from_str::<serde_json::Value>(text).map(json_value_of).map_err(|error| error.to_string())
}

/// The member `key` of `v`, if `v` is an object that has one.
pub fn json_member<'a>(v: &'a JsonValue, key: &str) -> (r: Option<&'a JsonValue>)
    ensures
        match r {
            Some(x) => json_get(*v, key@) == Some(*x),
            None => json_get(*v, key@) is None,
        },
{
    match v {
        JsonValue::Object(entries) => {
            let mut i: usize = 0;
            proof {
                assert(entries@.skip(0) =~= entries@);
            }
            while i < entries.len()
                invariant
                    i <= entries@.len(),
                    json_get(*v, key@) == lookup(entries@, key@),
                    lookup(entries@, key@) == lookup(entries@.skip(i as int), key@),
                decreases entries@.len() - i,
            {
                proof {
                    assert(entries@.skip(i as int).drop_first() =~= entries@.skip(i + 1));
                    assert(entries@.skip(i as int)[0] == entries@[i as int]);
                }
                if str_eq(entries[i].0.as_str(), key) {
                    proof {
                        assert(entries@[i as int].0@ == key@);
                        assert(lookup(entries@.skip(i as int), key@) == Some(entries@[i as int].1));
                    }
                    return Some(&entries[i].1);
                }
                i = i + 1;
            }
            None
        },
        _ => None,
    }
}

fn opt_member<'a>(v: Option<&'a JsonValue>, key: &str) -> (r: Option<&'a JsonValue>)
    ensures
        match r {
            Some(x) => opt_get(match v { Some(y) => Some(*y), None => None }, key@) == Some(*x),
            None => opt_get(match v { Some(y) => Some(*y), None => None }, key@) is None,
        },
{
    match v {
        Some(x) => json_member(x, key),
        None => None,
    }
}

fn text_of(v: Option<&JsonValue>) -> (r: Option<String>)
    ensures
        match r {
            Some(s) => json_text(match v { Some(y) => Some(*y), None => None }) == Some(s@),
            None => json_text(match v { Some(y) => Some(*y), None => None }) is None,
        },
{
    match v {
        Some(JsonValue::String(s)) => Some(to_string(s.as_str())),
        _ => None,
    }
}

/// The view of an optional reference.
pub open spec fn deref_opt(v: Option<&JsonValue>) -> Option<JsonValue> {
    match v {
        Some(y) => Some(*y),
        None => None,
    }
}

fn joined_text_parts(items: &Vec<JsonValue>) -> (r: Vec<char>)
    ensures
        r@ == join(text_parts(items@), seq!['\n']),
{
    let mut parts: Vec<Vec<char>> = Vec::new();
    let mut i: usize = 0;
    proof {
        assert(views(parts@) =~= text_parts(items@.take(0)));
    }
    while i < items.len()
        invariant
            i <= items@.len(),
            views(parts@) == text_parts(items@.take(i as int)),
        decreases items@.len() - i,
    {
        proof {
            assert(items@.take(i + 1).drop_last() =~= items@.take(i as int));
            assert(items@.take(i + 1).last() == items@[i as int]);
        }
        let item = &items[i];
        let kind = text_of(json_member(item, "type"));
        let is_text = match &kind {
            Some(k) => str_eq(k.as_str(), "text"),
            None => false,
        };
        if is_text {
            match text_of(json_member(item, "text")) {
                Some(t) => {
                    let ghost old_p = views(parts@);
                    parts.push(chars_of(t.as_str()));
                    proof {
                        assert(views(parts@) =~= old_p.push(t@));
                    }
                },
                None => {},
            }
        }
        i = i + 1;
    }
    proof {
        assert(items@.take(i as int) =~= items@);
    }
    let newline = ['\n'];
    proof {
        assert(newline@ =~= seq!['\n']);
    }
    join_parts(&parts, &newline)
}

fn first_text_of(v: &JsonValue) -> (r: Option<String>)
    ensures
        match r {
            Some(s) => first_text(legacy_candidates(*v)) == Some(s@),
            None => first_text(legacy_candidates(*v)) is None,
        },
{
    let data = json_member(v, "data");
    let result = json_member(v, "result");
    let c0 = text_of(json_member(v, "markdown"));
    let c1 = text_of(json_member(v, "text"));
    let c2 = text_of(json_member(v, "content"));
    let c3 = text_of(opt_member(data, "markdown"));
    let c4 = text_of(opt_member(data, "text"));
    let c5 = text_of(opt_member(result, "markdown"));
    let c6 = text_of(opt_member(result, "text"));
    proof {
        let c = legacy_candidates(*v);
        assert(c.drop_first().drop_first().drop_first().drop_first().drop_first().drop_first().drop_first()
            =~= Seq::<Option<JsonValue>>::empty());
        reveal_with_fuel(first_text, 8);
    }
    if c0.is_some() {
        c0
    } else if c1.is_some() {
        c1
    } else if c2.is_some() {
        c2
    } else if c3.is_some() {
        c3
    } else if c4.is_some() {
        c4
    } else if c5.is_some() {
        c5
    } else {
        c6
    }
}

/// The Markdown of an OCR answer (see [`spec_extract_markdown`]).
pub fn extract_markdown(value: &JsonValue) -> (r: Option<String>)
    ensures
        match r {
            Some(s) => spec_extract_markdown(*value) == Some(s@),
            None => spec_extract_markdown(*value) is None,
        },
{
    let choices = json_member(value, "choices");
    let first = match choices {
        Some(JsonValue::Array(items)) => if items.len() > 0 {
            Some(&items[0])
        } else {
            None
        },
        _ => None,
    };
    proof {
        assert(deref_opt(first) == opt_first(json_get(*value, "choices"@)));
    }
    let message = opt_member(first, "message");
    let content = opt_member(message, "content");
    proof {
        assert(deref_opt(content) == message_content(*value));
    }
    match content {
        Some(JsonValue::String(t)) => {
            return Some(to_string(t.as_str()));
        },
        Some(JsonValue::Array(items)) => {
            let text = joined_text_parts(items);
            if !is_blank(text.as_slice()) {
                return Some(string_from_chars(text.as_slice()));
            }
        },
        _ => {},
    }
    first_text_of(value)
}


// ---------------------------------------------------------------- endpoint

/// `s` without trailing `'/'` (`str::trim_end_matches('/')`).
pub open spec fn trim_trailing_slashes(s: Seq<char>) -> Seq<char>
    decreases s.len(),
{
    if s.len() > 0 && s.last() == '/' {
        trim_trailing_slashes(s.drop_last())
    } else {
        s
    }
}

/// A normalised base URL has no trailing slash, and normalising it again
/// changes nothing.
pub proof fn law_base_url_normal(s: Seq<char>)
    ensures
        trim_trailing_slashes(s).len() > 0 ==> trim_trailing_slashes(s).last() != '/',
        trim_trailing_slashes(trim_trailing_slashes(s)) == trim_trailing_slashes(s),
    decreases s.len(),
{
    if s.len() > 0 && s.last() == '/' {
        law_base_url_normal(s.drop_last());
    }
}

/// The OCR server, by its base URL without trailing slashes.
pub struct OcrEndpoint {
    pub base_url: String,
}

/// How the pipeline asks for the OCR of one page.
pub enum OcrRequest {
    /// An OpenAI-compatible chat completion with a text prompt and the
    /// page as a data URL.
    ChatCompletion { url: String, model: String, prompt: String, image_url: String },
    /// The older `/ocr` endpoint with the Base64 image itself.
    Legacy { url: String, image_base64: String, mime_type: String, page: u32 },
}

/// The URLs that the health check asks, in order: the model list, the
/// older health endpoint, and the base URL itself.
pub open spec fn health_urls(base: Seq<char>) -> Seq<Seq<char>> {
    seq![base + "/models"@, base + "/health"@, base]
}

/// The prompt that asks for the Markdown of page `page`.
pub open spec fn spec_prompt(page: u32) -> Seq<char> {
    "Extract the text from page "@ + decimal(page as nat)
        + " as clean Markdown. Return only Markdown without code fences or commentary."@
}

/// The request for page `page` at an endpoint with base URL `base`: a chat
/// completion with the prompt and the WebP as a data URL when the base URL
/// ends with `/v1`, otherwise the older request with the WebP.
pub open spec fn request_matches(
    r: OcrRequest,
    base: Seq<char>,
    model: Seq<char>,
    page: u32,
    webp_base64: Seq<char>,
) -> bool {
    if ends_with(base, "/v1"@) {
        r matches OcrRequest::ChatCompletion { url, model: m, prompt, image_url } && url@ == base
            + "/chat/completions"@ && m@ == model && prompt@ == spec_prompt(page) && image_url@
            == "data:image/webp;base64,"@ + webp_base64
    } else {
        r matches OcrRequest::Legacy { url, image_base64, mime_type, page: p } && url@ == base
            + "/ocr"@ && image_base64@ == webp_base64 && mime_type@ == "image/webp"@ && p == page
    }
}

fn concat(a: &str, b: &str) -> (r: String)
    ensures
        r@ == a@ + b@,
{
    let mut v = chars_of(a);
    push_str(&mut v, b);
    string_from_chars(v.as_slice())
}

impl OcrEndpoint {
    /// The endpoint at `base_url`, trailing slashes removed.
    pub fn new(base_url: &str) -> (r: OcrEndpoint)
        ensures
            r.base_url@ == trim_trailing_slashes(base_url@),
    {
        let cs = chars_of(base_url);
        let mut j = cs.len();
        proof {
            assert(cs@.take(j as int) =~= cs@);
        }
        while j > 0 && cs[j - 1] == '/'
            invariant
                j <= cs@.len(),
                trim_trailing_slashes(cs@) == trim_trailing_slashes(cs@.take(j as int)),
            decreases j,
        {
            proof {
                assert(cs@.take(j as int).drop_last() =~= cs@.take(j - 1));
            }
            j = j - 1;
        }
        proof {
            if j > 0 {
                assert(cs@.take(j as int).last() == cs@[j - 1]);
            }
        }
        let mut kept: Vec<char> = Vec::new();
        let mut i: usize = 0;
        while i < j
            invariant
                i <= j <= cs@.len(),
                kept@ == cs@.take(i as int),
            decreases j - i,
        {
            kept.push(cs[i]);
            proof {
                assert(kept@ =~= cs@.take(i + 1));
            }
            i = i + 1;
        }
        OcrEndpoint { base_url: string_from_chars(kept.as_slice()) }
    }

    /// Whether the endpoint speaks the OpenAI-compatible protocol: its base
    /// URL ends with `/v1`.
    pub fn uses_chat_completions(&self) -> (b: bool)
        ensures
            b == ends_with(self.base_url@, "/v1"@),
    {
        let cs = chars_of(self.base_url.as_str());
        let suffix = chars_of("/v1");
        let n = cs.len();
        let m = suffix.len();
        if m > n {
            return false;
        }
        let mut k: usize = 0;
        while k < m
            invariant
                k <= m <= n,
                n == cs@.len(),
                m == suffix@.len(),
                cs@ == self.base_url@,
                suffix@ == "/v1"@,
                forall|j: int| 0 <= j < k ==> cs@[n - m + j] == suffix@[j],
            decreases m - k,
        {
            if cs[n - m + k] != suffix[k] {
                proof {
                    if ends_with(cs@, suffix@) {
                        assert(cs@.skip(n - m)[k as int] == cs@[n - m + k]);
                    }
                }
                return false;
            }
            k = k + 1;
        }
        proof {
            assert(cs@.skip(n - m) =~= suffix@);
        }
        true
    }

    /// The URL of the `i`-th health probe (see [`health_urls`]).
    pub fn health_url(&self, i: usize) -> (r: String)
        requires
            i < 3,
        ensures
            r@ == health_urls(self.base_url@)[i as int],
    {
        if i == 0 {
            concat(self.base_url.as_str(), "/models")
        } else if i == 1 {
            concat(self.base_url.as_str(), "/health")
        } else {
            to_string(self.base_url.as_str())
        }
    }

    /// The request for the OCR of page `page` (see [`request_matches`]).
    pub fn plan_request(&self, model: &str, page: u32, webp_base64: &str) -> (r: OcrRequest)
        ensures
            request_matches(r, self.base_url@, model@, page, webp_base64@),
    {
        if self.uses_chat_completions() {
            let mut p = chars_of("Extract the text from page ");
            push_decimal(&mut p, page as u64);
            push_str(
                &mut p,
                " as clean Markdown. Return only Markdown without code fences or commentary.",
            );
            OcrRequest::ChatCompletion {
                url: concat(self.base_url.as_str(), "/chat/completions"),
                model: to_string(model),
                prompt: string_from_chars(p.as_slice()),
                image_url: concat("data:image/webp;base64,", webp_base64),
            }
        } else {
            OcrRequest::Legacy {
                url: concat(self.base_url.as_str(), "/ocr"),
                image_base64: to_string(webp_base64),
                mime_type: to_string("image/webp"),
                page,
            }
        }
    }
}

// ---------------------------------------------------------------- health check

/// Whether a probe answer counts as "server up": a success status or 404
/// (the server runs, the path is unknown); a failed request does not.
pub open spec fn spec_probe_accepted(status: Option<u16>) -> bool {
    match status {
        Some(code) => (200 <= code && code <= 299) || code == 404,
        None => false,
    }
}

/// Whether a probe answer counts as "server up" (see [`spec_probe_accepted`]).
pub fn probe_accepted(status: Option<u16>) -> (b: bool)
    ensures
        b == spec_probe_accepted(status),
{
    match status {
        Some(code) => (200 <= code && code <= 299) || code == 404,
        None => false,
    }
}

/// The next step of a health check.
pub enum HealthStep {
    /// Ask this URL next.
    Probe(String),
    /// The server is up.
    Healthy,
    /// No probe was accepted.
    Unreachable(AppError),
}

/// The next step of the health check of `endpoint` after the answers
/// `accepted` to the probes asked so far (in the order of
/// [`health_urls`]): healthy as soon as one was accepted; otherwise the
/// next probe, or, after all three, the server-unreachable error with the
/// base URL.
pub fn health_next(endpoint: &OcrEndpoint, accepted: &[bool]) -> (r: HealthStep)
    requires
        accepted@.len() <= 3,
    ensures
        (exists|i: int| 0 <= i < accepted@.len() && accepted@[i]) ==> r is Healthy,
        !(exists|i: int| 0 <= i < accepted@.len() && accepted@[i]) ==> match r {
            HealthStep::Probe(url) => accepted@.len() < 3 && url@ == health_urls(
                endpoint.base_url@,
            )[accepted@.len() as int],
            HealthStep::Unreachable(AppError::ServerUnreachable(base)) => accepted@.len() == 3
                && base@ == endpoint.base_url@,
            _ => false,
        },
{
    let mut i: usize = 0;
    while i < accepted.len()
        invariant
            i <= accepted@.len(),
            forall|j: int| 0 <= j < i ==> !accepted@[j],
        decreases accepted@.len() - i,
    {
        if accepted[i] {
            return HealthStep::Healthy;
        }
        i = i + 1;
    }
    if accepted.len() < 3 {
        HealthStep::Probe(endpoint.health_url(accepted.len()))
    } else {
        HealthStep::Unreachable(AppError::ServerUnreachable(to_string(endpoint.base_url.as_str())))
    }
}

// ---------------------------------------------------------------- OCR answers

/// The error for an OCR request of page `page` that got no answer: a
/// timeout, or an inference error with the client's message.
pub fn transport_error(page: u32, is_timeout: bool, message: &str) -> (r: AppError)
    ensures
        is_timeout ==> r == AppError::Timeout(page),
        !is_timeout ==> (r matches AppError::InferenceError(m) && m@ == message@),
{
    if is_timeout {
        AppError::Timeout(page)
    } else {
        AppError::InferenceError(to_string(message))
    }
}

/// The message for an OCR answer of page `page` with an error status.
pub open spec fn spec_status_failure(page: u32, status: Seq<char>, payload: Seq<char>) -> Seq<char> {
    "Seite "@ + decimal(page as nat) + ": HTTP "@ + status + " - "@ + payload
}

/// The verdict on the status of an OCR answer: fine when it is a success
/// status, otherwise an inference error that quotes the status and body.
pub fn check_status(page: u32, success: bool, status: &str, payload: &str) -> (r: Result<(), AppError>)
    ensures
        success ==> r is Ok,
        !success ==> (r matches Err(AppError::InferenceError(m)) && m@ == spec_status_failure(
            page,
            status@,
            payload@,
        )),
{
    if success {
        Ok(())
    } else {
        let mut v = chars_of("Seite ");
        push_decimal(&mut v, page as u64);
        push_str(&mut v, ": HTTP ");
        push_str(&mut v, status);
        push_str(&mut v, " - ");
        push_str(&mut v, payload);
        proof {
            assert(v@ =~= spec_status_failure(page, status@, payload@));
        }
        Err(AppError::InferenceError(string_from_chars(v.as_slice())))
    }
}

/// The message for an OCR answer of page `page` that holds no Markdown.
pub open spec fn spec_missing_markdown(page: u32) -> Seq<char> {
    "Seite "@ + decimal(page as nat) + ": OCR-Antwort enthaelt kein Markdown/Text-Feld"@
}

/// The Markdown of a successful OCR answer of page `page`, given the
/// answer parsed as JSON or the parser's message: a JSON error when it did
/// not parse, the extracted Markdown, or an inference error when there is
/// none.
pub fn markdown_from_answer(page: u32, parsed: &Result<JsonValue, String>) -> (r: Result<
    String,
    AppError,
>)
    ensures
        match parsed {
            Err(m) => r matches Err(AppError::Json(e)) && e@ == m@,
            Ok(v) => match spec_extract_markdown(*v) {
                Some(md) => r matches Ok(s) && s@ == md,
                None => r matches Err(AppError::InferenceError(e)) && e@ == spec_missing_markdown(
                    page,
                ),
            },
        },
{
    match parsed {
        Err(m) => Err(AppError::Json(to_string(m.as_str()))),
        Ok(v) => match extract_markdown(v) {
            Some(md) => Ok(md),
            None => {
                let mut e = chars_of("Seite ");
                push_decimal(&mut e, page as u64);
                push_str(&mut e, ": OCR-Antwort enthaelt kein Markdown/Text-Feld");
                Err(AppError::InferenceError(string_from_chars(e.as_slice())))
            },
        },
    }
}

/// The Markdown of the body `payload` of a successful OCR answer of page
/// `page`: the body parsed as JSON, then read as [`markdown_from_answer`]
/// does; a JSON error with the parser's message when it does not parse.
pub fn markdown_from_payload(page: u32, payload: &str) -> (r: Result<String, AppError>)
    ensures
        match spec_parse_json(payload@) {
            Err(m) => r matches Err(AppError::Json(e)) && e@ == m,
            Ok(v) => match spec_extract_markdown(v) {
                Some(md) => r matches Ok(s) && s@ == md,
                None => r matches Err(AppError::InferenceError(e)) && e@ == spec_missing_markdown(
                    page,
                ),
            },
        },
{
    let parsed = parse_json(payload);
    markdown_from_answer(page, &parsed)
}


/// A chat-completion answer whose message content is a string gives that
/// string, whatever else the answer holds.
pub proof fn law_message_content_first(v: JsonValue)
    ensures
        json_text(message_content(v)) is Some ==> spec_extract_markdown(v) == json_text(message_content(v)),
{
}

/// Without a usable chat-completion content, the older answer fields are
/// read in a fixed order: `markdown`, `text`, `content`, `data.markdown`,
/// `data.text`, `result.markdown`, `result.text`. The first that holds a
/// string gives the Markdown, whatever the later ones hold; when none
/// does, there is no Markdown.
pub proof fn law_legacy_field_order(v: JsonValue)
    requires
        !(message_content(v) matches Some(JsonValue::String(_))),
        !(message_content(v) matches Some(JsonValue::Array(_))),
    ensures
        (json_text(json_get(v, "markdown"@)) is Some) ==> spec_extract_markdown(v) == json_text(json_get(v, "markdown"@)),
        (json_text(json_get(v, "markdown"@)) is None && json_text(json_get(v, "text"@)) is Some) ==> spec_extract_markdown(v) == json_text(json_get(v, "text"@)),
        (json_text(json_get(v, "markdown"@)) is None && json_text(json_get(v, "text"@)) is None && json_text(json_get(v, "content"@)) is Some) ==> spec_extract_markdown(v) == json_text(json_get(v, "content"@)),
        (json_text(json_get(v, "markdown"@)) is None && json_text(json_get(v, "text"@)) is None && json_text(json_get(v, "content"@)) is None && json_text(opt_get(json_get(v, "data"@), "markdown"@)) is Some) ==> spec_extract_markdown(v) == json_text(opt_get(json_get(v, "data"@), "markdown"@)),
        (json_text(json_get(v, "markdown"@)) is None && json_text(json_get(v, "text"@)) is None && json_text(json_get(v, "content"@)) is None && json_text(opt_get(json_get(v, "data"@), "markdown"@)) is None && json_text(opt_get(json_get(v, "data"@), "text"@)) is Some) ==> spec_extract_markdown(v) == json_text(opt_get(json_get(v, "data"@), "text"@)),
        (json_text(json_get(v, "markdown"@)) is None && json_text(json_get(v, "text"@)) is None && json_text(json_get(v, "content"@)) is None && json_text(opt_get(json_get(v, "data"@), "markdown"@)) is None && json_text(opt_get(json_get(v, "data"@), "text"@)) is None && json_text(opt_get(json_get(v, "result"@), "markdown"@)) is Some) ==> spec_extract_markdown(v) == json_text(opt_get(json_get(v, "result"@), "markdown"@)),
        (json_text(json_get(v, "markdown"@)) is None && json_text(json_get(v, "text"@)) is None && json_text(json_get(v, "content"@)) is None && json_text(opt_get(json_get(v, "data"@), "markdown"@)) is None && json_text(opt_get(json_get(v, "data"@), "text"@)) is None && json_text(opt_get(json_get(v, "result"@), "markdown"@)) is None && json_text(opt_get(json_get(v, "result"@), "text"@)) is Some) ==> spec_extract_markdown(v) == json_text(opt_get(json_get(v, "result"@), "text"@)),
        (json_text(json_get(v, "markdown"@)) is None && json_text(json_get(v, "text"@)) is None && json_text(json_get(v, "content"@)) is None && json_text(opt_get(json_get(v, "data"@), "markdown"@)) is None && json_text(opt_get(json_get(v, "data"@), "text"@)) is None && json_text(opt_get(json_get(v, "result"@), "markdown"@)) is None && json_text(opt_get(json_get(v, "result"@), "text"@)) is None) ==> spec_extract_markdown(v) is None,
{
    let c0 = legacy_candidates(v);
    let c1 = c0.drop_first();
    let c2 = c1.drop_first();
    let c3 = c2.drop_first();
    let c4 = c3.drop_first();
    let c5 = c4.drop_first();
    let c6 = c5.drop_first();
    let c7 = c6.drop_first();
    assert(c1[0] == c0[1] && c2[0] == c0[2] && c3[0] == c0[3] && c4[0] == c0[4]);
    assert(c5[0] == c0[5] && c6[0] == c0[6] && c7.len() == 0);
    assert(json_text(c0[0]) is None ==> first_text(c0) == first_text(c1));
    assert(json_text(c1[0]) is None ==> first_text(c1) == first_text(c2));
    assert(json_text(c2[0]) is None ==> first_text(c2) == first_text(c3));
    assert(json_text(c3[0]) is None ==> first_text(c3) == first_text(c4));
    assert(json_text(c4[0]) is None ==> first_text(c4) == first_text(c5));
    assert(json_text(c5[0]) is None ==> first_text(c5) == first_text(c6));
    assert(json_text(c6[0]) is None ==> first_text(c6) == first_text(c7));
    assert(first_text(c7) is None);
    assert(json_text(c0[0]) is Some ==> first_text(c0) == json_text(c0[0]));
    assert(json_text(c1[0]) is Some ==> first_text(c1) == json_text(c1[0]));
    assert(json_text(c2[0]) is Some ==> first_text(c2) == json_text(c2[0]));
    assert(json_text(c3[0]) is Some ==> first_text(c3) == json_text(c3[0]));
    assert(json_text(c4[0]) is Some ==> first_text(c4) == json_text(c4[0]));
    assert(json_text(c5[0]) is Some ==> first_text(c5) == json_text(c5[0]));
    assert(json_text(c6[0]) is Some ==> first_text(c6) == json_text(c6[0]));
}

/// A probe is accepted on every success status (200 to 299) and on 404,
/// and refused on every other status and when no answer came.
pub proof fn law_probe_statuses(code: u16)
    ensures
        200 <= code <= 299 ==> spec_probe_accepted(Some(code)),
        spec_probe_accepted(Some(404u16)),
        (code < 200 || code > 299) && code != 404 ==> !spec_probe_accepted(Some(code)),
        !spec_probe_accepted(None),
{
}

} // verus!
