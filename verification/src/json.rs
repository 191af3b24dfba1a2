//! JSON requests and responses.
//!
//! A provider's response is parsed by serde_json behind a trusted boundary
//! into the library's own `JsonValue` model; everything that reads the
//! model — the per-provider extraction paths and their fallbacks — is
//! verified.  Request bodies are built and escaped here as plain text with
//! an exact contract.

use vstd::prelude::*;
use vstd::string::StringExecFns;

use crate::provider::Provider;
use crate::text::chars_to_string;
use crate::text::push_chars;
use crate::text::spec_trim;
use crate::text::str_to_chars;
use crate::text::trim_chars;

verus! {

/// A JSON document; numbers are carried as their decimal rendering, which
/// this library never reads.
pub enum JsonValue {
    Null,
    Bool(bool),
    Num(String),
    Str(String),
    Arr(Vec<JsonValue>),
    Obj(Vec<(String, JsonValue)>),
}

/// The first field of the object with the given name, if any.
pub open spec fn spec_obj_get(fs: Seq<(String, JsonValue)>, k: Seq<char>) -> Option<JsonValue>
    decreases fs.len(),
{
    if fs.len() == 0 {
        None
    } else if fs[0].0@ == k {
        Some(fs[0].1)
    } else {
        spec_obj_get(fs.drop_first(), k)
    }
}

/// Field lookup: defined on objects only.
pub open spec fn spec_get(v: JsonValue, k: Seq<char>) -> Option<JsonValue> {
    match v {
        JsonValue::Obj(fs) => spec_obj_get(fs@, k),
        _ => None,
    }
}

/// Element lookup: defined on arrays only.
pub open spec fn spec_at(v: JsonValue, i: int) -> Option<JsonValue> {
    match v {
        JsonValue::Arr(a) => if 0 <= i < a@.len() {
            Some(a@[i])
        } else {
            None
        },
        _ => None,
    }
}

/// The characters of a JSON string node.
pub open spec fn spec_str_of(v: JsonValue) -> Option<Seq<char>> {
    match v {
        JsonValue::Str(s) => Some(s@),
        _ => None,
    }
}

pub fn get_field<'a>(v: &'a JsonValue, name: &str) -> (r: Option<&'a JsonValue>)
    ensures
        match r {
            Some(f) => spec_get(*v, name@) == Some(*f),
            None => spec_get(*v, name@) == None::<JsonValue>,
        },
{
    match v {
        JsonValue::Obj(fs) => {
            proof {
                assert(spec_get(*v, name@) == spec_obj_get(fs@, name@));
            }
            let nc = str_to_chars(name);
            let n = fs.len();
            let mut i: usize = 0;
            proof {
                assert(fs@.skip(0) =~= fs@);
            }
            while i < n
                invariant
                    0 <= i <= n,
                    n == fs@.len(),
                    nc@ == name@,
                    spec_get(*v, name@) == spec_obj_get(fs@, name@),
                    spec_obj_get(fs@, name@) == spec_obj_get(fs@.skip(i as int), name@),
                decreases n - i,
            {
                proof {
                    assert(fs@.skip(i as int)[0] == fs@[i as int]);
                    assert(fs@.skip(i as int).drop_first() =~= fs@.skip(i + 1));
                }
                let kc = str_to_chars(fs[i].0.as_str());
                if crate::text::chars_eq(&kc, &nc) {
                    proof {
                        assert(spec_get(*v, name@) == spec_obj_get(fs@, name@));
                        assert(fs@[i as int].0@ == name@);
                        assert(spec_obj_get(fs@.skip(i as int), name@) == Some(fs@[i as int].1));
                    }
                    return Some(&fs[i].1);
                }
                i += 1;
            }
            proof {
                assert(spec_get(*v, name@) == spec_obj_get(fs@, name@));
                assert(fs@.skip(n as int) =~= Seq::<(String, JsonValue)>::empty());
            }
            None
        },
        _ => None,
    }
}

pub fn get_index<'a>(v: &'a JsonValue, i: usize) -> (r: Option<&'a JsonValue>)
    ensures
        match r {
            Some(f) => spec_at(*v, i as int) == Some(*f),
            None => spec_at(*v, i as int) == None::<JsonValue>,
        },
{
    match v {
        JsonValue::Arr(a) => {
            if i < a.len() {
                Some(&a[i])
            } else {
                None
            }
        },
        _ => None,
    }
}

pub fn as_str<'a>(v: &'a JsonValue) -> (r: Option<&'a String>)
    ensures
        match r {
            Some(s) => spec_str_of(*v) == Some(s@),
            None => spec_str_of(*v) == None::<Seq<char>>,
        },
{
    match v {
        JsonValue::Str(s) => Some(s),
        _ => None,
    }
}

#[verifier::external_type_specification]
#[verifier::external_body]
pub struct ExSerdeValue(serde_json::Value);

/// The JSON document a string denotes, if it is valid JSON, rendered in
/// the library's model.
pub uninterp spec fn spec_json_of(s: Seq<char>) -> Option<JsonValue>;

/// Relies on serde_json::Value: each parsed node is carried over variant by
/// variant into the library's model, numbers as their decimal rendering.
#[verifier::external_body]
fn json_tree(v: serde_json::Value) -> JsonValue {
    match v {
        serde_json::Value::Null => JsonValue::Null,
        serde_json::Value::Bool(b) => JsonValue::Bool(b),
        serde_json::Value::Number(n) => JsonValue::Num(n.to_string()),
        serde_json::Value::String(s) => JsonValue::Str(s),
        serde_json::Value::Array(a) => JsonValue::Arr(a.into_iter().map(json_tree).collect()),
        serde_json::Value::Object(o) => JsonValue::Obj(
            o.into_iter().map(|p| (p.0, json_tree(p.1))).collect(),
        ),
    }
}

/// Relies on serde_json::from_str: whether a string is valid JSON, and
/// which document it denotes, depend on the string alone.
#[verifier::external_body]
fn parse_json(s: &str) -> (r: Option<JsonValue>)
    ensures
        r == spec_json_of(s@),
{
    match serde_json::from_str::<serde_json::Value>(s) {
        Ok(v) => Some(json_tree(v)),
        Err(_) => None,
    }
}

/// The text at Provider A's response path
/// `candidates[0].content.parts[0].text`.
pub open spec fn spec_gemini_text(v: JsonValue) -> Option<Seq<char>> {
    match spec_get(v, "candidates"@) {
        Some(cs) => match spec_at(cs, 0) {
            Some(c0) => match spec_get(c0, "content"@) {
                Some(ct) => match spec_get(ct, "parts"@) {
                    Some(ps) => match spec_at(ps, 0) {
                        Some(p0) => match spec_get(p0, "text"@) {
                            Some(t) => spec_str_of(t),
                            None => None,
                        },
                        None => None,
                    },
                    None => None,
                },
                None => None,
            },
            None => None,
        },
        None => None,
    }
}

/// The text of Provider B's first choice: `message.content`, else `text`,
/// else `content` — each accepted only when it is a string.
pub open spec fn spec_zai_text(v: JsonValue) -> Option<Seq<char>> {
    match spec_get(v, "choices"@) {
        Some(cs) => match spec_at(cs, 0) {
            Some(c) => {
                let m = match spec_get(c, "message"@) {
                    Some(msg) => match spec_get(msg, "content"@) {
                        Some(t) => spec_str_of(t),
                        None => None,
                    },
                    None => None,
                };
                if m is Some {
                    m
                } else {
                    let tx = match spec_get(c, "text"@) {
                        Some(t) => spec_str_of(t),
                        None => None,
                    };
                    if tx is Some {
                        tx
                    } else {
                        match spec_get(c, "content"@) {
                            Some(t) => spec_str_of(t),
                            None => None,
                        }
                    }
                }
            },
            None => None,
        },
        None => None,
    }
}

pub fn gemini_text<'a>(v: &'a JsonValue) -> (r: Option<&'a String>)
    ensures
        match r {
            Some(s) => spec_gemini_text(*v) == Some(s@),
            None => spec_gemini_text(*v) == None::<Seq<char>>,
        },
{
    let cs = match get_field(v, "candidates") {
        Some(x) => x,
        None => {
            return None;
        },
    };
    let c0 = match get_index(cs, 0) {
        Some(x) => x,
        None => {
            return None;
        },
    };
    let ct = match get_field(c0, "content") {
        Some(x) => x,
        None => {
            return None;
        },
    };
    let ps = match get_field(ct, "parts") {
        Some(x) => x,
        None => {
            return None;
        },
    };
    let p0 = match get_index(ps, 0) {
        Some(x) => x,
        None => {
            return None;
        },
    };
    let t = match get_field(p0, "text") {
        Some(x) => x,
        None => {
            return None;
        },
    };
    as_str(t)
}

pub fn zai_text<'a>(v: &'a JsonValue) -> (r: Option<&'a String>)
    ensures
        match r {
            Some(s) => spec_zai_text(*v) == Some(s@),
            None => spec_zai_text(*v) == None::<Seq<char>>,
        },
{
    let cs = match get_field(v, "choices") {
        Some(x) => x,
        None => {
            return None;
        },
    };
    let c = match get_index(cs, 0) {
        Some(x) => x,
        None => {
            return None;
        },
    };
    if let Some(msg) = get_field(c, "message") {
        if let Some(t) = get_field(msg, "content") {
            if let Some(s) = as_str(t) {
                return Some(s);
            }
        }
    }
    if let Some(t) = get_field(c, "text") {
        if let Some(s) = as_str(t) {
            return Some(s);
        }
    }
    if let Some(t) = get_field(c, "content") {
        if let Some(s) = as_str(t) {
            return Some(s);
        }
    }
    None
}

/// Why a provider's answer yielded no command.
#[derive(Debug)]
pub enum ProviderError {
    /// The response body was not JSON; the raw body is kept for the report.
    InvalidJson { body: String },
    /// Provider A's response lacked the expected text path.
    GeminiMissingContent,
    /// Provider B's response lacked the expected text path; the HTTP
    /// status is kept for the report.
    ZaiMissingContent { status: u16 },
}

pub open spec fn spec_digit_char(d: int) -> char {
    if d == 0 {
        '0'
    } else if d == 1 {
        '1'
    } else if d == 2 {
        '2'
    } else if d == 3 {
        '3'
    } else if d == 4 {
        '4'
    } else if d == 5 {
        '5'
    } else if d == 6 {
        '6'
    } else if d == 7 {
        '7'
    } else if d == 8 {
        '8'
    } else {
        '9'
    }
}

/// The decimal rendering of a non-negative number.
pub open spec fn spec_dec(n: int) -> Seq<char>
    decreases n,
{
    if n < 10 {
        seq![spec_digit_char(n)]
    } else {
        spec_dec(n / 10).push(spec_digit_char(n % 10))
    }
}

fn digit_char(d: u16) -> (r: char)
    requires
        d < 10,
    ensures
        r == spec_digit_char(d as int),
{
    if d == 0 {
        '0'
    } else if d == 1 {
        '1'
    } else if d == 2 {
        '2'
    } else if d == 3 {
        '3'
    } else if d == 4 {
        '4'
    } else if d == 5 {
        '5'
    } else if d == 6 {
        '6'
    } else if d == 7 {
        '7'
    } else if d == 8 {
        '8'
    } else {
        '9'
    }
}

fn u16_dec(n: u16) -> (r: Vec<char>)
    ensures
        r@ == spec_dec(n as int),
    decreases n,
{
    if n < 10 {
        let mut r: Vec<char> = Vec::new();
        r.push(digit_char(n));
        proof {
            assert(r@ =~= seq![spec_digit_char(n as int)]);
        }
        r
    } else {
        let mut r = u16_dec(n / 10);
        r.push(digit_char(n % 10));
        r
    }
}

impl ProviderError {
    /// The single human-readable line reported to the operator.
    pub fn message(&self) -> (r: String)
        ensures
            match *self {
                ProviderError::InvalidJson { body } => r@ == "provider response was not JSON: "@
                    + body@,
                ProviderError::GeminiMissingContent => r@ == "Gemini response missing content"@,
                ProviderError::ZaiMissingContent { status } => r@
                    == "z.ai response missing content (status: "@ + spec_dec(status as int)
                    + ")"@,
            },
    {
        match self {
            ProviderError::InvalidJson { body } => {
                let r = String::from_str("provider response was not JSON: ").concat(
                    body.as_str(),
                );
                proof {
                    assert(r@ =~= "provider response was not JSON: "@ + body@);
                }
                r
            },
            ProviderError::GeminiMissingContent => String::from_str(
                "Gemini response missing content",
            ),
            ProviderError::ZaiMissingContent { status } => {
                let d = u16_dec(*status);
                let r = String::from_str("z.ai response missing content (status: ").concat(
                    chars_to_string(&d).as_str(),
                ).concat(")");
                proof {
                    assert(r@ =~= "z.ai response missing content (status: "@ + spec_dec(
                        *status as int,
                    ) + ")"@);
                }
                r
            },
        }
    }
}

/// The text a provider's parsed response carries, along its own paths.
pub open spec fn spec_response_text(p: Provider, v: JsonValue) -> Option<Seq<char>> {
    match p {
        Provider::Gemini => spec_gemini_text(v),
        Provider::Zai => spec_zai_text(v),
    }
}

/// The error reported when a parsed response lacks its text path.
pub open spec fn spec_missing_error(p: Provider, status: u16) -> ProviderError {
    match p {
        Provider::Gemini => ProviderError::GeminiMissingContent,
        Provider::Zai => ProviderError::ZaiMissingContent { status },
    }
}

/// Extracts the proposed command from a provider's response body: the text
/// at the provider's path, trimmed; an error naming the failure otherwise.
pub fn parse_provider_response(provider: Provider, body: &str, status: u16) -> (r: Result<
    String,
    ProviderError,
>)
    ensures
        match spec_json_of(body@) {
            None => r matches Err(e) && e matches ProviderError::InvalidJson { body: b } && b@
                == body@,
            Some(v) => match spec_response_text(provider, v) {
                None => r == Err::<String, ProviderError>(spec_missing_error(provider, status)),
                Some(t) => r matches Ok(cmd) && cmd@ == spec_trim(t),
            },
        },
{
    let parsed = match parse_json(body) {
        Some(v) => v,
        None => {
            return Err(ProviderError::InvalidJson { body: body.to_owned() });
        },
    };
    let text = match provider {
        Provider::Gemini => gemini_text(&parsed),
        Provider::Zai => zai_text(&parsed),
    };
    match text {
        Some(s) => {
            let sc = str_to_chars(s.as_str());
            let t = trim_chars(&sc);
            Ok(chars_to_string(&t))
        },
        None => Err(missing_error(provider, status)),
    }
}

fn missing_error(provider: Provider, status: u16) -> (r: ProviderError)
    ensures
        r == spec_missing_error(provider, status),
{
    match provider {
        Provider::Gemini => ProviderError::GeminiMissingContent,
        Provider::Zai => ProviderError::ZaiMissingContent { status },
    }
}

/// One character's JSON string escape.
pub open spec fn spec_escape_char(c: char) -> Seq<char> {
    if c == '"' {
        seq!['\\', '"']
    } else if c == '\\' {
        seq!['\\', '\\']
    } else if c == '\n' {
        seq!['\\', 'n']
    } else if c == '\r' {
        seq!['\\', 'r']
    } else if c == '\t' {
        seq!['\\', 't']
    } else if (c as u32) < 32 {
        seq!['\\', 'u', '0', '0', spec_hex_char((c as u32) as int / 16), spec_hex_char(
            (c as u32) as int % 16,
        )]
    } else {
        seq![c]
    }
}

pub open spec fn spec_hex_char(d: int) -> char {
    if d < 10 {
        spec_digit_char(d)
    } else if d == 10 {
        'a'
    } else if d == 11 {
        'b'
    } else if d == 12 {
        'c'
    } else if d == 13 {
        'd'
    } else if d == 14 {
        'e'
    } else {
        'f'
    }
}

/// A string's body as it stands inside a JSON string literal.
pub open spec fn spec_escape(s: Seq<char>) -> Seq<char>
    decreases s.len(),
{
    if s.len() == 0 {
        Seq::empty()
    } else {
        spec_escape_char(s[0]) + spec_escape(s.drop_first())
    }
}

fn hex_char(d: u32) -> (r: char)
    requires
        d < 16,
    ensures
        r == spec_hex_char(d as int),
{
    if d == 0 {
        '0'
    } else if d == 1 {
        '1'
    } else if d == 2 {
        '2'
    } else if d == 3 {
        '3'
    } else if d == 4 {
        '4'
    } else if d == 5 {
        '5'
    } else if d == 6 {
        '6'
    } else if d == 7 {
        '7'
    } else if d == 8 {
        '8'
    } else if d == 9 {
        '9'
    } else if d == 10 {
        'a'
    } else if d == 11 {
        'b'
    } else if d == 12 {
        'c'
    } else if d == 13 {
        'd'
    } else if d == 14 {
        'e'
    } else {
        'f'
    }
}

pub fn escape_json(s: &Vec<char>) -> (r: Vec<char>)
    ensures
        r@ == spec_escape(s@),
{
    let n = s.len();
    let mut out: Vec<char> = Vec::new();
    let mut i: usize = 0;
    proof {
        assert(s@.skip(0) =~= s@);
        assert(out@ + spec_escape(s@) =~= spec_escape(s@));
    }
    while i < n
        invariant
            0 <= i <= n,
            n == s@.len(),
            out@ + spec_escape(s@.skip(i as int)) == spec_escape(s@),
        decreases n - i,
    {
        let ghost out0 = out@;
        let c = s[i];
        proof {
            assert(s@.skip(i as int)[0] == c);
            assert(s@.skip(i as int).drop_first() =~= s@.skip(i + 1));
        }
        if c == '"' {
            out.push('\\');
            out.push('"');
        } else if c == '\\' {
            out.push('\\');
            out.push('\\');
        } else if c == '\n' {
            out.push('\\');
            out.push('n');
        } else if c == '\r' {
            out.push('\\');
            out.push('r');
        } else if c == '\t' {
            out.push('\\');
            out.push('t');
        } else if (c as u32) < 32 {
            out.push('\\');
            out.push('u');
            out.push('0');
            out.push('0');
            out.push(hex_char((c as u32) / 16));
            out.push(hex_char((c as u32) % 16));
        } else {
            out.push(c);
        }
        proof {
            assert(out@ =~= out0 + spec_escape_char(c));
            assert((out0 + spec_escape_char(c)) + spec_escape(s@.skip(i + 1)) =~= out0 + (
            spec_escape_char(c) + spec_escape(s@.skip(i + 1))));
            assert(spec_escape_char(c) + spec_escape(s@.skip(i + 1)) == spec_escape(
                s@.skip(i as int),
            ));
        }
        i += 1;
    }
    proof {
        assert(s@.skip(n as int) =~= Seq::<char>::empty());
        assert(out@ + Seq::<char>::empty() =~= out@);
    }
    out
}

/// Provider A's request body around an escaped prompt.
pub open spec fn spec_gemini_body(prompt: Seq<char>) -> Seq<char> {
    "{\"contents\":[{\"parts\":[{\"text\":\""@ + spec_escape(prompt) + "\"}]}]}"@
}

/// Provider B's request body around an escaped prompt; the model name is
/// fixed.
pub open spec fn spec_zai_body(prompt: Seq<char>) -> Seq<char> {
    "{\"model\":\"glm-4.5\",\"messages\":[{\"role\":\"user\",\"content\":\""@ + spec_escape(prompt)
        + "\"}]}"@
}

/// The request body sent to a provider.
pub open spec fn spec_request_body(p: Provider, prompt: Seq<char>) -> Seq<char> {
    match p {
        Provider::Gemini => spec_gemini_body(prompt),
        Provider::Zai => spec_zai_body(prompt),
    }
}

pub fn request_body(provider: Provider, prompt: &str) -> (r: String)
    ensures
        r@ == spec_request_body(provider, prompt@),
{
    let pc = str_to_chars(prompt);
    let esc = escape_json(&pc);
    match provider {
        Provider::Gemini => {
            let mut out: Vec<char> = str_to_chars("{\"contents\":[{\"parts\":[{\"text\":\"");
            push_chars(&mut out, &esc);
            let tail = str_to_chars("\"}]}]}");
            push_chars(&mut out, &tail);
            proof {
                assert(out@ =~= spec_gemini_body(prompt@));
            }
            chars_to_string(&out)
        },
        Provider::Zai => {
            let mut out: Vec<char> = str_to_chars(
                "{\"model\":\"glm-4.5\",\"messages\":[{\"role\":\"user\",\"content\":\"",
            );
            push_chars(&mut out, &esc);
            let tail = str_to_chars("\"}]}");
            push_chars(&mut out, &tail);
            proof {
                assert(out@ =~= spec_zai_body(prompt@));
            }
            chars_to_string(&out)
        },
    }
}

} // verus!
