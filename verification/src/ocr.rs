//! Talking to the OCR service: its settings, the request sent for an image,
//! and reading the reply.

use base64::Engine;
use vstd::prelude::*;
use crate::paths::{mime_type, mime_type_spec};
use crate::text::{chars_of, copy_string, push_str, string_from_chars};

verus! {

/// The service used when none is configured.
pub const DEFAULT_OCR_URL: &'static str = "http://localhost:1234/v1";

/// The model used when none is configured.
pub const DEFAULT_OCR_MODEL: &'static str = "gemma4-26b-a4b-qat-uncensored-hauhaucs-balanced-mtp";

/// The instruction sent with every image.
pub const OCR_PROMPT: &'static str = "Read the date from this sales receipt image. Reply with ONLY the date in DD-MM-YYYY format. If you cannot find a date, reply with NO_DATE.";

/// The most tokens the reply may use.
pub const OCR_MAX_TOKENS: u32 = 50;

/// How long a request may take, in seconds.
pub const OCR_TIMEOUT_SECS: u64 = 120;

/// Where the OCR service is and how to use it.
#[derive(Debug)]
pub struct OcrConfig {
    pub url: String,
    pub model: String,
    /// Empty when the service needs no key.
    pub api_key: String,
}

/// The settings, from the values configured (if any) for the service URL,
/// the model and the API key.
pub fn resolve_ocr_config(url: Option<String>, model: Option<String>, api_key: Option<String>) -> (r: OcrConfig)
    ensures
        r.url@ == (match url { Some(u) => u@, None => DEFAULT_OCR_URL@ }),
        r.model@ == (match model { Some(m) => m@, None => DEFAULT_OCR_MODEL@ }),
        r.api_key@ == (match api_key { Some(k) => k@, None => Seq::<char>::empty() }),
{
    OcrConfig {
        url: match url {
            Some(u) => u,
            None => String::from_str(DEFAULT_OCR_URL),
        },
        model: match model {
            Some(m) => m,
            None => String::from_str(DEFAULT_OCR_MODEL),
        },
        api_key: match api_key {
            Some(k) => k,
            None => String::new(),
        },
    }
}

/// `s` without trailing `/` characters.
pub open spec fn trim_trailing_slashes(s: Seq<char>) -> Seq<char>
    decreases s.len(),
{
    if s.len() > 0 && s.last() == '/' {
        trim_trailing_slashes(s.drop_last())
    } else {
        s
    }
}

/// The chat-completions endpoint under a service base URL.
pub open spec fn completions_url_spec(base: Seq<char>) -> Seq<char> {
    trim_trailing_slashes(base) + "/chat/completions"@
}

/// Builds the chat-completions endpoint under a service base URL.
pub fn completions_url(base: &str) -> (r: String)
    ensures
        r@ == completions_url_spec(base@),
{
    let cs = chars_of(base);
    let mut end = cs.len();
    assert(cs@.take(end as int) =~= cs@);
    while end > 0 && cs[end - 1] == '/'
        invariant
            end <= cs@.len(),
            trim_trailing_slashes(cs@) == trim_trailing_slashes(cs@.take(end as int)),
        decreases end,
    {
        assert(cs@.take(end as int).drop_last() =~= cs@.take(end - 1));
        end = end - 1;
    }
    let mut out: Vec<char> = Vec::new();
    let mut i: usize = 0;
    while i < end
        invariant
            i <= end <= cs@.len(),
            out@ == cs@.take(i as int),
        decreases end - i,
    {
        out.push(cs[i]);
        i = i + 1;
        assert(out@ =~= cs@.take(i as int));
    }
    push_str(&mut out, "/chat/completions");
    string_from_chars(&out)
}

/// The `Authorization` header for an API key; none for an empty key.
pub open spec fn authorization_spec(key: Seq<char>) -> Option<Seq<char>> {
    if key.len() == 0 {
        None
    } else {
        Some("Bearer "@ + key)
    }
}

/// Builds the `Authorization` header for an API key.
pub fn authorization(key: &str) -> (r: Option<String>)
    ensures
        match r {
            Some(h) => authorization_spec(key@) == Some(h@),
            None => authorization_spec(key@) is None,
        },
{
    if key.is_empty() {
        None
    } else {
        let mut out = chars_of("Bearer ");
        push_str(&mut out, key);
        Some(string_from_chars(&out))
    }
}

/// The character for a 6-bit value in the standard base64 alphabet
/// `A-Z`, `a-z`, `0-9`, `+`, `/`.
pub open spec fn base64_char(v: int) -> char {
    if v < 26 {
        ((65 + v) as u32) as char
    } else if v < 52 {
        ((97 + v - 26) as u32) as char
    } else if v < 62 {
        ((48 + v - 52) as u32) as char
    } else if v == 62 {
        '+'
    } else {
        '/'
    }
}

/// Standard base64 with `=` padding (RFC 4648, section 4): every 3 bytes
/// become 4 characters of 6 bits each, and a final group of 1 or 2 bytes
/// becomes 2 or 3 characters padded with `=` to 4.
pub open spec fn base64_standard(bytes: Seq<u8>) -> Seq<char>
    decreases bytes.len(),
{
    if bytes.len() == 0 {
        seq![]
    } else if bytes.len() == 1 {
        let b0 = bytes[0] as int;
        seq![base64_char(b0 / 4), base64_char((b0 % 4) * 16), '=', '=']
    } else if bytes.len() == 2 {
        let b0 = bytes[0] as int;
        let b1 = bytes[1] as int;
        seq![base64_char(b0 / 4), base64_char((b0 % 4) * 16 + b1 / 16), base64_char((b1 % 16) * 4), '=']
    } else {
        let b0 = bytes[0] as int;
        let b1 = bytes[1] as int;
        let b2 = bytes[2] as int;
        seq![
            base64_char(b0 / 4),
            base64_char((b0 % 4) * 16 + b1 / 16),
            base64_char((b1 % 16) * 4 + b2 / 64),
            base64_char(b2 % 64),
        ] + base64_standard(bytes.skip(3))
    }
}

/// Encodes bytes with `base64::engine::general_purpose::STANDARD.encode`,
/// the standard alphabet with padding.
#[verifier::external_body]
fn encode_base64(bytes: &[u8]) -> (r: String)
    ensures
        r@ == base64_standard(bytes@),
{
    base64::engine::general_purpose::STANDARD.encode(bytes)
}

/// The `data:` URL that carries an image of the given MIME type, whose
/// base64 text is `encoded`.
pub open spec fn data_url_spec(mime: Seq<char>, encoded: Seq<char>) -> Seq<char> {
    "data:"@ + mime + ";base64,"@ + encoded
}

/// Builds the `data:` URL of an image from its MIME type and base64 text.
pub fn image_data_url(mime: &str, encoded: &str) -> (r: String)
    ensures
        r@ == data_url_spec(mime@, encoded@),
{
    let mut out = chars_of("data:");
    push_str(&mut out, mime);
    push_str(&mut out, ";base64,");
    push_str(&mut out, encoded);
    string_from_chars(&out)
}

/// One chat-completions request asking for the date on a receipt image.
#[derive(Debug)]
pub struct OcrRequest {
    pub url: String,
    pub model: String,
    pub prompt: String,
    /// The image, as a `data:` URL.
    pub image_url: String,
    pub max_tokens: u32,
    pub timeout_secs: u64,
    /// The `Authorization` header, when a key is set.
    pub authorization: Option<String>,
}

/// The request that asks the configured service for the date on the image
/// stored at `path`, whose bytes are `image`.
pub fn build_ocr_request(config: &OcrConfig, path: &str, image: &[u8]) -> (r: OcrRequest)
    ensures
        r.url@ == completions_url_spec(config.url@),
        r.model@ == config.model@,
        r.prompt@ == OCR_PROMPT@,
        r.image_url@ == data_url_spec(mime_type_spec(path@), base64_standard(image@)),
        r.max_tokens == OCR_MAX_TOKENS,
        r.timeout_secs == OCR_TIMEOUT_SECS,
        match r.authorization {
            Some(h) => authorization_spec(config.api_key@) == Some(h@),
            None => authorization_spec(config.api_key@) is None,
        },
{
    let encoded = encode_base64(image);
    let mime = mime_type(path);
    OcrRequest {
        url: completions_url(config.url.as_str()),
        model: copy_string(&config.model),
        prompt: String::from_str(OCR_PROMPT),
        image_url: image_data_url(mime, encoded.as_str()),
        max_tokens: OCR_MAX_TOKENS,
        timeout_secs: OCR_TIMEOUT_SECS,
        authorization: authorization(config.api_key.as_str()),
    }
}

/// A JSON document, as the library reads it. Numbers keep their text; an
/// object holds its members in order, each key once.
#[derive(Debug)]
pub enum JsonValue {
    Null,
    Bool(bool),
    Number(String),
    Text(String),
    Array(Vec<JsonValue>),
    Object(Vec<(String, JsonValue)>),
}

/// Index of the first member named `key`, or -1.
pub open spec fn member_index(members: Seq<(String, JsonValue)>, key: Seq<char>) -> int
    decreases members.len(),
{
    if members.len() == 0 {
        -1
    } else if members.last().0@ == key {
        let k = member_index(members.drop_last(), key);
        if k < 0 {
            members.len() - 1
        } else {
            k
        }
    } else {
        member_index(members.drop_last(), key)
    }
}

/// The member named `key` of an object, as `serde_json::Value::get` with a
/// string key; `None` for a missing member or a value that is no object.
pub open spec fn json_member(v: JsonValue, key: Seq<char>) -> Option<JsonValue> {
    match v {
        JsonValue::Object(members) => {
            let k = member_index(members@, key);
            if k >= 0 {
                Some(members@[k].1)
            } else {
                None
            }
        },
        _ => None,
    }
}

proof fn lemma_member_index(members: Seq<(String, JsonValue)>, key: Seq<char>)
    ensures
        -1 <= member_index(members, key) < members.len(),
        member_index(members, key) >= 0 ==> members[member_index(members, key)].0@ == key,
        forall|j: int| 0 <= j < members.len() && (member_index(members, key) < 0 || j < member_index(members, key))
            ==> (#[trigger] members[j]).0@ != key,
    decreases members.len(),
{
    if members.len() > 0 {
        lemma_member_index(members.drop_last(), key);
        assert forall|j: int| 0 <= j < members.len() && (member_index(members, key) < 0 || j < member_index(members, key))
            implies (#[trigger] members[j]).0@ != key by {
            if j < members.len() - 1 {
                assert(members.drop_last()[j] == members[j]);
            }
        }
    }
}

/// The member named `key` of an object.
pub fn json_get<'a>(v: &'a JsonValue, key: &str) -> (r: Option<&'a JsonValue>)
    ensures
        match r {
            Some(x) => json_member(*v, key@) == Some(*x),
            None => json_member(*v, key@) is None,
        },
{
    match v {
        JsonValue::Object(members) => {
            proof {
                lemma_member_index(members@, key@);
            }
            let target = string_from_chars(&chars_of(key));
            let mut i: usize = 0;
            while i < members.len()
                invariant
                    i <= members@.len(),
                    *v == JsonValue::Object(*members),
                    target@ == key@,
                    forall|j: int| 0 <= j < i ==> (#[trigger] members@[j]).0@ != key@,
                decreases members@.len() - i,
            {
                if members[i].0 == target {
                    proof {
                        lemma_member_index(members@, key@);
                        let k = member_index(members@, key@);
                        assert(members@[i as int].0@ == key@);
                        if k >= 0 && k < i {
                            assert(members@[k].0@ != key@);
                        }
                        if k < 0 || k > i {
                            assert(members@[i as int].0@ != key@);
                        }
                        assert(k == i);
                        assert(json_member(*v, key@) == Some(members@[i as int].1));
                    }
                    return Some(&members[i].1);
                }
                i = i + 1;
            }
            proof {
                let k = member_index(members@, key@);
                if k >= 0 {
                    assert(members@[k].0@ != key@);
                }
            }
            None
        },
        _ => None,
    }
}

/// The text read from a chat-completions reply: the `content` of the
/// `message` of the first of the `choices`, with an error text when it is
/// not a string or cannot be found.
pub open spec fn reply_text_spec(v: JsonValue) -> Seq<char> {
    let missing = "ERROR: no choices in response"@;
    match json_member(v, "choices"@) {
        Some(JsonValue::Array(items)) => if items@.len() > 0 {
            match json_member(items@[0], "message"@) {
                Some(m) => match json_member(m, "content"@) {
                    Some(JsonValue::Text(s)) => s@,
                    Some(_) => "ERROR: empty content"@,
                    None => missing,
                },
                None => missing,
            }
        } else {
            missing
        },
        _ => missing,
    }
}

/// Reads the OCR text out of a chat-completions reply.
pub fn reply_text(v: &JsonValue) -> (r: String)
    ensures
        r@ == reply_text_spec(*v),
{
    let missing = "ERROR: no choices in response";
    match json_get(v, "choices") {
        Some(JsonValue::Array(items)) => {
            if items.len() == 0 {
                return String::from_str(missing);
            }
            match json_get(&items[0], "message") {
                Some(m) => match json_get(m, "content") {
                    Some(JsonValue::Text(s)) => copy_string(s),
                    Some(_) => String::from_str("ERROR: empty content"),
                    None => String::from_str(missing),
                },
                None => String::from_str(missing),
            }
        },
        _ => String::from_str(missing),
    }
}

/// The text recorded when reading the image or talking to the service
/// failed, from the failure's description.
pub fn failure_text(detail: &str) -> (r: String)
    ensures
        r@ == "ERROR: "@ + detail@,
{
    let mut out = chars_of("ERROR: ");
    push_str(&mut out, detail);
    string_from_chars(&out)
}

} // verus!
