//! Conversion between the Responses API and Chat Completions: request
//! normalisation, usage figures, whole responses and the stream of
//! Responses API events built from Chat Completions deltas.
use vstd::prelude::*;
use crate::clock;
use crate::json::{
    fields_view, items_view, lemma_items_view, push_field, push_item, Json, JsonView,
};
use crate::text::{self, hex_fixed};

verus! {

/// The texts of the content blocks that carry a `"text"` string, in order.
pub open spec fn block_texts(items: Seq<JsonView>) -> Seq<Seq<char>>
    decreases items.len(),
{
    if items.len() == 0 {
        Seq::empty()
    } else {
        let r = block_texts(items.drop_last());
        match items.last().field_text("text"@) {
            Some(t) => r.push(t),
            None => r,
        }
    }
}

/// The parts joined, with `sep` between neighbours.
pub open spec fn join_with(parts: Seq<Seq<char>>, sep: Seq<char>) -> Seq<char>
    decreases parts.len(),
{
    if parts.len() == 0 {
        Seq::empty()
    } else if parts.len() == 1 {
        parts[0]
    } else {
        join_with(parts.drop_last(), sep) + sep + parts.last()
    }
}

/// The plain text of a Responses API `content` value: a string is taken as
/// it is; an array of blocks gives the texts of its blocks joined by single
/// spaces; anything else gives the empty text.
pub open spec fn content_text(c: JsonView) -> Seq<char> {
    match c {
        JsonView::Text(s) => s,
        JsonView::Array(items) => join_with(block_texts(items), " "@),
        _ => Seq::empty(),
    }
}

/// A message in Chat Completions form: the role `developer` becomes
/// `system`, and array content becomes its plain text.
pub open spec fn normalized_message(m: JsonView) -> JsonView {
    let m1 = if m.field_text("role"@) == Some("developer"@) {
        m.assign("role"@, JsonView::Text("system"@))
    } else {
        m
    };
    match m1.field("content"@) {
        Some(c) => if c is Array {
            m1.assign("content"@, JsonView::Text(content_text(c)))
        } else {
            m1
        },
        None => m1,
    }
}

/// The request fields that only the Responses API knows.
pub open spec fn responses_only_fields() -> Seq<Seq<char>> {
    seq![
        "input"@,
        "instructions"@,
        "include"@,
        "previous_response_id"@,
        "store"@,
        "stream_options"@,
        "client_metadata"@,
        "prompt_cache_key"@,
        "reasoning"@,
        "tools"@,
        "tool_choice"@,
        "parallel_tool_calls"@,
        "max_output_tokens"@,
    ]
}

/// The fields whose key is not one of `keys`, in order.
pub open spec fn without_keys(f: Seq<(Seq<char>, JsonView)>, keys: Seq<Seq<char>>) -> Seq<
    (Seq<char>, JsonView),
>
    decreases f.len(),
{
    if f.len() == 0 {
        Seq::empty()
    } else {
        let r = without_keys(f.drop_last(), keys);
        if keys.contains(f.last().0) {
            r
        } else {
            r.push(f.last())
        }
    }
}

/// A request body without the Responses-only fields (other values are left
/// as they are).
pub open spec fn stripped_body(b: JsonView) -> JsonView {
    match b {
        JsonView::Object(f) => JsonView::Object(without_keys(f, responses_only_fields())),
        _ => b,
    }
}

/// A count in a usage object: the field's value when it is a non-negative
/// integer, otherwise 0.
pub open spec fn count_or_zero(u: JsonView, k: Seq<char>) -> u64 {
    match u.field_unsigned(k) {
        Some(n) => n,
        None => 0,
    }
}

/// Chat Completions usage figures renamed for the Responses API.
pub open spec fn usage_view(u: JsonView) -> JsonView {
    JsonView::Object(
        seq![
            ("input_tokens"@, JsonView::UInt(count_or_zero(u, "prompt_tokens"@))),
            ("output_tokens"@, JsonView::UInt(count_or_zero(u, "completion_tokens"@))),
            ("total_tokens"@, JsonView::UInt(count_or_zero(u, "total_tokens"@))),
        ],
    )
}

/// `convert_usage`: null for anything but an object.
pub open spec fn converted_usage(u: JsonView) -> JsonView {
    if u is Object {
        usage_view(u)
    } else {
        JsonView::Null
    }
}

/// The single assistant message of a response.
pub open spec fn message_item(msg_id: Seq<char>, text: Seq<char>) -> JsonView {
    JsonView::Object(
        seq![
            ("type"@, JsonView::Text("message"@)),
            ("id"@, JsonView::Text(msg_id)),
            ("role"@, JsonView::Text("assistant"@)),
            (
                "content"@,
                JsonView::Array(
                    seq![
                        JsonView::Object(
                            seq![
                                ("type"@, JsonView::Text("output_text"@)),
                                ("text"@, JsonView::Text(text)),
                                ("annotations"@, JsonView::Array(Seq::empty())),
                            ],
                        ),
                    ],
                ),
            ),
        ],
    )
}

/// A Responses API response object created at `now` (seconds since the
/// epoch).
pub open spec fn response_obj(
    id: Seq<char>,
    msg_id: Seq<char>,
    model: Seq<char>,
    text: Seq<char>,
    status: Seq<char>,
    usage: Option<JsonView>,
    now: u64,
) -> JsonView {
    let base = JsonView::Object(
        seq![
            ("id"@, JsonView::Text(id)),
            ("object"@, JsonView::Text("response"@)),
            ("created_at"@, JsonView::UInt(now)),
            ("status"@, JsonView::Text(status)),
            ("model"@, JsonView::Text(model)),
            ("output"@, JsonView::Array(seq![message_item(msg_id, text)])),
        ],
    );
    match usage {
        Some(u) => base.assign("usage"@, u),
        None => base,
    }
}

/// The id of a response drawn from `n`: `resp_` and 16 hex digits.
pub open spec fn response_id(n: u64) -> Seq<char> {
    "resp_"@ + hex_fixed(n as nat, 16)
}

/// The id of a message drawn from `n`: `msg_` and 16 hex digits.
pub open spec fn message_id(n: u64) -> Seq<char> {
    "msg_"@ + hex_fixed(n as nat, 16)
}

/// The assistant text of a Chat Completions response: the first choice's
/// `message.content` when it is a string, otherwise empty.
pub open spec fn chat_content(chat: JsonView) -> Seq<char> {
    let choices = match chat.field("choices"@) {
        Some(JsonView::Array(a)) => a,
        _ => Seq::empty(),
    };
    if choices.len() > 0 {
        match choices[0].field("message"@) {
            Some(m) => match m.field_text("content"@) {
                Some(t) => t,
                None => Seq::empty(),
            },
            None => Seq::empty(),
        }
    } else {
        Seq::empty()
    }
}

/// The usage of a Chat Completions response, converted, when it has one.
pub open spec fn chat_usage(chat: JsonView) -> Option<JsonView> {
    match chat.field("usage"@) {
        Some(u) => Some(converted_usage(u)),
        None => None,
    }
}

/// A non-streaming Chat Completions response in Responses API form.
pub open spec fn chat_response(
    chat: JsonView,
    model: Seq<char>,
    resp_nonce: u64,
    msg_nonce: u64,
    now: u64,
) -> JsonView {
    response_obj(
        response_id(resp_nonce),
        message_id(msg_nonce),
        model,
        chat_content(chat),
        "completed"@,
        chat_usage(chat),
        now,
    )
}

proof fn lemma_join_step(parts: Seq<Seq<char>>, t: Seq<char>, sep: Seq<char>)
    ensures
        join_with(parts.push(t), sep) == if parts.len() == 0 {
            t
        } else {
            join_with(parts, sep) + sep + t
        },
{
    assert(parts.push(t).drop_last() =~= parts);
    if parts.len() == 0 {
        assert(parts.push(t)[0] == t);
    }
}

/// Extract plain text from a Responses API `content` value.
///
/// The content can be a plain string (`"hello"`) or an array of
/// content blocks (`[{"type":"input_text","text":"hello"}]`).
pub fn extract_text_from_content(content: &Json) -> (r: String)
    ensures
        r@ == content_text(content@),
{
    match content {
        Json::Text(s) => s.clone(),
        Json::Array(items) => {
            proof {
                lemma_items_view(items@);
            }
            let ghost iv = items_view(items@);
            let mut out = String::new();
            let mut any = false;
            let mut i: usize = 0;
            while i < items.len()
                invariant
                    i <= items@.len(),
                    iv == items_view(items@),
                    iv.len() == items@.len(),
                    forall|j: int| 0 <= j < items@.len() ==> #[trigger] iv[j] == items@[j]@,
                    out@ == join_with(block_texts(iv.take(i as int)), " "@),
                    any == (block_texts(iv.take(i as int)).len() > 0),
                decreases items@.len() - i,
            {
                assert(iv.take(i + 1).drop_last() =~= iv.take(i as int));
                assert(iv.take(i + 1).last() == items@[i as int]@);
                let piece = match items[i].get("text") {
                    Some(t) => t.as_str(),
                    None => None,
                };
                match piece {
                    Some(t) => {
                        proof {
                            lemma_join_step(block_texts(iv.take(i as int)), t@, " "@);
                        }
                        if any {
                            out.append(" ");
                        }
                        out.append(t);
                        any = true;
                    },
                    None => {},
                }
                i = i + 1;
            }
            assert(iv.take(items@.len() as int) =~= iv);
            out
        },
        _ => String::new(),
    }
}

/// Normalize a single Responses API message object to Chat Completions format.
///
/// * `developer` role → `system`
/// * Array content → plain text
pub fn normalize_message(msg: &Json) -> (r: Json)
    ensures
        r@ == normalized_message(msg@),
{
    let mut out = msg.deep_clone();
    let is_developer = match out.get("role") {
        Some(role) => match role.as_str() {
            Some(s) => text::str_eq(s, "developer"),
            None => false,
        },
        None => false,
    };
    if is_developer {
        out.assign("role", Json::from_str_slice("system"));
    }
    let flattened = match out.get("content") {
        Some(c) => if c.is_array() {
            Some(extract_text_from_content(c))
        } else {
            None
        },
        None => None,
    };
    match flattened {
        Some(t) => {
            out.assign("content", Json::Text(t));
        },
        None => {},
    }
    out
}

/// The request fields that only the Responses API knows.
fn responses_only_field_names() -> (r: Vec<&'static str>)
    ensures
        r@.map_values(|s: &str| s@) == responses_only_fields(),
{
    let r = vec![
        "input",
        "instructions",
        "include",
        "previous_response_id",
        "store",
        "stream_options",
        "client_metadata",
        "prompt_cache_key",
        "reasoning",
        "tools",
        "tool_choice",
        "parallel_tool_calls",
        "max_output_tokens",
    ];
    assert(r@.map_values(|s: &str| s@) =~= responses_only_fields());
    r
}

fn is_listed(names: &Vec<&'static str>, key: &str) -> (r: bool)
    ensures
        r == names@.map_values(|s: &str| s@).contains(key@),
{
    let ghost v = names@.map_values(|s: &str| s@);
    let mut i: usize = 0;
    while i < names.len()
        invariant
            i <= names@.len(),
            v == names@.map_values(|s: &str| s@),
            forall|j: int| 0 <= j < i ==> #[trigger] v[j] != key@,
        decreases names@.len() - i,
    {
        if text::str_eq(names[i], key) {
            assert(v[i as int] == key@);
            return true;
        }
        i = i + 1;
    }
    proof {
        if v.contains(key@) {
            let j = choose|j: int| 0 <= j < v.len() && v[j] == key@;
            assert(v[j] != key@);
        }
    }
    false
}

/// Remove Responses API-only fields from a request body so that the
/// resulting body is a valid Chat Completions request.
pub fn strip_responses_fields(body: &mut Json)
    ensures
        final(body)@ == stripped_body(old(body)@),
{
    let names = responses_only_field_names();
    let ghost keys = responses_only_fields();
    let mut cur = Json::Null;
    std::mem::swap(&mut cur, body);
    match cur {
        Json::Object(fields) => {
            proof {
                crate::json::lemma_fields_view(fields@);
            }
            let ghost fv = fields_view(fields@);
            let mut kept: Vec<(String, Json)> = Vec::new();
            let mut i: usize = 0;
            while i < fields.len()
                invariant
                    i <= fields@.len(),
                    fv == fields_view(fields@),
                    fv.len() == fields@.len(),
                    forall|j: int|
                        0 <= j < fields@.len() ==> #[trigger] fv[j] == (
                            fields@[j].0@,
                            fields@[j].1@,
                        ),
                    keys == names@.map_values(|s: &str| s@),
                    fields_view(kept@) == without_keys(fv.take(i as int), keys),
                decreases fields@.len() - i,
            {
                assert(fv.take(i + 1).drop_last() =~= fv.take(i as int));
                assert(fv.take(i + 1).last() == fv[i as int]);
                if !is_listed(&names, fields[i].0.as_str()) {
                    let v = fields[i].1.deep_clone();
                    push_field(&mut kept, fields[i].0.as_str(), v);
                }
                i = i + 1;
            }
            assert(fv.take(fields@.len() as int) =~= fv);
            *body = Json::Object(kept);
        },
        other => {
            *body = other;
        },
    }
}

/// The three usage figures of a Chat Completions usage value, renamed.
fn usage_object(u: &Json) -> (r: Json)
    ensures
        r@ == usage_view(u@),
{
    let input = match u.get("prompt_tokens") {
        Some(v) => match v.as_u64() {
            Some(n) => n,
            None => 0,
        },
        None => 0,
    };
    let output = match u.get("completion_tokens") {
        Some(v) => match v.as_u64() {
            Some(n) => n,
            None => 0,
        },
        None => 0,
    };
    let total = match u.get("total_tokens") {
        Some(v) => match v.as_u64() {
            Some(n) => n,
            None => 0,
        },
        None => 0,
    };
    let mut f: Vec<(String, Json)> = Vec::new();
    push_field(&mut f, "input_tokens", Json::UInt(input));
    push_field(&mut f, "output_tokens", Json::UInt(output));
    push_field(&mut f, "total_tokens", Json::UInt(total));
    let r = Json::object(f);
    assert(r@ == usage_view(u@)) by {
        assert(fields_view(f@) =~= seq![
            ("input_tokens"@, JsonView::UInt(count_or_zero(u@, "prompt_tokens"@))),
            ("output_tokens"@, JsonView::UInt(count_or_zero(u@, "completion_tokens"@))),
            ("total_tokens"@, JsonView::UInt(count_or_zero(u@, "total_tokens"@))),
        ]);
    }
    r
}

/// Convert Chat Completions usage format to Responses API format.
///
/// Chat:    `{prompt_tokens, completion_tokens, total_tokens}`
/// Responses: `{input_tokens, output_tokens, total_tokens}`
pub fn convert_usage(chat_usage: &Json) -> (r: Json)
    ensures
        r@ == converted_usage(chat_usage@),
{
    if chat_usage.is_null() || !chat_usage.is_object() {
        return Json::Null;
    }
    usage_object(chat_usage)
}

/// The assistant message item of a response.
fn build_message_item(msg_id: &str, text: &str) -> (r: Json)
    ensures
        r@ == message_item(msg_id@, text@),
{
    let mut part: Vec<(String, Json)> = Vec::new();
    push_field(&mut part, "type", Json::from_str_slice("output_text"));
    push_field(&mut part, "text", Json::from_str_slice(text));
    let empty: Vec<Json> = Vec::new();
    assert(items_view(empty@) =~= Seq::<JsonView>::empty());
    push_field(&mut part, "annotations", Json::array(empty));
    let mut content: Vec<Json> = Vec::new();
    let part_obj = Json::object(part);
    push_item(&mut content, part_obj);
    let mut item: Vec<(String, Json)> = Vec::new();
    push_field(&mut item, "type", Json::from_str_slice("message"));
    push_field(&mut item, "id", Json::from_str_slice(msg_id));
    push_field(&mut item, "role", Json::from_str_slice("assistant"));
    push_field(&mut item, "content", Json::array(content));
    let r = Json::object(item);
    proof {
        assert(items_view(content@) =~= seq![part_obj@]);
        assert(fields_view(item@) =~= seq![
            ("type"@, JsonView::Text("message"@)),
            ("id"@, JsonView::Text(msg_id@)),
            ("role"@, JsonView::Text("assistant"@)),
            ("content"@, JsonView::Array(seq![part_obj@])),
        ]);
        assert(part_obj@ == JsonView::Object(
            seq![
                ("type"@, JsonView::Text("output_text"@)),
                ("text"@, JsonView::Text(text@)),
                ("annotations"@, JsonView::Array(Seq::empty())),
            ],
        )) by {
            assert(fields_view(part@) =~= seq![
                ("type"@, JsonView::Text("output_text"@)),
                ("text"@, JsonView::Text(text@)),
                ("annotations"@, JsonView::Array(Seq::empty())),
            ]);
        }
    }
    r
}

/// Build a response object (shared by streaming and non-streaming paths),
/// created at `now` seconds since the epoch.
pub fn build_response_obj(
    id: &str,
    msg_id: &str,
    model: &str,
    text: &str,
    status: &str,
    usage: Option<&Json>,
    now: u64,
) -> (r: Json)
    ensures
        r@ == response_obj(
            id@,
            msg_id@,
            model@,
            text@,
            status@,
            crate::json::opt_view(usage),
            now,
        ),
{
    let mut f: Vec<(String, Json)> = Vec::new();
    push_field(&mut f, "id", Json::from_str_slice(id));
    push_field(&mut f, "object", Json::from_str_slice("response"));
    push_field(&mut f, "created_at", Json::UInt(now));
    push_field(&mut f, "status", Json::from_str_slice(status));
    push_field(&mut f, "model", Json::from_str_slice(model));
    let item = build_message_item(msg_id, text);
    let ghost item_view = item@;
    let mut output: Vec<Json> = Vec::new();
    push_item(&mut output, item);
    push_field(&mut f, "output", Json::array(output));
    let mut obj = Json::object(f);
    proof {
        assert(items_view(output@) =~= seq![item_view]);
        assert(fields_view(f@) =~= seq![
            ("id"@, JsonView::Text(id@)),
            ("object"@, JsonView::Text("response"@)),
            ("created_at"@, JsonView::UInt(now)),
            ("status"@, JsonView::Text(status@)),
            ("model"@, JsonView::Text(model@)),
            ("output"@, JsonView::Array(seq![message_item(msg_id@, text@)])),
        ]);
    }
    match usage {
        Some(u) => {
            obj.assign("usage", u.deep_clone());
        },
        None => {},
    }
    obj
}

/// `prefix` followed by `n` as 16 lower-case hex digits.
fn tagged_id(prefix: &str, n: u64) -> (r: String)
    ensures
        r@ == prefix@ + hex_fixed(n as nat, 16),
{
    let mut s = text::owned(prefix);
    s.append(text::hex_fixed_string(n, 16).as_str());
    s
}

/// Convert a Chat Completions non-streaming response to Responses API
/// format, with the ids drawn from `resp_nonce` and `msg_nonce` and the
/// creation time `now`.
pub fn chat_to_responses_with(
    chat_resp: &Json,
    model: &str,
    resp_nonce: u64,
    msg_nonce: u64,
    now: u64,
) -> (r: Json)
    ensures
        r@ == chat_response(chat_resp@, model@, resp_nonce, msg_nonce, now),
{
    let resp_id = tagged_id("resp_", resp_nonce);
    let msg_id = tagged_id("msg_", msg_nonce);
    let content: &str = match chat_resp.get("choices") {
        Some(c) => match c.as_array() {
            Some(choices) => {
                proof {
                    lemma_items_view(choices@);
                }
                if choices.len() > 0 {
                    match choices[0].get("message") {
                        Some(m) => match m.get("content") {
                            Some(t) => match t.as_str() {
                                Some(s) => s,
                                None => "",
                            },
                            None => "",
                        },
                        None => "",
                    }
                } else {
                    ""
                }
            },
            None => "",
        },
        None => "",
    };
    proof {
        reveal_strlit("");
    }
    assert(content@ == chat_content(chat_resp@));
    let usage = match chat_resp.get("usage") {
        Some(u) => Some(convert_usage(u)),
        None => None,
    };
    let r = match &usage {
        Some(u) => build_response_obj(
            resp_id.as_str(),
            msg_id.as_str(),
            model,
            content,
            "completed",
            Some(u),
            now,
        ),
        None => build_response_obj(
            resp_id.as_str(),
            msg_id.as_str(),
            model,
            content,
            "completed",
            None,
            now,
        ),
    };
    r
}

/// Convert a Chat Completions non-streaming response to Responses API
/// format, with fresh random ids and the current time.
pub fn chat_to_responses(chat_resp: &Json, model: &str) -> (r: Json)
    ensures
        exists|resp_nonce: u64, msg_nonce: u64, now: u64|
            r@ == #[trigger] chat_response(chat_resp@, model@, resp_nonce, msg_nonce, now),
{
    let resp_nonce = clock::random_u64();
    let msg_nonce = clock::random_u64();
    let now = clock::unix_now();
    chat_to_responses_with(chat_resp, model, resp_nonce, msg_nonce, now)
}

/// SSE converter: transforms OpenAI Chat Completions SSE deltas into
/// OpenAI Responses API events on the fly. Each event is a name and its JSON
/// data.
pub struct ResponsesSseConverter {
    pub resp_id: String,
    pub msg_id: String,
    pub model: String,
    /// Accumulated text content across all deltas.
    pub buffer: String,
    /// Whether a finish_reason (stop / length / …) has been seen.
    pub finished: bool,
    /// Whether the final events have been produced (prevents a double send).
    pub finalized: bool,
    /// Usage data from the upstream chunks, in Responses API form.
    pub usage: Option<Json>,
}

/// The model of a [`ResponsesSseConverter`].
pub struct ConverterView {
    pub resp_id: Seq<char>,
    pub msg_id: Seq<char>,
    pub model: Seq<char>,
    pub buffer: Seq<char>,
    pub finished: bool,
    pub finalized: bool,
    pub usage: Option<JsonView>,
}

impl View for ResponsesSseConverter {
    type V = ConverterView;

    open spec fn view(&self) -> ConverterView {
        ConverterView {
            resp_id: self.resp_id@,
            msg_id: self.msg_id@,
            model: self.model@,
            buffer: self.buffer@,
            finished: self.finished,
            finalized: self.finalized,
            usage: crate::json::opt_json_view(self.usage),
        }
    }
}

/// Events as (name, data) pairs of views.
pub open spec fn events_view(e: Seq<(&str, Json)>) -> Seq<(Seq<char>, JsonView)> {
    e.map_values(|p: (&str, Json)| (p.0@, p.1@))
}

/// A fresh converter.
pub open spec fn fresh_converter(model: Seq<char>, resp_nonce: u64, msg_nonce: u64) -> ConverterView {
    ConverterView {
        resp_id: response_id(resp_nonce),
        msg_id: message_id(msg_nonce),
        model,
        buffer: Seq::empty(),
        finished: false,
        finalized: false,
        usage: None,
    }
}

/// The usage after seeing `payload`: the first non-null `usage` is kept.
pub open spec fn usage_after(c: ConverterView, payload: JsonView) -> Option<JsonView> {
    match c.usage {
        Some(u) => Some(u),
        None => match payload.field("usage"@) {
            Some(u) => if u is Null {
                None
            } else {
                Some(usage_view(u))
            },
            None => None,
        },
    }
}

/// The events sent before any upstream chunk, at time `now`.
pub open spec fn initial_events_view(c: ConverterView, now: u64) -> Seq<(Seq<char>, JsonView)> {
    seq![
        (
            "response.created"@,
            JsonView::Object(
                seq![
                    ("type"@, JsonView::Text("response.created"@)),
                    (
                        "response"@,
                        JsonView::Object(
                            seq![
                                ("id"@, JsonView::Text(c.resp_id)),
                                ("object"@, JsonView::Text("response"@)),
                                ("created_at"@, JsonView::UInt(now)),
                                ("status"@, JsonView::Text("in_progress"@)),
                                ("model"@, JsonView::Text(c.model)),
                            ],
                        ),
                    ),
                ],
            ),
        ),
        (
            "response.output_item.added"@,
            JsonView::Object(
                seq![
                    ("type"@, JsonView::Text("response.output_item.added"@)),
                    ("output_index"@, JsonView::UInt(0)),
                    (
                        "item"@,
                        JsonView::Object(
                            seq![
                                ("type"@, JsonView::Text("message"@)),
                                ("id"@, JsonView::Text(c.msg_id)),
                                ("role"@, JsonView::Text("assistant"@)),
                                ("content"@, JsonView::Array(Seq::empty())),
                            ],
                        ),
                    ),
                ],
            ),
        ),
        (
            "response.content_part.added"@,
            JsonView::Object(
                seq![
                    ("type"@, JsonView::Text("response.content_part.added"@)),
                    ("index"@, JsonView::UInt(0)),
                    (
                        "part"@,
                        JsonView::Object(
                            seq![
                                ("type"@, JsonView::Text("output_text"@)),
                                ("text"@, JsonView::Text(Seq::empty())),
                                ("annotations"@, JsonView::Array(Seq::empty())),
                            ],
                        ),
                    ),
                ],
            ),
        ),
    ]
}

/// The text of a delta: its `content` when that is a non-empty string.
pub open spec fn delta_text(delta: JsonView) -> Option<Seq<char>> {
    match delta.field_text("content"@) {
        Some(t) => if t.len() > 0 {
            Some(t)
        } else {
            None
        },
        None => None,
    }
}

/// The `output_text.done` event for the text `t`.
pub open spec fn text_done_event(t: Seq<char>) -> (Seq<char>, JsonView) {
    (
        "output_text.done"@,
        JsonView::Object(
            seq![
                ("type"@, JsonView::Text("output_text.done"@)),
                ("index"@, JsonView::UInt(0)),
                ("text"@, JsonView::Text(t)),
            ],
        ),
    )
}

/// The converter after one delta and its optional finish reason.
pub open spec fn after_delta(c: ConverterView, delta: JsonView, reason: Option<Seq<char>>) -> ConverterView {
    let buffer = match delta_text(delta) {
        Some(t) => c.buffer + t,
        None => c.buffer,
    };
    ConverterView { buffer, finished: c.finished || reason is Some, ..c }
}

/// The `output_text.delta` event of a delta, when it carries text.
pub open spec fn text_delta_events(delta: JsonView) -> Seq<(Seq<char>, JsonView)> {
    match delta_text(delta) {
        Some(t) => seq![
            (
                "output_text.delta"@,
                JsonView::Object(
                    seq![
                        ("type"@, JsonView::Text("output_text.delta"@)),
                        ("index"@, JsonView::UInt(0)),
                        ("delta"@, JsonView::Text(t)),
                    ],
                ),
            ),
        ],
        None => Seq::empty(),
    }
}

/// The events of the first finish reason `r` with the text `t`: the
/// finished text, then an `incomplete` response unless `r` is `stop`.
pub open spec fn finish_events(c: ConverterView, t: Seq<char>, r: Seq<char>, now: u64) -> Seq<
    (Seq<char>, JsonView),
> {
    if r != "stop"@ {
        seq![
            text_done_event(t),
            (
                "response.incomplete"@,
                JsonView::Object(
                    seq![
                        ("type"@, JsonView::Text("response.incomplete"@)),
                        (
                            "response"@,
                            response_obj(c.resp_id, c.msg_id, c.model, t, "incomplete"@, None, now),
                        ),
                    ],
                ),
            ),
        ]
    } else {
        seq![text_done_event(t)]
    }
}

/// The events for one delta and its optional finish reason, at time `now`:
/// the text delta, and on the first finish the finished text (plus an
/// `incomplete` response when the reason is not `stop`).
pub open spec fn delta_events(
    c: ConverterView,
    delta: JsonView,
    reason: Option<Seq<char>>,
    now: u64,
) -> Seq<(Seq<char>, JsonView)> {
    let c2 = after_delta(c, delta, reason);
    text_delta_events(delta) + match reason {
        Some(r) => if !c.finished {
            finish_events(c, c2.buffer, r, now)
        } else {
            Seq::empty()
        },
        None => Seq::empty(),
    }
}

/// The `response.output_item.done` event.
pub open spec fn item_done_event() -> (Seq<char>, JsonView) {
    (
        "response.output_item.done"@,
        JsonView::Object(
            seq![
                ("type"@, JsonView::Text("response.output_item.done"@)),
                ("output_index"@, JsonView::UInt(0)),
            ],
        ),
    )
}

/// The `response.completed` event for the text `t`.
pub open spec fn completed_event(c: ConverterView, t: Seq<char>, now: u64) -> (Seq<char>, JsonView) {
    (
        "response.completed"@,
        JsonView::Object(
            seq![
                ("type"@, JsonView::Text("response.completed"@)),
                (
                    "response"@,
                    response_obj(c.resp_id, c.msg_id, c.model, t, "completed"@, c.usage, now),
                ),
            ],
        ),
    )
}

/// The events sent after all upstream chunks, at time `now`: nothing once
/// finalized; otherwise the item and completion events, preceded by the
/// finished text when no finish reason was seen.
pub open spec fn final_events_view(c: ConverterView, now: u64) -> Seq<(Seq<char>, JsonView)> {
    if c.finalized {
        Seq::empty()
    } else if c.finished {
        seq![item_done_event(), completed_event(c, c.buffer, now)]
    } else {
        seq![text_done_event(c.buffer), item_done_event(), completed_event(c, c.buffer, now)]
    }
}

/// The converter after `final_events`: finalized, and the text handed out
/// when no finish reason was seen.
pub open spec fn after_final(c: ConverterView) -> ConverterView {
    if c.finalized {
        c
    } else if c.finished {
        ConverterView { finalized: true, ..c }
    } else {
        ConverterView { finalized: true, buffer: Seq::empty(), ..c }
    }
}

/// An event `name` with an object of three fields.
fn event3(name: &'static str, k1: &str, v1: Json, k2: &str, v2: Json, k3: &str, v3: Json) -> (r: (
    &'static str,
    Json,
))
    ensures
        r.0@ == name@,
        r.1@ == JsonView::Object(seq![(k1@, v1@), (k2@, v2@), (k3@, v3@)]),
{
    let mut f: Vec<(String, Json)> = Vec::new();
    push_field(&mut f, k1, v1);
    push_field(&mut f, k2, v2);
    push_field(&mut f, k3, v3);
    assert(fields_view(f@) =~= seq![(k1@, v1@), (k2@, v2@), (k3@, v3@)]);
    (name, Json::object(f))
}

/// An event `name` with an object of two fields.
fn event2(name: &'static str, k1: &str, v1: Json, k2: &str, v2: Json) -> (r: (&'static str, Json))
    ensures
        r.0@ == name@,
        r.1@ == JsonView::Object(seq![(k1@, v1@), (k2@, v2@)]),
{
    let mut f: Vec<(String, Json)> = Vec::new();
    push_field(&mut f, k1, v1);
    push_field(&mut f, k2, v2);
    assert(fields_view(f@) =~= seq![(k1@, v1@), (k2@, v2@)]);
    (name, Json::object(f))
}

fn push_event(events: &mut Vec<(&'static str, Json)>, e: (&'static str, Json))
    ensures
        events_view(final(events)@) == events_view(old(events)@).push((e.0@, e.1@)),
{
    events.push(e);
    assert(events_view(events@) =~= events_view(old(events)@).push((e.0@, e.1@)));
}

impl ResponsesSseConverter {
    /// A converter whose ids are drawn from `resp_nonce` and `msg_nonce`.
    pub fn with_nonces(model: &str, resp_nonce: u64, msg_nonce: u64) -> (r: Self)
        ensures
            r@ == fresh_converter(model@, resp_nonce, msg_nonce),
    {
        ResponsesSseConverter {
            resp_id: tagged_id("resp_", resp_nonce),
            msg_id: tagged_id("msg_", msg_nonce),
            model: text::owned(model),
            buffer: String::new(),
            finished: false,
            finalized: false,
            usage: None,
        }
    }

    /// A converter with fresh random ids.
    pub fn new(model: &str) -> (r: Self)
        ensures
            exists|resp_nonce: u64, msg_nonce: u64|
                r@ == #[trigger] fresh_converter(model@, resp_nonce, msg_nonce),
    {
        let resp_nonce = clock::random_u64();
        let msg_nonce = clock::random_u64();
        Self::with_nonces(model, resp_nonce, msg_nonce)
    }

    /// Record usage data from an upstream Chat Completions SSE payload.
    pub fn set_usage(&mut self, payload: &Json)
        ensures
            final(self)@ == (ConverterView { usage: usage_after(old(self)@, payload@), ..old(self)@ }),
    {
        if self.usage.is_none() {
            match payload.get("usage") {
                Some(u) => {
                    if !u.is_null() {
                        self.usage = Some(usage_object(u));
                    }
                },
                None => {},
            }
        }
    }

    /// SSE events that must be sent **before** processing upstream chunks,
    /// stamped with the time `now`.
    pub fn initial_events_at(&self, now: u64) -> (r: Vec<(&'static str, Json)>)
        ensures
            events_view(r@) == initial_events_view(self@, now),
    {
        let mut resp: Vec<(String, Json)> = Vec::new();
        push_field(&mut resp, "id", Json::Text(self.resp_id.clone()));
        push_field(&mut resp, "object", Json::from_str_slice("response"));
        push_field(&mut resp, "created_at", Json::UInt(now));
        push_field(&mut resp, "status", Json::from_str_slice("in_progress"));
        push_field(&mut resp, "model", Json::Text(self.model.clone()));
        let ghost resp_view = fields_view(resp@);
        let e1 = event2(
            "response.created",
            "type",
            Json::from_str_slice("response.created"),
            "response",
            Json::object(resp),
        );
        let mut item: Vec<(String, Json)> = Vec::new();
        push_field(&mut item, "type", Json::from_str_slice("message"));
        push_field(&mut item, "id", Json::Text(self.msg_id.clone()));
        push_field(&mut item, "role", Json::from_str_slice("assistant"));
        let empty: Vec<Json> = Vec::new();
        assert(items_view(empty@) =~= Seq::<JsonView>::empty());
        push_field(&mut item, "content", Json::array(empty));
        let ghost item_view = fields_view(item@);
        let e2 = event3(
            "response.output_item.added",
            "type",
            Json::from_str_slice("response.output_item.added"),
            "output_index",
            Json::UInt(0),
            "item",
            Json::object(item),
        );
        let mut part: Vec<(String, Json)> = Vec::new();
        push_field(&mut part, "type", Json::from_str_slice("output_text"));
        push_field(&mut part, "text", Json::Text(String::new()));
        let empty2: Vec<Json> = Vec::new();
        assert(items_view(empty2@) =~= Seq::<JsonView>::empty());
        push_field(&mut part, "annotations", Json::array(empty2));
        let ghost part_view = fields_view(part@);
        let e3 = event3(
            "response.content_part.added",
            "type",
            Json::from_str_slice("response.content_part.added"),
            "index",
            Json::UInt(0),
            "part",
            Json::object(part),
        );
        let mut r: Vec<(&'static str, Json)> = Vec::new();
        push_event(&mut r, e1);
        push_event(&mut r, e2);
        push_event(&mut r, e3);
        proof {
            reveal_strlit("");
            assert(resp_view =~= seq![
                ("id"@, JsonView::Text(self@.resp_id)),
                ("object"@, JsonView::Text("response"@)),
                ("created_at"@, JsonView::UInt(now)),
                ("status"@, JsonView::Text("in_progress"@)),
                ("model"@, JsonView::Text(self@.model)),
            ]);
            assert(item_view =~= seq![
                ("type"@, JsonView::Text("message"@)),
                ("id"@, JsonView::Text(self@.msg_id)),
                ("role"@, JsonView::Text("assistant"@)),
                ("content"@, JsonView::Array(Seq::empty())),
            ]);
            assert(part_view =~= seq![
                ("type"@, JsonView::Text("output_text"@)),
                ("text"@, JsonView::Text(Seq::empty())),
                ("annotations"@, JsonView::Array(Seq::empty())),
            ]);
            assert(events_view(r@) =~= initial_events_view(self@, now));
        }
        r
    }

    /// SSE events that must be sent **before** processing upstream chunks.
    pub fn initial_events(&self) -> (r: Vec<(&'static str, Json)>)
        ensures
            exists|now: u64| events_view(r@) == #[trigger] initial_events_view(self@, now),
    {
        let now = clock::unix_now();
        self.initial_events_at(now)
    }

    /// Process one Chat Completions delta, returning zero or more
    /// (event_name, data) pairs to emit; a response built here is stamped
    /// with the time `now`.
    pub fn process_delta_at(&mut self, delta: &Json, finish_reason: Option<&str>, now: u64) -> (r: Vec<
        (&'static str, Json),
    >)
        ensures
            final(self)@ == after_delta(
                old(self)@,
                delta@,
                crate::json::opt_str_view(finish_reason),
            ),
            events_view(r@) == delta_events(
                old(self)@,
                delta@,
                crate::json::opt_str_view(finish_reason),
                now,
            ),
    {
        let ghost c = self@;
        let ghost reason = crate::json::opt_str_view(finish_reason);
        let mut events: Vec<(&'static str, Json)> = Vec::new();
        let piece = match delta.get("content") {
            Some(t) => t.as_str(),
            None => None,
        };
        match piece {
            Some(t) => {
                if t.unicode_len() > 0 {
                    self.buffer.append(t);
                    let e = event3(
                        "output_text.delta",
                        "type",
                        Json::from_str_slice("output_text.delta"),
                        "index",
                        Json::UInt(0),
                        "delta",
                        Json::from_str_slice(t),
                    );
                    push_event(&mut events, e);
                }
            },
            None => {},
        }
        let ghost text_events = events_view(events@);
        match finish_reason {
            Some(reason_str) => {
                if !self.finished {
                    self.finished = true;
                    let e = event3(
                        "output_text.done",
                        "type",
                        Json::from_str_slice("output_text.done"),
                        "index",
                        Json::UInt(0),
                        "text",
                        Json::Text(self.buffer.clone()),
                    );
                    push_event(&mut events, e);
                    if !text::str_eq(reason_str, "stop") {
                        let resp = build_response_obj(
                            self.resp_id.as_str(),
                            self.msg_id.as_str(),
                            self.model.as_str(),
                            self.buffer.as_str(),
                            "incomplete",
                            None,
                            now,
                        );
                        let e2 = event2(
                            "response.incomplete",
                            "type",
                            Json::from_str_slice("response.incomplete"),
                            "response",
                            resp,
                        );
                        push_event(&mut events, e2);
                    }
                }
            },
            None => {},
        }
        proof {
            let c2 = after_delta(c, delta@, reason);
            assert(self@ == c2);
            assert(events_view(events@) =~= delta_events(c, delta@, reason, now));
        }
        events
    }

    /// Process one Chat Completions delta, returning zero or more
    /// (event_name, data) pairs to emit.
    pub fn process_delta(&mut self, delta: &Json, finish_reason: Option<&str>) -> (r: Vec<
        (&'static str, Json),
    >)
        ensures
            final(self)@ == after_delta(
                old(self)@,
                delta@,
                crate::json::opt_str_view(finish_reason),
            ),
            exists|now: u64|
                events_view(r@) == #[trigger] delta_events(
                    old(self)@,
                    delta@,
                    crate::json::opt_str_view(finish_reason),
                    now,
                ),
    {
        let now = clock::unix_now();
        self.process_delta_at(delta, finish_reason, now)
    }

    /// SSE events that must be sent **after** all upstream chunks have been
    /// consumed, with responses stamped at time `now`.
    ///
    /// - If finish_reason arrived mid-stream (`finished`), there still
    ///   remain output_item.done and response.completed.
    /// - If the stream ended without a finish_reason (truncation), all
    ///   remaining events are emitted, including response.completed with
    ///   status "completed".
    pub fn final_events_at(&mut self, now: u64) -> (r: Vec<(&'static str, Json)>)
        ensures
            final(self)@ == after_final(old(self)@),
            events_view(r@) == final_events_view(old(self)@, now),
    {
        let ghost c = self@;
        let mut events: Vec<(&'static str, Json)> = Vec::new();
        if self.finalized {
            assert(events_view(events@) =~= Seq::<(Seq<char>, JsonView)>::empty());
            return events;
        }
        self.finalized = true;
        let text = if self.finished {
            self.buffer.clone()
        } else {
            let mut t = String::new();
            std::mem::swap(&mut t, &mut self.buffer);
            t
        };
        if !self.finished {
            let e = event3(
                "output_text.done",
                "type",
                Json::from_str_slice("output_text.done"),
                "index",
                Json::UInt(0),
                "text",
                Json::Text(text.clone()),
            );
            push_event(&mut events, e);
        }
        let e1 = event2(
            "response.output_item.done",
            "type",
            Json::from_str_slice("response.output_item.done"),
            "output_index",
            Json::UInt(0),
        );
        push_event(&mut events, e1);
        let resp = match &self.usage {
            Some(u) => build_response_obj(
                self.resp_id.as_str(),
                self.msg_id.as_str(),
                self.model.as_str(),
                text.as_str(),
                "completed",
                Some(u),
                now,
            ),
            None => build_response_obj(
                self.resp_id.as_str(),
                self.msg_id.as_str(),
                self.model.as_str(),
                text.as_str(),
                "completed",
                None,
                now,
            ),
        };
        let e2 = event2(
            "response.completed",
            "type",
            Json::from_str_slice("response.completed"),
            "response",
            resp,
        );
        push_event(&mut events, e2);
        proof {
            assert(self@ == after_final(c));
            assert(events_view(events@) =~= final_events_view(c, now));
        }
        events
    }

    /// SSE events that must be sent **after** all upstream chunks have been
    /// consumed.
    pub fn final_events(&mut self) -> (r: Vec<(&'static str, Json)>)
        ensures
            final(self)@ == after_final(old(self)@),
            exists|now: u64| events_view(r@) == #[trigger] final_events_view(old(self)@, now),
    {
        let now = clock::unix_now();
        self.final_events_at(now)
    }
}

/// Once the final events have been produced, asking again produces none
/// and changes nothing: a stream is completed at most once.
pub proof fn law_final_events_once(c: ConverterView, now: u64, later: u64)
    ensures
        after_final(c).finalized,
        final_events_view(after_final(c), later) == Seq::<(Seq<char>, JsonView)>::empty(),
        after_final(after_final(c)) == after_final(c),
{
}

/// The buffer holds the concatenation of the delta texts seen, and once a
/// finish reason has been seen a further finish reason adds no event.
pub proof fn law_delta_accumulates(
    c: ConverterView,
    delta: JsonView,
    reason: Option<Seq<char>>,
    now: u64,
)
    ensures
        after_delta(c, delta, reason).buffer == c.buffer + match delta_text(delta) {
            Some(t) => t,
            None => Seq::<char>::empty(),
        },
        c.finished ==> delta_events(c, delta, reason, now) == delta_events(c, delta, None, now),
        after_delta(c, delta, reason).finished == (c.finished || reason is Some),
{
    if delta_text(delta) is None {
        assert(c.buffer + Seq::<char>::empty() =~= c.buffer);
    }
    if c.finished {
        assert(delta_events(c, delta, reason, now) =~= delta_events(c, delta, None, now));
    }
}

/// The converter after the (delta, finish reason) steps, in order.
pub open spec fn after_deltas(c: ConverterView, steps: Seq<(JsonView, Option<Seq<char>>)>) -> ConverterView
    decreases steps.len(),
{
    if steps.len() == 0 {
        c
    } else {
        after_delta(after_deltas(c, steps.drop_last()), steps.last().0, steps.last().1)
    }
}

/// The delta texts of the steps, concatenated.
pub open spec fn delta_texts(steps: Seq<(JsonView, Option<Seq<char>>)>) -> Seq<char>
    decreases steps.len(),
{
    if steps.len() == 0 {
        Seq::empty()
    } else {
        delta_texts(steps.drop_last()) + match delta_text(steps.last().0) {
            Some(t) => t,
            None => Seq::<char>::empty(),
        }
    }
}

/// Step `i` is the first one with a finish reason.
pub open spec fn first_finish(steps: Seq<(JsonView, Option<Seq<char>>)>, i: int) -> bool {
    &&& 0 <= i < steps.len()
    &&& steps[i].1 is Some
    &&& forall|j: int| 0 <= j < i ==> (#[trigger] steps[j]).1 is None
}

/// The events of step `i` of a run, stamped at `nows[i]`.
pub open spec fn step_events(
    c: ConverterView,
    steps: Seq<(JsonView, Option<Seq<char>>)>,
    nows: Seq<u64>,
    i: int,
) -> Seq<(Seq<char>, JsonView)> {
    delta_events(after_deltas(c, steps.take(i)), steps[i].0, steps[i].1, nows[i])
}

proof fn lemma_after_deltas(c: ConverterView, steps: Seq<(JsonView, Option<Seq<char>>)>)
    ensures
        after_deltas(c, steps).buffer == c.buffer + delta_texts(steps),
        after_deltas(c, steps).finished == (c.finished || exists|j: int|
            0 <= j < steps.len() && (#[trigger] steps[j]).1 is Some),
        after_deltas(c, steps).resp_id == c.resp_id,
        after_deltas(c, steps).msg_id == c.msg_id,
        after_deltas(c, steps).model == c.model,
    decreases steps.len(),
{
    if steps.len() > 0 {
        let p = steps.drop_last();
        lemma_after_deltas(c, p);
        assert(c.buffer + delta_texts(p) + match delta_text(steps.last().0) {
            Some(t) => t,
            None => Seq::<char>::empty(),
        } =~= c.buffer + delta_texts(steps));
        if exists|j: int| 0 <= j < p.len() && (#[trigger] p[j]).1 is Some {
            let j = choose|j: int| 0 <= j < p.len() && (#[trigger] p[j]).1 is Some;
            assert(steps[j] == p[j]);
        }
        if exists|j: int| 0 <= j < steps.len() && (#[trigger] steps[j]).1 is Some {
            let j = choose|j: int| 0 <= j < steps.len() && (#[trigger] steps[j]).1 is Some;
            if j < p.len() {
                assert(p[j] == steps[j]);
            }
        }
    }
}

/// Over a whole run of a converter that has not finished (a fresh one),
/// one (delta, finish reason) step after another: the buffer is the
/// concatenation of the delta texts; each step emits its text delta
/// (when the delta carries text), and the step with the first finish
/// reason, and no other, then emits `output_text.done` with all the text
/// up to and including that step, followed by `response.incomplete` unless
/// the reason is `stop`; later finish reasons emit nothing more; and the
/// converter is finished exactly when some step had a finish reason.
pub proof fn law_run_emits_text_once(
    c: ConverterView,
    steps: Seq<(JsonView, Option<Seq<char>>)>,
    nows: Seq<u64>,
)
    requires
        !c.finished,
        nows.len() == steps.len(),
    ensures
        after_deltas(c, steps).buffer == c.buffer + delta_texts(steps),
        after_deltas(c, steps).finished == exists|j: int|
            0 <= j < steps.len() && (#[trigger] steps[j]).1 is Some,
        forall|i: int, k: int| first_finish(steps, i) && first_finish(steps, k) ==> i == k,
        forall|i: int|
            0 <= i < steps.len() ==> #[trigger] step_events(c, steps, nows, i) == text_delta_events(
                steps[i].0,
            ) + if first_finish(steps, i) {
                finish_events(c, c.buffer + delta_texts(steps.take(i + 1)), steps[i].1->0, nows[i])
            } else {
                Seq::<(Seq<char>, JsonView)>::empty()
            },
        forall|i: int, k: int|
            0 <= i < steps.len() && !first_finish(steps, i) && 0 <= k < step_events(
                c,
                steps,
                nows,
                i,
            ).len() ==> (#[trigger] step_events(c, steps, nows, i)[k]).0 != "output_text.done"@,
{
    lemma_after_deltas(c, steps);
    reveal_strlit("output_text.done");
    reveal_strlit("output_text.delta");
    assert forall|i: int, k: int| first_finish(steps, i) && first_finish(steps, k) implies i
        == k by {
        if i < k {
            assert(steps[i].1 is None);
        } else if k < i {
            assert(steps[k].1 is None);
        }
    }
    assert forall|i: int| 0 <= i < steps.len() implies #[trigger] step_events(c, steps, nows, i)
        == text_delta_events(steps[i].0) + if first_finish(steps, i) {
        finish_events(c, c.buffer + delta_texts(steps.take(i + 1)), steps[i].1->0, nows[i])
    } else {
        Seq::<(Seq<char>, JsonView)>::empty()
    } by {
        let p = steps.take(i);
        lemma_after_deltas(c, p);
        let ci = after_deltas(c, p);
        if exists|j: int| 0 <= j < p.len() && (#[trigger] p[j]).1 is Some {
            let j = choose|j: int| 0 <= j < p.len() && (#[trigger] p[j]).1 is Some;
            assert(p[j] == steps[j]);
        }
        if steps[i].1 is Some && !first_finish(steps, i) {
            let j = choose|j: int| 0 <= j < i && (#[trigger] steps[j]).1 is Some;
            assert(p[j] == steps[j]);
            assert(ci.finished);
        }
        let q = steps.take(i + 1);
        assert(q.drop_last() =~= p);
        assert(q.last() == steps[i]);
        let c2 = after_delta(ci, steps[i].0, steps[i].1);
        assert(c2.buffer =~= c.buffer + delta_texts(q));
        if first_finish(steps, i) {
            assert(!ci.finished);
            assert(finish_events(ci, c2.buffer, steps[i].1->0, nows[i]) == finish_events(
                c,
                c.buffer + delta_texts(q),
                steps[i].1->0,
                nows[i],
            ));
        }
    }
    assert forall|i: int, k: int|
        0 <= i < steps.len() && !first_finish(steps, i) && 0 <= k < step_events(
            c,
            steps,
            nows,
            i,
        ).len() implies (#[trigger] step_events(c, steps, nows, i)[k]).0 != "output_text.done"@ by {
        let ev = step_events(c, steps, nows, i);
        assert(ev == text_delta_events(steps[i].0) + Seq::<(Seq<char>, JsonView)>::empty());
        assert("output_text.delta"@.len() != "output_text.done"@.len());
        assert(ev[k].0 == "output_text.delta"@);
    }
}

/// The text of a response object's first output message:
/// `output[0].content[0].text`.
pub open spec fn output_text_of(resp: JsonView) -> Option<Seq<char>> {
    match resp.field("output"@) {
        Some(o) => match o.item(0) {
            Some(msg) => match msg.field("content"@) {
                Some(c) => match c.item(0) {
                    Some(part) => part.field_text("text"@),
                    None => None,
                },
                None => None,
            },
            None => None,
        },
        None => None,
    }
}

proof fn lemma_lookup_at(f: Seq<(Seq<char>, JsonView)>, k: Seq<char>, i: int)
    requires
        0 <= i < f.len(),
        f[i].0 == k,
        forall|j: int| 0 <= j < i ==> #[trigger] f[j].0 != k,
    ensures
        crate::json::lookup(f, k) == Some(f[i].1),
{
    crate::json::lemma_key_index_at(f, k, i);
}

/// A response object has the given status and carries the given text as
/// the text of its first output message.
proof fn lemma_response_obj_fields(
    id: Seq<char>,
    msg_id: Seq<char>,
    model: Seq<char>,
    text: Seq<char>,
    status: Seq<char>,
    usage: Option<JsonView>,
    now: u64,
)
    ensures
        response_obj(id, msg_id, model, text, status, usage, now).field_text("status"@) == Some(
            status,
        ),
        output_text_of(response_obj(id, msg_id, model, text, status, usage, now)) == Some(text),
{
    reveal_strlit("id");
    reveal_strlit("object");
    reveal_strlit("created_at");
    reveal_strlit("status");
    reveal_strlit("model");
    reveal_strlit("output");
    reveal_strlit("usage");
    reveal_strlit("type");
    reveal_strlit("role");
    reveal_strlit("content");
    reveal_strlit("text");
    let base_f = seq![
        ("id"@, JsonView::Text(id)),
        ("object"@, JsonView::Text("response"@)),
        ("created_at"@, JsonView::UInt(now)),
        ("status"@, JsonView::Text(status)),
        ("model"@, JsonView::Text(model)),
        ("output"@, JsonView::Array(seq![message_item(msg_id, text)])),
    ];
    let base = JsonView::Object(base_f);
    assert("id"@ != "status"@ && "object"@ != "status"@ && "created_at"@ != "status"@) by {
        assert("object"@[0] != "status"@[0]);
    }
    assert("id"@ != "output"@ && "object"@ != "output"@ && "created_at"@ != "output"@
        && "status"@ != "output"@ && "model"@ != "output"@) by {
        assert("object"@[1] != "output"@[1]);
        assert("status"@[0] != "output"@[0]);
    }
    assert(base_f[3].0 == "status"@);
    lemma_lookup_at(base_f, "status"@, 3);
    assert(base_f[5].0 == "output"@);
    lemma_lookup_at(base_f, "output"@, 5);
    let msg_f = seq![
        ("type"@, JsonView::Text("message"@)),
        ("id"@, JsonView::Text(msg_id)),
        ("role"@, JsonView::Text("assistant"@)),
        (
            "content"@,
            JsonView::Array(
                seq![
                    JsonView::Object(
                        seq![
                            ("type"@, JsonView::Text("output_text"@)),
                            ("text"@, JsonView::Text(text)),
                            ("annotations"@, JsonView::Array(Seq::empty())),
                        ],
                    ),
                ],
            ),
        ),
    ];
    assert(message_item(msg_id, text) == JsonView::Object(msg_f));
    assert("type"@ != "content"@ && "id"@ != "content"@ && "role"@ != "content"@) by {
        assert("type"@.len() != "content"@.len());
        assert("id"@.len() != "content"@.len());
        assert("role"@.len() != "content"@.len());
    }
    lemma_lookup_at(msg_f, "content"@, 3);
    let part_f = seq![
        ("type"@, JsonView::Text("output_text"@)),
        ("text"@, JsonView::Text(text)),
        ("annotations"@, JsonView::Array(Seq::empty())),
    ];
    assert("type"@ != "text"@) by {
        assert("type"@[1] != "text"@[1]);
    }
    lemma_lookup_at(part_f, "text"@, 1);
    assert(output_text_of(base) == Some(text));
    assert(base.field_text("status"@) == Some(status));
    match usage {
        Some(u) => {
            assert("status"@ != "usage"@) by {
                assert("status"@[0] != "usage"@[0]);
            }
            assert("output"@ != "usage"@) by {
                assert("output"@[0] != "usage"@[0]);
            }
            crate::json::law_assign_then_field(base, "usage"@, u, "status"@);
            crate::json::law_assign_then_field(base, "usage"@, u, "output"@);
        },
        None => {},
    }
}

/// On the first finish reason, the step ends with `output_text.done`
/// carrying all the text so far (the buffer plus this delta's content);
/// when the reason is not `stop`, a `response.incomplete` event follows
/// whose response has the status `incomplete` and carries that same text
/// as its output.
pub proof fn law_incomplete_keeps_text(c: ConverterView, delta: JsonView, r: Seq<char>, now: u64)
    requires
        !c.finished,
    ensures
        ({
            let ev = delta_events(c, delta, Some(r), now);
            let t = c.buffer + match delta.field_text("content"@) {
                Some(s) => s,
                None => Seq::<char>::empty(),
            };
            let done = if r == "stop"@ {
                ev.last()
            } else {
                ev[ev.len() - 2]
            };
            &&& ev.len() >= 1
            &&& done.0 == "output_text.done"@
            &&& done.1.field_text("text"@) == Some(t)
            &&& r != "stop"@ ==> {
                &&& ev.len() >= 2
                &&& ev.last().0 == "response.incomplete"@
                &&& ev.last().1.field("response"@) matches Some(resp) && resp.field_text("status"@)
                    == Some("incomplete"@) && output_text_of(resp) == Some(t)
            }
        }),
{
    reveal_strlit("type");
    reveal_strlit("index");
    reveal_strlit("text");
    reveal_strlit("response");
    let c2 = after_delta(c, delta, Some(r));
    let t = c.buffer + match delta.field_text("content"@) {
        Some(s) => s,
        None => Seq::<char>::empty(),
    };
    assert(c2.buffer =~= t);
    let ev = delta_events(c, delta, Some(r), now);
    let fin = finish_events(c, c2.buffer, r, now);
    assert(ev == text_delta_events(delta) + fin);
    let done_f = seq![
        ("type"@, JsonView::Text("output_text.done"@)),
        ("index"@, JsonView::UInt(0)),
        ("text"@, JsonView::Text(c2.buffer)),
    ];
    assert("type"@ != "text"@) by {
        assert("type"@[1] != "text"@[1]);
    }
    assert("index"@ != "text"@);
    lemma_lookup_at(done_f, "text"@, 2);
    if r != "stop"@ {
        assert(ev[ev.len() - 2] == fin[0]);
        assert(ev.last() == fin[1]);
        let inc_f = seq![
            ("type"@, JsonView::Text("response.incomplete"@)),
            (
                "response"@,
                response_obj(c.resp_id, c.msg_id, c.model, c2.buffer, "incomplete"@, None, now),
            ),
        ];
        assert("type"@ != "response"@) by {
        assert("type"@.len() != "response"@.len());
    }
        lemma_lookup_at(inc_f, "response"@, 1);
        lemma_response_obj_fields(c.resp_id, c.msg_id, c.model, c2.buffer, "incomplete"@, None, now);
    } else {
        assert(ev.last() == fin[0]);
    }
}

/// A delta whose `content` is a non-empty string `s` first emits
/// `output_text.delta` carrying `s`; any other delta emits no
/// `output_text.delta`. Either way the buffer grows by the content string
/// (by nothing when there is none), and a finish reason marks the
/// converter finished.
pub proof fn law_delta_event_carries_text(
    c: ConverterView,
    delta: JsonView,
    reason: Option<Seq<char>>,
    now: u64,
)
    ensures
        ({
            let ev = delta_events(c, delta, reason, now);
            match delta.field_text("content"@) {
                Some(s) => s.len() > 0 ==> ev.len() >= 1 && ev[0].0 == "output_text.delta"@
                    && ev[0].1.field_text("delta"@) == Some(s),
                None => true,
            }
        }),
        (match delta.field_text("content"@) {
            Some(s) => s.len() > 0,
            None => false,
        }) || forall|k: int|
            0 <= k < delta_events(c, delta, reason, now).len() ==> (#[trigger] delta_events(
                c,
                delta,
                reason,
                now,
            )[k]).0 != "output_text.delta"@,
        after_delta(c, delta, reason).buffer == c.buffer + match delta.field_text("content"@) {
            Some(s) => s,
            None => Seq::<char>::empty(),
        },
        after_delta(c, delta, reason).finished == (c.finished || reason is Some),
{
    reveal_strlit("type");
    reveal_strlit("index");
    reveal_strlit("delta");
    reveal_strlit("output_text.delta");
    reveal_strlit("output_text.done");
    reveal_strlit("response.incomplete");
    assert("type"@ != "delta"@ && "index"@ != "delta"@) by {
        assert("type"@.len() != "delta"@.len());
        assert("index"@[0] != "delta"@[0]);
    }
    let ev = delta_events(c, delta, reason, now);
    let c2 = after_delta(c, delta, reason);
    let fin = match reason {
        Some(r) => if !c.finished {
            finish_events(c, c2.buffer, r, now)
        } else {
            Seq::empty()
        },
        None => Seq::empty(),
    };
    assert(ev == text_delta_events(delta) + fin);
    match delta.field_text("content"@) {
        Some(s) => {
            if s.len() > 0 {
                let f = seq![
                    ("type"@, JsonView::Text("output_text.delta"@)),
                    ("index"@, JsonView::UInt(0)),
                    ("delta"@, JsonView::Text(s)),
                ];
                lemma_lookup_at(f, "delta"@, 2);
                assert(ev[0] == text_delta_events(delta)[0]);
            } else {
                assert(c2.buffer =~= c.buffer + s);
            }
        },
        None => {
            assert(c2.buffer =~= c.buffer + Seq::<char>::empty());
        },
    }
    if !(match delta.field_text("content"@) {
        Some(s) => s.len() > 0,
        None => false,
    }) {
        assert(ev =~= fin);
        assert("output_text.done"@.len() != "output_text.delta"@.len());
        assert("response.incomplete"@.len() != "output_text.delta"@.len());
    }
}

/// The final events, unless already produced, end with
/// `response.completed` whose response has the status `completed`, carries
/// the whole buffer as its output text, and reports the usage seen.
pub proof fn law_completed_keeps_text(c: ConverterView, now: u64)
    requires
        !c.finalized,
    ensures
        ({
            let ev = final_events_view(c, now);
            &&& ev.len() >= 2
            &&& ev.last().0 == "response.completed"@
            &&& ev.last().1.field("response"@) matches Some(resp) && resp.field_text("status"@)
                == Some("completed"@) && output_text_of(resp) == Some(c.buffer) && resp.field(
                "usage"@,
            ) == c.usage
        }),
{
    reveal_strlit("type");
    reveal_strlit("response");
    reveal_strlit("usage");
    reveal_strlit("id");
    reveal_strlit("object");
    reveal_strlit("created_at");
    reveal_strlit("status");
    reveal_strlit("model");
    reveal_strlit("output");
    let ev = final_events_view(c, now);
    let resp = response_obj(c.resp_id, c.msg_id, c.model, c.buffer, "completed"@, c.usage, now);
    assert(ev.last() == completed_event(c, c.buffer, now));
    let f = seq![("type"@, JsonView::Text("response.completed"@)), ("response"@, resp)];
    assert("type"@ != "response"@) by {
        assert("type"@.len() != "response"@.len());
    }
    lemma_lookup_at(f, "response"@, 1);
    lemma_response_obj_fields(c.resp_id, c.msg_id, c.model, c.buffer, "completed"@, c.usage, now);
    let base_f = seq![
        ("id"@, JsonView::Text(c.resp_id)),
        ("object"@, JsonView::Text("response"@)),
        ("created_at"@, JsonView::UInt(now)),
        ("status"@, JsonView::Text("completed"@)),
        ("model"@, JsonView::Text(c.model)),
        ("output"@, JsonView::Array(seq![message_item(c.msg_id, c.buffer)])),
    ];
    let base = JsonView::Object(base_f);
    match c.usage {
        Some(u) => {
            crate::json::law_assign_then_field(base, "usage"@, u, "usage"@);
        },
        None => {
            assert forall|j: int| 0 <= j < base_f.len() implies #[trigger] base_f[j].0 != "usage"@ by {
                assert(base_f[j].0.len() != 5 || base_f[j].0[0] != 'u');
            }
            crate::json::lemma_key_index(base_f, "usage"@);
        },
    }
}

/// A message whose role is `developer` comes out with the role `system`,
/// whatever its content; any other role is kept as it is. Array content
/// becomes text, and other content is kept as it is.
pub proof fn law_developer_becomes_system(m: JsonView)
    requires
        m is Object,
    ensures
        m.field_text("role"@) == Some("developer"@) ==> normalized_message(m).field_text("role"@)
            == Some("system"@),
        m.field_text("role"@) != Some("developer"@) ==> normalized_message(m).field("role"@)
            == m.field("role"@),
        match m.field("content"@) {
            Some(c) => if c is Array {
                normalized_message(m).field("content"@) matches Some(JsonView::Text(_))
            } else {
                normalized_message(m).field("content"@) == Some(c)
            },
            None => normalized_message(m).field("content"@) is None,
        },
{
    reveal_strlit("role");
    reveal_strlit("content");
    assert("role"@ != "content"@) by {
        assert("role"@.len() != "content"@.len());
    }
    let is_dev = m.field_text("role"@) == Some("developer"@);
    let m1 = if is_dev {
        m.assign("role"@, JsonView::Text("system"@))
    } else {
        m
    };
    crate::json::law_assign_then_field(m, "role"@, JsonView::Text("system"@), "content"@);
    assert(m1 is Object);
    assert(m1.field("content"@) == m.field("content"@));
    match m1.field("content"@) {
        Some(c) => {
            if c is Array {
                crate::json::law_assign_then_field(
                    m1,
                    "content"@,
                    JsonView::Text(content_text(c)),
                    "role"@,
                );
            }
        },
        None => {},
    }
}

/// Stripping an object body removes every Responses-only field, named
/// here one by one, and keeps the model and the messages.
pub proof fn law_strip_removes_responses_fields(b: JsonView)
    requires
        b is Object,
    ensures
        stripped_body(b).field("input"@) is None,
        stripped_body(b).field("instructions"@) is None,
        stripped_body(b).field("include"@) is None,
        stripped_body(b).field("previous_response_id"@) is None,
        stripped_body(b).field("store"@) is None,
        stripped_body(b).field("stream_options"@) is None,
        stripped_body(b).field("client_metadata"@) is None,
        stripped_body(b).field("prompt_cache_key"@) is None,
        stripped_body(b).field("reasoning"@) is None,
        stripped_body(b).field("tools"@) is None,
        stripped_body(b).field("tool_choice"@) is None,
        stripped_body(b).field("parallel_tool_calls"@) is None,
        stripped_body(b).field("max_output_tokens"@) is None,
        stripped_body(b).field("model"@) == b.field("model"@),
        stripped_body(b).field("messages"@) == b.field("messages"@),
{
    let keys = responses_only_fields();
    let f = b->Object_0;
    assert(keys[0] == "input"@);
    assert(keys[1] == "instructions"@);
    assert(keys[2] == "include"@);
    assert(keys[3] == "previous_response_id"@);
    assert(keys[4] == "store"@);
    assert(keys[5] == "stream_options"@);
    assert(keys[6] == "client_metadata"@);
    assert(keys[7] == "prompt_cache_key"@);
    assert(keys[8] == "reasoning"@);
    assert(keys[9] == "tools"@);
    assert(keys[10] == "tool_choice"@);
    assert(keys[11] == "parallel_tool_calls"@);
    assert(keys[12] == "max_output_tokens"@);
    lemma_without_keys(f, keys, "input"@);
    lemma_without_keys(f, keys, "instructions"@);
    lemma_without_keys(f, keys, "include"@);
    lemma_without_keys(f, keys, "previous_response_id"@);
    lemma_without_keys(f, keys, "store"@);
    lemma_without_keys(f, keys, "stream_options"@);
    lemma_without_keys(f, keys, "client_metadata"@);
    lemma_without_keys(f, keys, "prompt_cache_key"@);
    lemma_without_keys(f, keys, "reasoning"@);
    lemma_without_keys(f, keys, "tools"@);
    lemma_without_keys(f, keys, "tool_choice"@);
    lemma_without_keys(f, keys, "parallel_tool_calls"@);
    lemma_without_keys(f, keys, "max_output_tokens"@);
    reveal_strlit("model");
    reveal_strlit("messages");
    reveal_strlit("input");
    reveal_strlit("instructions");
    reveal_strlit("include");
    reveal_strlit("previous_response_id");
    reveal_strlit("store");
    reveal_strlit("stream_options");
    reveal_strlit("client_metadata");
    reveal_strlit("prompt_cache_key");
    reveal_strlit("reasoning");
    reveal_strlit("tools");
    reveal_strlit("tool_choice");
    reveal_strlit("parallel_tool_calls");
    reveal_strlit("max_output_tokens");
    assert forall|i: int| 0 <= i < keys.len() implies #[trigger] keys[i] != "model"@ && keys[i]
        != "messages"@ by {
        assert(keys[i].len() != 5 || keys[i][0] != 'm' || keys[i][1] != 'o');
        assert(keys[i].len() != 8 || keys[i][0] != 'm' || keys[i][1] != 'e');
    }
    lemma_without_keys(f, keys, "model"@);
    lemma_without_keys(f, keys, "messages"@);
}

/// Stripping a body leaves none of the Responses-only fields and keeps
/// every other field's value.
pub proof fn law_strip_removes_only_listed(b: JsonView, k: Seq<char>)
    requires
        b is Object,
    ensures
        responses_only_fields().contains(k) ==> stripped_body(b).field(k) is None,
        !responses_only_fields().contains(k) ==> stripped_body(b).field(k) == b.field(k),
{
    let f = b->Object_0;
    lemma_without_keys(f, responses_only_fields(), k);
}

proof fn lemma_without_keys(f: Seq<(Seq<char>, JsonView)>, keys: Seq<Seq<char>>, k: Seq<char>)
    ensures
        keys.contains(k) ==> crate::json::lookup(without_keys(f, keys), k) is None,
        !keys.contains(k) ==> crate::json::lookup(without_keys(f, keys), k) == crate::json::lookup(f, k),
    decreases f.len(),
{
    let g = without_keys(f, keys);
    crate::json::lemma_key_index(g, k);
    crate::json::lemma_key_index(f, k);
    if f.len() > 0 {
        let f0 = f.drop_last();
        let g0 = without_keys(f0, keys);
        lemma_without_keys(f0, keys, k);
        crate::json::lemma_key_index(g0, k);
        crate::json::lemma_key_index(f0, k);
        if keys.contains(f.last().0) {
            assert(g == g0);
            if !keys.contains(k) {
                assert(f.last().0 != k);
                if crate::json::key_index(f0, k) >= 0 {
                    let i = crate::json::key_index(f0, k);
                    assert forall|j: int| 0 <= j < i implies #[trigger] f[j].0 != k by {
                        assert(f[j] == f0[j]);
                    }
                    assert(f[i] == f0[i]);
                    crate::json::lemma_key_index_at(f, k, i);
                } else {
                    assert forall|j: int| 0 <= j < f.len() implies #[trigger] f[j].0 != k by {
                        if j < f0.len() {
                            assert(f[j] == f0[j]);
                        }
                    }
                }
            }
        } else {
            assert(g == g0.push(f.last()));
            if keys.contains(k) {
                assert(f.last().0 != k);
                assert forall|j: int| 0 <= j < g.len() implies #[trigger] g[j].0 != k by {
                    if j < g0.len() {
                        assert(g[j] == g0[j]);
                    }
                }
            } else {
                let i0 = crate::json::key_index(g0, k);
                let i1 = crate::json::key_index(f0, k);
                if i0 >= 0 {
                    assert forall|j: int| 0 <= j < i0 implies #[trigger] g[j].0 != k by {
                        assert(g[j] == g0[j]);
                    }
                    assert(g[i0] == g0[i0]);
                    crate::json::lemma_key_index_at(g, k, i0);
                    assert forall|j: int| 0 <= j < i1 implies #[trigger] f[j].0 != k by {
                        assert(f[j] == f0[j]);
                    }
                    assert(f[i1] == f0[i1]);
                    crate::json::lemma_key_index_at(f, k, i1);
                } else {
                    assert forall|j: int| 0 <= j < g0.len() implies #[trigger] g[j].0 != k by {
                        assert(g[j] == g0[j]);
                    }
                    assert forall|j: int| 0 <= j < f0.len() implies #[trigger] f[j].0 != k by {
                        assert(f[j] == f0[j]);
                    }
                    if f.last().0 == k {
                        crate::json::lemma_key_index_at(g, k, g0.len() as int);
                        crate::json::lemma_key_index_at(f, k, f0.len() as int);
                    } else {
                        assert forall|j: int| 0 <= j < g.len() implies #[trigger] g[j].0 != k by {
                            if j < g0.len() {
                                assert(g[j] == g0[j]);
                            }
                        }
                        assert forall|j: int| 0 <= j < f.len() implies #[trigger] f[j].0 != k by {
                            if j < f0.len() {
                                assert(f[j] == f0[j]);
                            }
                        }
                    }
                }
            }
        }
    }
}

} // verus!
