//! The decisions of the proxy's HTTP endpoints: the built-in model list,
//! upstream URLs, which models a request is routed to and in what order,
//! and the JSON bodies of the replies the proxy writes itself.
use vstd::prelude::*;
use crate::json::{fields_view, items_view, push_field, push_item, Json, JsonView};
use crate::model_pool::{
    enabled_by_priority, is_priority_order, lemma_priority_order_exists, name_index, ranks_before,
    EntryView,
    ModelPool, ModelPoolEntry,
};
use crate::text;
use vstd::string::StringSliceAdditionalSpecFns;
use vstd::utf8::{decode_utf8, encode_utf8, encode_utf8_decode_utf8, is_char_boundary};

verus! {

/// The free models served by the upstream API, in priority order.
pub open spec fn builtin_models() -> Seq<Seq<char>> {
    seq![
        "deepseek-v4-flash-free"@,
        "big-pickle"@,
        "nemotron-3-ultra-free"@,
        "north-mini-code-free"@,
        "mimo-v2.5-free"@,
    ]
}

/// The free models served by the upstream API, in priority order.
pub fn models() -> (r: Vec<&'static str>)
    ensures
        r@.map_values(|s: &str| s@) == builtin_models(),
{
    let r = vec![
        "deepseek-v4-flash-free",
        "big-pickle",
        "nemotron-3-ultra-free",
        "north-mini-code-free",
        "mimo-v2.5-free",
    ];
    assert(r@.map_values(|s: &str| s@) =~= builtin_models());
    r
}

/// The built-in models followed by each custom model not already listed.
pub open spec fn models_with(custom: Seq<Seq<char>>) -> Seq<Seq<char>>
    decreases custom.len(),
{
    if custom.len() == 0 {
        builtin_models()
    } else {
        let r = models_with(custom.drop_last());
        if r.contains(custom.last()) {
            r
        } else {
            r.push(custom.last())
        }
    }
}

pub open spec fn strings_of(s: Seq<String>) -> Seq<Seq<char>> {
    s.map_values(|x: String| x@)
}

/// `s` without its trailing slashes.
pub open spec fn trim_slashes(s: Seq<char>) -> Seq<char>
    decreases s.len(),
{
    if s.len() > 0 && s.last() == '/' {
        trim_slashes(s.drop_last())
    } else {
        s
    }
}

/// `s` without a final `/v1`.
pub open spec fn strip_v1(s: Seq<char>) -> Seq<char> {
    if s.len() >= 3 && s.subrange(s.len() - 3, s.len() as int) == "/v1"@ {
        s.subrange(0, s.len() - 3)
    } else {
        s
    }
}

/// The URL of `path` at a provider whose base URL may end in slashes and
/// `/v1`, so that `/v1` is not doubled.
pub open spec fn api_url(base: Seq<char>, path: Seq<char>) -> Seq<char> {
    strip_v1(trim_slashes(base)) + path
}

/// Strip trailing `/v1` from base_url to avoid double `/v1` when appending
/// API paths.
pub fn build_api_url(base_url: &str, path: &str) -> (r: String)
    ensures
        r@ == api_url(base_url@, path@),
{
    let mut n = base_url.unicode_len();
    assert(base_url@.subrange(0, n as int) =~= base_url@);
    while n > 0 && base_url.get_char(n - 1) == '/'
        invariant
            n <= base_url@.len(),
            trim_slashes(base_url@.subrange(0, n as int)) == trim_slashes(base_url@),
        decreases n,
    {
        assert(base_url@.subrange(0, n as int).drop_last() =~= base_url@.subrange(0, n - 1));
        n = n - 1;
    }
    assert(trim_slashes(base_url@.subrange(0, n as int)) == base_url@.subrange(0, n as int));
    let trimmed = base_url.substring_char(0, n);
    proof {
        reveal_strlit("/v1");
    }
    let base = if n >= 3 && text::str_eq(trimmed.substring_char(n - 3, n), "/v1") {
        trimmed.substring_char(0, n - 3)
    } else {
        trimmed
    };
    text::concat_strs(base, path)
}

/// The model list: built-in models first, then each custom model not
/// already listed.
pub fn get_all_models(custom_models: &[String]) -> (r: Vec<String>)
    ensures
        strings_of(r@) == models_with(strings_of(custom_models@)),
{
    let builtin = models();
    let mut all: Vec<String> = Vec::new();
    let mut i: usize = 0;
    while i < builtin.len()
        invariant
            i <= builtin@.len(),
            builtin@.map_values(|s: &str| s@) == builtin_models(),
            strings_of(all@) == builtin_models().take(i as int),
        decreases builtin@.len() - i,
    {
        assert(builtin_models()[i as int] == builtin@[i as int]@);
        let ghost before = all@;
        let x = text::owned(builtin[i]);
        all.push(x);
        assert(all@ == before.push(x));
        assert(strings_of(all@) =~= strings_of(before).push(x@));
        assert(strings_of(all@) =~= builtin_models().take(i + 1));
        i = i + 1;
    }
    assert(builtin_models().take(builtin@.len() as int) =~= builtin_models());
    let ghost cs = strings_of(custom_models@);
    let mut k: usize = 0;
    while k < custom_models.len()
        invariant
            k <= custom_models@.len(),
            cs == strings_of(custom_models@),
            strings_of(all@) == models_with(cs.take(k as int)),
        decreases custom_models@.len() - k,
    {
        assert(cs.take(k + 1).drop_last() =~= cs.take(k as int));
        assert(cs.take(k + 1).last() == custom_models@[k as int]@);
        if !crate::model_pool::contains_str(&all, custom_models[k].as_str()) {
            all.push(custom_models[k].clone());
            assert(strings_of(all@) =~= models_with(cs.take(k + 1)));
        }
        k = k + 1;
    }
    assert(cs.take(custom_models@.len() as int) =~= cs);
    all
}

/// Where one attempt of a request goes: the upstream model name and, for a
/// custom provider, its base URL, key and API format (all empty for the
/// built-in provider).
pub struct Route {
    pub model: String,
    pub base_url: String,
    pub api_key: String,
    pub api_format: String,
}

pub struct RouteView {
    pub model: Seq<char>,
    pub base_url: Seq<char>,
    pub api_key: Seq<char>,
    pub api_format: Seq<char>,
}

impl View for Route {
    type V = RouteView;

    open spec fn view(&self) -> RouteView {
        RouteView {
            model: self.model@,
            base_url: self.base_url@,
            api_key: self.api_key@,
            api_format: self.api_format@,
        }
    }
}

pub open spec fn routes_view(s: Seq<Route>) -> Seq<RouteView> {
    s.map_values(|r: Route| r@)
}

/// The route of a pool entry: a custom provider when it has a base URL,
/// otherwise the built-in provider.
pub open spec fn route_of(e: EntryView) -> RouteView {
    if e.base_url.len() > 0 {
        RouteView {
            model: e.model_name,
            base_url: e.base_url,
            api_key: e.api_key,
            api_format: e.api_format,
        }
    } else {
        RouteView {
            model: e.model_name,
            base_url: Seq::empty(),
            api_key: Seq::empty(),
            api_format: Seq::empty(),
        }
    }
}

/// The built-in provider's route for a model name.
pub open spec fn direct_route(model: Seq<char>) -> RouteView {
    RouteView {
        model: model,
        base_url: Seq::empty(),
        api_key: Seq::empty(),
        api_format: Seq::empty(),
    }
}

/// The routes tried for a request, in order: for the model name
/// `ModelPool`, every enabled entry by priority; for another name, the
/// enabled entry called so (display or model name); and when that leaves
/// nothing, the name itself at the built-in provider.
pub open spec fn routes_for(es: Seq<EntryView>, model: Seq<char>) -> Seq<RouteView> {
    let rs = if model == "ModelPool"@ {
        enabled_by_priority(es).map_values(|i: int| route_of(es[i]))
    } else {
        let i = name_index(es, model);
        if i >= 0 && es[i].enabled {
            seq![route_of(es[i])]
        } else {
            Seq::empty()
        }
    };
    if rs.len() == 0 {
        seq![direct_route(model)]
    } else {
        rs
    }
}

fn route_of_entry(e: &ModelPoolEntry) -> (r: Route)
    ensures
        r@ == route_of(e@),
{
    if e.base_url.as_str().unicode_len() > 0 {
        Route {
            model: e.model_name.clone(),
            base_url: e.base_url.clone(),
            api_key: e.api_key.clone(),
            api_format: e.api_format.clone(),
        }
    } else {
        Route {
            model: e.model_name.clone(),
            base_url: String::new(),
            api_key: String::new(),
            api_format: String::new(),
        }
    }
}

fn push_route(v: &mut Vec<Route>, r: Route)
    ensures
        routes_view(final(v)@) == routes_view(old(v)@).push(r@),
{
    v.push(r);
    assert(routes_view(v@) =~= routes_view(old(v)@).push(r@));
}

/// The routes tried for a request naming `model`, in order (see
/// [`routes_for`]).
pub fn resolve_routes(pool: &ModelPool, model: &str) -> (r: Vec<Route>)
    ensures
        routes_view(r@) == routes_for(pool@.entries, model@),
{
    let ghost es = pool@.entries;
    let mut routes: Vec<Route> = Vec::new();
    if text::str_eq(model, "ModelPool") {
        let enabled = pool.get_enabled();
        let ghost ord = enabled_by_priority(es);
        let mut k: usize = 0;
        while k < enabled.len()
            invariant
                k <= enabled@.len(),
                enabled@.len() == ord.len(),
                is_priority_order(es, ord),
                forall|m: int| 0 <= m < enabled@.len() ==> (#[trigger] enabled@[m])@ == es[ord[m]],
                routes_view(routes@) == ord.take(k as int).map_values(|i: int| route_of(es[i])),
            decreases enabled@.len() - k,
        {
            let ghost before = routes_view(routes@);
            push_route(&mut routes, route_of_entry(enabled[k]));
            assert(routes_view(routes@) =~= ord.take(k + 1).map_values(|i: int| route_of(es[i])));
            k = k + 1;
        }
        assert(ord.take(ord.len() as int) =~= ord);
    } else {
        match pool.get_by_name(model) {
            Some(e) => {
                if e.enabled {
                    push_route(&mut routes, route_of_entry(e));
                    assert(routes_view(routes@) =~= seq![route_of(es[name_index(es, model@)])]);
                } else {
                    assert(routes_view(routes@) =~= Seq::<RouteView>::empty());
                }
            },
            None => {
                assert(routes_view(routes@) =~= Seq::<RouteView>::empty());
            },
        }
    }
    if routes.len() == 0 {
        push_route(
            &mut routes,
            Route {
                model: text::owned(model),
                base_url: String::new(),
                api_key: String::new(),
                api_format: String::new(),
            },
        );
        assert(routes_view(routes@) =~= seq![direct_route(model@)]);
    }
    routes
}

/// A request for a model other than `ModelPool` goes to the first pool
/// entry called so (by display name or model name) when that entry is
/// enabled, as one route that sends the entry's upstream model name to the
/// entry's provider (its URL, key and format when it has a URL, the
/// built-in provider otherwise); when no entry is called so, or the first
/// one is disabled, the name itself goes to the built-in provider. With
/// `ModelPool`, every route sends its entry's upstream model name.
pub proof fn law_route_sends_model_name(es: Seq<EntryView>, model: Seq<char>, i: int)
    ensures
        model != "ModelPool"@ && 0 <= i < es.len() && (es[i].name == model || es[i].model_name
            == model) && (forall|j: int|
            0 <= j < i ==> (#[trigger] es[j]).name != model && es[j].model_name != model)
            && es[i].enabled ==> {
            &&& routes_for(es, model).len() == 1
            &&& routes_for(es, model)[0].model == es[i].model_name
            &&& routes_for(es, model)[0].base_url == es[i].base_url
            &&& es[i].base_url.len() > 0 ==> routes_for(es, model)[0].api_key == es[i].api_key
                && routes_for(es, model)[0].api_format == es[i].api_format
            &&& es[i].base_url.len() == 0 ==> routes_for(es, model)[0].api_key.len() == 0
                && routes_for(es, model)[0].api_format.len() == 0
        },
        model != "ModelPool"@ && (forall|j: int|
            0 <= j < es.len() ==> (#[trigger] es[j]).name != model && es[j].model_name != model)
            ==> routes_for(es, model).len() == 1 && routes_for(es, model)[0].model == model
            && routes_for(es, model)[0].base_url.len() == 0,
        model == "ModelPool"@ && enabled_by_priority(es).len() > 0 ==> forall|k: int|
            0 <= k < routes_for(es, model).len() ==> (#[trigger] routes_for(es, model)[k]).model
                == es[enabled_by_priority(es)[k]].model_name && routes_for(es, model)[k].base_url
                == es[enabled_by_priority(es)[k]].base_url,
{
    crate::seqs::lemma_first_index(es, crate::model_pool::has_name(model));
    if model != "ModelPool"@ && 0 <= i < es.len() && (es[i].name == model || es[i].model_name
        == model) && (forall|j: int|
        0 <= j < i ==> (#[trigger] es[j]).name != model && es[j].model_name != model) {
        assert forall|j: int| 0 <= j < i implies !crate::model_pool::has_name(model)(
            #[trigger] es[j],
        ) by {
            assert(es[j].name != model && es[j].model_name != model);
        }
        crate::seqs::lemma_first_index_at(es, crate::model_pool::has_name(model), i);
    }
    if model != "ModelPool"@ && (forall|j: int|
        0 <= j < es.len() ==> (#[trigger] es[j]).name != model && es[j].model_name != model) {
        assert forall|j: int| 0 <= j < es.len() implies !crate::model_pool::has_name(model)(
            #[trigger] es[j],
        ) by {
            assert(es[j].name != model && es[j].model_name != model);
        }
        crate::seqs::lemma_first_index_none(es, crate::model_pool::has_name(model));
    }
}

/// Every request has at least one route; with `ModelPool` and some entry
/// enabled, the routes are those of the enabled entries, each ranked before
/// the next (lower priority value first, pool order among equals).
pub proof fn law_routes_follow_priority(es: Seq<EntryView>, model: Seq<char>)
    ensures
        routes_for(es, model).len() >= 1,
        model == "ModelPool"@ && enabled_by_priority(es).len() > 0 ==> {
            &&& routes_for(es, model).len() == enabled_by_priority(es).len()
            &&& forall|k: int|
                0 <= k < routes_for(es, model).len() ==> #[trigger] routes_for(es, model)[k]
                    == route_of(es[enabled_by_priority(es)[k]]) && es[enabled_by_priority(
                    es,
                )[k]].enabled
            &&& forall|k: int, l: int|
                0 <= k < l < enabled_by_priority(es).len() ==> ranks_before(
                    es,
                    #[trigger] enabled_by_priority(es)[k],
                    #[trigger] enabled_by_priority(es)[l],
                )
        },
{
    lemma_priority_order_exists(es);
}

/// The reason recorded when an attempt on `model` fails with `err`.
pub fn failover_reason(model: &str, err: &str) -> (r: String)
    ensures
        r@ == model@ + ": "@ + err@,
{
    let mut s = text::owned(model);
    s.append(": ");
    s.append(err);
    s
}

/// `{"error": {"message": message, "type": kind}}`.
pub open spec fn error_body_view(message: Seq<char>, kind: Seq<char>) -> JsonView {
    JsonView::Object(
        seq![
            (
                "error"@,
                JsonView::Object(
                    seq![("message"@, JsonView::Text(message)), ("type"@, JsonView::Text(kind))],
                ),
            ),
        ],
    )
}

/// The body of an error reply: `{"error": {"message": .., "type": ..}}`
/// (a failed fail-over is `failover_error`, a bad key `auth_error`).
pub fn error_body(message: &str, kind: &str) -> (r: Json)
    ensures
        r@ == error_body_view(message@, kind@),
{
    let mut inner: Vec<(String, Json)> = Vec::new();
    push_field(&mut inner, "message", Json::from_str_slice(message));
    push_field(&mut inner, "type", Json::from_str_slice(kind));
    let ghost iv = fields_view(inner@);
    let mut outer: Vec<(String, Json)> = Vec::new();
    push_field(&mut outer, "error", Json::object(inner));
    assert(iv =~= seq![("message"@, JsonView::Text(message@)), ("type"@, JsonView::Text(kind@))]);
    assert(fields_view(outer@) =~= seq![("error"@, JsonView::Object(iv))]);
    Json::object(outer)
}

/// The body of the reply to a chat completion without a model:
/// `{"error": {"message": "Missing model field"}}`.
pub fn missing_model_body() -> (r: Json)
    ensures
        r@ == JsonView::Object(
            seq![
                (
                    "error"@,
                    JsonView::Object(seq![("message"@, JsonView::Text("Missing model field"@))]),
                ),
            ],
        ),
{
    let mut inner: Vec<(String, Json)> = Vec::new();
    push_field(&mut inner, "message", Json::from_str_slice("Missing model field"));
    let ghost iv = fields_view(inner@);
    let mut outer: Vec<(String, Json)> = Vec::new();
    push_field(&mut outer, "error", Json::object(inner));
    assert(iv =~= seq![("message"@, JsonView::Text("Missing model field"@))]);
    assert(fields_view(outer@) =~= seq![("error"@, JsonView::Object(iv))]);
    Json::object(outer)
}

/// The model a request names, when its `model` field is a string.
pub fn requested_model(body: &Json) -> (r: Option<String>)
    ensures
        match r {
            Some(m) => body@.field_text("model"@) == Some(m@),
            None => body@.field_text("model"@) is None,
        },
{
    match body.get("model") {
        Some(m) => match m.as_str() {
            Some(s) => Some(text::owned(s)),
            None => None,
        },
        None => None,
    }
}

/// Whether a request asks for streaming: its `stream` field when that is a
/// boolean, otherwise false.
pub fn requested_stream(body: &Json) -> (r: bool)
    ensures
        r == match body@.field("stream"@) {
            Some(v) => v.boolean() == Some(true),
            None => false,
        },
{
    match body.get("stream") {
        Some(v) => match v.as_bool() {
            Some(b) => b,
            None => false,
        },
        None => false,
    }
}

/// The messages of a chat completion request: its `messages` field, or an
/// empty array.
pub fn requested_messages(body: &Json) -> (r: Json)
    ensures
        r@ == match body@.field("messages"@) {
            Some(v) => v,
            None => JsonView::Array(Seq::empty()),
        },
{
    match body.get("messages") {
        Some(v) => v.deep_clone(),
        None => {
            let empty: Vec<Json> = Vec::new();
            assert(items_view(empty@) =~= Seq::<JsonView>::empty());
            Json::array(empty)
        },
    }
}

/// The entry of one model in the model list.
pub open spec fn model_item_view(id: Seq<char>) -> JsonView {
    JsonView::Object(
        seq![
            ("id"@, JsonView::Text(id)),
            ("object"@, JsonView::Text("model"@)),
            ("created"@, JsonView::UInt(1779000000)),
            ("owned_by"@, JsonView::Text("free"@)),
        ],
    )
}

/// The body of `GET /v1/models`: every model of `models_with(custom)`.
pub open spec fn models_list_view(custom: Seq<Seq<char>>) -> JsonView {
    JsonView::Object(
        seq![
            ("object"@, JsonView::Text("list"@)),
            (
                "data"@,
                JsonView::Array(models_with(custom).map_values(|m: Seq<char>| model_item_view(m))),
            ),
        ],
    )
}

fn model_item(id: &str) -> (r: Json)
    ensures
        r@ == model_item_view(id@),
{
    let mut f: Vec<(String, Json)> = Vec::new();
    push_field(&mut f, "id", Json::from_str_slice(id));
    push_field(&mut f, "object", Json::from_str_slice("model"));
    push_field(&mut f, "created", Json::UInt(1779000000));
    push_field(&mut f, "owned_by", Json::from_str_slice("free"));
    assert(fields_view(f@) =~= seq![
        ("id"@, JsonView::Text(id@)),
        ("object"@, JsonView::Text("model"@)),
        ("created"@, JsonView::UInt(1779000000)),
        ("owned_by"@, JsonView::Text("free"@)),
    ]);
    Json::object(f)
}

/// The body of `GET /v1/models`.
pub fn models_list_body(custom_models: &[String]) -> (r: Json)
    ensures
        r@ == models_list_view(strings_of(custom_models@)),
{
    let all = get_all_models(custom_models);
    let ghost ms = strings_of(all@);
    let mut data: Vec<Json> = Vec::new();
    let mut i: usize = 0;
    while i < all.len()
        invariant
            i <= all@.len(),
            ms == strings_of(all@),
            items_view(data@) == ms.take(i as int).map_values(|m: Seq<char>| model_item_view(m)),
        decreases all@.len() - i,
    {
        push_item(&mut data, model_item(all[i].as_str()));
        assert(items_view(data@) =~= ms.take(i + 1).map_values(|m: Seq<char>| model_item_view(m)));
        i = i + 1;
    }
    assert(ms.take(all@.len() as int) =~= ms);
    let mut f: Vec<(String, Json)> = Vec::new();
    push_field(&mut f, "object", Json::from_str_slice("list"));
    let ghost dv = items_view(data@);
    push_field(&mut f, "data", Json::array(data));
    assert(fields_view(f@) =~= seq![
        ("object"@, JsonView::Text("list"@)),
        ("data"@, JsonView::Array(dv)),
    ]);
    Json::object(f)
}

/// The body of `GET /health`.
pub open spec fn health_view() -> JsonView {
    JsonView::Object(
        seq![
            ("status"@, JsonView::Text("ok"@)),
            ("version"@, JsonView::Text("v9"@)),
            ("models"@, JsonView::UInt(builtin_models().len() as u64)),
            (
                "endpoints"@,
                JsonView::Array(
                    seq![
                        JsonView::Text("/v1/chat/completions"@),
                        JsonView::Text("/v1/messages"@),
                        JsonView::Text("/v1/models"@),
                    ],
                ),
            ),
        ],
    )
}

/// The body of `GET /health`.
pub fn health_body() -> (r: Json)
    ensures
        r@ == health_view(),
{
    let n = models().len();
    let mut endpoints: Vec<Json> = Vec::new();
    push_item(&mut endpoints, Json::from_str_slice("/v1/chat/completions"));
    push_item(&mut endpoints, Json::from_str_slice("/v1/messages"));
    push_item(&mut endpoints, Json::from_str_slice("/v1/models"));
    let ghost ev = items_view(endpoints@);
    let mut f: Vec<(String, Json)> = Vec::new();
    push_field(&mut f, "status", Json::from_str_slice("ok"));
    push_field(&mut f, "version", Json::from_str_slice("v9"));
    push_field(&mut f, "models", Json::UInt(n as u64));
    push_field(&mut f, "endpoints", Json::array(endpoints));
    assert(ev =~= seq![
        JsonView::Text("/v1/chat/completions"@),
        JsonView::Text("/v1/messages"@),
        JsonView::Text("/v1/models"@),
    ]);
    assert(fields_view(f@) =~= seq![
        ("status"@, JsonView::Text("ok"@)),
        ("version"@, JsonView::Text("v9"@)),
        ("models"@, JsonView::UInt(builtin_models().len() as u64)),
        ("endpoints"@, JsonView::Array(ev)),
    ]);
    Json::object(f)
}

/// The failure text of an upstream reply: `"<status>: <text>"` unless the
/// status is 200.
pub open spec fn status_failure_view(status: u16, text: Seq<char>) -> Option<Seq<char>> {
    if status != 200 {
        Some(crate::text::dec_min(status as nat) + ": "@ + text)
    } else {
        None
    }
}

/// The failure of an upstream reply whose body was not read as JSON:
/// `"<status>: <body text>"` unless the status is 200.
pub fn status_failure(status: u16, body_text: &str) -> (r: Option<String>)
    ensures
        crate::json::opt_string_view(r) == status_failure_view(status, body_text@),
{
    if status != 200 {
        let mut s = text::dec_min_string(status as u64);
        s.append(": ");
        s.append(body_text);
        Some(s)
    } else {
        None
    }
}

/// The failure of a JSON reply from the built-in provider: unless the
/// status is 200 and the body reports no error, `"<status>: <message>"`
/// with the message read from the body.
pub fn reply_failure(status: u16, body: &Json) -> (r: Option<String>)
    ensures
        crate::json::opt_string_view(r) == (if status != 200 || crate::zen::reports_error(body@) {
            Some(crate::text::dec_min(status as nat) + ": "@ + crate::zen::error_message(body@))
        } else {
            None
        }),
{
    if status != 200 || crate::zen::ZenClient::is_error(body) {
        let msg = crate::zen::ZenClient::extract_error(body);
        let mut s = text::dec_min_string(status as u64);
        s.append(": ");
        s.append(msg.as_str());
        Some(s)
    } else {
        None
    }
}

/// The failure of a JSON reply from a custom provider (whose status was
/// 200): when the body has an `error` field, `"<status>: <message>"` with
/// `error.message`, or "Unknown error".
pub fn custom_reply_failure(status: u16, body: &Json) -> (r: Option<String>)
    ensures
        crate::json::opt_string_view(r) == (match body@.field("error"@) {
            Some(e) => Some(
                crate::text::dec_min(status as nat) + ": "@ + match e.field_text("message"@) {
                    Some(m) => m,
                    None => "Unknown error"@,
                },
            ),
            None => None,
        }),
{
    match body.get("error") {
        Some(e) => {
            let msg = match e.get("message") {
                Some(m) => match m.as_str() {
                    Some(t) => text::owned(t),
                    None => text::owned("Unknown error"),
                },
                None => text::owned("Unknown error"),
            };
            let mut s = text::dec_min_string(status as u64);
            s.append(": ");
            s.append(msg.as_str());
            Some(s)
        },
        None => None,
    }
}

/// The first 100 characters of a reply text.
pub open spec fn preview_text(t: Seq<char>) -> Seq<char> {
    if t.len() <= 100 {
        t
    } else {
        t.subrange(0, 100)
    }
}

/// The preview of a reply text shown by the speed test: its first 100
/// characters.
pub fn response_preview(text: &str) -> (r: String)
    ensures
        r@ == preview_text(text@),
{
    text::take_chars(text, 100)
}

/// The one message a speed test sends.
pub open spec fn speed_test_messages_view() -> JsonView {
    JsonView::Array(
        seq![
            JsonView::Object(
                seq![
                    ("role"@, JsonView::Text("user"@)),
                    ("content"@, JsonView::Text("Reply with exactly 'OK' and nothing else."@)),
                ],
            ),
        ],
    )
}

/// The body of a speed test request: the model and the test message,
/// with `max_tokens` 50 in the Anthropic format and `stream` false
/// otherwise.
pub open spec fn speed_test_body(model: Seq<char>, is_anthropic: bool) -> JsonView {
    if is_anthropic {
        JsonView::Object(
            seq![
                ("model"@, JsonView::Text(model)),
                ("messages"@, speed_test_messages_view()),
                ("max_tokens"@, JsonView::UInt(50)),
            ],
        )
    } else {
        JsonView::Object(
            seq![
                ("model"@, JsonView::Text(model)),
                ("messages"@, speed_test_messages_view()),
                ("stream"@, JsonView::Bool(false)),
            ],
        )
    }
}

/// The endpoint a speed test calls at a custom provider.
pub open spec fn speed_test_path(is_anthropic: bool) -> Seq<char> {
    if is_anthropic {
        "/v1/messages"@
    } else {
        "/v1/chat/completions"@
    }
}

/// The messages of a speed test: one user message asking for "OK".
pub fn speed_test_messages() -> (r: Json)
    ensures
        r@ == speed_test_messages_view(),
{
    let mut m: Vec<(String, Json)> = Vec::new();
    push_field(&mut m, "role", Json::from_str_slice("user"));
    push_field(&mut m, "content", Json::from_str_slice("Reply with exactly 'OK' and nothing else."));
    let ghost mv = fields_view(m@);
    let mut items: Vec<Json> = Vec::new();
    push_item(&mut items, Json::object(m));
    assert(mv =~= seq![
        ("role"@, JsonView::Text("user"@)),
        ("content"@, JsonView::Text("Reply with exactly 'OK' and nothing else."@)),
    ]);
    assert(items_view(items@) =~= seq![JsonView::Object(mv)]);
    Json::array(items)
}

/// The request of a speed test against a custom provider: its URL, its
/// body, and the name and value of the header that carries the key
/// (`x-api-key` in the Anthropic format, `Authorization: Bearer ..`
/// otherwise).
pub fn speed_test_request(model_name: &str, base_url: &str, api_key: &str, api_format: &str) -> (r: (
    String,
    Json,
    String,
    String,
))
    ensures
        r.0@ == api_url(base_url@, speed_test_path(api_format@ == "anthropic"@)),
        r.1@ == speed_test_body(model_name@, api_format@ == "anthropic"@),
        api_format@ == "anthropic"@ ==> r.2@ == "x-api-key"@ && r.3@ == api_key@,
        api_format@ != "anthropic"@ ==> r.2@ == "Authorization"@ && r.3@ == "Bearer "@ + api_key@,
{
    let is_anthropic = text::str_eq(api_format, "anthropic");
    let url = if is_anthropic {
        build_api_url(base_url, "/v1/messages")
    } else {
        build_api_url(base_url, "/v1/chat/completions")
    };
    let mut f: Vec<(String, Json)> = Vec::new();
    push_field(&mut f, "model", Json::from_str_slice(model_name));
    let msgs = speed_test_messages();
    let ghost mv = msgs@;
    push_field(&mut f, "messages", msgs);
    if is_anthropic {
        push_field(&mut f, "max_tokens", Json::UInt(50));
    } else {
        push_field(&mut f, "stream", Json::Bool(false));
    }
    proof {
        if is_anthropic {
            assert(fields_view(f@) =~= seq![
                ("model"@, JsonView::Text(model_name@)),
                ("messages"@, mv),
                ("max_tokens"@, JsonView::UInt(50)),
            ]);
        } else {
            assert(fields_view(f@) =~= seq![
                ("model"@, JsonView::Text(model_name@)),
                ("messages"@, mv),
                ("stream"@, JsonView::Bool(false)),
            ]);
        }
    }
    let body = Json::object(f);
    if is_anthropic {
        (url, body, text::owned("x-api-key"), text::owned(api_key))
    } else {
        (url, body, text::owned("Authorization"), text::concat_strs("Bearer ", api_key))
    }
}

/// The detail of a failed speed test reply: the body text, cut to its
/// first 150 bytes and marked with `...` when it is longer.
pub open spec fn http_detail(t: Seq<char>) -> Seq<char> {
    if encode_utf8(t).len() > 150 {
        decode_utf8(encode_utf8(t).subrange(0, 150)) + "..."@
    } else {
        t
    }
}

/// The error of a speed test whose reply had a failure status:
/// `HTTP <status>: <detail>`. A body longer than 150 bytes must not have
/// a character straddling byte 150.
pub fn speed_test_http_error(status: u16, body_text: &str) -> (r: String)
    requires
        body_text.spec_bytes().len() > 150 ==> is_char_boundary(encode_utf8(body_text@), 150),
    ensures
        r@ == "HTTP "@ + text::dec_min(status as nat) + ": "@ + http_detail(body_text@),
{
    let mut s = text::owned("HTTP ");
    let code = text::dec_min_string(status as u64);
    s.append(code.as_str());
    s.append(": ");
    let nbytes = body_text.as_bytes().len();
    if nbytes > 150 {
        let (head, _rest) = body_text.split_at(150);
        proof {
            encode_utf8_decode_utf8(head@);
            assert(head.spec_bytes() =~= encode_utf8(body_text@).subrange(0, 150));
            assert(head@ == decode_utf8(encode_utf8(body_text@).subrange(0, 150)));
        }
        let ghost pre = s@;
        s.append(head);
        s.append("...");
        assert(s@ =~= pre + (head@ + "..."@));
    } else {
        s.append(body_text);
    }
    s
}

/// A count in a reply's `usage` object, or 0 when it is missing or not an
/// unsigned integer.
pub open spec fn usage_count(reply: JsonView, key: Seq<char>) -> u64 {
    match reply.field("usage"@) {
        Some(u) => match u.field_unsigned(key) {
            Some(n) => n,
            None => 0,
        },
        None => 0,
    }
}

/// The step `/0` of a JSON pointer: element 0 of an array, or the field
/// named `0` of an object.
pub open spec fn pointer_zero(v: JsonView) -> Option<JsonView> {
    match v {
        JsonView::Object(f) => crate::json::lookup(f, "0"@),
        JsonView::Array(_) => v.item(0),
        _ => None,
    }
}

/// The reply text of a speed test: `content/0/text` in the Anthropic
/// format, `choices/0/message/content` otherwise; empty when it is not a
/// string.
pub open spec fn reply_text(is_anthropic: bool, reply: JsonView) -> Seq<char> {
    let t = if is_anthropic {
        match reply.field("content"@) {
            Some(c) => match pointer_zero(c) {
                Some(x) => x.field_text("text"@),
                None => None,
            },
            None => None,
        }
    } else {
        match reply.field("choices"@) {
            Some(c) => match pointer_zero(c) {
                Some(x) => match x.field("message"@) {
                    Some(m) => m.field_text("content"@),
                    None => None,
                },
                None => None,
            },
            None => None,
        }
    };
    match t {
        Some(s) => s,
        None => Seq::empty(),
    }
}

/// What a speed test reads from a successful reply: total tokens,
/// completion tokens and the preview. In the Anthropic format the total is
/// input plus output tokens and the completion tokens are the output
/// tokens; otherwise they are `total_tokens` and `completion_tokens`.
pub open spec fn speed_figures(is_anthropic: bool, reply: JsonView) -> (u64, u64, Seq<char>) {
    if is_anthropic {
        let it = usage_count(reply, "input_tokens"@);
        let ot = usage_count(reply, "output_tokens"@);
        ((it + ot) as u64, ot, preview_text(reply_text(true, reply)))
    } else {
        (
            usage_count(reply, "total_tokens"@),
            usage_count(reply, "completion_tokens"@),
            preview_text(reply_text(false, reply)),
        )
    }
}

/// The input and output tokens of an Anthropic reply fit in 64 bits
/// together.
pub open spec fn figures_fit(is_anthropic: bool, reply: JsonView) -> bool {
    is_anthropic ==> usage_count(reply, "input_tokens"@) + usage_count(reply, "output_tokens"@)
        <= u64::MAX
}

fn usage_count_of(reply: &Json, key: &str) -> (r: u64)
    ensures
        r == usage_count(reply@, key@),
{
    proof {
        reveal_strlit("usage");
    }
    match reply.get("usage") {
        Some(u) => match u.get(key) {
            Some(x) => match x.as_u64() {
                Some(n) => n,
                None => 0,
            },
            None => 0,
        },
        None => 0,
    }
}

fn json_pointer_zero(v: &Json) -> (r: Option<&Json>)
    ensures
        crate::json::opt_view(r) == pointer_zero(v@),
{
    match v {
        Json::Object(_) => v.get("0"),
        Json::Array(_) => v.at(0),
        _ => None,
    }
}

fn reply_text_of(is_anthropic: bool, reply: &Json) -> (r: String)
    ensures
        r@ == reply_text(is_anthropic, reply@),
{
    let found: Option<&Json> = if is_anthropic {
        match reply.get("content") {
            Some(c) => match json_pointer_zero(c) {
                Some(x) => x.get("text"),
                None => None,
            },
            None => None,
        }
    } else {
        match reply.get("choices") {
            Some(c) => match json_pointer_zero(c) {
                Some(x) => match x.get("message") {
                    Some(m) => m.get("content"),
                    None => None,
                },
                None => None,
            },
            None => None,
        }
    };
    match found {
        Some(t) => match t.as_str() {
            Some(s) => text::owned(s),
            None => String::new(),
        },
        None => String::new(),
    }
}

/// Total tokens, completion tokens and preview of a successful speed test
/// reply (the Anthropic total must fit in 64 bits, where the sum of
/// input and output tokens would otherwise overflow).
pub fn speed_test_figures(is_anthropic: bool, reply: &Json) -> (r: (u64, u64, String))
    requires
        figures_fit(is_anthropic, reply@),
    ensures
        (r.0, r.1, r.2@) == speed_figures(is_anthropic, reply@),
{
    let t = reply_text_of(is_anthropic, reply);
    let preview = response_preview(t.as_str());
    if is_anthropic {
        let it = usage_count_of(reply, "input_tokens");
        let ot = usage_count_of(reply, "output_tokens");
        (it + ot, ot, preview)
    } else {
        let total = usage_count_of(reply, "total_tokens");
        let comp = usage_count_of(reply, "completion_tokens");
        (total, comp, preview)
    }
}

/// What a speed test found, apart from its timing: whether it succeeded,
/// its error, the total and completion tokens and the reply preview.
pub struct SpeedTestOutcome {
    pub success: bool,
    pub error: Option<String>,
    pub total_tokens: u64,
    pub completion_tokens: u64,
    pub response_preview: String,
}

impl SpeedTestOutcome {
    /// A failed speed test: the error, no tokens and no preview.
    pub fn failure(error: String) -> (r: SpeedTestOutcome)
        ensures
            !r.success,
            crate::json::opt_string_view(r.error) == Some(error@),
            r.total_tokens == 0,
            r.completion_tokens == 0,
            r.response_preview@ == Seq::<char>::empty(),
    {
        SpeedTestOutcome {
            success: false,
            error: Some(error),
            total_tokens: 0,
            completion_tokens: 0,
            response_preview: String::new(),
        }
    }

    /// A successful speed test with the figures read from its reply.
    pub fn from_reply(is_anthropic: bool, reply: &Json) -> (r: SpeedTestOutcome)
        requires
            figures_fit(is_anthropic, reply@),
        ensures
            r.success,
            r.error is None,
            (r.total_tokens, r.completion_tokens, r.response_preview@) == speed_figures(
                is_anthropic,
                reply@,
            ),
    {
        let (total, comp, preview) = speed_test_figures(is_anthropic, reply);
        SpeedTestOutcome {
            success: true,
            error: None,
            total_tokens: total,
            completion_tokens: comp,
            response_preview: preview,
        }
    }
}

/// The progress of a request through its routes: routes are tried in
/// order; each failure is recorded and moves on to the next route; the
/// first success ends the request.
pub struct Failover {
    routes: Vec<Route>,
    tried: usize,
    last_error: String,
}

/// The model of a [`Failover`].
pub struct FailoverView {
    pub routes: Seq<RouteView>,
    pub tried: nat,
    pub last_error: Seq<char>,
}

/// The failover state after the current route failed with `err`.
pub open spec fn after_failure(f: FailoverView, err: Seq<char>) -> FailoverView {
    FailoverView {
        tried: f.tried + 1,
        last_error: f.routes[f.tried as int].model + ": "@ + err,
        ..f
    }
}

/// The failover state after the routes failed, in turn, with `errs`.
pub open spec fn after_failures(f: FailoverView, errs: Seq<Seq<char>>) -> FailoverView
    decreases errs.len(),
{
    if errs.len() == 0 {
        f
    } else {
        after_failure(after_failures(f, errs.drop_last()), errs.last())
    }
}

impl Failover {
    pub closed spec fn view(&self) -> FailoverView {
        FailoverView {
            routes: routes_view(self.routes@),
            tried: self.tried as nat,
            last_error: self.last_error@,
        }
    }

    #[verifier::type_invariant]
    closed spec fn within_routes(&self) -> bool {
        self.tried <= self.routes@.len()
    }

    /// Nothing tried yet; the error reported if there is no route at all is
    /// "All models failed".
    pub fn new(routes: Vec<Route>) -> (r: Self)
        ensures
            r.view() == (FailoverView {
                routes: routes_view(routes@),
                tried: 0,
                last_error: "All models failed"@,
            }),
    {
        Failover { routes, tried: 0, last_error: text::owned("All models failed") }
    }

    /// The route to try next, if any is left.
    pub fn next_route(&self) -> (r: Option<&Route>)
        ensures
            match r {
                Some(route) => self.view().tried < self.view().routes.len() && route@
                    == self.view().routes[self.view().tried as int],
                None => self.view().tried >= self.view().routes.len(),
            },
    {
        proof {
            use_type_invariant(self);
        }
        if self.tried < self.routes.len() {
            assert(routes_view(self.routes@)[self.tried as int] == self.routes@[self.tried as int]@);
            Some(&self.routes[self.tried])
        } else {
            None
        }
    }

    /// Record that the current route failed with `err`.
    pub fn record_failure(&mut self, err: &str)
        requires
            old(self).view().tried < old(self).view().routes.len(),
        ensures
            final(self).view() == after_failure(old(self).view(), err@),
    {
        proof {
            use_type_invariant(&*self);
        }
        let i = self.tried;
        let n = self.routes.len();
        assert(i < n);
        assert(routes_view(self.routes@)[i as int] == self.routes@[i as int]@);
        let reason = failover_reason(self.routes[i].model.as_str(), err);
        self.last_error = reason;
        self.tried = i + 1;
    }

    /// The body of the reply when every route failed.
    pub fn failure_body(&self) -> (r: Json)
        ensures
            r@ == error_body_view(self.view().last_error, "failover_error"@),
    {
        error_body(self.last_error.as_str(), "failover_error")
    }
}

/// When every route fails, each is tried exactly once, in order, none is
/// offered again, and the error reported names the last route tried and
/// its failure.
pub proof fn law_failover_tries_each_route_once(routes: Seq<RouteView>, errs: Seq<Seq<char>>)
    requires
        errs.len() == routes.len(),
        routes.len() > 0,
    ensures
        ({
            let start = FailoverView { routes, tried: 0, last_error: "All models failed"@ };
            let end = after_failures(start, errs);
            &&& end.tried == routes.len()
            &&& end.routes == routes
            &&& end.last_error == routes.last().model + ": "@ + errs.last()
        }),
{
    let start = FailoverView { routes, tried: 0, last_error: "All models failed"@ };
    lemma_after_failures(start, errs);
}

proof fn lemma_after_failures(f: FailoverView, errs: Seq<Seq<char>>)
    ensures
        after_failures(f, errs).tried == f.tried + errs.len(),
        after_failures(f, errs).routes == f.routes,
        errs.len() > 0 ==> after_failures(f, errs).last_error == f.routes[f.tried + errs.len()
            - 1].model + ": "@ + errs.last(),
    decreases errs.len(),
{
    if errs.len() > 0 {
        lemma_after_failures(f, errs.drop_last());
    }
}

} // verus!
