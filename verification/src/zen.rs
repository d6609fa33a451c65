//! The upstream chat API: its HTTP client, the headers and request bodies
//! sent to it, the reading of its error replies, and the per-user sessions.
use vstd::prelude::*;
use crate::clock;
use crate::json::{fields_view, opt_view, push_field, Json, JsonView};
use crate::seqs::{first_index, lemma_first_index, lemma_first_index_at, lemma_first_index_none};
use crate::text::{self, hex_fixed, hex_min};

verus! {

pub const OC_VERSION: &'static str = "1.15.0";

pub const ZEN_URL: &'static str = "https://opencode.ai/zen/v1/chat/completions";

pub const TIMEOUT_SECS: u64 = 120;

/// A user keeps a session id for this many milliseconds.
pub const SESSION_ROTATION_MS: u64 = 1800000;

#[verifier::external_type_specification]
#[verifier::external_body]
pub struct ExClient(reqwest::Client);

#[verifier::external_type_specification]
#[verifier::external_body]
pub struct ExClientBuilder(reqwest::ClientBuilder);

#[verifier::external_type_specification]
#[verifier::external_body]
pub struct ExReqwestError(reqwest::Error);

/// `reqwest::Client::builder()`: a builder with default settings. Nothing
/// is stated of it.
#[verifier::external_body]
fn client_builder() -> reqwest::ClientBuilder {
    reqwest::Client::builder()
}

/// `ClientBuilder::timeout`, given in whole seconds. Nothing is stated of
/// the builder.
#[verifier::external_body]
fn builder_timeout_secs(b: reqwest::ClientBuilder, secs: u64) -> reqwest::ClientBuilder {
    b.timeout(std::time::Duration::from_secs(secs))
}

/// `ClientBuilder::user_agent`. Nothing is stated of the builder (an
/// invalid header value surfaces as an error of `build`).
#[verifier::external_body]
fn builder_user_agent(b: reqwest::ClientBuilder, agent: String) -> reqwest::ClientBuilder {
    b.user_agent(agent)
}

/// `ClientBuilder::build`: the client, or an error when no TLS backend or
/// resolver configuration could be set up. Nothing is stated of which comes.
#[verifier::external_body]
fn builder_build(b: reqwest::ClientBuilder) -> std::result::Result<reqwest::Client, reqwest::Error> {
    b.build()
}

/// The `User-Agent` that the upstream API expects.
pub open spec fn user_agent_text() -> Seq<char> {
    "opencode/"@ + OC_VERSION@ + " ai-sdk/provider-utils/4.0.23 runtime/bun/1.3.13"@
}

/// The headers of an upstream request, as (name, value) pairs.
pub open spec fn headers_view(session_id: Seq<char>, request_nonce: u64) -> Seq<(Seq<char>, Seq<char>)> {
    seq![
        ("content-type"@, "application/json"@),
        ("authorization"@, "Bearer public"@),
        ("x-opencode-client"@, "cli"@),
        ("x-opencode-project"@, "global"@),
        ("x-opencode-request"@, "msg_"@ + hex_min(request_nonce as nat)),
        ("x-opencode-session"@, session_id),
    ]
}

pub open spec fn pairs_view(p: Seq<(String, String)>) -> Seq<(Seq<char>, Seq<char>)> {
    p.map_values(|x: (String, String)| (x.0@, x.1@))
}

/// The body of an upstream request. With the client's original body, every
/// parameter of it is kept and only `model`, `messages` and `stream` are
/// set; without one, a body of these three fields is built, with `tools`
/// added when it is a non-empty array.
pub open spec fn request_body(
    model: Seq<char>,
    messages: JsonView,
    stream: bool,
    tools: Option<JsonView>,
    original: Option<JsonView>,
) -> JsonView {
    match original {
        Some(o) => o.assign("model"@, JsonView::Text(model)).assign("messages"@, messages).assign(
            "stream"@,
            JsonView::Bool(stream),
        ),
        None => {
            let b = JsonView::Object(
                seq![
                    ("model"@, JsonView::Text(model)),
                    ("messages"@, messages),
                    ("stream"@, JsonView::Bool(stream)),
                ],
            );
            match tools {
                Some(t) => match t {
                    JsonView::Array(a) => if a.len() > 0 {
                        b.assign("tools"@, t)
                    } else {
                        b
                    },
                    _ => b,
                },
                None => b,
            }
        },
    }
}

/// An upstream reply reports an error: it has an `error` field, or its
/// `type` is `"error"`.
pub open spec fn reports_error(body: JsonView) -> bool {
    body.field("error"@) is Some || body.field_text("type"@) == Some("error"@)
}

/// The message of an upstream error reply: `error.message`, else
/// `message`, else "Unknown error".
pub open spec fn error_message(body: JsonView) -> Seq<char> {
    let nested = match body.field("error"@) {
        Some(e) => e.field_text("message"@),
        None => None,
    };
    match nested {
        Some(m) => m,
        None => match body.field_text("message"@) {
            Some(m) => m,
            None => "Unknown error"@,
        },
    }
}

pub struct ZenClient {
    pub client: reqwest::Client,
}

fn push_pair(v: &mut Vec<(String, String)>, k: &str, x: String)
    ensures
        pairs_view(final(v)@) == pairs_view(old(v)@).push((k@, x@)),
{
    v.push((text::owned(k), x));
    assert(pairs_view(v@) =~= pairs_view(old(v)@).push((k@, x@)));
}

impl ZenClient {
    /// A client with the upstream timeout and user agent.
    pub fn new() -> std::result::Result<Self, reqwest::Error> {
        let agent = Self::user_agent();
        let b = client_builder();
        let b = builder_timeout_secs(b, TIMEOUT_SECS);
        let b = builder_user_agent(b, agent);
        match builder_build(b) {
            Ok(client) => Ok(ZenClient { client }),
            Err(e) => Err(e),
        }
    }

    /// The `User-Agent` that the upstream API expects.
    pub fn user_agent() -> (r: String)
        ensures
            r@ == user_agent_text(),
    {
        let mut s = text::owned("opencode/");
        s.append(OC_VERSION);
        s.append(" ai-sdk/provider-utils/4.0.23 runtime/bun/1.3.13");
        s
    }

    /// The headers of an upstream request, with the request id drawn from
    /// `request_nonce`.
    pub fn build_headers_with(session_id: &str, request_nonce: u64) -> (r: Vec<(String, String)>)
        ensures
            pairs_view(r@) == headers_view(session_id@, request_nonce),
    {
        let mut h: Vec<(String, String)> = Vec::new();
        push_pair(&mut h, "content-type", text::owned("application/json"));
        push_pair(&mut h, "authorization", text::owned("Bearer public"));
        push_pair(&mut h, "x-opencode-client", text::owned("cli"));
        push_pair(&mut h, "x-opencode-project", text::owned("global"));
        let mut request = text::owned("msg_");
        request.append(text::hex_min_string(request_nonce).as_str());
        push_pair(&mut h, "x-opencode-request", request);
        push_pair(&mut h, "x-opencode-session", text::owned(session_id));
        assert(pairs_view(h@) =~= headers_view(session_id@, request_nonce));
        h
    }

    /// The headers of an upstream request, with a fresh random request id.
    pub fn build_headers(session_id: &str) -> (r: Vec<(String, String)>)
        ensures
            exists|n: u64| pairs_view(r@) == #[trigger] headers_view(session_id@, n),
    {
        let n = clock::random_u64();
        Self::build_headers_with(session_id, n)
    }

    /// The body of an upstream request (see [`request_body`]).
    pub fn build_request_body(
        model: &str,
        messages: &Json,
        stream: bool,
        tools: Option<&Json>,
        original_body: Option<&Json>,
    ) -> (r: Json)
        requires
            match original_body {
                Some(o) => o@ is Object || o@ is Null,
                None => true,
            },
        ensures
            r@ == request_body(model@, messages@, stream, opt_view(tools), opt_view(original_body)),
    {
        match original_body {
            Some(orig) => {
                // Start from the original request body (preserves every
                // param), only override the fields that change.
                let mut cloned = orig.deep_clone();
                cloned.assign("model", Json::from_str_slice(model));
                cloned.assign("messages", messages.deep_clone());
                cloned.assign("stream", Json::Bool(stream));
                cloned
            },
            None => {
                let mut f: Vec<(String, Json)> = Vec::new();
                push_field(&mut f, "model", Json::from_str_slice(model));
                push_field(&mut f, "messages", messages.deep_clone());
                push_field(&mut f, "stream", Json::Bool(stream));
                let mut body = Json::object(f);
                assert(fields_view(f@) =~= seq![
                    ("model"@, JsonView::Text(model@)),
                    ("messages"@, messages@),
                    ("stream"@, JsonView::Bool(stream)),
                ]);
                match tools {
                    Some(t) => match t.as_array() {
                        Some(arr) => {
                            proof {
                                crate::json::lemma_items_view(arr@);
                            }
                            if arr.len() > 0 {
                                body.assign("tools", t.deep_clone());
                            }
                        },
                        None => {},
                    },
                    None => {},
                }
                body
            },
        }
    }

    pub fn is_error(body: &Json) -> (r: bool)
        ensures
            r == reports_error(body@),
    {
        if body.get("error").is_some() {
            return true;
        }
        match body.get("type") {
            Some(t) => match t.as_str() {
                Some(s) => text::str_eq(s, "error"),
                None => false,
            },
            None => false,
        }
    }

    pub fn extract_error(body: &Json) -> (r: String)
        ensures
            r@ == error_message(body@),
    {
        let nested = match body.get("error") {
            Some(e) => match e.get("message") {
                Some(m) => m.as_str(),
                None => None,
            },
            None => None,
        };
        match nested {
            Some(m) => text::owned(m),
            None => match body.get("message") {
                Some(m) => match m.as_str() {
                    Some(s) => text::owned(s),
                    None => text::owned("Unknown error"),
                },
                None => text::owned("Unknown error"),
            },
        }
    }
}

/// A session record: user, session id, and when it was issued
/// (milliseconds since the epoch).
pub type SessionRecordView = (Seq<char>, Seq<char>, u64);

/// The bytes in lower-case hexadecimal, two digits each.
pub open spec fn bytes_hex(b: Seq<u8>) -> Seq<char>
    decreases b.len(),
{
    if b.len() == 0 {
        Seq::empty()
    } else {
        bytes_hex(b.drop_last()) + hex_fixed(b.last() as nat, 2)
    }
}

/// A new session id issued at `now_ms` with random bytes `rnd`.
pub open spec fn new_session_id(now_ms: u64, rnd: Seq<u8>) -> Seq<char> {
    "ses_"@ + hex_min(now_ms as nat) + bytes_hex(rnd)
}

/// The predicate "is the record of this user".
pub open spec fn of_user(user: Seq<char>) -> spec_fn(SessionRecordView) -> bool {
    |r: SessionRecordView| r.0 == user
}

/// The position of this user's record, or -1.
pub open spec fn user_index(s: Seq<SessionRecordView>, user: Seq<char>) -> int {
    first_index(s, of_user(user))
}

/// The user has a session issued less than the rotation period before
/// `now_ms` (the elapsed time is taken modulo 2^64).
pub open spec fn has_fresh_session(s: Seq<SessionRecordView>, user: Seq<char>, now_ms: u64) -> bool {
    let i = user_index(s, user);
    i >= 0 && (vstd::wrapping::u64_specs::wrapping_sub(now_ms, s[i].2) < SESSION_ROTATION_MS)
}

/// The session id handed to `user` at `now_ms` with random bytes `rnd`.
pub open spec fn session_for(s: Seq<SessionRecordView>, user: Seq<char>, now_ms: u64, rnd: Seq<u8>) -> Seq<char> {
    if has_fresh_session(s, user, now_ms) {
        s[user_index(s, user)].1
    } else {
        new_session_id(now_ms, rnd)
    }
}

/// The session records after handing `user` a session at `now_ms`.
pub open spec fn sessions_after(
    s: Seq<SessionRecordView>,
    user: Seq<char>,
    now_ms: u64,
    rnd: Seq<u8>,
) -> Seq<SessionRecordView> {
    if has_fresh_session(s, user, now_ms) {
        s
    } else {
        let rec = (user, new_session_id(now_ms, rnd), now_ms);
        let i = user_index(s, user);
        if i >= 0 {
            s.update(i, rec)
        } else {
            s.push(rec)
        }
    }
}

/// No user has two records.
pub open spec fn one_record_per_user(s: Seq<SessionRecordView>) -> bool {
    forall|i: int, j: int| 0 <= i < s.len() && 0 <= j < s.len() && (#[trigger] s[i]).0 == (#[trigger] s[j]).0 ==> i == j
}

/// Handing out a session keeps at most one record per user.
pub proof fn law_sessions_one_per_user(s: Seq<SessionRecordView>, user: Seq<char>, now_ms: u64, rnd: Seq<u8>)
    requires
        one_record_per_user(s),
    ensures
        one_record_per_user(sessions_after(s, user, now_ms, rnd)),
{
    lemma_first_index(s, of_user(user));
    let r = sessions_after(s, user, now_ms, rnd);
    let k = user_index(s, user);
    if !has_fresh_session(s, user, now_ms) && k < 0 {
        assert forall|i: int, j: int| 0 <= i < r.len() && 0 <= j < r.len() && (#[trigger] r[i]).0 == (#[trigger] r[j]).0 implies i == j by {
            if i < s.len() && j < s.len() {
                assert(r[i] == s[i] && r[j] == s[j]);
            } else if i < s.len() {
                assert(!of_user(user)(s[i]));
            } else if j < s.len() {
                assert(!of_user(user)(s[j]));
            }
        }
    } else if !has_fresh_session(s, user, now_ms) {
        assert forall|i: int, j: int| 0 <= i < r.len() && 0 <= j < r.len() && (#[trigger] r[i]).0 == (#[trigger] r[j]).0 implies i == j by {
            if i != k && j != k {
                assert(r[i] == s[i] && r[j] == s[j]);
            } else if i == k && j != k {
                assert(r[j] == s[j]);
                assert(s[k].0 == user);
            } else if j == k && i != k {
                assert(r[i] == s[i]);
                assert(s[k].0 == user);
            }
        }
    }
}

/// The session ids handed to users; a user keeps one for
/// `SESSION_ROTATION_MS` and then gets a fresh one.
pub struct SessionManager {
    sessions: Vec<(String, String, u64)>,
}

pub open spec fn records_view(s: Seq<(String, String, u64)>) -> Seq<SessionRecordView> {
    s.map_values(|r: (String, String, u64)| (r.0@, r.1@, r.2))
}

impl SessionManager {
    /// The session records, one per user.
    pub closed spec fn records(&self) -> Seq<SessionRecordView> {
        records_view(self.sessions@)
    }

    /// At most one record per user, as in a table keyed by user.
    #[verifier::type_invariant]
    closed spec fn well_formed(&self) -> bool {
        one_record_per_user(records_view(self.sessions@))
    }

    pub fn new() -> (r: Self)
        ensures
            r.records() == Seq::<SessionRecordView>::empty(),
            one_record_per_user(r.records()),
    {
        let r = SessionManager { sessions: Vec::new() };
        assert(r.records() =~= Seq::<SessionRecordView>::empty());
        r
    }

    fn find_user(&self, user: &str) -> (r: Option<usize>)
        ensures
            match r {
                Some(i) => i < self.sessions@.len() && i as int == user_index(self.records(), user@),
                None => user_index(self.records(), user@) < 0,
            },
    {
        let ghost rs = self.records();
        let mut i: usize = 0;
        while i < self.sessions.len()
            invariant
                i <= self.sessions@.len(),
                rs == records_view(self.sessions@),
                forall|j: int| 0 <= j < i ==> !of_user(user@)(#[trigger] rs[j]),
            decreases self.sessions@.len() - i,
        {
            if text::str_eq(self.sessions[i].0.as_str(), user) {
                proof {
                    lemma_first_index_at(rs, of_user(user@), i as int);
                }
                return Some(i);
            }
            i = i + 1;
        }
        proof {
            lemma_first_index_none(rs, of_user(user@));
        }
        None
    }

    /// The session id for `user` at time `now_ms`, with `rnd` as the random
    /// part of a new id: the user's current id while it is younger than the
    /// rotation period, otherwise a new one, which is recorded.
    pub fn get_session_at(&mut self, user: &str, now_ms: u64, rnd: [u8; 16]) -> (r: String)
        ensures
            r@ == session_for(old(self).records(), user@, now_ms, rnd@),
            final(self).records() == sessions_after(old(self).records(), user@, now_ms, rnd@),
            one_record_per_user(final(self).records()),
    {
        proof {
            use_type_invariant(&*self);
            law_sessions_one_per_user(self.records(), user@, now_ms, rnd@);
        }
        let found = self.find_user(user);
        proof {
            lemma_first_index(self.records(), of_user(user@));
        }
        match found {
            Some(i) => {
                let ts = self.sessions[i].2;
                assert(self.records()[i as int].2 == ts);
                if now_ms.wrapping_sub(ts) < SESSION_ROTATION_MS {
                    assert(self.records()[i as int].1 == self.sessions@[i as int].1@);
                    return self.sessions[i].1.clone();
                }
            },
            None => {},
        }
        let id = Self::new_id(now_ms, &rnd);
        let ghost rec = (user@, id@, now_ms);
        let ghost before = self.records();
        let entry = (text::owned(user), id.clone(), now_ms);
        let mut sessions: Vec<(String, String, u64)> = Vec::new();
        std::mem::swap(&mut sessions, &mut self.sessions);
        match found {
            Some(i) => {
                sessions.set(i, entry);
                assert(records_view(sessions@) =~= before.update(i as int, rec));
            },
            None => {
                sessions.push(entry);
                assert(records_view(sessions@) =~= before.push(rec));
            },
        }
        self.sessions = sessions;
        id
    }

    /// The session id for `user`, at the current time.
    pub fn get_session(&mut self, user: &str) -> (r: String)
        ensures
            exists|now_ms: u64, rnd: Seq<u8>|
                {
                    &&& rnd.len() == 16
                    &&& r@ == #[trigger] session_for(old(self).records(), user@, now_ms, rnd)
                    &&& final(self).records() == sessions_after(
                        old(self).records(),
                        user@,
                        now_ms,
                        rnd,
                    )
                },
            one_record_per_user(final(self).records()),
    {
        let now = clock::unix_millis();
        let rnd = clock::random_bytes16();
        self.get_session_at(user, now, rnd)
    }

    /// `ses_`, the time in hex, and the random bytes in hex.
    fn new_id(now_ms: u64, rnd: &[u8; 16]) -> (r: String)
        ensures
            r@ == new_session_id(now_ms, rnd@),
    {
        let mut s = text::owned("ses_");
        s.append(text::hex_min_string(now_ms).as_str());
        let ghost head = s@;
        let mut i: usize = 0;
        while i < 16
            invariant
                i <= 16,
                rnd@.len() == 16,
                s@ == head + bytes_hex(rnd@.take(i as int)),
            decreases 16 - i,
        {
            assert(rnd@.take(i + 1).drop_last() =~= rnd@.take(i as int));
            let b = rnd[i];
            s.append(text::hex_fixed_string(b as u64, 2).as_str());
            assert(s@ =~= head + bytes_hex(rnd@.take(i + 1)));
            i = i + 1;
        }
        assert(rnd@.take(16) =~= rnd@);
        s
    }
}

/// After handing `user` a session, the user's record carries the id handed
/// out; asking again while that record is younger than the rotation period
/// gives the same id and changes nothing.
pub proof fn law_session_sticky(
    s: Seq<SessionRecordView>,
    user: Seq<char>,
    t1: u64,
    r1: Seq<u8>,
    t2: u64,
    r2: Seq<u8>,
)
    ensures
        user_index(sessions_after(s, user, t1, r1), user) >= 0,
        sessions_after(s, user, t1, r1)[user_index(sessions_after(s, user, t1, r1), user)].1
            == session_for(s, user, t1, r1),
        has_fresh_session(sessions_after(s, user, t1, r1), user, t2) ==> session_for(
            sessions_after(s, user, t1, r1),
            user,
            t2,
            r2,
        ) == session_for(s, user, t1, r1) && sessions_after(
            sessions_after(s, user, t1, r1),
            user,
            t2,
            r2,
        ) == sessions_after(s, user, t1, r1),
{
    lemma_first_index(s, of_user(user));
    let s1 = sessions_after(s, user, t1, r1);
    let i = user_index(s, user);
    if !has_fresh_session(s, user, t1) {
        if i >= 0 {
            assert forall|j: int| 0 <= j < i implies !of_user(user)(#[trigger] s1[j]) by {
                assert(s1[j] == s[j]);
            }
            lemma_first_index_at(s1, of_user(user), i);
        } else {
            assert forall|j: int| 0 <= j < s.len() implies !of_user(user)(#[trigger] s1[j]) by {
                assert(s1[j] == s[j]);
            }
            lemma_first_index_at(s1, of_user(user), s.len() as int);
        }
    }
}

/// With the client's original body, the upstream body carries the given
/// model, messages and stream flag, and every other parameter of the
/// original unchanged.
pub proof fn law_request_body_keeps_params(
    model: Seq<char>,
    messages: JsonView,
    stream: bool,
    tools: Option<JsonView>,
    o: JsonView,
    k: Seq<char>,
)
    requires
        o is Object || o is Null,
    ensures
        request_body(model, messages, stream, tools, Some(o)).field("model"@) == Some(
            JsonView::Text(model),
        ),
        request_body(model, messages, stream, tools, Some(o)).field("messages"@) == Some(messages),
        request_body(model, messages, stream, tools, Some(o)).field("stream"@) == Some(
            JsonView::Bool(stream),
        ),
        k != "model"@ && k != "messages"@ && k != "stream"@ ==> request_body(
            model,
            messages,
            stream,
            tools,
            Some(o),
        ).field(k) == o.field(k),
{
    reveal_strlit("model");
    reveal_strlit("messages");
    reveal_strlit("stream");
    assert("model"@ != "messages"@) by {
        assert("model"@.len() != "messages"@.len());
    }
    assert("model"@ != "stream"@) by {
        assert("model"@[0] != "stream"@[0]);
    }
    assert("messages"@ != "stream"@) by {
        assert("messages"@.len() != "stream"@.len());
    }
    let m = JsonView::Text(model);
    let st = JsonView::Bool(stream);
    let a = o.assign("model"@, m);
    let b = a.assign("messages"@, messages);
    crate::json::law_assign_then_field(o, "model"@, m, k);
    crate::json::law_assign_then_field(a, "messages"@, messages, k);
    crate::json::law_assign_then_field(b, "stream"@, st, k);
    crate::json::law_assign_then_field(a, "messages"@, messages, "model"@);
    crate::json::law_assign_then_field(b, "stream"@, st, "model"@);
    crate::json::law_assign_then_field(b, "stream"@, st, "messages"@);
}

} // verus!
