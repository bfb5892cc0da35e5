//! The decisions of the HTTP endpoints: access checks, reading requests into
//! prompts and settings, and the JSON answers in the OpenAI and Google
//! formats.
use vstd::prelude::*;
use vstd::string::StrSliceExecFns;
use crate::json::{obj4, obj7, arr0, copy_all, obj1, obj2, obj3, obj5, obj6, arr1, Json, JsonV, jviews, fviews, push_field, index_field, index_field_exec, parse_json, spec_json_parse, spec_json_text, to_json_text, int_json, lemma_jviews_push};
use crate::models::{models, model_table, spec_get_model, spec_resolve_model, resolve_model, Resolved, ResolvedV};
use crate::pattern::{captures_group1, group1_texts};
use crate::text::{views, owned, concat2, concat3, str_eq, starts_with, starts_with_str, trim, is_blank, chars_of, string_of_range, dec, push_dec, join};
use crate::tools::{ImageItem, images_view, jstr, messages_to_prompt, spec_messages_prompt, opt_jviews, parse_tool_calls, tool_call_pattern, tool_calls_upto, id8_text, google_contents_to_prompt, spec_google_prompt, contents_images, request_contents, fc_mode, parse_google_function_calls, spec_parse_google_calls};

verus! {

/// The version that the service reports.
pub fn version() -> (r: &'static str)
    ensures
        r@ == "1.1.0"@,
{
    "1.1.0"
}

/// The token estimate of a text: a quarter of its characters.
pub open spec fn spec_tok(s: Seq<char>) -> nat {
    s.len() / 4
}

/// Token estimate: characters divided by four.
pub fn tok(s: &str) -> (r: u64)
    ensures
        r == spec_tok(s@),
        r <= u64::MAX / 4,
{
    (s.unicode_len() / 4) as u64
}

/// Seconds since the Unix epoch, for the `created` fields of answers.
pub fn now() -> (r: u64) {
    crate::gemini::now_secs()
}

// ---------------------------------------------------------------------------
// Access
// ---------------------------------------------------------------------------

/// Whether a request may pass: always where no keys are configured, else
/// where its key is one of them. The key is the text after `Bearer ` in the
/// `authorization` header, or else the `x-api-key` header.
pub open spec fn spec_authorized(keys: Seq<Seq<char>>, auth: Seq<char>, xkey: Seq<char>) -> bool {
    keys.len() == 0 || keys.contains(
        if starts_with(auth, "Bearer "@) {
            auth.skip("Bearer "@.len() as int)
        } else {
            xkey
        },
    )
}

pub open spec fn header_or_empty(h: Option<&str>) -> Seq<char> {
    match h {
        Some(s) => s@,
        None => Seq::empty(),
    }
}

/// Checks the API key of a request, given its `authorization` and
/// `x-api-key` header values (where they are readable text).
pub fn authorized(keys: &Vec<String>, authorization: Option<&str>, x_api_key: Option<&str>) -> (r: bool)
    ensures
        r == spec_authorized(views(keys@), header_or_empty(authorization), header_or_empty(x_api_key)),
{
    if keys.len() == 0 {
        return true;
    }
    let auth = match authorization {
        Some(a) => a,
        None => "",
    };
    let xk = match x_api_key {
        Some(a) => a,
        None => "",
    };
    proof {
        reveal_strlit("");
    }
    let key = if starts_with_str(auth, "Bearer ") {
        let v = chars_of(auth);
        proof {
            reveal_strlit("Bearer ");
        }
        let k = string_of_range(&v, 7, v.len());
        assert(k@ =~= auth@.skip("Bearer "@.len() as int));
        k
    } else {
        owned(xk)
    };
    assert(key@ == (if starts_with(header_or_empty(authorization), "Bearer "@) {
        header_or_empty(authorization).skip("Bearer "@.len() as int)
    } else {
        header_or_empty(x_api_key)
    }));
    let ghost kv = views(keys@);
    let mut i: usize = 0;
    while i < keys.len()
        invariant
            i <= keys@.len(),
            kv == views(keys@),
            forall|j: int| 0 <= j < i ==> kv[j] != key@,
            key@ == (if starts_with(header_or_empty(authorization), "Bearer "@) {
                header_or_empty(authorization).skip("Bearer "@.len() as int)
            } else {
                header_or_empty(x_api_key)
            }),
        decreases keys@.len() - i,
    {
        if str_eq(keys[i].as_str(), key.as_str()) {
            assert(kv[i as int] == key@);
            assert(kv.contains(key@));
            return true;
        }
        i += 1;
    }
    assert(!kv.contains(key@));
    false
}

/// With no keys configured every request passes.
pub proof fn law_open_access(auth: Seq<char>, xkey: Seq<char>)
    ensures
        spec_authorized(Seq::empty(), auth, xkey),
{
}

/// A configured key passes as `Bearer <key>`, whatever the `x-api-key`
/// header says.
pub proof fn law_bearer_key(keys: Seq<Seq<char>>, key: Seq<char>, xkey: Seq<char>)
    requires
        keys.contains(key),
    ensures
        spec_authorized(keys, "Bearer "@ + key, xkey),
{
    reveal_strlit("Bearer ");
    let a = "Bearer "@ + key;
    assert(a.subrange(0, 7) =~= "Bearer "@);
    assert(a.skip(7) =~= key);
}

/// A configured key passes in the `x-api-key` header where the
/// `authorization` header does not carry a bearer key.
pub proof fn law_x_api_key(keys: Seq<Seq<char>>, auth: Seq<char>, key: Seq<char>)
    requires
        keys.contains(key),
        !starts_with(auth, "Bearer "@),
    ensures
        spec_authorized(keys, auth, key),
{
}

/// Where keys are configured, a request whose key is none of them is
/// refused.
pub proof fn law_unknown_key(keys: Seq<Seq<char>>, key: Seq<char>, xkey: Seq<char>)
    requires
        keys.len() > 0,
        !keys.contains(key),
    ensures
        !spec_authorized(keys, "Bearer "@ + key, xkey),
{
    reveal_strlit("Bearer ");
    let a = "Bearer "@ + key;
    assert(a.subrange(0, 7) =~= "Bearer "@);
    assert(a.skip(7) =~= key);
}

// ---------------------------------------------------------------------------
// Simple answers
// ---------------------------------------------------------------------------

/// `{"error": {"message": msg}}`.
pub open spec fn spec_error_body(msg: Seq<char>) -> JsonV {
    JsonV::Object(seq![("error"@, JsonV::Object(seq![("message"@, jstr(msg))]))])
}

/// The body of an error answer.
pub fn error_body(msg: &str) -> (r: Json)
    ensures
        r@ == spec_error_body(msg@),
{
    obj1("error", obj1("message", Json::string(msg)))
}

/// The names of the models, in table order.
pub open spec fn model_names() -> Seq<JsonV> {
    model_table().map_values(|e: (Seq<char>, crate::models::ModelCfgV)| jstr(e.0))
}

/// The status answer: `{"status": "ok", "version", "models": [names]}`.
pub open spec fn spec_root_body() -> JsonV {
    JsonV::Object(seq![("status"@, jstr("ok"@)), ("version"@, jstr("1.1.0"@)), ("models"@, JsonV::Array(model_names()))])
}

pub fn root_body() -> (r: Json)
    ensures
        r@ == spec_root_body(),
{
    let table = models();
    let mut names: Vec<Json> = Vec::new();
    let mut i: usize = 0;
    while i < table.len()
        invariant
            i <= table@.len(),
            table@.len() == model_table().len(),
            forall|k: int| 0 <= k < table@.len() ==> (#[trigger] table@[k]).0@ == model_table()[k].0 && table@[k].1@ == model_table()[k].1,
            jviews(names@) == model_names().take(i as int),
        decreases table@.len() - i,
    {
        let n = Json::string(table[i].0);
        proof {
            lemma_jviews_push(names@, n);
        }
        names.push(n);
        assert(jviews(names@) =~= model_names().take(i + 1));
        i += 1;
    }
    assert(model_names().take(table@.len() as int) =~= model_names());
    let mut f: Vec<(String, Json)> = Vec::new();
    push_field(&mut f, "status", Json::string("ok"));
    push_field(&mut f, "version", Json::string(version()));
    push_field(&mut f, "models", Json::array(names));
    assert(fviews(f@) =~= spec_root_body()->Object_0);
    Json::object(f)
}

/// One model of the OpenAI model list.
pub open spec fn openai_model_entry(name: Seq<char>, desc: Seq<char>) -> JsonV {
    JsonV::Object(seq![
        ("id"@, jstr(name)),
        ("object"@, jstr("model"@)),
        ("created"@, int_json(1700000000)),
        ("owned_by"@, jstr("google"@)),
        ("description"@, jstr(desc)),
    ])
}

/// The OpenAI model list: `{"object": "list", "data": [..]}`.
pub open spec fn spec_models_body() -> JsonV {
    JsonV::Object(seq![
        ("object"@, jstr("list"@)),
        ("data"@, JsonV::Array(model_table().map_values(|e: (Seq<char>, crate::models::ModelCfgV)| openai_model_entry(e.0, e.1.desc)))),
    ])
}

pub fn models_body() -> (r: Json)
    ensures
        r@ == spec_models_body(),
{
    let table = models();
    let ghost want = model_table().map_values(|e: (Seq<char>, crate::models::ModelCfgV)| openai_model_entry(e.0, e.1.desc));
    let mut data: Vec<Json> = Vec::new();
    let mut i: usize = 0;
    while i < table.len()
        invariant
            i <= table@.len(),
            table@.len() == model_table().len(),
            forall|k: int| 0 <= k < table@.len() ==> (#[trigger] table@[k]).0@ == model_table()[k].0 && table@[k].1@ == model_table()[k].1,
            want == model_table().map_values(|e: (Seq<char>, crate::models::ModelCfgV)| openai_model_entry(e.0, e.1.desc)),
            jviews(data@) == want.take(i as int),
        decreases table@.len() - i,
    {
        let mut f: Vec<(String, Json)> = Vec::new();
        push_field(&mut f, "id", Json::string(table[i].0));
        push_field(&mut f, "object", Json::string("model"));
        push_field(&mut f, "created", Json::integer(1700000000));
        push_field(&mut f, "owned_by", Json::string("google"));
        push_field(&mut f, "description", Json::string(table[i].1.desc));
        assert(fviews(f@) =~= openai_model_entry(model_table()[i as int].0, model_table()[i as int].1.desc)->Object_0);
        let e = Json::object(f);
        proof {
            lemma_jviews_push(data@, e);
        }
        data.push(e);
        assert(jviews(data@) =~= want.take(i + 1));
        i += 1;
    }
    assert(want.take(table@.len() as int) =~= want);
    let mut f: Vec<(String, Json)> = Vec::new();
    push_field(&mut f, "object", Json::string("list"));
    push_field(&mut f, "data", Json::array(data));
    assert(fviews(f@) =~= spec_models_body()->Object_0);
    Json::object(f)
}

/// One model of the Google model list.
pub open spec fn google_model_entry(name: Seq<char>, desc: Seq<char>) -> JsonV {
    JsonV::Object(seq![
        ("name"@, jstr("models/"@ + name)),
        ("displayName"@, jstr(name)),
        ("description"@, jstr(desc)),
        ("supportedGenerationMethods"@, JsonV::Array(seq![jstr("generateContent"@), jstr("streamGenerateContent"@)])),
    ])
}

/// The Google model list: `{"models": [..]}`.
pub open spec fn spec_v1beta_models_body() -> JsonV {
    JsonV::Object(seq![
        ("models"@, JsonV::Array(model_table().map_values(|e: (Seq<char>, crate::models::ModelCfgV)| google_model_entry(e.0, e.1.desc)))),
    ])
}

pub fn v1beta_models_body() -> (r: Json)
    ensures
        r@ == spec_v1beta_models_body(),
{
    let table = models();
    let ghost want = model_table().map_values(|e: (Seq<char>, crate::models::ModelCfgV)| google_model_entry(e.0, e.1.desc));
    let mut data: Vec<Json> = Vec::new();
    let mut i: usize = 0;
    while i < table.len()
        invariant
            i <= table@.len(),
            table@.len() == model_table().len(),
            forall|k: int| 0 <= k < table@.len() ==> (#[trigger] table@[k]).0@ == model_table()[k].0 && table@[k].1@ == model_table()[k].1,
            want == model_table().map_values(|e: (Seq<char>, crate::models::ModelCfgV)| google_model_entry(e.0, e.1.desc)),
            jviews(data@) == want.take(i as int),
        decreases table@.len() - i,
    {
        let mut methods: Vec<Json> = Vec::new();
        methods.push(Json::string("generateContent"));
        methods.push(Json::string("streamGenerateContent"));
        assert(jviews(methods@) =~= seq![jstr("generateContent"@), jstr("streamGenerateContent"@)]);
        let mut f: Vec<(String, Json)> = Vec::new();
        push_field(&mut f, "name", Json::Str(concat2("models/", table[i].0)));
        push_field(&mut f, "displayName", Json::string(table[i].0));
        push_field(&mut f, "description", Json::string(table[i].1.desc));
        push_field(&mut f, "supportedGenerationMethods", Json::array(methods));
        assert(fviews(f@) =~= google_model_entry(model_table()[i as int].0, model_table()[i as int].1.desc)->Object_0);
        let e = Json::object(f);
        proof {
            lemma_jviews_push(data@, e);
        }
        data.push(e);
        assert(jviews(data@) =~= want.take(i + 1));
        i += 1;
    }
    assert(want.take(table@.len() as int) =~= want);
    let mut f: Vec<(String, Json)> = Vec::new();
    push_field(&mut f, "models", Json::array(data));
    assert(fviews(f@) =~= spec_v1beta_models_body()->Object_0);
    Json::object(f)
}

// ---------------------------------------------------------------------------
// Requests
// ---------------------------------------------------------------------------

/// A refused request: the HTTP status and the message of its error body.
#[derive(Debug)]
pub struct ApiError {
    pub status: u16,
    pub message: String,
}

/// Reads a request body as JSON.
pub fn parse_body(body: &str) -> (r: Option<Json>)
    ensures
        match r {
            Some(j) => spec_json_parse(body@) == Some(j@),
            None => spec_json_parse(body@) is None,
        },
{
    parse_json(body)
}

/// Whether a result is the error (status, message).
pub open spec fn is_error<T>(r: Result<T, ApiError>, status: u16, msg: Seq<char>) -> bool {
    r matches Err(e) && e.status == status && e.message@ == msg
}

fn api_error(status: u16, msg: &str) -> (r: ApiError)
    ensures
        r.status == status,
        r.message@ == msg@,
{
    ApiError { status, message: owned(msg) }
}

/// What a chat request asks for, once read.
pub struct ChatPlan {
    pub model: Resolved,
    pub prompt: String,
    pub images: Vec<ImageItem>,
    pub stream: bool,
    pub has_tools: bool,
    pub tc_none: bool,
}

/// The model that a request names, else the default one.
pub open spec fn requested_model(req: JsonV, default: Seq<char>) -> Seq<char> {
    req.str_or("model"@, default)
}

pub open spec fn chat_tools(req: JsonV) -> Option<Seq<JsonV>> {
    req.field_array("tools"@)
}

pub open spec fn chat_tool_choice(req: JsonV) -> JsonV {
    req.field_or("tool_choice"@, jstr("auto"@))
}

pub open spec fn chat_messages(req: JsonV) -> Seq<JsonV> {
    match req.field_array("messages"@) {
        Some(m) => m,
        None => Seq::empty(),
    }
}

/// `req.stream`, false where it is missing or not a boolean.
pub open spec fn wants_stream(req: JsonV) -> bool {
    match req.field("stream"@) {
        Some(JsonV::Bool(b)) => b,
        _ => false,
    }
}

/// The outcome of reading a chat request: the body must be JSON, its model
/// must resolve, and its prompt must not be blank.
pub open spec fn chat_plan_ok(body: Seq<char>, default: Seq<char>, p: ChatPlan) -> bool {
    match spec_json_parse(body) {
        Some(req) => {
            &&& spec_resolve_model(requested_model(req, default), default) == Ok::<ResolvedV, Seq<char>>(p.model@)
            &&& p.prompt@ == spec_messages_prompt(chat_messages(req), chat_tools(req), chat_tool_choice(req))
            &&& trim(p.prompt@).len() > 0
            &&& p.images@.len() == 0
            &&& p.stream == wants_stream(req)
            &&& p.has_tools == (chat_tools(req) matches Some(t) && t.len() > 0)
            &&& p.tc_none == (chat_tool_choice(req) == jstr("none"@))
        },
        None => false,
    }
}

/// The error that reading a chat request gives, where it gives one.
pub open spec fn chat_plan_error(body: Seq<char>, default: Seq<char>) -> Option<(u16, Seq<char>)> {
    match spec_json_parse(body) {
        None => Some((400, "invalid JSON"@)),
        Some(req) => match spec_resolve_model(requested_model(req, default), default) {
            Err(e) => Some((400, e)),
            Ok(_) => if trim(spec_messages_prompt(chat_messages(req), chat_tools(req), chat_tool_choice(req))).len() == 0 {
                Some((400, "empty prompt"@))
            } else {
                None
            },
        },
    }
}

/// Reads a chat-completions request body.
pub fn plan_chat(body: &str, default_model: &str) -> (r: Result<ChatPlan, ApiError>)
    requires
        spec_get_model(default_model@) is Some,
    ensures
        match chat_plan_error(body@, default_model@) {
            Some((status, msg)) => is_error(r, status, msg),
            None => r matches Ok(p) && chat_plan_ok(body@, default_model@, p),
        },
{
    let req = match parse_body(body) {
        Some(v) => v,
        None => return Err(api_error(400, "invalid JSON")),
    };
    let model_req = req.str_or("model", default_model);
    let model = match resolve_model(model_req, default_model) {
        Ok(m) => m,
        Err(e) => return Err(ApiError { status: 400, message: e }),
    };
    let tools: Option<Vec<Json>> = match req.get_array("tools") {
        Some(t) => Some(copy_all(t)),
        None => None,
    };
    let tool_choice = match req.get("tool_choice") {
        Some(t) => t.duplicate(),
        None => Json::string("auto"),
    };
    let messages: Vec<Json> = match req.get_array("messages") {
        Some(m) => copy_all(m),
        None => Vec::new(),
    };
    assert(jviews(messages@) == chat_messages(req@));
    let tools_ref: Option<&Vec<Json>> = match &tools {
        Some(t) => Some(t),
        None => None,
    };
    assert(opt_jviews(tools_ref) == chat_tools(req@));
    let (prompt, images) = messages_to_prompt(&messages, tools_ref, &tool_choice);
    if is_blank(prompt.as_str()) {
        return Err(api_error(400, "empty prompt"));
    }
    let stream = match req.get("stream") {
        Some(s) => match s.as_bool() {
            Some(b) => b,
            None => false,
        },
        None => false,
    };
    let has_tools = match &tools {
        Some(t) => t.len() > 0,
        None => false,
    };
    let tc_none = tool_choice.is_str("none");
    Ok(ChatPlan { model, prompt, images, stream, has_tools, tc_none })
}

/// Whether the chat answer streams text deltas as they come: a streaming
/// request with no tools in play.
pub open spec fn spec_streams_deltas(stream: bool, has_tools: bool, tc_none: bool) -> bool {
    stream && (!has_tools || tc_none)
}

pub fn streams_deltas(plan: &ChatPlan) -> (r: bool)
    ensures
        r == spec_streams_deltas(plan.stream, plan.has_tools, plan.tc_none),
{
    plan.stream && (!plan.has_tools || plan.tc_none)
}

// ---------------------------------------------------------------------------
// Chat answers
// ---------------------------------------------------------------------------

/// Whether tool calls are read out of the answer text.
pub open spec fn reads_tool_calls(text: Seq<char>, has_tools: bool, tc_none: bool) -> bool {
    has_tools && text.len() > 0 && !tc_none
}

/// The answer text and the tool calls of a chat answer: with tools in play
/// the tool-call blocks become calls (each with a random id) and leave the
/// text around them; otherwise the text as it is and no calls.
pub fn chat_reply(text: &str, has_tools: bool, tc_none: bool) -> (r: (String, Vec<Json>))
    ensures
        reads_tool_calls(text@, has_tools, tc_none) ==> {
            &&& r.0@ == trim(crate::pattern::remove_matches(tool_call_pattern(), text@))
            &&& exists|ids: Seq<Seq<char>>|
                ids.len() == group1_texts(tool_call_pattern(), text@).len() && (forall|k: int|
                    0 <= k < ids.len() ==> id8_text(#[trigger] ids[k])) && jviews(r.1@) == #[trigger] tool_calls_upto(
                    group1_texts(tool_call_pattern(), text@),
                    ids,
                    group1_texts(tool_call_pattern(), text@).len(),
                )
        },
        !reads_tool_calls(text@, has_tools, tc_none) ==> r.0@ == text@ && r.1@.len() == 0,
{
    if has_tools && !text.is_empty() && !tc_none {
        parse_tool_calls(text)
    } else {
        (owned(text), Vec::new())
    }
}

/// The assistant message of a chat answer.
pub open spec fn spec_chat_message(final_text: Seq<char>, calls: Seq<JsonV>) -> JsonV {
    let base = JsonV::Object(seq![
        ("role"@, jstr("assistant"@)),
        ("content"@, if final_text.len() == 0 { JsonV::Null } else { jstr(final_text) }),
    ]);
    if calls.len() > 0 {
        base.with_field("tool_calls"@, JsonV::Array(calls))
    } else {
        base
    }
}

/// `tool_calls` where there are calls, else `stop`.
pub open spec fn spec_finish_reason(calls: Seq<JsonV>) -> Seq<char> {
    if calls.len() > 0 {
        "tool_calls"@
    } else {
        "stop"@
    }
}

pub fn chat_message(final_text: &str, calls: &Vec<Json>) -> (r: (Json, &'static str))
    ensures
        r.0@ == spec_chat_message(final_text@, jviews(calls@)),
        r.1@ == spec_finish_reason(jviews(calls@)),
{
    let content = if final_text.is_empty() {
        Json::Null
    } else {
        Json::string(final_text)
    };
    let mut msg = obj2("role", Json::string("assistant"), "content", content);
    if calls.len() > 0 {
        msg.set("tool_calls", Json::array(copy_all(calls)));
        (msg, "tool_calls")
    } else {
        (msg, "stop")
    }
}

/// The usage object of an OpenAI chat answer.
pub open spec fn chat_usage(pt: nat, ct: nat) -> JsonV {
    JsonV::Object(seq![
        ("prompt_tokens"@, int_json(pt as int)),
        ("completion_tokens"@, int_json(ct as int)),
        ("total_tokens"@, int_json((pt + ct) as int)),
    ])
}

/// The body of a complete (non-streamed) chat answer.
pub open spec fn spec_chat_completion(id: Seq<char>, created: nat, model: Seq<char>, msg: JsonV, finish: Seq<char>, prompt: Seq<char>, final_text: Seq<char>) -> JsonV {
    JsonV::Object(seq![
        ("id"@, jstr(id)),
        ("object"@, jstr("chat.completion"@)),
        ("created"@, int_json(created as int)),
        ("model"@, jstr(model)),
        ("choices"@, JsonV::Array(seq![JsonV::Object(seq![
            ("index"@, int_json(0)),
            ("message"@, msg),
            ("finish_reason"@, jstr(finish)),
        ])])),
        ("usage"@, chat_usage(spec_tok(prompt), spec_tok(final_text))),
    ])
}

pub fn chat_completion_body(id: &str, created: u64, model: &str, msg: Json, finish: &str, prompt: &str, final_text: &str) -> (r: Json)
    ensures
        r@ == spec_chat_completion(id@, created as nat, model@, msg@, finish@, prompt@, final_text@),
{
    let pt = tok(prompt);
    let ct = tok(final_text);
    let choice = obj3("index", Json::integer(0), "message", msg, "finish_reason", Json::string(finish));
    let usage = obj3("prompt_tokens", Json::natural(pt), "completion_tokens", Json::natural(ct), "total_tokens", Json::natural(pt + ct));
    obj6("id", Json::string(id), "object", Json::string("chat.completion"), "created", Json::natural(created), "model", Json::string(model), "choices", arr1(choice), "usage", usage)
}

/// A chunk of a streamed chat answer.
pub open spec fn spec_chat_chunk(id: Seq<char>, created: nat, model: Seq<char>, delta: JsonV, finish: JsonV) -> JsonV {
    JsonV::Object(seq![
        ("id"@, jstr(id)),
        ("object"@, jstr("chat.completion.chunk"@)),
        ("created"@, int_json(created as int)),
        ("model"@, jstr(model)),
        ("choices"@, JsonV::Array(seq![JsonV::Object(seq![
            ("index"@, int_json(0)),
            ("delta"@, delta),
            ("finish_reason"@, finish),
        ])])),
    ])
}

pub fn chat_chunk(id: &str, created: u64, model: &str, delta: Json, finish: Json) -> (r: Json)
    ensures
        r@ == spec_chat_chunk(id@, created as nat, model@, delta@, finish@),
{
    let choice = obj3("index", Json::integer(0), "delta", delta, "finish_reason", finish);
    obj5("id", Json::string(id), "object", Json::string("chat.completion.chunk"), "created", Json::natural(created), "model", Json::string(model), "choices", arr1(choice))
}

/// `{"content": text}`: the delta of a streamed text chunk.
pub fn content_delta(text: &str) -> (r: Json)
    ensures
        r@ == JsonV::Object(seq![("content"@, jstr(text@))]),
{
    let mut f: Vec<(String, Json)> = Vec::new();
    push_field(&mut f, "content", Json::string(text));
    assert(fviews(f@) =~= seq![("content"@, jstr(text@))]);
    Json::object(f)
}

/// `{}`: the delta of the closing chunk.
pub fn empty_delta() -> (r: Json)
    ensures
        r@ == JsonV::Object(Seq::empty()),
{
    let f: Vec<(String, Json)> = Vec::new();
    assert(fviews(f@) =~= Seq::<(Seq<char>, JsonV)>::empty());
    Json::object(f)
}

/// One server-sent event carrying a JSON value: `data: <json>` and a blank line.
pub open spec fn spec_sse_data(v: JsonV) -> Seq<char> {
    "data: "@ + spec_json_text(v) + "\n\n"@
}

pub fn sse_data(v: &Json) -> (r: String)
    ensures
        r@ == spec_sse_data(v@),
{
    let t = to_json_text(v);
    concat3("data: ", t.as_str(), "\n\n")
}

/// One named server-sent event carrying a JSON value.
pub open spec fn spec_sse_event(name: Seq<char>, v: JsonV) -> Seq<char> {
    "event: "@ + name + "\ndata: "@ + spec_json_text(v) + "\n\n"@
}

pub fn sse_event(name: &str, v: &Json) -> (r: String)
    ensures
        r@ == spec_sse_event(name@, v@),
{
    let t = to_json_text(v);
    let mut s = concat3("event: ", name, "\ndata: ");
    s.append(t.as_str());
    s.append("\n\n");
    s
}

// ---------------------------------------------------------------------------
// Google generateContent
// ---------------------------------------------------------------------------

/// The model named in a `/v1beta/models/<model>:...` path.
pub open spec fn model_path_pattern() -> Seq<char> {
    "/v1beta/models/([^:?]+)"@
}

/// The model that a Google path names, else the default.
pub open spec fn path_model(path: Seq<char>, default: Seq<char>) -> Seq<char> {
    let g = group1_texts(model_path_pattern(), path);
    if g.len() > 0 {
        g[0]
    } else {
        default
    }
}

/// What a Google generate request asks for, once read.
pub struct GooglePlan {
    pub model: Resolved,
    pub prompt: String,
    pub images: Vec<ImageItem>,
    pub has_tools: bool,
}

/// Whether tools are in play: a `tools` value that is not null, and a mode
/// other than `NONE`.
pub open spec fn google_has_tools(req: JsonV) -> bool {
    (req.field("tools"@) matches Some(t) && !(t is Null)) && fc_mode(req) != "NONE"@
}

pub open spec fn google_plan_error(path: Seq<char>, body: Seq<char>, default: Seq<char>) -> Option<(u16, Seq<char>)> {
    match spec_json_parse(body) {
        None => Some((400, "invalid JSON"@)),
        Some(req) => match spec_resolve_model(path_model(path, default), default) {
            Err(e) => Some((400, e)),
            Ok(_) => if trim(spec_google_prompt(req)).len() == 0 {
                Some((400, "empty content"@))
            } else {
                None
            },
        },
    }
}

pub open spec fn google_plan_ok(path: Seq<char>, body: Seq<char>, default: Seq<char>, p: GooglePlan) -> bool {
    match spec_json_parse(body) {
        Some(req) => {
            &&& spec_resolve_model(path_model(path, default), default) == Ok::<ResolvedV, Seq<char>>(p.model@)
            &&& p.prompt@ == spec_google_prompt(req)
            &&& images_view(p.images@) == contents_images(request_contents(req))
            &&& p.has_tools == google_has_tools(req)
        },
        None => false,
    }
}

/// Reads a Google generate request: its path and body.
pub fn plan_google(path: &str, body: &str, default_model: &str) -> (r: Result<GooglePlan, ApiError>)
    requires
        spec_get_model(default_model@) is Some,
    ensures
        match google_plan_error(path@, body@, default_model@) {
            Some((status, msg)) => is_error(r, status, msg),
            None => r matches Ok(p) && google_plan_ok(path@, body@, default_model@, p),
        },
{
    let req = match parse_body(body) {
        Some(v) => v,
        None => return Err(api_error(400, "invalid JSON")),
    };
    let found = captures_group1("/v1beta/models/([^:?]+)", path);
    let model_req = if found.len() > 0 {
        found[0].clone()
    } else {
        owned(default_model)
    };
    let model = match resolve_model(model_req.as_str(), default_model) {
        Ok(m) => m,
        Err(e) => return Err(ApiError { status: 400, message: e }),
    };
    let mode = match req.get("toolConfig") {
        Some(t) => match t.get("functionCallingConfig") {
            Some(c) => c.str_or("mode", "AUTO"),
            None => "AUTO",
        },
        None => "AUTO",
    };
    let tools_present = match req.get("tools") {
        Some(t) => !t.is_null(),
        None => false,
    };
    let has_tools = tools_present && !str_eq(mode, "NONE");
    let (prompt, images) = google_contents_to_prompt(&req);
    if is_blank(prompt.as_str()) {
        return Err(api_error(400, "empty content"));
    }
    Ok(GooglePlan { model, prompt, images, has_tools })
}

/// The reply that a model gives where it gave no text.
pub open spec fn apology() -> Seq<char> {
    "I apologize, but I was unable to generate a response. Please try again."@
}

/// `{"text": t}`.
pub open spec fn text_part(t: Seq<char>) -> JsonV {
    JsonV::Object(seq![("text"@, jstr(t))])
}

/// `{"functionCall": {"name": fc["name"], "args": fc["args"]}}`.
pub open spec fn call_part(fc: JsonV) -> JsonV {
    JsonV::Object(seq![("functionCall"@, JsonV::Object(seq![
        ("name"@, index_field(fc, "name"@)),
        ("args"@, index_field(fc, "args"@)),
    ]))])
}

/// The response parts of a Google answer: with tools in play and a text,
/// the function calls found in it (after any text left around them), or
/// the text where it has none; without tools, the text, or an apology
/// where the text is empty.
pub open spec fn spec_google_parts(text: Seq<char>, has_tools: bool) -> Seq<JsonV> {
    if has_tools && text.len() > 0 {
        let (clean, fcs) = spec_parse_google_calls(text);
        if fcs.len() > 0 {
            (if clean.len() > 0 { seq![text_part(clean)] } else { Seq::empty() }) + fcs.map_values(|fc: JsonV| call_part(fc))
        } else {
            seq![text_part(text)]
        }
    } else {
        seq![text_part(if text.len() == 0 { apology() } else { text })]
    }
}

/// A Google answer always has at least one part.
pub proof fn law_google_parts_nonempty(text: Seq<char>, has_tools: bool)
    ensures
        spec_google_parts(text, has_tools).len() >= 1,
{
}

fn text_part_exec(t: &str) -> (r: Json)
    ensures
        r@ == text_part(t@),
{
    obj1("text", Json::string(t))
}

pub fn google_parts(text: &str, has_tools: bool) -> (r: Vec<Json>)
    ensures
        jviews(r@) == spec_google_parts(text@, has_tools),
{
    let mut parts: Vec<Json> = Vec::new();
    if has_tools && !text.is_empty() {
        let (clean, fcs) = parse_google_function_calls(text);
        if fcs.len() > 0 {
            if !clean.as_str().is_empty() {
                let p = text_part_exec(clean.as_str());
                proof {
                    lemma_jviews_push(parts@, p);
                }
                parts.push(p);
            }
            let ghost head = jviews(parts@);
            assert(head =~= if clean@.len() > 0 { seq![text_part(clean@)] } else { Seq::<JsonV>::empty() });
            let ghost fv = jviews(fcs@);
            let mut i: usize = 0;
            while i < fcs.len()
                invariant
                    i <= fcs@.len(),
                    fv == jviews(fcs@),
                    jviews(parts@) == head + fv.take(i as int).map_values(|fc: JsonV| call_part(fc)),
                decreases fcs@.len() - i,
            {
                let p = obj1("functionCall", obj2("name", index_field_exec(&fcs[i], "name"), "args", index_field_exec(&fcs[i], "args")));
                assert(p@ == call_part(fv[i as int]));
                proof {
                    lemma_jviews_push(parts@, p);
                }
                parts.push(p);
                assert(jviews(parts@) =~= head + fv.take(i + 1).map_values(|fc: JsonV| call_part(fc)));
                i += 1;
            }
            assert(fv.take(fcs@.len() as int) =~= fv);
            return parts;
        } else {
            let p = text_part_exec(text);
            proof {
                lemma_jviews_push(parts@, p);
            }
            parts.push(p);
            assert(jviews(parts@) =~= seq![text_part(text@)]);
            return parts;
        }
    }
    let p = if text.is_empty() {
        text_part_exec("I apologize, but I was unable to generate a response. Please try again.")
    } else {
        text_part_exec(text)
    };
    proof {
        lemma_jviews_push(parts@, p);
    }
    parts.push(p);
    assert(jviews(parts@) =~= spec_google_parts(text@, has_tools));
    parts
}

/// The usage metadata of a Google answer.
pub open spec fn google_usage(pt: nat, ct: nat) -> JsonV {
    JsonV::Object(seq![
        ("promptTokenCount"@, int_json(pt as int)),
        ("candidatesTokenCount"@, int_json(ct as int)),
        ("totalTokenCount"@, int_json((pt + ct) as int)),
    ])
}

/// The body of a complete Google answer.
pub open spec fn spec_google_response(parts: Seq<JsonV>, prompt: Seq<char>, text: Seq<char>, model: Seq<char>) -> JsonV {
    JsonV::Object(seq![
        ("candidates"@, JsonV::Array(seq![JsonV::Object(seq![
            ("content"@, JsonV::Object(seq![("parts"@, JsonV::Array(parts)), ("role"@, jstr("model"@))])),
            ("finishReason"@, jstr("STOP"@)),
            ("index"@, int_json(0)),
        ])])),
        ("usageMetadata"@, google_usage(spec_tok(prompt), spec_tok(text))),
        ("modelVersion"@, jstr(model)),
    ])
}

fn usage3(k1: &str, a: u64, k2: &str, b: u64, k3: &str) -> (r: Json)
    requires
        a <= u64::MAX / 2,
        b <= u64::MAX / 2,
    ensures
        r@ == JsonV::Object(seq![(k1@, int_json(a as int)), (k2@, int_json(b as int)), (k3@, int_json(a + b))]),
{
    obj3(k1, Json::natural(a), k2, Json::natural(b), k3, Json::natural(a + b))
}

pub fn google_response_body(parts: Vec<Json>, prompt: &str, text: &str, model: &str) -> (r: Json)
    ensures
        r@ == spec_google_response(jviews(parts@), prompt@, text@, model@),
{
    let pt = tok(prompt);
    let ct = tok(text);
    let content = obj2("parts", Json::array(parts), "role", Json::string("model"));
    let cand = obj3("content", content, "finishReason", Json::string("STOP"), "index", Json::integer(0));
    obj3("candidates", arr1(cand), "usageMetadata", usage3("promptTokenCount", pt, "candidatesTokenCount", ct, "totalTokenCount"), "modelVersion", Json::string(model))
}

/// A chunk of a streamed Google answer.
pub open spec fn spec_google_chunk(delta: Seq<char>, model: Seq<char>) -> JsonV {
    JsonV::Object(seq![
        ("candidates"@, JsonV::Array(seq![JsonV::Object(seq![
            ("content"@, JsonV::Object(seq![("parts"@, JsonV::Array(seq![text_part(delta)])), ("role"@, jstr("model"@))])),
            ("index"@, int_json(0)),
        ])])),
        ("modelVersion"@, jstr(model)),
    ])
}

pub fn google_chunk(delta: &str, model: &str) -> (r: Json)
    ensures
        r@ == spec_google_chunk(delta@, model@),
{
    let content = obj2("parts", arr1(text_part_exec(delta)), "role", Json::string("model"));
    let cand = obj2("content", content, "index", Json::integer(0));
    obj2("candidates", arr1(cand), "modelVersion", Json::string(model))
}

/// The closing chunk of a streamed Google answer, with the usage counted
/// from the prompt's and the streamed text's characters.
pub open spec fn spec_google_final_chunk(prompt_chars: nat, text: Seq<char>, model: Seq<char>) -> JsonV {
    JsonV::Object(seq![
        ("candidates"@, JsonV::Array(seq![JsonV::Object(seq![("finishReason"@, jstr("STOP"@)), ("index"@, int_json(0))])])),
        ("usageMetadata"@, google_usage(prompt_chars / 4, spec_tok(text))),
        ("modelVersion"@, jstr(model)),
    ])
}

pub fn google_final_chunk(prompt_chars: u64, text: &str, model: &str) -> (r: Json)
    ensures
        r@ == spec_google_final_chunk(prompt_chars as nat, text@, model@),
{
    let ct = tok(text);
    let cand = obj2("finishReason", Json::string("STOP"), "index", Json::integer(0));
    obj3("candidates", arr1(cand), "usageMetadata", usage3("promptTokenCount", prompt_chars / 4, "candidatesTokenCount", ct, "totalTokenCount"), "modelVersion", Json::string(model))
}

// ---------------------------------------------------------------------------
// Responses API
// ---------------------------------------------------------------------------

/// `{"role": role, "content": content}`.
pub open spec fn role_msg(role: Seq<char>, content: JsonV) -> JsonV {
    JsonV::Object(seq![("role"@, jstr(role)), ("content"@, content)])
}

/// The `output_text` texts of an assistant item's content, run together.
pub open spec fn output_texts(arr: Seq<JsonV>) -> Seq<char>
    decreases arr.len(),
{
    if arr.len() == 0 {
        Seq::empty()
    } else {
        output_texts(arr.drop_last()) + if arr.last().str_or("type"@, ""@) == "output_text"@ {
            arr.last().str_or("text"@, ""@)
        } else {
            Seq::empty()
        }
    }
}

/// The `function_call` entries of an assistant item's content, in order.
pub open spec fn function_call_items(arr: Seq<JsonV>) -> Seq<JsonV>
    decreases arr.len(),
{
    if arr.len() == 0 {
        Seq::empty()
    } else if arr.last().str_or("type"@, ""@) == "function_call"@ {
        function_call_items(arr.drop_last()).push(arr.last())
    } else {
        function_call_items(arr.drop_last())
    }
}

/// The chat tool call of the `i`-th function call of an assistant item;
/// its id is the item's `call_id`, else `call_<i>`.
pub open spec fn call_entry(i: int, tc: JsonV) -> JsonV {
    JsonV::Object(seq![
        ("id"@, jstr(match tc.field_str("call_id"@) {
            Some(c) => c,
            None => "call_"@ + dec(i as nat),
        })),
        ("type"@, jstr("function"@)),
        ("function"@, JsonV::Object(seq![
            ("name"@, jstr(tc.str_or("name"@, ""@))),
            ("arguments"@, jstr(tc.str_or("arguments"@, "{}"@))),
        ])),
    ])
}

/// The chat message of an assistant item: its output text (null where
/// empty) and, where it made function calls, those calls.
pub open spec fn assistant_item_message(item: JsonV) -> JsonV {
    let cp = item.field_or("content"@, JsonV::Null);
    let (text, calls) = match cp {
        JsonV::Array(arr) => (output_texts(arr), function_call_items(arr)),
        JsonV::Str(s) => (s, Seq::<JsonV>::empty()),
        _ => (Seq::<char>::empty(), Seq::<JsonV>::empty()),
    };
    let base = role_msg("assistant"@, if text.len() == 0 { JsonV::Null } else { jstr(text) });
    if calls.len() > 0 {
        base.with_field("tool_calls"@, JsonV::Array(calls.map(|i: int, tc: JsonV| call_entry(i, tc))))
    } else {
        base
    }
}

/// The `text`/`input_text` texts of a content list, in order.
pub open spec fn input_texts(arr: Seq<JsonV>) -> Seq<Seq<char>>
    decreases arr.len(),
{
    if arr.len() == 0 {
        Seq::empty()
    } else {
        let c = arr.last();
        let t = c.field_str("type"@);
        if (t == Some("text"@) || t == Some("input_text"@)) && c.field_str("text"@) is Some {
            input_texts(arr.drop_last()).push(c.field_str("text"@).unwrap())
        } else {
            input_texts(arr.drop_last())
        }
    }
}

/// The content text of any other item: the texts of a list joined by
/// spaces, a string as it is, the JSON text of anything else.
pub open spec fn item_content_text(content: JsonV) -> Seq<char> {
    match content {
        JsonV::Array(arr) => join(input_texts(arr), " "@),
        JsonV::Str(s) => s,
        _ => spec_json_text(content),
    }
}

/// The chat message that one `input` item gives, where it gives one.
pub open spec fn input_item_message(item: JsonV) -> Option<JsonV> {
    match item {
        JsonV::Str(s) => Some(role_msg("user"@, jstr(s))),
        JsonV::Object(_) => {
            let itype = item.str_or("type"@, ""@);
            let irole = item.str_or("role"@, ""@);
            if itype == "function_call_output"@ {
                Some(JsonV::Object(seq![
                    ("role"@, jstr("tool"@)),
                    ("tool_call_id"@, jstr(item.str_or("call_id"@, ""@))),
                    ("name"@, jstr(item.str_or("name"@, ""@))),
                    ("content"@, jstr(item.str_or("output"@, ""@))),
                ]))
            } else if irole == "assistant"@ {
                Some(assistant_item_message(item))
            } else {
                Some(role_msg(
                    if irole.len() == 0 { "user"@ } else { irole },
                    jstr(item_content_text(item.field_or("content"@, jstr(""@)))),
                ))
            }
        },
        _ => None,
    }
}

pub open spec fn input_items_messages(items: Seq<JsonV>) -> Seq<JsonV>
    decreases items.len(),
{
    if items.len() == 0 {
        Seq::empty()
    } else {
        match input_item_message(items.last()) {
            Some(m) => input_items_messages(items.drop_last()).push(m),
            None => input_items_messages(items.drop_last()),
        }
    }
}

/// The chat messages of a Responses request: its instructions as a system
/// message, then its `input` (a string, or a list of items).
pub open spec fn responses_messages(req: JsonV) -> Seq<JsonV> {
    let head = match req.field_str("instructions"@) {
        Some(i) => seq![role_msg("system"@, jstr(i))],
        None => Seq::empty(),
    };
    head + match req.field_or("input"@, JsonV::Null) {
        JsonV::Str(s) => seq![role_msg("user"@, jstr(s))],
        JsonV::Array(items) => input_items_messages(items),
        _ => Seq::empty(),
    }
}

/// A Responses-style tool (a function given at the top level) in the chat
/// format; other tools stay as they are.
pub open spec fn norm_tool(t: JsonV) -> JsonV {
    if t.field_str("type"@) == Some("function"@) && t.field("function"@) is None {
        JsonV::Object(seq![
            ("type"@, jstr("function"@)),
            ("function"@, JsonV::Object(seq![
                ("name"@, jstr(t.str_or("name"@, ""@))),
                ("description"@, jstr(t.str_or("description"@, ""@))),
                ("parameters"@, t.field_or("parameters"@, JsonV::Object(Seq::empty()))),
            ])),
        ])
    } else {
        t
    }
}

pub open spec fn responses_tools(req: JsonV) -> Option<Seq<JsonV>> {
    match req.field_array("tools"@) {
        Some(arr) => Some(arr.map_values(|t: JsonV| norm_tool(t))),
        None => None,
    }
}

fn role_msg_exec(role: &str, content: Json) -> (r: Json)
    ensures
        r@ == role_msg(role@, content@),
{
    obj2("role", Json::string(role), "content", content)
}

fn assistant_message_exec(item: &Json) -> (r: Json)
    ensures
        r@ == assistant_item_message(item@),
{
    let cp = match item.get("content") {
        Some(c) => c.duplicate(),
        None => Json::Null,
    };
    let mut text = String::new();
    let mut calls: Vec<Json> = Vec::new();
    match &cp {
        Json::Array(arr) => {
            proof {
                cp.lemma_array_view();
            }
            let ghost av = jviews(arr@);
            let mut i: usize = 0;
            while i < arr.len()
                invariant
                    i <= arr@.len(),
                    av == jviews(arr@),
                    text@ == output_texts(av.take(i as int)),
                    jviews(calls@) == function_call_items(av.take(i as int)),
                decreases arr@.len() - i,
            {
                assert(av.take(i + 1).drop_last() =~= av.take(i as int));
                assert(av.take(i + 1).last() == arr@[i as int]@);
                let c = &arr[i];
                let ct = c.str_or("type", "");
                proof {
                    reveal_strlit("output_text");
                    reveal_strlit("function_call");
                }
                let ghost prev = av.take(i as int);
                let ghost cur = av.take(i + 1);
                if str_eq(ct, "output_text") {
                    assert("output_text"@[0] != "function_call"@[0]);
                    assert(function_call_items(cur) == function_call_items(prev));
                    text.append(c.str_or("text", ""));
                } else {
                    assert(output_texts(cur) =~= output_texts(prev) + Seq::<char>::empty());
                    if str_eq(ct, "function_call") {
                        let d = c.duplicate();
                        assert(function_call_items(cur) == function_call_items(prev).push(d@));
                        proof {
                            lemma_jviews_push(calls@, d);
                        }
                        calls.push(d);
                    } else {
                        assert(function_call_items(cur) == function_call_items(prev));
                    }
                }
                i += 1;
            }
            assert(av.take(arr@.len() as int) =~= av);
        },
        Json::Str(s) => {
            text = s.clone();
            assert(jviews(calls@) =~= Seq::<JsonV>::empty());
        },
        _ => {
            assert(jviews(calls@) =~= Seq::<JsonV>::empty());
        },
    }
    let content = if text.as_str().is_empty() {
        Json::Null
    } else {
        Json::Str(text)
    };
    let mut m = role_msg_exec("assistant", content);
    if calls.len() > 0 {
        let ghost cv = jviews(calls@);
        let mut entries: Vec<Json> = Vec::new();
        let mut i: usize = 0;
        while i < calls.len()
            invariant
                i <= calls@.len(),
                cv == jviews(calls@),
                jviews(entries@) == cv.take(i as int).map(|k: int, tc: JsonV| call_entry(k, tc)),
            decreases calls@.len() - i,
        {
            let tc = &calls[i];
            assert(tc@ == cv[i as int]);
            let id = match tc.get_str("call_id") {
                Some(c) => owned(c),
                None => {
                    let mut s = owned("call_");
                    push_dec(&mut s, i as u64);
                    s
                },
            };
            let func = obj2("name", Json::string(tc.str_or("name", "")), "arguments", Json::string(tc.str_or("arguments", "{}")));
            let ghost idv: Seq<char> = id@;
            let ghost want = call_entry(i as int, cv[i as int]);
            assert(idv == (match cv[i as int].field_str("call_id"@) {
                Some(c) => c,
                None => "call_"@ + dec((i as int) as nat),
            }));
            assert(func@ == JsonV::Object(seq![
                ("name"@, jstr(cv[i as int].str_or("name"@, ""@))),
                ("arguments"@, jstr(cv[i as int].str_or("arguments"@, "{}"@))),
            ]));
            assert(want->Object_0 =~= seq![("id"@, jstr(idv)), ("type"@, jstr("function"@)), ("function"@, func@)]);
            let idj = Json::Str(id);
            assert(idj@ == jstr(idv));
            let e = obj3("id", idj, "type", Json::string("function"), "function", func);
            assert(e@ == call_entry(i as int, cv[i as int]));
            proof {
                lemma_jviews_push(entries@, e);
            }
            entries.push(e);
            assert(jviews(entries@) =~= cv.take(i + 1).map(|k: int, tc: JsonV| call_entry(k, tc)));
            i += 1;
        }
        assert(cv.take(calls@.len() as int) =~= cv);
        m.set("tool_calls", Json::array(entries));
    }
    m
}

fn item_content_text_exec(content: &Json) -> (r: String)
    ensures
        r@ == item_content_text(content@),
{
    match content {
        Json::Array(arr) => {
            proof {
                content.lemma_array_view();
            }
            let ghost av = jviews(arr@);
            let mut texts: Vec<String> = Vec::new();
            let mut i: usize = 0;
            while i < arr.len()
                invariant
                    i <= arr@.len(),
                    av == jviews(arr@),
                    views(texts@) == input_texts(av.take(i as int)),
                decreases arr@.len() - i,
            {
                assert(av.take(i + 1).drop_last() =~= av.take(i as int));
                assert(av.take(i + 1).last() == arr@[i as int]@);
                let c = &arr[i];
                let is_text = match c.get_str("type") {
                    Some(t) => str_eq(t, "text") || str_eq(t, "input_text"),
                    None => false,
                };
                if is_text {
                    match c.get_str("text") {
                        Some(t) => {
                            let o = owned(t);
                            proof {
                                crate::text::lemma_views_push(texts@, o);
                            }
                            texts.push(o);
                        },
                        None => {},
                    }
                }
                i += 1;
            }
            assert(av.take(arr@.len() as int) =~= av);
            crate::text::join_strings(&texts, " ")
        },
        Json::Str(s) => s.clone(),
        _ => to_json_text(content),
    }
}

fn input_item_message_exec(item: &Json) -> (r: Option<Json>)
    ensures
        match r {
            Some(m) => input_item_message(item@) == Some(m@),
            None => input_item_message(item@) is None,
        },
{
    match item {
        Json::Str(s) => Some(role_msg_exec("user", Json::string(s.as_str()))),
        Json::Object(_) => {
            let itype = item.str_or("type", "");
            let irole = item.str_or("role", "");
            if str_eq(itype, "function_call_output") {
                Some(obj4(
                    "role",
                    Json::string("tool"),
                    "tool_call_id",
                    Json::string(item.str_or("call_id", "")),
                    "name",
                    Json::string(item.str_or("name", "")),
                    "content",
                    Json::string(item.str_or("output", "")),
                ))
            } else if str_eq(irole, "assistant") {
                Some(assistant_message_exec(item))
            } else {
                let role = if irole.is_empty() {
                    "user"
                } else {
                    irole
                };
                let content = match item.get("content") {
                    Some(c) => c.duplicate(),
                    None => Json::string(""),
                };
                let text = item_content_text_exec(&content);
                Some(role_msg_exec(role, Json::Str(text)))
            }
        },
        _ => None,
    }
}

/// The chat messages of a Responses request.
pub fn responses_to_messages(req: &Json) -> (r: Vec<Json>)
    ensures
        jviews(r@) == responses_messages(req@),
{
    let mut msgs: Vec<Json> = Vec::new();
    match req.get_str("instructions") {
        Some(i) => {
            let m = role_msg_exec("system", Json::string(i));
            proof {
                lemma_jviews_push(msgs@, m);
            }
            msgs.push(m);
        },
        None => {},
    }
    let ghost head = jviews(msgs@);
    assert(head =~= match req@.field_str("instructions"@) {
        Some(i) => seq![role_msg("system"@, jstr(i))],
        None => Seq::<JsonV>::empty(),
    });
    let input = match req.get("input") {
        Some(x) => x.duplicate(),
        None => Json::Null,
    };
    match &input {
        Json::Str(s) => {
            let m = role_msg_exec("user", Json::string(s.as_str()));
            proof {
                lemma_jviews_push(msgs@, m);
            }
            msgs.push(m);
        },
        Json::Array(items) => {
            proof {
                input.lemma_array_view();
            }
            let ghost iv = jviews(items@);
            let mut i: usize = 0;
            while i < items.len()
                invariant
                    i <= items@.len(),
                    iv == jviews(items@),
                    jviews(msgs@) == head + input_items_messages(iv.take(i as int)),
                decreases items@.len() - i,
            {
                assert(iv.take(i + 1).drop_last() =~= iv.take(i as int));
                assert(iv.take(i + 1).last() == items@[i as int]@);
                match input_item_message_exec(&items[i]) {
                    Some(m) => {
                        proof {
                            lemma_jviews_push(msgs@, m);
                        }
                        msgs.push(m);
                        assert(jviews(msgs@) =~= head + input_items_messages(iv.take(i + 1)));
                    },
                    None => {},
                }
                i += 1;
            }
            assert(iv.take(items@.len() as int) =~= iv);
        },
        _ => {
            assert(jviews(msgs@) =~= head + Seq::<JsonV>::empty());
        },
    }
    msgs
}

fn norm_tool_exec(t: &Json) -> (r: Json)
    ensures
        r@ == norm_tool(t@),
{
    let is_fn = match t.get_str("type") {
        Some(ty) => str_eq(ty, "function"),
        None => false,
    };
    if is_fn && t.get("function").is_none() {
        let params = match t.get("parameters") {
            Some(p) => p.duplicate(),
            None => {
                let e: Vec<(String, Json)> = Vec::new();
                assert(fviews(e@) =~= Seq::<(Seq<char>, JsonV)>::empty());
                Json::object(e)
            },
        };
        let func = obj3(
            "name",
            Json::string(t.str_or("name", "")),
            "description",
            Json::string(t.str_or("description", "")),
            "parameters",
            params,
        );
        obj2("type", Json::string("function"), "function", func)
    } else {
        t.duplicate()
    }
}

/// The tools of a Responses request in the chat format.
pub fn responses_to_tools(req: &Json) -> (r: Option<Vec<Json>>)
    ensures
        match r {
            Some(v) => responses_tools(req@) == Some(jviews(v@)),
            None => responses_tools(req@) is None,
        },
{
    match req.get_array("tools") {
        Some(arr) => {
            let ghost av = jviews(arr@);
            let mut out: Vec<Json> = Vec::new();
            let mut i: usize = 0;
            while i < arr.len()
                invariant
                    i <= arr@.len(),
                    av == jviews(arr@),
                    jviews(out@) == av.take(i as int).map_values(|t: JsonV| norm_tool(t)),
                decreases arr@.len() - i,
            {
                let n = norm_tool_exec(&arr[i]);
                proof {
                    lemma_jviews_push(out@, n);
                }
                out.push(n);
                assert(jviews(out@) =~= av.take(i + 1).map_values(|t: JsonV| norm_tool(t)));
                i += 1;
            }
            assert(av.take(arr@.len() as int) =~= av);
            Some(out)
        },
        None => None,
    }
}

/// What a Responses request asks for, once read.
pub struct ResponsesPlan {
    pub model: Resolved,
    pub prompt: String,
    pub images: Vec<ImageItem>,
    pub stream: bool,
    pub has_tools: bool,
    pub tc_none: bool,
}

pub open spec fn responses_plan_error(body: Seq<char>, default: Seq<char>) -> Option<(u16, Seq<char>)> {
    match spec_json_parse(body) {
        None => Some((400, "invalid JSON"@)),
        Some(req) => match spec_resolve_model(requested_model(req, default), default) {
            Err(e) => Some((400, e)),
            Ok(_) => if trim(spec_messages_prompt(responses_messages(req), responses_tools(req), chat_tool_choice(req))).len() == 0 {
                Some((400, "empty input"@))
            } else {
                None
            },
        },
    }
}

pub open spec fn responses_plan_ok(body: Seq<char>, default: Seq<char>, p: ResponsesPlan) -> bool {
    match spec_json_parse(body) {
        Some(req) => {
            &&& spec_resolve_model(requested_model(req, default), default) == Ok::<ResolvedV, Seq<char>>(p.model@)
            &&& p.prompt@ == spec_messages_prompt(responses_messages(req), responses_tools(req), chat_tool_choice(req))
            &&& p.images@.len() == 0
            &&& p.stream == wants_stream(req)
            &&& p.has_tools == (responses_tools(req) matches Some(t) && t.len() > 0)
            &&& p.tc_none == (chat_tool_choice(req) == jstr("none"@))
        },
        None => false,
    }
}

/// Reads a Responses request body.
pub fn plan_responses(body: &str, default_model: &str) -> (r: Result<ResponsesPlan, ApiError>)
    requires
        spec_get_model(default_model@) is Some,
    ensures
        match responses_plan_error(body@, default_model@) {
            Some((status, msg)) => is_error(r, status, msg),
            None => r matches Ok(p) && responses_plan_ok(body@, default_model@, p),
        },
{
    let req = match parse_body(body) {
        Some(v) => v,
        None => return Err(api_error(400, "invalid JSON")),
    };
    let model_req = req.str_or("model", default_model);
    let model = match resolve_model(model_req, default_model) {
        Ok(m) => m,
        Err(e) => return Err(ApiError { status: 400, message: e }),
    };
    let messages = responses_to_messages(&req);
    let tools = responses_to_tools(&req);
    let tool_choice = match req.get("tool_choice") {
        Some(t) => t.duplicate(),
        None => Json::string("auto"),
    };
    let tools_ref: Option<&Vec<Json>> = match &tools {
        Some(t) => Some(t),
        None => None,
    };
    assert(opt_jviews(tools_ref) == responses_tools(req@));
    let (prompt, images) = messages_to_prompt(&messages, tools_ref, &tool_choice);
    if is_blank(prompt.as_str()) {
        return Err(api_error(400, "empty input"));
    }
    let stream = match req.get("stream") {
        Some(s) => match s.as_bool() {
            Some(b) => b,
            None => false,
        },
        None => false,
    };
    let has_tools = match &tools {
        Some(t) => t.len() > 0,
        None => false,
    };
    let tc_none = tool_choice.is_str("none");
    Ok(ResponsesPlan { model, prompt, images, stream, has_tools, tc_none })
}

/// The output item of one tool call.
pub open spec fn call_output_item(tc: JsonV) -> JsonV {
    JsonV::Object(seq![
        ("type"@, jstr("function_call"@)),
        ("id"@, index_field(tc, "id"@)),
        ("call_id"@, index_field(tc, "id"@)),
        ("name"@, index_field(index_field(tc, "function"@), "name"@)),
        ("arguments"@, index_field(index_field(tc, "function"@), "arguments"@)),
        ("status"@, jstr("completed"@)),
    ])
}

/// The output item of the answer text.
pub open spec fn message_output_item(mid: Seq<char>, text: Seq<char>) -> JsonV {
    JsonV::Object(seq![
        ("type"@, jstr("message"@)),
        ("id"@, jstr(mid)),
        ("role"@, jstr("assistant"@)),
        ("status"@, jstr("completed"@)),
        ("content"@, JsonV::Array(seq![JsonV::Object(seq![
            ("type"@, jstr("output_text"@)),
            ("text"@, jstr(text)),
            ("annotations"@, JsonV::Array(Seq::empty())),
        ])])),
    ])
}

/// The output of a Responses answer: one item per tool call, then the
/// message, where there is text or no call at all.
pub open spec fn spec_responses_output(calls: Seq<JsonV>, text: Seq<char>, mid: Seq<char>) -> Seq<JsonV> {
    calls.map_values(|tc: JsonV| call_output_item(tc)) + if text.len() > 0 || calls.len() == 0 {
        seq![message_output_item(mid, text)]
    } else {
        Seq::empty()
    }
}

/// Every Responses answer has output: one item per tool call, and the
/// message item unless there are calls and no text.
pub proof fn law_responses_output_items(calls: Seq<JsonV>, text: Seq<char>, mid: Seq<char>)
    ensures
        spec_responses_output(calls, text, mid).len() == calls.len() + if text.len() > 0 || calls.len() == 0 {
            1int
        } else {
            0int
        },
        spec_responses_output(calls, text, mid).len() >= 1,
{
}

pub fn responses_output(calls: &Vec<Json>, text: &str, mid: &str) -> (r: Vec<Json>)
    ensures
        jviews(r@) == spec_responses_output(jviews(calls@), text@, mid@),
{
    let ghost cv = jviews(calls@);
    let mut out: Vec<Json> = Vec::new();
    let mut i: usize = 0;
    while i < calls.len()
        invariant
            i <= calls@.len(),
            cv == jviews(calls@),
            jviews(out@) == cv.take(i as int).map_values(|tc: JsonV| call_output_item(tc)),
        decreases calls@.len() - i,
    {
        let tc = &calls[i];
        let f = index_field_exec(tc, "function");
        let item = obj6(
            "type",
            Json::string("function_call"),
            "id",
            index_field_exec(tc, "id"),
            "call_id",
            index_field_exec(tc, "id"),
            "name",
            index_field_exec(&f, "name"),
            "arguments",
            index_field_exec(&f, "arguments"),
            "status",
            Json::string("completed"),
        );
        proof {
            lemma_jviews_push(out@, item);
        }
        out.push(item);
        assert(jviews(out@) =~= cv.take(i + 1).map_values(|tc: JsonV| call_output_item(tc)));
        i += 1;
    }
    assert(cv.take(calls@.len() as int) =~= cv);
    if !text.is_empty() || calls.len() == 0 {
        let part = obj3("type", Json::string("output_text"), "text", Json::string(text), "annotations", arr0());
        let item = obj5(
            "type",
            Json::string("message"),
            "id",
            Json::string(mid),
            "role",
            Json::string("assistant"),
            "status",
            Json::string("completed"),
            "content",
            arr1(part),
        );
        proof {
            lemma_jviews_push(out@, item);
        }
        out.push(item);
    }
    assert(jviews(out@) =~= spec_responses_output(cv, text@, mid@));
    out
}

/// The usage of a Responses answer.
pub open spec fn responses_usage(pt: nat, ot: nat) -> JsonV {
    JsonV::Object(seq![
        ("input_tokens"@, int_json(pt as int)),
        ("output_tokens"@, int_json(ot as int)),
        ("total_tokens"@, int_json((pt + ot) as int)),
    ])
}

/// The body of a complete Responses answer.
pub open spec fn spec_responses_body(rid: Seq<char>, created: nat, model: Seq<char>, output: Seq<JsonV>, prompt: Seq<char>, text: Seq<char>) -> JsonV {
    JsonV::Object(seq![
        ("id"@, jstr(rid)),
        ("object"@, jstr("response"@)),
        ("created_at"@, int_json(created as int)),
        ("status"@, jstr("completed"@)),
        ("model"@, jstr(model)),
        ("output"@, JsonV::Array(output)),
        ("usage"@, responses_usage(spec_tok(prompt), spec_tok(text))),
    ])
}

pub fn responses_body(rid: &str, created: u64, model: &str, output: Vec<Json>, prompt: &str, text: &str) -> (r: Json)
    ensures
        r@ == spec_responses_body(rid@, created as nat, model@, jviews(output@), prompt@, text@),
{
    let pt = tok(prompt);
    let ot = tok(text);
    let usage = obj3("input_tokens", Json::natural(pt), "output_tokens", Json::natural(ot), "total_tokens", Json::natural(pt + ot));
    obj7(
        "id",
        Json::string(rid),
        "object",
        Json::string("response"),
        "created_at",
        Json::natural(created),
        "status",
        Json::string("completed"),
        "model",
        Json::string(model),
        "output",
        Json::array(output),
        "usage",
        usage,
    )
}

/// The events of one output item of a streamed Responses answer.
pub open spec fn item_events(item: JsonV) -> Seq<Seq<char>> {
    let t = item.field_str("type"@);
    if t == Some("function_call"@) {
        seq![spec_sse_event("response.function_call_arguments.done"@, JsonV::Object(seq![
            ("type"@, jstr("response.function_call_arguments.done"@)),
            ("item_id"@, index_field(item, "id"@)),
            ("call_id"@, index_field(item, "call_id"@)),
            ("name"@, index_field(item, "name"@)),
            ("arguments"@, index_field(item, "arguments"@)),
        ]))]
    } else if t == Some("message"@) {
        match item.field_array("content"@) {
            Some(content) => content.map(|ci: int, cp: JsonV| spec_sse_event("response.output_text.done"@, JsonV::Object(seq![
                ("type"@, jstr("response.output_text.done"@)),
                ("item_id"@, index_field(item, "id"@)),
                ("content_index"@, int_json(ci)),
                ("text"@, index_field(cp, "text"@)),
            ]))),
            None => Seq::empty(),
        }
    } else {
        Seq::empty()
    }
}

pub open spec fn items_events(items: Seq<JsonV>) -> Seq<Seq<char>>
    decreases items.len(),
{
    if items.len() == 0 {
        Seq::empty()
    } else {
        items_events(items.drop_last()) + item_events(items.last())
    }
}

/// The events of a streamed Responses answer: created, one per output
/// item (or per text of a message), completed.
pub open spec fn spec_responses_events(rid: Seq<char>, model: Seq<char>, output: Seq<JsonV>, prompt: Seq<char>, text: Seq<char>) -> Seq<Seq<char>> {
    let created = JsonV::Object(seq![
        ("type"@, jstr("response.created"@)),
        ("response"@, JsonV::Object(seq![
            ("id"@, jstr(rid)),
            ("object"@, jstr("response"@)),
            ("status"@, jstr("in_progress"@)),
            ("model"@, jstr(model)),
            ("output"@, JsonV::Array(Seq::empty())),
        ])),
    ]);
    let resp = JsonV::Object(seq![
        ("id"@, jstr(rid)),
        ("object"@, jstr("response"@)),
        ("status"@, jstr("completed"@)),
        ("model"@, jstr(model)),
        ("output"@, JsonV::Array(output)),
        ("usage"@, responses_usage(spec_tok(prompt), spec_tok(text))),
    ]);
    let done = JsonV::Object(seq![("type"@, jstr("response.completed"@)), ("response"@, resp)]);
    seq![spec_sse_event("response.created"@, created)] + items_events(output) + seq![spec_sse_event("response.completed"@, done)]
}

fn item_events_exec(item: &Json) -> (r: Vec<String>)
    ensures
        views(r@) == item_events(item@),
{
    let mut evs: Vec<String> = Vec::new();
    let is_call = match item.get_str("type") {
        Some(t) => str_eq(t, "function_call"),
        None => false,
    };
    let is_msg = match item.get_str("type") {
        Some(t) => str_eq(t, "message"),
        None => false,
    };
    if is_call {
        let ev = obj5(
            "type",
            Json::string("response.function_call_arguments.done"),
            "item_id",
            index_field_exec(item, "id"),
            "call_id",
            index_field_exec(item, "call_id"),
            "name",
            index_field_exec(item, "name"),
            "arguments",
            index_field_exec(item, "arguments"),
        );
        let e = sse_event("response.function_call_arguments.done", &ev);
        proof {
            crate::text::lemma_views_push(evs@, e);
        }
        evs.push(e);
        assert(views(evs@) =~= item_events(item@));
    } else if is_msg {
        match item.get_array("content") {
            Some(content) => {
                let ghost cv = jviews(content@);
                let mut ci: usize = 0;
                while ci < content.len()
                    invariant
                        ci <= content@.len(),
                        cv == jviews(content@),
                        views(evs@) == cv.take(ci as int).map(|k: int, cp: JsonV| spec_sse_event("response.output_text.done"@, JsonV::Object(seq![
                            ("type"@, jstr("response.output_text.done"@)),
                            ("item_id"@, index_field(item@, "id"@)),
                            ("content_index"@, int_json(k)),
                            ("text"@, index_field(cp, "text"@)),
                        ]))),
                    decreases content@.len() - ci,
                {
                    let ev = obj4(
                        "type",
                        Json::string("response.output_text.done"),
                        "item_id",
                        index_field_exec(item, "id"),
                        "content_index",
                        Json::natural(ci as u64),
                        "text",
                        index_field_exec(&content[ci], "text"),
                    );
                    let e = sse_event("response.output_text.done", &ev);
                    proof {
                        crate::text::lemma_views_push(evs@, e);
                    }
                    evs.push(e);
                    assert(views(evs@) =~= cv.take(ci + 1).map(|k: int, cp: JsonV| spec_sse_event("response.output_text.done"@, JsonV::Object(seq![
                        ("type"@, jstr("response.output_text.done"@)),
                        ("item_id"@, index_field(item@, "id"@)),
                        ("content_index"@, int_json(k)),
                        ("text"@, index_field(cp, "text"@)),
                    ]))));
                    ci += 1;
                }
                assert(cv.take(content@.len() as int) =~= cv);
            },
            None => {
                assert(views(evs@) =~= Seq::<Seq<char>>::empty());
            },
        }
    } else {
        assert(views(evs@) =~= Seq::<Seq<char>>::empty());
    }
    evs
}

/// The events of a streamed Responses answer, in order.
pub fn responses_events(rid: &str, model: &str, output: &Vec<Json>, prompt: &str, text: &str) -> (r: Vec<String>)
    ensures
        views(r@) == spec_responses_events(rid@, model@, jviews(output@), prompt@, text@),
{
    let mut evs: Vec<String> = Vec::new();
    let resp0 = obj5(
        "id",
        Json::string(rid),
        "object",
        Json::string("response"),
        "status",
        Json::string("in_progress"),
        "model",
        Json::string(model),
        "output",
        arr0(),
    );
    let created = obj2("type", Json::string("response.created"), "response", resp0);
    let e0 = sse_event("response.created", &created);
    proof {
        crate::text::lemma_views_push(evs@, e0);
    }
    evs.push(e0);
    let ghost head = views(evs@);
    let ghost ov = jviews(output@);
    let mut i: usize = 0;
    while i < output.len()
        invariant
            i <= output@.len(),
            ov == jviews(output@),
            views(evs@) == head + items_events(ov.take(i as int)),
        decreases output@.len() - i,
    {
        assert(ov.take(i + 1).drop_last() =~= ov.take(i as int));
        assert(ov.take(i + 1).last() == output@[i as int]@);
        let more = item_events_exec(&output[i]);
        crate::text::extend_strings(&mut evs, &more);
        assert(views(evs@) =~= head + items_events(ov.take(i + 1)));
        i += 1;
    }
    assert(ov.take(output@.len() as int) =~= ov);
    let pt = tok(prompt);
    let ot = tok(text);
    let usage = obj3("input_tokens", Json::natural(pt), "output_tokens", Json::natural(ot), "total_tokens", Json::natural(pt + ot));
    let resp = obj6(
        "id",
        Json::string(rid),
        "object",
        Json::string("response"),
        "status",
        Json::string("completed"),
        "model",
        Json::string(model),
        "output",
        Json::array(copy_all(output)),
        "usage",
        usage,
    );
    let done = obj2("type", Json::string("response.completed"), "response", resp);
    let e1 = sse_event("response.completed", &done);
    proof {
        crate::text::lemma_views_push(evs@, e1);
    }
    evs.push(e1);
    assert(views(evs@) =~= spec_responses_events(rid@, model@, ov, prompt@, text@));
    evs
}

// ---------------------------------------------------------------------------
// Routing of other paths
// ---------------------------------------------------------------------------

/// Where a request that no fixed route takes goes.
pub enum FallbackRoute {
    /// Google generation, streamed or not.
    GoogleGenerate { stream: bool },
    /// Answer `404 not found`.
    NotFound,
}

/// A POST whose path holds `:streamGenerateContent` streams, one that holds
/// `:generateContent` does not; anything else is not found.
pub open spec fn spec_fallback_route(is_post: bool, path: Seq<char>) -> FallbackRoute {
    if is_post && crate::text::contains(path, ":streamGenerateContent"@) {
        FallbackRoute::GoogleGenerate { stream: true }
    } else if is_post && crate::text::contains(path, ":generateContent"@) {
        FallbackRoute::GoogleGenerate { stream: false }
    } else {
        FallbackRoute::NotFound
    }
}

pub fn fallback_route(is_post: bool, path: &str) -> (r: FallbackRoute)
    ensures
        r == spec_fallback_route(is_post, path@),
{
    if is_post {
        if crate::text::contains_str(path, ":streamGenerateContent") {
            return FallbackRoute::GoogleGenerate { stream: true };
        }
        if crate::text::contains_str(path, ":generateContent") {
            return FallbackRoute::GoogleGenerate { stream: false };
        }
    }
    FallbackRoute::NotFound
}

} // verus!
