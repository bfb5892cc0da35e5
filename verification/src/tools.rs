//! Tool calling and message-to-prompt conversion, for the OpenAI and the
//! Google request formats.
use vstd::prelude::*;
use crate::base64::{decode, spec_decode};
use crate::json::{lookup, obj2, obj3, lemma_jviews_push, Json, JsonV, jviews, fviews, json_to_string, json_to_string_pretty, spec_json_text, spec_json_pretty, parse_json, spec_json_parse, opt_view};
use crate::pattern::{remove_all, remove_matches, captures_group1, group1_texts};
use crate::ids::{all_hex_lower, random_uuid_simple, id_from};
use crate::text::{lemma_views_push, views, join, non_empty, join_strings, join_non_empty, owned, concat2, concat3, trim, trim_str, trim_start, trim_start_str, starts_with_char, str_eq, push_char};
use vstd::string::StringSliceAdditionalSpecFns;

verus! {

/// A decoded image: (raw bytes, mime type).
pub type ImageItem = (Vec<u8>, String);

/// The model of a list of images.
pub open spec fn images_view(v: Seq<ImageItem>) -> Seq<(Seq<u8>, Seq<char>)> {
    v.map_values(|i: ImageItem| (i.0@, i.1@))
}

// ---------------------------------------------------------------------------
// Fixed texts
// ---------------------------------------------------------------------------

pub open spec fn no_tools_text() -> Seq<char> {
    "\n\nIMPORTANT: Do NOT call any tools. Respond with text only."@
}

pub open spec fn must_call_text() -> Seq<char> {
    "\n\nIMPORTANT: You MUST call at least one tool. Do not respond with text only."@
}

pub open spec fn openai_tool_intro() -> Seq<char> {
    "# Tool Use\n\nYou can call the following tools. Call format:\n```tool_call\n{\"name\": \"func_name\", \"arguments\": {...}}\n```\nWhen calling tools, output ONLY the tool_call block(s).\n\nAvailable tools:\n"@
}

pub open spec fn google_tool_intro() -> Seq<char> {
    "# Tool Use\n\nYou can call the following tools to help accomplish tasks. These tools connect to the user's local environment and will execute when called.\n\nCall format (use this exact format):\n```function_call\n{\"name\": \"<tool_name>\", \"args\": {<arguments>}}\n```\n\nWhen calling tools:\n- Output ONLY the function_call block(s), nothing else\n- You may call multiple tools with multiple blocks\n- After receiving a [Tool result for ...], use that data to answer the user\n\nAvailable tools:\n"@
}

pub open spec fn image_note() -> Seq<char> {
    "[Note: Image input not supported in this API. Please describe the image in text.]"@
}

/// The JSON string `s`.
pub open spec fn jstr(s: Seq<char>) -> JsonV {
    JsonV::Str(s)
}

/// `value.get(key)` followed by `.get(key2)`.
pub open spec fn field2(v: JsonV, k1: Seq<char>, k2: Seq<char>) -> Option<JsonV> {
    match v.field(k1) {
        Some(x) => x.field(k2),
        None => None,
    }
}

// ---------------------------------------------------------------------------
// OpenAI tool choice and tool definitions
// ---------------------------------------------------------------------------

/// The instruction that a `tool_choice` adds to the tool prompt.
pub open spec fn spec_tool_choice_instruction(tc: JsonV) -> Seq<char> {
    if tc == jstr("none"@) {
        no_tools_text()
    } else if tc == jstr("required"@) {
        must_call_text()
    } else if tc is Object {
        match field2(tc, "function"@, "name"@) {
            Some(JsonV::Str(name)) => if name.len() > 0 {
                "\n\nIMPORTANT: You MUST call the tool \""@ + name + "\". Do not call other tools."@
            } else {
                Seq::empty()
            },
            _ => Seq::empty(),
        }
    } else {
        Seq::empty()
    }
}

/// Build a tool_choice constraint instruction. `tool_choice` is the raw JSON value.
pub fn build_tool_choice_instruction(tool_choice: &Json) -> (r: String)
    ensures
        r@ == spec_tool_choice_instruction(tool_choice@),
{
    if tool_choice.is_str("none") {
        return owned("\n\nIMPORTANT: Do NOT call any tools. Respond with text only.");
    }
    if tool_choice.is_str("required") {
        return owned("\n\nIMPORTANT: You MUST call at least one tool. Do not respond with text only.");
    }
    if tool_choice.is_object() {
        match tool_choice.get("function") {
            Some(f) => match f.get("name") {
                Some(n) => match n.as_str() {
                    Some(name) => {
                        if !name.is_empty() {
                            return concat3(
                                "\n\nIMPORTANT: You MUST call the tool \"",
                                name,
                                "\". Do not call other tools.",
                            );
                        }
                    },
                    None => {},
                },
                None => {},
            },
            None => {},
        }
    }
    String::new()
}

/// `fn_obj.get(key)`, else `tool.get(key)`, else null.
pub open spec fn pick(fn_obj: JsonV, tool: JsonV, key: Seq<char>) -> JsonV {
    match fn_obj.field(key) {
        Some(v) => v,
        None => match tool.field(key) {
            Some(v) => v,
            None => JsonV::Null,
        },
    }
}

/// `v`, or `default` where `v` is null.
pub open spec fn or_if_null(v: JsonV, default: JsonV) -> JsonV {
    if v is Null {
        default
    } else {
        v
    }
}

/// The definition `{name, description, parameters}` of an OpenAI tool entry:
/// read from its `function` object where its type is `function`, else from
/// the entry itself, falling back to the entry's own fields; a missing or
/// null name or description becomes `""`, missing parameters `{}`.
pub open spec fn spec_tool_def(tool: JsonV) -> JsonV {
    let is_function = tool.field_str("type"@) == Some("function"@);
    let fn_obj = if is_function {
        tool.field_or("function"@, tool)
    } else {
        tool
    };
    JsonV::Object(seq![
        ("name"@, or_if_null(pick(fn_obj, tool, "name"@), jstr(""@))),
        ("description"@, or_if_null(pick(fn_obj, tool, "description"@), jstr(""@))),
        ("parameters"@, or_if_null(pick(fn_obj, tool, "parameters"@), JsonV::Object(Seq::empty()))),
    ])
}

fn pick_exec(fn_obj: &Json, tool: &Json, key: &str) -> (r: Json)
    ensures
        r@ == pick(fn_obj@, tool@, key@),
{
    match fn_obj.get(key) {
        Some(v) => v.duplicate(),
        None => match tool.get(key) {
            Some(v) => v.duplicate(),
            None => Json::Null,
        },
    }
}

fn empty_object() -> (r: Json)
    ensures
        r@ == JsonV::Object(Seq::empty()),
{
    let f: Vec<(String, Json)> = Vec::new();
    let r = Json::object(f);
    assert(fviews(f@) =~= Seq::<(Seq<char>, JsonV)>::empty());
    r
}

fn or_null_default(v: Json, default: Json) -> (r: Json)
    ensures
        r@ == or_if_null(v@, default@),
{
    if v.is_null() {
        default
    } else {
        v
    }
}

/// Extract a tool definition {name, description, parameters} from an OpenAI tool entry.
pub fn extract_tool_def(tool: &Json) -> (r: Json)
    ensures
        r@ == spec_tool_def(tool@),
{
    let is_function = match tool.get_str("type") {
        Some(t) => str_eq(t, "function"),
        None => false,
    };
    let fn_obj = if is_function {
        match tool.get("function") {
            Some(f) => f,
            None => tool,
        }
    } else {
        tool
    };
    let name = or_null_default(pick_exec(fn_obj, tool, "name"), Json::string(""));
    let desc = or_null_default(pick_exec(fn_obj, tool, "description"), Json::string(""));
    let params = or_null_default(pick_exec(fn_obj, tool, "parameters"), empty_object());
    obj3("name", name, "description", desc, "parameters", params)
}

// ---------------------------------------------------------------------------
// OpenAI messages
// ---------------------------------------------------------------------------

/// The text of one content part of an OpenAI message.
pub open spec fn content_part_text(c: JsonV) -> Option<Seq<char>> {
    let ctype = c.str_or("type"@, ""@);
    if ctype == "text"@ || ctype == "input_text"@ {
        Some(c.str_or("text"@, ""@))
    } else if ctype == "image_url"@ || ctype == "image"@ {
        Some(image_note())
    } else {
        None
    }
}

/// The texts of the content parts, in order.
pub open spec fn content_texts(parts: Seq<JsonV>) -> Seq<Seq<char>>
    decreases parts.len(),
{
    if parts.len() == 0 {
        Seq::empty()
    } else {
        match content_part_text(parts.last()) {
            Some(t) => content_texts(parts.drop_last()).push(t),
            None => content_texts(parts.drop_last()),
        }
    }
}

/// OpenAI content as text: a string as it is, the text parts of a list
/// joined by spaces (an image part becomes a note), nothing for null, and
/// the JSON text of any other value.
pub open spec fn spec_flatten_content(content: JsonV) -> Seq<char> {
    match content {
        JsonV::Str(s) => s,
        JsonV::Array(arr) => join(content_texts(arr), " "@),
        JsonV::Null => Seq::empty(),
        _ => spec_json_text(content),
    }
}

/// Flatten OpenAI content which may be a string or a list of parts.
pub fn flatten_content(content: &Json) -> (r: String)
    ensures
        r@ == spec_flatten_content(content@),
{
    match content {
        Json::Str(s) => s.clone(),
        Json::Array(arr) => {
            proof {
                content.lemma_array_view();
            }
            let ghost av = jviews(arr@);
            let mut texts: Vec<String> = Vec::new();
            let mut i: usize = 0;
            while i < arr.len()
                invariant
                    i <= arr@.len(),
                    av == jviews(arr@),
                    views(texts@) == content_texts(av.take(i as int)),
                decreases arr@.len() - i,
            {
                assert(av.take(i + 1).drop_last() =~= av.take(i as int));
                assert(av.take(i + 1).last() == arr@[i as int]@);
                let c = &arr[i];
                let ctype = c.str_or("type", "");
                if str_eq(ctype, "text") || str_eq(ctype, "input_text") {
                    texts.push(owned(c.str_or("text", "")));
                    assert(views(texts@) =~= content_texts(av.take(i + 1)));
                } else if str_eq(ctype, "image_url") || str_eq(ctype, "image") {
                    texts.push(owned("[Note: Image input not supported in this API. Please describe the image in text.]"));
                    assert(views(texts@) =~= content_texts(av.take(i + 1)));
                }
                i += 1;
            }
            assert(av.take(arr@.len() as int) =~= av);
            join_strings(&texts, " ")
        },
        Json::Null => String::new(),
        _ => json_to_string(content),
    }
}

/// One tool call of an assistant message, as a `tool_call` block.
pub open spec fn tool_call_block(tc: JsonV) -> Seq<char> {
    let fnobj = tc.field_or("function"@, JsonV::Null);
    "```tool_call\n{\"name\": \""@ + fnobj.str_or("name"@, ""@) + "\", \"arguments\": "@ + fnobj.str_or(
        "arguments"@,
        "{}"@,
    ) + "}\n```"@
}

pub open spec fn tool_call_blocks(tcs: Seq<JsonV>) -> Seq<Seq<char>> {
    tcs.map_values(|tc: JsonV| tool_call_block(tc))
}

/// The prompt part of one OpenAI message, where it has one.
pub open spec fn spec_message_part(msg: JsonV) -> Option<Seq<char>> {
    let role = msg.str_or("role"@, "user"@);
    let cs = spec_flatten_content(msg.field_or("content"@, JsonV::Null));
    if role == "system"@ {
        Some("[System instruction]: "@ + cs)
    } else if role == "assistant"@ {
        match msg.field_array("tool_calls"@) {
            Some(tcs) => Some("[Assistant]: "@ + cs + "\n"@ + join(tool_call_blocks(tcs), "\n"@)),
            None => Some("[Assistant]: "@ + cs),
        }
    } else if role == "tool"@ {
        Some("[Tool result for "@ + msg.str_or("name"@, ""@) + "]: "@ + cs)
    } else if cs.len() > 0 {
        Some(cs)
    } else {
        None
    }
}

/// The prompt parts of the messages, in order.
pub open spec fn message_parts(msgs: Seq<JsonV>) -> Seq<Seq<char>>
    decreases msgs.len(),
{
    if msgs.len() == 0 {
        Seq::empty()
    } else {
        match spec_message_part(msgs.last()) {
            Some(p) => message_parts(msgs.drop_last()).push(p),
            None => message_parts(msgs.drop_last()),
        }
    }
}

/// The tool-use block of the OpenAI prompt, where tools are offered and the
/// tool choice is not `none`.
pub open spec fn openai_tool_block(tools: Option<Seq<JsonV>>, tool_choice: JsonV) -> Seq<Seq<char>> {
    match tools {
        Some(ts) => if tool_choice != jstr("none"@) && ts.len() > 0 {
            seq![openai_tool_intro() + spec_json_pretty(JsonV::Array(ts.map_values(|t: JsonV| spec_tool_def(t))))
                + spec_tool_choice_instruction(tool_choice)]
        } else {
            Seq::empty()
        },
        None => Seq::empty(),
    }
}

/// The prompt for OpenAI messages: the tool block, then each message's
/// part, the non-empty ones joined by blank lines.
pub open spec fn spec_messages_prompt(msgs: Seq<JsonV>, tools: Option<Seq<JsonV>>, tool_choice: JsonV) -> Seq<char> {
    join(non_empty(openai_tool_block(tools, tool_choice) + message_parts(msgs)), "\n\n"@)
}

/// `tool_choice: "none"` keeps the tools out of the prompt: the prompt is
/// the one the messages give without any tools.
pub proof fn law_tool_choice_none_hides_tools(msgs: Seq<JsonV>, tools: Option<Seq<JsonV>>, other: JsonV)
    ensures
        spec_messages_prompt(msgs, tools, jstr("none"@)) == spec_messages_prompt(msgs, None, other),
{
    assert(Seq::<Seq<char>>::empty() + message_parts(msgs) =~= message_parts(msgs));
}

/// An empty tool list gives the same prompt as no tool list.
pub proof fn law_empty_tools_as_none(msgs: Seq<JsonV>, choice: JsonV)
    ensures
        spec_messages_prompt(msgs, Some(Seq::empty()), choice) == spec_messages_prompt(msgs, None, choice),
{
    assert(Seq::<Seq<char>>::empty() + message_parts(msgs) =~= message_parts(msgs));
}

/// With tools offered (a non-empty list and a choice other than `none`),
/// the prompt starts with the tool block: the introduction, then the
/// indented JSON of an array holding, for each tool in order, its
/// definition, then the tool-choice instruction.
pub proof fn law_prompt_offers_every_tool(msgs: Seq<JsonV>, ts: Seq<JsonV>, choice: JsonV)
    requires
        ts.len() > 0,
        choice != jstr("none"@),
    ensures
        ({
            let head = openai_tool_intro() + spec_json_pretty(JsonV::Array(Seq::new(ts.len(), |k: int| spec_tool_def(ts[k]))))
                + spec_tool_choice_instruction(choice);
            let p = spec_messages_prompt(msgs, Some(ts), choice);
            &&& p.len() >= head.len()
            &&& p.subrange(0, head.len() as int) == head
        }),
{
    reveal_strlit("# Tool Use\n\nYou can call the following tools. Call format:\n```tool_call\n{\"name\": \"func_name\", \"arguments\": {...}}\n```\nWhen calling tools, output ONLY the tool_call block(s).\n\nAvailable tools:\n");
    assert(ts.map_values(|t: JsonV| spec_tool_def(t)) =~= Seq::new(ts.len(), |k: int| spec_tool_def(ts[k])));
    let head = openai_tool_intro() + spec_json_pretty(JsonV::Array(Seq::new(ts.len(), |k: int| spec_tool_def(ts[k]))))
        + spec_tool_choice_instruction(choice);
    assert(openai_tool_block(Some(ts), choice) == seq![head]);
    assert(head.len() > 0);
    crate::text::lemma_non_empty_front(head, message_parts(msgs));
    crate::text::lemma_join_front(head, non_empty(message_parts(msgs)), "\n\n"@);
}

pub open spec fn opt_jviews(t: Option<&Vec<Json>>) -> Option<Seq<JsonV>> {
    match t {
        Some(v) => Some(jviews(v@)),
        None => None,
    }
}

fn message_part(msg: &Json) -> (r: Option<String>)
    ensures
        match r {
            Some(p) => spec_message_part(msg@) == Some(p@),
            None => spec_message_part(msg@) is None,
        },
{
    let role = msg.str_or("role", "user");
    let content = match msg.get("content") {
        Some(c) => c.duplicate(),
        None => Json::Null,
    };
    let cs = flatten_content(&content);
    if str_eq(role, "system") {
        Some(concat2("[System instruction]: ", cs.as_str()))
    } else if str_eq(role, "assistant") {
        match msg.get_array("tool_calls") {
            Some(tcs) => {
                let ghost tv = jviews(tcs@);
                let mut strs: Vec<String> = Vec::new();
                let mut i: usize = 0;
                while i < tcs.len()
                    invariant
                        i <= tcs@.len(),
                        tv == jviews(tcs@),
                        views(strs@) == tool_call_blocks(tv.take(i as int)),
                    decreases tcs@.len() - i,
                {
                    let tc = &tcs[i];
                    let fnobj = match tc.get("function") {
                        Some(f) => f.duplicate(),
                        None => Json::Null,
                    };
                    let name = fnobj.str_or("name", "");
                    let args = fnobj.str_or("arguments", "{}");
                    let mut b = owned("```tool_call\n{\"name\": \"");
                    b.append(name);
                    b.append("\", \"arguments\": ");
                    b.append(args);
                    b.append("}\n```");
                    assert(b@ =~= tool_call_block(tv[i as int]));
                    proof {
                        lemma_views_push(strs@, b);
                        assert(tv.take(i + 1).drop_last() =~= tv.take(i as int));
                        assert(tool_call_blocks(tv.take(i + 1)) =~= tool_call_blocks(tv.take(i as int)).push(tool_call_block(tv[i as int])));
                    }
                    strs.push(b);
                    assert(views(strs@) =~= tool_call_blocks(tv.take(i + 1)));
                    i += 1;
                }
                assert(tv.take(tcs@.len() as int) =~= tv);
                let joined = join_strings(&strs, "\n");
                let mut p = concat2("[Assistant]: ", cs.as_str());
                p.append("\n");
                p.append(joined.as_str());
                Some(p)
            },
            None => Some(concat2("[Assistant]: ", cs.as_str())),
        }
    } else if str_eq(role, "tool") {
        let name = msg.str_or("name", "");
        let mut p = concat3("[Tool result for ", name, "]: ");
        p.append(cs.as_str());
        Some(p)
    } else if !cs.as_str().is_empty() {
        Some(cs)
    } else {
        None
    }
}

/// Convert OpenAI messages to (prompt_str, images). Images are decoded (bytes, mime).
///
/// The OpenAI path does not take image input (image parts become a note
/// and are not uploaded), so `images` is always empty here.
pub fn messages_to_prompt(messages: &Vec<Json>, tools: Option<&Vec<Json>>, tool_choice: &Json) -> (r: (String, Vec<ImageItem>))
    ensures
        r.0@ == spec_messages_prompt(jviews(messages@), opt_jviews(tools), tool_choice@),
        r.1@.len() == 0,
{
    let mut parts: Vec<String> = Vec::new();
    let images: Vec<ImageItem> = Vec::new();
    match tools {
        Some(ts) => {
            if !tool_choice.is_str("none") && ts.len() > 0 {
                let ghost tsv = jviews(ts@);
                let mut defs: Vec<Json> = Vec::new();
                let mut i: usize = 0;
                while i < ts.len()
                    invariant
                        i <= ts@.len(),
                        tsv == jviews(ts@),
                        jviews(defs@) == tsv.take(i as int).map_values(|t: JsonV| spec_tool_def(t)),
                    decreases ts@.len() - i,
                {
                    let d = extract_tool_def(&ts[i]);
                    proof {
                        lemma_jviews_push(defs@, d);
                        assert(tsv.take(i + 1).map_values(|t: JsonV| spec_tool_def(t)) =~= tsv.take(i as int).map_values(|t: JsonV| spec_tool_def(t)).push(spec_tool_def(tsv[i as int])));
                    }
                    defs.push(d);
                    assert(jviews(defs@) =~= tsv.take(i + 1).map_values(|t: JsonV| spec_tool_def(t)));
                    i += 1;
                }
                assert(tsv.take(ts@.len() as int) =~= tsv);
                let constraint = build_tool_choice_instruction(tool_choice);
                let defs_json = Json::array(defs);
                let defs_str = json_to_string_pretty(&defs_json);
                let mut block = owned("# Tool Use\n\nYou can call the following tools. Call format:\n```tool_call\n{\"name\": \"func_name\", \"arguments\": {...}}\n```\nWhen calling tools, output ONLY the tool_call block(s).\n\nAvailable tools:\n");
                block.append(defs_str.as_str());
                block.append(constraint.as_str());
                parts.push(block);
            }
        },
        None => {},
    }
    let ghost head = views(parts@);
    assert(head =~= openai_tool_block(opt_jviews(tools), tool_choice@));
    let ghost mv = jviews(messages@);
    let mut i: usize = 0;
    while i < messages.len()
        invariant
            i <= messages@.len(),
            mv == jviews(messages@),
            views(parts@) == head + message_parts(mv.take(i as int)),
        decreases messages@.len() - i,
    {
        assert(mv.take(i + 1).drop_last() =~= mv.take(i as int));
        assert(mv.take(i + 1).last() == messages@[i as int]@);
        match message_part(&messages[i]) {
            Some(p) => {
                proof {
                    lemma_views_push(parts@, p);
                }
                parts.push(p);
                assert(views(parts@) =~= head + message_parts(mv.take(i + 1)));
            },
            None => {
                assert(views(parts@) =~= head + message_parts(mv.take(i + 1)));
            },
        }
        i += 1;
    }
    assert(mv.take(messages@.len() as int) =~= mv);
    let prompt = join_non_empty(&parts, "\n\n");
    (prompt, images)
}

// ---------------------------------------------------------------------------
// OpenAI tool calls in model output
// ---------------------------------------------------------------------------

/// A `tool_call` fenced block; group 1 is its body.
pub open spec fn tool_call_pattern() -> Seq<char> {
    "(?s)```tool_call\\s*\\n(.*?)\\n```"@
}

/// The OpenAI tool call that one block gives, with `id8` as the random
/// part of its id: the block's trimmed body must be JSON with a string
/// `name`; its `arguments` (or `{}`) are passed on as JSON text.
pub open spec fn tool_call_of(block: Seq<char>, id8: Seq<char>) -> Option<JsonV> {
    match spec_json_parse(trim(block)) {
        Some(d) => match d.field_str("name"@) {
            Some(name) => Some(JsonV::Object(seq![
                ("id"@, jstr("call_"@ + id8)),
                ("type"@, jstr("function"@)),
                ("function"@, JsonV::Object(seq![
                    ("name"@, jstr(name)),
                    ("arguments"@, jstr(spec_json_text(d.field_or("arguments"@, JsonV::Object(Seq::empty()))))),
                ])),
            ])),
            None => None,
        },
        None => None,
    }
}

/// The tool calls of the first `n` blocks, in order.
pub open spec fn tool_calls_upto(blocks: Seq<Seq<char>>, ids: Seq<Seq<char>>, n: nat) -> Seq<JsonV>
    decreases n,
{
    if n == 0 {
        Seq::empty()
    } else {
        match tool_call_of(blocks[n - 1], ids[n - 1]) {
            Some(c) => tool_calls_upto(blocks, ids, (n - 1) as nat).push(c),
            None => tool_calls_upto(blocks, ids, (n - 1) as nat),
        }
    }
}

/// Eight lower-case hexadecimal digits.
pub open spec fn id8_text(s: Seq<char>) -> bool {
    s.len() == 8 && all_hex_lower(s)
}

fn tool_call_from_block(block: &str, id8: &str) -> (r: Option<Json>)
    ensures
        opt_json(r) == tool_call_of(block@, id8@),
{
    let inner = trim_str(block);
    match parse_json(inner.as_str()) {
        Some(data) => match data.get_str("name") {
            Some(name) => {
                let args = match data.get("arguments") {
                    Some(a) => a.duplicate(),
                    None => empty_object(),
                };
                let args_text = json_to_string(&args);
                let func = obj2("name", Json::string(name), "arguments", Json::Str(args_text));
                let id = concat2("call_", id8);
                Some(obj3("id", Json::Str(id), "type", Json::string("function"), "function", func))
            },
            None => None,
        },
        None => None,
    }
}

pub open spec fn opt_json(o: Option<Json>) -> Option<JsonV> {
    match o {
        Some(j) => Some(j@),
        None => None,
    }
}

/// Extract tool_call blocks. Returns (clean_text, tool_calls as OpenAI JSON).
///
/// Each call's id is `call_` and eight random hexadecimal digits.
pub fn parse_tool_calls(text: &str) -> (r: (String, Vec<Json>))
    ensures
        r.0@ == trim(remove_matches(tool_call_pattern(), text@)),
        exists|ids: Seq<Seq<char>>|
            ids.len() == group1_texts(tool_call_pattern(), text@).len() && (forall|k: int|
                0 <= k < ids.len() ==> id8_text(#[trigger] ids[k])) && jviews(r.1@) == #[trigger] tool_calls_upto(
                group1_texts(tool_call_pattern(), text@),
                ids,
                group1_texts(tool_call_pattern(), text@).len(),
            ),
        r.1@.len() == block_names(group1_texts(tool_call_pattern(), text@)).len(),
        forall|k: int| 0 <= k < r.1@.len() ==>
            call_function_name((#[trigger] r.1@[k])@) == Some(block_names(group1_texts(tool_call_pattern(), text@))[k]),
{
    let pattern = "(?s)```tool_call\\s*\\n(.*?)\\n```";
    let blocks = captures_group1(pattern, text);
    let ghost bv = views(blocks@);
    let ghost mut ids: Seq<Seq<char>> = Seq::empty();
    let mut calls: Vec<Json> = Vec::new();
    let mut i: usize = 0;
    while i < blocks.len()
        invariant
            i <= blocks@.len(),
            bv == views(blocks@),
            ids.len() == i,
            forall|k: int| 0 <= k < ids.len() ==> id8_text(#[trigger] ids[k]),
            jviews(calls@) == tool_calls_upto(bv, ids, i as nat),
        decreases blocks@.len() - i,
    {
        let u = random_uuid_simple();
        let id8 = id_from("", u.as_str(), 8);
        proof {
            reveal_strlit("");
            assert(all_hex_lower(u@.take(8)));
            assert(id8@ =~= u@.take(8));
        }
        let c = tool_call_from_block(blocks[i].as_str(), id8.as_str());
        let ghost new_ids = ids.push(id8@);
        proof {
            assert forall|k: int| 0 <= k < i as int implies #[trigger] tool_calls_upto(bv, new_ids, k as nat) == tool_calls_upto(bv, ids, k as nat) by {
                lemma_calls_prefix(bv, ids, new_ids, k as nat);
            }
            lemma_calls_prefix(bv, ids, new_ids, i as nat);
        }
        match c {
            Some(call) => {
                proof {
                    lemma_jviews_push(calls@, call);
                }
                calls.push(call);
            },
            None => {},
        }
        proof {
            ids = new_ids;
        }
        i += 1;
    }
    let clean = remove_all(pattern, text);
    assert(bv == group1_texts(tool_call_pattern(), text@));
    assert(jviews(calls@) == tool_calls_upto(bv, ids, bv.len()));
    proof {
        law_tool_calls_one_per_named_block(bv, ids);
        assert forall|k: int| 0 <= k < calls@.len() implies
            call_function_name((#[trigger] calls@[k])@) == Some(block_names(bv)[k]) by {
            assert(jviews(calls@)[k] == calls@[k]@);
        }
    }
    (trim_str(clean.as_str()), calls)
}

/// The `name` that a block's trimmed body carries, where it is JSON with a
/// string `name`.
pub open spec fn block_name(block: Seq<char>) -> Option<Seq<char>> {
    match spec_json_parse(trim(block)) {
        Some(d) => d.field_str("name"@),
        None => None,
    }
}

/// The names of the blocks that carry one, in order.
pub open spec fn block_names(blocks: Seq<Seq<char>>) -> Seq<Seq<char>> {
    blocks.filter_map(|b: Seq<char>| block_name(b))
}

/// The function name of an OpenAI tool call: `call["function"]["name"]`.
pub open spec fn call_function_name(c: JsonV) -> Option<Seq<char>> {
    match c.field("function"@) {
        Some(f) => f.field_str("name"@),
        None => None,
    }
}

proof fn lemma_tool_call_name(block: Seq<char>, id8: Seq<char>)
    ensures
        tool_call_of(block, id8) is Some <==> block_name(block) is Some,
        tool_call_of(block, id8) matches Some(c) ==> call_function_name(c) == block_name(block),
{
    reveal_strlit("id");
    reveal_strlit("type");
    reveal_strlit("function");
    reveal_strlit("name");
    match tool_call_of(block, id8) {
        Some(c) => {
            let d = spec_json_parse(trim(block)).unwrap();
            let name = d.field_str("name"@).unwrap();
            let f = JsonV::Object(seq![
                ("name"@, jstr(name)),
                ("arguments"@, jstr(spec_json_text(d.field_or("arguments"@, JsonV::Object(Seq::empty()))))),
            ]);
            let fs = seq![("id"@, jstr("call_"@ + id8)), ("type"@, jstr("function"@)), ("function"@, f)];
            assert(c == JsonV::Object(fs));
            assert("id"@.len() != "function"@.len());
            assert("type"@.len() != "function"@.len());
            assert(fs.drop_first().drop_first() =~= seq![("function"@, f)]);
            assert(lookup(fs.drop_first(), "function"@) == lookup(fs.drop_first().drop_first(), "function"@));
            assert(lookup(fs, "function"@) == Some(f));
            let ffs = seq![
                ("name"@, jstr(name)),
                ("arguments"@, jstr(spec_json_text(d.field_or("arguments"@, JsonV::Object(Seq::empty()))))),
            ];
            assert(lookup(ffs, "name"@) == Some(jstr(name)));
        },
        None => {},
    }
}

proof fn lemma_tool_calls_named(blocks: Seq<Seq<char>>, ids: Seq<Seq<char>>, n: nat)
    requires
        n <= blocks.len(),
        n <= ids.len(),
    ensures
        tool_calls_upto(blocks, ids, n).len() == block_names(blocks.take(n as int)).len(),
        forall|k: int| 0 <= k < tool_calls_upto(blocks, ids, n).len() ==>
            call_function_name(#[trigger] tool_calls_upto(blocks, ids, n)[k]) == Some(block_names(blocks.take(n as int))[k]),
    decreases n,
{
    let t = blocks.take(n as int);
    if n == 0 {
        assert(t.len() == 0);
    } else {
        lemma_tool_calls_named(blocks, ids, (n - 1) as nat);
        assert(t.drop_last() =~= blocks.take(n - 1));
        assert(t.last() == blocks[n - 1]);
        lemma_tool_call_name(blocks[n - 1], ids[n - 1]);
        let prev = tool_calls_upto(blocks, ids, (n - 1) as nat);
        let pn = block_names(blocks.take(n - 1));
        assert(block_names(t) == match block_name(blocks[n - 1]) {
            Some(nm) => pn + seq![nm],
            None => pn,
        });
        match tool_call_of(blocks[n - 1], ids[n - 1]) {
            Some(c) => {
                let nm = block_name(blocks[n - 1]).unwrap();
                assert forall|k: int| 0 <= k < prev.len() + 1 implies
                    call_function_name(#[trigger] prev.push(c)[k]) == Some((pn + seq![nm])[k]) by {
                    if k < prev.len() {
                        assert(prev.push(c)[k] == prev[k]);
                    }
                }
            },
            None => {},
        }
    }
}

/// One tool call per `tool_call` block whose trimmed body is JSON with a
/// string `name`, in the order of the blocks: as many calls as such blocks,
/// and the k-th call names the function of the k-th such block, whatever
/// random ids the calls get.
pub proof fn law_tool_calls_one_per_named_block(blocks: Seq<Seq<char>>, ids: Seq<Seq<char>>)
    requires
        ids.len() == blocks.len(),
    ensures
        tool_calls_upto(blocks, ids, blocks.len()).len() == block_names(blocks).len(),
        forall|k: int| 0 <= k < block_names(blocks).len() ==>
            call_function_name(#[trigger] tool_calls_upto(blocks, ids, blocks.len())[k]) == Some(block_names(blocks)[k]),
{
    lemma_tool_calls_named(blocks, ids, blocks.len());
    assert(blocks.take(blocks.len() as int) =~= blocks);
}

proof fn lemma_calls_prefix(blocks: Seq<Seq<char>>, a: Seq<Seq<char>>, b: Seq<Seq<char>>, n: nat)
    requires
        n <= a.len(),
        n <= b.len(),
        forall|k: int| 0 <= k < n ==> a[k] == b[k],
    ensures
        tool_calls_upto(blocks, a, n) == tool_calls_upto(blocks, b, n),
    decreases n,
{
    if n > 0 {
        lemma_calls_prefix(blocks, a, b, (n - 1) as nat);
    }
}

// ---------------------------------------------------------------------------
// Google native API
// ---------------------------------------------------------------------------

/// The tool prompt of the Google path: how to call, then the definitions.
pub open spec fn spec_build_tool_prompt(defs: Seq<JsonV>) -> Seq<char> {
    google_tool_intro() + spec_json_pretty(JsonV::Array(defs))
}

pub fn build_tool_prompt(tool_defs: &Vec<Json>) -> (r: String)
    ensures
        r@ == spec_build_tool_prompt(jviews(tool_defs@)),
{
    let mut copy: Vec<Json> = Vec::new();
    let mut i: usize = 0;
    while i < tool_defs.len()
        invariant
            i <= tool_defs@.len(),
            jviews(copy@) == jviews(tool_defs@).take(i as int),
        decreases tool_defs@.len() - i,
    {
        let d = tool_defs[i].duplicate();
        proof {
            lemma_jviews_push(copy@, d);
        }
        copy.push(d);
        assert(jviews(copy@) =~= jviews(tool_defs@).take(i + 1));
        i += 1;
    }
    assert(jviews(tool_defs@).take(tool_defs@.len() as int) =~= jviews(tool_defs@));
    let arr = Json::array(copy);
    let spec_text = json_to_string_pretty(&arr);
    concat2("# Tool Use\n\nYou can call the following tools to help accomplish tasks. These tools connect to the user's local environment and will execute when called.\n\nCall format (use this exact format):\n```function_call\n{\"name\": \"<tool_name>\", \"args\": {<arguments>}}\n```\n\nWhen calling tools:\n- Output ONLY the function_call block(s), nothing else\n- You may call multiple tools with multiple blocks\n- After receiving a [Tool result for ...], use that data to answer the user\n\nAvailable tools:\n", spec_text.as_str())
}

/// `toolConfig.functionCallingConfig` of a Google request.
pub open spec fn fc_config(req: JsonV) -> Option<JsonV> {
    field2(req, "toolConfig"@, "functionCallingConfig"@)
}

/// The function-calling mode of a Google request; `AUTO` where none is set.
pub open spec fn fc_mode(req: JsonV) -> Seq<char> {
    match fc_config(req) {
        Some(c) => c.str_or("mode"@, "AUTO"@),
        None => "AUTO"@,
    }
}

/// The strings of `a`, in order.
pub open spec fn strings_of(a: Seq<JsonV>) -> Seq<Seq<char>>
    decreases a.len(),
{
    if a.len() == 0 {
        Seq::empty()
    } else {
        match a.last() {
            JsonV::Str(s) => strings_of(a.drop_last()).push(s),
            _ => strings_of(a.drop_last()),
        }
    }
}

/// The allowed function names of a Google request.
pub open spec fn allowed_names(req: JsonV) -> Seq<Seq<char>> {
    match fc_config(req) {
        Some(c) => match c.field_array("allowedFunctionNames"@) {
            Some(a) => strings_of(a),
            None => Seq::empty(),
        },
        None => Seq::empty(),
    }
}

pub open spec fn quote(n: Seq<char>) -> Seq<char> {
    "\""@ + n + "\""@
}

/// The instruction that the function-calling mode adds to the tool prompt.
pub open spec fn spec_google_tool_choice(req: JsonV) -> Seq<char> {
    let mode = fc_mode(req);
    if mode == "NONE"@ {
        no_tools_text()
    } else if mode == "ANY"@ {
        let allowed = allowed_names(req);
        if allowed.len() > 0 {
            "\n\nIMPORTANT: You MUST call one of these tools: "@ + join(allowed.map_values(|n: Seq<char>| quote(n)), ", "@)
                + ". Do not respond with text only."@
        } else {
            must_call_text()
        }
    } else {
        Seq::empty()
    }
}

fn fc_config_exec(req: &Json) -> (r: Option<&Json>)
    ensures
        opt_view(r) == fc_config(req@),
{
    match req.get("toolConfig") {
        Some(t) => t.get("functionCallingConfig"),
        None => None,
    }
}

fn fc_mode_exec(req: &Json) -> (r: &str)
    ensures
        r@ == fc_mode(req@),
{
    match fc_config_exec(req) {
        Some(c) => c.str_or("mode", "AUTO"),
        None => "AUTO",
    }
}

fn strings_in(a: &Vec<Json>) -> (r: Vec<String>)
    ensures
        views(r@) == strings_of(jviews(a@)),
{
    let ghost av = jviews(a@);
    let mut out: Vec<String> = Vec::new();
    let mut i: usize = 0;
    while i < a.len()
        invariant
            i <= a@.len(),
            av == jviews(a@),
            views(out@) == strings_of(av.take(i as int)),
        decreases a@.len() - i,
    {
        assert(av.take(i + 1).drop_last() =~= av.take(i as int));
        assert(av.take(i + 1).last() == a@[i as int]@);
        match a[i].as_str() {
            Some(s) => {
                let o = owned(s);
                proof {
                    lemma_views_push(out@, o);
                }
                out.push(o);
            },
            None => {},
        }
        i += 1;
    }
    assert(av.take(a@.len() as int) =~= av);
    out
}

/// The tool-choice instruction of a Google request.
pub fn google_tool_choice_instruction(req: &Json) -> (r: String)
    ensures
        r@ == spec_google_tool_choice(req@),
{
    let mode = fc_mode_exec(req);
    if str_eq(mode, "NONE") {
        return owned("\n\nIMPORTANT: Do NOT call any tools. Respond with text only.");
    }
    if str_eq(mode, "ANY") {
        let allowed = match fc_config_exec(req) {
            Some(c) => match c.get_array("allowedFunctionNames") {
                Some(a) => strings_in(a),
                None => Vec::new(),
            },
            None => Vec::new(),
        };
        assert(views(allowed@) == allowed_names(req@));
        if allowed.len() > 0 {
            let mut quoted: Vec<String> = Vec::new();
            let mut i: usize = 0;
            while i < allowed.len()
                invariant
                    i <= allowed@.len(),
                    views(quoted@) == views(allowed@).take(i as int).map_values(|n: Seq<char>| quote(n)),
                decreases allowed@.len() - i,
            {
                let q = concat3("\"", allowed[i].as_str(), "\"");
                proof {
                    lemma_views_push(quoted@, q);
                }
                quoted.push(q);
                assert(views(quoted@) =~= views(allowed@).take(i + 1).map_values(|n: Seq<char>| quote(n)));
                i += 1;
            }
            assert(views(allowed@).take(allowed@.len() as int) =~= views(allowed@));
            let names = join_strings(&quoted, ", ");
            return concat3("\n\nIMPORTANT: You MUST call one of these tools: ", names.as_str(), ". Do not respond with text only.");
        } else {
            return owned("\n\nIMPORTANT: You MUST call at least one tool. Do not respond with text only.");
        }
    }
    String::new()
}

/// The tool definition of one Google function declaration: its name and
/// description (`""` where missing), and its `parameters` (else its
/// `parametersJsonSchema`) where that is present and not null.
pub open spec fn spec_decl_def(f: JsonV) -> JsonV {
    let base = JsonV::Object(seq![("name"@, jstr(f.str_or("name"@, ""@))), ("description"@, jstr(f.str_or("description"@, ""@)))]);
    let params = match f.field("parameters"@) {
        Some(p) => Some(p),
        None => f.field("parametersJsonSchema"@),
    };
    match params {
        Some(p) => if p is Null {
            base
        } else {
            base.with_field("parameters"@, p)
        },
        None => base,
    }
}

/// The definitions of one tool group.
pub open spec fn group_defs(g: JsonV) -> Seq<JsonV> {
    match g.field_array("functionDeclarations"@) {
        Some(ds) => ds.map_values(|f: JsonV| spec_decl_def(f)),
        None => Seq::empty(),
    }
}

/// The definitions of all tool groups, in order.
pub open spec fn all_group_defs(groups: Seq<JsonV>) -> Seq<JsonV>
    decreases groups.len(),
{
    if groups.len() == 0 {
        Seq::empty()
    } else {
        all_group_defs(groups.drop_last()) + group_defs(groups.last())
    }
}

/// The tool definitions of a Google request; none where the mode is `NONE`.
pub open spec fn google_tool_defs(req: JsonV) -> Seq<JsonV> {
    if fc_mode(req) == "NONE"@ {
        Seq::empty()
    } else {
        match req.field_array("tools"@) {
            Some(ts) => all_group_defs(ts),
            None => Seq::empty(),
        }
    }
}

/// The text fields of the parts, in order.
pub open spec fn part_strings(ps: Seq<JsonV>) -> Seq<Seq<char>>
    decreases ps.len(),
{
    if ps.len() == 0 {
        Seq::empty()
    } else {
        match ps.last().field_str("text"@) {
            Some(t) => part_strings(ps.drop_last()).push(t),
            None => part_strings(ps.drop_last()),
        }
    }
}

/// The system instruction of a Google request: its parts' texts joined by
/// spaces.
pub open spec fn system_text(req: JsonV) -> Seq<char> {
    match req.field("systemInstruction"@) {
        Some(si) => match si.field_array("parts"@) {
            Some(ps) => join(part_strings(ps), " "@),
            None => Seq::empty(),
        },
        None => Seq::empty(),
    }
}

/// The leading prompt part of a Google request: the system instruction and
/// the tool prompt with its tool-choice instruction, as far as there are any.
pub open spec fn header_parts(req: JsonV) -> Seq<Seq<char>> {
    let defs = google_tool_defs(req);
    let st = system_text(req);
    if st.len() > 0 {
        if defs.len() > 0 {
            seq![st + "\n\n"@ + spec_build_tool_prompt(defs) + spec_google_tool_choice(req)]
        } else {
            seq![st]
        }
    } else if defs.len() > 0 {
        seq![spec_build_tool_prompt(defs) + spec_google_tool_choice(req)]
    } else {
        Seq::empty()
    }
}

/// What one part of a Google content gives: a text line, an image, or
/// nothing. A non-empty `text` is the line; an `inlineData` gives its image
/// where its `data` decodes as base64 (type `image/png` where none is set);
/// a `functionCall` becomes a `function_call` block; a `functionResponse`
/// becomes a tool result.
pub open spec fn part_effect(p: JsonV) -> (Option<Seq<char>>, Option<(Seq<u8>, Seq<char>)>) {
    match p.field_str("text"@) {
        Some(t) if t.len() > 0 => (Some(t), None),
        _ => match p.field("inlineData"@) {
            Some(idata) => {
                let mime = idata.str_or("mimeType"@, "image/png"@);
                match idata.field_str("data"@) {
                    Some(d) => match spec_decode(vstd::utf8::encode_utf8(d)) {
                        Some(bytes) => (None, Some((bytes, mime))),
                        None => (None, None),
                    },
                    None => (None, None),
                }
            },
            None => match p.field("functionCall"@) {
                Some(fc) => (Some("```function_call\n"@ + spec_json_text(JsonV::Object(seq![
                    ("name"@, jstr(fc.str_or("name"@, ""@))),
                    ("args"@, fc.field_or("args"@, JsonV::Object(Seq::empty()))),
                ])) + "\n```"@), None),
                None => match p.field("functionResponse"@) {
                    Some(fr) => (Some("[Tool result for "@ + fr.str_or("name"@, ""@) + "]: "@ + spec_json_text(
                        fr.field_or("response"@, JsonV::Object(Seq::empty())),
                    )), None),
                    None => (None, None),
                },
            },
        },
    }
}

/// The text lines of the parts, in order.
pub open spec fn parts_lines(ps: Seq<JsonV>) -> Seq<Seq<char>>
    decreases ps.len(),
{
    if ps.len() == 0 {
        Seq::empty()
    } else {
        match part_effect(ps.last()).0 {
            Some(t) => parts_lines(ps.drop_last()).push(t),
            None => parts_lines(ps.drop_last()),
        }
    }
}

/// The images of the parts, in order.
pub open spec fn parts_images(ps: Seq<JsonV>) -> Seq<(Seq<u8>, Seq<char>)>
    decreases ps.len(),
{
    if ps.len() == 0 {
        Seq::empty()
    } else {
        match part_effect(ps.last()).1 {
            Some(i) => parts_images(ps.drop_last()).push(i),
            None => parts_images(ps.drop_last()),
        }
    }
}

/// The parts of one content (none where it has no `parts` list).
pub open spec fn content_parts(c: JsonV) -> Seq<JsonV> {
    match c.field_array("parts"@) {
        Some(ps) => ps,
        None => Seq::empty(),
    }
}

/// The prompt part of one content: its lines joined by line breaks, marked
/// as the assistant's where the role is `model`.
pub open spec fn content_prompt(c: JsonV) -> Seq<char> {
    let text = join(parts_lines(content_parts(c)), "\n"@);
    if c.str_or("role"@, "user"@) == "model"@ {
        "[Assistant]: "@ + text
    } else {
        text
    }
}

pub open spec fn contents_prompts(cs: Seq<JsonV>) -> Seq<Seq<char>> {
    cs.map_values(|c: JsonV| content_prompt(c))
}

pub open spec fn contents_images(cs: Seq<JsonV>) -> Seq<(Seq<u8>, Seq<char>)>
    decreases cs.len(),
{
    if cs.len() == 0 {
        Seq::empty()
    } else {
        contents_images(cs.drop_last()) + parts_images(content_parts(cs.last()))
    }
}

pub open spec fn request_contents(req: JsonV) -> Seq<JsonV> {
    match req.field_array("contents"@) {
        Some(cs) => cs,
        None => Seq::empty(),
    }
}

/// The prompt of a Google request: header parts and one part per content,
/// the non-empty ones joined by blank lines.
pub open spec fn spec_google_prompt(req: JsonV) -> Seq<char> {
    join(non_empty(header_parts(req) + contents_prompts(request_contents(req))), "\n\n"@)
}

/// A Google request with a system instruction has a prompt that starts
/// with the instruction's text; where it declares tools, a blank line and
/// the tool prompt (with its tool-choice instruction) come right after it.
pub proof fn law_google_prompt_starts_with_system(req: JsonV)
    requires
        system_text(req).len() > 0,
    ensures
        ({
            let st = system_text(req);
            let p = spec_google_prompt(req);
            let defs = google_tool_defs(req);
            let head = if defs.len() > 0 {
                st + "\n\n"@ + spec_build_tool_prompt(defs) + spec_google_tool_choice(req)
            } else {
                st
            };
            &&& p.len() >= head.len()
            &&& p.subrange(0, head.len() as int) == head
            &&& p.subrange(0, st.len() as int) == st
        }),
{
    let st = system_text(req);
    let defs = google_tool_defs(req);
    let head = if defs.len() > 0 {
        st + "\n\n"@ + spec_build_tool_prompt(defs) + spec_google_tool_choice(req)
    } else {
        st
    };
    assert(header_parts(req) == seq![head]);
    let rest = contents_prompts(request_contents(req));
    crate::text::lemma_non_empty_front(head, rest);
    crate::text::lemma_join_front(head, non_empty(rest), "\n\n"@);
    let p = spec_google_prompt(req);
    assert(p.subrange(0, st.len() as int) =~= head.subrange(0, st.len() as int));
    assert(head.subrange(0, st.len() as int) =~= st);
}

fn decl_def(f: &Json) -> (r: Json)
    ensures
        r@ == spec_decl_def(f@),
{
    let name = f.str_or("name", "");
    let desc = f.str_or("description", "");
    let mut td = obj2("name", Json::string(name), "description", Json::string(desc));
    let params = match f.get("parameters") {
        Some(p) => Some(p),
        None => f.get("parametersJsonSchema"),
    };
    match params {
        Some(p) => {
            if !p.is_null() {
                td.set("parameters", p.duplicate());
            }
        },
        None => {},
    }
    td
}

fn tool_defs_of(req: &Json) -> (r: Vec<Json>)
    ensures
        jviews(r@) == google_tool_defs(req@),
{
    let mut defs: Vec<Json> = Vec::new();
    assert(jviews(defs@) =~= Seq::<JsonV>::empty());
    if str_eq(fc_mode_exec(req), "NONE") {
        return defs;
    }
    match req.get_array("tools") {
        Some(groups) => {
            let ghost gv = jviews(groups@);
            let mut i: usize = 0;
            while i < groups.len()
                invariant
                    i <= groups@.len(),
                    gv == jviews(groups@),
                    jviews(defs@) == all_group_defs(gv.take(i as int)),
                decreases groups@.len() - i,
            {
                assert(gv.take(i + 1).drop_last() =~= gv.take(i as int));
                assert(gv.take(i + 1).last() == groups@[i as int]@);
                match groups[i].get_array("functionDeclarations") {
                    Some(decls) => {
                        let ghost before = jviews(defs@);
                        let ghost dv = jviews(decls@);
                        let mut j: usize = 0;
                        while j < decls.len()
                            invariant
                                j <= decls@.len(),
                                dv == jviews(decls@),
                                jviews(defs@) == before + dv.take(j as int).map_values(|f: JsonV| spec_decl_def(f)),
                            decreases decls@.len() - j,
                        {
                            let d = decl_def(&decls[j]);
                            proof {
                                lemma_jviews_push(defs@, d);
                            }
                            defs.push(d);
                            assert(jviews(defs@) =~= before + dv.take(j + 1).map_values(|f: JsonV| spec_decl_def(f)));
                            j += 1;
                        }
                        assert(dv.take(decls@.len() as int) =~= dv);
                    },
                    None => {
                        assert(jviews(defs@) =~= all_group_defs(gv.take(i as int)) + Seq::<JsonV>::empty());
                    },
                }
                i += 1;
            }
            assert(gv.take(groups@.len() as int) =~= gv);
        },
        None => {},
    }
    defs
}

fn system_text_of(req: &Json) -> (r: String)
    ensures
        r@ == system_text(req@),
{
    match req.get("systemInstruction") {
        Some(si) => match si.get_array("parts") {
            Some(ps) => {
                let ghost pv = jviews(ps@);
                let mut texts: Vec<String> = Vec::new();
                let mut i: usize = 0;
                while i < ps.len()
                    invariant
                        i <= ps@.len(),
                        pv == jviews(ps@),
                        views(texts@) == part_strings(pv.take(i as int)),
                    decreases ps@.len() - i,
                {
                    assert(pv.take(i + 1).drop_last() =~= pv.take(i as int));
                    assert(pv.take(i + 1).last() == ps@[i as int]@);
                    match ps[i].get_str("text") {
                        Some(t) => {
                            let o = owned(t);
                            proof {
                                lemma_views_push(texts@, o);
                            }
                            texts.push(o);
                        },
                        None => {},
                    }
                    i += 1;
                }
                assert(pv.take(ps@.len() as int) =~= pv);
                join_strings(&texts, " ")
            },
            None => String::new(),
        },
        None => String::new(),
    }
}

fn part_effect_exec(p: &Json) -> (r: (Option<String>, Option<ImageItem>))
    ensures
        (match r.0 {
            Some(t) => Some(t@),
            None => None,
        }) == part_effect(p@).0,
        (match r.1 {
            Some(i) => Some((i.0@, i.1@)),
            None => None,
        }) == part_effect(p@).1,
{
    match p.get_str("text") {
        Some(t) => {
            if !t.is_empty() {
                return (Some(owned(t)), None);
            }
        },
        None => {},
    }
    match p.get("inlineData") {
        Some(idata) => {
            let mime = idata.str_or("mimeType", "image/png");
            match idata.get_str("data") {
                Some(d) => match decode(d) {
                    Some(bytes) => return (None, Some((bytes, owned(mime)))),
                    None => return (None, None),
                },
                None => return (None, None),
            }
        },
        None => {},
    }
    match p.get("functionCall") {
        Some(fc) => {
            let name = fc.str_or("name", "");
            let args = match fc.get("args") {
                Some(a) => a.duplicate(),
                None => empty_object(),
            };
            let call = obj2("name", Json::string(name), "args", args);
            let text = json_to_string(&call);
            return (Some(concat3("```function_call\n", text.as_str(), "\n```")), None);
        },
        None => {},
    }
    match p.get("functionResponse") {
        Some(fr) => {
            let name = fr.str_or("name", "");
            let response = match fr.get("response") {
                Some(x) => x.duplicate(),
                None => empty_object(),
            };
            let text = json_to_string(&response);
            let mut line = concat3("[Tool result for ", name, "]: ");
            line.append(text.as_str());
            (Some(line), None)
        },
        None => (None, None),
    }
}

/// Convert Google API request (contents/tools/systemInstruction) to (prompt, images).
pub fn google_contents_to_prompt(req: &Json) -> (r: (String, Vec<ImageItem>))
    ensures
        r.0@ == spec_google_prompt(req@),
        images_view(r.1@) == contents_images(request_contents(req@)),
{
    let mut parts: Vec<String> = Vec::new();
    let mut images: Vec<ImageItem> = Vec::new();
    let tool_defs = tool_defs_of(req);
    let sys_text = system_text_of(req);
    if !sys_text.as_str().is_empty() {
        if tool_defs.len() > 0 {
            let constraint = google_tool_choice_instruction(req);
            let mut p = concat2(sys_text.as_str(), "\n\n");
            let tp = build_tool_prompt(&tool_defs);
            p.append(tp.as_str());
            p.append(constraint.as_str());
            parts.push(p);
        } else {
            parts.push(sys_text);
        }
    } else if tool_defs.len() > 0 {
        let constraint = google_tool_choice_instruction(req);
        let tp = build_tool_prompt(&tool_defs);
        parts.push(concat2(tp.as_str(), constraint.as_str()));
    }
    let ghost head = views(parts@);
    assert(head =~= header_parts(req@));
    assert(images_view(images@) =~= Seq::<(Seq<u8>, Seq<char>)>::empty());
    match req.get_array("contents") {
        Some(contents) => {
            let ghost cv = jviews(contents@);
            let mut i: usize = 0;
            while i < contents.len()
                invariant
                    i <= contents@.len(),
                    cv == jviews(contents@),
                    views(parts@) == head + contents_prompts(cv.take(i as int)),
                    images_view(images@) == contents_images(cv.take(i as int)),
                decreases contents@.len() - i,
            {
                assert(cv.take(i + 1).drop_last() =~= cv.take(i as int));
                assert(cv.take(i + 1).last() == contents@[i as int]@);
                let content = &contents[i];
                let role = content.str_or("role", "user");
                let mut lines: Vec<String> = Vec::new();
                let ghost img0 = images_view(images@);
                match content.get_array("parts") {
                    Some(cparts) => {
                        let ghost pv = jviews(cparts@);
                        let mut j: usize = 0;
                        while j < cparts.len()
                            invariant
                                j <= cparts@.len(),
                                pv == jviews(cparts@),
                                views(lines@) == parts_lines(pv.take(j as int)),
                                images_view(images@) == img0 + parts_images(pv.take(j as int)),
                            decreases cparts@.len() - j,
                        {
                            assert(pv.take(j + 1).drop_last() =~= pv.take(j as int));
                            assert(pv.take(j + 1).last() == cparts@[j as int]@);
                            let (line, image) = part_effect_exec(&cparts[j]);
                            match line {
                                Some(l) => {
                                    proof {
                                        lemma_views_push(lines@, l);
                                    }
                                    lines.push(l);
                                },
                                None => {},
                            }
                            match image {
                                Some(im) => {
                                    let ghost before = images@;
                                    images.push(im);
                                    assert(images_view(images@) =~= images_view(before).push((im.0@, im.1@)));
                                    assert(images_view(images@) =~= img0 + parts_images(pv.take(j + 1)));
                                },
                                None => {},
                            }
                            j += 1;
                        }
                        assert(pv.take(cparts@.len() as int) =~= pv);
                    },
                    None => {
                        assert(views(lines@) =~= Seq::<Seq<char>>::empty());
                        assert(images_view(images@) =~= img0 + Seq::<(Seq<u8>, Seq<char>)>::empty());
                    },
                }
                let text = join_strings(&lines, "\n");
                let p = if str_eq(role, "model") {
                    concat2("[Assistant]: ", text.as_str())
                } else {
                    text
                };
                proof {
                    lemma_views_push(parts@, p);
                }
                parts.push(p);
                assert(views(parts@) =~= head + contents_prompts(cv.take(i + 1)));
                i += 1;
            }
            assert(cv.take(contents@.len() as int) =~= cv);
        },
        None => {
            assert(views(parts@) =~= head + contents_prompts(Seq::<JsonV>::empty()));
        },
    }
    let prompt = join_non_empty(&parts, "\n\n");
    (prompt, images)
}

// ---------------------------------------------------------------------------
// Google function calls in model output
// ---------------------------------------------------------------------------

/// A `function_call` fenced block; group 1 is its body.
pub open spec fn fc_fenced_pattern() -> Seq<char> {
    "(?s)```function_call\\s*\\n(.*?)\\n```"@
}

/// A bare `function_call` line followed by a JSON object; group 1 is the object.
pub open spec fn fc_bare_pattern() -> Seq<char> {
    "(?s)(?:^|\\n)function_call\\s*\\n(\\{[^`]*?\\})"@
}

/// The `args` of a call, else its `arguments`, else `{}`.
pub open spec fn call_args(d: JsonV) -> JsonV {
    match d.field("args"@) {
        Some(a) => a,
        None => match d.field("arguments"@) {
            Some(a) => a,
            None => JsonV::Object(Seq::empty()),
        },
    }
}

/// The function call that one block gives: its trimmed body must be JSON
/// with a string `name`.
pub open spec fn fc_call_of(block: Seq<char>) -> Option<JsonV> {
    match spec_json_parse(trim(block)) {
        Some(d) => match d.field_str("name"@) {
            Some(name) => Some(JsonV::Object(seq![("name"@, jstr(name)), ("args"@, call_args(d))])),
            None => None,
        },
        None => None,
    }
}

pub open spec fn fc_calls_of(blocks: Seq<Seq<char>>) -> Seq<JsonV>
    decreases blocks.len(),
{
    if blocks.len() == 0 {
        Seq::empty()
    } else {
        match fc_call_of(blocks.last()) {
            Some(c) => fc_calls_of(blocks.drop_last()).push(c),
            None => fc_calls_of(blocks.drop_last()),
        }
    }
}

/// Function calls in model output and the text left around them. Fenced
/// blocks are read first and removed, then bare `function_call` lines;
/// where neither gave a call, text that is a JSON object with a string
/// `name` and `args` or `arguments` is itself the call.
pub open spec fn spec_parse_google_calls(text: Seq<char>) -> (Seq<char>, Seq<JsonV>) {
    let calls1 = fc_calls_of(group1_texts(fc_fenced_pattern(), text));
    let c1 = trim(remove_matches(fc_fenced_pattern(), text));
    let calls2 = fc_calls_of(group1_texts(fc_bare_pattern(), c1));
    let c2 = trim(remove_matches(fc_bare_pattern(), c1));
    let calls = calls1 + calls2;
    let ts = trim_start(c2);
    if calls.len() == 0 && ts.len() > 0 && ts[0] == '{' {
        match spec_json_parse(trim(c2)) {
            Some(d) => if (d.field("args"@) is Some || d.field("arguments"@) is Some) && d.field_str("name"@) is Some {
                (Seq::empty(), seq![JsonV::Object(seq![("name"@, jstr(d.field_str("name"@).unwrap())), ("args"@, call_args(d))])])
            } else {
                (c2, calls)
            },
            None => (c2, calls),
        }
    } else {
        (c2, calls)
    }
}

proof fn lemma_fc_calls_named(blocks: Seq<Seq<char>>)
    ensures
        fc_calls_of(blocks).len() == block_names(blocks).len(),
        forall|k: int| 0 <= k < fc_calls_of(blocks).len() ==>
            (#[trigger] fc_calls_of(blocks)[k]).field_str("name"@) == Some(block_names(blocks)[k]),
    decreases blocks.len(),
{
    if blocks.len() > 0 {
        lemma_fc_calls_named(blocks.drop_last());
        let prev = fc_calls_of(blocks.drop_last());
        let pn = block_names(blocks.drop_last());
        assert(block_names(blocks) == match block_name(blocks.last()) {
            Some(nm) => pn + seq![nm],
            None => pn,
        });
        match fc_call_of(blocks.last()) {
            Some(c) => {
                let nm = block_name(blocks.last()).unwrap();
                assert(c.field_str("name"@) == Some(nm));
                assert forall|k: int| 0 <= k < prev.len() + 1 implies
                    (#[trigger] prev.push(c)[k]).field_str("name"@) == Some((pn + seq![nm])[k]) by {
                    if k < prev.len() {
                        assert(prev.push(c)[k] == prev[k]);
                    }
                }
            },
            None => {},
        }
    }
}

/// One function call per block whose trimmed body is JSON with a string
/// `name`, in the order of the blocks: as many calls as such blocks, and
/// the k-th call carries the k-th such block's name.
pub proof fn law_fc_calls_one_per_named_block(blocks: Seq<Seq<char>>)
    ensures
        fc_calls_of(blocks).len() == block_names(blocks).len(),
        forall|k: int| 0 <= k < block_names(blocks).len() ==>
            (#[trigger] fc_calls_of(blocks)[k]).field_str("name"@) == Some(block_names(blocks)[k]),
{
    lemma_fc_calls_named(blocks);
}

/// The function calls read out of model output start with one call per
/// fenced `function_call` block that names a function, in order.
pub proof fn law_google_calls_fenced_first(text: Seq<char>)
    ensures
        ({
            let names = block_names(group1_texts(fc_fenced_pattern(), text));
            let calls = spec_parse_google_calls(text).1;
            &&& calls.len() >= names.len()
            &&& forall|k: int| 0 <= k < names.len() ==> (#[trigger] calls[k]).field_str("name"@) == Some(names[k])
        }),
{
    let blocks = group1_texts(fc_fenced_pattern(), text);
    lemma_fc_calls_named(blocks);
    let calls1 = fc_calls_of(blocks);
    let c1 = trim(remove_matches(fc_fenced_pattern(), text));
    let calls2 = fc_calls_of(group1_texts(fc_bare_pattern(), c1));
    assert forall|k: int| 0 <= k < calls1.len() implies (calls1 + calls2)[k] == calls1[k] by {}
}

fn call_args_exec(d: &Json) -> (r: Json)
    ensures
        r@ == call_args(d@),
{
    match d.get("args") {
        Some(a) => a.duplicate(),
        None => match d.get("arguments") {
            Some(a) => a.duplicate(),
            None => empty_object(),
        },
    }
}

fn collect_fc_calls(blocks: &Vec<String>, calls: &mut Vec<Json>)
    ensures
        jviews(final(calls)@) == jviews(old(calls)@) + fc_calls_of(views(blocks@)),
{
    let ghost bv = views(blocks@);
    let ghost start = jviews(calls@);
    let mut i: usize = 0;
    while i < blocks.len()
        invariant
            i <= blocks@.len(),
            bv == views(blocks@),
            start == jviews(old(calls)@),
            jviews(calls@) == start + fc_calls_of(bv.take(i as int)),
        decreases blocks@.len() - i,
    {
        assert(bv.take(i + 1).drop_last() =~= bv.take(i as int));
        assert(bv.take(i + 1).last() == blocks@[i as int]@);
        let inner = trim_str(blocks[i].as_str());
        match parse_json(inner.as_str()) {
            Some(data) => match data.get_str("name") {
                Some(name) => {
                    let c = obj2("name", Json::string(name), "args", call_args_exec(&data));
                    proof {
                        lemma_jviews_push(calls@, c);
                    }
                    calls.push(c);
                    assert(jviews(calls@) =~= start + fc_calls_of(bv.take(i + 1)));
                },
                None => {},
            },
            None => {},
        }
        i += 1;
    }
    assert(bv.take(blocks@.len() as int) =~= bv);
}

/// Extract function_call blocks from model output. Returns (clean_text, calls).
pub fn parse_google_function_calls(text: &str) -> (r: (String, Vec<Json>))
    ensures
        r.0@ == spec_parse_google_calls(text@).0,
        jviews(r.1@) == spec_parse_google_calls(text@).1,
{
    let fenced = "(?s)```function_call\\s*\\n(.*?)\\n```";
    let bare = "(?s)(?:^|\\n)function_call\\s*\\n(\\{[^`]*?\\})";
    let mut calls: Vec<Json> = Vec::new();
    assert(jviews(calls@) =~= Seq::<JsonV>::empty());
    let blocks1 = captures_group1(fenced, text);
    collect_fc_calls(&blocks1, &mut calls);
    let removed1 = remove_all(fenced, text);
    let c1 = trim_str(removed1.as_str());
    let blocks2 = captures_group1(bare, c1.as_str());
    collect_fc_calls(&blocks2, &mut calls);
    let removed2 = remove_all(bare, c1.as_str());
    let clean = trim_str(removed2.as_str());
    if calls.len() == 0 {
        let ts = trim_start_str(clean.as_str());
        if starts_with_char(ts.as_str(), '{') {
            let whole = trim_str(clean.as_str());
            match parse_json(whole.as_str()) {
                Some(data) => {
                    let has_args = data.get("args").is_some() || data.get("arguments").is_some();
                    match data.get_str("name") {
                        Some(name) => {
                            if has_args {
                                let c = obj2("name", Json::string(name), "args", call_args_exec(&data));
                                let mut one: Vec<Json> = Vec::new();
                                one.push(c);
                                assert(jviews(one@) =~= seq![c@]);
                                return (String::new(), one);
                            }
                        },
                        None => {},
                    }
                },
                None => {},
            }
        }
    }
    (clean, calls)
}

} // verus!
