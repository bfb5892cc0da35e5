use gemini_web2api::json::{parse_json, to_json_text, Json};
use gemini_web2api::tools::{
    build_tool_choice_instruction, build_tool_prompt, extract_tool_def, flatten_content, google_contents_to_prompt,
    google_tool_choice_instruction, messages_to_prompt, parse_google_function_calls, parse_tool_calls,
};

fn j(s: &str) -> Json {
    parse_json(s).unwrap()
}

fn same(a: &Json, b: &str) {
    assert_eq!(to_json_text(a), to_json_text(&j(b)));
}

#[test]
fn tool_choice_instructions() {
    assert_eq!(
        build_tool_choice_instruction(&j("\"none\"")),
        "\n\nIMPORTANT: Do NOT call any tools. Respond with text only."
    );
    assert_eq!(
        build_tool_choice_instruction(&j("\"required\"")),
        "\n\nIMPORTANT: You MUST call at least one tool. Do not respond with text only."
    );
    assert_eq!(
        build_tool_choice_instruction(&j("{\"type\":\"function\",\"function\":{\"name\":\"f\"}}")),
        "\n\nIMPORTANT: You MUST call the tool \"f\". Do not call other tools."
    );
    assert_eq!(build_tool_choice_instruction(&j("\"auto\"")), "");
    assert_eq!(build_tool_choice_instruction(&j("{\"function\":{\"name\":\"\"}}")), "");
    assert_eq!(build_tool_choice_instruction(&j("{\"function\":{}}")), "");
}

#[test]
fn tool_definitions() {
    same(
        &extract_tool_def(&j("{\"type\":\"function\",\"function\":{\"name\":\"f\",\"description\":\"d\",\"parameters\":{\"type\":\"object\"}}}")),
        "{\"name\":\"f\",\"description\":\"d\",\"parameters\":{\"type\":\"object\"}}",
    );
    same(&extract_tool_def(&j("{\"name\":\"g\"}")), "{\"name\":\"g\",\"description\":\"\",\"parameters\":{}}");
    same(
        &extract_tool_def(&j("{\"type\":\"function\",\"description\":\"outer\",\"function\":{\"name\":\"f\"}}")),
        "{\"name\":\"f\",\"description\":\"outer\",\"parameters\":{}}",
    );
    same(
        &extract_tool_def(&j("{\"type\":\"function\",\"name\":\"h\",\"parameters\":null}")),
        "{\"name\":\"h\",\"description\":\"\",\"parameters\":{}}",
    );
}

#[test]
fn flattened_content() {
    assert_eq!(flatten_content(&j("\"abc\"")), "abc");
    assert_eq!(
        flatten_content(&j("[{\"type\":\"text\",\"text\":\"a\"},{\"type\":\"image_url\"},{\"type\":\"input_text\",\"text\":\"b\"},{\"type\":\"other\"}]")),
        "a [Note: Image input not supported in this API. Please describe the image in text.] b"
    );
    assert_eq!(flatten_content(&j("null")), "");
    assert_eq!(flatten_content(&j("5")), "5");
    assert_eq!(flatten_content(&j("{\"a\":1}")), "{\"a\":1}");
    assert_eq!(flatten_content(&j("[{\"type\":\"text\"}]")), "");
}

#[test]
fn prompt_from_plain_messages() {
    let msgs = vec![
        j("{\"role\":\"system\",\"content\":\"S\"}"),
        j("{\"role\":\"user\",\"content\":\"U\"}"),
        j("{\"role\":\"user\",\"content\":\"\"}"),
        j("{\"role\":\"assistant\",\"content\":\"A\"}"),
        j("{\"role\":\"tool\",\"name\":\"t\",\"content\":\"R\"}"),
        j("{\"content\":\"no role\"}"),
    ];
    let (p, imgs) = messages_to_prompt(&msgs, None, &j("\"auto\""));
    assert_eq!(p, "[System instruction]: S\n\nU\n\n[Assistant]: A\n\n[Tool result for t]: R\n\nno role");
    assert!(imgs.is_empty());
}

#[test]
fn prompt_from_assistant_tool_calls() {
    let msgs = vec![j(
        "{\"role\":\"assistant\",\"content\":null,\"tool_calls\":[{\"function\":{\"name\":\"f\",\"arguments\":\"{\\\"x\\\":1}\"}},{\"function\":{\"name\":\"g\"}}]}",
    )];
    let (p, _) = messages_to_prompt(&msgs, None, &j("\"auto\""));
    assert_eq!(
        p,
        "[Assistant]: \n```tool_call\n{\"name\": \"f\", \"arguments\": {\"x\":1}}\n```\n```tool_call\n{\"name\": \"g\", \"arguments\": {}}\n```"
    );
}

#[test]
fn prompt_with_tools() {
    let tools = vec![j("{\"type\":\"function\",\"function\":{\"name\":\"f\",\"description\":\"d\",\"parameters\":{}}}")];
    let msgs = vec![j("{\"role\":\"user\",\"content\":\"U\"}")];
    let (p, _) = messages_to_prompt(&msgs, Some(&tools), &j("\"required\""));
    let expected = "# Tool Use\n\nYou can call the following tools. Call format:\n```tool_call\n{\"name\": \"func_name\", \"arguments\": {...}}\n```\nWhen calling tools, output ONLY the tool_call block(s).\n\nAvailable tools:\n[\n  {\n    \"description\": \"d\",\n    \"name\": \"f\",\n    \"parameters\": {}\n  }\n]\n\nIMPORTANT: You MUST call at least one tool. Do not respond with text only.\n\nU";
    assert_eq!(p, expected);
    let (p, _) = messages_to_prompt(&msgs, Some(&tools), &j("\"none\""));
    assert_eq!(p, "U");
    let empty: Vec<Json> = Vec::new();
    let (p, _) = messages_to_prompt(&msgs, Some(&empty), &j("\"auto\""));
    assert_eq!(p, "U");
}

#[test]
fn tool_calls_are_read_out_of_text() {
    let text = "Sure.\n```tool_call\n{\"name\": \"f\", \"arguments\": {\"x\": 1}}\n```\nDone";
    let (clean, calls) = parse_tool_calls(text);
    assert_eq!(clean, "Sure.\n\nDone");
    assert_eq!(calls.len(), 1);
    let id = calls[0].get_str("id").unwrap().to_string();
    assert!(id.starts_with("call_"));
    assert_eq!(id.len(), 13);
    assert!(id[5..].chars().all(|c| c.is_ascii_hexdigit() && !c.is_ascii_uppercase()));
    assert_eq!(calls[0].get_str("type"), Some("function"));
    let f = calls[0].get("function").unwrap();
    assert_eq!(f.get_str("name"), Some("f"));
    assert_eq!(f.get_str("arguments"), Some("{\"x\":1}"));
}

#[test]
fn tool_call_blocks_without_a_name_are_dropped() {
    let (clean, calls) = parse_tool_calls("a\n```tool_call\nnot json\n```\nb");
    assert_eq!(clean, "a\n\nb");
    assert!(calls.is_empty());
    let (clean, calls) = parse_tool_calls("  no calls  ");
    assert_eq!(clean, "no calls");
    assert!(calls.is_empty());
}

#[test]
fn tool_call_without_arguments_gets_empty_object() {
    let (_, calls) = parse_tool_calls("```tool_call\n{\"name\": \"z\"}\n```");
    assert_eq!(calls[0].get("function").unwrap().get_str("arguments"), Some("{}"));
}

#[test]
fn google_tool_prompt() {
    let defs = vec![j("{\"name\":\"f\"}")];
    let expected = "# Tool Use\n\nYou can call the following tools to help accomplish tasks. These tools connect to the user's local environment and will execute when called.\n\nCall format (use this exact format):\n```function_call\n{\"name\": \"<tool_name>\", \"args\": {<arguments>}}\n```\n\nWhen calling tools:\n- Output ONLY the function_call block(s), nothing else\n- You may call multiple tools with multiple blocks\n- After receiving a [Tool result for ...], use that data to answer the user\n\nAvailable tools:\n[\n  {\n    \"name\": \"f\"\n  }\n]";
    assert_eq!(build_tool_prompt(&defs), expected);
}

#[test]
fn google_tool_choice() {
    assert_eq!(
        google_tool_choice_instruction(&j("{\"toolConfig\":{\"functionCallingConfig\":{\"mode\":\"ANY\",\"allowedFunctionNames\":[\"a\",\"b\"]}}}")),
        "\n\nIMPORTANT: You MUST call one of these tools: \"a\", \"b\". Do not respond with text only."
    );
    assert_eq!(
        google_tool_choice_instruction(&j("{\"toolConfig\":{\"functionCallingConfig\":{\"mode\":\"ANY\"}}}")),
        "\n\nIMPORTANT: You MUST call at least one tool. Do not respond with text only."
    );
    assert_eq!(
        google_tool_choice_instruction(&j("{\"toolConfig\":{\"functionCallingConfig\":{\"mode\":\"NONE\"}}}")),
        "\n\nIMPORTANT: Do NOT call any tools. Respond with text only."
    );
    assert_eq!(google_tool_choice_instruction(&j("{}")), "");
}

#[test]
fn google_contents_prompt_and_images() {
    let req = j("{\"systemInstruction\":{\"parts\":[{\"text\":\"Be brief\"},{\"text\":\"ok\"}]},\"contents\":[{\"role\":\"user\",\"parts\":[{\"text\":\"Hi\"},{\"inlineData\":{\"mimeType\":\"image/jpeg\",\"data\":\"TWFu\"}},{\"inlineData\":{\"data\":\"TQ==\"}},{\"inlineData\":{\"data\":\"!!\"}}]},{\"role\":\"model\",\"parts\":[{\"functionCall\":{\"name\":\"f\",\"args\":{\"a\":1}}}]},{\"role\":\"user\",\"parts\":[{\"functionResponse\":{\"name\":\"f\",\"response\":{\"r\":2}}}]}]}");
    let (p, imgs) = google_contents_to_prompt(&req);
    assert_eq!(
        p,
        "Be brief ok\n\nHi\n\n[Assistant]: ```function_call\n{\"args\":{\"a\":1},\"name\":\"f\"}\n```\n\n[Tool result for f]: {\"r\":2}"
    );
    assert_eq!(imgs, vec![(b"Man".to_vec(), "image/jpeg".to_string()), (b"M".to_vec(), "image/png".to_string())]);
}

#[test]
fn google_contents_with_tools() {
    let req = j("{\"tools\":[{\"functionDeclarations\":[{\"name\":\"f\",\"description\":\"d\",\"parameters\":{\"type\":\"object\"}}]}],\"contents\":[{\"parts\":[{\"text\":\"Q\"}]}]}");
    let (p, _) = google_contents_to_prompt(&req);
    let defs = vec![j("{\"name\":\"f\",\"description\":\"d\",\"parameters\":{\"type\":\"object\"}}")];
    assert_eq!(p, format!("{}\n\nQ", build_tool_prompt(&defs)));
    let req = j("{\"toolConfig\":{\"functionCallingConfig\":{\"mode\":\"NONE\"}},\"tools\":[{\"functionDeclarations\":[{\"name\":\"f\"}]}],\"contents\":[{\"parts\":[{\"text\":\"Q\"}]}]}");
    let (p, _) = google_contents_to_prompt(&req);
    assert_eq!(p, "Q");
}

#[test]
fn google_function_calls_in_blocks() {
    let (clean, calls) = parse_google_function_calls("Let me check.\n```function_call\n{\"name\": \"f\", \"args\": {\"a\": 1}}\n```");
    assert_eq!(clean, "Let me check.");
    assert_eq!(calls.len(), 1);
    assert_eq!(to_json_text(&calls[0]), "{\"args\":{\"a\":1},\"name\":\"f\"}");
}

#[test]
fn google_function_call_as_bare_json() {
    let (clean, calls) = parse_google_function_calls("{\"name\": \"g\", \"arguments\": {\"b\": 2}}");
    assert_eq!(clean, "");
    assert_eq!(to_json_text(&calls[0]), "{\"args\":{\"b\":2},\"name\":\"g\"}");
    let (clean, calls) = parse_google_function_calls("{\"name\": \"g\"}");
    assert_eq!(clean, "{\"name\": \"g\"}");
    assert!(calls.is_empty());
}

#[test]
fn google_function_call_after_a_bare_marker() {
    let (clean, calls) = parse_google_function_calls("function_call\n{\"name\": \"h\", \"args\": 5}");
    assert_eq!(clean, "");
    assert_eq!(to_json_text(&calls[0]), "{\"args\":5,\"name\":\"h\"}");
    // the block ends at the first closing brace, so nested arguments are cut
    let (clean, calls) = parse_google_function_calls("function_call\n{\"name\": \"h\", \"args\": {}}");
    assert_eq!(clean, "}");
    assert!(calls.is_empty());
    let (clean, calls) = parse_google_function_calls("  plain  ");
    assert_eq!(clean, "plain");
    assert!(calls.is_empty());
}
