use gemini_web2api::json::{parse_json, to_json_text, Json};
use gemini_web2api::server::{
    authorized, chat_chunk, chat_completion_body, chat_message, chat_reply, content_delta, empty_delta, error_body,
    fallback_route, google_chunk, google_final_chunk, google_parts, google_response_body, models_body, parse_body,
    plan_chat, plan_google, plan_responses, responses_body, responses_events, responses_output, responses_to_messages,
    responses_to_tools, root_body, sse_data, sse_event, streams_deltas, tok, v1beta_models_body, version,
    FallbackRoute,
};

fn j(s: &str) -> Json {
    parse_json(s).unwrap()
}

fn same(a: &Json, b: &str) {
    assert_eq!(to_json_text(a), to_json_text(&j(b)));
}

fn keys(v: &[&str]) -> Vec<String> {
    v.iter().map(|s| s.to_string()).collect()
}

#[test]
fn version_text() {
    assert_eq!(version(), "1.1.0");
}

#[test]
fn token_estimate_is_a_quarter_of_the_characters() {
    assert_eq!(tok(""), 0);
    assert_eq!(tok("abc"), 0);
    assert_eq!(tok("abcdefgh"), 2);
    assert_eq!(tok("héllo"), 1);
    assert_eq!(tok("日本語の文章です"), 2);
}

#[test]
fn access_without_keys_is_open() {
    assert!(authorized(&Vec::new(), None, None));
    assert!(authorized(&Vec::new(), Some("Bearer nope"), Some("x")));
}

#[test]
fn access_with_keys() {
    let k = keys(&["k1", "k2"]);
    assert!(authorized(&k, Some("Bearer k2"), None));
    assert!(authorized(&k, None, Some("k1")));
    assert!(authorized(&k, Some("Basic zzz"), Some("k1")));
    assert!(!authorized(&k, Some("Bearer k3"), Some("k1")));
    assert!(!authorized(&k, None, None));
    assert!(!authorized(&k, Some("bearer k1"), None));
}

#[test]
fn error_answer_body() {
    same(&error_body("invalid api key"), "{\"error\":{\"message\":\"invalid api key\"}}");
}

#[test]
fn root_answer_lists_models() {
    same(
        &root_body(),
        "{\"status\":\"ok\",\"version\":\"1.1.0\",\"models\":[\"gemini-3.5-flash\",\"gemini-3.5-flash-thinking\",\"gemini-3.1-pro\",\"gemini-3.1-pro-enhanced\",\"gemini-auto\",\"gemini-3.5-flash-thinking-lite\",\"gemini-flash-lite\"]}",
    );
}

#[test]
fn openai_model_list() {
    let b = models_body();
    assert_eq!(b.get_str("object"), Some("list"));
    let data = b.get_array("data").unwrap();
    assert_eq!(data.len(), 7);
    same(
        &data[0],
        "{\"id\":\"gemini-3.5-flash\",\"object\":\"model\",\"created\":1700000000,\"owned_by\":\"google\",\"description\":\"Fast general-purpose model\"}",
    );
}

#[test]
fn google_model_list() {
    let b = v1beta_models_body();
    let ms = b.get_array("models").unwrap();
    assert_eq!(ms.len(), 7);
    same(
        &ms[6],
        "{\"name\":\"models/gemini-flash-lite\",\"displayName\":\"gemini-flash-lite\",\"description\":\"Lightweight fast model\",\"supportedGenerationMethods\":[\"generateContent\",\"streamGenerateContent\"]}",
    );
}

#[test]
fn request_bodies_must_be_json() {
    assert!(parse_body("{\"a\":1}").is_some());
    assert!(parse_body("{nope").is_none());
    assert!(parse_body("").is_none());
}

#[test]
fn chat_request_errors() {
    match plan_chat("not json", "gemini-3.5-flash") {
        Err(e) => {
            assert_eq!(e.status, 400);
            assert_eq!(e.message, "invalid JSON");
        },
        Ok(_) => panic!("expected an error"),
    }
    match plan_chat("{\"model\":\"gemini-auto@think=x\",\"messages\":[{\"role\":\"user\",\"content\":\"hi\"}]}", "gemini-3.5-flash") {
        Err(e) => {
            assert_eq!(e.status, 400);
            assert_eq!(e.message, "Invalid think level: x");
        },
        Ok(_) => panic!("expected an error"),
    }
    match plan_chat("{\"messages\":[{\"role\":\"user\",\"content\":\"   \"}]}", "gemini-3.5-flash") {
        Err(e) => {
            assert_eq!(e.status, 400);
            assert_eq!(e.message, "empty prompt");
        },
        Ok(_) => panic!("expected an error"),
    }
}

#[test]
fn chat_request_plan() {
    let p = plan_chat(
        "{\"model\":\"gemini-3.1-pro\",\"stream\":true,\"messages\":[{\"role\":\"system\",\"content\":\"S\"},{\"role\":\"user\",\"content\":\"hi\"}]}",
        "gemini-3.5-flash",
    )
    .unwrap();
    assert_eq!(p.model.name, "gemini-3.1-pro");
    assert_eq!(p.model.mode, 3);
    assert_eq!(p.prompt, "[System instruction]: S\n\nhi");
    assert!(p.stream);
    assert!(!p.has_tools);
    assert!(!p.tc_none);
    assert!(p.images.is_empty());
    assert!(streams_deltas(&p));
}

#[test]
fn chat_request_with_tools_does_not_stream_deltas() {
    let body = "{\"stream\":true,\"tools\":[{\"type\":\"function\",\"function\":{\"name\":\"f\"}}],\"messages\":[{\"role\":\"user\",\"content\":\"hi\"}]}";
    let p = plan_chat(body, "gemini-3.5-flash").unwrap();
    assert_eq!(p.model.name, "gemini-3.5-flash");
    assert!(p.has_tools);
    assert!(!streams_deltas(&p));
    let body = "{\"stream\":true,\"tool_choice\":\"none\",\"tools\":[{\"type\":\"function\",\"function\":{\"name\":\"f\"}}],\"messages\":[{\"role\":\"user\",\"content\":\"hi\"}]}";
    let p = plan_chat(body, "gemini-3.5-flash").unwrap();
    assert!(p.tc_none);
    assert_eq!(p.prompt, "hi");
    assert!(streams_deltas(&p));
}

#[test]
fn chat_reply_reads_tool_calls_only_with_tools() {
    let text = "ok\n```tool_call\n{\"name\": \"f\", \"arguments\": {}}\n```";
    let (t, calls) = chat_reply(text, true, false);
    assert_eq!(t, "ok");
    assert_eq!(calls.len(), 1);
    let (t, calls) = chat_reply(text, false, false);
    assert_eq!(t, text);
    assert!(calls.is_empty());
    let (t, calls) = chat_reply(text, true, true);
    assert_eq!(t, text);
    assert!(calls.is_empty());
}

#[test]
fn chat_message_and_finish_reason() {
    let (m, f) = chat_message("hello", &Vec::new());
    same(&m, "{\"role\":\"assistant\",\"content\":\"hello\"}");
    assert_eq!(f, "stop");
    let calls = vec![j("{\"id\":\"call_1\",\"type\":\"function\",\"function\":{\"name\":\"f\",\"arguments\":\"{}\"}}")];
    let (m, f) = chat_message("", &calls);
    same(
        &m,
        "{\"role\":\"assistant\",\"content\":null,\"tool_calls\":[{\"id\":\"call_1\",\"type\":\"function\",\"function\":{\"name\":\"f\",\"arguments\":\"{}\"}}]}",
    );
    assert_eq!(f, "tool_calls");
}

#[test]
fn chat_completion_answer() {
    let (m, f) = chat_message("abcd", &Vec::new());
    let b = chat_completion_body("chatcmpl-1", 17, "gemini-auto", m, f, "12345678", "abcd");
    same(
        &b,
        "{\"id\":\"chatcmpl-1\",\"object\":\"chat.completion\",\"created\":17,\"model\":\"gemini-auto\",\"choices\":[{\"index\":0,\"message\":{\"role\":\"assistant\",\"content\":\"abcd\"},\"finish_reason\":\"stop\"}],\"usage\":{\"prompt_tokens\":2,\"completion_tokens\":1,\"total_tokens\":3}}",
    );
}

#[test]
fn chat_stream_chunks() {
    let c = chat_chunk("id1", 5, "m", content_delta("hi"), Json::Null);
    same(
        &c,
        "{\"id\":\"id1\",\"object\":\"chat.completion.chunk\",\"created\":5,\"model\":\"m\",\"choices\":[{\"index\":0,\"delta\":{\"content\":\"hi\"},\"finish_reason\":null}]}",
    );
    let e = chat_chunk("id1", 6, "m", empty_delta(), Json::string("stop"));
    same(
        &e,
        "{\"id\":\"id1\",\"object\":\"chat.completion.chunk\",\"created\":6,\"model\":\"m\",\"choices\":[{\"index\":0,\"delta\":{},\"finish_reason\":\"stop\"}]}",
    );
}

#[test]
fn server_sent_event_framing() {
    assert_eq!(sse_data(&j("{\"a\":1}")), "data: {\"a\":1}\n\n");
    assert_eq!(sse_event("response.created", &j("[1]")), "event: response.created\ndata: [1]\n\n");
}

#[test]
fn google_request_errors() {
    let path = "/v1beta/models/gemini-auto:generateContent";
    match plan_google(path, "oops", "gemini-3.5-flash") {
        Err(e) => assert_eq!((e.status, e.message.as_str()), (400, "invalid JSON")),
        Ok(_) => panic!("expected an error"),
    }
    match plan_google(path, "{\"contents\":[]}", "gemini-3.5-flash") {
        Err(e) => assert_eq!((e.status, e.message.as_str()), (400, "empty content")),
        Ok(_) => panic!("expected an error"),
    }
    match plan_google("/v1beta/models/gemini-auto@think=q:generateContent", "{\"contents\":[{\"parts\":[{\"text\":\"hi\"}]}]}", "gemini-3.5-flash") {
        Err(e) => assert_eq!((e.status, e.message.as_str()), (400, "Invalid think level: q")),
        Ok(_) => panic!("expected an error"),
    }
}

#[test]
fn google_request_plan() {
    let body = "{\"contents\":[{\"parts\":[{\"text\":\"hi\"}]}],\"tools\":[{\"functionDeclarations\":[{\"name\":\"f\"}]}]}";
    let p = plan_google("/v1beta/models/gemini-3.1-pro:streamGenerateContent?alt=sse", body, "gemini-3.5-flash").unwrap();
    assert_eq!(p.model.name, "gemini-3.1-pro");
    assert!(p.has_tools);
    assert!(p.prompt.ends_with("\n\nhi"));
    let p = plan_google("/other", "{\"contents\":[{\"parts\":[{\"text\":\"hi\"}]}],\"tools\":null}", "gemini-auto").unwrap();
    assert_eq!(p.model.name, "gemini-auto");
    assert!(!p.has_tools);
    assert_eq!(p.prompt, "hi");
}

#[test]
fn google_answer_parts() {
    let ps = google_parts("", false);
    assert_eq!(ps.len(), 1);
    same(&ps[0], "{\"text\":\"I apologize, but I was unable to generate a response. Please try again.\"}");
    let ps = google_parts("plain", true);
    same(&ps[0], "{\"text\":\"plain\"}");
    let ps = google_parts("Checking.\n```function_call\n{\"name\": \"f\", \"args\": {\"a\": 1}}\n```", true);
    assert_eq!(ps.len(), 2);
    same(&ps[0], "{\"text\":\"Checking.\"}");
    same(&ps[1], "{\"functionCall\":{\"name\":\"f\",\"args\":{\"a\":1}}}");
    let ps = google_parts("```function_call\n{\"name\": \"f\"}\n```", true);
    assert_eq!(ps.len(), 1);
    same(&ps[0], "{\"functionCall\":{\"name\":\"f\",\"args\":{}}}");
}

#[test]
fn google_answer_body_and_chunks() {
    let parts = google_parts("abcd", false);
    let b = google_response_body(parts, "12345678", "abcd", "gemini-auto");
    same(
        &b,
        "{\"candidates\":[{\"content\":{\"parts\":[{\"text\":\"abcd\"}],\"role\":\"model\"},\"finishReason\":\"STOP\",\"index\":0}],\"usageMetadata\":{\"promptTokenCount\":2,\"candidatesTokenCount\":1,\"totalTokenCount\":3},\"modelVersion\":\"gemini-auto\"}",
    );
    same(
        &google_chunk("hi", "m"),
        "{\"candidates\":[{\"content\":{\"parts\":[{\"text\":\"hi\"}],\"role\":\"model\"},\"index\":0}],\"modelVersion\":\"m\"}",
    );
    same(
        &google_final_chunk(9, "abcdefgh", "m"),
        "{\"candidates\":[{\"finishReason\":\"STOP\",\"index\":0}],\"usageMetadata\":{\"promptTokenCount\":2,\"candidatesTokenCount\":2,\"totalTokenCount\":4},\"modelVersion\":\"m\"}",
    );
}

#[test]
fn fallback_routes() {
    assert!(matches!(
        fallback_route(true, "/v1beta/models/x:streamGenerateContent"),
        FallbackRoute::GoogleGenerate { stream: true }
    ));
    assert!(matches!(
        fallback_route(true, "/v1beta/models/x:generateContent"),
        FallbackRoute::GoogleGenerate { stream: false }
    ));
    assert!(matches!(fallback_route(false, "/v1beta/models/x:generateContent"), FallbackRoute::NotFound));
    assert!(matches!(fallback_route(true, "/nothing"), FallbackRoute::NotFound));
}

#[test]
fn responses_input_to_messages() {
    let req = j("{\"instructions\":\"Be nice\",\"input\":[\"plain\",{\"type\":\"function_call_output\",\"call_id\":\"c1\",\"output\":\"42\"},{\"role\":\"assistant\",\"content\":[{\"type\":\"output_text\",\"text\":\"A\"},{\"type\":\"function_call\",\"name\":\"f\",\"arguments\":\"{}\"},{\"type\":\"function_call\",\"call_id\":\"x9\",\"name\":\"g\"}]},{\"role\":\"user\",\"content\":[{\"type\":\"input_text\",\"text\":\"p\"},{\"type\":\"text\",\"text\":\"q\"},{\"type\":\"image\"}]},{\"content\":{\"k\":1}},7]}");
    let ms = responses_to_messages(&req);
    assert_eq!(ms.len(), 6);
    same(&ms[0], "{\"role\":\"system\",\"content\":\"Be nice\"}");
    same(&ms[1], "{\"role\":\"user\",\"content\":\"plain\"}");
    same(&ms[2], "{\"role\":\"tool\",\"tool_call_id\":\"c1\",\"name\":\"\",\"content\":\"42\"}");
    same(
        &ms[3],
        "{\"role\":\"assistant\",\"content\":\"A\",\"tool_calls\":[{\"id\":\"call_0\",\"type\":\"function\",\"function\":{\"name\":\"f\",\"arguments\":\"{}\"}},{\"id\":\"x9\",\"type\":\"function\",\"function\":{\"name\":\"g\",\"arguments\":\"{}\"}}]}",
    );
    same(&ms[4], "{\"role\":\"user\",\"content\":\"p q\"}");
    same(&ms[5], "{\"role\":\"user\",\"content\":\"{\\\"k\\\":1}\"}");
}

#[test]
fn responses_string_input() {
    let ms = responses_to_messages(&j("{\"input\":\"hello\"}"));
    assert_eq!(ms.len(), 1);
    same(&ms[0], "{\"role\":\"user\",\"content\":\"hello\"}");
    assert!(responses_to_messages(&j("{}")).is_empty());
}

#[test]
fn responses_tools_are_normalized() {
    let req = j("{\"tools\":[{\"type\":\"function\",\"name\":\"f\",\"description\":\"d\",\"parameters\":{\"type\":\"object\"}},{\"type\":\"function\",\"function\":{\"name\":\"g\"}},{\"type\":\"web_search\"}]}");
    let ts = responses_to_tools(&req).unwrap();
    assert_eq!(ts.len(), 3);
    same(&ts[0], "{\"type\":\"function\",\"function\":{\"name\":\"f\",\"description\":\"d\",\"parameters\":{\"type\":\"object\"}}}");
    same(&ts[1], "{\"type\":\"function\",\"function\":{\"name\":\"g\"}}");
    same(&ts[2], "{\"type\":\"web_search\"}");
    assert!(responses_to_tools(&j("{}")).is_none());
    let ts = responses_to_tools(&j("{\"tools\":[{\"type\":\"function\"}]}")).unwrap();
    same(&ts[0], "{\"type\":\"function\",\"function\":{\"name\":\"\",\"description\":\"\",\"parameters\":{}}}");
}

#[test]
fn responses_request_plan_and_errors() {
    match plan_responses("{\"input\":\"  \"}", "gemini-3.5-flash") {
        Err(e) => assert_eq!((e.status, e.message.as_str()), (400, "empty input")),
        Ok(_) => panic!("expected an error"),
    }
    match plan_responses("[", "gemini-3.5-flash") {
        Err(e) => assert_eq!((e.status, e.message.as_str()), (400, "invalid JSON")),
        Ok(_) => panic!("expected an error"),
    }
    let p = plan_responses("{\"model\":\"gemini-auto\",\"instructions\":\"I\",\"input\":\"U\",\"stream\":true}", "gemini-3.5-flash").unwrap();
    assert_eq!(p.model.name, "gemini-auto");
    assert_eq!(p.prompt, "[System instruction]: I\n\nU");
    assert!(p.stream);
    assert!(!p.has_tools);
}

#[test]
fn responses_output_items() {
    let calls = vec![j("{\"id\":\"call_ab\",\"type\":\"function\",\"function\":{\"name\":\"f\",\"arguments\":\"{}\"}}")];
    let out = responses_output(&calls, "", "msg_1");
    assert_eq!(out.len(), 1);
    same(
        &out[0],
        "{\"type\":\"function_call\",\"id\":\"call_ab\",\"call_id\":\"call_ab\",\"name\":\"f\",\"arguments\":\"{}\",\"status\":\"completed\"}",
    );
    let out = responses_output(&Vec::new(), "", "msg_1");
    assert_eq!(out.len(), 1);
    same(
        &out[0],
        "{\"type\":\"message\",\"id\":\"msg_1\",\"role\":\"assistant\",\"status\":\"completed\",\"content\":[{\"type\":\"output_text\",\"text\":\"\",\"annotations\":[]}]}",
    );
    let out = responses_output(&calls, "t", "msg_1");
    assert_eq!(out.len(), 2);
}

#[test]
fn responses_answer_body_and_events() {
    let out = responses_output(&Vec::new(), "abcd", "msg_1");
    let b = responses_body("resp_1", 9, "gemini-auto", out, "12345678", "abcd");
    same(
        &b,
        "{\"id\":\"resp_1\",\"object\":\"response\",\"created_at\":9,\"status\":\"completed\",\"model\":\"gemini-auto\",\"output\":[{\"type\":\"message\",\"id\":\"msg_1\",\"role\":\"assistant\",\"status\":\"completed\",\"content\":[{\"type\":\"output_text\",\"text\":\"abcd\",\"annotations\":[]}]}],\"usage\":{\"input_tokens\":2,\"output_tokens\":1,\"total_tokens\":3}}",
    );
    let calls = vec![j("{\"id\":\"call_ab\",\"type\":\"function\",\"function\":{\"name\":\"f\",\"arguments\":\"{}\"}}")];
    let out = responses_output(&calls, "hi", "msg_2");
    let evs = responses_events("resp_2", "m", &out, "", "hi");
    assert_eq!(evs.len(), 4);
    assert_eq!(
        evs[0],
        format!(
            "event: response.created\ndata: {}\n\n",
            to_json_text(&j("{\"type\":\"response.created\",\"response\":{\"id\":\"resp_2\",\"object\":\"response\",\"status\":\"in_progress\",\"model\":\"m\",\"output\":[]}}"))
        )
    );
    assert_eq!(
        evs[1],
        format!(
            "event: response.function_call_arguments.done\ndata: {}\n\n",
            to_json_text(&j("{\"type\":\"response.function_call_arguments.done\",\"item_id\":\"call_ab\",\"call_id\":\"call_ab\",\"name\":\"f\",\"arguments\":\"{}\"}"))
        )
    );
    assert_eq!(
        evs[2],
        format!(
            "event: response.output_text.done\ndata: {}\n\n",
            to_json_text(&j("{\"type\":\"response.output_text.done\",\"item_id\":\"msg_2\",\"content_index\":0,\"text\":\"hi\"}"))
        )
    );
    assert!(evs[3].starts_with("event: response.completed\ndata: "));
    assert!(evs[3].contains("\"total_tokens\":0"));
}
