use gemini_web2api::config::Config;
use gemini_web2api::gemini::{
    build_headers, build_payload, build_payload_with_id, chrono_like_time, clean_text, extract_response_text,
    extract_texts_from_line, get_url, make_sapisidhash, parse_cookie, CookieCache, GenerateAction, GenerateRun,
    StreamAction, StreamDecoder, StreamRun,
};
use gemini_web2api::json::parse_json;

fn wrb_line(text: &str) -> String {
    let pad = "x".repeat(150);
    format!(
        "[[\"wrb.fr\",null,\"[null,[\\\"c_1\\\",\\\"r_1\\\"],null,null,[[\\\"rc_1\\\",[\\\"{}\\\"]]],\\\"{}\\\"]\"]]",
        text, pad
    )
}

fn pairs(v: &[(&str, &str)]) -> Vec<(String, String)> {
    v.iter().map(|(a, b)| (a.to_string(), b.to_string())).collect()
}

#[test]
fn clock_text_formats_hours_minutes_seconds() {
    assert_eq!(chrono_like_time(0), "00:00:00");
    assert_eq!(chrono_like_time(3661), "01:01:01");
    assert_eq!(chrono_like_time(86399), "23:59:59");
    assert_eq!(chrono_like_time(86400 * 3 + 45), "00:00:45");
}

#[test]
fn url_carries_prefix_build_and_request_id() {
    let c = Config::default();
    assert_eq!(
        get_url(&c, 1_700_000_123),
        "https://gemini.google.com/_/BardChatUi/data/assistant.lamda.BardFrontendService/StreamGenerate?bl=boq_assistant-bard-web-server_20260525.09_p0&hl=en&_reqid=123&rt=c"
    );
    let mut c = Config::default();
    c.auth_user = Some(parse_json("2").unwrap());
    c.gemini_bl = "B".to_string();
    assert_eq!(
        get_url(&c, 5),
        "https://gemini.google.com/u/2/_/BardChatUi/data/assistant.lamda.BardFrontendService/StreamGenerate?bl=B&hl=en&_reqid=5&rt=c"
    );
}

#[test]
fn sapisidhash_is_sha1_of_time_sapisid_and_origin() {
    assert_eq!(
        make_sapisidhash("abc", 1_700_000_000),
        "SAPISIDHASH 1700000000_9f7ae0683cf3b5b1611ae104e4faa87d05069434"
    );
}

#[test]
fn headers_without_account_or_cookie() {
    let h = build_headers(&Config::default(), "", None, 0);
    assert_eq!(
        h,
        pairs(&[
            ("Content-Type", "application/x-www-form-urlencoded"),
            ("Origin", "https://gemini.google.com"),
            ("Referer", "https://gemini.google.com/app"),
            ("X-Same-Domain", "1"),
            ("User-Agent", "Mozilla/5.0 (Windows NT 10.0; Win64; x64) AppleWebKit/537.36"),
        ])
    );
}

#[test]
fn headers_with_account_cookie_and_sapisid() {
    let mut c = Config::default();
    c.auth_user = Some(parse_json("\"1\"").unwrap());
    let h = build_headers(&c, "a=b; SAPISID=abc", Some("abc"), 1_700_000_000);
    assert_eq!(
        h,
        pairs(&[
            ("Content-Type", "application/x-www-form-urlencoded"),
            ("Origin", "https://gemini.google.com"),
            ("Referer", "https://gemini.google.com/u/1/app"),
            ("X-Same-Domain", "1"),
            ("User-Agent", "Mozilla/5.0 (Windows NT 10.0; Win64; x64) AppleWebKit/537.36"),
            ("X-Goog-AuthUser", "1"),
            ("Cookie", "a=b; SAPISID=abc"),
            ("authorization", "SAPISIDHASH 1700000000_9f7ae0683cf3b5b1611ae104e4faa87d05069434"),
        ])
    );
}

#[test]
fn headers_leave_out_values_a_header_cannot_hold() {
    let h = build_headers(&Config::default(), "a=\u{1}b", None, 0);
    assert_eq!(h.len(), 5);
    assert!(h.iter().all(|(k, _)| k != "Cookie"));
}

const PAYLOAD_HI: &str = "f.req=%5Bnull%2C%22%5B%5B%5C%22hi%5C%22%2C0%2Cnull%2Cnull%2Cnull%2Cnull%2C0%5D%2C%5B%5C%22en%5C%22%5D%2C%5B%5C%22%5C%22%2C%5C%22%5C%22%2C%5C%22%5C%22%2Cnull%2Cnull%2Cnull%2Cnull%2Cnull%2Cnull%2C%5C%22%5C%22%5D%2Cnull%2Cnull%2Cnull%2C%5B0%5D%2C1%2Cnull%2Cnull%2C1%2C0%2Cnull%2Cnull%2Cnull%2Cnull%2Cnull%2C%5B%5B4%5D%5D%2C0%2Cnull%2Cnull%2Cnull%2Cnull%2Cnull%2Cnull%2Cnull%2Cnull%2C1%2Cnull%2Cnull%2C%5B4%5D%2Cnull%2Cnull%2Cnull%2Cnull%2Cnull%2Cnull%2Cnull%2Cnull%2Cnull%2Cnull%2C%5B2%5D%2Cnull%2Cnull%2Cnull%2Cnull%2Cnull%2Cnull%2Cnull%2Cnull%2Cnull%2Cnull%2Cnull%2C0%2Cnull%2Cnull%2Cnull%2Cnull%2Cnull%2C%5C%2200000000-0000-4000-8000-000000000000%5C%22%2Cnull%2C%5B%5D%2Cnull%2Cnull%2Cnull%2Cnull%2Cnull%2Cnull%2C1%2Cnull%2Cnull%2Cnull%2Cnull%2Cnull%2Cnull%2Cnull%2Cnull%2Cnull%2Cnull%2C1%2Cnull%2Cnull%2Cnull%2Cnull%2Cnull%2Cnull%2Cnull%2Cnull%2Cnull%2Cnull%2Cnull%2Cnull%2Cnull%2Cnull%2Cnull%2Cnull%2Cnull%2Cnull%2Cnull%2Cnull%2Cnull%2Cnull%5D%22%5D";

#[test]
fn payload_with_fixed_request_id() {
    let p = build_payload_with_id(&Config::default(), "hi", 1, 4, None, None, "00000000-0000-4000-8000-000000000000");
    assert_eq!(p, PAYLOAD_HI);
}

#[test]
fn payload_appends_xsrf_token() {
    let mut c = Config::default();
    c.xsrf_token = Some("tok/1 x".to_string());
    let p = build_payload_with_id(&c, "hi", 1, 4, None, None, "00000000-0000-4000-8000-000000000000");
    assert_eq!(p, format!("{}&at=tok%2F1+x", PAYLOAD_HI));
}

#[test]
fn payload_extra_fields_and_file_refs() {
    let refs = vec!["/f/1".to_string()];
    let extra = vec![(31usize, 2i64), (80usize, 3i64)];
    let p = build_payload_with_id(&Config::default(), "hi", 3, 4, Some(&refs), Some(&extra), "id");
    // the prompt entry holds the file reference
    assert!(p.contains("%5B%5B%5C%22hi%5C%22%2C0%2Cnull%2C%5B%5Bnull%2Cnull%2C%5C%22%2Ff%2F1%5C%22%5D%5D%2Cnull%2Cnull%2C0%5D"));
    assert!(p.starts_with("f.req=%5Bnull%2C%22%5B"));
}

#[test]
fn payload_request_id_is_random_uuid() {
    let a = build_payload(&Config::default(), "hi", 1, 4, None, None);
    let b = build_payload(&Config::default(), "hi", 1, 4, None, None);
    assert_eq!(a.len(), PAYLOAD_HI.len());
    assert_ne!(a, b);
}

#[test]
fn clean_text_removes_cards_and_code_blocks() {
    assert_eq!(clean_text("Hi http://googleusercontent.com/card_content/12\nthere "), "Hi there");
    assert_eq!(
        clean_text("A```python?code_reference&code_event_index=2\nprint(1)\n```\nB"),
        "AB"
    );
    assert_eq!(clean_text("  plain  "), "plain");
}

#[test]
fn texts_of_a_response_line() {
    assert_eq!(extract_texts_from_line(&wrb_line("Hello")), vec!["Hello".to_string()]);
    assert!(extract_texts_from_line("[[\"wrb.fr\",null,\"x\"]]").is_empty());
    assert!(extract_texts_from_line(&wrb_line("Hello").replace("wrb.fr", "wrb.xx")).is_empty());
}

#[test]
fn response_text_is_the_longest_text() {
    let raw = format!(")]}}'\n\n{}\n{}\n{}\n", wrb_line("Hello"), wrb_line("Hello world"), wrb_line("Hi"));
    assert_eq!(extract_response_text(&raw), "Hello world");
    assert_eq!(extract_response_text("nothing here"), "");
}

#[test]
fn cookie_header_text() {
    let (c, s) = parse_cookie("  a=1; SAPISID=xyz; b=2\n");
    assert_eq!(c, "a=1; SAPISID=xyz; b=2");
    assert_eq!(s, Some("xyz".to_string()));
    let (c, s) = parse_cookie("a=1; b=2");
    assert_eq!(c, "a=1; b=2");
    assert_eq!(s, None);
    let (_, s) = parse_cookie("SAPISID=");
    assert_eq!(s, None);
    let (_, s) = parse_cookie("SAPISID=a; SAPISID=b");
    assert_eq!(s, Some("b".to_string()));
}

#[test]
fn cookie_json_file() {
    let (c, s) = parse_cookie("{\"cookie\": \"k=v\", \"sapisid\": \"q\"}");
    assert_eq!(c, "k=v");
    assert_eq!(s, Some("q".to_string()));
    let (c, s) = parse_cookie("{\"sapisid\": \"\"}");
    assert_eq!(c, "");
    assert_eq!(s, None);
    let (c, s) = parse_cookie("{not json");
    assert_eq!(c, "{not json");
    assert_eq!(s, None);
}

#[test]
fn cookie_cache_serves_while_mtime_unchanged() {
    let mut cache = CookieCache::new();
    assert!(cache.lookup(None).is_none());
    let m = Some((100u64, 5u32));
    let (c, s) = cache.after_read(m, Some("a=1; SAPISID=z"));
    assert_eq!(c, "a=1; SAPISID=z");
    assert_eq!(s, Some("z".to_string()));
    assert_eq!(cache.lookup(m), Some(("a=1; SAPISID=z".to_string(), Some("z".to_string()))));
    assert!(cache.lookup(Some((100, 6))).is_none());
    assert!(cache.lookup(None).is_none());
    let (c2, s2) = cache.after_read(Some((200, 0)), None);
    assert_eq!(c2, "a=1; SAPISID=z");
    assert_eq!(s2, Some("z".to_string()));
    assert_eq!(cache.mtime, m);
}

#[test]
fn cookie_cache_does_not_serve_empty_cookie() {
    let mut cache = CookieCache::new();
    let m = Some((1u64, 1u32));
    cache.after_read(m, Some("   "));
    assert!(cache.lookup(m).is_none());
}

#[test]
fn generation_retries_then_gives_up() {
    let (mut run, a) = GenerateRun::start(3, 2);
    assert!(matches!(a, GenerateAction::Send));
    assert!(matches!(run.on_failure("e1".to_string()), GenerateAction::SleepThenSend(2)));
    assert!(matches!(run.on_failure("e2".to_string()), GenerateAction::SleepThenSend(2)));
    match run.on_failure("e3".to_string()) {
        GenerateAction::Finish(Err(e)) => assert_eq!(e, "e3"),
        _ => panic!("expected to give up"),
    }
}

#[test]
fn generation_without_attempts_fails_at_once() {
    let (_, a) = GenerateRun::start(0, 2);
    match a {
        GenerateAction::Finish(Err(e)) => assert_eq!(e, "unknown error"),
        _ => panic!("expected an error"),
    }
}

#[test]
fn generation_answer_is_the_response_text() {
    let (run, _) = GenerateRun::start(1, 0);
    match run.on_body(&format!("{}\n", wrb_line("Done"))) {
        GenerateAction::Finish(Ok(t)) => assert_eq!(t, "Done"),
        _ => panic!("expected an answer"),
    }
}

#[test]
fn stream_retries() {
    let (mut run, a) = StreamRun::start(2, 1);
    assert!(matches!(a, StreamAction::Send));
    assert!(matches!(run.on_send_failed(), StreamAction::SleepThenSend(1)));
    assert!(matches!(run.on_stream_failed(), StreamAction::Stop));
    let (mut run, _) = StreamRun::start(3, 1);
    assert!(matches!(run.on_stream_failed(), StreamAction::Send));
    let (_, a) = StreamRun::start(0, 1);
    assert!(matches!(a, StreamAction::Stop));
}

#[test]
fn stream_decoder_sends_growing_deltas() {
    let mut d = StreamDecoder::new();
    let body = format!("{}\n{}\n{}\n", wrb_line("Hello"), wrb_line("Hello world"), wrb_line("Hello"));
    let out = d.feed(&body);
    assert_eq!(out, vec!["Hello".to_string(), "world".to_string()]);
    assert!(!d.stopped);
    assert_eq!(d.prev_text, "Hello world");
}

#[test]
fn stream_decoder_chunking_does_not_matter() {
    let body = format!("{}\n{}\n", wrb_line("Hello"), wrb_line("Hello world"));
    let mut whole = StreamDecoder::new();
    let all = whole.feed(&body);
    let (a, b) = body.split_at(37);
    let mut parts = StreamDecoder::new();
    let mut got = parts.feed(a);
    got.extend(parts.feed(b));
    assert_eq!(got, all);
    assert_eq!(parts.prev_text, whole.prev_text);
    assert_eq!(parts.buf, whole.buf);
}

#[test]
fn stream_decoder_keeps_unfinished_line() {
    let mut d = StreamDecoder::new();
    let line = wrb_line("Hey");
    assert!(d.feed(&line).is_empty());
    assert_eq!(d.buf, line);
    assert_eq!(d.feed("\n"), vec!["Hey".to_string()]);
    assert_eq!(d.buf, "");
}
