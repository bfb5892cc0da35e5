use gemini_web2api::multimodal::{
    check_file_ref, collect_refs, extract_page_tokens, page_headers, upload_finish_headers, upload_ids, upload_jobs,
    upload_start_headers, upload_url_from, PageTokenCache, PageTokens,
};

fn pairs(v: &[(&str, &str)]) -> Vec<(String, String)> {
    v.iter().map(|(a, b)| (a.to_string(), b.to_string())).collect()
}

const UA: &str = "Mozilla/5.0 (Windows NT 10.0; Win64; x64) AppleWebKit/537.36";

#[test]
fn page_tokens_are_read_from_the_page() {
    let html = "x \"qKIAYe\":\"feeds/abc\" y \"Ylro7b\":\"CTX1\" z \"thykhd\":\"AT:9\" \"qKIAYe\":\"later\"";
    let t = extract_page_tokens(html);
    assert_eq!(t.push_id, Some("feeds/abc".to_string()));
    assert_eq!(t.pctx, Some("CTX1".to_string()));
    assert_eq!(t.at, Some("AT:9".to_string()));
}

#[test]
fn missing_page_tokens_fall_back_to_defaults() {
    let t = extract_page_tokens("<html>nothing</html>");
    assert!(t.push_id.is_none() && t.pctx.is_none() && t.at.is_none());
    let (p, c) = upload_ids(&t);
    assert_eq!(p, "feeds/mcudyrk2a4khkz");
    assert_eq!(c, "CgcSBWjK7pYx");
    let mut t2 = PageTokens::none();
    t2.push_id = Some("feeds/x".to_string());
    let (p, c) = upload_ids(&t2);
    assert_eq!(p, "feeds/x");
    assert_eq!(c, "CgcSBWjK7pYx");
}

#[test]
fn page_token_cache_keeps_tokens_ten_minutes() {
    let mut cache = PageTokenCache::new();
    assert!(cache.lookup(0).is_none());
    let mut t = PageTokens::none();
    t.pctx = Some("P".to_string());
    cache.store(t, 1_000_000);
    assert_eq!(cache.lookup(1_000_000).unwrap().pctx, Some("P".to_string()));
    assert!(cache.lookup(1_599_999).is_some());
    assert!(cache.lookup(1_600_000).is_none());
    assert!(cache.lookup(999).is_some());
}

#[test]
fn page_request_headers() {
    assert_eq!(page_headers(""), pairs(&[("User-Agent", UA)]));
    assert_eq!(page_headers("a=b"), pairs(&[("User-Agent", UA), ("Cookie", "a=b")]));
}

#[test]
fn upload_start_request_headers() {
    let h = upload_start_headers("feeds/x", "CTX", 1234, "image/jpeg", "a=b", Some("abc"), 1_700_000_000);
    assert_eq!(
        h,
        pairs(&[
            ("Push-ID", "feeds/x"),
            ("X-Tenant-Id", "bard-storage"),
            ("X-Client-Pctx", "CTX"),
            ("X-Goog-Upload-Header-Content-Length", "1234"),
            ("X-Goog-Upload-Header-Content-Type", "image/jpeg"),
            ("X-Goog-Upload-Protocol", "resumable"),
            ("X-Goog-Upload-Command", "start"),
            ("Content-Type", "application/x-www-form-urlencoded;charset=utf-8"),
            ("User-Agent", UA),
            ("Cookie", "a=b"),
            ("Authorization", "SAPISIDHASH 1700000000_9f7ae0683cf3b5b1611ae104e4faa87d05069434"),
        ])
    );
    let h = upload_start_headers("feeds/x", "C\nX", 0, "image/png", "", None, 0);
    assert_eq!(h.len(), 8);
    assert_eq!(h[2], ("X-Goog-Upload-Header-Content-Length".to_string(), "0".to_string()));
}

#[test]
fn upload_finish_request_headers() {
    assert_eq!(
        upload_finish_headers(),
        pairs(&[
            ("X-Goog-Upload-Command", "upload, finalize"),
            ("X-Goog-Upload-Offset", "0"),
            ("Content-Type", "application/octet-stream"),
            ("User-Agent", UA),
        ])
    );
}

#[test]
fn upload_url_must_be_given() {
    assert_eq!(upload_url_from(Some("https://u/1")), Ok("https://u/1".to_string()));
    assert_eq!(upload_url_from(None), Err("No upload URL in response headers".to_string()));
}

#[test]
fn file_reference_checks() {
    assert_eq!(check_file_ref("  /contrib_service/ttl_1d/abc \n"), Ok("/contrib_service/ttl_1d/abc".to_string()));
    assert_eq!(check_file_ref("oops"), Err("Invalid file reference: oops".to_string()));
    assert_eq!(check_file_ref("   "), Err("Invalid file reference: ".to_string()));
    let long = "e".repeat(150);
    assert_eq!(check_file_ref(&long), Err(format!("Invalid file reference: {}", "e".repeat(100))));
}

#[test]
fn upload_jobs_skip_empty_images_and_default_the_type() {
    assert!(upload_jobs(&Vec::new()).is_none());
    let imgs = vec![(vec![1u8], "".to_string()), (Vec::new(), "image/gif".to_string()), (vec![2u8, 3], "image/jpeg".to_string())];
    assert_eq!(
        upload_jobs(&imgs),
        Some(vec![(0usize, "image/png".to_string()), (2usize, "image/jpeg".to_string())])
    );
    let only_empty = vec![(Vec::new(), "image/png".to_string())];
    assert_eq!(upload_jobs(&only_empty), Some(Vec::new()));
}

#[test]
fn collected_references_keep_successes_in_order() {
    let rs = vec![Ok("/a".to_string()), Err("x".to_string()), Ok("/b".to_string())];
    assert_eq!(collect_refs(&rs), Some(vec!["/a".to_string(), "/b".to_string()]));
    let none: Vec<Result<String, String>> = vec![Err("x".to_string())];
    assert_eq!(collect_refs(&none), None);
    assert_eq!(collect_refs(&Vec::new()), None);
}
