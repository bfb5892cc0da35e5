//! Image input: the page tokens that an upload needs, the headers of the
//! two upload requests, and what is done with their answers.
use vstd::prelude::*;
use vstd::string::StringSliceAdditionalSpecFns;
use vstd::utf8::{encode_utf8, decode_utf8, is_char_boundary};
use crate::gemini::{blen, opt_header, pairs_view, push_pair, push_if_valid, user_agent, spec_sapisidhash, make_sapisidhash, clone_opt};
use crate::json::opt_string_view;
use crate::pattern::{spec_regex_group1, regex_group1};
use crate::text::{byte_len, trim, trim_str, starts_with_char, concat2, owned, dec, u64_to_string};
use crate::tools::{ImageItem, images_view};

verus! {

// ---------------------------------------------------------------------------
// Page tokens
// ---------------------------------------------------------------------------

/// The pattern of the push id in the app page.
pub open spec fn push_id_pattern() -> Seq<char> {
    "\"qKIAYe\":\"([^\"]+)\""@
}

/// The pattern of the client context in the app page.
pub open spec fn pctx_pattern() -> Seq<char> {
    "\"Ylro7b\":\"([^\"]+)\""@
}

/// The pattern of the XSRF token in the app page.
pub open spec fn at_pattern() -> Seq<char> {
    "\"thykhd\":\"([^\"]+)\""@
}

/// Group 1 of the first match of `pattern` in `text`, where there is a
/// match and the group took part in it.
pub open spec fn first_group1(pattern: Seq<char>, text: Seq<char>) -> Option<Seq<char>> {
    match spec_regex_group1(pattern, text) {
        Some(gs) => if gs.len() > 0 {
            gs[0]
        } else {
            None
        },
        None => None,
    }
}

/// The tokens read from the app page; each is there where the page holds it.
pub struct PageTokens {
    pub push_id: Option<String>,
    pub pctx: Option<String>,
    pub at: Option<String>,
}

impl PageTokens {
    /// No token at all.
    pub fn none() -> (r: PageTokens)
        ensures
            r.push_id is None,
            r.pctx is None,
            r.at is None,
    {
        PageTokens { push_id: None, pctx: None, at: None }
    }

    /// A copy with the same tokens.
    pub fn duplicate(&self) -> (r: PageTokens)
        ensures
            r@ == self@,
    {
        PageTokens { push_id: clone_opt(&self.push_id), pctx: clone_opt(&self.pctx), at: clone_opt(&self.at) }
    }
}

fn first_capture(pattern: &str, text: &str) -> (r: Option<String>)
    ensures
        opt_string_view(r) == first_group1(pattern@, text@),
{
    match regex_group1(pattern, text) {
        Some(gs) => {
            if gs.len() > 0 {
                clone_opt(&gs[0])
            } else {
                None
            }
        },
        None => None,
    }
}

/// The tokens that the app page `html` holds: for each, group 1 of the
/// first match of its pattern.
pub fn extract_page_tokens(html: &str) -> (r: PageTokens)
    ensures
        opt_string_view(r.push_id) == first_group1(push_id_pattern(), html@),
        opt_string_view(r.pctx) == first_group1(pctx_pattern(), html@),
        opt_string_view(r.at) == first_group1(at_pattern(), html@),
{
    PageTokens {
        push_id: first_capture("\"qKIAYe\":\"([^\"]+)\"", html),
        pctx: first_capture("\"Ylro7b\":\"([^\"]+)\"", html),
        at: first_capture("\"thykhd\":\"([^\"]+)\"", html),
    }
}

pub open spec fn default_push_id() -> Seq<char> {
    "feeds/mcudyrk2a4khkz"@
}

pub open spec fn default_pctx() -> Seq<char> {
    "CgcSBWjK7pYx"@
}

/// The value of an optional token, or `default`.
pub open spec fn token_or(t: Option<Seq<char>>, default: Seq<char>) -> Seq<char> {
    match t {
        Some(v) => v,
        None => default,
    }
}

/// The push id and client context an upload goes with: the page's, else
/// the fixed defaults.
pub fn upload_ids(t: &PageTokens) -> (r: (String, String))
    ensures
        r.0@ == token_or(opt_string_view(t.push_id), default_push_id()),
        r.1@ == token_or(opt_string_view(t.pctx), default_pctx()),
{
    let push_id = match &t.push_id {
        Some(p) => p.clone(),
        None => owned("feeds/mcudyrk2a4khkz"),
    };
    let pctx = match &t.pctx {
        Some(p) => p.clone(),
        None => owned("CgcSBWjK7pYx"),
    };
    (push_id, pctx)
}

/// How long page tokens stay good, in milliseconds.
pub open spec fn token_lifetime_ms() -> nat {
    600_000
}

/// Tokens read at `stamp` are still good at `now` (both in milliseconds
/// of a clock that does not go back; a `now` before `stamp` counts as no
/// time passed).
pub open spec fn still_fresh(stamp: nat, now: nat) -> bool {
    now <= stamp || now - stamp < token_lifetime_ms()
}

/// The model of [`PageTokens`].
pub struct PageTokensV {
    pub push_id: Option<Seq<char>>,
    pub pctx: Option<Seq<char>>,
    pub at: Option<Seq<char>>,
}

impl View for PageTokens {
    type V = PageTokensV;

    open spec fn view(&self) -> PageTokensV {
        PageTokensV {
            push_id: opt_string_view(self.push_id),
            pctx: opt_string_view(self.pctx),
            at: opt_string_view(self.at),
        }
    }
}

/// The page tokens last read and when they were read.
pub struct PageTokenCache {
    pub tokens: PageTokens,
    pub stamp: Option<u64>,
}

/// The model of a [`PageTokenCache`].
pub struct PageTokenCacheV {
    pub tokens: PageTokensV,
    pub stamp: Option<u64>,
}

impl View for PageTokenCache {
    type V = PageTokenCacheV;

    open spec fn view(&self) -> PageTokenCacheV {
        PageTokenCacheV { tokens: self.tokens@, stamp: self.stamp }
    }
}

/// What a cache in state `c` serves at `now`: its tokens, while fresh.
pub open spec fn tokens_lookup(c: PageTokenCacheV, now: nat) -> Option<PageTokensV> {
    match c.stamp {
        Some(s) => if still_fresh(s as nat, now) {
            Some(c.tokens)
        } else {
            None
        },
        None => None,
    }
}

impl PageTokenCache {
    /// A cache that holds nothing yet.
    pub fn new() -> (r: PageTokenCache)
        ensures
            r@ == (PageTokenCacheV { tokens: PageTokensV { push_id: None, pctx: None, at: None }, stamp: None }),
    {
        PageTokenCache { tokens: PageTokens::none(), stamp: None }
    }

    /// The cached tokens, where they were read less than ten minutes
    /// before `now_ms`.
    pub fn lookup(&self, now_ms: u64) -> (r: Option<PageTokens>)
        ensures
            match r {
                Some(t) => tokens_lookup(self@, now_ms as nat) == Some(t@),
                None => tokens_lookup(self@, now_ms as nat) is None,
            },
    {
        match self.stamp {
            Some(s) => {
                if now_ms <= s || now_ms - s < 600_000 {
                    Some(self.tokens.duplicate())
                } else {
                    None
                }
            },
            None => None,
        }
    }

    /// Remembers `tokens` as read at `now_ms`.
    pub fn store(&mut self, tokens: PageTokens, now_ms: u64)
        ensures
            final(self)@ == (PageTokenCacheV { tokens: tokens@, stamp: Some(now_ms) }),
    {
        self.tokens = tokens;
        self.stamp = Some(now_ms);
    }
}

/// Tokens stored at `stamp` are served for the ten minutes that follow
/// and not after.
pub proof fn law_tokens_fresh(t: PageTokensV, stamp: u64, now: nat)
    ensures
        ({
            let c2 = PageTokenCacheV { tokens: t, stamp: Some(stamp) };
            &&& now < stamp + token_lifetime_ms() ==> tokens_lookup(c2, now) == Some(t)
            &&& now >= stamp + token_lifetime_ms() ==> tokens_lookup(c2, now) is None
        }),
{
}

// ---------------------------------------------------------------------------
// Request headers
// ---------------------------------------------------------------------------

/// The headers of the request for the app page: the user agent, and the
/// cookie where there is one and a header can hold it.
pub open spec fn spec_page_headers(cookie: Seq<char>) -> Seq<(Seq<char>, Seq<char>)> {
    seq![("User-Agent"@, user_agent())] + if cookie.len() > 0 {
        opt_header("Cookie"@, cookie)
    } else {
        Seq::empty()
    }
}

pub fn page_headers(cookie: &str) -> (r: Vec<(String, String)>)
    ensures
        pairs_view(r@) == spec_page_headers(cookie@),
{
    let mut h: Vec<(String, String)> = Vec::new();
    push_pair(&mut h, "User-Agent", "Mozilla/5.0 (Windows NT 10.0; Win64; x64) AppleWebKit/537.36");
    if !cookie.is_empty() {
        push_if_valid(&mut h, "Cookie", cookie);
    }
    proof {
        assert(pairs_view(h@) =~= spec_page_headers(cookie@));
    }
    h
}

/// The headers that start a resumable upload of `len` bytes of type
/// `mime`, in the order they are set; values a header cannot hold are
/// left out.
pub open spec fn spec_upload_start_headers(
    push_id: Seq<char>,
    pctx: Seq<char>,
    len: nat,
    mime: Seq<char>,
    cookie: Seq<char>,
    sapisid: Option<Seq<char>>,
    ts: nat,
) -> Seq<(Seq<char>, Seq<char>)> {
    opt_header("Push-ID"@, push_id) + seq![("X-Tenant-Id"@, "bard-storage"@)] + opt_header("X-Client-Pctx"@, pctx)
        + opt_header("X-Goog-Upload-Header-Content-Length"@, dec(len))
        + opt_header("X-Goog-Upload-Header-Content-Type"@, mime) + seq![
        ("X-Goog-Upload-Protocol"@, "resumable"@),
        ("X-Goog-Upload-Command"@, "start"@),
        ("Content-Type"@, "application/x-www-form-urlencoded;charset=utf-8"@),
        ("User-Agent"@, user_agent()),
    ] + (if cookie.len() > 0 {
        opt_header("Cookie"@, cookie)
    } else {
        Seq::empty()
    }) + (match sapisid {
        Some(s) => opt_header("Authorization"@, spec_sapisidhash(s, ts)),
        None => Seq::empty(),
    })
}

pub fn upload_start_headers(
    push_id: &str,
    pctx: &str,
    len: usize,
    mime: &str,
    cookie: &str,
    sapisid: Option<&str>,
    ts: u64,
) -> (r: Vec<(String, String)>)
    ensures
        pairs_view(r@) == spec_upload_start_headers(
            push_id@,
            pctx@,
            len as nat,
            mime@,
            cookie@,
            match sapisid {
                Some(s) => Some(s@),
                None => None,
            },
            ts as nat,
        ),
{
    let mut h: Vec<(String, String)> = Vec::new();
    push_if_valid(&mut h, "Push-ID", push_id);
    push_pair(&mut h, "X-Tenant-Id", "bard-storage");
    push_if_valid(&mut h, "X-Client-Pctx", pctx);
    let n = u64_to_string(len as u64);
    push_if_valid(&mut h, "X-Goog-Upload-Header-Content-Length", n.as_str());
    push_if_valid(&mut h, "X-Goog-Upload-Header-Content-Type", mime);
    let ghost p1 = pairs_view(h@);
    assert(p1 =~= opt_header("Push-ID"@, push_id@) + seq![("X-Tenant-Id"@, "bard-storage"@)] + opt_header("X-Client-Pctx"@, pctx@)
        + opt_header("X-Goog-Upload-Header-Content-Length"@, dec(len as nat))
        + opt_header("X-Goog-Upload-Header-Content-Type"@, mime@));
    push_pair(&mut h, "X-Goog-Upload-Protocol", "resumable");
    push_pair(&mut h, "X-Goog-Upload-Command", "start");
    push_pair(&mut h, "Content-Type", "application/x-www-form-urlencoded;charset=utf-8");
    push_pair(&mut h, "User-Agent", "Mozilla/5.0 (Windows NT 10.0; Win64; x64) AppleWebKit/537.36");
    let ghost p2 = pairs_view(h@);
    assert(p2 =~= p1 + seq![
        ("X-Goog-Upload-Protocol"@, "resumable"@),
        ("X-Goog-Upload-Command"@, "start"@),
        ("Content-Type"@, "application/x-www-form-urlencoded;charset=utf-8"@),
        ("User-Agent"@, user_agent()),
    ]);
    if !cookie.is_empty() {
        push_if_valid(&mut h, "Cookie", cookie);
    } else {
        assert(pairs_view(h@) =~= p2 + Seq::<(Seq<char>, Seq<char>)>::empty());
    }
    let ghost p3 = pairs_view(h@);
    match sapisid {
        Some(s) => {
            let hash = make_sapisidhash(s, ts);
            push_if_valid(&mut h, "Authorization", hash.as_str());
        },
        None => {
            assert(pairs_view(h@) =~= p3 + Seq::<(Seq<char>, Seq<char>)>::empty());
        },
    }
    h
}

/// The headers that send the data of an upload and finish it.
pub open spec fn spec_upload_finish_headers() -> Seq<(Seq<char>, Seq<char>)> {
    seq![
        ("X-Goog-Upload-Command"@, "upload, finalize"@),
        ("X-Goog-Upload-Offset"@, "0"@),
        ("Content-Type"@, "application/octet-stream"@),
        ("User-Agent"@, user_agent()),
    ]
}

pub fn upload_finish_headers() -> (r: Vec<(String, String)>)
    ensures
        pairs_view(r@) == spec_upload_finish_headers(),
{
    let mut h: Vec<(String, String)> = Vec::new();
    push_pair(&mut h, "X-Goog-Upload-Command", "upload, finalize");
    push_pair(&mut h, "X-Goog-Upload-Offset", "0");
    push_pair(&mut h, "Content-Type", "application/octet-stream");
    push_pair(&mut h, "User-Agent", "Mozilla/5.0 (Windows NT 10.0; Win64; x64) AppleWebKit/537.36");
    proof {
        assert(pairs_view(h@) =~= spec_upload_finish_headers());
    }
    h
}

// ---------------------------------------------------------------------------
// Answers
// ---------------------------------------------------------------------------

pub open spec fn no_upload_url() -> Seq<char> {
    "No upload URL in response headers"@
}

/// The upload URL that the start request's answer gave, if it gave one.
pub fn upload_url_from(found: Option<&str>) -> (r: Result<String, String>)
    ensures
        match found {
            Some(u) => r matches Ok(v) && v@ == u@,
            None => r matches Err(e) && e@ == no_upload_url(),
        },
{
    match found {
        Some(u) => Ok(owned(u)),
        None => Err(owned("No upload URL in response headers")),
    }
}

/// The first `n` bytes of `s` (all of `s` where it is shorter), as text.
pub open spec fn byte_head(s: Seq<char>, n: nat) -> Seq<char> {
    let k = if blen(s) < n {
        blen(s)
    } else {
        n
    };
    decode_utf8(encode_utf8(s).subrange(0, k as int))
}

/// Cutting `s` after `n` bytes does not split a character.
pub open spec fn head_cut_ok(s: Seq<char>, n: nat) -> bool {
    is_char_boundary(encode_utf8(s), if blen(s) < n {
        blen(s) as int
    } else {
        n as int
    })
}

fn head_bytes(s: &str, n: usize) -> (r: &str)
    requires
        head_cut_ok(s@, n as nat),
    ensures
        r@ == byte_head(s@, n as nat),
{
    let len = byte_len(s);
    let k = if len < n {
        len
    } else {
        n
    };
    let (h, _) = s.split_at(k);
    proof {
        vstd::utf8::encode_utf8_decode_utf8(h@);
    }
    h
}

/// The file reference that the upload's answer `body` gives: the trimmed
/// body where it starts with `/`; otherwise an error that quotes its first
/// hundred bytes.
pub open spec fn spec_check_file_ref(body: Seq<char>) -> Result<Seq<char>, Seq<char>> {
    let f = trim(body);
    if f.len() > 0 && f[0] == '/' {
        Ok(f)
    } else {
        Err("Invalid file reference: "@ + byte_head(f, 100))
    }
}

pub fn check_file_ref(body: &str) -> (r: Result<String, String>)
    requires
        !(trim(body@).len() > 0 && trim(body@)[0] == '/') ==> head_cut_ok(trim(body@), 100),
    ensures
        match (r, spec_check_file_ref(body@)) {
            (Ok(v), Ok(w)) => v@ == w,
            (Err(e), Err(w)) => e@ == w,
            _ => false,
        },
{
    let f = trim_str(body);
    if starts_with_char(f.as_str(), '/') {
        Ok(f)
    } else {
        let head = head_bytes(f.as_str(), 100);
        Err(concat2("Invalid file reference: ", head))
    }
}

// ---------------------------------------------------------------------------
// Many images
// ---------------------------------------------------------------------------

/// The uploads that a list of images asks for: the index of each image
/// with data, and its mime type (`image/png` where it has none).
pub open spec fn spec_upload_jobs(imgs: Seq<(Seq<u8>, Seq<char>)>) -> Seq<(int, Seq<char>)>
    decreases imgs.len(),
{
    if imgs.len() == 0 {
        Seq::empty()
    } else {
        let rest = spec_upload_jobs(imgs.drop_last());
        let last = imgs.last();
        if last.0.len() == 0 {
            rest
        } else {
            rest.push(((imgs.len() - 1) as int, if last.1.len() == 0 {
                "image/png"@
            } else {
                last.1
            }))
        }
    }
}

pub open spec fn jobs_view(v: Seq<(usize, String)>) -> Seq<(int, Seq<char>)> {
    v.map_values(|j: (usize, String)| (j.0 as int, j.1@))
}

/// The uploads to make for `images`; `None` where there are no images.
pub fn upload_jobs(images: &Vec<ImageItem>) -> (r: Option<Vec<(usize, String)>>)
    ensures
        match r {
            Some(jobs) => images@.len() > 0 && jobs_view(jobs@) == spec_upload_jobs(images_view(images@)),
            None => images@.len() == 0,
        },
{
    if images.len() == 0 {
        return None;
    }
    let ghost iv = images_view(images@);
    let mut jobs: Vec<(usize, String)> = Vec::new();
    let mut i: usize = 0;
    while i < images.len()
        invariant
            i <= images@.len(),
            iv == images_view(images@),
            jobs_view(jobs@) == spec_upload_jobs(iv.take(i as int)),
        decreases images@.len() - i,
    {
        assert(iv.take(i + 1).drop_last() =~= iv.take(i as int));
        let (data, mime) = &images[i];
        if data.len() > 0 {
            let m = if mime.as_str().is_empty() {
                owned("image/png")
            } else {
                mime.clone()
            };
            let ghost before = jobs_view(jobs@);
            jobs.push((i, m));
            assert(jobs_view(jobs@) =~= before.push((i as int, m@)));
        }
        i += 1;
    }
    assert(iv.take(images@.len() as int) =~= iv);
    Some(jobs)
}

/// The file references of the uploads that succeeded, in order.
pub open spec fn ok_refs(results: Seq<Result<Seq<char>, Seq<char>>>) -> Seq<Seq<char>>
    decreases results.len(),
{
    if results.len() == 0 {
        Seq::empty()
    } else {
        match results.last() {
            Ok(r) => ok_refs(results.drop_last()).push(r),
            Err(_) => ok_refs(results.drop_last()),
        }
    }
}

pub open spec fn results_view(v: Seq<Result<String, String>>) -> Seq<Result<Seq<char>, Seq<char>>> {
    v.map_values(|x: Result<String, String>| match x {
        Ok(s) => Ok(s@),
        Err(e) => Err(e@),
    })
}

/// The references of the uploads that succeeded; `None` where none did.
pub fn collect_refs(results: &Vec<Result<String, String>>) -> (r: Option<Vec<String>>)
    ensures
        match r {
            Some(refs) => ok_refs(results_view(results@)).len() > 0 && crate::text::views(refs@) == ok_refs(results_view(results@)),
            None => ok_refs(results_view(results@)).len() == 0,
        },
{
    let ghost rv = results_view(results@);
    let mut refs: Vec<String> = Vec::new();
    let mut i: usize = 0;
    while i < results.len()
        invariant
            i <= results@.len(),
            rv == results_view(results@),
            crate::text::views(refs@) == ok_refs(rv.take(i as int)),
        decreases results@.len() - i,
    {
        assert(rv.take(i + 1).drop_last() =~= rv.take(i as int));
        match &results[i] {
            Ok(s) => {
                let ghost before = crate::text::views(refs@);
                refs.push(s.clone());
                assert(crate::text::views(refs@) =~= before.push(s@));
            },
            Err(_) => {},
        }
        i += 1;
    }
    assert(rv.take(results@.len() as int) =~= rv);
    if refs.len() == 0 {
        None
    } else {
        Some(refs)
    }
}

} // verus!
