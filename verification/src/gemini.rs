//! The StreamGenerate protocol: request URL, headers and body, the
//! SAPISIDHASH authorization, and reading the text out of a response.
use vstd::prelude::*;
use vstd::string::StringSliceAdditionalSpecFns;
use vstd::utf8::{encode_utf8, decode_utf8, is_char_boundary};
use crate::config::{Config, account_prefix, auth_view, spec_account_prefix, spec_auth_user_str};
use crate::json::{Json, JsonV, opt_string_view, parse_json, spec_json_parse, jviews, int_json, json_to_string, spec_json_text};
use crate::ids::{uuid_text, random_uuid};
use crate::pattern::{remove_all, remove_matches};
use crate::text::{split_str, find_first_from, str_eq, starts_with_char, concat2, byte_len, extend_strings, trim, trim_str, contains, contains_str, chars_of, string_of_range, pad2, push_pad2, push_char, owned, dec, push_dec, u64_to_string, hex_lower, hex_encode, concat3, views};

verus! {

// ---------------------------------------------------------------------------
// Clock text
// ---------------------------------------------------------------------------

/// `SystemTime::now().duration_since(UNIX_EPOCH)` in whole seconds, `None`
/// where the clock reads a time before 1970. Nothing is stated of the
/// value: it is whatever the system clock says.
#[verifier::external_body]
fn system_clock_secs() -> (r: Option<u64>) {
    std::time::SystemTime::now().duration_since(std::time::UNIX_EPOCH).ok().map(|d| d.as_secs())
}

/// Seconds since the Unix epoch by the system clock; 0 for a clock set
/// before 1970.
pub fn now_secs() -> (r: u64) {
    match system_clock_secs() {
        Some(s) => s,
        None => 0,
    }
}

/// `HH:MM:SS` of the time of day, in UTC, for seconds since the epoch.
pub open spec fn spec_clock_text(secs: nat) -> Seq<char> {
    pad2((secs / 3600) % 24) + seq![':'] + pad2((secs / 60) % 60) + seq![':'] + pad2(secs % 60)
}

/// A simple HH:MM:SS timestamp for log lines, from seconds since the epoch.
pub fn chrono_like_time(secs: u64) -> (r: String)
    ensures
        r@ == spec_clock_text(secs as nat),
{
    let s = secs % 60;
    let m = (secs / 60) % 60;
    let h = (secs / 3600) % 24;
    let mut r = String::new();
    push_pad2(&mut r, h);
    push_char(&mut r, ':');
    push_pad2(&mut r, m);
    push_char(&mut r, ':');
    push_pad2(&mut r, s);
    assert(r@ =~= spec_clock_text(secs as nat));
    r
}

// ---------------------------------------------------------------------------
// Request URL
// ---------------------------------------------------------------------------

/// The StreamGenerate URL: account prefix, front-end build label, and a
/// request id made of the current seconds modulo one million.
pub open spec fn spec_get_url(prefix: Seq<char>, bl: Seq<char>, now: nat) -> Seq<char> {
    "https://gemini.google.com"@ + prefix
        + "/_/BardChatUi/data/assistant.lamda.BardFrontendService/StreamGenerate?bl="@ + bl
        + "&hl=en&_reqid="@ + dec(now % 1000000) + "&rt=c"@
}

/// The StreamGenerate URL for the configured account at time `now`
/// (seconds since the epoch).
pub fn get_url(cfg: &Config, now: u64) -> (r: String)
    ensures
        r@ == spec_get_url(spec_account_prefix(auth_view(cfg.auth_user)), cfg.gemini_bl@, now as nat),
{
    let reqid = now % 1_000_000;
    let prefix = account_prefix(cfg);
    let mut r = owned("https://gemini.google.com");
    r.append(prefix.as_str());
    r.append("/_/BardChatUi/data/assistant.lamda.BardFrontendService/StreamGenerate?bl=");
    r.append(cfg.gemini_bl.as_str());
    r.append("&hl=en&_reqid=");
    push_dec(&mut r, reqid);
    r.append("&rt=c");
    r
}

// ---------------------------------------------------------------------------
// SAPISIDHASH
// ---------------------------------------------------------------------------

/// The SHA-1 digest of `data`, as the `sha1` crate computes it.
pub uninterp spec fn spec_sha1(data: Seq<u8>) -> Seq<u8>;

/// `sha1::Sha1::digest(data)`: the digest is named by [`spec_sha1`]; a SHA-1
/// digest is 20 bytes long.
#[verifier::external_body]
fn sha1_digest(data: &[u8]) -> (r: Vec<u8>)
    ensures
        r@ == spec_sha1(data@),
        r@.len() == 20,
{
    <sha1::Sha1 as sha1::Digest>::digest(data).to_vec()
}

/// The text whose digest the SAPISIDHASH carries.
pub open spec fn sapisid_origin_text(sapisid: Seq<char>, ts: nat) -> Seq<char> {
    dec(ts) + seq![' '] + sapisid + " https://gemini.google.com"@
}

/// `SAPISIDHASH <ts>_<hex sha1("<ts> <sapisid> https://gemini.google.com")>`.
pub open spec fn spec_sapisidhash(sapisid: Seq<char>, ts: nat) -> Seq<char> {
    "SAPISIDHASH "@ + dec(ts) + seq!['_'] + hex_lower(spec_sha1(encode_utf8(sapisid_origin_text(sapisid, ts))))
}

/// The SAPISIDHASH authorization value for the cookie's SAPISID at time
/// `ts` (seconds since the epoch).
pub fn make_sapisidhash(sapisid: &str, ts: u64) -> (r: String)
    ensures
        r@ == spec_sapisidhash(sapisid@, ts as nat),
{
    let mut msg = u64_to_string(ts);
    push_char(&mut msg, ' ');
    msg.append(sapisid);
    msg.append(" https://gemini.google.com");
    assert(msg@ =~= sapisid_origin_text(sapisid@, ts as nat));
    let digest = sha1_digest(msg.as_str().as_bytes());
    let h = hex_encode(&digest);
    let mut r = owned("SAPISIDHASH ");
    push_dec(&mut r, ts);
    push_char(&mut r, '_');
    r.append(h.as_str());
    assert(r@ =~= spec_sapisidhash(sapisid@, ts as nat));
    r
}

// ---------------------------------------------------------------------------
// Headers
// ---------------------------------------------------------------------------

/// A byte that an HTTP header value may hold: visible ASCII, tab, or any
/// byte from 0x80 up.
pub open spec fn header_byte_ok(b: u8) -> bool {
    (b >= 32 && b != 127) || b == 9
}

/// `http::HeaderValue::from_str` accepts `v`.
pub open spec fn header_value_ok(v: Seq<char>) -> bool {
    forall|i: int| 0 <= i < encode_utf8(v).len() ==> header_byte_ok(#[trigger] encode_utf8(v)[i])
}

/// `http::HeaderValue::from_str(v).is_ok()`: true exactly when every byte of
/// `v` is visible ASCII, a tab, or from 0x80 up.
#[verifier::external_body]
fn header_value_valid(v: &str) -> (r: bool)
    ensures
        r == header_value_ok(v@),
{
    http::HeaderValue::from_str(v).is_ok()
}

/// One header where its value is acceptable, none otherwise.
pub open spec fn opt_header(name: Seq<char>, value: Seq<char>) -> Seq<(Seq<char>, Seq<char>)> {
    if header_value_ok(value) {
        seq![(name, value)]
    } else {
        Seq::empty()
    }
}

pub open spec fn user_agent() -> Seq<char> {
    "Mozilla/5.0 (Windows NT 10.0; Win64; x64) AppleWebKit/537.36"@
}

/// The headers of a StreamGenerate request, in the order they are set.
/// Values that a header cannot hold are left out.
pub open spec fn spec_build_headers(auth: Option<JsonV>, cookie: Seq<char>, sapisid: Option<Seq<char>>, ts: nat) -> Seq<(Seq<char>, Seq<char>)> {
    let prefix = spec_account_prefix(auth);
    seq![
        ("Content-Type"@, "application/x-www-form-urlencoded"@),
        ("Origin"@, "https://gemini.google.com"@),
    ] + opt_header("Referer"@, "https://gemini.google.com"@ + prefix + "/app"@) + seq![
        ("X-Same-Domain"@, "1"@),
        ("User-Agent"@, user_agent()),
    ] + (if prefix.len() > 0 {
        match spec_auth_user_str(auth) {
            Some(u) => opt_header("X-Goog-AuthUser"@, u),
            None => Seq::empty(),
        }
    } else {
        Seq::empty()
    }) + (if cookie.len() > 0 {
        opt_header("Cookie"@, cookie)
    } else {
        Seq::empty()
    }) + (match sapisid {
        Some(s) => opt_header("authorization"@, spec_sapisidhash(s, ts)),
        None => Seq::empty(),
    })
}

pub open spec fn pairs_view(v: Seq<(String, String)>) -> Seq<(Seq<char>, Seq<char>)> {
    v.map_values(|p: (String, String)| (p.0@, p.1@))
}

pub(crate) fn push_pair(v: &mut Vec<(String, String)>, name: &str, value: &str)
    ensures
        pairs_view(final(v)@) == pairs_view(old(v)@).push((name@, value@)),
{
    v.push((owned(name), owned(value)));
    assert(pairs_view(v@) =~= pairs_view(old(v)@).push((name@, value@)));
}

pub(crate) fn push_if_valid(v: &mut Vec<(String, String)>, name: &str, value: &str)
    ensures
        pairs_view(final(v)@) == pairs_view(old(v)@) + opt_header(name@, value@),
{
    if header_value_valid(value) {
        push_pair(v, name, value);
        assert(pairs_view(old(v)@).push((name@, value@)) =~= pairs_view(old(v)@) + seq![(name@, value@)]);
    } else {
        assert(pairs_view(old(v)@) =~= pairs_view(old(v)@) + Seq::<(Seq<char>, Seq<char>)>::empty());
    }
}

/// The headers of a StreamGenerate request for the configured account, the
/// cookie text, the SAPISID (if the cookie has one) and the time `ts`.
pub fn build_headers(cfg: &Config, cookie: &str, sapisid: Option<&str>, ts: u64) -> (r: Vec<(String, String)>)
    ensures
        pairs_view(r@) == spec_build_headers(
            auth_view(cfg.auth_user),
            cookie@,
            match sapisid {
                Some(s) => Some(s@),
                None => None,
            },
            ts as nat,
        ),
{
    let ghost auth = auth_view(cfg.auth_user);
    let prefix = account_prefix(cfg);
    let mut h: Vec<(String, String)> = Vec::new();
    push_pair(&mut h, "Content-Type", "application/x-www-form-urlencoded");
    push_pair(&mut h, "Origin", "https://gemini.google.com");
    let referer = concat3("https://gemini.google.com", prefix.as_str(), "/app");
    push_if_valid(&mut h, "Referer", referer.as_str());
    push_pair(&mut h, "X-Same-Domain", "1");
    push_pair(&mut h, "User-Agent", "Mozilla/5.0 (Windows NT 10.0; Win64; x64) AppleWebKit/537.36");
    let ghost h1 = pairs_view(h@);
    if !prefix.as_str().is_empty() {
        match cfg.auth_user_str() {
            Some(u) => push_if_valid(&mut h, "X-Goog-AuthUser", u.as_str()),
            None => {},
        }
    }
    let ghost h2 = pairs_view(h@);
    if !cookie.is_empty() {
        push_if_valid(&mut h, "Cookie", cookie);
    }
    let ghost h3 = pairs_view(h@);
    match sapisid {
        Some(s) => {
            let hash = make_sapisidhash(s, ts);
            push_if_valid(&mut h, "authorization", hash.as_str());
        },
        None => {},
    }
    proof {
        let sv = match sapisid {
            Some(s) => Some(s@),
            None => None,
        };
        let spec = spec_build_headers(auth, cookie@, sv, ts as nat);
        assert(pairs_view(h@) =~= spec);
    }
    h
}

// ---------------------------------------------------------------------------
// Request body
// ---------------------------------------------------------------------------

/// Bytes that `form_urlencoded` writes as they are.
pub open spec fn form_unchanged(b: u8) -> bool {
    b == 42 || b == 45 || b == 46 || (48 <= b <= 57) || (65 <= b <= 90) || b == 95 || (97 <= b <= 122)
}

pub open spec fn hex_upper_digit(d: nat) -> char {
    if d < 10 {
        ((d + 48) as u8) as char
    } else {
        ((d + 55) as u8) as char
    }
}

/// How `form_urlencoded::byte_serialize` writes one byte.
pub open spec fn form_byte(b: u8) -> Seq<char> {
    if form_unchanged(b) {
        seq![b as char]
    } else if b == 32 {
        seq!['+']
    } else {
        seq!['%', hex_upper_digit((b / 16) as nat), hex_upper_digit((b % 16) as nat)]
    }
}

/// `application/x-www-form-urlencoded` text of the bytes `bs`.
pub open spec fn form_encode(bs: Seq<u8>) -> Seq<char>
    decreases bs.len(),
{
    if bs.len() == 0 {
        Seq::empty()
    } else {
        form_encode(bs.drop_last()) + form_byte(bs.last())
    }
}

/// `form_urlencoded::byte_serialize` of the UTF-8 bytes of `s`: each byte
/// of `* - . 0-9 A-Z _ a-z` as it is, a space as `+`, any other byte as `%`
/// and two upper-case hexadecimal digits.
#[verifier::external_body]
fn form_serialize(s: &str) -> (r: String)
    ensures
        r@ == form_encode(encode_utf8(s@)),
{
    form_urlencoded::byte_serialize(s.as_bytes()).collect()
}

/// The first entry of the inner payload: the prompt and, where there are
/// any, the uploaded files.
pub open spec fn spec_prompt_entry(prompt: Seq<char>, refs: Option<Seq<Seq<char>>>) -> JsonV {
    let files = match refs {
        Some(r) => if r.len() > 0 {
            JsonV::Array(r.map_values(|x: Seq<char>| JsonV::Array(seq![JsonV::Null, JsonV::Null, JsonV::Str(x)])))
        } else {
            JsonV::Null
        },
        None => JsonV::Null,
    };
    JsonV::Array(seq![JsonV::Str(prompt), int_json(0), JsonV::Null, files, JsonV::Null, JsonV::Null, int_json(0)])
}

/// Slot `i` of the inner payload before the model's extra fields.
pub open spec fn payload_slot(i: int, first: JsonV, think: i64, model_id: i64, request_id: Seq<char>) -> JsonV {
    if i == 0 {
        first
    } else if i == 1 {
        JsonV::Array(seq![JsonV::Str("en"@)])
    } else if i == 2 {
        JsonV::Array(seq![JsonV::Str(""@), JsonV::Str(""@), JsonV::Str(""@), JsonV::Null, JsonV::Null, JsonV::Null, JsonV::Null, JsonV::Null, JsonV::Null, JsonV::Str(""@)])
    } else if i == 6 {
        JsonV::Array(seq![int_json(0)])
    } else if i == 7 || i == 10 || i == 27 || i == 68 {
        int_json(1)
    } else if i == 11 || i == 18 || i == 53 {
        int_json(0)
    } else if i == 17 {
        JsonV::Array(seq![JsonV::Array(seq![int_json(think as int)])])
    } else if i == 30 {
        JsonV::Array(seq![int_json(4)])
    } else if i == 41 {
        JsonV::Array(seq![int_json(2)])
    } else if i == 59 {
        JsonV::Str(request_id)
    } else if i == 61 {
        JsonV::Array(Seq::empty())
    } else if i == 79 {
        int_json(model_id as int)
    } else {
        JsonV::Null
    }
}

/// The 102 slots with the model's extra fields written over them in order.
pub open spec fn with_extra(slots: Seq<JsonV>, extra: Seq<(usize, i64)>) -> Seq<JsonV>
    decreases extra.len(),
{
    if extra.len() == 0 {
        slots
    } else {
        with_extra(slots, extra.drop_last()).update(extra.last().0 as int, int_json(extra.last().1 as int))
    }
}

/// The inner payload array.
pub open spec fn spec_inner_payload(prompt: Seq<char>, model_id: i64, think: i64, refs: Option<Seq<Seq<char>>>, extra: Option<Seq<(usize, i64)>>, request_id: Seq<char>) -> Seq<JsonV> {
    let base = Seq::new(102, |i: int| payload_slot(i, spec_prompt_entry(prompt, refs), think, model_id, request_id));
    match extra {
        Some(e) => with_extra(base, e),
        None => base,
    }
}

/// The urlencoded `f.req` body (and the `at` token where one is set).
pub open spec fn spec_payload(prompt: Seq<char>, model_id: i64, think: i64, refs: Option<Seq<Seq<char>>>, extra: Option<Seq<(usize, i64)>>, xsrf: Option<Seq<char>>, request_id: Seq<char>) -> Seq<char> {
    let inner = spec_json_text(JsonV::Array(spec_inner_payload(prompt, model_id, think, refs, extra, request_id)));
    let outer = spec_json_text(JsonV::Array(seq![JsonV::Null, JsonV::Str(inner)]));
    "f.req="@ + form_encode(encode_utf8(outer)) + match xsrf {
        Some(t) => "&at="@ + form_encode(encode_utf8(t)),
        None => Seq::empty(),
    }
}

/// The value that the last pair of `extra` naming `slot` gives it.
pub open spec fn last_value_for(extra: Seq<(usize, i64)>, slot: int) -> Option<i64>
    decreases extra.len(),
{
    if extra.len() == 0 {
        None
    } else if extra.last().0 as int == slot {
        Some(extra.last().1)
    } else {
        last_value_for(extra.drop_last(), slot)
    }
}

proof fn lemma_with_extra(base: Seq<JsonV>, extra: Seq<(usize, i64)>)
    requires
        base.len() == 102,
        forall|k: int| 0 <= k < extra.len() ==> (#[trigger] extra[k]).0 < 102,
    ensures
        with_extra(base, extra).len() == 102,
        forall|s: int| 0 <= s < 102 ==> #[trigger] with_extra(base, extra)[s] == match last_value_for(extra, s) {
            Some(v) => int_json(v as int),
            None => base[s],
        },
    decreases extra.len(),
{
    if extra.len() > 0 {
        let e2 = extra.drop_last();
        assert forall|k: int| 0 <= k < e2.len() implies (#[trigger] e2[k]).0 < 102 by {
            assert(e2[k] == extra[k]);
        }
        lemma_with_extra(base, e2);
        assert(extra[extra.len() - 1].0 < 102);
    }
}

/// The model's extra fields overwrite exactly the slots they name, each
/// with the value of the last pair naming it; every other slot of the inner
/// payload is what the same request without extra fields has there.
pub proof fn law_payload_extra(
    prompt: Seq<char>,
    model_id: i64,
    think: i64,
    refs: Option<Seq<Seq<char>>>,
    extra: Seq<(usize, i64)>,
    request_id: Seq<char>,
)
    requires
        extra_in_range(Some(extra)),
    ensures
        ({
            let p = spec_inner_payload(prompt, model_id, think, refs, Some(extra), request_id);
            let plain = spec_inner_payload(prompt, model_id, think, refs, None, request_id);
            &&& p.len() == 102
            &&& plain.len() == 102
            &&& forall|s: int| 0 <= s < 102 ==> #[trigger] p[s] == match last_value_for(extra, s) {
                Some(v) => int_json(v as int),
                None => plain[s],
            }
        }),
{
    let base = Seq::new(102, |i: int| payload_slot(i, spec_prompt_entry(prompt, refs), think, model_id, request_id));
    lemma_with_extra(base, extra);
}

pub open spec fn refs_view(r: Option<&Vec<String>>) -> Option<Seq<Seq<char>>> {
    match r {
        Some(v) => Some(views(v@)),
        None => None,
    }
}

pub open spec fn extra_ref_view(e: Option<&Vec<(usize, i64)>>) -> Option<Seq<(usize, i64)>> {
    match e {
        Some(v) => Some(v@),
        None => None,
    }
}

pub open spec fn xsrf_view(x: Option<String>) -> Option<Seq<char>> {
    match x {
        Some(t) => Some(t@),
        None => None,
    }
}

/// The extra fields may only name slots of the inner payload.
pub open spec fn extra_in_range(extra: Option<Seq<(usize, i64)>>) -> bool {
    match extra {
        Some(e) => forall|k: int| 0 <= k < e.len() ==> (#[trigger] e[k]).0 < 102,
        None => true,
    }
}

fn prompt_entry(prompt: &str, file_refs: Option<&Vec<String>>) -> (r: Json)
    ensures
        r@ == spec_prompt_entry(prompt@, refs_view(file_refs)),
{
    let files = match file_refs {
        Some(refs) => {
            if refs.len() > 0 {
                let mut out: Vec<Json> = Vec::new();
                let mut i: usize = 0;
                while i < refs.len()
                    invariant
                        i <= refs@.len(),
                        out@.len() == i,
                        jviews(out@) == views(refs@).take(i as int).map_values(
                            |x: Seq<char>| JsonV::Array(seq![JsonV::Null, JsonV::Null, JsonV::Str(x)]),
                        ),
                    decreases refs@.len() - i,
                {
                    let mut item: Vec<Json> = Vec::new();
                    item.push(Json::Null);
                    item.push(Json::Null);
                    item.push(Json::string(refs[i].as_str()));
                    let it = Json::array(item);
                    assert(jviews(item@) =~= seq![JsonV::Null, JsonV::Null, JsonV::Str(refs@[i as int]@)]);
                    let ghost prev = out@;
                    out.push(it);
                    assert forall|k: int| 0 <= k < i + 1 implies #[trigger] jviews(out@)[k] == views(refs@).take(i + 1).map_values(
                        |x: Seq<char>| JsonV::Array(seq![JsonV::Null, JsonV::Null, JsonV::Str(x)]),
                    )[k] by {
                        if k < i {
                            assert(out@[k] == prev[k]);
                            assert(jviews(prev)[k] == views(refs@).take(i as int).map_values(
                                |x: Seq<char>| JsonV::Array(seq![JsonV::Null, JsonV::Null, JsonV::Str(x)]),
                            )[k]);
                        }
                    }
                    assert(jviews(out@) =~= views(refs@).take(i + 1).map_values(
                        |x: Seq<char>| JsonV::Array(seq![JsonV::Null, JsonV::Null, JsonV::Str(x)]),
                    ));
                    i += 1;
                }
                assert(views(refs@).take(refs@.len() as int) =~= views(refs@));
                Json::array(out)
            } else {
                Json::Null
            }
        },
        None => Json::Null,
    };
    let mut v: Vec<Json> = Vec::new();
    v.push(Json::string(prompt));
    v.push(Json::integer(0));
    v.push(Json::Null);
    v.push(files);
    v.push(Json::Null);
    v.push(Json::Null);
    v.push(Json::integer(0));
    let r = Json::array(v);
    assert(jviews(v@) =~= spec_prompt_entry(prompt@, refs_view(file_refs))->Array_0);
    r
}

fn array_of(items: Vec<Json>) -> (r: Json)
    ensures
        r@ == JsonV::Array(jviews(items@)),
{
    Json::array(items)
}

fn slot_value(i: usize, think: i64, model_id: i64, request_id: &str) -> (r: Json)
    requires
        1 <= i < 102,
    ensures
        r@ == payload_slot(i as int, JsonV::Null, think, model_id, request_id@),
{
    if i == 1 {
        let mut v: Vec<Json> = Vec::new();
        v.push(Json::string("en"));
        assert(jviews(v@) =~= seq![JsonV::Str("en"@)]);
        array_of(v)
    } else if i == 2 {
        let mut v: Vec<Json> = Vec::new();
        v.push(Json::string(""));
        v.push(Json::string(""));
        v.push(Json::string(""));
        v.push(Json::Null);
        v.push(Json::Null);
        v.push(Json::Null);
        v.push(Json::Null);
        v.push(Json::Null);
        v.push(Json::Null);
        v.push(Json::string(""));
        assert(jviews(v@) =~= seq![JsonV::Str(""@), JsonV::Str(""@), JsonV::Str(""@), JsonV::Null, JsonV::Null, JsonV::Null, JsonV::Null, JsonV::Null, JsonV::Null, JsonV::Str(""@)]);
        array_of(v)
    } else if i == 6 {
        let mut v: Vec<Json> = Vec::new();
        v.push(Json::integer(0));
        assert(jviews(v@) =~= seq![int_json(0)]);
        array_of(v)
    } else if i == 7 || i == 10 || i == 27 || i == 68 {
        Json::integer(1)
    } else if i == 11 || i == 18 || i == 53 {
        Json::integer(0)
    } else if i == 17 {
        let mut w: Vec<Json> = Vec::new();
        w.push(Json::integer(think));
        assert(jviews(w@) =~= seq![int_json(think as int)]);
        let mut v: Vec<Json> = Vec::new();
        v.push(array_of(w));
        assert(jviews(v@) =~= seq![JsonV::Array(seq![int_json(think as int)])]);
        array_of(v)
    } else if i == 30 {
        let mut v: Vec<Json> = Vec::new();
        v.push(Json::integer(4));
        assert(jviews(v@) =~= seq![int_json(4)]);
        array_of(v)
    } else if i == 41 {
        let mut v: Vec<Json> = Vec::new();
        v.push(Json::integer(2));
        assert(jviews(v@) =~= seq![int_json(2)]);
        array_of(v)
    } else if i == 59 {
        Json::string(request_id)
    } else if i == 61 {
        let v: Vec<Json> = Vec::new();
        assert(jviews(v@) =~= Seq::<JsonV>::empty());
        array_of(v)
    } else if i == 79 {
        Json::integer(model_id)
    } else {
        Json::Null
    }
}

/// The inner payload array with the given request id.
fn inner_payload(prompt: &str, model_id: i64, think_mode: i64, file_refs: Option<&Vec<String>>, extra: Option<&Vec<(usize, i64)>>, request_id: &str) -> (r: Vec<Json>)
    requires
        extra_in_range(extra_ref_view(extra)),
    ensures
        jviews(r@) == spec_inner_payload(prompt@, model_id, think_mode, refs_view(file_refs), extra_ref_view(extra), request_id@),
{
    let ghost first = spec_prompt_entry(prompt@, refs_view(file_refs));
    let ghost base = Seq::new(102, |i: int| payload_slot(i, first, think_mode, model_id, request_id@));
    let mut inner: Vec<Json> = Vec::new();
    inner.push(prompt_entry(prompt, file_refs));
    let mut i: usize = 1;
    while i < 102
        invariant
            1 <= i <= 102,
            inner@.len() == i,
            jviews(inner@) == base.take(i as int),
            base == Seq::new(102, |i: int| payload_slot(i, first, think_mode, model_id, request_id@)),
        decreases 102 - i,
    {
        let v = slot_value(i, think_mode, model_id, request_id);
        assert(v@ == base[i as int]);
        inner.push(v);
        assert(jviews(inner@) =~= base.take(i + 1));
        i += 1;
    }
    assert(base.take(102) =~= base);
    match extra {
        Some(ex) => {
            assert(extra_ref_view(extra) == Some(ex@));
            assert(extra_in_range(Some(ex@)));
            assert forall|j: int| 0 <= j < ex@.len() implies (#[trigger] ex@[j]).0 < 102 by {
                assert(extra_in_range(Some(ex@)));
            }
            let mut k: usize = 0;
            while k < ex.len()
                invariant
                    k <= ex@.len(),
                    forall|j: int| 0 <= j < ex@.len() ==> (#[trigger] ex@[j]).0 < 102,
                    jviews(inner@) == with_extra(base, ex@.take(k as int)),
                    inner@.len() == 102,
                decreases ex@.len() - k,
            {
                let (slot, val) = ex[k];
                assert(ex@.take(k + 1).drop_last() =~= ex@.take(k as int));
                assert(ex@[k as int].0 < 102);
                inner.set(slot, Json::integer(val));
                assert(jviews(inner@) =~= with_extra(base, ex@.take(k + 1)));
                k += 1;
            }
            assert(ex@.take(ex@.len() as int) =~= ex@);
        },
        None => {},
    }
    inner
}

/// The urlencoded `f.req` body of a StreamGenerate request with the given
/// request id.
pub fn build_payload_with_id(
    cfg: &Config,
    prompt: &str,
    model_id: i64,
    think_mode: i64,
    file_refs: Option<&Vec<String>>,
    extra: Option<&Vec<(usize, i64)>>,
    request_id: &str,
) -> (r: String)
    requires
        extra_in_range(extra_ref_view(extra)),
    ensures
        r@ == spec_payload(prompt@, model_id, think_mode, refs_view(file_refs), extra_ref_view(extra), xsrf_view(cfg.xsrf_token), request_id@),
{
    let inner = inner_payload(prompt, model_id, think_mode, file_refs, extra, request_id);
    let inner_json = Json::array(inner);
    let inner_str = json_to_string(&inner_json);
    let mut outer: Vec<Json> = Vec::new();
    outer.push(Json::Null);
    outer.push(Json::Str(inner_str));
    let outer_json = Json::array(outer);
    let ghost ov = seq![JsonV::Null, JsonV::Str(spec_json_text(inner_json@))];
    assert(jviews(outer@) =~= ov);
    let outer_str = json_to_string(&outer_json);
    let mut r = owned("f.req=");
    let enc = form_serialize(outer_str.as_str());
    r.append(enc.as_str());
    match &cfg.xsrf_token {
        Some(tok) => {
            r.append("&at=");
            let t = form_serialize(tok.as_str());
            r.append(t.as_str());
        },
        None => {},
    }
    r
}

/// Build the urlencoded `f.req` body for a StreamGenerate request; the
/// request id in slot 59 is a fresh random UUID.
pub fn build_payload(
    cfg: &Config,
    prompt: &str,
    model_id: i64,
    think_mode: i64,
    file_refs: Option<&Vec<String>>,
    extra: Option<&Vec<(usize, i64)>>,
) -> (r: String)
    requires
        extra_in_range(extra_ref_view(extra)),
    ensures
        exists|id: Seq<char>|
            uuid_text(id) && r@ == spec_payload(prompt@, model_id, think_mode, refs_view(file_refs), extra_ref_view(extra), xsrf_view(cfg.xsrf_token), id),
{
    let id = random_uuid();
    build_payload_with_id(cfg, prompt, model_id, think_mode, file_refs, extra, id.as_str())
}

// ---------------------------------------------------------------------------
// Response parsing
// ---------------------------------------------------------------------------

/// Code-execution blocks that the answer carries inline.
pub open spec fn code_block_pattern() -> Seq<char> {
    "(?s)```(?:python|javascript|text)\\?code_(?:reference|stdout)&code_event_index=\\d+\\n.*?```\\n?"@
}

/// Card placeholder links.
pub open spec fn card_pattern() -> Seq<char> {
    "http://googleusercontent\\.com/card_content/\\d+\\n?"@
}

/// The answer text without code-execution blocks and card links, trimmed.
pub open spec fn spec_clean_text(text: Seq<char>) -> Seq<char> {
    trim(remove_matches(card_pattern(), remove_matches(code_block_pattern(), text)))
}

/// Removes code-execution blocks and card links, then trims.
pub fn clean_text(text: &str) -> (r: String)
    ensures
        r@ == spec_clean_text(text@),
{
    let a = remove_all("(?s)```(?:python|javascript|text)\\?code_(?:reference|stdout)&code_event_index=\\d+\\n.*?```\\n?", text);
    let b = remove_all("http://googleusercontent\\.com/card_content/\\d+\\n?", a.as_str());
    trim_str(b.as_str())
}

/// The number of bytes of the UTF-8 encoding of `s`.
pub open spec fn blen(s: Seq<char>) -> nat {
    encode_utf8(s).len()
}

/// The marker of a response line that carries a payload.
pub open spec fn wrb_marker() -> Seq<char> {
    "\"wrb.fr\""@
}

/// The non-empty strings of `list`, in order.
pub open spec fn nonempty_strs(list: Seq<JsonV>) -> Seq<Seq<char>>
    decreases list.len(),
{
    if list.len() == 0 {
        Seq::empty()
    } else {
        match list.last() {
            JsonV::Str(s) => if s.len() > 0 {
                nonempty_strs(list.drop_last()).push(s)
            } else {
                nonempty_strs(list.drop_last())
            },
            _ => nonempty_strs(list.drop_last()),
        }
    }
}

/// The texts of one candidate part: the non-empty strings of its second
/// element, where the part is an array of two or more elements whose
/// second is an array.
pub open spec fn part_texts(part: JsonV) -> Seq<Seq<char>> {
    match part {
        JsonV::Array(pa) => if pa.len() > 1 {
            match pa[1] {
                JsonV::Array(list) => nonempty_strs(list),
                _ => Seq::empty(),
            }
        } else {
            Seq::empty()
        },
        _ => Seq::empty(),
    }
}

/// The texts of all candidate parts, in order.
pub open spec fn parts_texts(parts: Seq<JsonV>) -> Seq<Seq<char>>
    decreases parts.len(),
{
    if parts.len() == 0 {
        Seq::empty()
    } else {
        parts_texts(parts.drop_last()) + part_texts(parts.last())
    }
}

/// The texts that the payload of a parsed inner document carries.
pub open spec fn inner_texts(inner: JsonV) -> Seq<Seq<char>> {
    match inner.item(4) {
        Some(JsonV::Array(parts)) => if parts.len() > 0 {
            parts_texts(parts)
        } else {
            Seq::empty()
        },
        _ => Seq::empty(),
    }
}

/// The texts found on one response line: a line with the payload marker,
/// at least 200 bytes long, whose JSON holds at `[0][2]` a string of at
/// least 50 bytes that is itself JSON; its element 4 lists the candidate
/// parts.
pub open spec fn spec_extract_texts(line: Seq<char>) -> Seq<Seq<char>> {
    if !contains(line, wrb_marker()) || blen(line) < 200 {
        Seq::empty()
    } else {
        match spec_json_parse(line) {
            None => Seq::empty(),
            Some(arr) => match arr.item(0) {
                Some(first) => match first.item(2) {
                    Some(JsonV::Str(s)) => if blen(s) >= 50 {
                        match spec_json_parse(s) {
                            Some(inner) => inner_texts(inner),
                            None => Seq::empty(),
                        }
                    } else {
                        Seq::empty()
                    },
                    _ => Seq::empty(),
                },
                None => Seq::empty(),
            },
        }
    }
}

fn nonempty_strings(list: &Vec<Json>) -> (r: Vec<String>)
    ensures
        views(r@) == nonempty_strs(jviews(list@)),
{
    let ghost lv = jviews(list@);
    let mut out: Vec<String> = Vec::new();
    let mut i: usize = 0;
    while i < list.len()
        invariant
            i <= list@.len(),
            lv == jviews(list@),
            views(out@) == nonempty_strs(lv.take(i as int)),
        decreases list@.len() - i,
    {
        assert(lv.take(i + 1).drop_last() =~= lv.take(i as int));
        assert(lv.take(i + 1).last() == list@[i as int]@);
        match list[i].as_str() {
            Some(s) => {
                if !s.is_empty() {
                    out.push(owned(s));
                    assert(views(out@) =~= nonempty_strs(lv.take(i as int)).push(s@));
                }
            },
            None => {},
        }
        i += 1;
    }
    assert(lv.take(list@.len() as int) =~= lv);
    out
}

fn texts_of_part(part: &Json) -> (r: Vec<String>)
    ensures
        views(r@) == part_texts(part@),
{
    match part.as_array() {
        Some(pa) => {
            if pa.len() > 1 {
                match pa[1].as_array() {
                    Some(list) => nonempty_strings(list),
                    None => Vec::new(),
                }
            } else {
                Vec::new()
            }
        },
        None => Vec::new(),
    }
}

/// Parse a single wrb.fr line and return the list of text strings found.
pub fn extract_texts_from_line(line: &str) -> (r: Vec<String>)
    ensures
        views(r@) == spec_extract_texts(line@),
{
    if !contains_str(line, "\"wrb.fr\"") || byte_len(line) < 200 {
        return Vec::new();
    }
    let arr = match parse_json(line) {
        Some(v) => v,
        None => return Vec::new(),
    };
    let first = match arr.get_index(0) {
        Some(f) => f,
        None => return Vec::new(),
    };
    let inner_str = match first.get_index(2) {
        Some(s) => match s.as_str() {
            Some(t) => t,
            None => return Vec::new(),
        },
        None => return Vec::new(),
    };
    if byte_len(inner_str) < 50 {
        return Vec::new();
    }
    let inner = match parse_json(inner_str) {
        Some(v) => v,
        None => return Vec::new(),
    };
    let parts = match inner.get_index(4) {
        Some(p) => match p.as_array() {
            Some(a) => a,
            None => return Vec::new(),
        },
        None => return Vec::new(),
    };
    if parts.len() == 0 {
        return Vec::new();
    }
    let ghost pv = jviews(parts@);
    let mut texts: Vec<String> = Vec::new();
    let mut i: usize = 0;
    while i < parts.len()
        invariant
            i <= parts@.len(),
            pv == jviews(parts@),
            views(texts@) == parts_texts(pv.take(i as int)),
        decreases parts@.len() - i,
    {
        assert(pv.take(i + 1).drop_last() =~= pv.take(i as int));
        assert(pv.take(i + 1).last() == parts@[i as int]@);
        let more = texts_of_part(&parts[i]);
        extend_strings(&mut texts, &more);
        i += 1;
    }
    assert(pv.take(parts@.len() as int) =~= pv);
    texts
}

/// The index of the first `c` in `s`.
pub open spec fn first_index(s: Seq<char>, c: char) -> Option<int>
    decreases s.len(),
{
    if s.len() == 0 {
        None
    } else if s[0] == c {
        Some(0)
    } else {
        match first_index(s.drop_first(), c) {
            Some(i) => Some(i + 1),
            None => None,
        }
    }
}

/// The pieces of `s` between occurrences of `c`: `str::split(c)`.
pub open spec fn split_char(s: Seq<char>, c: char) -> Seq<Seq<char>>
    decreases s.len(),
{
    match first_index(s, c) {
        Some(i) => if 0 <= i < s.len() {
            seq![s.take(i)] + split_char(s.skip(i + 1), c)
        } else {
            seq![s]
        },
        None => seq![s],
    }
}

/// Keeps the first of the longest texts, by UTF-8 length, starting from `acc`.
pub open spec fn fold_longest(acc: Seq<char>, ts: Seq<Seq<char>>) -> Seq<char>
    decreases ts.len(),
{
    if ts.len() == 0 {
        acc
    } else {
        fold_longest(if blen(ts[0]) > blen(acc) { ts[0] } else { acc }, ts.drop_first())
    }
}

/// The longest text over the lines, in order, starting from `acc`.
pub open spec fn longest_over_lines(acc: Seq<char>, lines: Seq<Seq<char>>) -> Seq<char>
    decreases lines.len(),
{
    if lines.len() == 0 {
        acc
    } else {
        longest_over_lines(fold_longest(acc, spec_extract_texts(lines[0])), lines.drop_first())
    }
}

/// The final answer in a full response body: the first longest text found
/// on its lines, cleaned.
pub open spec fn spec_extract_response_text(raw: Seq<char>) -> Seq<char> {
    spec_clean_text(longest_over_lines(Seq::empty(), split_char(raw, '\n')))
}

/// Where the next `c` in `v` at or after `from` is, or `v.len()`.
fn next_index(v: &Vec<char>, c: char, from: usize) -> (r: usize)
    requires
        from <= v@.len(),
    ensures
        from <= r <= v@.len(),
        match first_index(v@.skip(from as int), c) {
            Some(k) => r == from + k,
            None => r == v@.len(),
        },
{
    let mut i: usize = from;
    assert(v@.skip(from as int).skip(0) =~= v@.skip(from as int));
    while i < v.len() && v[i] != c
        invariant
            from <= i <= v@.len(),
            forall|k: int| from <= k < i ==> v@[k] != c,
        decreases v@.len() - i,
    {
        i += 1;
    }
    proof {
        lemma_first_index(v@, c, from as int, i as int);
    }
    i
}

proof fn lemma_first_index(s: Seq<char>, c: char, from: int, i: int)
    requires
        0 <= from <= i <= s.len(),
        forall|k: int| from <= k < i ==> s[k] != c,
        i == s.len() || s[i] == c,
    ensures
        match first_index(s.skip(from), c) {
            Some(k) => i < s.len() && k == i - from,
            None => i == s.len(),
        },
    decreases i - from,
{
    let t = s.skip(from);
    if from == i {
        if i == s.len() {
            assert(t.len() == 0);
        } else {
            assert(t[0] == c);
        }
    } else {
        assert(t[0] == s[from]);
        assert(t.drop_first() =~= s.skip(from + 1));
        lemma_first_index(s, c, from + 1, i);
    }
}

/// Parse a full response body to get the final (longest) text.
pub fn extract_response_text(raw: &str) -> (r: String)
    ensures
        r@ == spec_extract_response_text(raw@),
{
    let v = chars_of(raw);
    let mut last_text = String::new();
    let mut pos: usize = 0;
    assert(v@.skip(0) =~= v@);
    loop
        invariant_except_break
            longest_over_lines(Seq::empty(), split_char(raw@, '\n')) == longest_over_lines(
                last_text@,
                split_char(v@.skip(pos as int), '\n'),
            ),
        invariant
            pos <= v@.len(),
            v@ == raw@,
        ensures
            longest_over_lines(Seq::empty(), split_char(raw@, '\n')) == last_text@,
        decreases v@.len() - pos,
    {
        let end = next_index(&v, '\n', pos);
        let line = string_of_range(&v, pos, end);
        let ghost rest = v@.skip(pos as int);
        proof {
            if end < v@.len() {
                assert(line@ =~= rest.take(end - pos));
                assert(rest.skip(end - pos + 1) =~= v@.skip(end + 1));
                assert(split_char(rest, '\n') == seq![line@] + split_char(v@.skip(end + 1), '\n'));
            } else {
                assert(line@ =~= rest);
                assert(split_char(rest, '\n') == seq![line@]);
            }
        }
        let texts = extract_texts_from_line(line.as_str());
        let ghost start = last_text@;
        let ghost tv = views(texts@);
        assert(tv.skip(0) =~= tv);
        let mut j: usize = 0;
        while j < texts.len()
            invariant
                j <= texts@.len(),
                tv == views(texts@),
                fold_longest(start, tv) == fold_longest(last_text@, tv.skip(j as int)),
            decreases texts@.len() - j,
        {
            assert(tv.skip(j as int)[0] == texts@[j as int]@);
            assert(tv.skip(j as int).drop_first() =~= tv.skip(j + 1));
            if byte_len(texts[j].as_str()) > byte_len(last_text.as_str()) {
                last_text = texts[j].clone();
            }
            j += 1;
        }
        assert(tv.skip(texts@.len() as int).len() == 0);
        proof {
            let parts = split_char(rest, '\n');
            assert(parts[0] == line@);
            assert(longest_over_lines(start, parts) == longest_over_lines(fold_longest(start, tv), parts.drop_first()));
        }
        if end >= v.len() {
            assert(split_char(v@.skip(pos as int), '\n').drop_first().len() == 0);
            assert(longest_over_lines(last_text@, split_char(v@.skip(pos as int), '\n').drop_first()) == last_text@);
            break;
        }
        assert(split_char(v@.skip(pos as int), '\n').drop_first() =~= split_char(v@.skip(end + 1), '\n'));
        pos = end + 1;
    }
    clean_text(last_text.as_str())
}

// ---------------------------------------------------------------------------
// Cookies
// ---------------------------------------------------------------------------

/// The SAPISID value of one `name=value` pair of a cookie header.
pub open spec fn pair_sapisid(pair: Seq<char>) -> Option<Seq<char>> {
    match first_index(pair, '=') {
        Some(i) => if 0 <= i < pair.len() && pair.take(i) == "SAPISID"@ {
            Some(pair.skip(i + 1))
        } else {
            None
        },
        None => None,
    }
}

/// The SAPISID of the last pair that sets it, starting from `acc`.
pub open spec fn last_sapisid(acc: Option<Seq<char>>, pairs: Seq<Seq<char>>) -> Option<Seq<char>>
    decreases pairs.len(),
{
    if pairs.len() == 0 {
        acc
    } else {
        last_sapisid(
            match pair_sapisid(pairs[0]) {
                Some(v) => Some(v),
                None => acc,
            },
            pairs.drop_first(),
        )
    }
}

/// The cookie text and SAPISID that a cookie file holds. A file whose
/// trimmed text starts with `{` is JSON with `cookie` and `sapisid` fields
/// (text that is not JSON counts as a plain cookie header); any other file
/// is a cookie header whose last `SAPISID=` pair gives the SAPISID. An
/// empty SAPISID counts as none.
pub open spec fn spec_parse_cookie(raw: Seq<char>) -> (Seq<char>, Option<Seq<char>>) {
    let content = trim(raw);
    let (cookie, sap) = if content.len() > 0 && content[0] == '{' {
        match spec_json_parse(content) {
            Some(d) => (d.str_or("cookie"@, ""@), d.field_str("sapisid"@)),
            None => (content, None),
        }
    } else {
        (content, last_sapisid(None, split_str(content, "; "@)))
    };
    (cookie, match sap {
        Some(s) => if s.len() > 0 {
            Some(s)
        } else {
            None
        },
        None => None,
    })
}

fn sapisid_of_pair(pair: &Vec<char>) -> (r: Option<String>)
    ensures
        opt_string_view(r) == pair_sapisid(pair@),
{
    let eq = next_index(pair, '=', 0);
    assert(pair@.skip(0) =~= pair@);
    if eq >= pair.len() {
        return None;
    }
    let key = string_of_range(pair, 0, eq);
    if str_eq(key.as_str(), "SAPISID") {
        assert(key@ =~= pair@.take(eq as int));
        let v = string_of_range(pair, eq + 1, pair.len());
        assert(v@ =~= pair@.skip(eq + 1));
        Some(v)
    } else {
        assert(key@ =~= pair@.take(eq as int));
        None
    }
}

/// Reads the cookie text and SAPISID out of the text of a cookie file.
pub fn parse_cookie(raw: &str) -> (r: (String, Option<String>))
    ensures
        (r.0@, opt_string_view(r.1)) == spec_parse_cookie(raw@),
{
    let content = trim_str(raw);
    let ghost c = content@;
    let (cookie_str, sap): (String, Option<String>) = if starts_with_char(content.as_str(), '{') {
        match parse_json(content.as_str()) {
            Some(data) => {
                let ck = owned(data.str_or("cookie", ""));
                let sp = match data.get_str("sapisid") {
                    Some(s) => Some(owned(s)),
                    None => None,
                };
                (ck, sp)
            },
            None => (content.clone(), None),
        }
    } else {
        let v = chars_of(content.as_str());
        let sep = chars_of("; ");
        let mut sap: Option<String> = None;
        let mut pos: usize = 0;
        assert(v@.skip(0) =~= v@);
        proof {
            reveal_strlit("; ");
        }
        loop
            invariant_except_break
                last_sapisid(None, split_str(c, "; "@)) == last_sapisid(
                    opt_string_view(sap),
                    split_str(v@.skip(pos as int), "; "@),
                ),
            invariant
                pos <= v@.len(),
                v@ == c,
                sep@ == "; "@,
                sep@.len() == 2,
            ensures
                last_sapisid(None, split_str(c, "; "@)) == opt_string_view(sap),
            decreases v@.len() - pos,
        {
            let ghost rest = v@.skip(pos as int);
            let ghost acc = opt_string_view(sap);
            match find_first_from(&v, &sep, pos) {
                Some(i) => {
                    let piece = string_of_range(&v, pos, i);
                    let pv = chars_of(piece.as_str());
                    let found = sapisid_of_pair(&pv);
                    proof {
                        assert(piece@ =~= rest.take(i - pos));
                        assert(rest.skip(i - pos + 2) =~= v@.skip(i + 2));
                        assert(split_str(rest, "; "@) == seq![piece@] + split_str(v@.skip(i + 2), "; "@));
                        let parts = split_str(rest, "; "@);
                        assert(parts[0] == piece@);
                        assert(parts.drop_first() =~= split_str(v@.skip(i + 2), "; "@));
                    }
                    match found {
                        Some(f) => sap = Some(f),
                        None => {},
                    }
                    assert(opt_string_view(sap) == match pair_sapisid(piece@) {
                        Some(x) => Some(x),
                        None => acc,
                    });
                    assert(i + 2 <= v.len());
                    pos = i + 2;
                },
                None => {
                    let piece = string_of_range(&v, pos, v.len());
                    let pv = chars_of(piece.as_str());
                    let found = sapisid_of_pair(&pv);
                    proof {
                        assert(piece@ =~= rest);
                        assert(split_str(rest, "; "@) == seq![rest]);
                        let parts = split_str(rest, "; "@);
                        assert(parts.drop_first().len() == 0);
                    }
                    match found {
                        Some(f) => sap = Some(f),
                        None => {},
                    }
                    assert(opt_string_view(sap) == match pair_sapisid(piece@) {
                        Some(x) => Some(x),
                        None => acc,
                    });
                    assert(last_sapisid(acc, split_str(rest, "; "@)) == last_sapisid(opt_string_view(sap), split_str(rest, "; "@).drop_first()));
                    break;
                },
            }
        }
        (content.clone(), sap)
    };
    let sap = match sap {
        Some(s) => {
            if s.as_str().is_empty() {
                None
            } else {
                Some(s)
            }
        },
        None => None,
    };
    (cookie_str, sap)
}

/// The model of a modification time (seconds, nanoseconds).
pub type MTime = Option<(u64, u32)>;

/// The last cookie read, with the file's modification time at that read.
pub struct CookieCache {
    pub cookie: String,
    pub sapisid: Option<String>,
    pub mtime: Option<(u64, u32)>,
}

/// The model of a [`CookieCache`].
pub struct CookieCacheV {
    pub cookie: Seq<char>,
    pub sapisid: Option<Seq<char>>,
    pub mtime: Option<(u64, u32)>,
}

impl View for CookieCache {
    type V = CookieCacheV;

    open spec fn view(&self) -> CookieCacheV {
        CookieCacheV { cookie: self.cookie@, sapisid: opt_string_view(self.sapisid), mtime: self.mtime }
    }
}

/// What a cache in state `c` serves when the file's modification time is
/// `mtime`: its cookie, where that is not empty and was read at `mtime`.
pub open spec fn cache_lookup(c: CookieCacheV, mtime: Option<(u64, u32)>) -> Option<(Seq<char>, Option<Seq<char>>)> {
    if c.mtime == mtime && c.cookie.len() > 0 {
        Some((c.cookie, c.sapisid))
    } else {
        None
    }
}

/// The cache after a read of the file at `mtime` gave `raw` (`None` where
/// the read failed), and the cookie then used.
pub open spec fn cache_after_read(c: CookieCacheV, mtime: Option<(u64, u32)>, raw: Option<Seq<char>>) -> (CookieCacheV, (Seq<char>, Option<Seq<char>>)) {
    match raw {
        Some(text) => {
            let (cookie, sapisid) = spec_parse_cookie(text);
            (CookieCacheV { cookie, sapisid, mtime }, (cookie, sapisid))
        },
        None => (c, (c.cookie, c.sapisid)),
    }
}

impl CookieCache {
    /// An empty cache.
    pub fn new() -> (r: CookieCache)
        ensures
            r@ == (CookieCacheV { cookie: Seq::empty(), sapisid: None, mtime: None }),
    {
        let r = CookieCache { cookie: String::new(), sapisid: None, mtime: None };
        assert(r.cookie@ =~= Seq::<char>::empty());
        r
    }

    /// The cached cookie, where it is not empty and was read at the file's
    /// current modification time `mtime`.
    pub fn lookup(&self, mtime: Option<(u64, u32)>) -> (r: Option<(String, Option<String>)>)
        ensures
            match r {
                Some(p) => cache_lookup(self@, mtime) == Some((p.0@, opt_string_view(p.1))),
                None => cache_lookup(self@, mtime) is None,
            },
    {
        let same = match (self.mtime, mtime) {
            (None, None) => true,
            (Some(a), Some(b)) => a.0 == b.0 && a.1 == b.1,
            _ => false,
        };
        if same && !self.cookie.as_str().is_empty() {
            Some((self.cookie.clone(), clone_opt(&self.sapisid)))
        } else {
            None
        }
    }

    /// What the cookie loader gives once it tried to read the file: the
    /// parsed file (remembered with `mtime`) where the read succeeded, else
    /// the cached cookie, left as it is.
    pub fn after_read(&mut self, mtime: Option<(u64, u32)>, raw: Option<&str>) -> (r: (String, Option<String>))
        ensures
            ({
                let (c, used) = cache_after_read(old(self)@, mtime, match raw {
                    Some(t) => Some(t@),
                    None => None,
                });
                &&& final(self)@ == c
                &&& (r.0@, opt_string_view(r.1)) == used
            }),
    {
        match raw {
            Some(text) => {
                let (cookie, sapisid) = parse_cookie(text);
                self.cookie = cookie.clone();
                self.sapisid = clone_opt(&sapisid);
                self.mtime = mtime;
                (cookie, sapisid)
            },
            None => (self.cookie.clone(), clone_opt(&self.sapisid)),
        }
    }
}

/// A cookie just read at modification time `mtime` is served from the
/// cache while the file keeps that time (where it is not empty), and never
/// once the time changes.
pub proof fn law_cookie_cache(c: CookieCacheV, mtime: Option<(u64, u32)>, text: Seq<char>, later: Option<(u64, u32)>)
    ensures
        ({
            let (c2, used) = cache_after_read(c, mtime, Some(text));
            &&& later == mtime && used.0.len() > 0 ==> cache_lookup(c2, later) == Some(used)
            &&& later == mtime && used.0.len() == 0 ==> cache_lookup(c2, later) is None
            &&& later != mtime ==> cache_lookup(c2, later) is None
        }),
{
}

/// A failed read leaves the cache as it was.
pub proof fn law_cookie_cache_failed_read(c: CookieCacheV, mtime: Option<(u64, u32)>)
    ensures
        cache_after_read(c, mtime, None).0 == c,
        cache_after_read(c, mtime, None).1 == (c.cookie, c.sapisid),
{
}

pub(crate) fn clone_opt(o: &Option<String>) -> (r: Option<String>)
    ensures
        opt_string_view(r) == opt_string_view(*o),
{
    match o {
        Some(s) => Some(s.clone()),
        None => None,
    }
}

// ---------------------------------------------------------------------------
// Retries
// ---------------------------------------------------------------------------

/// What the caller of a non-streaming generation does next.
pub enum GenerateAction {
    /// Send the request.
    Send,
    /// Wait this many seconds, then send the request again.
    SleepThenSend(u64),
    /// Stop with this answer or error.
    Finish(Result<String, String>),
}

/// The retry state of a non-streaming generation: `attempt` counts from 0.
pub struct GenerateRun {
    pub attempt: u32,
    pub attempts: u32,
    pub delay_sec: u64,
}

impl GenerateRun {
    /// Starts a generation with `attempts` tries, `delay_sec` apart; with no
    /// tries at all it ends at once with `unknown error`.
    pub fn start(attempts: u32, delay_sec: u64) -> (r: (GenerateRun, GenerateAction))
        ensures
            r.0.attempt == 0,
            r.0.attempts == attempts,
            r.0.delay_sec == delay_sec,
            attempts == 0 ==> (r.1 matches GenerateAction::Finish(Err(e)) && e@ == "unknown error"@),
            attempts > 0 ==> r.1 is Send,
    {
        let run = GenerateRun { attempt: 0, attempts, delay_sec };
        if attempts == 0 {
            (run, GenerateAction::Finish(Err(owned("unknown error"))))
        } else {
            (run, GenerateAction::Send)
        }
    }

    /// The response body arrived: the answer is the text it carries.
    pub fn on_body(&self, raw: &str) -> (r: GenerateAction)
        ensures
            r matches GenerateAction::Finish(Ok(t)) && t@ == spec_extract_response_text(raw@),
    {
        GenerateAction::Finish(Ok(extract_response_text(raw)))
    }

    /// The request or the reading of its body failed with `err`: try again
    /// after the delay while tries are left, else stop with `err`.
    pub fn on_failure(&mut self, err: String) -> (r: GenerateAction)
        requires
            old(self).attempt < old(self).attempts,
        ensures
            final(self).attempts == old(self).attempts,
            final(self).delay_sec == old(self).delay_sec,
            old(self).attempt + 1 < old(self).attempts ==> {
                &&& final(self).attempt == old(self).attempt + 1
                &&& r == GenerateAction::SleepThenSend(old(self).delay_sec)
            },
            old(self).attempt + 1 >= old(self).attempts ==> {
                &&& final(self).attempt == old(self).attempt
                &&& r matches GenerateAction::Finish(Err(e)) && e@ == err@
            },
    {
        if self.attempt + 1 < self.attempts {
            self.attempt = self.attempt + 1;
            GenerateAction::SleepThenSend(self.delay_sec)
        } else {
            GenerateAction::Finish(Err(err))
        }
    }
}

/// What the caller of a streaming generation does next.
pub enum StreamAction {
    /// Send the request.
    Send,
    /// Wait this many seconds, then send the request again.
    SleepThenSend(u64),
    /// End the stream.
    Stop,
}

/// The retry state of a streaming generation: `attempt` counts from 0.
pub struct StreamRun {
    pub attempt: u32,
    pub attempts: u32,
    pub delay_sec: u64,
}

impl StreamRun {
    /// Starts a stream with `attempts` tries, `delay_sec` apart.
    pub fn start(attempts: u32, delay_sec: u64) -> (r: (StreamRun, StreamAction))
        ensures
            r.0.attempt == 0,
            r.0.attempts == attempts,
            r.0.delay_sec == delay_sec,
            attempts == 0 ==> r.1 is Stop,
            attempts > 0 ==> r.1 is Send,
    {
        let run = StreamRun { attempt: 0, attempts, delay_sec };
        if attempts == 0 {
            (run, StreamAction::Stop)
        } else {
            (run, StreamAction::Send)
        }
    }

    /// Sending failed: try again after the delay while tries are left.
    pub fn on_send_failed(&mut self) -> (r: StreamAction)
        requires
            old(self).attempt < old(self).attempts,
        ensures
            final(self).attempts == old(self).attempts,
            final(self).delay_sec == old(self).delay_sec,
            old(self).attempt + 1 < old(self).attempts ==> final(self).attempt == old(self).attempt + 1
                && r == StreamAction::SleepThenSend(old(self).delay_sec),
            old(self).attempt + 1 >= old(self).attempts ==> final(self).attempt == old(self).attempt
                && r is Stop,
    {
        if self.attempt + 1 < self.attempts {
            self.attempt = self.attempt + 1;
            StreamAction::SleepThenSend(self.delay_sec)
        } else {
            StreamAction::Stop
        }
    }

    /// The response stream broke off: try again at once while tries are
    /// left.
    pub fn on_stream_failed(&mut self) -> (r: StreamAction)
        requires
            old(self).attempt < old(self).attempts,
        ensures
            final(self).attempts == old(self).attempts,
            final(self).delay_sec == old(self).delay_sec,
            old(self).attempt + 1 < old(self).attempts ==> final(self).attempt == old(self).attempt + 1
                && r is Send,
            old(self).attempt + 1 >= old(self).attempts ==> final(self).attempt == old(self).attempt
                && r is Stop,
    {
        if self.attempt + 1 < self.attempts {
            self.attempt = self.attempt + 1;
            StreamAction::Send
        } else {
            StreamAction::Stop
        }
    }
}

// ---------------------------------------------------------------------------
// Streamed responses
// ---------------------------------------------------------------------------

/// The text of `t` after its first `n` bytes, where `n` falls on a
/// character boundary of `t`.
pub open spec fn delta_source(t: Seq<char>, n: nat) -> Option<Seq<char>> {
    if is_char_boundary(encode_utf8(t), n as int) {
        Some(decode_utf8(encode_utf8(t).subrange(n as int, blen(t) as int)))
    } else {
        None
    }
}

/// The progress of a stream: the longest text so far, the deltas sent,
/// and whether the stream had to stop.
pub struct DeltaState {
    pub prev: Seq<char>,
    pub out: Seq<Seq<char>>,
    pub stopped: bool,
}

/// One text of a response line: a text longer (in bytes) than the last one
/// sends the cleaned part after the last one's length, where that part is
/// not empty; a length that does not fall on a character boundary stops
/// the stream.
pub open spec fn step_text(st: DeltaState, t: Seq<char>) -> DeltaState {
    if st.stopped || blen(t) <= blen(st.prev) {
        st
    } else {
        match delta_source(t, blen(st.prev)) {
            None => DeltaState { stopped: true, ..st },
            Some(src) => {
                let d = spec_clean_text(src);
                DeltaState { prev: t, out: if d.len() > 0 { st.out.push(d) } else { st.out }, stopped: false }
            },
        }
    }
}

pub open spec fn step_texts(st: DeltaState, ts: Seq<Seq<char>>) -> DeltaState
    decreases ts.len(),
{
    if ts.len() == 0 {
        st
    } else {
        step_texts(step_text(st, ts[0]), ts.drop_first())
    }
}

pub open spec fn step_lines(st: DeltaState, lines: Seq<Seq<char>>) -> DeltaState
    decreases lines.len(),
{
    if lines.len() == 0 {
        st
    } else {
        step_lines(step_texts(st, spec_extract_texts(lines[0])), lines.drop_first())
    }
}

/// Turns the bytes of a streamed response, chunk by chunk, into text
/// deltas.
pub struct StreamDecoder {
    /// the part of a line that has not ended yet
    pub buf: String,
    /// the longest text sent so far
    pub prev_text: String,
    /// set once a delta could not be cut out; nothing follows
    pub stopped: bool,
}

/// What feeding `chunk` to a decoder in state (`buf`, `prev`, `stopped`)
/// gives: the complete lines of `buf + chunk` are read in order; the part
/// after the last line break waits for the next chunk.
pub open spec fn spec_feed(buf: Seq<char>, prev: Seq<char>, stopped: bool, chunk: Seq<char>) -> (Seq<char>, DeltaState) {
    if stopped {
        (buf, DeltaState { prev, out: Seq::empty(), stopped: true })
    } else {
        let pieces = split_char(buf + chunk, '\n');
        let st = step_lines(DeltaState { prev, out: Seq::empty(), stopped: false }, pieces.drop_last());
        (if st.stopped { buf } else { pieces.last() }, st)
    }
}

impl StreamDecoder {
    /// A decoder at the start of a response.
    pub fn new() -> (r: StreamDecoder)
        ensures
            r.buf@.len() == 0,
            r.prev_text@.len() == 0,
            !r.stopped,
    {
        StreamDecoder { buf: String::new(), prev_text: String::new(), stopped: false }
    }

    /// Reads one chunk and gives the deltas to send, in order.
    pub fn feed(&mut self, chunk: &str) -> (r: Vec<String>)
        ensures
            ({
                let (b, st) = spec_feed(old(self).buf@, old(self).prev_text@, old(self).stopped, chunk@);
                &&& final(self).buf@ == b
                &&& final(self).prev_text@ == st.prev
                &&& final(self).stopped == st.stopped
                &&& views(r@) == st.out
            }),
    {
        let mut out: Vec<String> = Vec::new();
        if self.stopped {
            assert(views(out@) =~= Seq::<Seq<char>>::empty());
            return out;
        }
        let data = concat2(self.buf.as_str(), chunk);
        let v = chars_of(data.as_str());
        let ghost pieces = split_char(v@, '\n');
        let ghost init = DeltaState { prev: self.prev_text@, out: Seq::empty(), stopped: false };
        let mut pos: usize = 0;
        assert(v@.skip(0) =~= v@);
        assert(views(out@) =~= Seq::<Seq<char>>::empty());
        loop
            invariant
                pos <= v@.len(),
                pieces == split_char(v@, '\n'),
                !self.stopped,
                !old(self).stopped,
                v@ == old(self).buf@ + chunk@,
                self.buf@ == old(self).buf@,
                init == (DeltaState { prev: old(self).prev_text@, out: Seq::empty(), stopped: false }),
                step_lines(init, pieces.drop_last()) == step_lines(
                    (DeltaState { prev: self.prev_text@, out: views(out@), stopped: false }),
                    split_char(v@.skip(pos as int), '\n').drop_last(),
                ),
                pieces.last() == split_char(v@.skip(pos as int), '\n').last(),
            ensures
                pos <= v@.len(),
                pieces == split_char(v@, '\n'),
                self.stopped || (step_lines(init, pieces.drop_last()) == (DeltaState {
                    prev: self.prev_text@,
                    out: views(out@),
                    stopped: false,
                }) && pieces.last() == v@.skip(pos as int)),
                self.stopped ==> step_lines(init, pieces.drop_last()) == (DeltaState {
                    prev: self.prev_text@,
                    out: views(out@),
                    stopped: true,
                }),
            decreases v@.len() - pos,
        {
            let end = next_index(&v, '\n', pos);
            let ghost rest = v@.skip(pos as int);
            if end >= v.len() {
                proof {
                    assert(split_char(rest, '\n') == seq![rest]);
                }
                break;
            }
            let line = string_of_range(&v, pos, end);
            proof {
                assert(line@ =~= rest.take(end - pos));
                assert(rest.skip(end - pos + 1) =~= v@.skip(end + 1));
                let ps = split_char(rest, '\n');
                assert(ps == seq![line@] + split_char(v@.skip(end + 1), '\n'));
                let tail = split_char(v@.skip(end + 1), '\n');
                assert(tail.len() > 0);
                assert(ps.drop_last() =~= seq![line@] + tail.drop_last());
                assert(ps.drop_last()[0] == line@);
                assert(ps.drop_last().drop_first() =~= tail.drop_last());
                assert(ps.last() == tail.last());
            }
            let texts = extract_texts_from_line(line.as_str());
            let ghost tv = views(texts@);
            let ghost start = DeltaState { prev: self.prev_text@, out: views(out@), stopped: false };
            assert(tv.skip(0) =~= tv);
            let mut j: usize = 0;
            #[verifier::loop_isolation(false)]
            while j < texts.len()
                invariant
                    j <= texts@.len(),
                    tv == views(texts@),
                    !self.stopped,
                    self.buf@ == old(self).buf@,
                    step_texts(start, tv) == step_texts(
                        (DeltaState { prev: self.prev_text@, out: views(out@), stopped: false }),
                        tv.skip(j as int),
                    ),
                decreases texts@.len() - j,
            {
                let t = texts[j].as_str();
                assert(tv.skip(j as int)[0] == t@);
                assert(tv.skip(j as int).drop_first() =~= tv.skip(j + 1));
                let n = byte_len(self.prev_text.as_str());
                if byte_len(t) > n {
                    if !t.is_char_boundary(n) {
                        let ghost cur = DeltaState { prev: self.prev_text@, out: views(out@), stopped: false };
                        self.stopped = true;
                        proof {
                            let st_s = DeltaState { prev: self.prev_text@, out: views(out@), stopped: true };
                            assert(step_text(cur, t@) == st_s);
                            assert(step_texts(cur, tv.skip(j as int)) == step_texts(st_s, tv.skip(j + 1)));
                            lemma_step_texts_stopped(
                                DeltaState { prev: self.prev_text@, out: views(out@), stopped: true },
                                tv.skip(j + 1),
                            );
                            lemma_step_lines_stopped(
                                DeltaState { prev: self.prev_text@, out: views(out@), stopped: true },
                                split_char(v@.skip(end + 1), '\n').drop_last(),
                            );
                            let ps = split_char(rest, '\n');
                            assert(step_texts(start, spec_extract_texts(line@)) == st_s);
                            assert(step_lines(start, ps.drop_last()) == step_lines(step_texts(start, spec_extract_texts(ps.drop_last()[0])), ps.drop_last().drop_first()));
                            assert(ps.drop_last()[0] == line@);
                            assert(step_lines(start, ps.drop_last()) == st_s);
                            assert(step_lines(init, pieces.drop_last()) == st_s);
                            assert(v@ == old(self).buf@ + chunk@);
                        }
                        return out;
                    }
                    let (_, tail) = t.split_at(n);
                    proof {
                        vstd::utf8::encode_utf8_decode_utf8(tail@);
                        assert(tail.spec_bytes() =~= encode_utf8(t@).subrange(n as int, blen(t@) as int));
                    }
                    let d = clean_text(tail);
                    if !d.as_str().is_empty() {
                        let ghost before = views(out@);
                        out.push(d);
                        assert(views(out@) =~= before.push(spec_clean_text(tail@)));
                    }
                    self.prev_text = owned(t);
                }
                j += 1;
            }
            assert(tv.skip(texts@.len() as int).len() == 0);
            pos = end + 1;
        }
        if self.stopped {
            return out;
        }
        self.buf = string_of_range(&v, pos, v.len());
        assert(self.buf@ =~= v@.skip(pos as int));
        out
    }
}

proof fn lemma_step_texts_stopped(st: DeltaState, ts: Seq<Seq<char>>)
    requires
        st.stopped,
    ensures
        step_texts(st, ts) == st,
    decreases ts.len(),
{
    if ts.len() > 0 {
        lemma_step_texts_stopped(step_text(st, ts[0]), ts.drop_first());
    }
}

proof fn lemma_step_lines_stopped(st: DeltaState, lines: Seq<Seq<char>>)
    requires
        st.stopped,
    ensures
        step_lines(st, lines) == st,
    decreases lines.len(),
{
    if lines.len() > 0 {
        lemma_step_texts_stopped(st, spec_extract_texts(lines[0]));
        lemma_step_lines_stopped(step_texts(st, spec_extract_texts(lines[0])), lines.drop_first());
    }
}


proof fn lemma_first_index_concat(x: Seq<char>, y: Seq<char>, c: char)
    ensures
        first_index(x, c) matches Some(i) ==> first_index(x + y, c) == Some(i) && 0 <= i < x.len() && x[i] == c,
        first_index(x, c) is None ==> forall|j: int| 0 <= j < x.len() ==> x[j] != c,
    decreases x.len(),
{
    if x.len() > 0 {
        lemma_first_index_concat(x.drop_first(), y, c);
        assert((x + y).drop_first() =~= x.drop_first() + y);
        if x[0] != c {
            assert forall|j: int| 0 < j < x.len() implies x[j] == x.drop_first()[j - 1] by {}
        }
    }
}

proof fn lemma_first_index_none(s: Seq<char>, c: char)
    requires
        forall|j: int| 0 <= j < s.len() ==> s[j] != c,
    ensures
        first_index(s, c) is None,
    decreases s.len(),
{
    if s.len() > 0 {
        assert forall|j: int| 0 <= j < s.drop_first().len() implies s.drop_first()[j] != c by {
            assert(s.drop_first()[j] == s[j + 1]);
        }
        lemma_first_index_none(s.drop_first(), c);
    }
}

proof fn lemma_split_nonempty(s: Seq<char>, c: char)
    ensures
        split_char(s, c).len() > 0,
    decreases s.len(),
{
    match first_index(s, c) {
        Some(i) => if 0 <= i < s.len() {
            lemma_split_nonempty(s.skip(i + 1), c);
        },
        None => {},
    }
}

/// Splitting `x + y` splits `x` up to its last separator, then splits the
/// rest of `x` together with `y`.
proof fn lemma_split_concat(x: Seq<char>, y: Seq<char>, c: char)
    ensures
        split_char(x, c).len() > 0,
        split_char(x + y, c) == split_char(x, c).drop_last() + split_char(split_char(x, c).last() + y, c),
    decreases x.len(),
{
    lemma_split_nonempty(x, c);
    lemma_first_index_concat(x, y, c);
    match first_index(x, c) {
        Some(i) => {
            let rest = x.skip(i + 1);
            lemma_split_concat(rest, y, c);
            lemma_split_nonempty(rest, c);
            assert((x + y).take(i) =~= x.take(i));
            assert((x + y).skip(i + 1) =~= rest + y);
            let p = split_char(rest, c);
            assert(split_char(x, c) == seq![x.take(i)] + p);
            assert((seq![x.take(i)] + p).drop_last() =~= seq![x.take(i)] + p.drop_last());
            assert((seq![x.take(i)] + p).last() == p.last());
            assert(split_char(x + y, c) == seq![x.take(i)] + split_char(rest + y, c));
            assert(seq![x.take(i)] + (p.drop_last() + split_char(p.last() + y, c)) =~= (seq![x.take(i)] + p.drop_last()) + split_char(p.last() + y, c));
        },
        None => {
            assert(split_char(x, c) == seq![x]);
            assert(seq![x].drop_last() =~= Seq::<Seq<char>>::empty());
            assert(Seq::<Seq<char>>::empty() + split_char(x + y, c) =~= split_char(x + y, c));
        },
    }
}

proof fn lemma_step_lines_concat(st: DeltaState, p: Seq<Seq<char>>, q: Seq<Seq<char>>)
    ensures
        step_lines(st, p + q) == step_lines(step_lines(st, p), q),
    decreases p.len(),
{
    if p.len() == 0 {
        assert(p + q =~= q);
    } else {
        assert((p + q).drop_first() =~= p.drop_first() + q);
        assert((p + q)[0] == p[0]);
        lemma_step_lines_concat(step_texts(st, spec_extract_texts(p[0])), p.drop_first(), q);
    }
}

/// The deltas already sent play no part in what comes next.
proof fn lemma_step_texts_out(prev: Seq<char>, out: Seq<Seq<char>>, stopped: bool, ts: Seq<Seq<char>>)
    ensures
        ({
            let a = step_texts(DeltaState { prev, out, stopped }, ts);
            let b = step_texts(DeltaState { prev, out: Seq::empty(), stopped }, ts);
            a == DeltaState { prev: b.prev, out: out + b.out, stopped: b.stopped }
        }),
    decreases ts.len(),
{
    if ts.len() == 0 {
        assert(out + Seq::<Seq<char>>::empty() =~= out);
    } else {
        let s1 = step_text(DeltaState { prev, out, stopped }, ts[0]);
        let s0 = step_text(DeltaState { prev, out: Seq::empty(), stopped }, ts[0]);
        assert(s1 == DeltaState { prev: s0.prev, out: out + s0.out, stopped: s0.stopped }) by {
            if !stopped && blen(ts[0]) > blen(prev) {
                match delta_source(ts[0], blen(prev)) {
                    Some(src) => {
                        let d = spec_clean_text(src);
                        if d.len() > 0 {
                            assert(out.push(d) =~= out + Seq::<Seq<char>>::empty().push(d));
                        } else {
                            assert(out =~= out + Seq::<Seq<char>>::empty());
                        }
                    },
                    None => assert(out =~= out + Seq::<Seq<char>>::empty()),
                }
            } else {
                assert(out =~= out + Seq::<Seq<char>>::empty());
            }
        }
        lemma_step_texts_out(s1.prev, s1.out, s1.stopped, ts.drop_first());
        lemma_step_texts_out(s0.prev, s0.out, s0.stopped, ts.drop_first());
        let b = step_texts(DeltaState { prev: s0.prev, out: Seq::empty(), stopped: s0.stopped }, ts.drop_first());
        assert(out + (s0.out + b.out) =~= (out + s0.out) + b.out);
    }
}

proof fn lemma_step_lines_out(prev: Seq<char>, out: Seq<Seq<char>>, stopped: bool, lines: Seq<Seq<char>>)
    ensures
        ({
            let a = step_lines(DeltaState { prev, out, stopped }, lines);
            let b = step_lines(DeltaState { prev, out: Seq::empty(), stopped }, lines);
            a == DeltaState { prev: b.prev, out: out + b.out, stopped: b.stopped }
        }),
    decreases lines.len(),
{
    if lines.len() == 0 {
        assert(out + Seq::<Seq<char>>::empty() =~= out);
    } else {
        let ts = spec_extract_texts(lines[0]);
        lemma_step_texts_out(prev, out, stopped, ts);
        let s0 = step_texts(DeltaState { prev, out: Seq::empty(), stopped }, ts);
        lemma_step_lines_out(s0.prev, out + s0.out, s0.stopped, lines.drop_first());
        lemma_step_lines_out(s0.prev, s0.out, s0.stopped, lines.drop_first());
        let b = step_lines(DeltaState { prev: s0.prev, out: Seq::empty(), stopped: s0.stopped }, lines.drop_first());
        assert(out + (s0.out + b.out) =~= (out + s0.out) + b.out);
    }
}

/// Where a response is cut into chunks does not matter: feeding `a` and
/// then `b` sends the same deltas, in the same order, as feeding `a + b`,
/// and leaves the decoder with the same last text and the same stop; the
/// unread rest is the same too while the decoder has not stopped.
pub proof fn law_feed_split(buf: Seq<char>, prev: Seq<char>, stopped: bool, a: Seq<char>, b: Seq<char>)
    ensures
        ({
            let (b1, s1) = spec_feed(buf, prev, stopped, a);
            let (b2, s2) = spec_feed(b1, s1.prev, s1.stopped, b);
            let (bc, sc) = spec_feed(buf, prev, stopped, a + b);
            &&& sc.out == s1.out + s2.out
            &&& sc.prev == s2.prev
            &&& sc.stopped == s2.stopped
            &&& !sc.stopped ==> bc == b2
        }),
{
    if stopped {
        assert(Seq::<Seq<char>>::empty() + Seq::<Seq<char>>::empty() =~= Seq::<Seq<char>>::empty());
    } else {
        let init = DeltaState { prev, out: Seq::empty(), stopped: false };
        let p1 = split_char(buf + a, '\n');
        lemma_split_concat(buf + a, b, '\n');
        assert(buf + (a + b) =~= (buf + a) + b);
        let q = split_char(p1.last() + b, '\n');
        lemma_split_nonempty(p1.last() + b, '\n');
        let s1 = step_lines(init, p1.drop_last());
        let pc = split_char(buf + (a + b), '\n');
        assert(pc == p1.drop_last() + q);
        assert(pc.drop_last() =~= p1.drop_last() + q.drop_last());
        assert(pc.last() == q.last());
        lemma_step_lines_concat(init, p1.drop_last(), q.drop_last());
        if s1.stopped {
            lemma_step_lines_stopped(s1, q.drop_last());
            assert(s1.out + Seq::<Seq<char>>::empty() =~= s1.out);
        } else {
            assert(s1.stopped == false);
            lemma_step_lines_out(s1.prev, s1.out, false, q.drop_last());
        }
    }
}

} // verus!
