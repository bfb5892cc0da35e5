//! A small base64 decoder: standard alphabet, padding and ASCII whitespace
//! ignored, leftover bits at the end dropped.
use vstd::prelude::*;
use vstd::string::StringSliceAdditionalSpecFns;

verus! {

/// The 6-bit value of a base64 character of the standard alphabet.
pub open spec fn sextet(c: u8) -> Option<u8> {
    if 65 <= c <= 90 {
        Some((c - 65) as u8)
    } else if 97 <= c <= 122 {
        Some((c - 97 + 26) as u8)
    } else if 48 <= c <= 57 {
        Some((c - 48 + 52) as u8)
    } else if c == 43 {
        Some(62)
    } else if c == 47 {
        Some(63)
    } else {
        None
    }
}

/// Bytes that the decoder passes over: `=` and ASCII whitespace
/// (space, tab, line feed, form feed, carriage return).
pub open spec fn skipped(c: u8) -> bool {
    c == 61 || c == 32 || c == 9 || c == 10 || c == 12 || c == 13
}

/// The 6-bit values of `bs` in order, or `None` where a byte is neither
/// skipped nor of the alphabet.
pub open spec fn sextets(bs: Seq<u8>) -> Option<Seq<u8>>
    decreases bs.len(),
{
    if bs.len() == 0 {
        Some(Seq::empty())
    } else {
        match sextets(bs.drop_last()) {
            None => None,
            Some(s) => if skipped(bs.last()) {
                Some(s)
            } else {
                match sextet(bs.last()) {
                    Some(v) => Some(s.push(v)),
                    None => None,
                }
            },
        }
    }
}

/// The bytes that the 6-bit values `sx` carry, eight bits each, in order;
/// bits that do not fill a byte at the end are dropped. Every value after
/// the first of a group of four completes one byte.
pub open spec fn out_bytes(sx: Seq<u8>) -> Seq<u8>
    decreases sx.len(),
{
    if sx.len() == 0 {
        Seq::empty()
    } else {
        let m = sx.len();
        let prev = out_bytes(sx.drop_last());
        let a = sx[m - 2];
        let b = sx[m - 1];
        if m % 4 == 1 {
            prev
        } else if m % 4 == 2 {
            prev.push(((a << 2u8) | (b >> 4u8)) as u8)
        } else if m % 4 == 3 {
            prev.push((((a & 15u8) << 4u8) | (b >> 2u8)) as u8)
        } else {
            prev.push((((a & 3u8) << 6u8) | b) as u8)
        }
    }
}

/// What `decode` gives for the bytes of its input.
pub open spec fn spec_decode(bs: Seq<u8>) -> Option<Seq<u8>> {
    match sextets(bs) {
        Some(sx) => Some(out_bytes(sx)),
        None => None,
    }
}

fn sextet_of(c: u8) -> (r: Option<u8>)
    ensures
        r == sextet(c),
{
    if 65 <= c && c <= 90 {
        Some(c - 65)
    } else if 97 <= c && c <= 122 {
        Some(c - 97 + 26)
    } else if 48 <= c && c <= 57 {
        Some(c - 48 + 52)
    } else if c == 43 {
        Some(62)
    } else if c == 47 {
        Some(63)
    } else {
        None
    }
}

proof fn lemma_sextets_none_stays(bs: Seq<u8>, i: int)
    requires
        0 <= i <= bs.len(),
        sextets(bs.take(i)) is None,
    ensures
        sextets(bs) is None,
    decreases bs.len() - i,
{
    if i < bs.len() {
        assert(bs.take(i + 1).drop_last() =~= bs.take(i));
        lemma_sextets_none_stays(bs, i + 1);
    } else {
        assert(bs.take(i) =~= bs);
    }
}

proof fn lemma_phase0(buf: u32, v: u8)
    requires
        v < 64,
    ensures
        ((buf << 6u32) | (v as u32)) & 63u32 == v as u32,
{
    assert(v < 64 ==> ((buf << 6u32) | (v as u32)) & 63u32 == v as u32) by (bit_vector);
}

proof fn lemma_phase1(buf: u32, s: u8, v: u8)
    requires
        s < 64,
        v < 64,
        buf & 63u32 == s as u32,
    ensures
        ((((buf << 6u32) | (v as u32)) >> 4u32) as u8) == (((s << 2u8) | (v >> 4u8)) as u8),
        ((buf << 6u32) | (v as u32)) & 15u32 == (v & 15u8) as u32,
{
    assert(s < 64 && v < 64 && buf & 63u32 == s as u32 ==> ((((buf << 6u32) | (v as u32)) >> 4u32)
        as u8) == (((s << 2u8) | (v >> 4u8)) as u8)) by (bit_vector);
    assert(v < 64 ==> ((buf << 6u32) | (v as u32)) & 15u32 == (v & 15u8) as u32) by (bit_vector);
}

proof fn lemma_phase2(buf: u32, s: u8, v: u8)
    requires
        s < 64,
        v < 64,
        buf & 15u32 == (s & 15u8) as u32,
    ensures
        ((((buf << 6u32) | (v as u32)) >> 2u32) as u8) == ((((s & 15u8) << 4u8) | (v >> 2u8)) as u8),
        ((buf << 6u32) | (v as u32)) & 3u32 == (v & 3u8) as u32,
{
    assert(s < 64 && v < 64 && buf & 15u32 == (s & 15u8) as u32 ==> ((((buf << 6u32) | (v as u32))
        >> 2u32) as u8) == ((((s & 15u8) << 4u8) | (v >> 2u8)) as u8)) by (bit_vector);
    assert(v < 64 ==> ((buf << 6u32) | (v as u32)) & 3u32 == (v & 3u8) as u32) by (bit_vector);
}

proof fn lemma_phase3(buf: u32, s: u8, v: u8)
    requires
        s < 64,
        v < 64,
        buf & 3u32 == (s & 3u8) as u32,
    ensures
        (((buf << 6u32) | (v as u32)) as u8) == ((((s & 3u8) << 6u8) | v) as u8),
{
    assert(s < 64 && v < 64 && buf & 3u32 == (s & 3u8) as u32 ==> (((buf << 6u32) | (v as u32))
        as u8) == ((((s & 3u8) << 6u8) | v) as u8)) by (bit_vector);
}

/// The bit-buffer state that the decoder keeps after the values `sx`.
pub open spec fn buffer_ok(sx: Seq<u8>, buf: u32, bits: u32) -> bool {
    let m = sx.len();
    &&& (forall|k: int| 0 <= k < m ==> #[trigger] sx[k] < 64)
    &&& (m % 4 == 0 ==> bits == 0)
    &&& (m % 4 == 1 ==> bits == 6 && buf & 63u32 == sx[m - 1] as u32)
    &&& (m % 4 == 2 ==> bits == 4 && buf & 15u32 == (sx[m - 1] & 15u8) as u32)
    &&& (m % 4 == 3 ==> bits == 2 && buf & 3u32 == (sx[m - 1] & 3u8) as u32)
}

/// Decodes standard base64; `None` where a byte is neither of the alphabet,
/// nor `=`, nor ASCII whitespace.
pub fn decode(input: &str) -> (r: Option<Vec<u8>>)
    ensures
        match r {
            Some(out) => spec_decode(input.spec_bytes()) == Some(out@),
            None => spec_decode(input.spec_bytes()) is None,
        },
{
    let bytes = input.as_bytes();
    let ghost bs = bytes@;
    let mut out: Vec<u8> = Vec::new();
    let mut buf: u32 = 0;
    let mut bits: u32 = 0;
    let ghost mut sx: Seq<u8> = Seq::empty();
    let mut i: usize = 0;
    assert(bs.take(0) =~= Seq::<u8>::empty());
    while i < bytes.len()
        invariant
            bs == bytes@,
            bs == input.spec_bytes(),
            i <= bs.len(),
            sextets(bs.take(i as int)) == Some(sx),
            out@ == out_bytes(sx),
            buffer_ok(sx, buf, bits),
        decreases bs.len() - i,
    {
        let c = bytes[i];
        assert(bs.take(i + 1).drop_last() =~= bs.take(i as int));
        assert(bs.take(i + 1).last() == c);
        if c == 61 || c == 32 || c == 9 || c == 10 || c == 12 || c == 13 {
            i += 1;
            continue;
        }
        let v = match sextet_of(c) {
            Some(v) => v,
            None => {
                proof {
                    lemma_sextets_none_stays(bs, i + 1);
                }
                return None;
            },
        };
        let ghost old_sx = sx;
        let ghost m = old_sx.len();
        proof {
            sx = old_sx.push(v);
            assert(sx.drop_last() =~= old_sx);
        }
        let nb: u32 = (buf << 6u32) | (v as u32);
        if bits == 0 {
            proof {
                lemma_phase0(buf, v);
            }
            buf = nb;
            bits = 6;
        } else if bits == 6 {
            proof {
                lemma_phase1(buf, old_sx[m - 1], v);
            }
            out.push((nb >> 4u32) as u8);
            buf = nb;
            bits = 4;
        } else if bits == 4 {
            proof {
                lemma_phase2(buf, old_sx[m - 1], v);
            }
            out.push((nb >> 2u32) as u8);
            buf = nb;
            bits = 2;
        } else {
            proof {
                lemma_phase3(buf, old_sx[m - 1], v);
            }
            out.push(nb as u8);
            buf = nb;
            bits = 0;
        }
        i += 1;
    }
    assert(bs.take(bs.len() as int) =~= bs);
    Some(out)
}


// ---------------------------------------------------------------------------
// Laws
// ---------------------------------------------------------------------------

proof fn lemma_sextets_concat(x: Seq<u8>, y: Seq<u8>)
    ensures
        sextets(x + y) == match (sextets(x), sextets(y)) {
            (Some(s), Some(t)) => Some(s + t),
            _ => None::<Seq<u8>>,
        },
    decreases y.len(),
{
    if y.len() == 0 {
        assert(x + y =~= x);
        match sextets(x) {
            Some(s) => assert(s + Seq::<u8>::empty() =~= s),
            None => {},
        }
    } else {
        lemma_sextets_concat(x, y.drop_last());
        assert((x + y).drop_last() =~= x + y.drop_last());
        assert((x + y).last() == y.last());
        match (sextets(x), sextets(y.drop_last())) {
            (Some(s), Some(t)) => {
                if !skipped(y.last()) {
                    match sextet(y.last()) {
                        Some(v) => assert(s + t.push(v) =~= (s + t).push(v)),
                        None => {},
                    }
                }
            },
            _ => {},
        }
    }
}

/// Decoding passes over `=` and ASCII whitespace wherever they stand:
/// taking one such byte out of the input changes nothing.
pub proof fn law_decode_skips(a: Seq<u8>, c: u8, b: Seq<u8>)
    requires
        skipped(c),
    ensures
        spec_decode(a + seq![c] + b) == spec_decode(a + b),
{
    lemma_sextets_concat(a, seq![c]);
    lemma_sextets_concat(a + seq![c], b);
    lemma_sextets_concat(a, b);
    assert(seq![c].drop_last() =~= Seq::<u8>::empty());
    assert(sextets(Seq::<u8>::empty()) == Some(Seq::<u8>::empty()));
    assert(sextets(seq![c].drop_last()) == Some(Seq::<u8>::empty()));
    assert(sextets(seq![c]) == Some(Seq::<u8>::empty()));
    match sextets(a) {
        Some(s) => assert(s + Seq::<u8>::empty() =~= s),
        None => {},
    }
}

proof fn lemma_out_len(sx: Seq<u8>)
    ensures
        out_bytes(sx).len() == (3 * sx.len()) / 4,
    decreases sx.len(),
{
    if sx.len() > 0 {
        lemma_out_len(sx.drop_last());
        let m = sx.len() as int;
        let q = (m - 1) / 4;
        let r = (m - 1) % 4;
        assert(m - 1 == 4 * q + r);
        assert((3 * (m - 1)) / 4 == 3 * q + (3 * r) / 4) by (nonlinear_arith)
            requires
                m - 1 == 4 * q + r,
                0 <= r < 4,
        ;
        assert((3 * m) / 4 == 3 * q + (3 * r + 3) / 4) by (nonlinear_arith)
            requires
                m - 1 == 4 * q + r,
                0 <= r < 4,
        ;
    }
}

/// Every four characters of the alphabet give three bytes; what is left
/// over gives its whole bytes: the output of a decodable input is three
/// quarters (rounded down) as long as its count of alphabet characters.
pub proof fn law_decode_length(bs: Seq<u8>)
    requires
        sextets(bs) is Some,
    ensures
        spec_decode(bs) is Some,
        spec_decode(bs).unwrap().len() == (3 * sextets(bs).unwrap().len()) / 4,
{
    lemma_out_len(sextets(bs).unwrap());
}

} // verus!
