//! Text utilities over character sequences: building strings, trimming,
//! searching, joining, and decimal and hexadecimal rendering.
use vstd::prelude::*;

verus! {

// ---------------------------------------------------------------------------
// Thin std helpers
// ---------------------------------------------------------------------------

/// `String::push`: appends one character.
#[verifier::external_body]
pub(crate) fn push_char(s: &mut String, c: char)
    ensures
        final(s)@ == old(s)@.push(c),
{
    s.push(c);
}

/// `str::chars` collected into a vector: the characters of `s` in order.
#[verifier::external_body]
pub(crate) fn chars_of(s: &str) -> (r: Vec<char>)
    ensures
        r@ == s@,
{
    s.chars().collect()
}

/// `==` on string slices: equal exactly when the characters are equal.
#[verifier::external_body]
pub(crate) fn str_eq(a: &str, b: &str) -> (r: bool)
    ensures
        r == (a@ == b@),
{
    a == b
}

/// A new string holding a copy of `s`.
pub fn owned(s: &str) -> (r: String)
    ensures
        r@ == s@,
{
    s.to_owned()
}

/// The characters `v[lo..hi]` as a string.
pub fn string_of_range(v: &Vec<char>, lo: usize, hi: usize) -> (r: String)
    requires
        lo <= hi <= v@.len(),
    ensures
        r@ == v@.subrange(lo as int, hi as int),
{
    let mut r = String::new();
    let mut i: usize = lo;
    while i < hi
        invariant
            lo <= i <= hi <= v@.len(),
            r@ == v@.subrange(lo as int, i as int),
        decreases hi - i,
    {
        push_char(&mut r, v[i]);
        assert(v@.subrange(lo as int, i + 1) =~= v@.subrange(lo as int, i as int).push(v@[i as int]));
        i += 1;
    }
    r
}

/// All the characters of `v` as a string.
pub fn string_of_chars(v: &Vec<char>) -> (r: String)
    ensures
        r@ == v@,
{
    let r = string_of_range(v, 0, v.len());
    assert(v@.subrange(0, v@.len() as int) =~= v@);
    r
}

/// `a` followed by `b`, as a new string.
pub fn concat2(a: &str, b: &str) -> (r: String)
    ensures
        r@ == a@ + b@,
{
    let mut r = a.to_owned();
    r.append(b);
    r
}

/// `a`, `b` and `c` in this order, as a new string.
pub fn concat3(a: &str, b: &str, c: &str) -> (r: String)
    ensures
        r@ == a@ + b@ + c@,
{
    let mut r = a.to_owned();
    r.append(b);
    r.append(c);
    r
}

// ---------------------------------------------------------------------------
// Whitespace and trimming
// ---------------------------------------------------------------------------

/// Unicode `White_Space`, the set that `char::is_whitespace` tests.
pub open spec fn is_ws(c: char) -> bool {
    let u: u32 = c as u32;
    ||| 0x09 <= u <= 0x0d
    ||| u == 0x20
    ||| u == 0x85
    ||| u == 0xa0
    ||| u == 0x1680
    ||| 0x2000 <= u <= 0x200a
    ||| u == 0x2028
    ||| u == 0x2029
    ||| u == 0x202f
    ||| u == 0x205f
    ||| u == 0x3000
}

pub fn is_whitespace(c: char) -> (r: bool)
    ensures
        r == is_ws(c),
{
    let u: u32 = c as u32;
    (0x09 <= u && u <= 0x0d) || u == 0x20 || u == 0x85 || u == 0xa0 || u == 0x1680 || (0x2000
        <= u && u <= 0x200a) || u == 0x2028 || u == 0x2029 || u == 0x202f || u == 0x205f || u
        == 0x3000
}

/// `s` without its leading whitespace.
pub open spec fn trim_start(s: Seq<char>) -> Seq<char>
    decreases s.len(),
{
    if s.len() > 0 && is_ws(s[0]) {
        trim_start(s.drop_first())
    } else {
        s
    }
}

/// `s` without its trailing whitespace.
pub open spec fn trim_end(s: Seq<char>) -> Seq<char>
    decreases s.len(),
{
    if s.len() > 0 && is_ws(s.last()) {
        trim_end(s.drop_last())
    } else {
        s
    }
}

/// `s` without leading and trailing whitespace, as `str::trim` gives it.
pub open spec fn trim(s: Seq<char>) -> Seq<char> {
    trim_end(trim_start(s))
}

/// Index of the first character of `v` at or after `from` that is not whitespace.
fn skip_ws_forward(v: &Vec<char>, from: usize) -> (r: usize)
    requires
        from <= v@.len(),
    ensures
        from <= r <= v@.len(),
        trim_start(v@.skip(from as int)) == v@.skip(r as int),
{
    let mut i: usize = from;
    while i < v.len() && is_whitespace(v[i])
        invariant
            from <= i <= v@.len(),
            trim_start(v@.skip(from as int)) == trim_start(v@.skip(i as int)),
        decreases v@.len() - i,
    {
        assert(v@.skip(i as int).drop_first() =~= v@.skip(i + 1));
        i += 1;
    }
    proof { r_skip_done(v@, i as int); }
    i
}

proof fn r_skip_done(s: Seq<char>, i: int)
    requires
        0 <= i <= s.len(),
        i == s.len() || !is_ws(s[i]),
    ensures
        trim_start(s.skip(i)) == s.skip(i),
{
    if i == s.len() {
        assert(s.skip(i).len() == 0);
    }
}

/// End of `v[lo..hi]` once its trailing whitespace is dropped.
fn skip_ws_backward(v: &Vec<char>, lo: usize, hi: usize) -> (r: usize)
    requires
        lo <= hi <= v@.len(),
    ensures
        lo <= r <= hi,
        trim_end(v@.subrange(lo as int, hi as int)) == v@.subrange(lo as int, r as int),
{
    let mut j: usize = hi;
    while j > lo && is_whitespace(v[j - 1])
        invariant
            lo <= j <= hi <= v@.len(),
            trim_end(v@.subrange(lo as int, hi as int)) == trim_end(v@.subrange(lo as int, j as int)),
        decreases j - lo,
    {
        assert(v@.subrange(lo as int, j as int).drop_last() =~= v@.subrange(lo as int, j - 1));
        j -= 1;
    }
    j
}

/// `str::trim`: the characters of `s` without leading or trailing whitespace.
pub fn trim_str(s: &str) -> (r: String)
    ensures
        r@ == trim(s@),
{
    let v = chars_of(s);
    let a: usize = skip_ws_forward(&v, 0);
    let b: usize = skip_ws_backward(&v, a, v.len());
    assert(v@.skip(0) =~= v@);
    assert(v@.skip(a as int) =~= v@.subrange(a as int, v@.len() as int));
    string_of_range(&v, a, b)
}

/// `str::trim_start`: the characters of `s` without leading whitespace.
pub fn trim_start_str(s: &str) -> (r: String)
    ensures
        r@ == trim_start(s@),
{
    let v = chars_of(s);
    let a: usize = skip_ws_forward(&v, 0);
    assert(v@.skip(0) =~= v@);
    assert(v@.skip(a as int) =~= v@.subrange(a as int, v@.len() as int));
    string_of_range(&v, a, v.len())
}

/// Whether `s` holds only whitespace (or nothing): `s.trim().is_empty()`.
pub fn is_blank(s: &str) -> (r: bool)
    ensures
        r == (trim(s@).len() == 0),
{
    let t = trim_str(s);
    t.as_str().is_empty()
}

// ---------------------------------------------------------------------------
// Searching
// ---------------------------------------------------------------------------

/// `p` occurs in `s` starting at index `i`.
pub open spec fn occurs_at(s: Seq<char>, p: Seq<char>, i: int) -> bool {
    0 <= i && i + p.len() <= s.len() && s.subrange(i, i + p.len()) == p
}

/// `p` occurs somewhere in `s`.
pub open spec fn contains(s: Seq<char>, p: Seq<char>) -> bool {
    exists|i: int| occurs_at(s, p, i)
}

/// `s` begins with `p`.
pub open spec fn starts_with(s: Seq<char>, p: Seq<char>) -> bool {
    p.is_prefix_of(s)
}

/// Whether `p` occurs in `s` at index `i`.
fn matches_at(s: &Vec<char>, p: &Vec<char>, i: usize) -> (r: bool)
    ensures
        r == occurs_at(s@, p@, i as int),
{
    if i > s.len() || p.len() > s.len() - i {
        return false;
    }
    let mut k: usize = 0;
    while k < p.len()
        invariant
            i + p.len() <= s.len(),
            s@.len() == s.len(),
            p@.len() == p.len(),
            k <= p@.len(),
            forall|m: int| 0 <= m < k ==> s@[i + m] == p@[m],
        decreases p@.len() - k,
    {
        if s[i + k] != p[k] {
            assert(s@.subrange(i as int, i + p@.len())[k as int] != p@[k as int]);
            return false;
        }
        k += 1;
    }
    assert(s@.subrange(i as int, i + p@.len()) =~= p@);
    true
}

/// The first index at or after `from` where `p` occurs in `s`.
pub fn find_from(s: &Vec<char>, p: &Vec<char>, from: usize) -> (r: Option<usize>)
    ensures
        match r {
            Some(i) => from <= i && occurs_at(s@, p@, i as int) && forall|j: int|
                from <= j < i ==> !occurs_at(s@, p@, j),
            None => forall|j: int| from <= j ==> !occurs_at(s@, p@, j),
        },
{
    if from > s.len() {
        return None;
    }
    let mut i: usize = from;
    while i < s.len()
        invariant
            from <= i <= s@.len(),
            forall|j: int| from <= j < i ==> !occurs_at(s@, p@, j),
        decreases s@.len() - i,
    {
        if matches_at(s, p, i) {
            return Some(i);
        }
        i += 1;
    }
    if matches_at(s, p, i) {
        return Some(i);
    }
    None
}

/// The last index where `p` occurs in `s`.
pub fn rfind(s: &Vec<char>, p: &Vec<char>) -> (r: Option<usize>)
    ensures
        match r {
            Some(i) => occurs_at(s@, p@, i as int) && forall|j: int|
                i < j ==> !occurs_at(s@, p@, j),
            None => forall|j: int| !occurs_at(s@, p@, j),
        },
{
    let mut i: usize = s.len();
    if matches_at(s, p, i) {
        return Some(i);
    }
    while i > 0
        invariant
            i <= s@.len(),
            forall|j: int| i <= j ==> !occurs_at(s@, p@, j),
        decreases i,
    {
        i -= 1;
        if matches_at(s, p, i) {
            return Some(i);
        }
    }
    None
}

/// Whether `p` occurs in `s`: `str::contains`.
pub fn contains_str(s: &str, p: &str) -> (r: bool)
    ensures
        r == contains(s@, p@),
{
    let sv = chars_of(s);
    let pv = chars_of(p);
    match find_from(&sv, &pv, 0) {
        Some(_) => true,
        None => false,
    }
}

/// Whether `s` begins with `p`: `str::starts_with`.
pub fn starts_with_str(s: &str, p: &str) -> (r: bool)
    ensures
        r == starts_with(s@, p@),
{
    let sv = chars_of(s);
    let pv = chars_of(p);
    let r = matches_at(&sv, &pv, 0);
    assert(occurs_at(s@, p@, 0) == starts_with(s@, p@));
    r
}

/// Whether `s` begins with the character `c`.
pub fn starts_with_char(s: &str, c: char) -> (r: bool)
    ensures
        r == (s@.len() > 0 && s@[0] == c),
{
    let v = chars_of(s);
    v.len() > 0 && v[0] == c
}

/// The first index where `p` occurs in `s`.
pub open spec fn first_occurrence(s: Seq<char>, p: Seq<char>) -> Option<int> {
    if exists|i: int| occurs_at(s, p, i) && forall|j: int| 0 <= j < i ==> !occurs_at(s, p, j) {
        Some(choose|i: int| occurs_at(s, p, i) && forall|j: int| 0 <= j < i ==> !occurs_at(s, p, j))
    } else {
        None
    }
}

/// The pieces of `s` between the non-overlapping occurrences of `sep`,
/// found from the left: `str::split(sep)` for a non-empty `sep`.
pub open spec fn split_str(s: Seq<char>, sep: Seq<char>) -> Seq<Seq<char>>
    decreases s.len(),
{
    match first_occurrence(s, sep) {
        Some(i) => if sep.len() > 0 && 0 <= i && i + sep.len() <= s.len() {
            seq![s.take(i)] + split_str(s.skip(i + sep.len()), sep)
        } else {
            seq![s]
        },
        None => seq![s],
    }
}

/// The first occurrence of `p` in `v` at or after `from`, as [`first_occurrence`]
/// of `v[from..]` gives it.
pub fn find_first_from(v: &Vec<char>, p: &Vec<char>, from: usize) -> (r: Option<usize>)
    requires
        from <= v@.len(),
    ensures
        match r {
            Some(i) => from <= i && first_occurrence(v@.skip(from as int), p@) == Some(i - from),
            None => first_occurrence(v@.skip(from as int), p@) is None,
        },
{
    let r = find_from(v, p, from);
    let ghost t = v@.skip(from as int);
    proof {
        assert forall|j: int| 0 <= j implies (#[trigger] occurs_at(t, p@, j) <==> occurs_at(v@, p@, j + from)) by {
            if 0 <= j && j + p@.len() <= t.len() {
                assert(t.subrange(j, j + p@.len()) =~= v@.subrange(j + from, j + from + p@.len()));
            }
        }
    }
    match r {
        Some(i) => {
            proof {
                let k = i - from;
                assert(occurs_at(t, p@, k));
                assert(forall|j: int| 0 <= j < k ==> !occurs_at(t, p@, j));
                let c = choose|c: int| occurs_at(t, p@, c) && forall|j: int| 0 <= j < c ==> !occurs_at(t, p@, j);
                assert(c == k) by {
                    if c < k {
                        assert(!occurs_at(t, p@, c));
                    } else if c > k {
                        assert(!occurs_at(t, p@, k));
                    }
                }
            }
            Some(i)
        },
        None => {
            proof {
                assert forall|j: int| !occurs_at(t, p@, j) by {
                    if 0 <= j && occurs_at(t, p@, j) {
                        assert(occurs_at(v@, p@, j + from));
                    }
                }
            }
            None
        },
    }
}

// ---------------------------------------------------------------------------
// Joining
// ---------------------------------------------------------------------------

/// The views of a sequence of strings.
pub open spec fn views(v: Seq<String>) -> Seq<Seq<char>> {
    v.map_values(|s: String| s@)
}

pub proof fn lemma_views_push(v: Seq<String>, s: String)
    ensures
        views(v.push(s)) == views(v).push(s@),
{
    assert(views(v.push(s)) =~= views(v).push(s@));
}

/// The elements of `list` with `sep` between each two: `[..].join(sep)`.
pub open spec fn join(list: Seq<Seq<char>>, sep: Seq<char>) -> Seq<char>
    decreases list.len(),
{
    if list.len() == 0 {
        Seq::empty()
    } else if list.len() == 1 {
        list[0]
    } else {
        join(list.drop_last(), sep) + sep + list.last()
    }
}

/// The non-empty elements of `list`, in order.
pub open spec fn non_empty(list: Seq<Seq<char>>) -> Seq<Seq<char>>
    decreases list.len(),
{
    if list.len() == 0 {
        list
    } else if list.last().len() == 0 {
        non_empty(list.drop_last())
    } else {
        non_empty(list.drop_last()).push(list.last())
    }
}

/// Keeping the non-empty elements of `[x] + rest` keeps `x` in front
/// where it is not empty.
pub proof fn lemma_non_empty_front(x: Seq<char>, rest: Seq<Seq<char>>)
    requires
        x.len() > 0,
    ensures
        non_empty(seq![x] + rest) == seq![x] + non_empty(rest),
    decreases rest.len(),
{
    if rest.len() == 0 {
        assert(seq![x] + rest =~= seq![x]);
        assert(seq![x].drop_last() =~= Seq::<Seq<char>>::empty());
        assert(non_empty(seq![x].drop_last()) =~= Seq::<Seq<char>>::empty());
        assert(non_empty(seq![x]) =~= seq![x]);
        assert(non_empty(rest) =~= Seq::<Seq<char>>::empty());
        assert(seq![x] + non_empty(rest) =~= seq![x]);
    } else {
        lemma_non_empty_front(x, rest.drop_last());
        let l = seq![x] + rest;
        assert(l.drop_last() =~= seq![x] + rest.drop_last());
        assert(l.last() == rest.last());
        if rest.last().len() > 0 {
            assert((seq![x] + non_empty(rest.drop_last())).push(rest.last()) =~= seq![x] + non_empty(rest.drop_last()).push(rest.last()));
        }
    }
}

/// Joining a list that starts with `x` gives a text that starts with `x`.
pub proof fn lemma_join_front(x: Seq<char>, rest: Seq<Seq<char>>, sep: Seq<char>)
    ensures
        join(seq![x] + rest, sep).len() >= x.len(),
        join(seq![x] + rest, sep).subrange(0, x.len() as int) == x,
    decreases rest.len(),
{
    let l = seq![x] + rest;
    if rest.len() == 0 {
        assert(l =~= seq![x]);
        assert(x.subrange(0, x.len() as int) =~= x);
    } else {
        lemma_join_front(x, rest.drop_last(), sep);
        assert(l.drop_last() =~= seq![x] + rest.drop_last());
        let j = join(l.drop_last(), sep);
        assert((j + sep + l.last()).subrange(0, x.len() as int) =~= j.subrange(0, x.len() as int));
    }
}

/// `list.join(sep)`.
pub fn join_strings(list: &Vec<String>, sep: &str) -> (r: String)
    ensures
        r@ == join(views(list@), sep@),
{
    let mut r = String::new();
    let mut i: usize = 0;
    while i < list.len()
        invariant
            i <= list@.len(),
            r@ == join(views(list@).take(i as int), sep@),
        decreases list@.len() - i,
    {
        let ghost before = views(list@).take(i as int);
        assert(views(list@).take(i + 1).drop_last() =~= before);
        if i > 0 {
            r.append(sep);
        } else {
            assert(views(list@).take(1) =~= seq![list@[0]@]);
        }
        r.append(list[i].as_str());
        i += 1;
    }
    assert(views(list@).take(list@.len() as int) =~= views(list@));
    r
}

/// Appends copies of the strings of `src` to `dst`.
pub fn extend_strings(dst: &mut Vec<String>, src: &Vec<String>)
    ensures
        views(final(dst)@) == views(old(dst)@) + views(src@),
{
    let ghost before = views(dst@);
    let mut j: usize = 0;
    while j < src.len()
        invariant
            j <= src@.len(),
            views(dst@) == before + views(src@).take(j as int),
            before == views(old(dst)@),
        decreases src@.len() - j,
    {
        let ghost prev = dst@;
        dst.push(src[j].clone());
        assert(views(dst@) =~= views(prev).push(src@[j as int]@));
        assert(views(dst@) =~= before + views(src@).take(j + 1));
        j += 1;
    }
    assert(views(src@).take(src@.len() as int) =~= views(src@));
}

/// The number of bytes in the UTF-8 encoding of `s`: `str::len`.
pub fn byte_len(s: &str) -> (r: usize)
    ensures
        r as nat == vstd::utf8::encode_utf8(s@).len(),
{
    s.as_bytes().len()
}

/// The non-empty strings of `list`, in order.
pub fn keep_non_empty(list: &Vec<String>) -> (r: Vec<String>)
    ensures
        views(r@) == non_empty(views(list@)),
{
    let mut r: Vec<String> = Vec::new();
    let mut i: usize = 0;
    while i < list.len()
        invariant
            i <= list@.len(),
            views(r@) == non_empty(views(list@).take(i as int)),
        decreases list@.len() - i,
    {
        assert(views(list@).take(i + 1).drop_last() =~= views(list@).take(i as int));
        if !list[i].as_str().is_empty() {
            r.push(list[i].clone());
            assert(views(r@) =~= non_empty(views(list@).take(i as int)).push(list@[i as int]@));
        }
        i += 1;
    }
    assert(views(list@).take(list@.len() as int) =~= views(list@));
    r
}

/// `list.filter(non-empty).join(sep)`.
pub fn join_non_empty(list: &Vec<String>, sep: &str) -> (r: String)
    ensures
        r@ == join(non_empty(views(list@)), sep@),
{
    let kept = keep_non_empty(list);
    join_strings(&kept, sep)
}

// ---------------------------------------------------------------------------
// Numbers
// ---------------------------------------------------------------------------

/// The ASCII digit for `d < 10`.
pub open spec fn digit(d: nat) -> char {
    ((d + 48) as u8) as char
}

/// The decimal digits of `n`, without leading zeros.
pub open spec fn dec(n: nat) -> Seq<char>
    decreases n,
{
    if n < 10 {
        seq![digit(n)]
    } else {
        dec(n / 10).push(digit(n % 10))
    }
}

/// The decimal text of a signed integer, with `-` before a negative one.
pub open spec fn dec_int(n: int) -> Seq<char> {
    if n < 0 {
        seq!['-'] + dec((-n) as nat)
    } else {
        dec(n as nat)
    }
}

/// Two decimal digits, with a leading zero below ten (the `{:02}` format).
pub open spec fn pad2(n: nat) -> Seq<char> {
    if n < 10 {
        seq!['0'] + dec(n)
    } else {
        dec(n)
    }
}

fn digit_char(d: u64) -> (c: char)
    requires
        d < 10,
    ensures
        c == digit(d as nat),
{
    ((d as u8) + 48u8) as char
}

/// Appends the decimal digits of `n` to `out`.
pub fn push_dec(out: &mut String, n: u64)
    ensures
        final(out)@ == old(out)@ + dec(n as nat),
    decreases n,
{
    if n >= 10 {
        push_dec(out, n / 10);
    }
    push_char(out, digit_char(n % 10));
}

/// The decimal text of `n`: `n.to_string()`.
pub fn u64_to_string(n: u64) -> (r: String)
    ensures
        r@ == dec(n as nat),
{
    let mut r = String::new();
    push_dec(&mut r, n);
    r
}

/// The decimal text of `n`: `n.to_string()`.
pub fn i64_to_string(n: i64) -> (r: String)
    ensures
        r@ == dec_int(n as int),
{
    let mut r = String::new();
    if n < 0 {
        push_char(&mut r, '-');
        let m: u64 = if n == i64::MIN {
            9223372036854775808u64
        } else {
            (-n) as u64
        };
        push_dec(&mut r, m);
    } else {
        push_dec(&mut r, n as u64);
    }
    r
}

/// `format!("{:02}", n)`.
pub fn push_pad2(out: &mut String, n: u64)
    ensures
        final(out)@ == old(out)@ + pad2(n as nat),
{
    if n < 10 {
        push_char(out, '0');
        push_dec(out, n);
        assert(old(out)@.push('0') + dec(n as nat) =~= old(out)@ + (seq!['0'] + dec(n as nat)));
    } else {
        push_dec(out, n);
    }
}

/// The value of a non-empty run of ASCII digits.
pub open spec fn digits_value(s: Seq<char>) -> nat
    decreases s.len(),
{
    if s.len() == 0 {
        0
    } else {
        digits_value(s.drop_last()) * 10 + ((s.last() as u32) - 48) as nat
    }
}

pub open spec fn is_digit(c: char) -> bool {
    '0' <= c && c <= '9'
}

pub open spec fn all_digits(s: Seq<char>) -> bool {
    forall|i: int| 0 <= i < s.len() ==> is_digit(#[trigger] s[i])
}

/// What `str::parse::<i64>` gives: an optional `+` or `-`, then one or more
/// ASCII digits, and a value within the range of `i64`.
pub open spec fn spec_parse_i64(s: Seq<char>) -> Option<i64> {
    let neg = s.len() > 0 && s[0] == '-';
    let body = if s.len() > 0 && (s[0] == '-' || s[0] == '+') {
        s.drop_first()
    } else {
        s
    };
    if body.len() == 0 || !all_digits(body) {
        None
    } else {
        let v: int = if neg {
            -(digits_value(body) as int)
        } else {
            digits_value(body) as int
        };
        if i64::MIN <= v <= i64::MAX {
            Some(v as i64)
        } else {
            None
        }
    }
}

/// `s.parse::<i64>().ok()`.
pub fn parse_i64(s: &str) -> (r: Option<i64>)
    ensures
        r == spec_parse_i64(s@),
{
    let v = chars_of(s);
    let neg = v.len() > 0 && v[0] == '-';
    let start: usize = if v.len() > 0 && (v[0] == '-' || v[0] == '+') {
        1
    } else {
        0
    };
    let ghost body = if v@.len() > 0 && (v@[0] == '-' || v@[0] == '+') {
        v@.drop_first()
    } else {
        v@
    };
    assert(body =~= v@.skip(start as int));
    if start == v.len() {
        return None;
    }
    let cap: u128 = 9223372036854775809u128;
    let mut acc: u128 = 0;
    let mut i: usize = start;
    while i < v.len()
        invariant
            start <= i <= v@.len(),
            v@ == s@,
            neg == (v@.len() > 0 && v@[0] == '-'),
            body == (if v@.len() > 0 && (v@[0] == '-' || v@[0] == '+') {
                v@.drop_first()
            } else {
                v@
            }),
            body == v@.skip(start as int),
            cap == 9223372036854775809u128,
            all_digits(v@.subrange(start as int, i as int)),
            acc == if digits_value(v@.subrange(start as int, i as int)) < cap {
                digits_value(v@.subrange(start as int, i as int))
            } else {
                cap as nat
            },
        decreases v@.len() - i,
    {
        let c: char = v[i];
        if c < '0' || c > '9' {
            assert(body[i - start] == c);
            assert(!is_digit(body[i - start]));
            assert(!all_digits(body));
            assert(v@ == s@);
            return None;
        }
        let d: u128 = (c as u32 - 48) as u128;
        let ghost pre = v@.subrange(start as int, i as int);
        let ghost post = v@.subrange(start as int, i + 1);
        assert(post.drop_last() =~= pre);
        assert(post.last() == c);
        assert(digits_value(post) == digits_value(pre) * 10 + d);
        if acc > cap / 10 {
            acc = cap;
        } else {
            acc = acc * 10 + d;
            if acc > cap {
                acc = cap;
            }
        }
        assert(all_digits(post)) by {
            assert forall|k: int| 0 <= k < i + 1 - start implies is_digit(#[trigger] post[k]) by {
                if k < i - start {
                    assert(post[k] == pre[k]);
                }
            }
        }
        i += 1;
    }
    assert(v@.subrange(start as int, v@.len() as int) =~= body);
    if neg {
        if acc <= 9223372036854775808u128 {
            if acc == 9223372036854775808u128 {
                Some(i64::MIN)
            } else {
                Some(-(acc as i64))
            }
        } else {
            None
        }
    } else {
        if acc <= 9223372036854775807u128 {
            Some(acc as i64)
        } else {
            None
        }
    }
}

/// Two lower-case hexadecimal digits per byte, as `hex::encode` renders them.
pub open spec fn hex_digit(d: nat) -> char {
    if d < 10 {
        ((d + 48) as u8) as char
    } else {
        ((d + 87) as u8) as char
    }
}

pub open spec fn hex_lower(bytes: Seq<u8>) -> Seq<char>
    decreases bytes.len(),
{
    if bytes.len() == 0 {
        Seq::empty()
    } else {
        hex_lower(bytes.drop_last()).push(hex_digit((bytes.last() / 16) as nat)).push(
            hex_digit((bytes.last() % 16) as nat),
        )
    }
}

fn hex_char(d: u8) -> (c: char)
    requires
        d < 16,
    ensures
        c == hex_digit(d as nat),
{
    if d < 10 {
        (d + 48u8) as char
    } else {
        (d + 87u8) as char
    }
}

/// Lower-case hexadecimal text of `bytes`.
pub fn hex_encode(bytes: &Vec<u8>) -> (r: String)
    ensures
        r@ == hex_lower(bytes@),
{
    let mut r = String::new();
    let mut i: usize = 0;
    while i < bytes.len()
        invariant
            i <= bytes@.len(),
            r@ == hex_lower(bytes@.take(i as int)),
        decreases bytes@.len() - i,
    {
        let b: u8 = bytes[i];
        assert(bytes@.take(i + 1).drop_last() =~= bytes@.take(i as int));
        push_char(&mut r, hex_char(b / 16));
        push_char(&mut r, hex_char(b % 16));
        i += 1;
    }
    assert(bytes@.take(bytes@.len() as int) =~= bytes@);
    r
}

} // verus!
