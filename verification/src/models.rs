//! The model table and model-name resolution.
//!
//! Mode categories of the Gemini front end: 1 fast, 2 thinking, 3 pro,
//! 4 auto, 5 fast with dynamic thinking, 6 flash lite.
use vstd::prelude::*;
use crate::text::{chars_of, rfind, occurs_at, contains, spec_parse_i64, parse_i64, str_eq, string_of_range, concat2, owned, dec, dec_int, digit, digits_value, all_digits, is_digit};

verus! {

/// One model's request settings.
pub struct ModelCfg {
    pub mode: i64,
    pub think: i64,
    /// extra inner-payload fields as (index, value)
    pub extra: Option<Vec<(usize, i64)>>,
    pub desc: &'static str,
}

/// The model of a [`ModelCfg`].
pub struct ModelCfgV {
    pub mode: i64,
    pub think: i64,
    pub extra: Option<Seq<(usize, i64)>>,
    pub desc: Seq<char>,
}

pub open spec fn extra_view(e: Option<Vec<(usize, i64)>>) -> Option<Seq<(usize, i64)>> {
    match e {
        Some(v) => Some(v@),
        None => None,
    }
}

impl View for ModelCfg {
    type V = ModelCfgV;

    open spec fn view(&self) -> ModelCfgV {
        ModelCfgV { mode: self.mode, think: self.think, extra: extra_view(self.extra), desc: self.desc@ }
    }
}

pub open spec fn cfg(mode: i64, think: i64, extra: Option<Seq<(usize, i64)>>, desc: Seq<char>) -> ModelCfgV {
    ModelCfgV { mode, think, extra, desc }
}

/// The model table, in the order in which it is listed.
pub open spec fn model_table() -> Seq<(Seq<char>, ModelCfgV)> {
    seq![
        ("gemini-3.5-flash"@, cfg(1, 4, None, "Fast general-purpose model"@)),
        ("gemini-3.5-flash-thinking"@, cfg(2, 0, None, "Deep thinking mode, longest output (~20k chars)"@)),
        ("gemini-3.1-pro"@, cfg(3, 4, None, "Pro model (requires cookie for real routing)"@)),
        ("gemini-3.1-pro-enhanced"@, cfg(3, 4, Some(seq![(31usize, 2i64), (80usize, 3i64)]), "Pro with enhanced output (experimental)"@)),
        ("gemini-auto"@, cfg(4, 4, None, "Auto model selection"@)),
        ("gemini-3.5-flash-thinking-lite"@, cfg(5, 0, None, "Dynamic thinking with adaptive depth"@)),
        ("gemini-flash-lite"@, cfg(6, 4, None, "Lightweight fast model"@)),
    ]
}

fn entry(name: &'static str, mode: i64, think: i64, extra: Option<Vec<(usize, i64)>>, desc: &'static str) -> (r: (&'static str, ModelCfg))
    ensures
        r.0@ == name@,
        r.1@ == cfg(mode, think, extra_view(extra), desc@),
{
    (name, ModelCfg { mode, think, extra, desc })
}

/// The model table: (name, settings) pairs in their listed order.
pub fn models() -> (r: Vec<(&'static str, ModelCfg)>)
    ensures
        r@.len() == model_table().len(),
        forall|i: int| 0 <= i < r@.len() ==> (#[trigger] r@[i]).0@ == model_table()[i].0 && r@[i].1@ == model_table()[i].1,
{
    let mut v: Vec<(&'static str, ModelCfg)> = Vec::new();
    v.push(entry("gemini-3.5-flash", 1, 4, None, "Fast general-purpose model"));
    v.push(entry("gemini-3.5-flash-thinking", 2, 0, None, "Deep thinking mode, longest output (~20k chars)"));
    v.push(entry("gemini-3.1-pro", 3, 4, None, "Pro model (requires cookie for real routing)"));
    let mut ex: Vec<(usize, i64)> = Vec::new();
    ex.push((31, 2));
    ex.push((80, 3));
    assert(ex@ =~= seq![(31usize, 2i64), (80usize, 3i64)]);
    v.push(entry("gemini-3.1-pro-enhanced", 3, 4, Some(ex), "Pro with enhanced output (experimental)"));
    v.push(entry("gemini-auto", 4, 4, None, "Auto model selection"));
    v.push(entry("gemini-3.5-flash-thinking-lite", 5, 0, None, "Dynamic thinking with adaptive depth"));
    v.push(entry("gemini-flash-lite", 6, 4, None, "Lightweight fast model"));
    v
}

/// The settings of the first model named `name` in `table`.
pub open spec fn lookup_model(table: Seq<(Seq<char>, ModelCfgV)>, name: Seq<char>) -> Option<ModelCfgV>
    decreases table.len(),
{
    if table.len() == 0 {
        None
    } else if table[0].0 == name {
        Some(table[0].1)
    } else {
        lookup_model(table.drop_first(), name)
    }
}

/// The settings of the model named `name`, if it is in the table.
pub open spec fn spec_get_model(name: Seq<char>) -> Option<ModelCfgV> {
    lookup_model(model_table(), name)
}

/// A copy of `extra`.
fn copy_extra(e: &Option<Vec<(usize, i64)>>) -> (r: Option<Vec<(usize, i64)>>)
    ensures
        extra_view(r) == extra_view(*e),
{
    match e {
        Some(v) => {
            let mut c: Vec<(usize, i64)> = Vec::new();
            let mut i: usize = 0;
            while i < v.len()
                invariant
                    i <= v@.len(),
                    c@ == v@.take(i as int),
                decreases v@.len() - i,
            {
                c.push(v[i]);
                assert(v@.take(i + 1) =~= v@.take(i as int).push(v@[i as int]));
                i += 1;
            }
            assert(v@.take(v@.len() as int) =~= v@);
            Some(c)
        },
        None => None,
    }
}

/// The settings of the model named `name`.
pub fn get_model(name: &str) -> (r: Option<ModelCfg>)
    ensures
        match r {
            Some(c) => spec_get_model(name@) == Some(c@),
            None => spec_get_model(name@) is None,
        },
{
    let table = models();
    let ghost t = model_table();
    assert(t.skip(0) =~= t);
    let mut i: usize = 0;
    while i < table.len()
        invariant
            i <= table@.len(),
            table@.len() == t.len(),
            t == model_table(),
            forall|k: int| 0 <= k < table@.len() ==> (#[trigger] table@[k]).0@ == t[k].0 && table@[k].1@ == t[k].1,
            lookup_model(t, name@) == lookup_model(t.skip(i as int), name@),
        decreases table@.len() - i,
    {
        assert(t.skip(i as int)[0] == t[i as int]);
        if str_eq(table[i].0, name) {
            let c = &table[i].1;
            let extra = copy_extra(&c.extra);
            return Some(ModelCfg { mode: c.mode, think: c.think, extra, desc: c.desc });
        }
        assert(t.skip(i as int).drop_first() =~= t.skip(i + 1));
        i += 1;
    }
    None
}

/// The result of resolving a model name.
pub struct Resolved {
    pub name: String,
    pub mode: i64,
    pub think: i64,
    pub extra: Option<Vec<(usize, i64)>>,
}

/// The model of a [`Resolved`].
pub struct ResolvedV {
    pub name: Seq<char>,
    pub mode: i64,
    pub think: i64,
    pub extra: Option<Seq<(usize, i64)>>,
}

impl View for Resolved {
    type V = ResolvedV;

    open spec fn view(&self) -> ResolvedV {
        ResolvedV { name: self.name@, mode: self.mode, think: self.think, extra: extra_view(self.extra) }
    }
}

/// The marker that sets a thinking level after a model name.
pub open spec fn think_marker() -> Seq<char> {
    "@think="@
}

/// The start of the last occurrence of `p` in `s`.
pub open spec fn last_occurrence(s: Seq<char>, p: Seq<char>) -> Option<int> {
    if exists|i: int| occurs_at(s, p, i) && forall|j: int| i < j ==> !occurs_at(s, p, j) {
        Some(choose|i: int| occurs_at(s, p, i) && forall|j: int| i < j ==> !occurs_at(s, p, j))
    } else {
        None
    }
}

/// The settings that `name` resolves to: the named model where the table
/// has it, else the default model under the default's name.
pub open spec fn settings_for(base: Seq<char>, default: Seq<char>) -> (Seq<char>, ModelCfgV) {
    match spec_get_model(base) {
        Some(c) => (base, c),
        None => (default, spec_get_model(default).unwrap()),
    }
}

/// What resolving `name` gives: a trailing `@think=<n>` (its last
/// occurrence) overrides the model's thinking level and is taken off the
/// name; text after the marker that is not an `i64` is an error; an unknown
/// name falls back to `default`.
pub open spec fn spec_resolve_model(name: Seq<char>, default: Seq<char>) -> Result<ResolvedV, Seq<char>> {
    let m = think_marker();
    match last_occurrence(name, m) {
        Some(idx) => {
            let think_str = name.skip(idx + m.len());
            match spec_parse_i64(think_str) {
                Some(t) => {
                    let (n, c) = settings_for(name.take(idx), default);
                    Ok(ResolvedV { name: n, mode: c.mode, think: t, extra: c.extra })
                },
                None => Err("Invalid think level: "@ + think_str),
            }
        },
        None => {
            let (n, c) = settings_for(name, default);
            Ok(ResolvedV { name: n, mode: c.mode, think: c.think, extra: c.extra })
        },
    }
}

/// Resolving `name` falls back to the default model: its thinking suffix
/// (if any) is valid and the name without it is not in the table.
pub open spec fn needs_default(name: Seq<char>) -> bool {
    let m = think_marker();
    match last_occurrence(name, m) {
        Some(idx) => spec_parse_i64(name.skip(idx + m.len())) is Some && spec_get_model(name.take(idx)) is None,
        None => spec_get_model(name) is None,
    }
}

/// Resolves a model name to its settings.
///
/// Unknown names fall back to `default` rather than erroring; the default
/// itself must then be a model of the table.
pub fn resolve_model(model_name: &str, default: &str) -> (r: Result<Resolved, String>)
    requires
        needs_default(model_name@) ==> spec_get_model(default@) is Some,
    ensures
        match (r, spec_resolve_model(model_name@, default@)) {
            (Ok(res), Ok(s)) => res@ == s,
            (Err(e), Err(s)) => e@ == s,
            _ => false,
        },
{
    let chars = chars_of(model_name);
    let marker = chars_of("@think=");
    let ghost m = think_marker();
    let mut name = owned(model_name);
    let mut think_override: Option<i64> = None;
    match rfind(&chars, &marker) {
        Some(idx) => {
            proof {
                assert(occurs_at(model_name@, m, idx as int) && forall|j: int|
                    idx < j ==> !occurs_at(model_name@, m, j));
                let c = choose|i: int| occurs_at(model_name@, m, i) && forall|j: int| i < j ==> !occurs_at(model_name@, m, j);
                assert(c == idx as int) by {
                    if c < idx {
                        assert(!occurs_at(model_name@, m, idx as int));
                    } else if c > idx {
                        assert(!occurs_at(model_name@, m, c));
                    }
                }
            }
            let clen = chars.len();
            assert(idx + marker@.len() <= clen);
            let think_str = string_of_range(&chars, idx + marker.len(), clen);
            let base = string_of_range(&chars, 0, idx);
            assert(think_str@ =~= model_name@.skip(idx + m.len()));
            assert(base@ =~= model_name@.take(idx as int));
            match parse_i64(think_str.as_str()) {
                Some(v) => {
                    think_override = Some(v);
                    name = base;
                },
                None => {
                    return Err(concat2("Invalid think level: ", think_str.as_str()));
                },
            }
        },
        None => {},
    }
    let (name, c) = match get_model(name.as_str()) {
        Some(c) => (name, c),
        None => {
            let c = get_model(default);
            (owned(default), c.unwrap())
        },
    };
    let think = match think_override {
        Some(t) => t,
        None => c.think,
    };
    Ok(Resolved { name, mode: c.mode, think, extra: c.extra })
}


// ---------------------------------------------------------------------------
// Laws
// ---------------------------------------------------------------------------

/// A name that carries no `@think=` resolves to the table's settings for
/// it, or, where the table has no such model, to the default model's
/// settings under the default's name.
pub proof fn law_resolve_plain(name: Seq<char>, default: Seq<char>)
    requires
        spec_get_model(default) is Some,
        !contains(name, think_marker()),
    ensures
        spec_resolve_model(name, default) == Ok::<ResolvedV, Seq<char>>(match spec_get_model(name) {
            Some(c) => ResolvedV { name, mode: c.mode, think: c.think, extra: c.extra },
            None => {
                let d = spec_get_model(default).unwrap();
                ResolvedV { name: default, mode: d.mode, think: d.think, extra: d.extra }
            },
        }),
{
    assert(last_occurrence(name, think_marker()) is None);
}

proof fn lemma_dec_digits(n: nat)
    ensures
        dec(n).len() > 0,
        all_digits(dec(n)),
        digits_value(dec(n)) == n,
    decreases n,
{
    let r: nat = n % 10;
    assert((digit(r) as u32) == r + 48);
    if n >= 10 {
        lemma_dec_digits(n / 10);
        let d = dec(n);
        assert(d.drop_last() =~= dec(n / 10));
        assert(d.last() == digit(r));
        assert(digits_value(d) == digits_value(dec(n / 10)) * 10 + r);
        assert((n / 10) * 10 + r == n);
        assert(digits_value(dec(n / 10)) == n / 10);
        assert(digits_value(d) == n);
        assert forall|i: int| 0 <= i < d.len() implies is_digit(#[trigger] d[i]) by {
            if i < d.len() - 1 {
                assert(d[i] == dec(n / 10)[i]);
            }
        }
    } else {
        let d = dec(n);
        assert(d.drop_last() =~= Seq::<char>::empty());
        assert(digits_value(d) == digits_value(d.drop_last()) * 10 + ((d.last() as u32) - 48) as nat);
    }
}

proof fn lemma_parse_dec_int(t: i64)
    ensures
        spec_parse_i64(dec_int(t as int)) == Some(t),
{
    let s = dec_int(t as int);
    if t < 0 {
        let m: nat = (-(t as int)) as nat;
        lemma_dec_digits(m);
        assert(s.drop_first() =~= dec(m));
    } else {
        lemma_dec_digits(t as nat);
        assert(dec(t as nat)[0] != '-' && dec(t as nat)[0] != '+');
    }
}

/// `name@think=<t>`, with `t` written in decimal, resolves as `name` alone
/// would (the table's model or the default) with thinking level `t`.
pub proof fn law_resolve_think(base: Seq<char>, t: i64, default: Seq<char>)
    requires
        spec_get_model(default) is Some,
    ensures
        spec_resolve_model(base + think_marker() + dec_int(t as int), default) == Ok::<ResolvedV, Seq<char>>({
            let (n, c) = settings_for(base, default);
            ResolvedV { name: n, mode: c.mode, think: t, extra: c.extra }
        }),
{
    reveal_strlit("@think=");
    let m = think_marker();
    let d = dec_int(t as int);
    let s = base + m + d;
    let k = base.len() as int;
    lemma_parse_dec_int(t);
    if t < 0 {
        lemma_dec_digits((-(t as int)) as nat);
    } else {
        lemma_dec_digits(t as nat);
    }
    assert(forall|i: int| 0 <= i < d.len() ==> d[i] != '@') by {
        assert forall|i: int| 0 <= i < d.len() implies d[i] != '@' by {
            if t < 0 {
                if i > 0 {
                    assert(d[i] == dec((-(t as int)) as nat)[i - 1]);
                    assert(is_digit(dec((-(t as int)) as nat)[i - 1]));
                }
            } else {
                assert(is_digit(dec(t as nat)[i]));
            }
        }
    }
    assert(s.subrange(k, k + m.len()) =~= m);
    assert(occurs_at(s, m, k));
    assert forall|j: int| k < j implies !occurs_at(s, m, j) by {
        if occurs_at(s, m, j) {
            assert(s.subrange(j, j + m.len())[0] == '@');
            assert(s[j] == '@');
            if j < k + m.len() {
                assert(s[j] == m[j - k]);
            } else {
                assert(s[j] == d[j - k - m.len()]);
            }
        }
    }
    let c = choose|i: int| occurs_at(s, m, i) && forall|j: int| i < j ==> !occurs_at(s, m, j);
    assert(c == k) by {
        if c < k {
            assert(!occurs_at(s, m, k));
        }
        if c > k {
            assert(!occurs_at(s, m, c));
        }
    }
    assert(s.skip(k + m.len()) =~= d);
    assert(s.take(k) =~= base);
}

} // verus!
