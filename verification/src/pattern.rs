//! Regular-expression matching, done by the `regex` crate.
use vstd::prelude::*;
use crate::text::views;

verus! {

/// What `Regex::new(pattern)` and then `replace_all(text, "")` give: `text`
/// with every non-overlapping match removed; `None` where `pattern` does
/// not compile.
pub uninterp spec fn spec_regex_remove_all(pattern: Seq<char>, text: Seq<char>) -> Option<Seq<char>>;

/// What `Regex::new(pattern)` and then `captures_iter(text)` give: for each
/// match in order, the text of capture group 1 where it took part; `None`
/// where `pattern` does not compile.
pub uninterp spec fn spec_regex_group1(pattern: Seq<char>, text: Seq<char>) -> Option<Seq<Option<Seq<char>>>>;

pub open spec fn opt_strings_view(v: Option<Vec<Option<String>>>) -> Option<Seq<Option<Seq<char>>>> {
    match v {
        Some(items) => Some(items@.map_values(|o: Option<String>| match o {
            Some(s) => Some(s@),
            None => None,
        })),
        None => None,
    }
}

/// `Regex::new(pattern)` then `replace_all(text, "")`; the result is named
/// by [`spec_regex_remove_all`] and nothing more is stated of it.
#[verifier::external_body]
pub(crate) fn regex_remove_all(pattern: &str, text: &str) -> (r: Option<String>)
    ensures
        match r {
            Some(s) => spec_regex_remove_all(pattern@, text@) == Some(s@),
            None => spec_regex_remove_all(pattern@, text@) is None,
        },
{
    regex::Regex::new(pattern).ok().map(|re| re.replace_all(text, "").into_owned())
}

/// `Regex::new(pattern)` then `captures_iter(text)`, keeping the text of
/// group 1 of each match; the result is named by [`spec_regex_group1`] and
/// nothing more is stated of it.
#[verifier::external_body]
pub(crate) fn regex_group1(pattern: &str, text: &str) -> (r: Option<Vec<Option<String>>>)
    ensures
        opt_strings_view(r) == spec_regex_group1(pattern@, text@),
{
    regex::Regex::new(pattern).ok().map(
        |re| re.captures_iter(text).map(|c| c.get(1).map(|m| m.as_str().to_string())).collect(),
    )
}

/// `text` with every match of `pattern` removed; `text` itself where the
/// pattern does not compile.
pub open spec fn remove_matches(pattern: Seq<char>, text: Seq<char>) -> Seq<char> {
    match spec_regex_remove_all(pattern, text) {
        Some(r) => r,
        None => text,
    }
}

/// The group-1 texts of the matches of `pattern` in `text`, in order,
/// leaving out matches where the group did not take part; nothing where the
/// pattern does not compile.
pub open spec fn group1_texts(pattern: Seq<char>, text: Seq<char>) -> Seq<Seq<char>> {
    match spec_regex_group1(pattern, text) {
        Some(gs) => present(gs),
        None => Seq::empty(),
    }
}

/// The present values of `gs`, in order.
pub open spec fn present(gs: Seq<Option<Seq<char>>>) -> Seq<Seq<char>>
    decreases gs.len(),
{
    if gs.len() == 0 {
        Seq::empty()
    } else {
        match gs.last() {
            Some(g) => present(gs.drop_last()).push(g),
            None => present(gs.drop_last()),
        }
    }
}

/// `text` with every match of `pattern` removed.
pub fn remove_all(pattern: &str, text: &str) -> (r: String)
    ensures
        r@ == remove_matches(pattern@, text@),
{
    match regex_remove_all(pattern, text) {
        Some(s) => s,
        None => text.to_owned(),
    }
}

/// The group-1 texts of the matches of `pattern` in `text`, in order.
pub fn captures_group1(pattern: &str, text: &str) -> (r: Vec<String>)
    ensures
        views(r@) == group1_texts(pattern@, text@),
{
    match regex_group1(pattern, text) {
        Some(gs) => {
            let ghost gv = gs@.map_values(|o: Option<String>| match o {
                Some(s) => Some(s@),
                None => None,
            });
            let mut out: Vec<String> = Vec::new();
            let mut i: usize = 0;
            while i < gs.len()
                invariant
                    i <= gs@.len(),
                    gv == gs@.map_values(|o: Option<String>| match o {
                        Some(s) => Some(s@),
                        None => None,
                    }),
                    views(out@) == present(gv.take(i as int)),
                decreases gs@.len() - i,
            {
                assert(gv.take(i + 1).drop_last() =~= gv.take(i as int));
                match &gs[i] {
                    Some(g) => {
                        out.push(g.clone());
                        assert(views(out@) =~= present(gv.take(i as int)).push(g@));
                    },
                    None => {},
                }
                i += 1;
            }
            assert(gv.take(gs@.len() as int) =~= gv);
            out
        },
        None => {
            let out: Vec<String> = Vec::new();
            assert(views(out@) =~= Seq::<Seq<char>>::empty());
            out
        },
    }
}

} // verus!
