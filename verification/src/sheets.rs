//! The results spreadsheet: where rows are appended and which tabs have
//! to be created.

use vstd::prelude::*;

use crate::text::owned;

verus! {

/// The A1 range rows of a tab are appended at: `<tab>!A1`.
pub fn append_range(tab: &str) -> (r: String)
    ensures
        r@ == tab@ + "!A1"@,
{
    let mut s = owned(tab);
    s.append("!A1");
    s
}

/// The wanted tabs that the spreadsheet does not have yet, in the order
/// they are wanted.
pub open spec fn spec_missing_tabs(existing: Seq<Seq<char>>, wanted: Seq<Seq<char>>) -> Seq<
    Seq<char>,
>
    decreases wanted.len(),
{
    if wanted.len() == 0 {
        Seq::empty()
    } else {
        let rest = spec_missing_tabs(existing, wanted.drop_last());
        if existing.contains(wanted.last()) {
            rest
        } else {
            rest.push(wanted.last())
        }
    }
}

/// The texts of a list of strings.
pub open spec fn tab_texts(v: Seq<String>) -> Seq<Seq<char>> {
    v.map_values(|s: String| s@)
}

/// The wanted tab names that are not among the existing ones.
pub fn missing_tabs(existing: &Vec<String>, wanted: &Vec<String>) -> (r: Vec<String>)
    ensures
        tab_texts(r@) == spec_missing_tabs(tab_texts(existing@), tab_texts(wanted@)),
{
    let ghost ex = tab_texts(existing@);
    let mut out: Vec<String> = Vec::new();
    let n = wanted.len();
    for i in 0..n
        invariant
            n == wanted@.len(),
            ex == tab_texts(existing@),
            tab_texts(out@) == spec_missing_tabs(ex, tab_texts(wanted@.take(i as int))),
    {
        let w = &wanted[i];
        let mut found = false;
        let m = existing.len();
        for j in 0..m
            invariant
                m == existing@.len(),
                ex == tab_texts(existing@),
                found == exists|k: int| 0 <= k < j && ex[k] == w@,
        {
            proof {
                assert(ex[j as int] == existing@[j as int]@);
            }
            let same = existing[j] == *w;
            if same {
                found = true;
            }
            proof {
                if same {
                    assert(ex[j as int] == w@);
                }
                assert((exists|k: int| 0 <= k < j + 1 && ex[k] == w@) == ((exists|k: int|
                    0 <= k < j && ex[k] == w@) || ex[j as int] == w@));
            }
        }
        proof {
            let wt = tab_texts(wanted@.take(i + 1));
            assert(wt.drop_last() =~= tab_texts(wanted@.take(i as int)));
            assert(wt.last() == w@);
            if found {
                let k = choose|k: int| 0 <= k < m && ex[k] == w@;
                assert(ex.contains(w@));
            } else {
                assert(!ex.contains(w@));
            }
        }
        if !found {
            let ghost before = out@;
            out.push(w.clone());
            proof {
                assert(tab_texts(out@) =~= tab_texts(before).push(w@));
            }
        }
    }
    proof {
        assert(wanted@.take(n as int) =~= wanted@);
    }
    out
}

/// After the missing tabs are added, every wanted tab exists, and none of
/// the added ones existed before.
pub proof fn lemma_missing_tabs_complete(existing: Seq<Seq<char>>, wanted: Seq<Seq<char>>)
    ensures
        forall|i: int|
            0 <= i < wanted.len() ==> existing.contains(#[trigger] wanted[i])
                || spec_missing_tabs(existing, wanted).contains(wanted[i]),
        forall|i: int|
            0 <= i < spec_missing_tabs(existing, wanted).len() ==> !existing.contains(
                #[trigger] spec_missing_tabs(existing, wanted)[i],
            ),
    decreases wanted.len(),
{
    if wanted.len() > 0 {
        let p = wanted.drop_last();
        lemma_missing_tabs_complete(existing, p);
        let rest = spec_missing_tabs(existing, p);
        let w = wanted.last();
        assert forall|i: int| 0 <= i < wanted.len() implies existing.contains(#[trigger] wanted[i])
            || spec_missing_tabs(existing, wanted).contains(wanted[i]) by {
            if i < wanted.len() - 1 {
                assert(wanted[i] == p[i]);
                if !existing.contains(p[i]) {
                    let k = choose|k: int| 0 <= k < rest.len() && rest[k] == p[i];
                    if !existing.contains(w) {
                        assert(rest.push(w)[k] == p[i]);
                    }
                }
            } else if !existing.contains(w) {
                assert(rest.push(w)[rest.len() as int] == w);
            }
        }
        if !existing.contains(w) {
            assert forall|i: int| 0 <= i < rest.push(w).len() implies !existing.contains(
                #[trigger] rest.push(w)[i],
            ) by {
                if i < rest.len() {
                    assert(rest.push(w)[i] == rest[i]);
                }
            }
        }
    }
}

} // verus!
