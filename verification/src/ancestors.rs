//! Lexical ancestor (breadcrumb) chains.
//!
//! Ancestors are derived from the path text alone — no filesystem check is
//! made, so an ancestor may well not exist. A path is a `'/'`-separated
//! string; the chain walks from the path up to the topmost level and is
//! returned root-first. Each level is labelled with its final component plus
//! a trailing separator, except the topmost entry, whose label is the path
//! itself unmodified.

use vstd::prelude::*;
use crate::text::{chars_of, string_of};
use vstd::string::StringExecFns;

verus! {

/// The index of the last `'/'` in `s`, or `-1` when there is none.
pub open spec fn last_sep_index(s: Seq<char>) -> int
    decreases s.len(),
{
    if s.len() == 0 {
        -1
    } else if s[s.len() - 1] == '/' {
        s.len() - 1
    } else {
        last_sep_index(s.drop_last())
    }
}

pub proof fn lemma_last_sep_index_bounds(s: Seq<char>)
    ensures
        -1 <= last_sep_index(s) < s.len(),
        last_sep_index(s) >= 0 ==> s[last_sep_index(s)] == '/',
    decreases s.len(),
{
    if s.len() > 0 && s[s.len() - 1] != '/' {
        lemma_last_sep_index_bounds(s.drop_last());
    }
}

/// The lexical parent of a path: the text up to (but not including) the last
/// separator, except that the parent of a path directly under the root is
/// the root `"/"` itself. The root and any separator-free path have no
/// parent.
pub open spec fn parent_view(s: Seq<char>) -> Option<Seq<char>> {
    let i = last_sep_index(s);
    if i < 0 {
        None
    } else if i == 0 {
        if s.len() <= 1 {
            None
        } else {
            Some(seq!['/'])
        }
    } else {
        Some(s.take(i))
    }
}

pub proof fn lemma_parent_shorter(s: Seq<char>)
    ensures
        parent_view(s) matches Some(p) ==> p.len() < s.len(),
{
    lemma_last_sep_index_bounds(s);
}

/// The breadcrumb label of one level: the final path component with a
/// trailing separator, or the path itself where it has no parent.
pub open spec fn label_view(s: Seq<char>) -> Seq<char> {
    match parent_view(s) {
        None => s,
        Some(_) => s.skip(last_sep_index(s) + 1) + seq!['\\'],
    }
}

/// The chain of ancestors of a path, the path itself included, ordered
/// root-first.
pub open spec fn ancestors_view(s: Seq<char>) -> Seq<Seq<char>>
    decreases s.len(),
    via ancestors_view_decreases
{
    match parent_view(s) {
        None => seq![s],
        Some(p) => ancestors_view(p).push(s),
    }
}

#[via_fn]
proof fn ancestors_view_decreases(s: Seq<char>) {
    lemma_parent_shorter(s);
}

pub proof fn lemma_no_sep_means_none(s: Seq<char>)
    requires
        last_sep_index(s) == -1,
    ensures
        forall|i: int| 0 <= i < s.len() ==> s[i] != '/',
    decreases s.len(),
{
    if s.len() > 0 {
        lemma_no_sep_means_none(s.drop_last());
        assert(forall|i: int|
            0 <= i < s.len() - 1 ==> s[i] == s.drop_last()[i] && s.drop_last()[i] != '/');
    }
}

/// The chain of any path has at least one level, and its final level is the
/// path itself.
pub proof fn lemma_ancestors_last(s: Seq<char>)
    ensures
        ancestors_view(s).len() >= 1,
        ancestors_view(s).last() == s,
{
}

/// Law: for an absolute path the ancestor chain is ordered root-first: its
/// first level is the filesystem root, its final level is the path itself,
/// and each level is the lexical parent of the one after it.
pub proof fn lemma_ancestors_root_first(s: Seq<char>)
    requires
        s.len() >= 1,
        s[0] == '/',
    ensures
        ancestors_view(s).len() >= 1,
        ancestors_view(s)[0] == seq!['/'],
        ancestors_view(s).last() == s,
        forall|i: int|
            0 <= i < ancestors_view(s).len() - 1 ==> parent_view(
                #[trigger] ancestors_view(s)[i + 1],
            ) == Some(ancestors_view(s)[i]),
    decreases s.len(),
{
    lemma_last_sep_index_bounds(s);
    match parent_view(s) {
        None => {
            if last_sep_index(s) == -1 {
                lemma_no_sep_means_none(s);
                assert(false);
            }
            assert(s =~= seq!['/']);
        },
        Some(p) => {
            lemma_parent_shorter(s);
            assert(p.len() >= 1 && p[0] == '/');
            lemma_ancestors_root_first(p);
            let a = ancestors_view(s);
            let ap = ancestors_view(p);
            assert(a == ap.push(s));
            assert forall|i: int|
                0 <= i < a.len() - 1 implies parent_view(#[trigger] a[i + 1]) == Some(a[i]) by {
                if i + 1 < a.len() - 1 {
                    assert(a[i + 1] == ap[i + 1] && a[i] == ap[i]);
                } else {
                    assert(a[i + 1] == s && a[i] == ap.last());
                }
            }
        },
    }
}

/// Law: where the chain has at least two levels, the level just before the
/// last is the lexical parent of the path; where it has only one, the path
/// has no parent at all, so moving up is the identity.
pub proof fn lemma_parent_is_previous_level(s: Seq<char>)
    ensures
        ancestors_view(s).len() >= 2 ==> parent_view(s) == Some(
            ancestors_view(s)[ancestors_view(s).len() - 2],
        ),
        ancestors_view(s).len() == 1 ==> parent_view(s) is None,
{
    match parent_view(s) {
        None => {
        },
        Some(p) => {
            lemma_ancestors_last(p);
            assert(ancestors_view(s)[ancestors_view(s).len() - 2] == ancestors_view(p).last());
        },
    }
}

/// Law: the root has no lexical parent, so the parent operation at the root
/// returns the root unchanged.
pub proof fn lemma_root_has_no_parent()
    ensures
        parent_view(seq!['/']) is None,
{
    assert(last_sep_index(seq!['/']) == 0);
}

/// One level of a breadcrumb chain: the full path of the level and the
/// label under which it is displayed.
#[derive(Debug, PartialEq, Eq)]
pub struct Breadcrumb {
    pub full_path: String,
    pub display_label: String,
}

impl View for Breadcrumb {
    type V = (Seq<char>, Seq<char>);

    open spec fn view(&self) -> (Seq<char>, Seq<char>) {
        (self.full_path@, self.display_label@)
    }
}

/// The breadcrumb chain of a path: each ancestor, root-first, with its label.
pub open spec fn breadcrumbs_view(s: Seq<char>) -> Seq<(Seq<char>, Seq<char>)> {
    ancestors_view(s).map_values(|a: Seq<char>| (a, label_view(a)))
}

/// The index of the last `'/'` of `v`, or `None` when there is none.
fn last_sep(v: &Vec<char>) -> (r: Option<usize>)
    ensures
        r matches Some(i) ==> i == last_sep_index(v@),
        r is None ==> last_sep_index(v@) == -1,
{
    proof {
        assert(v@.take(v@.len() as int) =~= v@);
    }
    let mut j = v.len();
    while j > 0
        invariant
            0 <= j <= v@.len(),
            last_sep_index(v@) == last_sep_index(v@.take(j as int)),
        decreases j,
    {
        if v[j - 1] == '/' {
            proof {
                assert(v@.take(j as int)[j - 1] == '/');
            }
            return Some(j - 1);
        }
        proof {
            assert(v@.take(j as int)[j - 1] != '/');
            assert(v@.take(j as int).drop_last() =~= v@.take(j - 1));
        }
        j -= 1;
    }
    proof {
        assert(v@.take(0) =~= Seq::<char>::empty());
    }
    None
}

/// The lexical parent of `v`, as [`parent_view`] gives it.
fn parent_of(v: &Vec<char>) -> (r: Option<Vec<char>>)
    ensures
        match parent_view(v@) {
            None => r is None,
            Some(p) => r matches Some(pv) && pv@ == p,
        },
{
    proof {
        lemma_last_sep_index_bounds(v@);
    }
    match last_sep(v) {
        None => None,
        Some(i) => {
            if i == 0 {
                if v.len() <= 1 {
                    None
                } else {
                    let mut root: Vec<char> = Vec::new();
                    root.push('/');
                    proof {
                        assert(root@ =~= seq!['/']);
                    }
                    Some(root)
                }
            } else {
                let mut p: Vec<char> = Vec::new();
                let mut k: usize = 0;
                proof {
                    assert(v@.take(0) =~= Seq::<char>::empty());
                }
                while k < i
                    invariant
                        0 <= k <= i < v@.len(),
                        p@ == v@.take(k as int),
                    decreases i - k,
                {
                    p.push(v[k]);
                    proof {
                        assert(v@.take(k + 1) =~= v@.take(k as int).push(v@[k as int]));
                    }
                    k += 1;
                }
                Some(p)
            }
        },
    }
}

/// The breadcrumb label of `v`, as [`label_view`] gives it.
fn label_of(v: &Vec<char>) -> (r: String)
    ensures
        r@ == label_view(v@),
{
    proof {
        lemma_last_sep_index_bounds(v@);
    }
    match last_sep(v) {
        None => string_of(v),
        Some(i) => {
            if i == 0 && v.len() <= 1 {
                string_of(v)
            } else {
                let n = v.len();
                assert(i < n);
                let mut tail: Vec<char> = Vec::new();
                let mut k: usize = i + 1;
                proof {
                    assert(v@.skip(i + 1).take(0) =~= Seq::<char>::empty());
                }
                while k < v.len()
                    invariant
                        i + 1 <= k <= v@.len(),
                        i < v@.len(),
                        tail@ == v@.skip(i + 1).take(k - i - 1),
                    decreases v@.len() - k,
                {
                    tail.push(v[k]);
                    proof {
                        assert(v@.skip(i + 1).take(k - i) =~= v@.skip(i + 1).take(k - i - 1).push(
                            v@[k as int],
                        ));
                    }
                    k += 1;
                }
                proof {
                    assert(v@.skip(i + 1).take(v@.len() - i - 1) =~= v@.skip(i + 1));
                }
                let mut s = string_of(&tail);
                s.append("\\");
                proof {
                    reveal_strlit("\\");
                    assert(s@ =~= v@.skip(i + 1) + seq!['\\']);
                }
                s
            }
        },
    }
}

/// The breadcrumb chain of `path`, ordered root-first; the final entry is
/// `path` itself. Derived from the path text alone.
pub fn get_ancestors(path: &str) -> (r: Vec<Breadcrumb>)
    ensures
        r@.map_values(|b: Breadcrumb| b@) == breadcrumbs_view(path@),
{
    let chars = chars_of(path);
    let mut rising: Vec<Breadcrumb> = Vec::new();
    let mut cur = chars;
    proof {
        assert(rising@.map_values(|b: Breadcrumb| b.full_path@).reverse() =~= Seq::<
            Seq<char>,
        >::empty());
        assert(ancestors_view(path@) =~= ancestors_view(cur@) + rising@.map_values(
            |b: Breadcrumb| b.full_path@,
        ).reverse());
    }
    loop
        invariant_except_break
            ancestors_view(path@) == ancestors_view(cur@) + rising@.map_values(
                |b: Breadcrumb| b.full_path@,
            ).reverse(),
        invariant
            forall|k: int|
                0 <= k < rising@.len() ==> (#[trigger] rising@[k]).display_label@ == label_view(
                    rising@[k].full_path@,
                ),
        ensures
            ancestors_view(path@) == rising@.map_values(|b: Breadcrumb| b.full_path@).reverse(),
        decreases cur@.len(),
    {
        let lbl = label_of(&cur);
        let fp = string_of(&cur);
        let ghost old_rising = rising@;
        rising.push(Breadcrumb { full_path: fp, display_label: lbl });
        let next = parent_of(&cur);
        proof {
            lemma_parent_shorter(cur@);
            let paths = old_rising.map_values(|b: Breadcrumb| b.full_path@);
            let paths2 = rising@.map_values(|b: Breadcrumb| b.full_path@);
            assert(paths2 =~= paths.push(cur@));
            assert(paths.push(cur@).reverse() =~= seq![cur@] + paths.reverse());
            if parent_view(cur@) is Some {
                let p = parent_view(cur@)->0;
                assert(ancestors_view(cur@) == ancestors_view(p).push(cur@));
                assert(ancestors_view(p) + paths2.reverse() =~= ancestors_view(p).push(cur@)
                    + paths.reverse());
            } else {
                assert(ancestors_view(cur@) == seq![cur@]);
                assert(ancestors_view(path@) =~= paths2.reverse());
            }
        }
        match next {
            None => {
                break ;
            },
            Some(p) => {
                cur = p;
            },
        }
    }
    let ghost whole = rising@;
    let mut out: Vec<Breadcrumb> = Vec::new();
    proof {
        assert(whole.skip(whole.len() as int).reverse() =~= Seq::<Breadcrumb>::empty());
    }
    while rising.len() > 0
        invariant
            rising@.len() <= whole.len(),
            rising@ == whole.take(rising@.len() as int),
            out@ == whole.skip(rising@.len() as int).reverse(),
        decreases rising@.len(),
    {
        let ghost n = rising@.len() as int;
        let b = rising.pop().unwrap();
        out.push(b);
        proof {
            assert(rising@ =~= whole.take(n - 1));
            assert(b == whole[n - 1]);
            assert(out@ =~= whole.skip(n - 1).reverse());
        }
    }
    proof {
        assert(out@ =~= whole.reverse());
        let bm = |b: Breadcrumb| b@;
        assert(out@.map_values(bm) =~= breadcrumbs_view(path@));
    }
    out
}

/// The lexical parent of `path`, or `path` itself unchanged where it has no
/// parent: moving up from the root (or from a separator-free path) is a
/// no-op, not an error.
pub fn get_parent_dir(path: &str) -> (r: String)
    ensures
        r@ == match parent_view(path@) {
            Some(p) => p,
            None => path@,
        },
{
    let chars = chars_of(path);
    match parent_of(&chars) {
        Some(p) => string_of(&p),
        None => string_of(&chars),
    }
}

} // verus!
