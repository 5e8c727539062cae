//! The unused dependency calculator: subtracts every referenced name from
//! the declared set and reports what remains, sorted.

use vstd::prelude::*;
use crate::model::{lemma_names_view_take_step, names_view};
use crate::order::{
    lemma_lex_lt_total, lemma_lex_lt_trans, lex_lt, str_lex_lt, strictly_sorted,
};

verus! {

/// The unused names: those declared in the workspace table that no member
/// package references.
pub open spec fn unused_names(declared: Set<Seq<char>>, referenced: Set<Seq<char>>) -> Set<
    Seq<char>,
> {
    declared.difference(referenced)
}

/// Law of convergence at the level of name sets: removing exactly the unused
/// names from the declared set leaves a set in which nothing is unused.
pub proof fn lemma_fix_converges(declared: Set<Seq<char>>, referenced: Set<Seq<char>>)
    ensures
        unused_names(declared.difference(unused_names(declared, referenced)), referenced)
            =~= Set::<Seq<char>>::empty(),
{
}

/// Decides whether a name occurs in a list of names.
fn contains_name(names: &Vec<String>, name: &String) -> (r: bool)
    ensures
        r == names_view(names@).to_set().contains(name@),
{
    let mut i: usize = 0;
    while i < names.len()
        invariant
            i <= names@.len(),
            forall|k: int| 0 <= k < i ==> names@[k]@ != name@,
        decreases names@.len() - i,
    {
        let e = &names[i];
        if *e == *name {
            proof {
                assert(names_view(names@)[i as int] == name@);
            }
            return true;
        }
        i += 1;
    }
    proof {
        assert forall|k: int| 0 <= k < names_view(names@).len() implies names_view(names@)[k]
            != name@ by {
            assert(names_view(names@)[k] == names@[k]@);
        }
    }
    false
}

/// The position where `name` belongs in a strictly sorted report: everything
/// before it is strictly smaller, and the entry at it (if any) is not.
fn lower_bound(v: &Vec<String>, name: &String) -> (p: usize)
    requires
        strictly_sorted(names_view(v@)),
    ensures
        p <= v@.len(),
        forall|k: int| 0 <= k < p ==> lex_lt(v@[k]@, name@),
        p < v@.len() ==> !lex_lt(v@[p as int]@, name@),
{
    let mut i: usize = 0;
    while i < v.len()
        invariant
            i <= v@.len(),
            forall|k: int| 0 <= k < i ==> lex_lt(v@[k]@, name@),
        decreases v@.len() - i,
    {
        let e = &v[i];
        if !str_lex_lt(e.as_str(), name.as_str()) {
            return i;
        }
        i += 1;
    }
    i
}

/// Inserts a name into a strictly sorted report, keeping it strictly sorted;
/// a name already present is not inserted again.
fn insert_sorted(out: &mut Vec<String>, name: String)
    requires
        strictly_sorted(names_view(old(out)@)),
    ensures
        strictly_sorted(names_view(final(out)@)),
        names_view(final(out)@).to_set() == names_view(old(out)@).to_set().insert(name@),
{
    let ghost pre = old(out)@;
    let p = lower_bound(out, &name);
    if p < out.len() {
        let e = &out[p];
        if *e == name {
            proof {
                assert(names_view(pre)[p as int] == name@);
                assert(names_view(pre).to_set().contains(name@));
                assert(names_view(pre).to_set() =~= names_view(pre).to_set().insert(name@));
            }
            return ;
        }
    }
    proof {
        if p < pre.len() {
            lemma_lex_lt_total(name@, pre[p as int]@);
        }
    }
    out.insert(p, name);
    proof {
        let post = out@;
        assert(post == pre.insert(p as int, name));
        assert forall|k: int| 0 <= k < post.len() implies names_view(post)[k] == (if k < p {
            pre[k]@
        } else if k == p {
            name@
        } else {
            pre[k - 1]@
        }) by {
            assert(names_view(post)[k] == post[k]@);
        }
        assert forall|i: int, j: int|
            0 <= i < j < names_view(post).len() implies lex_lt(
            names_view(post)[i],
            names_view(post)[j],
        ) by {
            let vi = names_view(post)[i];
            let vj = names_view(post)[j];
            if i < p && j < p {
                assert(lex_lt(names_view(pre)[i], names_view(pre)[j]));
            } else if i < p && j == p {
                assert(vi == pre[i]@ && vj == name@);
            } else if i < p && j > p {
                assert(lex_lt(names_view(pre)[i], names_view(pre)[j - 1]));
            } else if i == p && j > p {
                if j - 1 == p {
                    assert(vj == pre[p as int]@);
                } else {
                    assert(lex_lt(names_view(pre)[p as int], names_view(pre)[j - 1]));
                    lemma_lex_lt_trans(name@, pre[p as int]@, pre[j - 1]@);
                }
            } else {
                assert(i > p && j > p);
                assert(lex_lt(names_view(pre)[i - 1], names_view(pre)[j - 1]));
            }
        }
        assert forall|x: Seq<char>|
            names_view(post).to_set().contains(x) <==> names_view(pre).to_set().insert(
            name@,
        ).contains(x) by {
            if names_view(post).to_set().contains(x) {
                let k = choose|k: int|
                    0 <= k < names_view(post).len() && names_view(post)[k] == x;
                if k < p {
                    assert(names_view(pre)[k] == x);
                } else if k > p {
                    assert(names_view(pre)[k - 1] == x);
                }
            }
            if names_view(pre).to_set().insert(name@).contains(x) {
                if x == name@ {
                    assert(names_view(post)[p as int] == x);
                } else {
                    let k = choose|k: int|
                        0 <= k < names_view(pre).len() && names_view(pre)[k] == x;
                    if k < p {
                        assert(names_view(post)[k] == x);
                    } else {
                        assert(names_view(post)[k + 1] == x);
                    }
                }
            }
        }
        assert(names_view(post).to_set() =~= names_view(pre).to_set().insert(name@));
    }
}

/// Computes the unused names: every workspace-declared name that no package
/// referenced, reported in strictly ascending lexicographic order. The
/// result's content is exactly the set difference of the declared and the
/// referenced names, and its order makes the report deterministic whatever
/// order the declarations and references arrived in.
pub fn compute_unused(workspace_names: &Vec<String>, referenced: &Vec<String>) -> (r: Vec<
    String,
>)
    ensures
        strictly_sorted(names_view(r@)),
        names_view(r@).to_set() == unused_names(
            names_view(workspace_names@).to_set(),
            names_view(referenced@).to_set(),
        ),
{
    let ghost refs = names_view(referenced@).to_set();
    let mut out: Vec<String> = Vec::new();
    let mut i: usize = 0;
    proof {
        assert(names_view(out@).to_set() =~= names_view(workspace_names@.take(0)).to_set()
            .difference(refs));
    }
    while i < workspace_names.len()
        invariant
            i <= workspace_names@.len(),
            refs == names_view(referenced@).to_set(),
            strictly_sorted(names_view(out@)),
            names_view(out@).to_set() == names_view(workspace_names@.take(i as int)).to_set()
                .difference(refs),
        decreases workspace_names@.len() - i,
    {
        let name = &workspace_names[i];
        let ghost before = names_view(out@).to_set();
        if !contains_name(referenced, name) {
            insert_sorted(&mut out, name.clone());
        }
        proof {
            lemma_names_view_take_step(workspace_names@, i as int);
            assert(names_view(out@).to_set() =~= names_view(
                workspace_names@.take(i + 1),
            ).to_set().difference(refs));
        }
        i += 1;
    }
    proof {
        assert(workspace_names@.take(workspace_names@.len() as int) =~= workspace_names@);
    }
    out
}

} // verus!
