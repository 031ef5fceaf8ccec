//! The set of distinct names a scope mentions, kept as a vector of strings
//! with no duplicate views.

use vstd::prelude::*;

verus! {

/// The set of names a vector of strings holds.
pub open spec fn idents_set(ids: Seq<String>) -> Set<Seq<char>> {
    Set::new(|x: Seq<char>| exists|k: int| 0 <= k < ids.len() && ids[k]@ == x)
}

/// The views of a vector of strings, in order.
pub open spec fn names_seq(ids: Seq<String>) -> Seq<Seq<char>> {
    ids.map_values(|s: String| s@)
}

/// Reading the views of a concatenation concatenates the views.
pub proof fn lemma_names_seq_concat(a: Seq<String>, b: Seq<String>)
    ensures
        names_seq(a + b) == names_seq(a) + names_seq(b),
{
    assert(names_seq(a + b) =~= names_seq(a) + names_seq(b)) by {
        assert(forall|i: int| 0 <= i < a.len() ==> (a + b)[i] == a[i]);
        assert(forall|i: int| 0 <= i < b.len() ==> (a + b)[a.len() + i] == b[i]);
    }
}

/// No two strings in the vector read the same.
pub open spec fn distinct_names(ids: Seq<String>) -> bool {
    forall|k1: int, k2: int|
        0 <= k1 < k2 < ids.len() ==> (#[trigger] ids[k1])@ != (#[trigger] ids[k2])@
}

/// Whether some string in `ids` reads as `name`.
fn contains_name(ids: &Vec<String>, name: &String) -> (b: bool)
    ensures
        b == idents_set(ids@).contains(name@),
{
    let mut k: usize = 0;
    while k < ids.len()
        invariant
            k <= ids@.len(),
            forall|j: int| 0 <= j < k ==> (#[trigger] ids@[j])@ != name@,
        decreases ids@.len() - k,
    {
        if ids[k].eq(name) {
            assert(idents_set(ids@).contains(name@)) by {
                assert(ids@[k as int]@ == name@);
            }
            return true;
        }
        k += 1;
    }
    false
}

/// Adds one name, keeping the vector duplicate-free.
pub fn insert_ident(ids: &mut Vec<String>, name: String)
    requires
        distinct_names(old(ids)@),
    ensures
        distinct_names(final(ids)@),
        idents_set(final(ids)@) == idents_set(old(ids)@).insert(name@),
{
    if contains_name(ids, &name) {
        assert(idents_set(ids@) =~= idents_set(ids@).insert(name@));
    } else {
        let ghost before = ids@;
        ids.push(name);
        assert(idents_set(ids@) =~= idents_set(before).insert(name@)) by {
            assert(forall|j: int| 0 <= j < before.len() ==> ids@[j] == before[j]);
            assert(ids@[before.len() as int]@ == name@);
            assert(forall|x: Seq<char>|
                idents_set(before).insert(name@).contains(x) ==> idents_set(ids@).contains(x)) by {
                assert(forall|j: int|
                    0 <= j < before.len() && (#[trigger] before[j])@ != name@ ==> ids@[j]@
                        == before[j]@);
            }
        }
    }
}

/// Adds every name of `more`, keeping the vector duplicate-free; the set of
/// names grows by the union.
pub fn extend_idents(ids: &mut Vec<String>, more: &Vec<String>)
    requires
        distinct_names(old(ids)@),
    ensures
        distinct_names(final(ids)@),
        idents_set(final(ids)@) == idents_set(old(ids)@).union(idents_set(more@)),
{
    let ghost start = ids@;
    let mut j: usize = 0;
    while j < more.len()
        invariant
            j <= more@.len(),
            distinct_names(ids@),
            idents_set(ids@) == idents_set(start).union(idents_set(more@.subrange(0, j as int))),
        decreases more@.len() - j,
    {
        let name = more[j].clone();
        insert_ident(ids, name);
        proof {
            let subj = more@.subrange(0, j as int);
            let subj1 = more@.subrange(0, j as int + 1);
            assert forall|x: Seq<char>| #[trigger] idents_set(subj1).contains(x) implies idents_set(
                subj,
            ).contains(x) || x == more@[j as int]@ by {
                let k = choose|k: int| 0 <= k < subj1.len() && subj1[k]@ == x;
                if k < j as int {
                    assert(subj[k]@ == x);
                }
            }
            assert forall|x: Seq<char>| #[trigger] idents_set(subj).contains(x) implies idents_set(
                subj1,
            ).contains(x) by {
                let k = choose|k: int| 0 <= k < subj.len() && subj[k]@ == x;
                assert(subj1[k]@ == x);
            }
            assert(subj1[j as int] == more@[j as int]);
            assert(idents_set(subj1).contains(more@[j as int]@));
            assert(idents_set(ids@) =~= idents_set(start).union(idents_set(subj1)));
        }
        j += 1;
    }
    assert(more@.subrange(0, more@.len() as int) =~= more@);
}

/// Concatenating two vectors unions their name sets.
pub proof fn lemma_idents_set_concat(a: Seq<String>, b: Seq<String>)
    ensures
        idents_set(a + b) == idents_set(a).union(idents_set(b)),
{
    assert(idents_set(a + b) =~= idents_set(a).union(idents_set(b))) by {
        assert(forall|k: int| 0 <= k < a.len() ==> (a + b)[k] == a[k]);
        assert(forall|k: int| 0 <= k < b.len() ==> (a + b)[a.len() + k] == b[k]);
        assert(forall|x: Seq<char>| idents_set(a).contains(x) ==> idents_set(a + b).contains(x));
        assert(forall|x: Seq<char>| idents_set(b).contains(x) ==> idents_set(a + b).contains(x))
            by {
            assert(forall|k: int|
                0 <= k < b.len() && (#[trigger] b[k])@ == b[k]@ ==> (a + b)[a.len() + k]@ == b[k]@);
        }
    }
}

} // verus!
