//! The one total order the generator uses: ascending lexicographic order
//! over layer names. The aggregate unit's dependency list reads it forward
//! and the overlay's lower-directory stack reads it backward, so both are
//! views of a single sort.

use vstd::prelude::*;

verus! {

use vstd::relations::sorted_by;
use vstd::relations::total_ordering;
use vstd::string::StrSliceExecFns;

/// Lexicographic order on character sequences, by code point. On UTF-8
/// encoded text this agrees with byte order.
pub open spec fn lex_le(a: Seq<char>, b: Seq<char>) -> bool
    decreases a.len(),
{
    if a.len() == 0 {
        true
    } else if b.len() == 0 {
        false
    } else if (a[0] as int) < (b[0] as int) {
        true
    } else if (b[0] as int) < (a[0] as int) {
        false
    } else {
        lex_le(a.drop_first(), b.drop_first())
    }
}

/// `lex_le` as a first-class relation, for the vstd ordering lemmas.
pub open spec fn lex_leq_fn() -> spec_fn(Seq<char>, Seq<char>) -> bool {
    |a: Seq<char>, b: Seq<char>| lex_le(a, b)
}

/// The views of a sequence of strings.
pub open spec fn views_of(names: Seq<String>) -> Seq<Seq<char>> {
    names.map_values(|s: String| s@)
}

/// The canonical ascending order over a collection of names.
pub open spec fn sort_views(names: Seq<Seq<char>>) -> Seq<Seq<char>> {
    names.sort_by(lex_leq_fn())
}

/// Any two character sequences are ordered one way or the other.
pub proof fn lemma_lex_le_total(a: Seq<char>, b: Seq<char>)
    ensures
        lex_le(a, b) || lex_le(b, a),
    decreases a.len(),
{
    if a.len() > 0 && b.len() > 0 && (a[0] as int) == (b[0] as int) {
        lemma_lex_le_total(a.drop_first(), b.drop_first());
    }
}

/// Sequences ordered both ways are equal.
pub proof fn lemma_lex_le_antisymm(a: Seq<char>, b: Seq<char>)
    requires
        lex_le(a, b),
        lex_le(b, a),
    ensures
        a == b,
    decreases a.len(),
{
    if a.len() > 0 {
        assert(b.len() > 0);
        lemma_lex_le_antisymm(a.drop_first(), b.drop_first());
        assert(a.drop_first().len() == b.drop_first().len());
        assert(a.len() == b.len());
        assert forall|i: int| 0 <= i < a.len() implies a[i] == b[i] by {
            if i == 0 {
                assert((a[0] as int) == (b[0] as int));
                assert(a[0] == b[0]);
            } else {
                assert(a[i] == a.drop_first()[i - 1]);
                assert(b[i] == b.drop_first()[i - 1]);
            }
        }
        assert(a =~= b);
    } else {
        assert(a =~= b);
    }
}

/// The order is transitive.
pub proof fn lemma_lex_le_trans(a: Seq<char>, b: Seq<char>, c: Seq<char>)
    requires
        lex_le(a, b),
        lex_le(b, c),
    ensures
        lex_le(a, c),
    decreases a.len(),
{
    if a.len() > 0 && b.len() > 0 && c.len() > 0 && (a[0] as int) == (b[0] as int) && (b[0]
        as int) == (c[0] as int) {
        lemma_lex_le_trans(a.drop_first(), b.drop_first(), c.drop_first());
    }
}

/// `lex_le` is a total ordering in the sense of `vstd::relations`.
pub proof fn lemma_lex_le_total_ordering()
    ensures
        total_ordering(lex_leq_fn()),
{
    let leq = lex_leq_fn();
    assert forall|a: Seq<char>| #[trigger] leq(a, a) by {
        lemma_lex_le_total(a, a);
    }
    assert forall|a: Seq<char>, b: Seq<char>| #[trigger] leq(a, b) && #[trigger] leq(b, a)
        implies a == b by {
        lemma_lex_le_antisymm(a, b);
    }
    assert forall|a: Seq<char>, b: Seq<char>, c: Seq<char>|
        #[trigger] leq(a, b) && #[trigger] leq(b, c) implies leq(a, c) by {
        lemma_lex_le_trans(a, b, c);
    }
    assert forall|a: Seq<char>, b: Seq<char>| #[trigger] leq(a, b) || #[trigger] leq(b, a) by {
        lemma_lex_le_total(a, b);
    }
}

/// Decides `lex_le` on two strings.
pub fn str_lex_le(a: &str, b: &str) -> (r: bool)
    ensures
        r == lex_le(a@, b@),
{
    let alen = a.unicode_len();
    let blen = b.unicode_len();
    let mut i: usize = 0;
    proof {
        assert(a@.skip(0) =~= a@);
        assert(b@.skip(0) =~= b@);
    }
    loop
        invariant
            i <= alen,
            i <= blen,
            alen == a@.len(),
            blen == b@.len(),
            lex_le(a@, b@) == lex_le(a@.skip(i as int), b@.skip(i as int)),
        decreases alen - i,
    {
        if i == alen {
            return true;
        }
        if i == blen {
            return false;
        }
        let ca = a.get_char(i);
        let cb = b.get_char(i);
        proof {
            assert(ca as u32 == ca as int);
            assert(cb as u32 == cb as int);
        }
        if (ca as u32) < (cb as u32) {
            return true;
        }
        if (cb as u32) < (ca as u32) {
            return false;
        }
        proof {
            assert(a@.skip(i as int).drop_first() =~= a@.skip(i as int + 1));
            assert(b@.skip(i as int).drop_first() =~= b@.skip(i as int + 1));
        }
        i = i + 1;
    }
}

/// Decides equality of two strings.
pub fn str_eq(a: &str, b: &str) -> (r: bool)
    ensures
        r == (a@ == b@),
{
    let alen = a.unicode_len();
    let blen = b.unicode_len();
    if alen != blen {
        proof {
            assert(a@ != b@);
        }
        return false;
    }
    let mut i: usize = 0;
    while i < alen
        invariant
            i <= alen,
            alen == a@.len(),
            alen == b@.len(),
            forall|k: int| 0 <= k < i ==> a@[k] == b@[k],
        decreases alen - i,
    {
        let ca = a.get_char(i);
        let cb = b.get_char(i);
        if ca != cb {
            proof {
                assert(a@[i as int] != b@[i as int]);
                assert(a@ != b@);
            }
            return false;
        }
        i = i + 1;
    }
    proof {
        assert(a@ =~= b@);
    }
    true
}

/// The index at which `x` belongs in the already sorted `r`: everything
/// before it is strictly below `x`, and `x` is at or below what follows.
fn insertion_point(x: &String, r: &Vec<String>) -> (j: usize)
    ensures
        j <= r.len(),
        forall|k: int| 0 <= k < j ==> !lex_le(x@, r@[k]@),
        j < r.len() ==> lex_le(x@, r@[j as int]@),
{
    let mut j: usize = 0;
    while j < r.len()
        invariant
            j <= r.len(),
            forall|k: int| 0 <= k < j ==> !lex_le(x@, r@[k]@),
        decreases r.len() - j,
    {
        if str_lex_le(x.as_str(), r[j].as_str()) {
            return j;
        }
        j = j + 1;
    }
    j
}

/// Sorts the given names into the canonical ascending order.
pub fn sort_name_strings(v: &Vec<String>) -> (r: Vec<String>)
    ensures
        views_of(r@) == sort_views(views_of(v@)),
        sorted_by(views_of(r@), lex_leq_fn()),
{
    let mut r: Vec<String> = Vec::new();
    let mut idx: usize = 0;
    proof {
        assert(views_of(r@) =~= views_of(v@).take(0));
    }
    while idx < v.len()
        invariant
            idx <= v.len(),
            sorted_by(views_of(r@), lex_leq_fn()),
            views_of(r@).to_multiset() == views_of(v@).take(idx as int).to_multiset(),
        decreases v.len() - idx,
    {
        let ghost old_r = r@;
        let x = v[idx].clone();
        let j = insertion_point(&x, &r);
        r.insert(j, x);
        proof {
            let ov = views_of(old_r);
            let nv = views_of(r@);
            assert(nv =~= ov.insert(j as int, x@));
            assert forall|p: int, q: int| 0 <= p < q < nv.len() implies #[trigger] lex_leq_fn()(
                nv[p],
                nv[q],
            ) by {
                if q < j {
                    assert(lex_leq_fn()(ov[p], ov[q]));
                } else if q == j {
                    lemma_lex_le_total(x@, ov[p]);
                } else if p == j {
                    if q - 1 > j {
                        assert(lex_leq_fn()(ov[j as int], ov[q - 1]));
                        lemma_lex_le_trans(x@, ov[j as int], ov[q - 1]);
                    }
                } else if p < j {
                    lemma_lex_le_total(x@, ov[p]);
                    if q - 1 > p {
                        assert(lex_leq_fn()(ov[p], ov[q - 1]));
                    }
                } else {
                    assert(lex_leq_fn()(ov[p - 1], ov[q - 1]));
                }
            }
            broadcast use vstd::seq_lib::to_multiset_insert;
            broadcast use vstd::seq_lib::to_multiset_build;

            assert(views_of(v@).take(idx as int).push(x@) =~= views_of(v@).take(idx as int + 1));
        }
        idx = idx + 1;
    }
    proof {
        assert(views_of(v@).take(v@.len() as int) =~= views_of(v@));
        lemma_lex_le_total_ordering();
        views_of(v@).lemma_sort_by_ensures(lex_leq_fn());
        vstd::seq_lib::lemma_sorted_unique(views_of(r@), sort_views(views_of(v@)), lex_leq_fn());
        assert(views_of(r@) =~= sort_views(views_of(v@)));
    }
    r
}

} // verus!
