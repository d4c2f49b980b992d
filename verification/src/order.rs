//! Ordering records by name: lexicographic order on characters and a stable sort.
use vstd::prelude::*;

use crate::text::chars_of;

verus! {

/// `a` sorts before or together with `b`: lexicographic order on characters by code
/// point, a proper prefix first. (`String`'s `Ord` compares UTF-8 bytes, which orders
/// strings the same way.)
pub open spec fn name_le(a: Seq<char>, b: Seq<char>) -> bool
    decreases a.len(),
{
    if a.len() == 0 {
        true
    } else if b.len() == 0 {
        false
    } else if a[0] != b[0] {
        a[0] < b[0]
    } else {
        name_le(a.skip(1), b.skip(1))
    }
}

pub proof fn lemma_name_le_refl(a: Seq<char>)
    ensures
        name_le(a, a),
    decreases a.len(),
{
    if a.len() > 0 {
        lemma_name_le_refl(a.skip(1));
    }
}

pub proof fn lemma_name_le_total(a: Seq<char>, b: Seq<char>)
    ensures
        name_le(a, b) || name_le(b, a),
    decreases a.len(),
{
    if a.len() > 0 && b.len() > 0 {
        if a[0] == b[0] {
            lemma_name_le_total(a.skip(1), b.skip(1));
        }
    }
}

pub proof fn lemma_name_le_antisym(a: Seq<char>, b: Seq<char>)
    requires
        name_le(a, b),
        name_le(b, a),
    ensures
        a == b,
    decreases a.len(),
{
    if a.len() > 0 && b.len() > 0 {
        lemma_name_le_antisym(a.skip(1), b.skip(1));
        assert(a =~= seq![a[0]] + a.skip(1));
        assert(b =~= seq![b[0]] + b.skip(1));
    } else {
        assert(a =~= b);
    }
}

pub proof fn lemma_name_le_trans(a: Seq<char>, b: Seq<char>, c: Seq<char>)
    requires
        name_le(a, b),
        name_le(b, c),
    ensures
        name_le(a, c),
    decreases a.len(),
{
    if a.len() > 0 && b.len() > 0 && c.len() > 0 && a[0] == b[0] && b[0] == c[0] {
        lemma_name_le_trans(a.skip(1), b.skip(1), c.skip(1));
    }
}

/// Whether `a` sorts before or together with `b` (see [`name_le`]).
pub fn name_le_exec(a: &str, b: &str) -> (r: bool)
    ensures
        r == name_le(a@, b@),
{
    let x = chars_of(a);
    let y = chars_of(b);
    let mut i: usize = 0;
    assert(x@.skip(0) =~= x@);
    assert(y@.skip(0) =~= y@);
    while i < x.len() && i < y.len() && x[i] == y[i]
        invariant
            i <= x.len(),
            i <= y.len(),
            name_le(x@.skip(i as int), y@.skip(i as int)) == name_le(x@, y@),
        decreases x.len() - i,
    {
        assert(x@.skip(i as int).skip(1) =~= x@.skip(i + 1));
        assert(y@.skip(i as int).skip(1) =~= y@.skip(i + 1));
        i = i + 1;
    }
    if i == x.len() {
        true
    } else if i == y.len() {
        false
    } else {
        x[i] < y[i]
    }
}

/// A record with a name to sort by.
pub trait Named {
    spec fn name_key(&self) -> Seq<char>;

    fn name_str(&self) -> (r: &str)
        ensures
            r@ == self.name_key(),
    ;
}

/// `p` takes `new` to `old`: a permutation of indices with `new[k] == old[p[k]]`.
pub open spec fn is_permutation<T>(old: Seq<T>, new: Seq<T>, p: Seq<int>) -> bool {
    &&& p.len() == new.len() == old.len()
    &&& forall|k: int| 0 <= k < p.len() ==> 0 <= #[trigger] p[k] < old.len()
    &&& forall|j: int, k: int| 0 <= j < k < p.len() ==> p[j] != p[k]
    &&& forall|k: int| 0 <= k < p.len() ==> new[k] == old[#[trigger] p[k]]
}

/// `new` is `old` sorted by name, and records with equal names keep their order.
pub open spec fn sorted_stably_by_name<T: Named>(old: Seq<T>, new: Seq<T>) -> bool {
    exists|p: Seq<int>|
        {
            &&& is_permutation(old, new, p)
            &&& forall|j: int, k: int|
                0 <= j < k < new.len() ==> name_le(#[trigger] new[j].name_key(), #[trigger] new[k].name_key())
            &&& forall|j: int, k: int|
                0 <= j < k < new.len() && #[trigger] new[j].name_key() == #[trigger] new[k].name_key()
                    ==> p[j] < p[k]
        }
}

/// Sorts records by name, keeping records with equal names in their order.
pub fn sort_by_name<T: Named>(v: &mut Vec<T>)
    ensures
        sorted_stably_by_name(old(v)@, final(v)@),
{
    let ghost orig = v@;
    let mut out: Vec<T> = Vec::new();
    let ghost mut p: Seq<int> = Seq::empty();
    let ghost mut i: int = 0;
    assert(orig.skip(0) =~= orig);
    while v.len() > 0
        invariant
            0 <= i <= orig.len(),
            v@ == orig.skip(i),
            out@.len() == i,
            p.len() == i,
            forall|k: int| 0 <= k < i ==> 0 <= #[trigger] p[k] < i,
            forall|j: int, k: int| 0 <= j < k < i ==> p[j] != p[k],
            forall|k: int| 0 <= k < i ==> out@[k] == orig[#[trigger] p[k]],
            forall|j: int, k: int|
                0 <= j < k < i ==> name_le(#[trigger] out@[j].name_key(), #[trigger] out@[k].name_key()),
            forall|j: int, k: int|
                0 <= j < k < i && #[trigger] out@[j].name_key() == #[trigger] out@[k].name_key()
                    ==> p[j] < p[k],
        decreases v.len(),
    {
        let x = v.remove(0);
        assert(x == orig[i]);
        assert(v@ =~= orig.skip(i + 1));
        // the insertion point: after every record whose name sorts before or with x's
        let mut pos: usize = 0;
        while pos < out.len() && name_le_exec(out[pos].name_str(), x.name_str())
            invariant
                pos <= out@.len(),
                forall|k: int| 0 <= k < pos ==> name_le(#[trigger] out@[k].name_key(), x.name_key()),
            decreases out@.len() - pos,
        {
            pos = pos + 1;
        }
        let ghost old_out = out@;
        let ghost old_p = p;
        proof {
            // every record from pos on sorts strictly after x
            assert forall|k: int| pos <= k < old_out.len() implies !name_le(
                #[trigger] old_out[k].name_key(),
                x.name_key(),
            ) && name_le(x.name_key(), old_out[k].name_key()) by {
                assert(!name_le(old_out[pos as int].name_key(), x.name_key()));
                lemma_name_le_total(old_out[pos as int].name_key(), x.name_key());
                if k > pos {
                    assert(name_le(old_out[pos as int].name_key(), old_out[k].name_key()));
                    if name_le(old_out[k].name_key(), x.name_key()) {
                        lemma_name_le_trans(
                            old_out[pos as int].name_key(),
                            old_out[k].name_key(),
                            x.name_key(),
                        );
                    }
                    lemma_name_le_trans(
                        x.name_key(),
                        old_out[pos as int].name_key(),
                        old_out[k].name_key(),
                    );
                }
            }
            lemma_name_le_refl(x.name_key());
        }
        out.insert(pos, x);
        proof {
            p = old_p.insert(pos as int, i);
            let n = out@;
            assert forall|k: int| 0 <= k < i + 1 implies 0 <= #[trigger] p[k] < i + 1 by {
                if k < pos {
                    assert(p[k] == old_p[k]);
                } else if k > pos {
                    assert(p[k] == old_p[k - 1]);
                }
            }
            assert forall|j: int, k: int| 0 <= j < k < i + 1 implies p[j] != p[k] by {
                if j < pos && k < pos {
                    assert(p[j] == old_p[j] && p[k] == old_p[k]);
                } else if j < pos && k > pos {
                    assert(p[j] == old_p[j] && p[k] == old_p[k - 1]);
                } else if j > pos {
                    assert(p[j] == old_p[j - 1] && p[k] == old_p[k - 1]);
                } else if j == pos {
                    assert(p[k] == old_p[k - 1]);
                    assert(old_p[k - 1] < i);
                } else {
                    assert(p[j] == old_p[j]);
                    assert(old_p[j] < i);
                }
            }
            assert forall|k: int| 0 <= k < i + 1 implies n[k] == orig[#[trigger] p[k]] by {
                if k < pos {
                    assert(n[k] == old_out[k] && p[k] == old_p[k]);
                } else if k > pos {
                    assert(n[k] == old_out[k - 1] && p[k] == old_p[k - 1]);
                }
            }
            assert forall|j: int, k: int| 0 <= j < k < i + 1 implies name_le(
                #[trigger] n[j].name_key(),
                #[trigger] n[k].name_key(),
            ) by {
                if j < pos && k < pos {
                    assert(n[j] == old_out[j] && n[k] == old_out[k]);
                } else if j < pos && k == pos {
                    assert(n[j] == old_out[j]);
                } else if j < pos && k > pos {
                    assert(n[j] == old_out[j] && n[k] == old_out[k - 1]);
                } else if j == pos {
                    assert(n[k] == old_out[k - 1]);
                } else {
                    assert(n[j] == old_out[j - 1] && n[k] == old_out[k - 1]);
                }
            }
            assert forall|j: int, k: int|
                0 <= j < k < i + 1 && #[trigger] n[j].name_key() == #[trigger] n[k].name_key()
                    implies p[j] < p[k] by {
                if j < pos && k < pos {
                    assert(n[j] == old_out[j] && n[k] == old_out[k]);
                    assert(p[j] == old_p[j] && p[k] == old_p[k]);
                } else if j < pos && k == pos {
                    assert(p[j] == old_p[j]);
                    assert(old_p[j] < i);
                } else if j < pos && k > pos {
                    assert(n[j] == old_out[j] && n[k] == old_out[k - 1]);
                    assert(p[j] == old_p[j] && p[k] == old_p[k - 1]);
                } else if j == pos {
                    assert(n[k] == old_out[k - 1]);
                    assert(!name_le(old_out[k - 1].name_key(), x.name_key()));
                } else {
                    assert(n[j] == old_out[j - 1] && n[k] == old_out[k - 1]);
                    assert(p[j] == old_p[j - 1] && p[k] == old_p[k - 1]);
                }
            }
            i = i + 1;
        }
    }
    assert(is_permutation(orig, out@, p));
    *v = out;
}

/// `a` is a prefix of `b`.
pub open spec fn is_prefix(a: Seq<char>, b: Seq<char>) -> bool {
    a.len() <= b.len() && b.subrange(0, a.len() as int) == a
}

/// `a` and `b` first differ at `k`, where `a` has the smaller character.
pub open spec fn first_difference_smaller(a: Seq<char>, b: Seq<char>, k: int) -> bool {
    0 <= k < a.len() && k < b.len() && a.subrange(0, k) == b.subrange(0, k) && a[k] < b[k]
}

/// Names are ordered lexicographically by code point: `a` sorts before or together with
/// `b` exactly when `a` is a prefix of `b`, or at the first index where they differ `a`'s
/// character is the smaller.
pub proof fn law_name_order_lexicographic(a: Seq<char>, b: Seq<char>)
    ensures
        name_le(a, b) <==> (is_prefix(a, b) || exists|k: int| first_difference_smaller(a, b, k)),
    decreases a.len(),
{
    if a.len() == 0 {
        assert(b.subrange(0, 0) =~= a);
    } else if b.len() == 0 {
        assert(!is_prefix(a, b));
        assert(forall|k: int| !first_difference_smaller(a, b, k));
    } else if a[0] != b[0] {
        assert(!is_prefix(a, b)) by {
            if is_prefix(a, b) {
                assert(b.subrange(0, a.len() as int)[0] == b[0]);
            }
        }
        assert forall|k: int| first_difference_smaller(a, b, k) implies k == 0 by {
            if k > 0 {
                assert(a.subrange(0, k)[0] == a[0]);
                assert(b.subrange(0, k)[0] == b[0]);
            }
        }
        if a[0] < b[0] {
            assert(a.subrange(0, 0) =~= b.subrange(0, 0));
            assert(first_difference_smaller(a, b, 0));
        }
    } else {
        let a1 = a.skip(1);
        let b1 = b.skip(1);
        law_name_order_lexicographic(a1, b1);
        assert(is_prefix(a, b) <==> is_prefix(a1, b1)) by {
            if is_prefix(a, b) {
                assert(b1.subrange(0, a1.len() as int) =~= b.subrange(0, a.len() as int).skip(1));
                assert(a1 =~= a.skip(1));
            }
            if is_prefix(a1, b1) {
                assert(b.subrange(0, a.len() as int) =~= seq![b[0]] + b1.subrange(0, a1.len() as int));
                assert(a =~= seq![a[0]] + a1);
            }
        }
        assert forall|k: int| first_difference_smaller(a, b, k) implies first_difference_smaller(
            a1,
            b1,
            k - 1,
        ) by {
            if k == 0 {
                assert(false);
            }
            assert(a1.subrange(0, k - 1) =~= a.subrange(0, k).skip(1));
            assert(b1.subrange(0, k - 1) =~= b.subrange(0, k).skip(1));
        }
        assert forall|k: int| first_difference_smaller(a1, b1, k) implies first_difference_smaller(
            a,
            b,
            k + 1,
        ) by {
            assert(a.subrange(0, k + 1) =~= seq![a[0]] + a1.subrange(0, k));
            assert(b.subrange(0, k + 1) =~= seq![b[0]] + b1.subrange(0, k));
        }
        if exists|k: int| first_difference_smaller(a, b, k) {
            let k = choose|k: int| first_difference_smaller(a, b, k);
            assert(first_difference_smaller(a1, b1, k - 1));
        }
        if exists|k: int| first_difference_smaller(a1, b1, k) {
            let k = choose|k: int| first_difference_smaller(a1, b1, k);
            assert(first_difference_smaller(a, b, k + 1));
        }
    }
}

} // verus!
