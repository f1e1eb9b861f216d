use vstd::prelude::*;
use vstd::seq_lib::{group_to_multiset_ensures, lemma_multiset_commutative};

verus! {

/// `s` with `x` placed before the first element that is not below it.
pub open spec fn insert_sorted(s: Seq<i32>, x: i32) -> Seq<i32>
    decreases s.len(),
{
    if s.len() == 0 {
        seq![x]
    } else if x <= s[0] {
        seq![x] + s
    } else {
        seq![s[0]] + insert_sorted(s.drop_first(), x)
    }
}

/// The elements of `s` in ascending order.
pub open spec fn sort_ascending(s: Seq<i32>) -> Seq<i32>
    decreases s.len(),
{
    if s.len() == 0 {
        seq![]
    } else {
        insert_sorted(sort_ascending(s.drop_last()), s.last())
    }
}

pub open spec fn is_ascending(s: Seq<i32>) -> bool {
    forall|i: int, j: int| 0 <= i < j < s.len() ==> s[i] <= s[j]
}

proof fn lemma_insert_sorted_at(s: Seq<i32>, x: i32, pos: int)
    requires
        0 <= pos <= s.len(),
        forall|j: int| 0 <= j < pos ==> s[j] < x,
        pos == s.len() || x <= s[pos],
    ensures
        insert_sorted(s, x) == s.insert(pos, x),
    decreases s.len(),
{
    if s.len() == 0 {
        assert(s.insert(pos, x) =~= seq![x]);
    } else if pos == 0 {
        assert(s.insert(pos, x) =~= seq![x] + s);
    } else {
        let t = s.drop_first();
        lemma_insert_sorted_at(t, x, pos - 1);
        assert(seq![s[0]] + t.insert(pos - 1, x) =~= s.insert(pos, x));
    }
}

proof fn lemma_insert_sorted_props(s: Seq<i32>, x: i32)
    requires
        is_ascending(s),
    ensures
        is_ascending(insert_sorted(s, x)),
        insert_sorted(s, x).to_multiset() =~= s.to_multiset().insert(x),
    decreases s.len(),
{
    broadcast use group_to_multiset_ensures;

    if s.len() == 0 {
        assert(seq![x] =~= Seq::<i32>::empty().push(x));
    } else if x <= s[0] {
        assert(seq![x] =~= Seq::<i32>::empty().push(x));
        lemma_multiset_commutative(seq![x], s);
        let r = seq![x] + s;
        assert forall|i: int, j: int| 0 <= i < j < r.len() implies r[i] <= r[j] by {
            if i == 0 {
                assert(s[0] <= s[j - 1]);
            } else {
                assert(r[i] == s[i - 1] && r[j] == s[j - 1]);
            }
        }
    } else {
        let t = s.drop_first();
        assert(is_ascending(t)) by {
            assert forall|i: int, j: int| 0 <= i < j < t.len() implies t[i] <= t[j] by {
                assert(t[i] == s[i + 1] && t[j] == s[j + 1]);
            }
        }
        lemma_insert_sorted_props(t, x);
        let u = insert_sorted(t, x);
        assert(seq![s[0]] =~= Seq::<i32>::empty().push(s[0]));
        lemma_multiset_commutative(seq![s[0]], u);
        lemma_multiset_commutative(seq![s[0]], t);
        assert(seq![s[0]] + t =~= s);
        let r = seq![s[0]] + u;
        assert forall|i: int, j: int| 0 <= i < j < r.len() implies r[i] <= r[j] by {
            if i == 0 {
                let e = u[j - 1];
                assert(u.contains(e));
                assert(u.to_multiset().count(e) > 0);
                if e != x {
                    assert(t.to_multiset().count(e) > 0);
                    assert(t.contains(e));
                    let k = choose|k: int| 0 <= k < t.len() && t[k] == e;
                    assert(s[0] <= s[k + 1]);
                }
            } else {
                assert(r[i] == u[i - 1] && r[j] == u[j - 1]);
            }
        }
    }
}

/// Sorting yields an ascending sequence holding the same pids as often as the
/// input does, whatever the input's order.
pub proof fn lemma_sort_ascending_sorts(s: Seq<i32>)
    ensures
        is_ascending(sort_ascending(s)),
        sort_ascending(s).to_multiset() =~= s.to_multiset(),
    decreases s.len(),
{
    broadcast use group_to_multiset_ensures;

    if s.len() > 0 {
        lemma_sort_ascending_sorts(s.drop_last());
        lemma_insert_sorted_props(sort_ascending(s.drop_last()), s.last());
        assert(s.drop_last().push(s.last()) =~= s);
    }
}

/// The pids of `v` in ascending order.
pub fn sorted_pids(v: &Vec<i32>) -> (r: Vec<i32>)
    ensures
        r@ == sort_ascending(v@),
{
    let mut out: Vec<i32> = Vec::new();
    let mut i: usize = 0;
    while i < v.len()
        invariant
            0 <= i <= v.len(),
            out@ == sort_ascending(v@.take(i as int)),
        decreases v.len() - i,
    {
        let x = v[i];
        let mut pos: usize = 0;
        while pos < out.len() && out[pos] < x
            invariant
                0 <= pos <= out.len(),
                forall|j: int| 0 <= j < pos ==> out@[j] < x,
            decreases out.len() - pos,
        {
            pos = pos + 1;
        }
        proof {
            lemma_insert_sorted_at(out@, x, pos as int);
            assert(v@.take(i + 1).drop_last() =~= v@.take(i as int));
        }
        out.insert(pos, x);
        i = i + 1;
    }
    assert(v@.take(v.len() as int) =~= v@);
    out
}

} // verus!
