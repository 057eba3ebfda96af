use vstd::prelude::*;

verus! {

/// Lexicographic order on character sequences, which is the order of `str`
/// (UTF-8 byte order and code point order agree).
pub open spec fn seq_lt(a: Seq<char>, b: Seq<char>) -> bool
    decreases a.len(),
{
    if a.len() == 0 {
        b.len() > 0
    } else if b.len() == 0 {
        false
    } else if a[0] != b[0] {
        a[0] < b[0]
    } else {
        seq_lt(a.drop_first(), b.drop_first())
    }
}

/// A sort key: a rank first, then a text.
pub type SortKey = (u64, Seq<char>);

pub open spec fn key_lt(a: SortKey, b: SortKey) -> bool {
    a.0 < b.0 || (a.0 == b.0 && seq_lt(a.1, b.1))
}

pub proof fn lemma_seq_lt_irreflexive(a: Seq<char>)
    ensures
        !seq_lt(a, a),
    decreases a.len(),
{
    if a.len() > 0 {
        lemma_seq_lt_irreflexive(a.drop_first());
    }
}

pub proof fn lemma_seq_lt_asymmetric(a: Seq<char>, b: Seq<char>)
    ensures
        !(seq_lt(a, b) && seq_lt(b, a)),
    decreases a.len(),
{
    if a.len() > 0 && b.len() > 0 && a[0] == b[0] {
        lemma_seq_lt_asymmetric(a.drop_first(), b.drop_first());
    }
}

pub proof fn lemma_seq_lt_transitive(a: Seq<char>, b: Seq<char>, c: Seq<char>)
    requires
        seq_lt(a, b),
        seq_lt(b, c),
    ensures
        seq_lt(a, c),
    decreases a.len(),
{
    if a.len() > 0 && b.len() > 0 && c.len() > 0 && a[0] == b[0] && b[0] == c[0] {
        lemma_seq_lt_transitive(a.drop_first(), b.drop_first(), c.drop_first());
    }
}

pub proof fn lemma_seq_lt_total(a: Seq<char>, b: Seq<char>)
    ensures
        seq_lt(a, b) || a == b || seq_lt(b, a),
    decreases a.len(),
{
    if a.len() > 0 && b.len() > 0 && a[0] == b[0] {
        lemma_seq_lt_total(a.drop_first(), b.drop_first());
        if a.drop_first() == b.drop_first() {
            assert(a =~= seq![a[0]] + a.drop_first());
            assert(b =~= seq![b[0]] + b.drop_first());
        }
    } else if a.len() == 0 && b.len() == 0 {
        assert(a =~= b);
    } else if a.len() > 0 && b.len() > 0 {
    }
}

pub proof fn lemma_key_order(a: SortKey, b: SortKey, c: SortKey)
    ensures
        !key_lt(a, a),
        !(key_lt(a, b) && key_lt(b, a)),
        key_lt(a, b) || a == b || key_lt(b, a),
        key_lt(a, b) && key_lt(b, c) ==> key_lt(a, c),
{
    lemma_seq_lt_irreflexive(a.1);
    lemma_seq_lt_asymmetric(a.1, b.1);
    lemma_seq_lt_total(a.1, b.1);
    if key_lt(a, b) && key_lt(b, c) && a.0 == b.0 && b.0 == c.0 {
        lemma_seq_lt_transitive(a.1, b.1, c.1);
    }
}

/// `a < b` on character sequences.
pub fn chars_lt(a: &Vec<char>, b: &Vec<char>) -> (res: bool)
    ensures
        res == seq_lt(a@, b@),
{
    let mut i: usize = 0;
    assert(a@.skip(0) =~= a@);
    assert(b@.skip(0) =~= b@);
    while i < a.len() && i < b.len()
        invariant
            i <= a.len(),
            i <= b.len(),
            seq_lt(a@, b@) == seq_lt(a@.skip(i as int), b@.skip(i as int)),
        decreases a.len() - i,
    {
        if a[i] != b[i] {
            return a[i] < b[i];
        }
        assert(a@.skip(i as int).drop_first() =~= a@.skip(i + 1));
        assert(b@.skip(i as int).drop_first() =~= b@.skip(i + 1));
        i = i + 1;
    }
    i < b.len()
}

/// The sort keys, as values of the specification.
pub open spec fn key_views(keys: Seq<(u64, Vec<char>)>) -> Seq<SortKey> {
    Seq::new(keys.len(), |i: int| (keys[i].0, keys[i].1@))
}

pub open spec fn key_at(keys: Seq<SortKey>, i: int) -> SortKey {
    keys[i]
}

/// `order` lists each index of `keys` once, by key, and, where two keys are
/// equal, by index: the order that a stable sort gives.
pub open spec fn stable_sorted(keys: Seq<SortKey>, order: Seq<usize>) -> bool {
    &&& order.len() == keys.len()
    &&& forall|p: int| 0 <= p < order.len() ==> #[trigger] order[p] < keys.len()
    &&& forall|p: int, q: int| 0 <= p < q < order.len() ==> order[p] != order[q]
    &&& forall|k: int| 0 <= k < keys.len() ==> #[trigger] order.contains(k as usize)
    &&& forall|p: int, q: int|
        0 <= p < q < order.len() ==> !key_lt(key_at(keys, order[q] as int), key_at(keys, order[p] as int))
    &&& forall|p: int, q: int|
        0 <= p < q < order.len() && key_at(keys, order[p] as int) == key_at(keys, order[q] as int)
            ==> order[p] < order[q]
}

fn key_less(a: &(u64, Vec<char>), b: &(u64, Vec<char>)) -> (res: bool)
    ensures
        res == key_lt((a.0, a.1@), (b.0, b.1@)),
{
    a.0 < b.0 || (a.0 == b.0 && chars_lt(&a.1, &b.1))
}

/// The positions of `keys` in stable sorted order.
pub fn stable_order(keys: &Vec<(u64, Vec<char>)>) -> (order: Vec<usize>)
    ensures
        stable_sorted(key_views(keys@), order@),
{
    let ghost kv = key_views(keys@);
    let n = keys.len();
    let mut order: Vec<usize> = Vec::new();
    let mut i: usize = 0;
    while i < n
        invariant
            n == keys.len(),
            kv == key_views(keys@),
            i <= n,
            order.len() == i,
            forall|p: int| 0 <= p < order.len() ==> #[trigger] order@[p] < i,
            forall|p: int, q: int| 0 <= p < q < order.len() ==> order@[p] != order@[q],
            forall|k: int| 0 <= k < i ==> #[trigger] order@.contains(k as usize),
            forall|p: int, q: int|
                0 <= p < q < order.len() ==> !key_lt(key_at(kv, order@[q] as int), key_at(kv, order@[p] as int)),
            forall|p: int, q: int|
                0 <= p < q < order.len() && key_at(kv, order@[p] as int) == key_at(kv, order@[q] as int)
                    ==> order@[p] < order@[q],
        decreases n - i,
    {
        let mut j: usize = order.len();
        while j > 0 && key_less(&keys[i], &keys[order[j - 1]])
            invariant
                n == keys.len(),
                kv == key_views(keys@),
                i < n,
                j <= order.len(),
                order.len() == i,
                forall|p: int| 0 <= p < order.len() ==> #[trigger] order@[p] < i,
                forall|p: int| j <= p < order.len() ==> key_lt(key_at(kv, i as int), #[trigger] key_at(kv, order@[p] as int)),
            decreases j,
        {
            j = j - 1;
        }
        let ghost old_order = order@;
        let ghost ki = key_at(kv, i as int);
        order.insert(j, i);
        assert(order@ =~= old_order.insert(j as int, i));
        proof {
            assert forall|p: int, q: int| 0 <= p < q < order.len() implies
                !key_lt(key_at(kv, order@[q] as int), key_at(kv, order@[p] as int)) && (
                key_at(kv, order@[p] as int) == key_at(kv, order@[q] as int) ==> order@[p] < order@[q]) by {
                let kp = key_at(kv, order@[p] as int);
                let kq = key_at(kv, order@[q] as int);
                if q < j {
                    assert(order@[p] == old_order[p] && order@[q] == old_order[q]);
                } else if q == j {
                    // p < j: kp <= old[j-1] <= ki
                    let kl = key_at(kv, old_order[j - 1] as int);
                    lemma_key_order(ki, kl, kp);
                    lemma_key_order(kp, kl, ki);
                    lemma_key_order(kl, ki, kp);
                    if p < j - 1 {
                        assert(!key_lt(kl, kp));
                    }
                } else if p == j {
                    assert(order@[q] == old_order[q - 1]);
                    lemma_key_order(ki, kq, ki);
                } else if p < j {
                    assert(order@[p] == old_order[p] && order@[q] == old_order[q - 1]);
                } else {
                    assert(order@[p] == old_order[p - 1] && order@[q] == old_order[q - 1]);
                }
            }
            assert forall|k: int| 0 <= k < i + 1 implies #[trigger] order@.contains(k as usize) by {
                if k == i {
                    assert(order@[j as int] == i);
                } else {
                    assert(old_order.contains(k as usize));
                    let w = choose|w: int| 0 <= w < old_order.len() && old_order[w] == k as usize;
                    if w < j {
                        assert(order@[w] == k as usize);
                    } else {
                        assert(order@[w + 1] == k as usize);
                    }
                }
            }
        }
        i = i + 1;
    }
    order
}

} // verus!
