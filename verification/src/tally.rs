//! Totals over the repair counts that a repairer keeps per repairer id.
use std::collections::HashMap;
use vstd::prelude::*;
use vstd::std_specs::iter::IteratorSpec;

use crate::text::{entries_body, entries_text, entry_text, push_decimal, push_str};

verus! {

/// One step of the total: adds the count kept for `k`.
pub open spec fn tally_step(m: Map<u32, u32>) -> spec_fn(nat, u32) -> nat {
    |acc: nat, k: u32| acc + m[k] as nat
}

/// The sum of all the counts in `m`.
pub open spec fn map_total(m: Map<u32, u32>) -> nat {
    m.dom().fold(0nat, tally_step(m))
}

/// The sum of the second components of `v`.
pub open spec fn pairs_sum(v: Seq<(u32, u32)>) -> nat
    decreases v.len(),
{
    if v.len() == 0 {
        0
    } else {
        pairs_sum(v.drop_last()) + v.last().1 as nat
    }
}

/// The keys of the first `i` pairs of `v`.
spec fn keys_prefix(v: Seq<(u32, u32)>, i: int) -> Set<u32>
    decreases i,
{
    if i <= 0 {
        Set::empty()
    } else {
        keys_prefix(v, i - 1).insert(v[i - 1].0)
    }
}

/// `v` lists the entries of `m`, each once.
pub open spec fn lists_entries(v: Seq<(u32, u32)>, m: Map<u32, u32>) -> bool {
    &&& forall|i: int| 0 <= i < v.len() ==> #[trigger] m.contains_key(v[i].0) && m[v[i].0] == v[i].1
    &&& forall|k: u32| #[trigger] m.contains_key(k) ==> v.contains((k, m[k]))
    &&& v.no_duplicates()
}

proof fn lemma_keys_distinct(v: Seq<(u32, u32)>, m: Map<u32, u32>, i: int, j: int)
    requires
        lists_entries(v, m),
        0 <= i < v.len(),
        0 <= j < v.len(),
        i != j,
    ensures
        v[i].0 != v[j].0,
{
    assert(m.contains_key(v[i].0));
    assert(m.contains_key(v[j].0));
}

proof fn lemma_keys_prefix(v: Seq<(u32, u32)>, m: Map<u32, u32>, i: int)
    requires
        lists_entries(v, m),
        0 <= i <= v.len(),
    ensures
        keys_prefix(v, i).finite(),
        forall|k: u32| #[trigger]
            keys_prefix(v, i).contains(k) <==> exists|j: int| 0 <= j < i && v[j].0 == k,
        keys_prefix(v, i).fold(0nat, tally_step(m)) == pairs_sum(v.take(i)),
    decreases i,
{
    let f = tally_step(m);
    assert(vstd::set::fold::is_fun_commutative(f));
    if i == 0 {
        assert(v.take(0).len() == 0);
        vstd::set::fold::lemma_fold_empty(0nat, f);
    } else {
        lemma_keys_prefix(v, m, i - 1);
        let kp = keys_prefix(v, i - 1);
        let k = v[i - 1].0;
        assert(!kp.contains(k)) by {
            if kp.contains(k) {
                let j = choose|j: int| 0 <= j < i - 1 && v[j].0 == k;
                lemma_keys_distinct(v, m, j, i - 1);
            }
        }
        vstd::set::fold::lemma_fold_insert(kp, 0nat, f, k);
        assert(v.take(i).drop_last() == v.take(i - 1));
        assert(m.contains_key(v[i - 1].0));
        assert forall|k2: u32| #[trigger]
            keys_prefix(v, i).contains(k2) <==> exists|j: int| 0 <= j < i && v[j].0 == k2 by {
            if keys_prefix(v, i).contains(k2) && k2 != k {
                assert(kp.contains(k2));
                let j = choose|j: int| 0 <= j < i - 1 && v[j].0 == k2;
                assert(0 <= j < i && v[j].0 == k2);
            }
            if exists|j: int| 0 <= j < i && v[j].0 == k2 {
                let j = choose|j: int| 0 <= j < i && v[j].0 == k2;
                if j < i - 1 {
                    assert(kp.contains(k2));
                }
            }
        }
    }
}

/// Summing the entries of a map in any order that lists each once gives the
/// total of the map.
pub proof fn lemma_pairs_sum_is_total(v: Seq<(u32, u32)>, m: Map<u32, u32>)
    requires
        lists_entries(v, m),
    ensures
        pairs_sum(v) == map_total(m),
{
    lemma_keys_prefix(v, m, v.len() as int);
    assert(v.take(v.len() as int) == v);
    assert forall|k: u32| keys_prefix(v, v.len() as int).contains(k) <==> m.dom().contains(k) by {
        if m.dom().contains(k) {
            assert(m.contains_key(k));
            let j = choose|j: int| 0 <= j < v.len() && v[j] == (k, m[k]);
            assert(v[j].0 == k);
        }
        if keys_prefix(v, v.len() as int).contains(k) {
            let j = choose|j: int| 0 <= j < v.len() && v[j].0 == k;
            assert(m.contains_key(v[j].0));
        }
    }
    assert(keys_prefix(v, v.len() as int) =~= m.dom());
}

/// A sum over the first pairs is at most the sum over all of them.
pub proof fn lemma_pairs_sum_prefix(v: Seq<(u32, u32)>, i: int)
    requires
        0 <= i <= v.len(),
    ensures
        pairs_sum(v.take(i)) <= pairs_sum(v),
    decreases v.len() - i,
{
    if i < v.len() {
        lemma_pairs_sum_prefix(v, i + 1);
        assert(v.take(i + 1).drop_last() == v.take(i));
    } else {
        assert(v.take(i) == v);
    }
}

/// The entries that the iterator of `m` hands out list the entries of `m`,
/// each once.
proof fn lemma_iter_lists_entries(m: &HashMap<u32, u32>, iter: std::collections::hash_map::Iter<'_, u32, u32>)
    requires
        iter == vstd::std_specs::hash::spec_hash_map_iter(m),
        iter.remaining().no_duplicates(),
    ensures
        lists_entries(iter.remaining().unref(), m@),
{
    let pairs = iter.remaining().unref();
    assert forall|i: int| 0 <= i < pairs.len() implies #[trigger] m@.contains_key(pairs[i].0)
        && m@[pairs[i].0] == pairs[i].1 by {
        assert(m@.contains_key(*iter.remaining()[i].0));
    }
    assert forall|k: u32| #[trigger] m@.contains_key(k) implies pairs.contains((k, m@[k])) by {
        assert(iter.remaining().contains((&k, &m@[k])));
        let j = choose|j: int| 0 <= j < iter.remaining().len() && iter.remaining()[j] == (&k, &m@[k]);
        assert(pairs[j] == (k, m@[k]));
    }
    assert forall|i: int, j: int|
        0 <= i < pairs.len() && 0 <= j < pairs.len() && i != j implies pairs[i] != pairs[j] by {
        assert(iter.remaining()[i] != iter.remaining()[j]);
    }
}

/// Appends the debug text of `m` to `s`: its entries, in the order in which
/// the map hands them out, which no clause fixes.
pub fn push_map(s: &mut String, m: &HashMap<u32, u32>)
    ensures
        exists|v: Seq<(u32, u32)>|
            lists_entries(v, m@) && #[trigger] entries_text(v) == final(s)@.subrange(
                old(s)@.len() as int,
                final(s)@.len() as int,
            ),
        final(s)@.subrange(0, old(s)@.len() as int) == old(s)@,
        final(s)@.len() >= old(s)@.len(),
{
    let iter = m.iter();
    let ghost pairs = iter.remaining().unref();
    proof {
        lemma_iter_lists_entries(m, iter);
        reveal_strlit("{");
    }
    push_str(s, "{");
    let ghost start = s@;
    let mut first = true;
    for entry in it: iter
        invariant
            it.seq() == iter.remaining(),
            pairs == it.seq().unref(),
            s@ == start + entries_body(pairs.take(it.index())),
            first == (it.index() == 0),
    {
        let ghost i = it.index();
        let ghost prev = s@;
        assert(pairs.take(i + 1).drop_last() == pairs.take(i));
        assert(pairs.take(i + 1).last() == pairs[i]);
        assert(pairs[i] == (*entry.0, *entry.1));
        if !first {
            proof {
                reveal_strlit(", ");
            }
            push_str(s, ", ");
        } else {
            assert(pairs.take(0).len() == 0);
            assert(entries_body(pairs.take(0)) == Seq::<char>::empty());
            assert(pairs.take(1).len() == 1);
        }
        let ghost before_entry = s@;
        push_decimal(s, *entry.0);
        proof {
            reveal_strlit(": ");
        }
        push_str(s, ": ");
        push_decimal(s, *entry.1);
        assert(s@ =~= before_entry + entry_text(pairs[i]));
        assert(s@ =~= start + entries_body(pairs.take(i + 1)));
        first = false;
    }
    proof {
        reveal_strlit("}");
    }
    push_str(s, "}");
    assert(pairs.take(pairs.len() as int) == pairs);
    assert(s@.subrange(old(s)@.len() as int, s@.len() as int) =~= entries_text(pairs));
    assert(s@.subrange(0, old(s)@.len() as int) =~= old(s)@);
}

/// The sum of the counts in `m`, or `None` where it does not fit in a `u32`.
pub fn checked_total(m: &HashMap<u32, u32>) -> (r: Option<u32>)
    ensures
        match r {
            Some(t) => t == map_total(m@),
            None => map_total(m@) > u32::MAX,
        },
{
    let iter = m.iter();
    let ghost pairs = iter.remaining().unref();
    proof {
        lemma_iter_lists_entries(m, iter);
        lemma_pairs_sum_is_total(pairs, m@);
    }
    let mut total: u32 = 0;
    for entry in it: iter
        invariant
            it.seq() == iter.remaining(),
            pairs == it.seq().unref(),
            total == pairs_sum(pairs.take(it.index())),
            pairs_sum(pairs) == map_total(m@),
    {
        proof {
            lemma_pairs_sum_prefix(pairs, it.index() + 1);
            assert(pairs.take(it.index() + 1).drop_last() == pairs.take(it.index()));
        }
        match total.checked_add(*entry.1) {
            Some(t) => {
                total = t;
            },
            None => {
                return None;
            },
        }
    }
    assert(pairs.take(pairs.len() as int) == pairs);
    Some(total)
}

} // verus!
