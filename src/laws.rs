use vstd::prelude::*;
use crate::store::{expiry_of, is_live, lookup, swept};

verus! {

/// A value inserted with a positive time-to-live is read back from the
/// instant of the insert until its time-to-live has run out.
pub proof fn lemma_read_after_insert<T>(
    m: Map<Seq<char>, (T, int)>,
    key: Seq<char>,
    value: T,
    ttl: nat,
    now: int,
    at: int,
)
    requires
        ttl > 0,
        now <= at < expiry_of(now, ttl as int),
    ensures
        lookup(m.insert(key, (value, expiry_of(now, ttl as int))), key, now) == Some(value),
        lookup(m.insert(key, (value, expiry_of(now, ttl as int))), key, at) == Some(value),
{
}

/// A value inserted with a time-to-live of zero is never read back, from the
/// instant of the insert on.
pub proof fn lemma_zero_ttl_reads_absent<T>(
    m: Map<Seq<char>, (T, int)>,
    key: Seq<char>,
    value: T,
    now: int,
    at: int,
)
    requires
        now <= at,
    ensures
        lookup(m.insert(key, (value, expiry_of(now, 0))), key, at) is None,
{
}

/// A key reads as absent after it is removed, whether or not it held a value.
pub proof fn lemma_read_after_remove<T>(m: Map<Seq<char>, (T, int)>, key: Seq<char>, at: int)
    ensures
        lookup(m.remove(key), key, at) is None,
{
}

/// Once its time-to-live has run out, a value reads as absent, whether or not a
/// sweep has run since.
pub proof fn lemma_read_after_expiry<T>(
    m: Map<Seq<char>, (T, int)>,
    key: Seq<char>,
    value: T,
    ttl: nat,
    now: int,
    at: int,
    sweep_at: int,
)
    requires
        expiry_of(now, ttl as int) <= at,
    ensures
        lookup(m.insert(key, (value, expiry_of(now, ttl as int))), key, at) is None,
        lookup(swept(m.insert(key, (value, expiry_of(now, ttl as int))), sweep_at), key, at) is None,
{
}

/// A sweep changes what no later read sees: it only drops entries that no
/// read at or after the sweep could return.
pub proof fn lemma_sweep_unobservable<T>(
    m: Map<Seq<char>, (T, int)>,
    key: Seq<char>,
    sweep_at: int,
    at: int,
)
    requires
        sweep_at <= at,
    ensures
        lookup(swept(m, sweep_at), key, at) == lookup(m, key, at),
{
}

/// A sweep after a key has expired drops that key and so holds fewer entries
/// than before.
pub proof fn lemma_sweep_reclaims<T>(m: Map<Seq<char>, (T, int)>, key: Seq<char>, now: int)
    requires
        m.dom().finite(),
        m.contains_key(key),
        !is_live(m[key].1, now),
    ensures
        !swept(m, now).contains_key(key),
        swept(m, now).len() < m.len(),
{
    let kept = swept(m, now).dom();
    assert(kept.subset_of(m.dom().remove(key)));
    vstd::set_lib::lemma_len_subset(kept, m.dom().remove(key));
}

/// Inserting a key again replaces both its value and its expiry: nothing of
/// the earlier insert remains.
pub proof fn lemma_reinsert_replaces<T>(
    m: Map<Seq<char>, (T, int)>,
    key: Seq<char>,
    first: T,
    first_ttl: nat,
    first_at: int,
    second: T,
    second_ttl: nat,
    second_at: int,
)
    ensures
        m.insert(key, (first, expiry_of(first_at, first_ttl as int))).insert(
            key,
            (second, expiry_of(second_at, second_ttl as int)),
        ) == m.insert(key, (second, expiry_of(second_at, second_ttl as int))),
{
    assert(m.insert(key, (first, expiry_of(first_at, first_ttl as int))).insert(
        key,
        (second, expiry_of(second_at, second_ttl as int)),
    ) =~= m.insert(key, (second, expiry_of(second_at, second_ttl as int))));
}

/// Whether `states` is a history of inserts: each state is the one before
/// it with `ops[j]`, a `(key, value, ttl, at)`, inserted at its own instant
/// `at` (in milliseconds), as `InMemoryCache::insert_item` guarantees of each
/// call.
pub open spec fn is_insert_history<T>(
    states: Seq<Map<Seq<char>, (T, int)>>,
    ops: Seq<(Seq<char>, T, nat, int)>,
) -> bool {
    &&& states.len() == ops.len() + 1
    &&& forall|j: int|
        0 <= j < ops.len() ==> #[trigger] states[j + 1] == states[j].insert(
            ops[j].0,
            (ops[j].1, expiry_of(ops[j].3, ops[j].2 as int)),
        )
}

/// A key that none of the inserts of a history names is, at its end, as it
/// was at its start.
pub proof fn lemma_insert_history_frame<T>(
    states: Seq<Map<Seq<char>, (T, int)>>,
    ops: Seq<(Seq<char>, T, nat, int)>,
    key: Seq<char>,
)
    requires
        is_insert_history(states, ops),
        forall|j: int| 0 <= j < ops.len() ==> #[trigger] ops[j].0 != key,
    ensures
        states.last().contains_key(key) == states[0].contains_key(key),
        states[0].contains_key(key) ==> states.last()[key] == states[0][key],
    decreases ops.len(),
{
    if ops.len() > 0 {
        let n = ops.len() - 1;
        let rest_states = states.drop_last();
        let rest_ops = ops.drop_last();
        assert(states[n + 1] == states[n].insert(ops[n].0, (ops[n].1, expiry_of(ops[n].3, ops[n].2 as int))));
        assert(ops[n].0 != key);
        assert forall|j: int| 0 <= j < rest_ops.len() implies #[trigger] rest_states[j + 1] == rest_states[j].insert(
            rest_ops[j].0,
            (rest_ops[j].1, expiry_of(rest_ops[j].3, rest_ops[j].2 as int)),
        ) by {
            assert(states[j + 1] == states[j].insert(ops[j].0, (ops[j].1, expiry_of(ops[j].3, ops[j].2 as int))));
        }
        assert forall|j: int| 0 <= j < rest_ops.len() implies #[trigger] rest_ops[j].0 != key by {
            assert(ops[j].0 != key);
        }
        lemma_insert_history_frame(rest_states, rest_ops, key);
    }
}

/// Inserts of distinct keys, in whatever order a lock lets them through, lose
/// none of each other's writes: after the last one, each key holds its own
/// value and expiry and is read back for as long as its time-to-live runs.
pub proof fn lemma_distinct_inserts_all_readable<T>(
    states: Seq<Map<Seq<char>, (T, int)>>,
    ops: Seq<(Seq<char>, T, nat, int)>,
    i: int,
    at: int,
)
    requires
        is_insert_history(states, ops),
        forall|a: int, b: int| 0 <= a < b < ops.len() ==> #[trigger] ops[a].0 != #[trigger] ops[b].0,
        0 <= i < ops.len(),
        at < expiry_of(ops[i].3, ops[i].2 as int),
    ensures
        states.last().contains_key(ops[i].0),
        states.last()[ops[i].0] == (ops[i].1, expiry_of(ops[i].3, ops[i].2 as int)),
        lookup(states.last(), ops[i].0, at) == Some(ops[i].1),
{
    let later_states = states.subrange(i + 1, states.len() as int);
    let later_ops = ops.subrange(i + 1, ops.len() as int);
    assert(states[i + 1] == states[i].insert(ops[i].0, (ops[i].1, expiry_of(ops[i].3, ops[i].2 as int))));
    assert forall|j: int| 0 <= j < later_ops.len() implies #[trigger] later_states[j + 1] == later_states[j].insert(
        later_ops[j].0,
        (later_ops[j].1, expiry_of(later_ops[j].3, later_ops[j].2 as int)),
    ) by {
        let g = j + i + 1;
        assert(states[g + 1] == states[g].insert(ops[g].0, (ops[g].1, expiry_of(ops[g].3, ops[g].2 as int))));
    }
    assert forall|j: int| 0 <= j < later_ops.len() implies #[trigger] later_ops[j].0 != ops[i].0 by {
        assert(ops[i].0 != ops[j + i + 1].0);
    }
    lemma_insert_history_frame(later_states, later_ops, ops[i].0);
    assert(later_states.last() == states.last());
}

} // verus!
