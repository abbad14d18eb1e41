//! Folding counter rows into per-LUID tables. A row carries the LUID read
//! from its instance name (`None` when the name holds none) and a reading.
use vstd::prelude::*;
use std::collections::HashMap;

verus! {

broadcast use vstd::std_specs::hash::group_hash_axioms;

/// Some row carries `key`.
pub open spec fn has_key(rows: Seq<(Option<i64>, u64)>, key: i64) -> bool {
    exists|i: int| 0 <= i < rows.len() && (#[trigger] rows[i]).0 == Some(key)
}

/// The running total of the readings of the rows that carry `key`, taken in
/// order, where each step adds the reading and caps the sum at `cap`.
pub open spec fn capped_total(rows: Seq<(Option<i64>, u64)>, key: i64, cap: nat) -> nat
    decreases rows.len(),
{
    if rows.len() == 0 {
        0
    } else {
        let prev = capped_total(rows.drop_last(), key, cap);
        if rows.last().0 == Some(key) {
            if prev + rows.last().1 >= cap {
                cap
            } else {
                (prev + rows.last().1) as nat
            }
        } else {
            prev
        }
    }
}

/// The reading of the last row that carries `key` (0 when none does).
pub open spec fn latest_reading(rows: Seq<(Option<i64>, u64)>, key: i64) -> u64
    decreases rows.len(),
{
    if rows.len() == 0 {
        0
    } else if rows.last().0 == Some(key) {
        rows.last().1
    } else {
        latest_reading(rows.drop_last(), key)
    }
}

/// The plain sum of the readings of the rows that carry `key`.
pub open spec fn key_sum(rows: Seq<(Option<i64>, u64)>, key: i64) -> nat
    decreases rows.len(),
{
    if rows.len() == 0 {
        0
    } else {
        key_sum(rows.drop_last(), key) + if rows.last().0 == Some(key) {
            rows.last().1 as nat
        } else {
            0nat
        }
    }
}

/// The smaller of `a` and `b`.
pub open spec fn min_nat(a: nat, b: nat) -> nat {
    if a <= b {
        a
    } else {
        b
    }
}

/// Row `i` carries `key` and no later row does.
pub open spec fn last_row_with_key(rows: Seq<(Option<i64>, u64)>, key: i64, i: int) -> bool {
    &&& 0 <= i < rows.len()
    &&& rows[i].0 == Some(key)
    &&& forall|j: int| i < j < rows.len() ==> rows[j].0 != Some(key)
}

/// Capping after every step gives the same as capping once: the capped
/// running total of a key is the smaller of the cap and the plain sum of all
/// its readings, however rows of other keys are interleaved with them.
pub proof fn lemma_capped_total_is_capped_sum(rows: Seq<(Option<i64>, u64)>, key: i64, cap: nat)
    ensures
        capped_total(rows, key, cap) == min_nat(cap, key_sum(rows, key)),
    decreases rows.len(),
{
    if rows.len() > 0 {
        lemma_capped_total_is_capped_sum(rows.drop_last(), key, cap);
    }
}

/// The sum over two batches of rows is the sum of their sums.
pub proof fn lemma_key_sum_concat(a: Seq<(Option<i64>, u64)>, b: Seq<(Option<i64>, u64)>, key: i64)
    ensures
        key_sum(a + b, key) == key_sum(a, key) + key_sum(b, key),
    decreases b.len(),
{
    if b.len() == 0 {
        assert(a + b =~= a);
    } else {
        assert((a + b).drop_last() =~= a + b.drop_last());
        lemma_key_sum_concat(a, b.drop_last(), key);
    }
}

/// The order in which rows arrive does not matter: folding `a` then `b`
/// gives every key the same capped total as folding `b` then `a`.
pub proof fn lemma_capped_total_order_free(
    a: Seq<(Option<i64>, u64)>,
    b: Seq<(Option<i64>, u64)>,
    key: i64,
    cap: nat,
)
    ensures
        capped_total(a + b, key, cap) == capped_total(b + a, key, cap),
{
    lemma_capped_total_is_capped_sum(a + b, key, cap);
    lemma_capped_total_is_capped_sum(b + a, key, cap);
    lemma_key_sum_concat(a, b, key);
    lemma_key_sum_concat(b, a, key);
}

/// The latest reading of a key that some row carries is the reading of the
/// last row that carries it.
pub proof fn lemma_latest_reading_is_last_row(rows: Seq<(Option<i64>, u64)>, key: i64)
    requires
        has_key(rows, key),
    ensures
        exists|i: int| last_row_with_key(rows, key, i) && latest_reading(rows, key) == rows[i].1,
    decreases rows.len(),
{
    let n = rows.len() as int;
    if rows.last().0 == Some(key) {
        assert(last_row_with_key(rows, key, n - 1));
    } else {
        let r = rows.drop_last();
        let i0 = choose|i: int| 0 <= i < rows.len() && (#[trigger] rows[i]).0 == Some(key);
        assert(i0 < n - 1);
        assert(r[i0] == rows[i0]);
        assert(has_key(r, key));
        lemma_latest_reading_is_last_row(r, key);
        let i = choose|i: int| last_row_with_key(r, key, i) && latest_reading(r, key) == r[i].1;
        assert(rows[i] == r[i]);
        assert forall|j: int| i < j < rows.len() implies rows[j].0 != Some(key) by {
            if j < n - 1 {
                assert(rows[j] == r[j]);
            }
        }
        assert(last_row_with_key(rows, key, i));
    }
}

/// A capped total never exceeds its cap.
pub proof fn lemma_capped_total_at_most_cap(rows: Seq<(Option<i64>, u64)>, key: i64, cap: nat)
    ensures
        capped_total(rows, key, cap) <= cap,
    decreases rows.len(),
{
    if rows.len() > 0 {
        lemma_capped_total_at_most_cap(rows.drop_last(), key, cap);
    }
}

proof fn lemma_has_key_step(rows: Seq<(Option<i64>, u64)>, i: int, key: i64)
    requires
        0 <= i < rows.len(),
    ensures
        has_key(rows.take(i + 1), key) <==> (has_key(rows.take(i), key) || rows[i].0 == Some(
            key,
        )),
{
    let a = rows.take(i + 1);
    let b = rows.take(i);
    if has_key(a, key) {
        let j = choose|j: int| 0 <= j < a.len() && (#[trigger] a[j]).0 == Some(key);
        if j < i {
            assert(b[j] == a[j]);
        }
    }
    if has_key(b, key) {
        let j = choose|j: int| 0 <= j < b.len() && (#[trigger] b[j]).0 == Some(key);
        assert(a[j] == b[j]);
    }
    if rows[i].0 == Some(key) {
        assert(a[i] == rows[i]);
    }
}

/// For every LUID that some row carries, the capped running total of its
/// readings (each step: add, then cap at `cap`). Rows without a LUID are
/// skipped.
pub fn capped_totals_by_key(rows: &Vec<(Option<i64>, u64)>, cap: u64) -> (m: HashMap<i64, u64>)
    ensures
        forall|k: i64| #[trigger] m@.contains_key(k) <==> has_key(rows@, k),
        forall|k: i64| #[trigger]
            m@.contains_key(k) ==> m@[k] as nat == capped_total(rows@, k, cap as nat),
        forall|k: i64| #[trigger]
            m@.contains_key(k) ==> m@[k] as nat == min_nat(cap as nat, key_sum(rows@, k)),
{
    let mut m: HashMap<i64, u64> = HashMap::new();
    let mut i: usize = 0;
    while i < rows.len()
        invariant
            i <= rows.len(),
            forall|k: i64| #[trigger] m@.contains_key(k) <==> has_key(rows@.take(i as int), k),
            forall|k: i64| #[trigger]
                m@.contains_key(k) ==> m@[k] as nat == capped_total(
                    rows@.take(i as int),
                    k,
                    cap as nat,
                ),
        decreases rows.len() - i,
    {
        let (key, reading) = rows[i];
        let ghost before = m@;
        proof {
            assert(rows@.take(i + 1).drop_last() =~= rows@.take(i as int));
            assert forall|k: i64| #[trigger]
                has_key(rows@.take(i + 1), k) <==> (has_key(rows@.take(i as int), k) || rows@[i as int].0
                    == Some(k)) by {
                lemma_has_key_step(rows@, i as int, k);
            }
        }
        match key {
            Some(k) => {
                let prev: u64 = match m.get(&k) {
                    Some(p) => *p,
                    None => 0,
                };
                proof {
                    if !before.contains_key(k) {
                        assert(!has_key(rows@.take(i as int), k));
                        lemma_capped_total_zero(rows@.take(i as int), k, cap as nat);
                    }
                }
                let next = if reading >= cap || prev >= cap - reading {
                    cap
                } else {
                    prev + reading
                };
                m.insert(k, next);
            },
            None => {},
        }
        i = i + 1;
    }
    assert(rows@.take(i as int) =~= rows@);
    proof {
        assert forall|k: i64| #[trigger] m@.contains_key(k) implies m@[k] as nat == min_nat(
            cap as nat,
            key_sum(rows@, k),
        ) by {
            lemma_capped_total_is_capped_sum(rows@, k, cap as nat);
        }
    }
    m
}

proof fn lemma_capped_total_zero(rows: Seq<(Option<i64>, u64)>, key: i64, cap: nat)
    requires
        !has_key(rows, key),
    ensures
        capped_total(rows, key, cap) == 0,
    decreases rows.len(),
{
    if rows.len() > 0 {
        assert(rows.last() == rows[rows.len() - 1]);
        assert forall|j: int| 0 <= j < rows.drop_last().len() implies (
        #[trigger] rows.drop_last()[j]).0 != Some(key) by {
            assert(rows.drop_last()[j] == rows[j]);
        }
        lemma_capped_total_zero(rows.drop_last(), key, cap);
    }
}

/// For every LUID that some row carries, the reading of the last such row.
/// Rows without a LUID are skipped.
pub fn latest_by_key(rows: &Vec<(Option<i64>, u64)>) -> (m: HashMap<i64, u64>)
    ensures
        forall|k: i64| #[trigger] m@.contains_key(k) <==> has_key(rows@, k),
        forall|k: i64| #[trigger] m@.contains_key(k) ==> m@[k] == latest_reading(rows@, k),
        forall|k: i64| #[trigger]
            m@.contains_key(k) ==> exists|i: int| last_row_with_key(rows@, k, i) && m@[k] == rows@[i].1,
{
    let mut m: HashMap<i64, u64> = HashMap::new();
    let mut i: usize = 0;
    while i < rows.len()
        invariant
            i <= rows.len(),
            forall|k: i64| #[trigger] m@.contains_key(k) <==> has_key(rows@.take(i as int), k),
            forall|k: i64| #[trigger]
                m@.contains_key(k) ==> m@[k] == latest_reading(rows@.take(i as int), k),
        decreases rows.len() - i,
    {
        let (key, reading) = rows[i];
        proof {
            assert(rows@.take(i + 1).drop_last() =~= rows@.take(i as int));
            assert forall|k: i64| #[trigger]
                has_key(rows@.take(i + 1), k) <==> (has_key(rows@.take(i as int), k) || rows@[i as int].0
                    == Some(k)) by {
                lemma_has_key_step(rows@, i as int, k);
            }
        }
        match key {
            Some(k) => {
                m.insert(k, reading);
            },
            None => {},
        }
        i = i + 1;
    }
    assert(rows@.take(i as int) =~= rows@);
    proof {
        assert forall|k: i64| #[trigger] m@.contains_key(k) implies exists|i: int|
            last_row_with_key(rows@, k, i) && m@[k] == rows@[i].1 by {
            lemma_latest_reading_is_last_row(rows@, k);
        }
    }
    m
}

} // verus!
