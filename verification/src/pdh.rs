//! Dedicated GPU memory per adapter from the performance-counter rows
//! `\GPU Adapter Memory(*)\Dedicated Usage`.
use vstd::prelude::*;
use crate::luid::{
    lemma_luid_key_matches, lemma_luid_of_name_in_i64, luid_key, luid_of_name, parse_luid_from_name,
};
use crate::aggregate::{has_key, last_row_with_key, latest_by_key, latest_reading};
use std::collections::HashMap;

verus! {

/// The counter rows (instance name, bytes) as (LUID, bytes) pairs.
pub open spec fn counter_keys(rows: Seq<(String, u64)>) -> Seq<(Option<i64>, u64)> {
    rows.map_values(|r: (String, u64)| (luid_key(luid_of_name(r.0@)), r.1))
}

fn key_counter_rows(rows: &Vec<(String, u64)>) -> (v: Vec<(Option<i64>, u64)>)
    ensures
        v@ == counter_keys(rows@),
{
    let mut v: Vec<(Option<i64>, u64)> = Vec::new();
    let mut i: usize = 0;
    while i < rows.len()
        invariant
            i <= rows.len(),
            v@ == counter_keys(rows@.take(i as int)),
        decreases rows.len() - i,
    {
        let row = &rows[i];
        let key = parse_luid_from_name(row.0.as_str());
        v.push((key, row.1));
        assert(counter_keys(rows@.take(i + 1)) =~= counter_keys(rows@.take(i as int)).push(
            (luid_key(luid_of_name(row.0@)), row.1),
        ));
        i = i + 1;
    }
    assert(rows@.take(i as int) =~= rows@);
    v
}

/// The row's instance name carries the LUID `k`.
pub open spec fn row_names_luid(row: (String, u64), k: i64) -> bool {
    luid_of_name(row.0@) == Some(k as int)
}

/// Row `i` is the last row whose instance name carries the LUID `k`.
pub open spec fn last_counter_row(rows: Seq<(String, u64)>, k: i64, i: int) -> bool {
    &&& 0 <= i < rows.len()
    &&& row_names_luid(rows[i], k)
    &&& forall|j: int| i < j < rows.len() ==> !row_names_luid(#[trigger] rows[j], k)
}

proof fn lemma_counter_key_at(rows: Seq<(String, u64)>, i: int, k: i64)
    requires
        0 <= i < rows.len(),
    ensures
        counter_keys(rows)[i].1 == rows[i].1,
        (counter_keys(rows)[i].0 == Some(k)) == row_names_luid(rows[i], k),
{
    lemma_luid_of_name_in_i64(rows[i].0@);
    lemma_luid_key_matches(luid_of_name(rows[i].0@), k);
}

/// The dedicated memory in use per adapter: for every LUID that some row's
/// instance name carries, the reading of the last such row. Rows whose name
/// carries no LUID are skipped.
pub fn mem_used_by_luid(rows: &Vec<(String, u64)>) -> (m: HashMap<i64, u64>)
    ensures
        forall|k: i64| #[trigger] m@.contains_key(k) <==> has_key(counter_keys(rows@), k),
        forall|k: i64| #[trigger]
            m@.contains_key(k) ==> m@[k] == latest_reading(counter_keys(rows@), k),
        forall|k: i64| #[trigger]
            m@.contains_key(k) <==> exists|i: int|
                0 <= i < rows@.len() && #[trigger] row_names_luid(rows@[i], k),
        forall|k: i64| #[trigger]
            m@.contains_key(k) ==> exists|i: int| last_counter_row(rows@, k, i) && m@[k] == rows@[i].1,
{
    let keyed = key_counter_rows(rows);
    let m = latest_by_key(&keyed);
    proof {
        assert forall|k: i64| #[trigger] m@.contains_key(k) <==> exists|i: int|
            0 <= i < rows@.len() && #[trigger] row_names_luid(rows@[i], k) by {
            if has_key(counter_keys(rows@), k) {
                let i = choose|i: int|
                    0 <= i < counter_keys(rows@).len() && (#[trigger] counter_keys(rows@)[i]).0
                        == Some(k);
                lemma_counter_key_at(rows@, i, k);
            }
            if exists|i: int| 0 <= i < rows@.len() && #[trigger] row_names_luid(rows@[i], k) {
                let i = choose|i: int| 0 <= i < rows@.len() && #[trigger] row_names_luid(rows@[i], k);
                lemma_counter_key_at(rows@, i, k);
                assert(counter_keys(rows@)[i].0 == Some(k));
            }
        }
        assert forall|k: i64| #[trigger] m@.contains_key(k) implies exists|i: int|
            last_counter_row(rows@, k, i) && m@[k] == rows@[i].1 by {
            let i = choose|i: int|
                last_row_with_key(counter_keys(rows@), k, i) && m@[k] == counter_keys(rows@)[i].1;
            lemma_counter_key_at(rows@, i, k);
            assert forall|j: int| i < j < rows@.len() implies !row_names_luid(
                #[trigger] rows@[j],
                k,
            ) by {
                lemma_counter_key_at(rows@, j, k);
            }
            assert(last_counter_row(rows@, k, i));
        }
    }
    m
}

} // verus!
