//! GPU utilization and dedicated-memory figures gathered through WMI, keyed by
//! adapter LUID.
use vstd::prelude::*;
use crate::luid::{
    compose_luid, hex_range_value, luid_field_bounds, luid_fields, luid_value, parse_hex_i64, skip_0x,
    trim_0x, two_pow_32, without_plus, parse_hex_u32, is_hex_digit, counter_instance_name, tag_at, luid_of_name,
    lemma_counter_name_fields, lemma_prefixed_field, luid_key, lemma_fields_ignore_prefix,
    lemma_luid_value_in_i64, lemma_luid_key_matches,
};
use crate::text::chars_of;
use crate::aggregate::{
    capped_total, capped_totals_by_key, has_key, latest_by_key, latest_reading,
    lemma_capped_total_at_most_cap, key_sum, min_nat, last_row_with_key,
};
use std::collections::HashMap;

verus! {

/// One row of the GPU engine utilization counters: the instance name and the
/// utilization in percent.
pub struct GpuEngineRow {
    pub name: String,
    pub utilization_percentage: u64,
}

/// One row of the GPU adapter memory counters: the instance name and the
/// dedicated memory in use, in bytes.
pub struct GpuMemoryRow {
    pub name: String,
    pub dedicated_usage: u64,
}

/// Per-adapter GPU figures keyed by LUID: utilization in whole percent (the
/// engines' readings summed and capped at 100) and dedicated memory in use.
pub struct WmiGpuStats {
    pub usage_by_luid: HashMap<i64, u64>,
    pub mem_used_by_luid: HashMap<i64, u64>,
}

/// The engine rows as (LUID, utilization) pairs.
pub open spec fn engine_keys(rows: Seq<GpuEngineRow>) -> Seq<(Option<i64>, u64)> {
    rows.map_values(
        |r: GpuEngineRow| (luid_key(wmi_luid_of_name(r.name@)), r.utilization_percentage),
    )
}

/// The memory rows as (LUID, bytes) pairs.
pub open spec fn memory_keys(rows: Seq<GpuMemoryRow>) -> Seq<(Option<i64>, u64)> {
    rows.map_values(|r: GpuMemoryRow| (luid_key(wmi_luid_of_name(r.name@)), r.dedicated_usage))
}

/// The LUID that the WMI counter reader takes from an instance name: the same
/// two fields as [`luid_of_name`], each read as a signed base-16 `i64`, then
/// combined as `(high << 32) | (low & 0xFFFF_FFFF)` in 64-bit arithmetic.
pub open spec fn wmi_luid_of_name(s: Seq<char>) -> Option<int> {
    match luid_fields(s) {
        None => None,
        Some((h, l)) => match (parse_hex_i64(trim_0x(h)), parse_hex_i64(trim_0x(l))) {
            (Some(high), Some(low)) => Some(
                luid_value((high % two_pow_32()) as nat, (low % two_pow_32()) as nat),
            ),
            _ => None,
        },
    }
}

/// The field `v[from..to]` read as a signed base-16 `i64`, after removing its
/// leading `"0x"`s.
fn field_as_i64(v: &Vec<char>, from: usize, to: usize) -> (r: Option<i64>)
    requires
        from <= to <= v.len(),
    ensures
        r matches Some(x) ==> parse_hex_i64(trim_0x(v@.subrange(from as int, to as int))) == Some(
            x as int,
        ),
        r is None ==> parse_hex_i64(trim_0x(v@.subrange(from as int, to as int))) is None,
{
    let start = skip_0x(v, from, to);
    let ghost s = v@.subrange(start as int, to as int);
    if start < to && v[start] == '-' {
        assert(s.drop_first() =~= v@.subrange(start + 1, to as int));
        match hex_range_value(v, start + 1, to, 0x8000_0000_0000_0000) {
            Some(m) => {
                let neg: i128 = 0i128 - m as i128;
                Some(neg as i64)
            },
            None => None,
        }
    } else {
        let mut digits = start;
        if start < to && v[start] == '+' {
            assert(s.drop_first() =~= v@.subrange(start + 1, to as int));
            digits = start + 1;
        }
        proof {
            if s.len() > 0 {
                assert(s[0] == v@[start as int]);
            }
        }
        assert(without_plus(s) == v@.subrange(digits as int, to as int));
        match hex_range_value(v, digits, to, 0x7FFF_FFFF_FFFF_FFFF) {
            Some(m) => Some(m as i64),
            None => None,
        }
    }
}

/// `x` modulo `2^32` (always in `0..2^32`).
fn low_word(x: i64) -> (r: u32)
    ensures
        r as int == x as int % two_pow_32(),
{
    if x >= 0 {
        ((x as u64) % 0x1_0000_0000) as u32
    } else {
        let a: u64 = (0i128 - x as i128) as u64;
        let m = a % 0x1_0000_0000;
        assert(a == (a / 0x1_0000_0000) * 0x1_0000_0000 + m);
        if m == 0 {
            0
        } else {
            (0x1_0000_0000 - m) as u32
        }
    }
}

/// Every LUID the WMI reader finds lies in the `i64` range.
pub proof fn lemma_wmi_luid_in_i64(s: Seq<char>)
    ensures
        wmi_luid_of_name(s) matches Some(v) ==> i64::MIN <= v <= i64::MAX,
{
    match luid_fields(s) {
        None => {},
        Some((h, l)) => match (parse_hex_i64(trim_0x(h)), parse_hex_i64(trim_0x(l))) {
            (Some(high), Some(low)) => lemma_luid_value_in_i64(
                (high % two_pow_32()) as nat,
                (low % two_pow_32()) as nat,
            ),
            _ => {},
        },
    }
}

/// The WMI reader finds the LUID `k` in `name`.
pub open spec fn names_luid(name: Seq<char>, k: i64) -> bool {
    wmi_luid_of_name(name) == Some(k as int)
}

/// The sum of the utilization readings of the engine rows whose name carries
/// the LUID `k`.
pub open spec fn engine_usage_sum(engines: Seq<GpuEngineRow>, k: i64) -> nat
    decreases engines.len(),
{
    if engines.len() == 0 {
        0
    } else {
        engine_usage_sum(engines.drop_last(), k) + if names_luid(engines.last().name@, k) {
            engines.last().utilization_percentage as nat
        } else {
            0nat
        }
    }
}

proof fn lemma_engine_key_at(engines: Seq<GpuEngineRow>, i: int, k: i64)
    requires
        0 <= i < engines.len(),
    ensures
        engine_keys(engines)[i].1 == engines[i].utilization_percentage,
        (engine_keys(engines)[i].0 == Some(k)) == names_luid(engines[i].name@, k),
{
    lemma_wmi_luid_in_i64(engines[i].name@);
    lemma_luid_key_matches(wmi_luid_of_name(engines[i].name@), k);
}

proof fn lemma_memory_key_at(mems: Seq<GpuMemoryRow>, i: int, k: i64)
    requires
        0 <= i < mems.len(),
    ensures
        memory_keys(mems)[i].1 == mems[i].dedicated_usage,
        (memory_keys(mems)[i].0 == Some(k)) == names_luid(mems[i].name@, k),
{
    lemma_wmi_luid_in_i64(mems[i].name@);
    lemma_luid_key_matches(wmi_luid_of_name(mems[i].name@), k);
}

proof fn lemma_engine_sum(engines: Seq<GpuEngineRow>, k: i64)
    ensures
        key_sum(engine_keys(engines), k) == engine_usage_sum(engines, k),
    decreases engines.len(),
{
    if engines.len() > 0 {
        assert(engine_keys(engines).drop_last() =~= engine_keys(engines.drop_last()));
        lemma_engine_sum(engines.drop_last(), k);
        lemma_engine_key_at(engines, engines.len() - 1, k);
    }
}

proof fn lemma_engine_has_key(engines: Seq<GpuEngineRow>, k: i64)
    ensures
        has_key(engine_keys(engines), k) == exists|i: int|
            0 <= i < engines.len() && #[trigger] names_luid(engines[i].name@, k),
{
    if has_key(engine_keys(engines), k) {
        let i = choose|i: int|
            0 <= i < engine_keys(engines).len() && (#[trigger] engine_keys(engines)[i]).0 == Some(
                k,
            );
        lemma_engine_key_at(engines, i, k);
    }
    if exists|i: int| 0 <= i < engines.len() && #[trigger] names_luid(engines[i].name@, k) {
        let i = choose|i: int| 0 <= i < engines.len() && #[trigger] names_luid(engines[i].name@, k);
        lemma_engine_key_at(engines, i, k);
        assert(engine_keys(engines)[i].0 == Some(k));
    }
}

proof fn lemma_memory_has_key(mems: Seq<GpuMemoryRow>, k: i64)
    ensures
        has_key(memory_keys(mems), k) == exists|i: int|
            0 <= i < mems.len() && #[trigger] names_luid(mems[i].name@, k),
{
    if has_key(memory_keys(mems), k) {
        let i = choose|i: int|
            0 <= i < memory_keys(mems).len() && (#[trigger] memory_keys(mems)[i]).0 == Some(k);
        lemma_memory_key_at(mems, i, k);
    }
    if exists|i: int| 0 <= i < mems.len() && #[trigger] names_luid(mems[i].name@, k) {
        let i = choose|i: int| 0 <= i < mems.len() && #[trigger] names_luid(mems[i].name@, k);
        lemma_memory_key_at(mems, i, k);
        assert(memory_keys(mems)[i].0 == Some(k));
    }
}

/// Row `i` is the last memory row whose name carries the LUID `k`.
pub open spec fn last_memory_row(mems: Seq<GpuMemoryRow>, k: i64, i: int) -> bool {
    &&& 0 <= i < mems.len()
    &&& names_luid(mems[i].name@, k)
    &&& forall|j: int| i < j < mems.len() ==> !names_luid(#[trigger] mems[j].name@, k)
}

proof fn lemma_last_memory_row(mems: Seq<GpuMemoryRow>, k: i64, i: int)
    requires
        last_row_with_key(memory_keys(mems), k, i),
    ensures
        last_memory_row(mems, k, i),
        memory_keys(mems)[i].1 == mems[i].dedicated_usage,
{
    lemma_memory_key_at(mems, i, k);
    assert forall|j: int| i < j < mems.len() implies !names_luid(#[trigger] mems[j].name@, k) by {
        lemma_memory_key_at(mems, j, k);
    }
}

/// Reads the LUID out of a WMI GPU counter instance name: the two
/// `'_'`-separated fields after the first `"luid_"`, each a signed base-16
/// `i64` after its leading `"0x"`s are removed, combined as
/// `(high << 32) | (low & 0xFFFF_FFFF)`.
pub fn parse_luid_from_name(name: &str) -> (r: Option<i64>)
    ensures
        r matches Some(x) ==> wmi_luid_of_name(name@) == Some(x as int),
        r is None ==> wmi_luid_of_name(name@) is None,
{
    let v = chars_of(name);
    match luid_field_bounds(&v) {
        None => None,
        Some((a, j, k)) => {
            let high = match field_as_i64(&v, a, j) {
                Some(h) => h,
                None => return None,
            };
            let low = match field_as_i64(&v, j + 1, k) {
                Some(l) => l,
                None => return None,
            };
            Some(compose_luid(low_word(high), low_word(low)))
        },
    }
}

fn key_engine_rows(rows: &Vec<GpuEngineRow>) -> (v: Vec<(Option<i64>, u64)>)
    ensures
        v@ == engine_keys(rows@),
{
    let mut v: Vec<(Option<i64>, u64)> = Vec::new();
    let mut i: usize = 0;
    while i < rows.len()
        invariant
            i <= rows.len(),
            v@ == engine_keys(rows@.take(i as int)),
        decreases rows.len() - i,
    {
        let row = &rows[i];
        let key = parse_luid_from_name(row.name.as_str());
        v.push((key, row.utilization_percentage));
        assert(engine_keys(rows@.take(i + 1)) =~= engine_keys(rows@.take(i as int)).push(
            (luid_key(wmi_luid_of_name(row.name@)), row.utilization_percentage),
        ));
        i = i + 1;
    }
    assert(rows@.take(i as int) =~= rows@);
    v
}

fn key_memory_rows(rows: &Vec<GpuMemoryRow>) -> (v: Vec<(Option<i64>, u64)>)
    ensures
        v@ == memory_keys(rows@),
{
    let mut v: Vec<(Option<i64>, u64)> = Vec::new();
    let mut i: usize = 0;
    while i < rows.len()
        invariant
            i <= rows.len(),
            v@ == memory_keys(rows@.take(i as int)),
        decreases rows.len() - i,
    {
        let row = &rows[i];
        let key = parse_luid_from_name(row.name.as_str());
        v.push((key, row.dedicated_usage));
        assert(memory_keys(rows@.take(i + 1)) =~= memory_keys(rows@.take(i as int)).push(
            (luid_key(wmi_luid_of_name(row.name@)), row.dedicated_usage),
        ));
        i = i + 1;
    }
    assert(rows@.take(i as int) =~= rows@);
    v
}

/// Folds the WMI counter rows into per-LUID figures. Rows whose name carries
/// no LUID are skipped. For each LUID, the utilization is the sum of all its
/// engines' readings, wherever they stand, capped at 100; the memory in use is
/// the reading of its last memory row, whole.
pub fn gpu_stats_from_rows(engines: &Vec<GpuEngineRow>, mems: &Vec<GpuMemoryRow>) -> (s:
    WmiGpuStats)
    ensures
        forall|k: i64| #[trigger]
            s.usage_by_luid@.contains_key(k) <==> has_key(engine_keys(engines@), k),
        forall|k: i64| #[trigger]
            s.usage_by_luid@.contains_key(k) ==> s.usage_by_luid@[k] as nat == capped_total(
                engine_keys(engines@),
                k,
                100,
            ),
        forall|k: i64| #[trigger]
            s.usage_by_luid@.contains_key(k) ==> s.usage_by_luid@[k] <= 100,
        forall|k: i64| #[trigger]
            s.mem_used_by_luid@.contains_key(k) <==> has_key(memory_keys(mems@), k),
        forall|k: i64| #[trigger]
            s.mem_used_by_luid@.contains_key(k) ==> s.mem_used_by_luid@[k] == latest_reading(
                memory_keys(mems@),
                k,
            ),
        forall|k: i64| #[trigger]
            s.usage_by_luid@.contains_key(k) <==> exists|i: int|
                0 <= i < engines@.len() && #[trigger] names_luid(engines@[i].name@, k),
        forall|k: i64| #[trigger]
            s.usage_by_luid@.contains_key(k) ==> s.usage_by_luid@[k] as nat == min_nat(
                100,
                engine_usage_sum(engines@, k),
            ),
        forall|k: i64| #[trigger]
            s.mem_used_by_luid@.contains_key(k) <==> exists|i: int|
                0 <= i < mems@.len() && #[trigger] names_luid(mems@[i].name@, k),
        forall|k: i64| #[trigger]
            s.mem_used_by_luid@.contains_key(k) ==> exists|i: int|
                last_memory_row(mems@, k, i) && s.mem_used_by_luid@[k] == mems@[i].dedicated_usage,
{
    let engine_rows = key_engine_rows(engines);
    let memory_rows = key_memory_rows(mems);
    let usage_by_luid = capped_totals_by_key(&engine_rows, 100);
    let mem_used_by_luid = latest_by_key(&memory_rows);
    proof {
        assert forall|k: i64| #[trigger] usage_by_luid@.contains_key(k) implies usage_by_luid@[k]
            <= 100 by {
            lemma_capped_total_at_most_cap(engine_keys(engines@), k, 100);
        }
        assert forall|k: i64| #[trigger] usage_by_luid@.contains_key(k) implies usage_by_luid@[k]
            as nat == min_nat(100, engine_usage_sum(engines@, k)) by {
            lemma_engine_sum(engines@, k);
        }
        assert forall|k: i64| #[trigger] usage_by_luid@.contains_key(k) <==> exists|i: int|
            0 <= i < engines@.len() && #[trigger] names_luid(engines@[i].name@, k) by {
            lemma_engine_has_key(engines@, k);
        }
        assert forall|k: i64| #[trigger] mem_used_by_luid@.contains_key(k) <==> exists|i: int|
            0 <= i < mems@.len() && #[trigger] names_luid(mems@[i].name@, k) by {
            lemma_memory_has_key(mems@, k);
        }
        assert forall|k: i64| #[trigger] mem_used_by_luid@.contains_key(k) implies exists|i: int|
            last_memory_row(mems@, k, i) && mem_used_by_luid@[k] == mems@[i].dedicated_usage by {
            let i = choose|i: int|
                last_row_with_key(memory_keys(mems@), k, i) && mem_used_by_luid@[k] == memory_keys(
                    mems@,
                )[i].1;
            lemma_last_memory_row(mems@, k, i);
        }
    }
    WmiGpuStats { usage_by_luid, mem_used_by_luid }
}

/// The two counter readers agree on every well-formed counter instance name:
/// the WMI reader's signed parse of the halves yields the same LUID as the
/// unsigned one, namely the LUID composed from the halves.
pub proof fn lemma_readers_agree_on_counter_names(
    prefix: Seq<char>,
    high: u32,
    low: u32,
    rest: Seq<char>,
)
    requires
        forall|i: int| !tag_at(prefix, i),
    ensures
        wmi_luid_of_name(counter_instance_name(prefix, high, low, rest)) == Some(
            luid_value(high as nat, low as nat),
        ),
        wmi_luid_of_name(counter_instance_name(prefix, high, low, rest)) == luid_of_name(
            counter_instance_name(prefix, high, low, rest),
        ),
{
    lemma_counter_name_fields(prefix, high, low, rest);
    lemma_prefixed_field(high);
    lemma_prefixed_field(low);
}

/// Wherever the unsigned counter reader finds a LUID, the WMI reader finds the
/// same one: a field that reads as a base-16 `u32` reads as the same `i64`,
/// and its low 32 bits are itself.
pub proof fn lemma_wmi_reader_agrees_where_unsigned_reads(s: Seq<char>)
    requires
        luid_of_name(s) is Some,
    ensures
        wmi_luid_of_name(s) == luid_of_name(s),
{
    let (h, l) = luid_fields(s)->0;
    lemma_unsigned_field_reads_signed(trim_0x(h));
    lemma_unsigned_field_reads_signed(trim_0x(l));
}

proof fn lemma_unsigned_field_reads_signed(d: Seq<char>)
    requires
        parse_hex_u32(d) is Some,
    ensures
        parse_hex_i64(d) == Some(parse_hex_u32(d)->0 as int),
        (parse_hex_u32(d)->0 as int) % two_pow_32() == parse_hex_u32(d)->0 as int,
{
    let w = without_plus(d);
    if d.len() > 0 && d[0] == '-' {
        assert(w == d);
        assert(!is_hex_digit(w[0]));
    }
}

/// The WMI reader, too, ignores text before the marker that holds no `'l'`.
pub proof fn lemma_wmi_luid_ignores_prefix(prefix: Seq<char>, t: Seq<char>)
    requires
        forall|k: int| 0 <= k < prefix.len() ==> prefix[k] != 'l',
    ensures
        wmi_luid_of_name(prefix + t) == wmi_luid_of_name(t),
{
    lemma_fields_ignore_prefix(prefix, t);
}

} // verus!
