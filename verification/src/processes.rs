//! The process list: per-process figures, their human-readable forms, and the
//! cache of executable icons.
use vstd::prelude::*;
use crate::text::{decimal, digit, digit_char, push_char, push_decimal};
pub use vstd::hash_map::StringHashMap;

verus! {

/// `2^53`: below it every integer is exactly a 64-bit float.
pub open spec fn two_pow_53() -> nat {
    0x20_0000_0000_0000
}

/// The gap between neighbouring 64-bit floats around `b` (for `b < 2^64`):
/// 1 below `2^53`, doubling with every further bit.
pub open spec fn f64_spacing(b: nat) -> nat
    decreases b,
{
    if b < two_pow_53() {
        1
    } else {
        2 * f64_spacing(b / 2)
    }
}

/// `n / d` rounded to the nearest integer, ties to the even one.
pub open spec fn round_half_even(n: nat, d: nat) -> nat {
    let q = n / d;
    let r = n % d;
    if 2 * r > d || (2 * r == d && q % 2 == 1) {
        q + 1
    } else {
        q
    }
}

/// The value of the 64-bit float nearest to `b`, ties to an even significand
/// (what converting a `u64` to `f64` gives).
pub open spec fn f64_nearest(b: nat) -> nat {
    round_half_even(b, f64_spacing(b)) * f64_spacing(b)
}

/// Which unit a byte count is shown in: the largest of B, KB, MB, GB, TB
/// (powers of 1024) that does not exceed it.
pub open spec fn unit_index(b: nat) -> nat {
    if b < 0x400 {
        0
    } else if b < 0x10_0000 {
        1
    } else if b < 0x4000_0000 {
        2
    } else if b < 0x100_0000_0000 {
        3
    } else {
        4
    }
}

/// The size of unit `k` in bytes.
pub open spec fn unit_scale(k: nat) -> nat {
    if k == 0 {
        1
    } else if k == 1 {
        0x400
    } else if k == 2 {
        0x10_0000
    } else if k == 3 {
        0x4000_0000
    } else {
        0x100_0000_0000
    }
}

/// The name of unit `k`.
pub open spec fn unit_name(k: nat) -> Seq<char> {
    if k == 0 {
        seq!['B']
    } else if k == 1 {
        seq!['K', 'B']
    } else if k == 2 {
        seq!['M', 'B']
    } else if k == 3 {
        seq!['G', 'B']
    } else {
        seq!['T', 'B']
    }
}

/// A byte count for people: under 1 KB the exact count and `" B"`; otherwise
/// the count (as a 64-bit float) in the largest unit not above it, rounded to
/// one decimal (ties to even), then the unit, e.g. `"1.5 KB"`.
pub open spec fn humanized_bytes(b: nat) -> Seq<char> {
    let k = unit_index(b);
    if k == 0 {
        decimal(b) + seq![' '] + unit_name(0)
    } else {
        let t = round_half_even(10 * f64_nearest(b), unit_scale(k));
        decimal(t / 10) + seq!['.', digit_char(t % 10), ' '] + unit_name(k)
    }
}

/// Above bytes, the figure shown is at least 1.0, and below the top unit it
/// stays at most 1024.0: the unit is always the largest one the count reaches.
pub proof fn lemma_humanized_figure_range(b: u64)
    requires
        b >= 0x400,
    ensures
        10 <= round_half_even(10 * f64_nearest(b as nat), unit_scale(unit_index(b as nat))),
        unit_index(b as nat) < 4 ==> round_half_even(
            10 * f64_nearest(b as nat),
            unit_scale(unit_index(b as nat)),
        ) <= 10240,
{
    let k = unit_index(b as nat);
    let d = unit_scale(k);
    let v = f64_nearest(b as nat);
    lemma_f64_nearest_bounds(b as nat);
    assert(v >= d);
    let n = 10 * v;
    assert(n / d >= 10) by (nonlinear_arith)
        requires
            n == 10 * v,
            v >= d,
            d > 0,
    ;
    if k < 4 {
        assert(v == b);
        assert(n / d <= 10239) by (nonlinear_arith)
            requires
                n == 10 * v,
                v < 1024 * d,
                d > 0,
        ;
    }
}

/// The spacing of floats near `b` is positive, 1 below `2^53`, and above it
/// leaves at least `2^52` steps below `b`.
proof fn lemma_f64_spacing_bounds(b: nat)
    requires
        b < 0x1_0000_0000_0000_0000,
    ensures
        1 <= f64_spacing(b),
        b < two_pow_53() ==> f64_spacing(b) == 1,
        b >= two_pow_53() ==> b / f64_spacing(b) >= 0x10_0000_0000_0000,
    decreases b,
{
    if b >= two_pow_53() {
        lemma_f64_spacing_bounds(b / 2);
        let p = f64_spacing(b / 2);
        vstd::arithmetic::div_mod::lemma_div_denominator(b as int, 2, p as int);
        if b / 2 < two_pow_53() {
            assert(p == 1);
        }
    }
}

/// The float nearest to `b` is exactly `b` below `2^53` and at least `2^52`
/// above it.
proof fn lemma_f64_nearest_bounds(b: nat)
    requires
        b < 0x1_0000_0000_0000_0000,
    ensures
        b < two_pow_53() ==> f64_nearest(b) == b,
        b >= two_pow_53() ==> f64_nearest(b) >= 0x10_0000_0000_0000,
{
    lemma_f64_spacing_bounds(b);
    let p = f64_spacing(b);
    let q = round_half_even(b, p);
    if b < two_pow_53() {
        assert(q == b);
        assert(q * p == b) by (nonlinear_arith)
            requires
                q == b,
                p == 1,
        ;
    } else {
        assert(q >= b / p);
        assert(q * p >= 0x10_0000_0000_0000) by (nonlinear_arith)
            requires
                q >= b / p,
                b / p >= 0x10_0000_0000_0000,
                p >= 1,
        ;
    }
}

/// `round_half_even(n, d)`, computed.
fn round_div_half_even(n: u128, d: u128) -> (r: u128)
    requires
        d > 0,
        n < 0x100_0000_0000_0000_0000,
    ensures
        r == round_half_even(n as nat, d as nat),
        r <= n / d + 1,
{
    let q = n / d;
    let rem = n % d;
    if rem > d - rem || (rem == d - rem && q % 2 == 1) {
        q + 1
    } else {
        q
    }
}

/// The value of the 64-bit float nearest to `b`.
fn nearest_f64_value(b: u64) -> (r: u128)
    ensures
        r == f64_nearest(b as nat),
        r <= 0x1_0000_0000_0000_1000,
        b < two_pow_53() ==> r == b,
{
    let mut q: u64 = b;
    let mut p: u64 = 1;
    while q >= 0x20_0000_0000_0000
        invariant
            1 <= p < 0x1000,
            q == b / p,
            b < two_pow_53() ==> p == 1,
            f64_spacing(b as nat) == p * f64_spacing(q as nat),
        decreases q,
    {
        proof {
            vstd::arithmetic::div_mod::lemma_div_denominator(b as int, p as int, 2);
            vstd::arithmetic::div_mod::lemma_fundamental_div_mod(b as int, p as int);
            assert(p * q <= b);
            assert(q <= b) by (nonlinear_arith)
                requires
                    p * q <= b,
                    p >= 1,
            ;
            assert(p < 0x800) by (nonlinear_arith)
                requires
                    p * q <= b,
                    q >= 0x20_0000_0000_0000,
                    b < 0x1_0000_0000_0000_0000,
                    p >= 1,
            ;
            assert(f64_spacing(b as nat) == (p * 2) * f64_spacing((q / 2) as nat)) by (
            nonlinear_arith)
                requires
                    f64_spacing(b as nat) == p * f64_spacing(q as nat),
                    f64_spacing(q as nat) == 2 * f64_spacing((q / 2) as nat),
            ;
        }
        q = q / 2;
        p = p * 2;
    }
    assert(f64_spacing(q as nat) == 1);
    assert(f64_spacing(b as nat) == p) by (nonlinear_arith)
        requires
            f64_spacing(b as nat) == p * f64_spacing(q as nat),
            f64_spacing(q as nat) == 1,
    ;
    let up = round_div_half_even(b as u128, p as u128);
    proof {
        vstd::arithmetic::div_mod::lemma_fundamental_div_mod(b as int, p as int);
        assert(up <= q + 1);
        assert(up * p <= (q + 1) * p) by (nonlinear_arith)
            requires
                up <= q + 1,
                p >= 1,
        ;
        assert((q + 1) * p <= b + p) by (nonlinear_arith)
            requires
                p * q <= b,
        ;
        if b < two_pow_53() {
            assert(p == 1);
            assert(up == b);
            assert(up * p == b) by (nonlinear_arith)
                requires
                    p == 1,
                    up == b,
            ;
        }
        assert(up * p <= 0x1_0000_0000_0000_1000) by (nonlinear_arith)
            requires
                up * p <= b + p,
                p < 0x1000,
                b < 0x1_0000_0000_0000_0000,
        ;
    }
    up * (p as u128)
}

/// Formats a byte count for people: `"512 B"`, `"1.5 KB"`, `"3.2 GB"`; the
/// unit is the largest of B, KB, MB, GB, TB not above the count, and above
/// bytes the figure has one decimal.
pub fn humanize_bytes(bytes: u64) -> (s: String)
    ensures
        s@ == humanized_bytes(bytes as nat),
{
    let mut s = String::new();
    if bytes < 0x400 {
        push_decimal(&mut s, bytes as u128);
        push_char(&mut s, ' ');
        push_char(&mut s, 'B');
        assert(s@ =~= humanized_bytes(bytes as nat));
        return s;
    }
    let (scale, first, second): (u128, char, char) = if bytes < 0x10_0000 {
        (0x400, 'K', 'B')
    } else if bytes < 0x4000_0000 {
        (0x10_0000, 'M', 'B')
    } else if bytes < 0x100_0000_0000 {
        (0x4000_0000, 'G', 'B')
    } else {
        (0x100_0000_0000, 'T', 'B')
    };
    let value = nearest_f64_value(bytes);
    let tenths = round_div_half_even(10 * value, scale);
    let ghost k = unit_index(bytes as nat);
    assert(scale == unit_scale(k));
    assert(tenths == round_half_even(10 * f64_nearest(bytes as nat), unit_scale(k)));
    push_decimal(&mut s, tenths / 10);
    push_char(&mut s, '.');
    push_char(&mut s, digit((tenths % 10) as u8));
    push_char(&mut s, ' ');
    push_char(&mut s, first);
    push_char(&mut s, second);
    assert(s@ =~= humanized_bytes(bytes as nat));
    s
}

/// A process as the system reports it: its id, name, CPU reading (carried
/// through unchanged), resident memory and bytes read from disk, in bytes,
/// and the path of its executable when known.
pub struct ProcessSample<C> {
    pub pid: u32,
    pub name: String,
    pub cpu: C,
    pub memory: u64,
    pub disk_read: u64,
    pub exe_path: Option<String>,
}

/// A row of the process list: the sample's figures, their human-readable
/// forms, and the executable's icon when one was found.
pub struct ProcessEntry<C> {
    pub pid: u32,
    pub name: String,
    pub cpu: C,
    pub memory: u64,
    pub memory_h: String,
    pub disk_usage: u64,
    pub disk_usage_h: String,
    pub exe_path: Option<String>,
    pub icon: Option<String>,
}

/// `o` by value.
fn copy_text(o: &Option<String>) -> (r: Option<String>)
    ensures
        r == *o,
{
    match o {
        Some(t) => Some(t.clone()),
        None => None,
    }
}

/// The icon of the executable at `exe_path`, looked up in `cache` first. On a
/// hit the cached answer (an icon, or `None` for "has none") is returned and
/// the cache is left as it was; on a miss `load` is asked once and its answer
/// is both remembered under `exe_path` and returned. `load` need only be
/// callable for a path that is not cached, so a hit never reaches it.
pub fn get_icon_cached<F: Fn(&str) -> Option<String>>(
    cache: &mut StringHashMap<Option<String>>,
    exe_path: &str,
    load: F,
) -> (r: Option<String>)
    requires
        !old(cache)@.contains_key(exe_path@) ==> call_requires(load, (exe_path,)),
    ensures
        old(cache)@.contains_key(exe_path@) ==> {
            &&& r == old(cache)@[exe_path@]
            &&& final(cache)@ == old(cache)@
        },
        !old(cache)@.contains_key(exe_path@) ==> {
            &&& call_ensures(load, (exe_path,), r)
            &&& final(cache)@ == old(cache)@.insert(exe_path@, r)
        },
        final(cache)@.contains_key(exe_path@) && final(cache)@[exe_path@] == r,
{
    match cache.get(exe_path) {
        Some(cached) => {
            return copy_text(cached);
        },
        None => {},
    }
    let icon = load(exe_path);
    cache.insert(String::from_str(exe_path), copy_text(&icon));
    icon
}

/// The sample's executable is at `k`.
pub open spec fn path_is<C>(s: ProcessSample<C>, k: Seq<char>) -> bool {
    s.exe_path matches Some(p) && p@ == k
}

/// Some sample's executable is at `k`.
pub open spec fn names_path<C>(samples: Seq<ProcessSample<C>>, k: Seq<char>) -> bool {
    exists|i: int| 0 <= i < samples.len() && #[trigger] path_is(samples[i], k)
}

/// `after` is `before` with an entry added for every executable path named by
/// `samples` that `before` lacked, each holding an answer that `load` can give
/// for that path; entries already in `before` are unchanged.
pub open spec fn cache_extended<C, F: Fn(&str) -> Option<String>>(
    before: Map<Seq<char>, Option<String>>,
    after: Map<Seq<char>, Option<String>>,
    samples: Seq<ProcessSample<C>>,
    load: F,
) -> bool {
    &&& forall|k: Seq<char>| #[trigger]
        after.contains_key(k) <==> (before.contains_key(k) || names_path(samples, k))
    &&& forall|k: Seq<char>| #[trigger] before.contains_key(k) ==> after[k] == before[k]
    &&& forall|k: Seq<char>| #[trigger]
        after.contains_key(k) && !before.contains_key(k) ==> exists|p: &str|
            p@ == k && call_ensures(load, (p,), after[k])
}

/// Row `e` describes sample `s`, with the icon that `cache` holds for its
/// executable.
pub open spec fn entry_describes<C>(
    e: ProcessEntry<C>,
    s: ProcessSample<C>,
    cache: Map<Seq<char>, Option<String>>,
) -> bool {
    &&& e.pid == s.pid
    &&& e.name == s.name
    &&& e.cpu == s.cpu
    &&& e.memory == s.memory
    &&& e.memory_h@ == humanized_bytes(s.memory as nat)
    &&& e.disk_usage == s.disk_read
    &&& e.disk_usage_h@ == humanized_bytes(s.disk_read as nat)
    &&& e.exe_path == s.exe_path
    &&& e.icon == match s.exe_path {
        Some(p) => cache[p@],
        None => None,
    }
}

/// The process list: one row per sample, in order, with the byte figures in
/// human-readable form and each executable's icon taken from `icon_cache`
/// (asking `load` only for paths not cached at the start, and remembering its
/// answers).
pub fn get_process_list<C: Copy, F: Fn(&str) -> Option<String>>(
    samples: &Vec<ProcessSample<C>>,
    icon_cache: &mut StringHashMap<Option<String>>,
    load: F,
) -> (r: Vec<ProcessEntry<C>>)
    requires
        forall|p: &str| !old(icon_cache)@.contains_key(p@) ==> call_requires(load, (p,)),
    ensures
        r.len() == samples.len(),
        cache_extended(old(icon_cache)@, final(icon_cache)@, samples@, load),
        forall|i: int|
            0 <= i < r.len() ==> entry_describes(
                #[trigger] r@[i],
                samples@[i],
                final(icon_cache)@,
            ),
{
    let ghost start = icon_cache@;
    let mut rows: Vec<ProcessEntry<C>> = Vec::new();
    let mut i: usize = 0;
    while i < samples.len()
        invariant
            i <= samples.len(),
            rows.len() == i,
            forall|p: &str| !start.contains_key(p@) ==> call_requires(load, (p,)),
            cache_extended(start, icon_cache@, samples@.take(i as int), load),
            forall|j: int|
                0 <= j < i ==> entry_describes(#[trigger] rows@[j], samples@[j], icon_cache@),
        decreases samples.len() - i,
    {
        let sample = &samples[i];
        let ghost before = icon_cache@;
        let icon = match &sample.exe_path {
            Some(path) => {
                let ps: &str = path.as_str();
                let found = get_icon_cached(icon_cache, ps, &load);
                proof {
                    if !before.contains_key(path@) {
                        assert(ps@ == path@);
                        assert(call_ensures(load, (ps,), icon_cache@[path@]));
                    }
                }
                found
            },
            None => None,
        };
        let row = ProcessEntry {
            pid: sample.pid,
            name: sample.name.clone(),
            cpu: sample.cpu,
            memory: sample.memory,
            memory_h: humanize_bytes(sample.memory),
            disk_usage: sample.disk_read,
            disk_usage_h: humanize_bytes(sample.disk_read),
            exe_path: copy_text(&sample.exe_path),
            icon,
        };
        rows.push(row);
        proof {
            let done = samples@.take(i as int);
            let now = samples@.take(i + 1);
            assert(now[i as int] == samples@[i as int]);
            assert forall|k: Seq<char>| names_path(now, k) <==> (names_path(done, k) || path_is(
                samples@[i as int],
                k,
            )) by {
                if names_path(now, k) {
                    let j = choose|j: int| 0 <= j < now.len() && #[trigger] path_is(now[j], k);
                    if j < i {
                        assert(done[j] == now[j]);
                    }
                }
                if names_path(done, k) {
                    let j = choose|j: int| 0 <= j < done.len() && #[trigger] path_is(done[j], k);
                    assert(now[j] == done[j]);
                }
            }
            assert forall|j: int| 0 <= j < i + 1 implies entry_describes(
                #[trigger] rows@[j],
                samples@[j],
                icon_cache@,
            ) by {
                if j < i {
                    match samples@[j].exe_path {
                        Some(p) => {
                            assert(names_path(done, p@)) by {
                                assert(done[j] == samples@[j]);
                                assert(path_is(done[j], p@));
                            }
                        },
                        None => {},
                    }
                }
            }
        }
        i = i + 1;
    }
    assert(samples@.take(i as int) =~= samples@);
    rows
}

} // verus!
