//! Combining the per-adapter readings from the different sources into the
//! figures shown for each GPU, and the integer parts of the system summary.
use vstd::prelude::*;
use crate::dxgi::DxgiAdapter;
use std::collections::HashMap;

verus! {

broadcast use vstd::std_specs::hash::group_hash_axioms;

/// The PCI vendor id of NVIDIA.
pub const VENDOR_NVIDIA: u32 = 0x10DE;

/// The adapter is an NVIDIA one.
pub open spec fn is_nvidia(a: DxgiAdapter) -> bool {
    a.vendor_id == VENDOR_NVIDIA
}

/// How many of the first `i` adapters are NVIDIA ones: the index that NVML
/// gives adapter `i` if it is one.
pub open spec fn nvidia_rank(adapters: Seq<DxgiAdapter>, i: int) -> nat
    decreases i,
{
    if i <= 0 {
        0
    } else {
        nvidia_rank(adapters, i - 1) + if is_nvidia(adapters[i - 1]) {
            1nat
        } else {
            0nat
        }
    }
}

/// The figure shown for adapter `i`: for an NVIDIA adapter, NVML's reading
/// when it gave one; otherwise the counters' reading for its LUID when there
/// is one; otherwise `fallback`.
pub open spec fn picked_value<T>(
    adapters: Seq<DxgiAdapter>,
    i: int,
    by_luid: Option<Map<i64, T>>,
    nvidia: Seq<Option<T>>,
    fallback: T,
) -> T {
    let a = adapters[i];
    let k = nvidia_rank(adapters, i);
    if is_nvidia(a) && k < nvidia.len() && nvidia[k as int] is Some {
        nvidia[k as int]->0
    } else {
        match by_luid {
            Some(m) => if m.contains_key(a.luid) {
                m[a.luid]
            } else {
                fallback
            },
            None => fallback,
        }
    }
}

/// The counters' table as a map, when the counters could be read.
pub open spec fn table_view<T>(t: Option<&HashMap<i64, T>>) -> Option<Map<i64, T>> {
    match t {
        Some(m) => Some(m@),
        None => None,
    }
}

/// How many adapters are NVIDIA ones (the NVML indices in use).
pub fn nvidia_adapter_count(adapters: &Vec<DxgiAdapter>) -> (n: usize)
    ensures
        n == nvidia_rank(adapters@, adapters@.len() as int),
{
    let mut n: usize = 0;
    let mut i: usize = 0;
    while i < adapters.len()
        invariant
            i <= adapters.len(),
            n == nvidia_rank(adapters@, i as int),
            n <= i,
        decreases adapters.len() - i,
    {
        if adapters[i].vendor_id == VENDOR_NVIDIA {
            n = n + 1;
        }
        i = i + 1;
    }
    n
}

/// One figure per adapter, in order: NVIDIA adapters take NVML's readings in
/// turn (the `k`-th NVIDIA adapter takes `nvidia[k]`, when that is present),
/// every other case takes the counters' reading for the adapter's LUID, or
/// `fallback` when the counters have none or could not be read.
pub fn pick_per_adapter<T: Copy>(
    adapters: &Vec<DxgiAdapter>,
    by_luid: Option<&HashMap<i64, T>>,
    nvidia: &Vec<Option<T>>,
    fallback: T,
) -> (r: Vec<T>)
    ensures
        r.len() == adapters.len(),
        forall|i: int|
            0 <= i < r.len() ==> #[trigger] r@[i] == picked_value(
                adapters@,
                i,
                table_view(by_luid),
                nvidia@,
                fallback,
            ),
{
    let mut r: Vec<T> = Vec::new();
    let mut rank: usize = 0;
    let mut i: usize = 0;
    while i < adapters.len()
        invariant
            i <= adapters.len(),
            r.len() == i,
            rank == nvidia_rank(adapters@, i as int),
            rank <= i,
            forall|j: int|
                0 <= j < i ==> #[trigger] r@[j] == picked_value(
                    adapters@,
                    j,
                    table_view(by_luid),
                    nvidia@,
                    fallback,
                ),
        decreases adapters.len() - i,
    {
        let a = &adapters[i];
        let from_counters: T = match by_luid {
            Some(m) => match m.get(&a.luid) {
                Some(v) => *v,
                None => fallback,
            },
            None => fallback,
        };
        let mut value = from_counters;
        if a.vendor_id == VENDOR_NVIDIA {
            if rank < nvidia.len() {
                match nvidia[rank] {
                    Some(v) => {
                        value = v;
                    },
                    None => {},
                }
            }
            rank = rank + 1;
        }
        r.push(value);
        i = i + 1;
    }
    r
}

/// The bytes in use on a disk: its size less the space available, or 0 if
/// more is reported available than the disk holds.
pub fn disk_used_bytes(total: u64, available: u64) -> (used: u64)
    ensures
        used == if available <= total {
            (total - available) as u64
        } else {
            0
        },
{
    total.saturating_sub(available)
}

/// `c` has the Unicode White_Space property (what `char::is_whitespace`
/// tests).
pub open spec fn is_white_space(c: char) -> bool {
    let v = c as u32;
    (0x9 <= v && v <= 0xD) || v == 0x20 || v == 0x85 || v == 0xA0 || v == 0x1680 || (0x2000 <= v
        && v <= 0x200A) || v == 0x2028 || v == 0x2029 || v == 0x202F || v == 0x205F || v == 0x3000
}

/// `s` without its leading white space.
pub open spec fn trim_start(s: Seq<char>) -> Seq<char>
    decreases s.len(),
{
    if s.len() > 0 && is_white_space(s[0]) {
        trim_start(s.drop_first())
    } else {
        s
    }
}

/// `s` without its trailing white space.
pub open spec fn trim_end(s: Seq<char>) -> Seq<char>
    decreases s.len(),
{
    if s.len() > 0 && is_white_space(s.last()) {
        trim_end(s.drop_last())
    } else {
        s
    }
}

/// `s` without leading and trailing white space.
pub open spec fn trimmed(s: Seq<char>) -> Seq<char> {
    trim_end(trim_start(s))
}

/// `s` without leading and trailing whitespace (`str::trim`), whitespace being
/// the characters with the Unicode White_Space property.
#[verifier::external_body]
fn trim_text(s: &str) -> (t: &str)
    ensures
        t@ == trimmed(s@),
{
    s.trim()
}

/// The name shown when the processor's brand cannot be read.
pub open spec fn unknown_cpu() -> Seq<char> {
    seq!['U', 'n', 'k', 'n', 'o', 'w', 'n', ' ', 'C', 'p', 'u']
}

/// The processor name shown: the first core's brand string without
/// surrounding whitespace, or `"Unknown Cpu"` when there is no core.
pub fn cpu_name(first_brand: Option<&str>) -> (name: String)
    ensures
        name@ == match first_brand {
            Some(b) => trimmed(b@),
            None => unknown_cpu(),
        },
{
    match first_brand {
        Some(b) => String::from_str(trim_text(b)),
        None => {
            let s = String::from_str("Unknown Cpu");
            proof {
                reveal_strlit("Unknown Cpu");
            }
            assert(s@ =~= unknown_cpu());
            s
        },
    }
}

} // verus!
