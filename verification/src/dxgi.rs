//! Display adapters as DXGI describes them, reduced to what the monitor
//! shows: LUID, name, vendor and dedicated video memory.
use vstd::prelude::*;
use crate::luid::{compose_luid, luid_value};

verus! {

/// A hardware display adapter.
pub struct DxgiAdapter {
    pub luid: i64,
    pub name: String,
    pub vendor_id: u32,
    pub total_vram_bytes: u64,
}

/// The adapter flag that marks a software renderer.
pub const DXGI_ADAPTER_FLAG_SOFTWARE: u32 = 2;

/// UTF-16 decoding with U+FFFD in place of every unpaired surrogate: a
/// leading surrogate (`0xD800..=0xDBFF`) followed by a trailing one
/// (`0xDC00..=0xDFFF`) is one character above U+FFFF, any other surrogate is
/// U+FFFD, and every other code unit is the character with its value.
pub open spec fn utf16_lossy(units: Seq<u16>) -> Seq<char>
    decreases units.len(),
{
    if units.len() == 0 {
        seq![]
    } else if 0xD800 <= units[0] <= 0xDBFF && units.len() >= 2 && 0xDC00 <= units[1] <= 0xDFFF {
        seq![(0x10000 + (units[0] - 0xD800) * 0x400 + (units[1] - 0xDC00)) as char] + utf16_lossy(
            units.skip(2),
        )
    } else if 0xD800 <= units[0] <= 0xDFFF {
        seq!['\u{FFFD}'] + utf16_lossy(units.drop_first())
    } else {
        seq![units[0] as char] + utf16_lossy(units.drop_first())
    }
}

/// Decodes UTF-16 code units, putting U+FFFD in place of unpaired surrogates
/// (`String::from_utf16_lossy`).
#[verifier::external_body]
fn decode_utf16_lossy(units: &[u16]) -> (s: String)
    ensures
        s@ == utf16_lossy(units@),
{
    String::from_utf16_lossy(units)
}

/// The code units before the first NUL (all of them if there is none).
pub open spec fn until_nul(units: Seq<u16>) -> Seq<u16>
    decreases units.len(),
{
    if units.len() == 0 {
        units
    } else if units[0] == 0 {
        seq![]
    } else {
        seq![units[0]] + until_nul(units.drop_first())
    }
}

proof fn lemma_until_nul_step(units: Seq<u16>, i: int)
    requires
        0 <= i <= units.len(),
        forall|j: int| 0 <= j < i ==> units[j] != 0,
    ensures
        until_nul(units) == units.take(i) + until_nul(units.skip(i)),
    decreases i,
{
    if i > 0 {
        assert(units[0] != 0);
        let rest = units.drop_first();
        assert forall|j: int| 0 <= j < i - 1 implies rest[j] != 0 by {
            assert(rest[j] == units[j + 1]);
        }
        lemma_until_nul_step(rest, i - 1);
        assert(rest.skip(i - 1) =~= units.skip(i));
        assert(units.take(i) =~= seq![units[0]] + rest.take(i - 1));
    } else {
        assert(units.skip(0) =~= units);
    }
}

/// The adapter that a DXGI description stands for, or `None` for a software
/// renderer. Its name is the description text up to the first NUL, its LUID
/// is composed from the two halves of the adapter LUID.
pub fn adapter_from_description(
    flags: u32,
    description: &[u16],
    luid_high: i32,
    luid_low: u32,
    vendor_id: u32,
    dedicated_video_memory: usize,
) -> (r: Option<DxgiAdapter>)
    ensures
        (flags & DXGI_ADAPTER_FLAG_SOFTWARE != 0) <==> r is None,
        r matches Some(a) ==> {
            &&& a.luid as int == luid_value(luid_high as u32 as nat, luid_low as nat)
            &&& a.name@ == utf16_lossy(until_nul(description@))
            &&& a.vendor_id == vendor_id
            &&& a.total_vram_bytes == dedicated_video_memory as u64
        },
{
    if flags & DXGI_ADAPTER_FLAG_SOFTWARE != 0 {
        return None;
    }
    let mut units: Vec<u16> = Vec::new();
    let mut i: usize = 0;
    while i < description.len() && description[i] != 0
        invariant
            i <= description@.len(),
            units@ == description@.take(i as int),
            forall|j: int| 0 <= j < i ==> description@[j] != 0,
        decreases description@.len() - i,
    {
        units.push(description[i]);
        assert(description@.take(i + 1) =~= description@.take(i as int).push(description@[i as int]));
        i = i + 1;
    }
    proof {
        lemma_until_nul_step(description@, i as int);
        let rest = description@.skip(i as int);
        if rest.len() > 0 {
            assert(rest[0] == description@[i as int]);
        }
        assert(until_nul(rest) =~= seq![]);
        assert(units@ =~= until_nul(description@));
    }
    let name = decode_utf16_lossy(units.as_slice());
    Some(
        DxgiAdapter {
            luid: compose_luid(luid_high as u32, luid_low),
            name,
            vendor_id,
            total_vram_bytes: dedicated_video_memory as u64,
        },
    )
}

} // verus!
