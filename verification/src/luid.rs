//! Locally unique adapter identifiers (LUIDs) as they appear in the instance
//! names of the Windows GPU performance counters, e.g.
//! `pid_1234_luid_0x00000000_0x0000D1B4_phys_0_eng_0_engtype_3D`.
use vstd::prelude::*;
use crate::text::chars_of;

verus! {

/// `2^32`.
pub open spec fn two_pow_32() -> int {
    0x1_0000_0000
}

/// `2^63`.
pub open spec fn two_pow_63() -> int {
    0x8000_0000_0000_0000
}

/// `2^64`.
pub open spec fn two_pow_64() -> int {
    0x1_0000_0000_0000_0000
}

/// The signed 64-bit LUID whose high and low 32-bit halves are `high` and `low`
/// (the two's-complement reading of `high * 2^32 + low`).
pub open spec fn luid_value(high: nat, low: nat) -> int {
    let v = high * two_pow_32() + low;
    if v >= two_pow_63() {
        v - two_pow_64()
    } else {
        v
    }
}

/// Whether `c` is an ASCII hexadecimal digit.
pub open spec fn is_hex_digit(c: char) -> bool {
    (48 <= c as u32 && c as u32 <= 57) || (97 <= c as u32 && c as u32 <= 102) || (65 <= c as u32
        && c as u32 <= 70)
}

/// The value of the hexadecimal digit `c`.
pub open spec fn hex_digit_value(c: char) -> nat {
    if 48 <= c as u32 && c as u32 <= 57 {
        (c as u32 - 48) as nat
    } else if 97 <= c as u32 && c as u32 <= 102 {
        (c as u32 - 87) as nat
    } else if 65 <= c as u32 && c as u32 <= 70 {
        (c as u32 - 55) as nat
    } else {
        0
    }
}

/// Every character of `s` is a hexadecimal digit.
pub open spec fn all_hex(s: Seq<char>) -> bool {
    forall|i: int| 0 <= i < s.len() ==> is_hex_digit(#[trigger] s[i])
}

/// The number that the hexadecimal digits `s` denote (most significant first).
pub open spec fn hex_value(s: Seq<char>) -> nat
    decreases s.len(),
{
    if s.len() == 0 {
        0
    } else {
        hex_value(s.drop_last()) * 16 + hex_digit_value(s.last())
    }
}

/// A non-empty run of hexadecimal digits whose value is at most `limit`.
pub open spec fn hex_within(d: Seq<char>, limit: int) -> bool {
    d.len() > 0 && all_hex(d) && hex_value(d) <= limit
}

/// `s` with an optional leading `'+'` removed.
pub open spec fn without_plus(s: Seq<char>) -> Seq<char> {
    if s.len() > 0 && s[0] == '+' {
        s.drop_first()
    } else {
        s
    }
}

/// What parsing `s` as a base-16 `u32` yields: an optional `'+'`, then at least
/// one hexadecimal digit, with a value below `2^32`.
pub open spec fn parse_hex_u32(s: Seq<char>) -> Option<nat> {
    let d = without_plus(s);
    if hex_within(d, two_pow_32() - 1) {
        Some(hex_value(d))
    } else {
        None
    }
}

/// What parsing `s` as a base-16 `i64` yields: an optional sign, then at least
/// one hexadecimal digit, with a value in the `i64` range.
pub open spec fn parse_hex_i64(s: Seq<char>) -> Option<int> {
    if s.len() > 0 && s[0] == '-' {
        let d = s.drop_first();
        if hex_within(d, two_pow_63()) {
            Some(-(hex_value(d) as int))
        } else {
            None
        }
    } else {
        let d = without_plus(s);
        if hex_within(d, two_pow_63() - 1) {
            Some(hex_value(d) as int)
        } else {
            None
        }
    }
}

/// `s` with every leading repetition of `"0x"` removed.
pub open spec fn trim_0x(s: Seq<char>) -> Seq<char>
    decreases s.len(),
{
    if s.len() >= 2 && s[0] == '0' && s[1] == 'x' {
        trim_0x(s.skip(2))
    } else {
        s
    }
}

/// A LUID read as a map key.
pub open spec fn luid_key(o: Option<int>) -> Option<i64> {
    match o {
        Some(v) => Some(v as i64),
        None => None,
    }
}

/// A LUID composed from two 32-bit halves lies in the `i64` range.
pub proof fn lemma_luid_value_in_i64(high: nat, low: nat)
    requires
        high < two_pow_32(),
        low < two_pow_32(),
    ensures
        i64::MIN <= luid_value(high, low) <= i64::MAX,
{
    assert(high * two_pow_32() <= (two_pow_32() - 1) * two_pow_32()) by (nonlinear_arith)
        requires
            high < two_pow_32(),
    ;
}

/// Every LUID read from a name lies in the `i64` range.
pub proof fn lemma_luid_of_name_in_i64(s: Seq<char>)
    ensures
        luid_of_name(s) matches Some(v) ==> i64::MIN <= v <= i64::MAX,
{
    match luid_fields(s) {
        None => {},
        Some((h, l)) => match (parse_hex_u32(trim_0x(h)), parse_hex_u32(trim_0x(l))) {
            (Some(high), Some(low)) => lemma_luid_value_in_i64(high, low),
            _ => {},
        },
    }
}

/// A LUID within the `i64` range, read as a map key, is `k` exactly when it is
/// `k`.
pub proof fn lemma_luid_key_matches(o: Option<int>, k: i64)
    requires
        o matches Some(v) ==> i64::MIN <= v <= i64::MAX,
    ensures
        (luid_key(o) == Some(k)) == (o == Some(k as int)),
{
}

/// The marker that precedes the two LUID halves in an instance name.
pub open spec fn luid_tag() -> Seq<char> {
    seq!['l', 'u', 'i', 'd', '_']
}

/// The marker occurs in `s` at position `i`.
pub open spec fn tag_at(s: Seq<char>, i: int) -> bool {
    0 <= i && i + 5 <= s.len() && s.subrange(i, i + 5) == luid_tag()
}

/// The first position at or after `i` where the marker occurs.
pub open spec fn find_tag_from(s: Seq<char>, i: nat) -> Option<nat>
    decreases s.len() - i,
{
    if i + 5 > s.len() {
        None
    } else if tag_at(s, i as int) {
        Some(i)
    } else {
        find_tag_from(s, i + 1)
    }
}

/// The first position at or after `i` that holds `c`, or `s.len()` if none does.
pub open spec fn char_index_from(s: Seq<char>, c: char, i: nat) -> nat
    decreases s.len() - i,
{
    if i >= s.len() {
        s.len()
    } else if s[i as int] == c {
        i
    } else {
        char_index_from(s, c, i + 1)
    }
}

/// The two `'_'`-separated fields that follow the first marker: the text up to
/// the next `'_'`, and the text from there up to the following `'_'` (or the
/// end). `None` when there is no marker or no `'_'` after it.
pub open spec fn luid_fields(s: Seq<char>) -> Option<(Seq<char>, Seq<char>)> {
    match find_tag_from(s, 0) {
        None => None,
        Some(i) => {
            let a = i + 5;
            let j = char_index_from(s, '_', a);
            if j >= s.len() {
                None
            } else {
                let k = char_index_from(s, '_', j + 1);
                Some((s.subrange(a as int, j as int), s.subrange((j + 1) as int, k as int)))
            }
        },
    }
}

/// The LUID that a counter instance name carries: both fields, each with its
/// `"0x"` prefixes removed, must read as base-16 `u32` values.
pub open spec fn luid_of_name(s: Seq<char>) -> Option<int> {
    match luid_fields(s) {
        None => None,
        Some((h, l)) => match (parse_hex_u32(trim_0x(h)), parse_hex_u32(trim_0x(l))) {
            (Some(high), Some(low)) => Some(luid_value(high, low)),
            _ => None,
        },
    }
}


/// `16^n`.
pub open spec fn pow16(n: nat) -> nat
    decreases n,
{
    if n == 0 {
        1
    } else {
        16 * pow16((n - 1) as nat)
    }
}

/// The upper-case hexadecimal digit for `d < 16`.
pub open spec fn upper_hex_char(d: nat) -> char {
    if d < 10 {
        (48 + d) as char
    } else {
        (55 + d) as char
    }
}

/// `v` written with exactly `n` upper-case hexadecimal digits (zero-padded).
pub open spec fn hex_digits(v: nat, n: nat) -> Seq<char>
    decreases n,
{
    if n == 0 {
        seq![]
    } else {
        hex_digits(v / 16, (n - 1) as nat).push(upper_hex_char(v % 16))
    }
}

/// The instance name that the GPU counters give an adapter whose LUID halves
/// are `high` and `low`: `prefix`, then `luid_0xHHHHHHHH_0xLLLLLLLL_`, then
/// `rest`.
pub open spec fn counter_instance_name(prefix: Seq<char>, high: u32, low: u32, rest: Seq<char>) -> Seq<
    char,
> {
    prefix + luid_tag() + seq!['0', 'x'] + hex_digits(high as nat, 8) + seq!['_', '0', 'x']
        + hex_digits(low as nat, 8) + seq!['_'] + rest
}


/// `o` moved on by `p` positions.
pub open spec fn shifted(o: Option<nat>, p: nat) -> Option<nat> {
    match o {
        Some(i) => Some(i + p),
        None => None,
    }
}

proof fn lemma_find_tag_bounds(s: Seq<char>, k: nat)
    ensures
        find_tag_from(s, k) matches Some(i) ==> k <= i && i + 5 <= s.len(),
    decreases s.len() - k,
{
    if k + 5 <= s.len() && !tag_at(s, k as int) {
        lemma_find_tag_bounds(s, k + 1);
    }
}

proof fn lemma_char_index_bounds(s: Seq<char>, c: char, k: nat)
    ensures
        k <= s.len() ==> k <= char_index_from(s, c, k) <= s.len(),
    decreases s.len() - k,
{
    if k < s.len() && s[k as int] != c {
        lemma_char_index_bounds(s, c, k + 1);
    }
}

proof fn lemma_find_tag_in_suffix(prefix: Seq<char>, t: Seq<char>, i: nat)
    requires
        i <= t.len(),
    ensures
        find_tag_from(prefix + t, prefix.len() + i) == shifted(find_tag_from(t, i), prefix.len()),
    decreases t.len() - i,
{
    let s = prefix + t;
    let p = prefix.len();
    if i + 5 <= t.len() {
        assert(s.subrange((p + i) as int, (p + i + 5) as int) =~= t.subrange(i as int, (i + 5) as int));
        lemma_find_tag_in_suffix(prefix, t, i + 1);
    }
}

proof fn lemma_no_tag_in_prefix(prefix: Seq<char>, t: Seq<char>, j: nat)
    requires
        j <= prefix.len(),
        forall|k: int| 0 <= k < prefix.len() ==> prefix[k] != 'l',
    ensures
        find_tag_from(prefix + t, j) == find_tag_from(prefix + t, prefix.len()),
    decreases prefix.len() - j,
{
    let s = prefix + t;
    if j < prefix.len() {
        if tag_at(s, j as int) {
            assert(s.subrange(j as int, (j + 5) as int)[0] == s[j as int]);
            assert(s[j as int] == prefix[j as int]);
        }
        lemma_no_tag_in_prefix(prefix, t, j + 1);
    }
}

proof fn lemma_char_index_in_suffix(prefix: Seq<char>, t: Seq<char>, c: char, i: nat)
    requires
        i <= t.len(),
    ensures
        char_index_from(prefix + t, c, prefix.len() + i) == char_index_from(t, c, i) + prefix.len(),
    decreases t.len() - i,
{
    if i < t.len() {
        assert((prefix + t)[(prefix.len() + i) as int] == t[i as int]);
        lemma_char_index_in_suffix(prefix, t, c, i + 1);
    }
}

/// Text before the marker that holds no `'l'` (such as `"pid_1234_"`) does not
/// change the fields: the first marker, and everything after it, is the same.
pub proof fn lemma_fields_ignore_prefix(prefix: Seq<char>, t: Seq<char>)
    requires
        forall|k: int| 0 <= k < prefix.len() ==> prefix[k] != 'l',
    ensures
        luid_fields(prefix + t) == luid_fields(t),
{
    let s = prefix + t;
    let p = prefix.len();
    lemma_no_tag_in_prefix(prefix, t, 0);
    lemma_find_tag_in_suffix(prefix, t, 0);
    match find_tag_from(t, 0) {
        None => {},
        Some(i) => {
            lemma_find_tag_bounds(t, 0);
            let a = i + 5;
            lemma_char_index_in_suffix(prefix, t, '_', a);
            lemma_char_index_bounds(t, '_', a);
            let j = char_index_from(t, '_', a);
            if j < t.len() {
                lemma_char_index_bounds(t, '_', j + 1);
                lemma_char_index_in_suffix(prefix, t, '_', j + 1);
                let k = char_index_from(t, '_', j + 1);
                assert(s.subrange((p + a) as int, (p + j) as int) =~= t.subrange(a as int, j as int));
                assert(s.subrange((p + j + 1) as int, (p + k) as int) =~= t.subrange((j + 1) as int, k as int));
            }
        },
    }
}

/// The LUID read from a name does not depend on text before the marker that
/// holds no `'l'`: `"pid_1234_" + t` reads as `t` does.
pub proof fn lemma_luid_ignores_prefix(prefix: Seq<char>, t: Seq<char>)
    requires
        forall|k: int| 0 <= k < prefix.len() ==> prefix[k] != 'l',
    ensures
        luid_of_name(prefix + t) == luid_of_name(t),
{
    lemma_fields_ignore_prefix(prefix, t);
}

proof fn lemma_pow16_8()
    ensures
        pow16(8) == 0x1_0000_0000,
{
    reveal_with_fuel(pow16, 9);
}

proof fn lemma_upper_hex_char(d: nat)
    requires
        d < 16,
    ensures
        is_hex_digit(upper_hex_char(d)),
        hex_digit_value(upper_hex_char(d)) == d,
        upper_hex_char(d) != 'x',
        upper_hex_char(d) != '_',
        upper_hex_char(d) != '+',
        upper_hex_char(d) != '-',
{
}

proof fn lemma_hex_digits(v: nat, n: nat)
    requires
        v < pow16(n),
    ensures
        hex_digits(v, n).len() == n,
        all_hex(hex_digits(v, n)),
        hex_value(hex_digits(v, n)) == v,
        forall|i: int|
            0 <= i < n ==> {
                let c = #[trigger] hex_digits(v, n)[i];
                c != 'x' && c != '_' && c != '+' && c != '-'
            },
    decreases n,
{
    if n > 0 {
        let m = (n - 1) as nat;
        assert(v / 16 < pow16(m)) by (nonlinear_arith)
            requires
                v < 16 * pow16(m),
        ;
        lemma_hex_digits(v / 16, m);
        lemma_upper_hex_char(v % 16);
        let d = hex_digits(v, n);
        assert(d.drop_last() =~= hex_digits(v / 16, m));
        assert forall|i: int| 0 <= i < d.len() implies is_hex_digit(#[trigger] d[i]) by {
            if i < m {
                assert(d[i] == hex_digits(v / 16, m)[i]);
            }
        }
    }
}

proof fn lemma_tag_found_at(s: Seq<char>, p: nat, i: nat)
    requires
        i <= p,
        tag_at(s, p as int),
        forall|j: int| i <= j < p ==> !tag_at(s, j),
    ensures
        find_tag_from(s, i) == Some(p),
    decreases p - i,
{
    if i < p {
        lemma_tag_found_at(s, p, i + 1);
    }
}

proof fn lemma_char_found_at(s: Seq<char>, c: char, j: nat, i: nat)
    requires
        i <= j < s.len(),
        s[j as int] == c,
        forall|k: int| i <= k < j ==> s[k] != c,
    ensures
        char_index_from(s, c, i) == j,
    decreases j - i,
{
    if i < j {
        lemma_char_found_at(s, c, j, i + 1);
    }
}

/// `"0x"` followed by eight hexadecimal digits reads as their value.
pub proof fn lemma_prefixed_field(v: u32)
    ensures
        trim_0x(seq!['0', 'x'] + hex_digits(v as nat, 8)) == hex_digits(v as nat, 8),
        parse_hex_u32(hex_digits(v as nat, 8)) == Some(v as nat),
        parse_hex_i64(hex_digits(v as nat, 8)) == Some(v as int),
{
    let h = hex_digits(v as nat, 8);
    lemma_pow16_8();
    lemma_hex_digits(v as nat, 8);
    let f = seq!['0', 'x'] + h;
    assert(f.skip(2) =~= h);
    assert(h[1] != 'x');
    assert(h[0] != '+' && h[0] != '-');
    assert(trim_0x(h) == h);
}

/// Where each piece of a counter instance name sits.
proof fn lemma_counter_name_layout(prefix: Seq<char>, high: u32, low: u32, rest: Seq<char>)
    ensures
        ({
            let s = counter_instance_name(prefix, high, low, rest);
            let hh = hex_digits(high as nat, 8);
            let ll = hex_digits(low as nat, 8);
            let p = prefix.len() as int;
            &&& hh.len() == 8 && ll.len() == 8
            &&& s.len() == p + 27 + rest.len()
            &&& forall|k: int| 0 <= k < p ==> s[k] == prefix[k]
            &&& s.subrange(p, p + 5) == luid_tag()
            &&& s.subrange(p + 5, p + 15) == seq!['0', 'x'] + hh
            &&& s[p + 15] == '_'
            &&& s.subrange(p + 16, p + 26) == seq!['0', 'x'] + ll
            &&& s[p + 26] == '_'
        }),
{
    let hh = hex_digits(high as nat, 8);
    let ll = hex_digits(low as nat, 8);
    lemma_pow16_8();
    lemma_hex_digits(high as nat, 8);
    lemma_hex_digits(low as nat, 8);
    let p = prefix.len() as int;
    let s1 = prefix + luid_tag();
    let s2 = s1 + seq!['0', 'x'];
    let s3 = s2 + hh;
    let s4 = s3 + seq!['_', '0', 'x'];
    let s5 = s4 + ll;
    let s6 = s5 + seq!['_'];
    let s = s6 + rest;
    assert(s == counter_instance_name(prefix, high, low, rest));
    assert forall|k: int| 0 <= k < p implies s[k] == prefix[k] by {
        assert(s[k] == s5[k]);
        assert(s5[k] == s4[k]);
        assert(s4[k] == s3[k]);
        assert(s3[k] == s2[k]);
        assert(s2[k] == s1[k]);
    }
    assert(s.subrange(p, p + 5) =~= luid_tag()) by {
        assert forall|k: int| p <= k < p + 5 implies s[k] == s1[k] by {
            assert(s[k] == s5[k]);
            assert(s5[k] == s4[k]);
            assert(s4[k] == s3[k]);
            assert(s3[k] == s2[k]);
        }
    }
    assert(s.subrange(p + 5, p + 15) =~= seq!['0', 'x'] + hh) by {
        assert forall|k: int| p + 5 <= k < p + 15 implies s[k] == s3[k] by {
            assert(s[k] == s5[k]);
            assert(s5[k] == s4[k]);
        }
    }
    assert(s[p + 15] == '_') by {
        assert(s[p + 15] == s5[p + 15]);
        assert(s5[p + 15] == s4[p + 15]);
    }
    assert(s.subrange(p + 16, p + 26) =~= seq!['0', 'x'] + ll) by {
        assert forall|k: int| p + 16 <= k < p + 26 implies s[k] == s5[k] by {}
        assert(s5[p + 16] == s4[p + 16]);
        assert(s5[p + 17] == s4[p + 17]);
    }
}

/// The first marker in `s` is the one at `p` when `s` starts with `prefix`
/// (of length `p`), which holds none, followed by the marker.
proof fn lemma_first_tag_after_prefix(s: Seq<char>, prefix: Seq<char>)
    requires
        s.len() >= prefix.len() + 5,
        forall|k: int| 0 <= k < prefix.len() ==> s[k] == prefix[k],
        s.subrange(prefix.len() as int, prefix.len() + 5int) == luid_tag(),
        forall|i: int| !tag_at(prefix, i),
    ensures
        find_tag_from(s, 0) == Some(prefix.len()),
{
    let p: int = prefix.len() as int;
    assert forall|j: int| 0 <= j < p implies !tag_at(s, j) by {
        if tag_at(s, j) {
            let t = s.subrange(j, j + 5);
            if j + 5 <= p {
                assert(prefix.subrange(j, j + 5) =~= t);
                assert(tag_at(prefix, j));
            } else {
                assert(t[p - j] == s[p]);
                assert(s[p] == s.subrange(p, p + 5)[0]);
            }
        }
    }
    lemma_tag_found_at(s, p as nat, 0);
}

/// `v` as a `"0x"`-prefixed field of eight hexadecimal digits.
pub open spec fn hex_field(v: u32) -> Seq<char> {
    seq!['0', 'x'] + hex_digits(v as nat, 8)
}

/// A `"0x"`-prefixed field of eight hexadecimal digits holds no `'_'`.
proof fn lemma_field_has_no_separator(v: u32)
    ensures
        forall|k: int| 0 <= k < 10 ==> #[trigger] hex_field(v)[k] != '_',
{
    lemma_pow16_8();
    lemma_hex_digits(v as nat, 8);
    let f = hex_field(v);
    assert forall|k: int| 0 <= k < 10 implies (#[trigger] f[k]) != '_' by {
        if k >= 2 {
            assert(f[k] == hex_digits(v as nat, 8)[k - 2]);
        }
    }
}

/// The next `'_'` at or after `start` is at `start + 10` when the ten
/// characters from `start` are a `"0x"`-prefixed field.
proof fn lemma_separator_after_field(s: Seq<char>, start: int, v: u32)
    requires
        0 <= start,
        start + 10 < s.len(),
        s.subrange(start, start + 10) == seq!['0', 'x'] + hex_digits(v as nat, 8),
        s[start + 10] == '_',
    ensures
        char_index_from(s, '_', start as nat) == start + 10,
{
    lemma_field_has_no_separator(v);
    let f = hex_field(v);
    assert forall|k: int| start <= k < start + 10 implies s[k] != '_' by {
        assert(s[k] == s.subrange(start, start + 10)[k - start]);
        assert(f[k - start] != '_');
    }
    lemma_char_found_at(s, '_', (start + 10) as nat, start as nat);
}

/// The fields of a counter instance name are the two `"0x"`-prefixed halves.
pub proof fn lemma_counter_name_fields(prefix: Seq<char>, high: u32, low: u32, rest: Seq<char>)
    requires
        forall|i: int| !tag_at(prefix, i),
    ensures
        luid_fields(counter_instance_name(prefix, high, low, rest)) == Some(
            (
                seq!['0', 'x'] + hex_digits(high as nat, 8),
                seq!['0', 'x'] + hex_digits(low as nat, 8),
            ),
        ),
{
    let s = counter_instance_name(prefix, high, low, rest);
    lemma_counter_name_layout(prefix, high, low, rest);
    let p: int = prefix.len() as int;
    lemma_first_tag_after_prefix(s, prefix);
    lemma_separator_after_field(s, p + 5, high);
    lemma_separator_after_field(s, p + 16, low);
}

/// An adapter found by enumeration and the counter rows that mention it carry
/// the same LUID: reading the instance name built from the halves `high` and
/// `low` gives back exactly the LUID composed from those halves, whatever
/// precedes the marker (as long as it holds no marker itself) and whatever
/// follows the low half.
pub proof fn lemma_counter_name_carries_adapter_luid(
    prefix: Seq<char>,
    high: u32,
    low: u32,
    rest: Seq<char>,
)
    requires
        forall|i: int| !tag_at(prefix, i),
    ensures
        luid_of_name(counter_instance_name(prefix, high, low, rest)) == Some(
            luid_value(high as nat, low as nat),
        ),
{
    lemma_counter_name_fields(prefix, high, low, rest);
    lemma_prefixed_field(high);
    lemma_prefixed_field(low);
}

/// A longer run of digits never denotes a smaller value than its prefix.
proof fn lemma_hex_value_prefix(s: Seq<char>, m: int)
    requires
        0 <= m <= s.len(),
    ensures
        hex_value(s.take(m)) <= hex_value(s),
    decreases s.len(),
{
    if m < s.len() {
        assert(s.drop_last().take(m) =~= s.take(m));
        lemma_hex_value_prefix(s.drop_last(), m);
    } else {
        assert(s.take(m) =~= s);
    }
}

/// The value of the digit `c`, if it is one.
fn hex_digit(c: char) -> (r: Option<u32>)
    ensures
        r is Some <==> is_hex_digit(c),
        r matches Some(d) ==> d == hex_digit_value(c) && d < 16,
{
    let u = c as u32;
    if 48 <= u && u <= 57 {
        Some(u - 48)
    } else if 97 <= u && u <= 102 {
        Some(u - 87)
    } else if 65 <= u && u <= 70 {
        Some(u - 55)
    } else {
        None
    }
}

/// The value of the digits `v[from..to]`, when there is at least one, all are
/// hexadecimal digits, and the value is at most `limit`.
pub(crate) fn hex_range_value(v: &Vec<char>, from: usize, to: usize, limit: u64) -> (r: Option<u64>)
    requires
        from <= to <= v.len(),
    ensures
        r is Some <==> hex_within(v@.subrange(from as int, to as int), limit as int),
        r matches Some(x) ==> x == hex_value(v@.subrange(from as int, to as int)),
{
    let ghost d = v@.subrange(from as int, to as int);
    if from == to {
        return None;
    }
    let mut acc: u128 = 0;
    let mut i = from;
    while i < to
        invariant
            from <= i <= to <= v.len(),
            d == v@.subrange(from as int, to as int),
            acc == hex_value(v@.subrange(from as int, i as int)),
            acc <= limit,
            forall|j: int| from <= j < i ==> is_hex_digit(#[trigger] v@[j]),
        decreases to - i,
    {
        let c = v[i];
        match hex_digit(c) {
            None => {
                proof {
                    assert(d[i - from] == c);
                }
                return None;
            },
            Some(dg) => {
                let ghost prev = v@.subrange(from as int, i as int);
                assert(v@.subrange(from as int, i + 1).drop_last() =~= prev);
                acc = acc * 16 + dg as u128;
                if acc > limit as u128 {
                    proof {
                        if all_hex(d) {
                            assert(d.take(i + 1 - from) =~= v@.subrange(from as int, i + 1));
                            lemma_hex_value_prefix(d, i + 1 - from);
                        }
                    }
                    return None;
                }
                i = i + 1;
            },
        }
    }
    proof {
        assert(v@.subrange(from as int, i as int) =~= d);
        assert forall|j: int| 0 <= j < d.len() implies is_hex_digit(#[trigger] d[j]) by {
            assert(d[j] == v@[from + j]);
        }
    }
    Some(acc as u64)
}

/// The first position at or after `from` that holds `c`, or `v.len()`.
fn char_index(v: &Vec<char>, c: char, from: usize) -> (r: usize)
    requires
        from <= v.len(),
    ensures
        r == char_index_from(v@, c, from as nat),
        from <= r <= v.len(),
        r < v.len() ==> v@[r as int] == c,
{
    let mut i = from;
    while i < v.len()
        invariant
            from <= i <= v.len(),
            char_index_from(v@, c, from as nat) == char_index_from(v@, c, i as nat),
            forall|j: int| from <= j < i ==> v@[j] != c,
        decreases v.len() - i,
    {
        if v[i] == c {
            return i;
        }
        i = i + 1;
    }
    i
}

/// Where the first `"luid_"` starts in `v`.
fn find_tag(v: &Vec<char>) -> (r: Option<usize>)
    ensures
        r matches Some(i) ==> find_tag_from(v@, 0) == Some(i as nat) && i + 5 <= v.len(),
        r is None ==> find_tag_from(v@, 0) is None,
{
    let mut i: usize = 0;
    while i < v.len() && v.len() - i >= 5
        invariant
            i <= v.len(),
            find_tag_from(v@, 0) == find_tag_from(v@, i as nat),
        decreases v.len() - i,
    {
        if v[i] == 'l' && v[i + 1] == 'u' && v[i + 2] == 'i' && v[i + 3] == 'd' && v[i + 4] == '_' {
            assert(v@.subrange(i as int, i + 5) =~= luid_tag());
            return Some(i);
        }
        proof {
            if tag_at(v@, i as int) {
                let t = v@.subrange(i as int, i + 5);
                assert(t[0] == v@[i as int] && t[1] == v@[i + 1] && t[2] == v@[i + 2]);
                assert(t[3] == v@[i + 3] && t[4] == v@[i + 4]);
                assert(false);
            }
        }
        i = i + 1;
    }
    None
}

/// The first position in `from..to` that is not the start of a `"0x"` prefix
/// run: `v[r..to]` is `v[from..to]` with its leading `"0x"`s removed.
pub(crate) fn skip_0x(v: &Vec<char>, from: usize, to: usize) -> (r: usize)
    requires
        from <= to <= v.len(),
    ensures
        from <= r <= to,
        v@.subrange(r as int, to as int) == trim_0x(v@.subrange(from as int, to as int)),
{
    let mut r = from;
    while to - r >= 2 && v[r] == '0' && v[r + 1] == 'x'
        invariant
            from <= r <= to <= v.len(),
            trim_0x(v@.subrange(from as int, to as int)) == trim_0x(
                v@.subrange(r as int, to as int),
            ),
        decreases to - r,
    {
        let ghost s = v@.subrange(r as int, to as int);
        assert(s.skip(2) =~= v@.subrange(r + 2, to as int));
        assert(s[0] == '0' && s[1] == 'x');
        r = r + 2;
    }
    proof {
        let s = v@.subrange(r as int, to as int);
        if s.len() >= 2 && s[0] == '0' && s[1] == 'x' {
            assert(v@[r as int] == s[0] && v@[r + 1] == s[1]);
        }
    }
    r
}

/// The field `v[from..to]` read as a base-16 `u32`, after removing its leading
/// `"0x"`s.
fn field_as_u32(v: &Vec<char>, from: usize, to: usize) -> (r: Option<u32>)
    requires
        from <= to <= v.len(),
    ensures
        r matches Some(x) ==> parse_hex_u32(trim_0x(v@.subrange(from as int, to as int))) == Some(
            x as nat,
        ),
        r is None ==> parse_hex_u32(trim_0x(v@.subrange(from as int, to as int))) is None,
{
    let mut start = skip_0x(v, from, to);
    let ghost s = v@.subrange(start as int, to as int);
    if start < to && v[start] == '+' {
        assert(s.drop_first() =~= v@.subrange(start + 1, to as int));
        start = start + 1;
    } else {
        proof {
            if s.len() > 0 {
                assert(s[0] == v@[start as int]);
            }
        }
    }
    assert(without_plus(s) == v@.subrange(start as int, to as int));
    match hex_range_value(v, start, to, 0xFFFF_FFFF) {
        Some(x) => Some(x as u32),
        None => None,
    }
}

/// The two LUID halves of a counter instance name, each as the text between
/// separators: positions `(a, j, k)` with the high half at `a..j` and the low
/// half at `j+1..k`.
pub(crate) fn luid_field_bounds(v: &Vec<char>) -> (r: Option<(usize, usize, usize)>)
    ensures
        r is None ==> luid_fields(v@) is None,
        r matches Some((a, j, k)) ==> {
            &&& a <= j < v.len()
            &&& j + 1 <= k <= v.len()
            &&& luid_fields(v@) == Some(
                (v@.subrange(a as int, j as int), v@.subrange(j + 1, k as int)),
            )
        },
{
    match find_tag(v) {
        None => None,
        Some(i) => {
            let a = i + 5;
            let j = char_index(v, '_', a);
            if j >= v.len() {
                None
            } else {
                let k = char_index(v, '_', j + 1);
                Some((a, j, k))
            }
        },
    }
}

/// Reads the LUID out of a GPU performance-counter instance name such as
/// `"pid_1_luid_0x00000000_0x0000D1B4_phys_0"`: the two `'_'`-separated fields
/// after the first `"luid_"` are the high and low halves, each base-16 after
/// its leading `"0x"`s are removed. `None` when the marker, a field, or a valid
/// `u32` half is missing.
pub fn parse_luid_from_name(name: &str) -> (r: Option<i64>)
    ensures
        r matches Some(x) ==> luid_of_name(name@) == Some(x as int),
        r is None ==> luid_of_name(name@) is None,
{
    let v = chars_of(name);
    match luid_field_bounds(&v) {
        None => None,
        Some((a, j, k)) => {
            let high = match field_as_u32(&v, a, j) {
                Some(h) => h,
                None => return None,
            };
            let low = match field_as_u32(&v, j + 1, k) {
                Some(l) => l,
                None => return None,
            };
            Some(compose_luid(high, low))
        },
    }
}

/// The LUID with 32-bit halves `high` and `low`.
pub fn compose_luid(high: u32, low: u32) -> (r: i64)
    ensures
        r as int == luid_value(high as nat, low as nat),
{
    let h: i64 = if high >= 0x8000_0000 {
        high as i64 - 0x1_0000_0000
    } else {
        high as i64
    };
    h * 0x1_0000_0000 + low as i64
}

} // verus!
