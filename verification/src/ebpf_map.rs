//! Keeping kernel maps in step with what the router wants in them: entry
//! diffs, reuse of pinned maps, firewall block list changes and NPT masks.
use vstd::prelude::*;

use crate::net::{IpAddress, IpConfig};

verus! {

// ─── Raw map diffs ────────────────────────────────────────────────────────

/// The entries of a map as raw key and value bytes. As in a map, each key
/// occurs once (`well_formed_entries`), which `diff_raw_map` asks of both of
/// its inputs.
pub type RawEbpfMapEntries = Vec<(Vec<u8>, Vec<u8>)>;

/// What turns a map's entries into the wanted ones: keys to delete, entries
/// to insert or overwrite.
#[derive(Debug, Clone)]
pub struct RawEbpfMapDiff {
    pub delete_keys: Vec<Vec<u8>>,
    pub upsert_entries: Vec<(Vec<u8>, Vec<u8>)>,
}

impl RawEbpfMapDiff {
    pub fn is_empty(&self) -> (r: bool)
        ensures
            r == (self.delete_keys@.len() == 0 && self.upsert_entries@.len() == 0),
    {
        self.delete_keys.is_empty() && self.upsert_entries.is_empty()
    }
}

pub open spec fn entries_view(e: Seq<(Vec<u8>, Vec<u8>)>) -> Seq<(Seq<u8>, Seq<u8>)> {
    e.map_values(|p: (Vec<u8>, Vec<u8>)| (p.0@, p.1@))
}

pub open spec fn keys_view(k: Seq<Vec<u8>>) -> Seq<Seq<u8>> {
    k.map_values(|x: Vec<u8>| x@)
}

/// The value of key `k` in the entries, if present.
pub open spec fn value_of(e: Seq<(Seq<u8>, Seq<u8>)>, k: Seq<u8>) -> Option<Seq<u8>>
    decreases e.len(),
{
    if e.len() == 0 {
        None
    } else if e.last().0 == k {
        Some(e.last().1)
    } else {
        value_of(e.drop_last(), k)
    }
}

/// The keys of `current` that `desired` does not have, in order.
pub open spec fn keys_to_delete(current: Seq<(Seq<u8>, Seq<u8>)>, desired: Seq<(Seq<u8>, Seq<u8>)>) -> Seq<Seq<u8>>
    decreases current.len(),
{
    if current.len() == 0 {
        seq![]
    } else {
        let r = keys_to_delete(current.drop_last(), desired);
        if value_of(desired, current.last().0) is None {
            r.push(current.last().0)
        } else {
            r
        }
    }
}

/// The entries of `desired` that `current` lacks or holds with another value.
pub open spec fn entries_to_upsert(current: Seq<(Seq<u8>, Seq<u8>)>, desired: Seq<(Seq<u8>, Seq<u8>)>) -> Seq<(Seq<u8>, Seq<u8>)>
    decreases desired.len(),
{
    if desired.len() == 0 {
        seq![]
    } else {
        let r = entries_to_upsert(current, desired.drop_last());
        let (k, v) = desired.last();
        if value_of(current, k) != Some(v) {
            r.push((k, v))
        } else {
            r
        }
    }
}

/// Whether no key occurs twice.
pub open spec fn distinct_keys(e: Seq<(Seq<u8>, Seq<u8>)>) -> bool {
    forall|i: int, j: int| 0 <= i < j < e.len() ==> e[i].0 != e[j].0
}

/// Entries in which, as in a map, each key occurs once.
pub open spec fn well_formed_entries(e: Seq<(Vec<u8>, Vec<u8>)>) -> bool {
    distinct_keys(entries_view(e))
}

/// The map the entries describe.
pub open spec fn as_map(e: Seq<(Seq<u8>, Seq<u8>)>) -> Map<Seq<u8>, Seq<u8>> {
    Map::new(|k: Seq<u8>| value_of(e, k) is Some, |k: Seq<u8>| value_of(e, k)->0)
}

/// The map after deleting the keys and then writing the entries.
pub open spec fn apply_diff(m: Map<Seq<u8>, Seq<u8>>, delete: Seq<Seq<u8>>, upsert: Seq<(Seq<u8>, Seq<u8>)>) -> Map<Seq<u8>, Seq<u8>> {
    Map::new(
        |k: Seq<u8>| (m.contains_key(k) && !delete.contains(k)) || value_of(upsert, k) is Some,
        |k: Seq<u8>| if value_of(upsert, k) is Some {
            value_of(upsert, k)->0
        } else {
            m[k]
        },
    )
}

fn bytes_equal(a: &Vec<u8>, b: &Vec<u8>) -> (r: bool)
    ensures
        r == (a@ == b@),
{
    if a.len() != b.len() {
        return false;
    }
    let mut i: usize = 0;
    while i < a.len()
        invariant
            i <= a@.len(),
            a@.len() == b@.len(),
            forall|j: int| 0 <= j < i ==> a@[j] == b@[j],
        decreases a@.len() - i,
    {
        if a[i] != b[i] {
            return false;
        }
        i = i + 1;
    }
    assert(a@ =~= b@);
    true
}

fn copy_bytes(a: &Vec<u8>) -> (r: Vec<u8>)
    ensures
        r@ == a@,
{
    vstd::slice::slice_to_vec(a.as_slice())
}

/// The value of `key` in the entries (see `value_of`).
fn lookup(entries: &[(Vec<u8>, Vec<u8>)], key: &Vec<u8>) -> (r: Option<usize>)
    ensures
        match value_of(entries_view(entries@), key@) {
            Some(v) => r matches Some(i) && i < entries@.len() && entries@[i as int].1@ == v,
            None => r is None,
        },
{
    let mut i: usize = entries.len();
    assert(entries@.take(i as int) =~= entries@);
    while i > 0
        invariant
            i <= entries@.len(),
            value_of(entries_view(entries@), key@) == value_of(entries_view(entries@.take(i as int)), key@),
        decreases i,
    {
        let ghost t = entries_view(entries@.take(i as int));
        assert(t.drop_last() =~= entries_view(entries@.take(i - 1)));
        assert(t.last() == (entries@[i - 1].0@, entries@[i - 1].1@));
        if bytes_equal(&entries[i - 1].0, key) {
            return Some(i - 1);
        }
        i = i - 1;
    }
    None
}

/// What turns `current` into `desired` (see `keys_to_delete` and `entries_to_upsert`).
pub fn diff_raw_map(current: &[(Vec<u8>, Vec<u8>)], desired: &[(Vec<u8>, Vec<u8>)]) -> (r: RawEbpfMapDiff)
    requires
        well_formed_entries(current@),
        well_formed_entries(desired@),
    ensures
        keys_view(r.delete_keys@) == keys_to_delete(entries_view(current@), entries_view(desired@)),
        entries_view(r.upsert_entries@) == entries_to_upsert(entries_view(current@), entries_view(desired@)),
{
    let ghost cv = entries_view(current@);
    let ghost dv = entries_view(desired@);
    let mut delete_keys: Vec<Vec<u8>> = Vec::new();
    let mut i: usize = 0;
    while i < current.len()
        invariant
            i <= current@.len(),
            cv == entries_view(current@),
            dv == entries_view(desired@),
            keys_view(delete_keys@) == keys_to_delete(cv.take(i as int), dv),
        decreases current@.len() - i,
    {
        assert(cv.take(i + 1).drop_last() =~= cv.take(i as int));
        assert(cv.take(i + 1).last() == (current@[i as int].0@, current@[i as int].1@));
        if lookup(desired, &current[i].0).is_none() {
            let k = copy_bytes(&current[i].0);
            let ghost before = keys_view(delete_keys@);
            delete_keys.push(k);
            assert(keys_view(delete_keys@) =~= before.push(k@));
        }
        i = i + 1;
    }
    assert(cv.take(i as int) =~= cv);
    let mut upsert_entries: Vec<(Vec<u8>, Vec<u8>)> = Vec::new();
    let mut j: usize = 0;
    while j < desired.len()
        invariant
            j <= desired@.len(),
            cv == entries_view(current@),
            dv == entries_view(desired@),
            entries_view(upsert_entries@) == entries_to_upsert(cv, dv.take(j as int)),
        decreases desired@.len() - j,
    {
        assert(dv.take(j + 1).drop_last() =~= dv.take(j as int));
        assert(dv.take(j + 1).last() == (desired@[j as int].0@, desired@[j as int].1@));
        let same = match lookup(current, &desired[j].0) {
            Some(at) => bytes_equal(&current[at].1, &desired[j].1),
            None => false,
        };
        if !same {
            let k = copy_bytes(&desired[j].0);
            let v = copy_bytes(&desired[j].1);
            let ghost before = entries_view(upsert_entries@);
            upsert_entries.push((k, v));
            assert(entries_view(upsert_entries@) =~= before.push((k@, v@)));
        }
        j = j + 1;
    }
    assert(dv.take(j as int) =~= dv);
    RawEbpfMapDiff { delete_keys, upsert_entries }
}

proof fn lemma_delete_contains(c: Seq<(Seq<u8>, Seq<u8>)>, d: Seq<(Seq<u8>, Seq<u8>)>, k: Seq<u8>)
    ensures
        keys_to_delete(c, d).contains(k) <==> (value_of(c, k) is Some && value_of(d, k) is None),
    decreases c.len(),
{
    if c.len() > 0 {
        lemma_delete_contains(c.drop_last(), d, k);
        let r = keys_to_delete(c.drop_last(), d);
        if value_of(d, c.last().0) is None {
            assert(r.push(c.last().0).contains(k) <==> (r.contains(k) || c.last().0 == k)) by {
                if r.push(c.last().0).contains(k) {
                    let i = choose|i: int| 0 <= i < r.len() + 1 && r.push(c.last().0)[i] == k;
                    if i < r.len() {
                        assert(r[i] == k);
                    }
                }
                if r.contains(k) {
                    let i = choose|i: int| 0 <= i < r.len() && r[i] == k;
                    assert(r.push(c.last().0)[i] == k);
                }
                if c.last().0 == k {
                    assert(r.push(c.last().0)[r.len() as int] == k);
                }
            }
        }
    }
}

proof fn lemma_upsert_value(c: Seq<(Seq<u8>, Seq<u8>)>, d: Seq<(Seq<u8>, Seq<u8>)>, k: Seq<u8>)
    requires
        distinct_keys(d),
    ensures
        value_of(entries_to_upsert(c, d), k) == (if value_of(d, k) is Some && value_of(c, k)
            != value_of(d, k) {
            value_of(d, k)
        } else {
            None::<Seq<u8>>
        }),
    decreases d.len(),
{
    if d.len() > 0 {
        let dp = d.drop_last();
        assert(distinct_keys(dp));
        lemma_upsert_value(c, dp, k);
        let r = entries_to_upsert(c, dp);
        let x = d.last();
        assert(r.push(x).drop_last() =~= r);
        assert(r.push(x).last() == x);
        if x.0 == k {
            assert forall|i: int| 0 <= i < dp.len() implies dp[i].0 != k by {
                assert(d[i] == dp[i]);
                assert(d[d.len() - 1] == x);
            }
            lemma_value_absent(dp, k);
        }
    }
}

/// A key that is last in distinct entries is in none of the others.
proof fn lemma_value_absent(d: Seq<(Seq<u8>, Seq<u8>)>, k: Seq<u8>)
    requires
        forall|i: int| 0 <= i < d.len() ==> d[i].0 != k,
    ensures
        value_of(d, k) is None,
    decreases d.len(),
{
    if d.len() > 0 {
        lemma_value_absent(d.drop_last(), k);
    }
}

/// Applying the diff to the current entries gives the desired entries.
pub proof fn lemma_diff_reaches_desired(current: Seq<(Seq<u8>, Seq<u8>)>, desired: Seq<(Seq<u8>, Seq<u8>)>)
    requires
        distinct_keys(desired),
    ensures
        apply_diff(
            as_map(current),
            keys_to_delete(current, desired),
            entries_to_upsert(current, desired),
        ) == as_map(desired),
{
    let del = keys_to_delete(current, desired);
    let up = entries_to_upsert(current, desired);
    let lhs = apply_diff(as_map(current), del, up);
    assert forall|k: Seq<u8>| #[trigger] lhs.contains_key(k) == as_map(desired).contains_key(k) by {
        lemma_delete_contains(current, desired, k);
        lemma_upsert_value(current, desired, k);
    }
    assert forall|k: Seq<u8>| lhs.contains_key(k) implies #[trigger] lhs[k] == as_map(desired)[k] by {
        lemma_delete_contains(current, desired, k);
        lemma_upsert_value(current, desired, k);
    }
    assert(lhs =~= as_map(desired));
}

/// A key that some entry carries has a value.
proof fn lemma_value_present(e: Seq<(Seq<u8>, Seq<u8>)>, i: int)
    requires
        0 <= i < e.len(),
    ensures
        value_of(e, e[i].0) is Some,
    decreases e.len(),
{
    if i < e.len() - 1 && e.last().0 != e[i].0 {
        lemma_value_present(e.drop_last(), i);
    }
}

/// An entry list without entries for any key is empty.
proof fn lemma_no_values_empty(e: Seq<(Seq<u8>, Seq<u8>)>)
    requires
        forall|k: Seq<u8>| #[trigger] value_of(e, k) is None,
    ensures
        e.len() == 0,
{
    if e.len() > 0 {
        lemma_value_present(e, 0);
    }
}

proof fn lemma_delete_distinct(c: Seq<(Seq<u8>, Seq<u8>)>, d: Seq<(Seq<u8>, Seq<u8>)>)
    requires
        distinct_keys(c),
    ensures
        forall|i: int, j: int|
            0 <= i < j < keys_to_delete(c, d).len() ==> keys_to_delete(c, d)[i] != keys_to_delete(
                c,
                d,
            )[j],
    decreases c.len(),
{
    if c.len() > 0 {
        let cp = c.drop_last();
        assert(distinct_keys(cp));
        lemma_delete_distinct(cp, d);
        let r = keys_to_delete(cp, d);
        let k = c.last().0;
        assert forall|i: int| 0 <= i < cp.len() implies cp[i].0 != k by {
            assert(c[i] == cp[i]);
        }
        lemma_value_absent(cp, k);
        lemma_delete_contains(cp, d, k);
        if value_of(d, k) is None {
            assert forall|i: int| 0 <= i < r.len() implies r[i] != k by {
                assert(r.contains(r[i]));
            }
        }
    }
}

proof fn lemma_upsert_distinct(c: Seq<(Seq<u8>, Seq<u8>)>, d: Seq<(Seq<u8>, Seq<u8>)>)
    requires
        distinct_keys(d),
    ensures
        distinct_keys(entries_to_upsert(c, d)),
    decreases d.len(),
{
    if d.len() > 0 {
        let dp = d.drop_last();
        assert(distinct_keys(dp));
        lemma_upsert_distinct(c, dp);
        let r = entries_to_upsert(c, dp);
        let k = d.last().0;
        assert forall|i: int| 0 <= i < dp.len() implies dp[i].0 != k by {
            assert(d[i] == dp[i]);
        }
        lemma_value_absent(dp, k);
        lemma_upsert_value(c, dp, k);
        assert forall|i: int| 0 <= i < r.len() implies r[i].0 != k by {
            lemma_value_present(r, i);
        }
    }
}

/// The diff names each key once: the deleted keys are those that `current`
/// has and `desired` lacks; the written entries are those of `desired` that
/// `current` lacks or holds with another value.
pub proof fn lemma_diff_shape(current: Seq<(Seq<u8>, Seq<u8>)>, desired: Seq<(Seq<u8>, Seq<u8>)>)
    requires
        distinct_keys(current),
        distinct_keys(desired),
    ensures
        forall|i: int, j: int|
            0 <= i < j < keys_to_delete(current, desired).len() ==> keys_to_delete(
                current,
                desired,
            )[i] != keys_to_delete(current, desired)[j],
        forall|k: Seq<u8>|
            #[trigger] keys_to_delete(current, desired).contains(k) <==> (value_of(current, k) is Some
                && value_of(desired, k) is None),
        distinct_keys(entries_to_upsert(current, desired)),
        forall|k: Seq<u8>|
            #[trigger] value_of(entries_to_upsert(current, desired), k) == (if value_of(desired, k) is Some
                && value_of(current, k) != value_of(desired, k) {
                value_of(desired, k)
            } else {
                None::<Seq<u8>>
            }),
{
    lemma_delete_distinct(current, desired);
    lemma_upsert_distinct(current, desired);
    assert forall|k: Seq<u8>|
        #[trigger] keys_to_delete(current, desired).contains(k) <==> (value_of(current, k) is Some
            && value_of(desired, k) is None) by {
        lemma_delete_contains(current, desired, k);
    }
    assert forall|k: Seq<u8>|
        #[trigger] value_of(entries_to_upsert(current, desired), k) == (if value_of(desired, k) is Some
            && value_of(current, k) != value_of(desired, k) {
            value_of(desired, k)
        } else {
            None::<Seq<u8>>
        }) by {
        lemma_upsert_value(current, desired, k);
    }
}

/// The diff is empty exactly when the two entry lists describe the same map.
pub proof fn lemma_empty_diff_iff_same(current: Seq<(Seq<u8>, Seq<u8>)>, desired: Seq<(Seq<u8>, Seq<u8>)>)
    requires
        distinct_keys(current),
        distinct_keys(desired),
    ensures
        (keys_to_delete(current, desired).len() == 0 && entries_to_upsert(current, desired).len()
            == 0) <==> as_map(current) == as_map(desired),
{
    let del = keys_to_delete(current, desired);
    let up = entries_to_upsert(current, desired);
    if del.len() == 0 && up.len() == 0 {
        lemma_diff_reaches_desired(current, desired);
        let m = as_map(current);
        assert(apply_diff(m, del, up) =~= m);
    }
    if as_map(current) == as_map(desired) {
        assert forall|k: Seq<u8>| #[trigger] value_of(current, k) == value_of(desired, k) by {
            assert(as_map(current).contains_key(k) == as_map(desired).contains_key(k));
            if value_of(current, k) is Some {
                assert(as_map(current)[k] == as_map(desired)[k]);
            }
        }
        assert forall|k: Seq<u8>| #[trigger] value_of(up, k) is None by {
            lemma_upsert_value(current, desired, k);
        }
        lemma_no_values_empty(up);
        if del.len() > 0 {
            lemma_delete_contains(current, desired, del[0]);
            assert(del.contains(del[0]));
        }
    }
}

// ─── Pinned maps ──────────────────────────────────────────────────────────

/// Whether a map pinned by an earlier run can be reused.
#[derive(Debug, Clone, Copy, PartialEq, Eq, Structural)]
pub enum PinnedMapReuseStatus {
    Compatible,
    Missing,
    Incompatible,
}

/// The shape of a map: its type, key and value sizes, capacity and flags.
#[derive(Debug, Clone, Copy, PartialEq, Eq, Structural)]
pub struct MapLayout {
    pub map_type: u32,
    pub key_size: u32,
    pub value_size: u32,
    pub max_entries: u32,
    pub map_flags: u32,
}

/// A pinned map can be reused only if it exists, can be inspected, and has
/// exactly the expected shape.
pub open spec fn reuse_status(pin_exists: bool, pinned: Option<MapLayout>, expected: MapLayout) -> PinnedMapReuseStatus {
    if !pin_exists {
        PinnedMapReuseStatus::Missing
    } else {
        match pinned {
            None => PinnedMapReuseStatus::Incompatible,
            Some(actual) => if actual == expected {
                PinnedMapReuseStatus::Compatible
            } else {
                PinnedMapReuseStatus::Incompatible
            },
        }
    }
}

/// Judges a pinned map (see `reuse_status`); `pinned` is its shape, or none
/// when it could not be inspected.
pub fn pinned_map_reuse_status(pin_exists: bool, pinned: Option<MapLayout>, expected: MapLayout) -> (r: PinnedMapReuseStatus)
    ensures
        r == reuse_status(pin_exists, pinned, expected),
{
    if !pin_exists {
        return PinnedMapReuseStatus::Missing;
    }
    let actual = match pinned {
        Some(a) => a,
        None => return PinnedMapReuseStatus::Incompatible,
    };
    if actual.map_type != expected.map_type || actual.key_size != expected.key_size
        || actual.value_size != expected.value_size || actual.max_entries != expected.max_entries
        || actual.map_flags != expected.map_flags {
        return PinnedMapReuseStatus::Incompatible;
    }
    PinnedMapReuseStatus::Compatible
}

// ─── NPT masks ────────────────────────────────────────────────────────────

/// `u64` with its eight bytes in reverse order.
pub open spec fn swap_bytes(x: u64) -> u64 {
    ((x >> 56u64) & 0xff) | (((x >> 48u64) & 0xff) << 8u64) | (((x >> 40u64) & 0xff) << 16u64) | (((
    x >> 32u64) & 0xff) << 24u64) | (((x >> 24u64) & 0xff) << 32u64) | (((x >> 16u64) & 0xff)
        << 40u64) | (((x >> 8u64) & 0xff) << 48u64) | ((x & 0xff) << 56u64)
}

/// The NPT mask of a prefix shorter than 64 bits: the upper 64 bits of the
/// address in network order, zero inside the prefix and one after it
/// (`u64::MAX >> prefix_len`), stored little-endian, so that byte `i` of the
/// mask covers byte `i` of the address. Zero for longer prefixes.
pub open spec fn npt_mask(prefix_len: u8) -> u64 {
    if prefix_len >= 64 {
        0
    } else {
        swap_bytes(0xFFFF_FFFF_FFFF_FFFFu64 >> (prefix_len as u64))
    }
}

/// Byte `i` of the mask, as the loop below builds it.
spec fn mask_byte(prefix_len: u8, i: int) -> u8 {
    let full = prefix_len / 8;
    let rem = prefix_len % 8;
    if i < full {
        0
    } else if i == full && rem > 0 {
        ((1u8 << ((8 - rem) as u8)) - 1) as u8
    } else {
        0xFF
    }
}

/// Mask bytes 0 to `n - 1`, placed little-endian.
spec fn mask_bytes_upto(prefix_len: u8, n: int) -> u64
    decreases n,
{
    if n <= 0 {
        0
    } else {
        (mask_bytes_upto(prefix_len, n - 1) | ((mask_byte(prefix_len, n - 1) as u64) << ((8 * (n
            - 1)) as u64))) as u64
    }
}

proof fn lemma_mask_bytes(prefix_len: u8)
    requires
        prefix_len < 64,
    ensures
        mask_bytes_upto(prefix_len, 8) == npt_mask(prefix_len),
{
    reveal_with_fuel(mask_bytes_upto, 9);
    let p = prefix_len;
    let (b0, b1, b2, b3) = (mask_byte(p, 0), mask_byte(p, 1), mask_byte(p, 2), mask_byte(p, 3));
    let (b4, b5, b6, b7) = (mask_byte(p, 4), mask_byte(p, 5), mask_byte(p, 6), mask_byte(p, 7));
    let full = p / 8;
    let rem = p % 8;
    let low = ((1u8 << ((8 - rem) as u8)) - 1) as u8;
    let (m1, m2, m3, m4) = (
        mask_bytes_upto(p, 1),
        mask_bytes_upto(p, 2),
        mask_bytes_upto(p, 3),
        mask_bytes_upto(p, 4),
    );
    let (m5, m6, m7, m8) = (
        mask_bytes_upto(p, 5),
        mask_bytes_upto(p, 6),
        mask_bytes_upto(p, 7),
        mask_bytes_upto(p, 8),
    );
    assert(m8 == swap_bytes(0xFFFF_FFFF_FFFF_FFFFu64 >> (p as u64))) by (bit_vector)
        requires
            p < 64,
            full == p / 8,
            rem == p % 8,
            low == ((1u8 << ((8 - rem) as u8)) - 1) as u8,
            b0 == (if 0 < full { 0u8 } else if 0 == full && rem > 0 { low } else { 0xFFu8 }),
            b1 == (if 1 < full { 0u8 } else if 1 == full && rem > 0 { low } else { 0xFFu8 }),
            b2 == (if 2 < full { 0u8 } else if 2 == full && rem > 0 { low } else { 0xFFu8 }),
            b3 == (if 3 < full { 0u8 } else if 3 == full && rem > 0 { low } else { 0xFFu8 }),
            b4 == (if 4 < full { 0u8 } else if 4 == full && rem > 0 { low } else { 0xFFu8 }),
            b5 == (if 5 < full { 0u8 } else if 5 == full && rem > 0 { low } else { 0xFFu8 }),
            b6 == (if 6 < full { 0u8 } else if 6 == full && rem > 0 { low } else { 0xFFu8 }),
            b7 == (if 7 < full { 0u8 } else if 7 == full && rem > 0 { low } else { 0xFFu8 }),
            m1 == 0u64 | ((b0 as u64) << 0u64),
            m2 == m1 | ((b1 as u64) << 8u64),
            m3 == m2 | ((b2 as u64) << 16u64),
            m4 == m3 | ((b3 as u64) << 24u64),
            m5 == m4 | ((b4 as u64) << 32u64),
            m6 == m5 | ((b5 as u64) << 40u64),
            m7 == m6 | ((b6 as u64) << 48u64),
            m8 == m7 | ((b7 as u64) << 56u64),
    ;
}

pub fn compute_npt_mask(prefix_len: u8) -> (r: u64)
    ensures
        r == npt_mask(prefix_len),
{
    if prefix_len >= 64 {
        return 0;
    }
    let mut mask: u64 = 0;
    let full_bytes = (prefix_len / 8) as usize;
    let remaining_bits = prefix_len % 8;
    let mut i: usize = 0;
    while i < 8
        invariant
            i <= 8,
            prefix_len < 64,
            full_bytes == prefix_len / 8,
            remaining_bits == prefix_len % 8,
            mask == mask_bytes_upto(prefix_len, i as int),
        decreases 8 - i,
    {
        let byte_mask: u8 = if i < full_bytes {
            0x00
        } else if i == full_bytes && remaining_bits > 0 {
            let shift: u8 = 8 - remaining_bits;
            assert((1u8 << shift) >= 1) by (bit_vector)
                requires
                    1 <= shift <= 7,
            ;
            (1u8 << shift) - 1
        } else {
            0xFF
        };
        assert(byte_mask == mask_byte(prefix_len, i as int));
        mask = mask | ((byte_mask as u64) << ((i * 8) as u64));
        i = i + 1;
    }
    proof {
        lemma_mask_bytes(prefix_len);
    }
    mask
}

// ─── Firewall block list ──────────────────────────────────────────────────

/// The block-list changes that take the old prefixes to the new ones, split
/// by family.
#[derive(Debug, Clone)]
pub struct BlacklistChanges {
    pub add_v4: Vec<IpConfig>,
    pub add_v6: Vec<IpConfig>,
    pub del_v4: Vec<IpConfig>,
    pub del_v6: Vec<IpConfig>,
}

pub open spec fn is_v4(c: IpConfig) -> bool {
    c.ip is V4
}

/// Whether no prefix occurs twice.
pub open spec fn no_repeats(s: Seq<IpConfig>) -> bool {
    forall|i: int, j: int| 0 <= i < j < s.len() ==> s[i] != s[j]
}

/// The prefixes of `a` not in `b`, of the family `v4` says.
pub open spec fn missing_from(a: Seq<IpConfig>, b: Seq<IpConfig>, v4: bool) -> Set<IpConfig> {
    Set::new(|c: IpConfig| a.contains(c) && !b.contains(c) && is_v4(c) == v4)
}

fn holds_prefix(v: &[IpConfig], c: IpConfig) -> (r: bool)
    ensures
        r == v@.contains(c),
{
    let mut i: usize = 0;
    while i < v.len()
        invariant
            i <= v@.len(),
            forall|j: int| 0 <= j < i ==> v@[j] != c,
        decreases v@.len() - i,
    {
        if v[i] == c {
            return true;
        }
        i = i + 1;
    }
    false
}

proof fn lemma_push_contains(s: Seq<IpConfig>, c: IpConfig)
    ensures
        forall|x: IpConfig| #[trigger] s.push(c).contains(x) == (s.contains(x) || x == c),
{
    assert forall|x: IpConfig| #[trigger] s.push(c).contains(x) == (s.contains(x) || x == c) by {
        if s.push(c).contains(x) {
            let k = choose|k: int| 0 <= k < s.len() + 1 && s.push(c)[k] == x;
            if k < s.len() {
                assert(s[k] == x);
            }
        }
        if s.contains(x) {
            let k = choose|k: int| 0 <= k < s.len() && s[k] == x;
            assert(s.push(c)[k] == x);
        }
        if x == c {
            assert(s.push(c)[s.len() as int] == x);
        }
    }
}

/// The prefixes of `a` missing from `b`, split by family, each once.
fn difference_by_family(a: &[IpConfig], b: &[IpConfig]) -> (r: (Vec<IpConfig>, Vec<IpConfig>))
    ensures
        r.0@.to_set() == missing_from(a@, b@, true),
        r.1@.to_set() == missing_from(a@, b@, false),
        no_repeats(r.0@),
        no_repeats(r.1@),
{
    let mut v4: Vec<IpConfig> = Vec::new();
    let mut v6: Vec<IpConfig> = Vec::new();
    let mut i: usize = 0;
    while i < a.len()
        invariant
            i <= a@.len(),
            v4@.to_set() == missing_from(a@.take(i as int), b@, true),
            v6@.to_set() == missing_from(a@.take(i as int), b@, false),
            no_repeats(v4@),
            no_repeats(v6@),
        decreases a@.len() - i,
    {
        let c = a[i];
        let ghost t0 = a@.take(i as int);
        let ghost t1 = a@.take(i + 1);
        assert(t1 =~= t0.push(c));
        proof {
            lemma_push_contains(t0, c);
            lemma_push_contains(v4@, c);
            lemma_push_contains(v6@, c);
        }
        let ghost o4 = v4@;
        let ghost o6 = v6@;
        if !holds_prefix(b, c) {
            if c.ip.is_ipv4() {
                if !holds_prefix(v4.as_slice(), c) {
                    v4.push(c);
                    assert(v4@ == o4.push(c));
                }
            } else {
                if !holds_prefix(v6.as_slice(), c) {
                    v6.push(c);
                    assert(v6@ == o6.push(c));
                }
            }
        }
        assert forall|x: IpConfig| v4@.contains(x) == missing_from(t1, b@, true).contains(x) by {
            assert(o4.to_set().contains(x) == missing_from(t0, b@, true).contains(x));
        }
        assert forall|x: IpConfig| v6@.contains(x) == missing_from(t1, b@, false).contains(x) by {
            assert(o6.to_set().contains(x) == missing_from(t0, b@, false).contains(x));
        }
        assert(v4@.to_set() =~= missing_from(t1, b@, true));
        assert(v6@.to_set() =~= missing_from(t1, b@, false));
        i = i + 1;
    }
    assert(a@.take(i as int) =~= a@);
    (v4, v6)
}

/// The block-list changes from the old prefixes to the new ones: what is new
/// is added, what is gone is deleted, each split by family and listed once.
pub fn blacklist_changes(new_ips: &[IpConfig], old_ips: &[IpConfig]) -> (r: BlacklistChanges)
    ensures
        r.add_v4@.to_set() == missing_from(new_ips@, old_ips@, true),
        r.add_v6@.to_set() == missing_from(new_ips@, old_ips@, false),
        r.del_v4@.to_set() == missing_from(old_ips@, new_ips@, true),
        r.del_v6@.to_set() == missing_from(old_ips@, new_ips@, false),
        no_repeats(r.add_v4@),
        no_repeats(r.add_v6@),
        no_repeats(r.del_v4@),
        no_repeats(r.del_v6@),
{
    let (add_v4, add_v6) = difference_by_family(new_ips, old_ips);
    let (del_v4, del_v6) = difference_by_family(old_ips, new_ips);
    BlacklistChanges { add_v4, add_v6, del_v4, del_v6 }
}

/// Deleting the removed prefixes from the old block list and adding the new
/// ones gives exactly the new block list.
pub proof fn lemma_blacklist_changes_reach_new(new_ips: Seq<IpConfig>, old_ips: Seq<IpConfig>)
    ensures
        old_ips.to_set().difference(
            missing_from(old_ips, new_ips, true).union(missing_from(old_ips, new_ips, false)),
        ).union(missing_from(new_ips, old_ips, true).union(missing_from(new_ips, old_ips, false)))
            == new_ips.to_set(),
{
    let lhs = old_ips.to_set().difference(
        missing_from(old_ips, new_ips, true).union(missing_from(old_ips, new_ips, false)),
    ).union(missing_from(new_ips, old_ips, true).union(missing_from(new_ips, old_ips, false)));
    assert(lhs =~= new_ips.to_set());
}

} // verus!
