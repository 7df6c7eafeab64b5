use std::collections::{HashMap, HashSet};
use landscape::ebpf_map::{
    blacklist_changes, compute_npt_mask, diff_raw_map, pinned_map_reuse_status, MapLayout,
    PinnedMapReuseStatus,
};
use landscape::net::{IpAddress, IpConfig};

fn entry(k: &[u8], v: &[u8]) -> (Vec<u8>, Vec<u8>) {
    (k.to_vec(), v.to_vec())
}

#[test]
fn map_diff_deletes_stale_and_writes_changed_entries() {
    let current = vec![entry(b"a", b"1"), entry(b"b", b"2"), entry(b"c", b"3")];
    let desired = vec![entry(b"b", b"2"), entry(b"c", b"4"), entry(b"d", b"5")];
    let diff = diff_raw_map(&current, &desired);
    assert_eq!(diff.delete_keys, vec![b"a".to_vec()]);
    assert_eq!(diff.upsert_entries, vec![entry(b"c", b"4"), entry(b"d", b"5")]);
    assert!(!diff.is_empty());
    assert!(diff_raw_map(&desired, &desired).is_empty());
}

#[test]
fn pinned_maps_are_reused_only_with_the_same_layout() {
    let layout = MapLayout { map_type: 1, key_size: 4, value_size: 8, max_entries: 1024, map_flags: 0 };
    assert_eq!(pinned_map_reuse_status(false, None, layout), PinnedMapReuseStatus::Missing);
    assert_eq!(pinned_map_reuse_status(true, None, layout), PinnedMapReuseStatus::Incompatible);
    assert_eq!(pinned_map_reuse_status(true, Some(layout), layout), PinnedMapReuseStatus::Compatible);
    let wider = MapLayout { value_size: 16, ..layout };
    assert_eq!(pinned_map_reuse_status(true, Some(wider), layout), PinnedMapReuseStatus::Incompatible);
}

#[test]
fn npt_masks_keep_bits_between_prefix_and_interface_id() {
    assert_eq!(compute_npt_mask(64), 0);
    assert_eq!(compute_npt_mask(128), 0);
    assert_eq!(compute_npt_mask(0), u64::MAX);
    // /48: bytes 0..6 of the address are the prefix, bytes 6 and 7 are kept.
    assert_eq!(compute_npt_mask(48), 0xFFFF_0000_0000_0000);
    // /60: half of byte 7 is kept.
    assert_eq!(compute_npt_mask(60), 0x0F00_0000_0000_0000);
    // /56 keeps byte 7 only.
    assert_eq!(compute_npt_mask(56), 0xFF00_0000_0000_0000);
}

#[test]
fn blacklist_changes_split_by_family_without_repeats() {
    let a = IpConfig { ip: IpAddress::V4(0x0A00_0000), prefix: 8 };
    let b = IpConfig { ip: IpAddress::V4(0xC0A8_0000), prefix: 16 };
    let c = IpConfig { ip: IpAddress::V6(0x2001_0db8 << 96), prefix: 32 };
    let changes = blacklist_changes(&[a, c, c], &[b, c]);
    assert_eq!(changes.add_v4, vec![a]);
    assert!(changes.add_v6.is_empty());
    assert_eq!(changes.del_v4, vec![b]);
    assert!(changes.del_v6.is_empty());
}

#[test]
fn applying_a_map_diff_gives_the_desired_entries() {
    let current = vec![entry(b"k1", b"a"), entry(b"k2", b"b"), entry(b"k3", b"c")];
    let desired = vec![entry(b"k3", b"c"), entry(b"k2", b"x"), entry(b"k4", b"y")];
    let diff = diff_raw_map(&current, &desired);
    let mut map: HashMap<Vec<u8>, Vec<u8>> = current.into_iter().collect();
    for k in &diff.delete_keys {
        map.remove(k);
    }
    for (k, v) in diff.upsert_entries {
        map.insert(k, v);
    }
    let want: HashMap<Vec<u8>, Vec<u8>> = desired.into_iter().collect();
    assert_eq!(map, want);
}

#[test]
fn applying_blacklist_changes_gives_the_new_list() {
    let a = IpConfig { ip: IpAddress::V4(1), prefix: 32 };
    let b = IpConfig { ip: IpAddress::V4(2), prefix: 32 };
    let c = IpConfig { ip: IpAddress::V6(3), prefix: 128 };
    let d = IpConfig { ip: IpAddress::V6(4), prefix: 128 };
    let old = [a, c];
    let new = [b, c, d];
    let ch = blacklist_changes(&new, &old);
    let mut set: HashSet<IpConfig> = old.iter().copied().collect();
    for x in ch.del_v4.iter().chain(ch.del_v6.iter()) {
        set.remove(x);
    }
    for x in ch.add_v4.iter().chain(ch.add_v6.iter()) {
        set.insert(*x);
    }
    assert_eq!(set, new.iter().copied().collect());
}

#[test]
fn map_diff_is_empty_for_the_same_map_in_another_order() {
    let current = vec![entry(b"a", b"1"), entry(b"b", b"2")];
    let desired = vec![entry(b"b", b"2"), entry(b"a", b"1")];
    assert!(diff_raw_map(&current, &desired).is_empty());
    let changed = vec![entry(b"b", b"2"), entry(b"a", b"9")];
    assert!(!diff_raw_map(&current, &changed).is_empty());
}

#[test]
fn npt_mask_is_the_byte_swapped_host_part() {
    for p in 0u8..64 {
        assert_eq!(compute_npt_mask(p), (u64::MAX >> p).swap_bytes());
    }
}
