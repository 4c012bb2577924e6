//! Tests for `ByteIndexMap`: the compact form must be indistinguishable from
//! the plain vector of offsets it replaces, at every offset including past
//! the end.

use loki_layout::ByteIndexMap;

/// The reference behaviour: what the call sites did by hand with a `Vec`.
fn reference(v: &[usize], i: usize) -> usize {
    v.get(i)
        .copied()
        .unwrap_or_else(|| v.last().copied().unwrap_or(0))
}

fn agrees_with_reference(indices: &[usize]) {
    let map = ByteIndexMap::from_indices(indices);
    assert_eq!(map.len(), indices.len());
    assert_eq!(map.last(), indices.last().copied());
    for i in 0..indices.len() + 3 {
        assert_eq!(
            map.get_clamped(i),
            reference(indices, i),
            "offset {i} diverged for {indices:?}"
        );
        assert_eq!(map.get(i), indices.get(i).copied(), "get({i}) diverged");
    }
}

#[test]
fn identity_input_compacts_to_identity() {
    let indices: Vec<usize> = (0..64).collect();
    assert_eq!(
        ByteIndexMap::from_indices(&indices),
        ByteIndexMap::Identity { len: 64 },
        "a map with nothing removed must not allocate an array"
    );
    agrees_with_reference(&indices);
}

#[test]
fn a_single_removed_byte_forces_the_mapped_form() {
    let indices = vec![0, 1, 2, 3, 3, 4, 5];
    assert!(matches!(
        ByteIndexMap::from_indices(&indices),
        ByteIndexMap::Mapped(_)
    ));
    agrees_with_reference(&indices);
}

#[test]
fn empty_and_singleton_maps_behave() {
    let empty = ByteIndexMap::from_indices(&[]);
    assert!(empty.is_empty());
    assert_eq!(empty.last(), None);
    assert_eq!(empty.get(0), None);
    assert_eq!(empty.get_clamped(0), 0);
    agrees_with_reference(&[]);

    agrees_with_reference(&[0]);
}

#[test]
fn a_non_monotonic_map_still_round_trips() {
    agrees_with_reference(&[5, 0, 9, 2]);
}

#[test]
fn the_mapped_form_is_exactly_sized() {
    let indices = vec![0, 0, 1, 2, 2, 3];
    match ByteIndexMap::from_indices(&indices) {
        ByteIndexMap::Mapped(v) => assert_eq!(
            v.len(),
            indices.len(),
            "the mapped form must hold exactly one entry per index"
        ),
        ByteIndexMap::Identity { .. } => panic!("expected the mapped form"),
    }
}

#[test]
fn an_oversized_offset_saturates_at_u32_max() {
    let big = u32::MAX as usize + 7;
    let map = ByteIndexMap::from_indices(&[3, big]);
    assert_eq!(map.get(0), Some(3));
    assert_eq!(map.get(1), Some(u32::MAX as usize));
    assert_eq!(map.get_clamped(9), u32::MAX as usize);
}

#[test]
fn identity_get_and_last() {
    let map = ByteIndexMap::from_indices(&[0, 1, 2]);
    assert_eq!(map, ByteIndexMap::Identity { len: 3 });
    assert_eq!(map.get(2), Some(2));
    assert_eq!(map.get(3), None);
    assert_eq!(map.last(), Some(2));
    assert_eq!(map.get_clamped(100), 2);
    assert!(!map.is_empty());
}
