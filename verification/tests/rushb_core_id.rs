use bebop::rushb::{decode_core_id, encode_core_id};

#[test]
fn core_id_round_trip() {
    for (tile_id, local_id, expected) in [
        (0, 0, 0),
        (0, 3, 3),
        (1, 0, 65_536),
        (3, 4, 196_612),
        (65_535, 65_535, u32::MAX),
    ] {
        assert_eq!(encode_core_id(tile_id, local_id), Some(expected));
        assert_eq!(decode_core_id(expected), (tile_id, local_id));
    }
}

#[test]
fn core_id_rejects_oversized_fields() {
    assert_eq!(encode_core_id(65_536, 0), None);
    assert_eq!(encode_core_id(0, 65_536), None);
}
