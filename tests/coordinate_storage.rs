use pbf2json::codec::{decode_value, key_bytes, value_bytes};
use pbf2json::geometry::Coord;
use pbf2json::store::{
    lookup_outcome, next_map_size, CoordinateStorage, StoreError, StoredValue, MAP_SIZE_BYTES, MIN_MAP_SIZE_BYTES,
};

fn c(lat: i32, lon: i32) -> Option<Coord> {
    Some(Coord { lat, lon })
}

#[test]
fn test_coordinate_storage() -> Result<(), StoreError> {
    let storage = CoordinateStorage::new_temp()?;

    // Store some coordinates
    storage.store_node(123, 407_128_000, -740_060_000)?; // NYC
    storage.store_node(456, 515_074_000, -1_278_000)?; // London

    // Retrieve single coordinate
    let nyc = storage.get_node(123)?;
    assert_eq!(nyc, c(407_128_000, -740_060_000));

    // Retrieve non-existent coordinate
    let missing = storage.get_node(999)?;
    assert_eq!(missing, None);

    // Retrieve multiple coordinates
    let coords = storage.get_nodes(&[123, 456, 999])?;
    assert_eq!(coords.len(), 3);
    assert_eq!(coords[0], c(407_128_000, -740_060_000));
    assert_eq!(coords[1], c(515_074_000, -1_278_000));
    assert_eq!(coords[2], None);

    Ok(())
}

#[test]
fn test_batch_operations() -> Result<(), StoreError> {
    let storage = CoordinateStorage::new_temp()?;

    // Store multiple coordinates in batch
    let nodes = vec![
        (100, 377_749_000, -1_224_194_000), // San Francisco
        (200, 340_522_000, -1_182_437_000), // Los Angeles
        (300, 407_589_000, -739_851_000),   // New York (Times Square)
    ];
    storage.store_nodes(&nodes)?;

    // Retrieve them
    let coords = storage.get_nodes(&[100, 200, 300, 400])?;
    assert_eq!(coords.len(), 4);
    assert_eq!(coords[0], c(377_749_000, -1_224_194_000));
    assert_eq!(coords[1], c(340_522_000, -1_182_437_000));
    assert_eq!(coords[2], c(407_589_000, -739_851_000));
    assert_eq!(coords[3], None); // Non-existent

    Ok(())
}

#[test]
fn store_last_write_wins_and_sync() -> Result<(), StoreError> {
    let storage = CoordinateStorage::new_temp()?;
    storage.store_nodes(&[(7, 1, 2), (7, 3, 4), (-8, -5, -6)])?;
    storage.sync()?;
    assert_eq!(storage.get_nodes(&[7, -8, 8])?, vec![c(3, 4), c(-5, -6), None]);
    assert!(storage.retained_path().is_none());
    Ok(())
}

#[test]
fn store_round_trip_many_entries() -> Result<(), StoreError> {
    let storage = CoordinateStorage::new_temp()?;
    let entries: Vec<(i64, i32, i32)> = (0..500i64)
        .map(|i| (i * 7919 - 100_000, (i as i32) * 1_000_003 - 900_000_000, 1_800_000_000 - (i as i32) * 3))
        .collect();
    storage.store_nodes(&entries)?;
    let ids: Vec<i64> = entries.iter().map(|e| e.0).collect();
    let got = storage.get_nodes(&ids)?;
    let want: Vec<Option<Coord>> = entries.iter().map(|e| c(e.1, e.2)).collect();
    assert_eq!(got, want);
    Ok(())
}

#[test]
fn retained_scratch_store_reports_its_directory() -> Result<(), StoreError> {
    let storage = CoordinateStorage::new_with_cleanup(None, true)?;
    let dir = storage.retained_path().cloned().expect("retained directory");
    assert_eq!(storage.location(), &format!("{}/coordinates", dir));
    assert!(std::path::Path::new(storage.location()).exists());
    drop(storage);
    assert!(std::path::Path::new(&dir).exists());
    Ok(())
}

#[test]
fn store_in_caller_directory_is_removed_on_drop() -> Result<(), StoreError> {
    let parent = tempfile::tempdir().expect("parent directory");
    let parent_path = parent.path().to_str().expect("utf-8 path").to_string();
    let storage = CoordinateStorage::new(Some(&parent_path))?;
    assert!(storage.retained_path().is_none());
    let scratch = storage.scratch_dir().clone();
    assert!(scratch.starts_with(&parent_path));
    storage.store_node(1, 2, 3)?;
    assert_eq!(storage.get_node(1)?, c(2, 3));
    assert!(std::path::Path::new(storage.location()).exists());
    drop(storage);
    assert!(!std::path::Path::new(&scratch).exists());
    assert!(std::path::Path::new(&parent_path).exists());
    Ok(())
}

#[test]
fn store_in_caller_directory_can_be_retained() -> Result<(), StoreError> {
    let parent = tempfile::tempdir().expect("parent directory");
    let parent_path = parent.path().to_str().expect("utf-8 path").to_string();
    let storage = CoordinateStorage::new_with_cleanup(Some(&parent_path), true)?;
    let kept = storage.retained_path().cloned().expect("retained directory");
    drop(storage);
    assert!(std::path::Path::new(&kept).join("coordinates").exists());
    Ok(())
}

#[test]
fn store_at_missing_directory_fails() {
    let r = CoordinateStorage::new(Some("/nonexistent-directory-for-store/sub"));
    assert!(matches!(r, Err(StoreError::Io(_))));
}

#[test]
fn map_size_halves_down_to_the_floor() {
    assert_eq!(next_map_size(MAP_SIZE_BYTES), Some(MAP_SIZE_BYTES / 2));
    assert_eq!(next_map_size(2 * MIN_MAP_SIZE_BYTES), Some(MIN_MAP_SIZE_BYTES));
    assert_eq!(next_map_size(2 * MIN_MAP_SIZE_BYTES - 1), None);
    assert_eq!(next_map_size(MIN_MAP_SIZE_BYTES), None);
    let storage = CoordinateStorage::new_temp().expect("store");
    let size = storage.map_size();
    assert!(size >= MIN_MAP_SIZE_BYTES && size <= MAP_SIZE_BYTES);
    assert_eq!(MAP_SIZE_BYTES % size, 0);
}

#[test]
fn codec_layout_is_big_endian() {
    assert_eq!(key_bytes(1), vec![0, 0, 0, 0, 0, 0, 0, 1]);
    assert_eq!(key_bytes(-1), vec![255; 8]);
    assert_eq!(key_bytes(0x0102_0304_0506_0708), vec![1, 2, 3, 4, 5, 6, 7, 8]);
    let v = value_bytes(Coord { lat: 258, lon: -2 });
    assert_eq!(v, vec![0, 0, 0, 0, 0, 0, 1, 2, 255, 255, 255, 255, 255, 255, 255, 254]);
    assert_eq!(decode_value(&v), c(258, -2));
}

#[test]
fn codec_rejects_malformed_values() {
    assert_eq!(decode_value(&[0u8; 15]), None);
    assert_eq!(decode_value(&[0u8; 17]), None);
    let mut too_big = vec![0u8; 16];
    too_big[3] = 1; // latitude 2^32, outside the range of a position
    assert_eq!(decode_value(&too_big), None);
    assert_eq!(decode_value(&[0u8; 16]), c(0, 0));
}

#[test]
fn lookup_outcomes() {
    assert_eq!(lookup_outcome(StoredValue::Found(value_bytes(Coord { lat: 5, lon: 6 }))).unwrap(), c(5, 6));
    assert_eq!(lookup_outcome(StoredValue::Found(vec![1, 2, 3])).unwrap(), None);
    assert_eq!(lookup_outcome(StoredValue::Missing).unwrap(), None);
    assert!(matches!(
        lookup_outcome(StoredValue::Failed(lmdb::Error::Corrupted)),
        Err(StoreError::Lmdb(lmdb::Error::Corrupted))
    ));
}
