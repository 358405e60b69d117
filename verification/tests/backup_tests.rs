use medguard::backup::BackupEngine;
use medguard::backup::FileMetadata;
use medguard::crypto::Crypto;
use medguard::crypto::CryptoError;
use medguard::storage::RestoreError;
use medguard::storage::Storage;

fn meta(size: u64) -> FileMetadata {
    FileMetadata { size, permissions: 0o644, modified: 1_700_000_000 }
}

#[test]
fn test_backup_creation() {
    let engine = BackupEngine::new(4096);
    let data = b"Test medical data".to_vec();
    let backup = engine.create_backup(&data, 1_700_000_000, meta(data.len() as u64));

    assert!(!backup.file_hash.is_empty());
    assert!(!backup.block_hashes.is_empty());
}

#[test]
fn test_incremental_changes() {
    let engine = BackupEngine::new(10);
    let crypto = Crypto::new();

    let old_data = b"Hello World!!!";
    let new_data = b"Hello Rust!!!!".to_vec();

    let old_hashes = old_data
        .chunks(10)
        .map(|chunk| crypto.hash(&chunk.to_vec()))
        .collect::<Vec<_>>();

    let changes = engine.calculate_incremental_changes(&new_data, &old_hashes);

    // Second block should be different
    assert!(!changes.is_empty());
}

#[test]
fn test_compression() {
    let engine = BackupEngine::new(4096);
    let data = vec![b'A'; 10000]; // Highly compressible

    let compressed = engine.compress(&data).unwrap();
    let decompressed = engine.decompress(&compressed).unwrap();

    assert_eq!(data, decompressed);
    assert!(compressed.len() < data.len());
}

#[test]
fn decompress_rejects_garbage() {
    let engine = BackupEngine::new(4096);
    let r = engine.decompress(&vec![1u8, 2, 3, 4, 5]);
    assert!(matches!(r, Err(CryptoError::DecompressFailure)));
}

#[test]
fn incremental_diff_positions() {
    // Old "Hello World!!!" and new "Hello Rust!!!!" at chunk size 10:
    // blocks "Hello Worl"/"d!!!" against "Hello Rust"/"!!!!" differ at
    // both positions, so the positional diff reports indices 0 and 1.
    let engine = BackupEngine::new(10);
    let crypto = Crypto::new();
    let old_hashes = b"Hello World!!!"
        .chunks(10)
        .map(|chunk| crypto.hash(&chunk.to_vec()))
        .collect::<Vec<_>>();
    let changes = engine.calculate_incremental_changes(&b"Hello Rust!!!!".to_vec(), &old_hashes);
    assert!(changes.contains(&1));
    assert_eq!(changes, vec![0, 1]);
}

#[test]
fn incremental_diff_reports_appended_blocks() {
    let engine = BackupEngine::new(4);
    let crypto = Crypto::new();
    let old = b"aaaabbbb";
    let new = b"aaaabbbbcccc".to_vec();
    let old_hashes = old.chunks(4).map(|c| crypto.hash(&c.to_vec())).collect::<Vec<_>>();
    let changes = engine.calculate_incremental_changes(&new, &old_hashes);
    assert_eq!(changes, vec![2]);
}

#[test]
fn encrypt_block_round_trips() {
    let engine = BackupEngine::new(4096);
    let crypto = Crypto::new();
    let key = crypto.generate_key().unwrap();
    let block = b"one block of data".to_vec();
    let sealed = engine.encrypt_block(&block, &key).unwrap();
    assert_ne!(sealed, block);
    assert_eq!(engine.decrypt_block(&sealed, &key).unwrap(), block);
}

#[test]
fn round_trip_partial_final_block() {
    // 10000 bytes is not a multiple of 4096: the trailing short block must
    // come back unpadded.
    let mut storage = Storage::new(4096, 100, 10).unwrap();
    let path = String::from("ward/records.db");
    let data: Vec<u8> = (0..10000u32).map(|i| (i % 251) as u8).collect();
    let v = storage
        .backup_file(&path, &data, 1_700_000_000, meta(data.len() as u64))
        .unwrap();
    assert_eq!(v, Some(1));
    let restored = storage.restore_file(&path, None).unwrap();
    assert_eq!(restored, data);
    let by_number = storage.restore_file(&path, Some(1)).unwrap();
    assert_eq!(by_number, data);
}

#[test]
fn round_trip_empty_file() {
    let mut storage = Storage::new(4096, 100, 10).unwrap();
    let path = String::from("empty.db");
    let v = storage.backup_file(&path, &Vec::new(), 1, meta(0)).unwrap();
    assert_eq!(v, Some(1));
    assert_eq!(storage.restore_file(&path, None).unwrap(), Vec::<u8>::new());
}

#[test]
fn restore_of_old_version_is_deterministic() {
    let mut storage = Storage::new(8, 100, 10).unwrap();
    let path = String::from("chart.hl7");
    let first = b"first contents".to_vec();
    let second = b"second contents, longer".to_vec();
    storage.backup_file(&path, &first, 1, meta(first.len() as u64)).unwrap();
    storage.backup_file(&path, &second, 2, meta(second.len() as u64)).unwrap();
    assert_eq!(storage.restore_file(&path, Some(1)).unwrap(), first);
    assert_eq!(storage.restore_file(&path, Some(2)).unwrap(), second);
    assert_eq!(storage.restore_file(&path, None).unwrap(), second);
}

#[test]
fn restore_errors() {
    let mut storage = Storage::new(4096, 100, 10).unwrap();
    let path = String::from("present.dcm");
    storage.backup_file(&path, &b"x".to_vec(), 1, meta(1)).unwrap();

    let missing = String::from("absent.dcm");
    assert_eq!(storage.restore_file(&missing, None), Err(RestoreError::NoBackups));
    assert_eq!(storage.restore_file(&path, Some(9)), Err(RestoreError::VersionNotFound));
}

#[test]
fn idempotent_backup_records_one_version() {
    let mut storage = Storage::new(4096, 100, 10).unwrap();
    let path = String::from("scan.dcm");
    let data = b"unchanged contents".to_vec();
    let first = storage.backup_file(&path, &data, 1, meta(data.len() as u64)).unwrap();
    let second = storage.backup_file(&path, &data, 2, meta(data.len() as u64)).unwrap();
    assert_eq!(first, Some(1));
    assert_eq!(second, None);
    let infos = storage.list_backups();
    assert_eq!(infos.len(), 1);
    assert_eq!(infos[0].versions.len(), 1);
    assert_eq!(storage.backup_count(), 1);
}

#[test]
fn version_numbers_count_up_from_one() {
    let mut storage = Storage::new(4096, 100, 10).unwrap();
    let path = String::from("notes.xml");
    for i in 0..3u8 {
        let data = vec![i; 100];
        let v = storage.backup_file(&path, &data, i as u64, meta(100)).unwrap();
        assert_eq!(v, Some((i + 1) as u64));
    }
    let infos = storage.list_backups();
    let numbers: Vec<u64> = infos[0].versions.iter().map(|v| v.version).collect();
    assert_eq!(numbers, vec![1, 2, 3]);
}

#[test]
fn retention_trims_oldest_batch() {
    // Cap 5, batch 2: the sixth distinct backup trims versions 1 and 2.
    let mut storage = Storage::new(4096, 5, 2).unwrap();
    let path = String::from("log.db");
    for i in 0..6u8 {
        let data = vec![i; 10];
        storage.backup_file(&path, &data, i as u64, meta(10)).unwrap();
    }
    let infos = storage.list_backups();
    let numbers: Vec<u64> = infos[0].versions.iter().map(|v| v.version).collect();
    assert_eq!(numbers, vec![3, 4, 5, 6]);
    assert!(infos[0].versions.len() <= 5);
    assert!(infos[0].versions.len() >= 3);
    // The newest version is still the one restored by default.
    assert_eq!(storage.restore_file(&path, None).unwrap(), vec![5u8; 10]);
}

#[test]
fn dedup_shared_block_stored_once() {
    // Two distinct files share one identical 4096-byte block; the store
    // holds one object for it and one for each distinct trailing block.
    let mut storage = Storage::new(4096, 100, 10).unwrap();
    let shared = vec![0x5a_u8; 4096];

    let mut file_a = shared.clone();
    file_a.extend_from_slice(b"tail of file a");
    let mut file_b = shared.clone();
    file_b.extend_from_slice(b"tail of file b");

    let path_a = String::from("a.bin");
    let path_b = String::from("b.bin");
    storage.backup_file(&path_a, &file_a, 1, meta(file_a.len() as u64)).unwrap();
    storage.backup_file(&path_b, &file_b, 2, meta(file_b.len() as u64)).unwrap();

    assert_eq!(storage.object_count(), 3);
    assert_eq!(storage.path_count(), 2);

    // Both histories reference the shared block by the same digest.
    let infos = storage.list_backups();
    let a_first = infos[0].versions[0].block_hashes[0].clone();
    let b_first = infos[1].versions[0].block_hashes[0].clone();
    assert_eq!(a_first, b_first);

    // Both files still restore to their own exact bytes.
    assert_eq!(storage.restore_file(&path_a, None).unwrap(), file_a);
    assert_eq!(storage.restore_file(&path_b, None).unwrap(), file_b);
}

#[test]
fn storing_equal_bytes_twice_produces_one_object() {
    let mut store = medguard::object_store::ObjectStore::new();
    let digest = String::from("ab12");
    store.put_if_absent(digest.clone(), b"payload".to_vec());
    store.put_if_absent(digest.clone(), b"payload".to_vec());
    assert_eq!(store.len(), 1);
    assert_eq!(store.get(&digest).unwrap(), &b"payload".to_vec());
}

#[test]
fn object_path_shards_by_digest_prefix() {
    assert_eq!(medguard::object_store::object_path("abcdef"), "objects/ab/cdef");
    let storage = Storage::new(4096, 100, 10).unwrap();
    assert_eq!(storage.get_block_path("abcdef"), "blocks/ab/abcdef");
    let name = storage.get_storage_path("some/path.db");
    assert_eq!(name.len(), 64 + ".json".len());
    assert!(name.ends_with(".json"));
}
