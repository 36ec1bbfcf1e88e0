//! End-to-end behaviour of the in-memory store: the syncer operations,
//! the monotonic latest index, and the single-slot writes.

use gcs_storage::{Checkpoint, MemStorageClient, StoreError};

fn fresh_store(folder: Option<&str>) -> MemStorageClient {
    MemStorageClient::new("test-bucket".to_string(), folder.map(|f| f.to_string()))
        .expect("valid bucket name")
}

#[test]
fn checkpoint_round_trip() {
    let mut s = fresh_store(Some("agent1"));
    let payload = b"{\"value\":{\"index\":5},\"signature\":\"sig\"}".to_vec();
    let cp = Checkpoint {
        index: 5,
        payload: payload.clone(),
    };
    s.write_checkpoint(&cp).unwrap();
    let fetched = s.fetch_checkpoint(5).unwrap().expect("checkpoint 5 present");
    assert_eq!(fetched.index, 5);
    assert_eq!(fetched.payload, payload);
}

#[test]
fn fetch_absent_checkpoint_is_none_not_error() {
    let mut s = fresh_store(Some("agent1"));
    let cp = Checkpoint {
        index: 5,
        payload: b"payload".to_vec(),
    };
    s.write_checkpoint(&cp).unwrap();
    assert!(s.fetch_checkpoint(6).unwrap().is_none());
}

#[test]
fn fresh_store_reads_are_absent_not_errors() {
    let s = fresh_store(None);
    assert_eq!(s.latest_index().unwrap(), None);
    assert!(s.fetch_checkpoint(0).unwrap().is_none());
    assert!(s.fetch_checkpoint(17).unwrap().is_none());
    assert!(s.reorg_status().unwrap().is_none());
}

#[test]
fn update_latest_index_is_monotonic() {
    let mut s = fresh_store(Some("agent1"));
    s.update_latest_index(5).unwrap();
    assert_eq!(s.latest_index().unwrap(), Some(5));
    s.update_latest_index(3).unwrap();
    assert_eq!(s.latest_index().unwrap(), Some(5));
    s.update_latest_index(6).unwrap();
    assert_eq!(s.latest_index().unwrap(), Some(6));
}

#[test]
fn serial_updates_store_the_maximum() {
    let mut s = fresh_store(None);
    for i in [3u32, 7, 5, 7, 2, 0] {
        s.update_latest_index(i).unwrap();
    }
    assert_eq!(s.latest_index().unwrap(), Some(7));
}

#[test]
fn update_to_zero_on_fresh_store_writes_nothing() {
    let mut s = fresh_store(None);
    s.update_latest_index(0).unwrap();
    assert_eq!(s.latest_index().unwrap(), None);
}

#[test]
fn write_latest_index_stores_plain_decimal_json() {
    let mut s = fresh_store(None);
    s.write_latest_index(42).unwrap();
    let raw = s
        .get_object(&"gcsLatestIndexKey".to_string())
        .expect("latest index object present");
    assert_eq!(raw, &b"42".to_vec());
    assert_eq!(s.latest_index().unwrap(), Some(42));
}

#[test]
fn latest_index_decodes_externally_written_bytes() {
    let mut s = fresh_store(None);
    s.put_object("gcsLatestIndexKey".to_string(), b"123".to_vec());
    assert_eq!(s.latest_index().unwrap(), Some(123));
}

#[test]
fn malformed_latest_index_is_a_decode_failure() {
    let mut s = fresh_store(None);
    s.put_object("gcsLatestIndexKey".to_string(), b"not a number".to_vec());
    assert_eq!(s.latest_index(), Err(StoreError::DecodeFailure));
    assert_eq!(s.update_latest_index(9), Err(StoreError::DecodeFailure));
}

#[test]
fn single_slot_overwrite_is_idempotent() {
    let mut once = fresh_store(Some("agent1"));
    let mut twice = fresh_store(Some("agent1"));
    let meta = b"{\n  \"git_sha\": \"abc\"\n}".to_vec();
    once.write_metadata(meta.clone()).unwrap();
    twice.write_metadata(meta.clone()).unwrap();
    twice.write_metadata(meta.clone()).unwrap();
    let key = "agent1/gcsMetadataKey".to_string();
    assert_eq!(once.get_object(&key), twice.get_object(&key));

    let reorg = b"{\n  \"from\": 9\n}".to_vec();
    once.write_reorg_status(reorg.clone()).unwrap();
    once.write_reorg_status(reorg.clone()).unwrap();
    assert_eq!(once.reorg_status().unwrap(), Some(reorg));
}

#[test]
fn metadata_and_announcement_are_folder_prefixed() {
    let mut s = fresh_store(Some("agent1"));
    s.write_metadata(b"meta".to_vec()).unwrap();
    s.write_announcement(b"ann".to_vec()).unwrap();
    assert_eq!(
        s.get_object(&"agent1/gcsMetadataKey".to_string()),
        Some(&b"meta".to_vec())
    );
    assert_eq!(
        s.get_object(&"agent1/announcement.json".to_string()),
        Some(&b"ann".to_vec())
    );
    assert_eq!(s.get_object(&"gcsMetadataKey".to_string()), None);
}

#[test]
fn writes_in_one_folder_never_touch_another() {
    let mut s = fresh_store(Some("agent1"));
    s.write_metadata(b"meta1".to_vec()).unwrap();
    s.write_announcement(b"ann1".to_vec()).unwrap();
    assert_eq!(s.get_object(&"agent2/gcsMetadataKey".to_string()), None);
    assert_eq!(s.get_object(&"agent2/announcement.json".to_string()), None);
    assert_eq!(
        s.get_object(&"agent1/gcsMetadataKey".to_string()),
        Some(&b"meta1".to_vec())
    );
}

#[test]
fn folder_writes_never_shadow_fixed_keys() {
    let mut s = fresh_store(Some("gcsLatestIndexKey"));
    s.write_metadata(b"meta".to_vec()).unwrap();
    assert_eq!(s.latest_index().unwrap(), None);
    s.write_latest_index(4).unwrap();
    assert_eq!(
        s.get_object(&"gcsLatestIndexKey/gcsMetadataKey".to_string()),
        Some(&b"meta".to_vec())
    );
    assert_eq!(s.latest_index().unwrap(), Some(4));
}

#[test]
fn announcement_location_is_deterministic_and_exact() {
    let mut s = fresh_store(Some("agent1"));
    let before = s.announcement_location();
    s.write_announcement(b"ann".to_vec()).unwrap();
    let after = s.announcement_location();
    assert_eq!(before, "gs://test-bucket/agent1/announcement.json");
    assert_eq!(before, after);
}

#[test]
fn announcement_location_without_folder() {
    let s = fresh_store(None);
    assert_eq!(s.announcement_location(), "gs://test-bucket/announcement.json");
}

#[test]
fn trailing_slashes_in_folder_are_stripped() {
    let s = MemStorageClient::new("test-bucket".to_string(), Some("agent1///".to_string()))
        .unwrap();
    assert_eq!(s.announcement_location(), "gs://test-bucket/agent1/announcement.json");
}

#[test]
fn bucket_name_with_slash_is_rejected_before_any_use() {
    let r = MemStorageClient::new("bad/bucket".to_string(), None);
    assert_eq!(r.err(), Some(StoreError::InvalidBucketName));
}

#[test]
fn reorg_status_reads_back_what_was_written() {
    let mut s = fresh_store(None);
    assert!(s.reorg_status().unwrap().is_none());
    let event = b"{\n  \"canonical_block\": 100\n}".to_vec();
    s.write_reorg_status(event.clone()).unwrap();
    assert_eq!(s.reorg_status().unwrap(), Some(event));
}

#[test]
fn checkpoint_overwrite_replaces_only_its_index() {
    let mut s = fresh_store(None);
    s.write_checkpoint(&Checkpoint {
        index: 1,
        payload: b"one".to_vec(),
    })
    .unwrap();
    s.write_checkpoint(&Checkpoint {
        index: 2,
        payload: b"two".to_vec(),
    })
    .unwrap();
    s.write_checkpoint(&Checkpoint {
        index: 1,
        payload: b"one-bis".to_vec(),
    })
    .unwrap();
    assert_eq!(s.fetch_checkpoint(1).unwrap().unwrap().payload, b"one-bis".to_vec());
    assert_eq!(s.fetch_checkpoint(2).unwrap().unwrap().payload, b"two".to_vec());
}
