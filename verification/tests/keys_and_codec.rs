//! The key naming scheme and the decimal rendering of indices.

use gcs_storage::codec::u32_to_decimal;
use gcs_storage::keys::{checkpoint_key, str_contains_slash};
use gcs_storage::{StoreError, StoreIdentity};

#[test]
fn decimal_rendering_is_exact() {
    assert_eq!(u32_to_decimal(0), "0");
    assert_eq!(u32_to_decimal(7), "7");
    assert_eq!(u32_to_decimal(10), "10");
    assert_eq!(u32_to_decimal(305), "305");
    assert_eq!(u32_to_decimal(u32::MAX), "4294967295");
}

#[test]
fn checkpoint_keys_follow_the_wire_format() {
    assert_eq!(checkpoint_key(0), "checkpoint_0_with_id.json");
    assert_eq!(checkpoint_key(5), "checkpoint_5_with_id.json");
    assert_eq!(checkpoint_key(u32::MAX), "checkpoint_4294967295_with_id.json");
}

#[test]
fn slash_detection() {
    assert!(str_contains_slash("a/b"));
    assert!(str_contains_slash("/"));
    assert!(!str_contains_slash(""));
    assert!(!str_contains_slash("plain-bucket-name"));
}

#[test]
fn identity_validates_bucket_names() {
    assert!(StoreIdentity::new("bucket".to_string(), None).is_ok());
    let r = StoreIdentity::new("bu/cket".to_string(), Some("f".to_string()));
    assert!(matches!(r, Err(StoreError::InvalidBucketName)));
}

#[test]
fn object_path_applies_the_folder_rule() {
    let with_folder = StoreIdentity::new("b".to_string(), Some("agent1".to_string())).unwrap();
    assert_eq!(with_folder.object_path("x.json"), "agent1/x.json");
    let trailing = StoreIdentity::new("b".to_string(), Some("agent1//".to_string())).unwrap();
    assert_eq!(trailing.object_path("x.json"), "agent1/x.json");
    let bare = StoreIdentity::new("b".to_string(), None).unwrap();
    assert_eq!(bare.object_path("x.json"), "x.json");
}

#[test]
fn location_embeds_bucket_and_prefixed_key() {
    let id = StoreIdentity::new("my-bucket".to_string(), Some("team/agent".to_string())).unwrap();
    assert_eq!(
        id.announcement_location(),
        "gs://my-bucket/team/agent/announcement.json"
    );
}
