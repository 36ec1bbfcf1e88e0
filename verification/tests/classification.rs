//! The not-found classification rule and the backend-facing decisions.

use gcs_storage::{
    classify_fault, interpret_get, interpret_latest_index, should_write_latest, Classification,
    StoreError, TransportFault,
};

#[test]
fn invalid_name_means_not_found() {
    assert_eq!(
        classify_fault(&TransportFault::InvalidName),
        Classification::NotFound
    );
}

#[test]
fn http_404_means_not_found() {
    assert_eq!(
        classify_fault(&TransportFault::HttpStatus(404)),
        Classification::NotFound
    );
}

#[test]
fn other_http_statuses_are_real_failures() {
    assert_eq!(
        classify_fault(&TransportFault::HttpStatus(403)),
        Classification::OtherFailure
    );
    assert_eq!(
        classify_fault(&TransportFault::HttpStatus(500)),
        Classification::OtherFailure
    );
    assert_eq!(
        classify_fault(&TransportFault::Other),
        Classification::OtherFailure
    );
}

#[test]
fn interpret_get_passes_bytes_through() {
    let r = interpret_get(Ok(b"abc".to_vec()));
    assert_eq!(r, Ok(Some(b"abc".to_vec())));
}

#[test]
fn interpret_get_turns_not_found_into_none() {
    assert_eq!(interpret_get(Err(TransportFault::HttpStatus(404))), Ok(None));
    assert_eq!(interpret_get(Err(TransportFault::InvalidName)), Ok(None));
}

#[test]
fn interpret_get_surfaces_other_faults() {
    assert_eq!(
        interpret_get(Err(TransportFault::HttpStatus(500))),
        Err(StoreError::TransportFailure)
    );
    assert_eq!(
        interpret_get(Err(TransportFault::Other)),
        Err(StoreError::TransportFailure)
    );
}

#[test]
fn interpret_latest_index_decodes_the_stored_number() {
    assert_eq!(interpret_latest_index(Ok(b"7".to_vec())), Ok(Some(7)));
    assert_eq!(interpret_latest_index(Ok(b"4294967295".to_vec())), Ok(Some(u32::MAX)));
}

#[test]
fn interpret_latest_index_fresh_store_is_none() {
    assert_eq!(
        interpret_latest_index(Err(TransportFault::InvalidName)),
        Ok(None)
    );
    assert_eq!(
        interpret_latest_index(Err(TransportFault::HttpStatus(404))),
        Ok(None)
    );
}

#[test]
fn interpret_latest_index_malformed_object_is_decode_failure() {
    assert_eq!(
        interpret_latest_index(Ok(b"garbage".to_vec())),
        Err(StoreError::DecodeFailure)
    );
}

#[test]
fn interpret_latest_index_surfaces_transport_faults() {
    assert_eq!(
        interpret_latest_index(Err(TransportFault::HttpStatus(403))),
        Err(StoreError::TransportFailure)
    );
}

#[test]
fn update_writes_only_strictly_greater_indices() {
    assert!(should_write_latest(None, 1));
    assert!(!should_write_latest(None, 0));
    assert!(should_write_latest(Some(5), 6));
    assert!(!should_write_latest(Some(5), 5));
    assert!(!should_write_latest(Some(5), 3));
}
