use highwater::protocol::{protocol_version_supported, Payload, PayloadEncoding, PROTOCOL_VERSION};
use std::collections::BTreeMap;

#[test]
fn only_the_current_protocol_version_is_supported() {
    assert_eq!(PROTOCOL_VERSION, 1);
    assert!(protocol_version_supported(1));
    assert!(!protocol_version_supported(0));
    assert!(!protocol_version_supported(2));
}

#[test]
fn payloads_carry_data_inline_or_by_reference() {
    let mut metadata = BTreeMap::new();
    metadata.insert("content-type".to_owned(), "application/json".to_owned());
    let inline = Payload {
        encoding: PayloadEncoding::Json,
        metadata,
        data_base64: Some("e30".to_owned()),
        object_ref: None,
        sha256: None,
    };
    assert_eq!(inline.encoding, PayloadEncoding::Json);
    assert_eq!(inline.metadata.len(), 1);
    let stored = Payload {
        encoding: PayloadEncoding::ArrowIpcStream,
        metadata: BTreeMap::new(),
        data_base64: None,
        object_ref: Some("objects/1".to_owned()),
        sha256: Some("ab".repeat(32)),
    };
    assert_ne!(stored.encoding, PayloadEncoding::Raw);
    assert!(stored.data_base64.is_none() && stored.object_ref.is_some());
}
