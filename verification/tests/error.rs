use objstore::error::ObjectError;

#[test]
fn each_failure_has_its_message() {
    assert_eq!(ObjectError::InvalidObjectId.message(), "fatal: not a valid object name");
    assert_eq!(ObjectError::ObjectNotFound.message(), "fatal: object not found");
    assert_eq!(ObjectError::MalformedEnvelope.message(), "fatal: malformed object");
    assert_eq!(ObjectError::NotATree.message(), "fatal: not a tree object");
    assert_eq!(ObjectError::TruncatedTree.message(), "fatal: truncated tree object");
    assert_eq!(ObjectError::CompressionFailed.message(), "fatal: unable to compress object");
}

#[test]
fn failures_compare_by_variant() {
    assert_eq!(ObjectError::NotATree, ObjectError::NotATree);
    assert_ne!(ObjectError::NotATree, ObjectError::TruncatedTree);
}
