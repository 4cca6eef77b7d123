use set_deque::errors::prefixed;
use set_deque::errors::HashQueueError;

#[test]
fn describe_a_store_error() {
    let error = HashQueueError::SledError { message: "disk full".to_string() };
    assert_eq!(error.describe(), "Failed to acquire lock: disk full");
}

#[test]
fn describe_a_desynchronisation() {
    let error = HashQueueError::out_of_sync("pop_back");
    assert_eq!(
        error.describe(),
        "Sled and the HashSet fell out of sync, the data structure is no longer valid: pop_back"
    );
}

#[test]
fn describe_a_codec_error() {
    let error = HashQueueError::from_codec(Box::new(bincode::ErrorKind::SizeLimit));
    assert_eq!(
        error.describe(),
        format!("Failed to deserialize data: {}", bincode::ErrorKind::SizeLimit)
    );
    assert_eq!(error.describe(), "Failed to deserialize data: the size limit has been reached");
}

#[test]
fn from_store_keeps_the_message_of_the_store() {
    let cause = sled::Error::Unsupported("no such thing".to_string());
    let text = cause.to_string();
    match HashQueueError::from_store(&cause) {
        HashQueueError::SledError { message } => assert_eq!(message, text),
        _ => panic!("a store failure must be reported as a store error"),
    }
}

#[test]
fn from_codec_keeps_the_error_of_the_codec() {
    let error = HashQueueError::from_codec(Box::new(bincode::ErrorKind::InvalidBoolEncoding(7)));
    assert!(matches!(
        error,
        HashQueueError::BinCodeError { error: bincode::ErrorKind::InvalidBoolEncoding(7) }
    ));
}

#[test]
fn with_store_message_keeps_the_message() {
    match HashQueueError::with_store_message("disk full".to_string()) {
        HashQueueError::SledError { message } => assert_eq!(message, "disk full"),
        _ => panic!("a store failure must be a store error"),
    }
}

#[test]
fn prefixed_joins_prefix_and_detail() {
    assert_eq!(prefixed("Failed to acquire lock: ", "busy"), "Failed to acquire lock: busy");
    assert_eq!(prefixed("", "busy"), "busy");
    assert_eq!(prefixed("only: ", ""), "only: ");
}
