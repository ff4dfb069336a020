use iggy_core::error::Error;
use iggy_core::registry::SystemRegistry;

#[test]
fn stream_ids_and_names_are_unique() {
    let mut r = SystemRegistry::new();
    assert!(r.create_stream(1, b"orders".to_vec()).is_ok());
    assert!(matches!(
        r.create_stream(1, b"other".to_vec()),
        Err(Error::AlreadyExists)
    ));
    assert!(matches!(
        r.create_stream(2, b"orders".to_vec()),
        Err(Error::AlreadyExists)
    ));
    assert!(r.create_stream(2, b"payments".to_vec()).is_ok());
    assert_eq!(r.streams.len(), 2);
}

#[test]
fn delete_stream_reports_absence() {
    let mut r = SystemRegistry::new();
    assert!(matches!(r.delete_stream(9), Err(Error::NotFound)));
    r.create_stream(9, b"s".to_vec()).unwrap();
    assert!(r.delete_stream(9).is_ok());
    assert!(matches!(r.delete_stream(9), Err(Error::NotFound)));
    assert!(r.find_stream(9).is_none());
}

#[test]
fn topics_are_unique_within_their_stream() {
    let mut r = SystemRegistry::new();
    r.create_stream(1, b"s1".to_vec()).unwrap();
    r.create_stream(2, b"s2".to_vec()).unwrap();
    assert!(r.create_topic(1, 10, b"t".to_vec()).is_ok());
    assert!(matches!(
        r.create_topic(1, 10, b"u".to_vec()),
        Err(Error::AlreadyExists)
    ));
    assert!(matches!(
        r.create_topic(1, 11, b"t".to_vec()),
        Err(Error::AlreadyExists)
    ));
    // the same topic id and name are free in another stream
    assert!(r.create_topic(2, 10, b"t".to_vec()).is_ok());
    // a topic under a missing stream
    assert!(matches!(
        r.create_topic(3, 1, b"t".to_vec()),
        Err(Error::NotFound)
    ));
}
