use httplib::{has_sequence, validate_size_constraint, Error};

#[test]
fn checks_vector_has_sequence() {
    assert!(has_sequence(&[0x0D, 0x0A, 0x0D, 0x0A], &[0x0D, 0x0A, 0x0D, 0x0A]));
    assert!(has_sequence(&[1, 4, 6, 10, 21, 5, 150], &[10, 21, 5]));
    assert!(!has_sequence(&[1, 4, 6, 10, 21, 5, 150], &[10, 5]));
}

#[test]
fn finds_sequence_at_both_ends() {
    assert!(has_sequence(&[1, 2, 3], &[1]));
    assert!(has_sequence(&[1, 2, 3], &[3]));
    assert!(has_sequence(&[1, 2, 3], &[1, 2, 3]));
    assert!(!has_sequence(&[1, 2, 3], &[1, 2, 3, 4]));
}

#[test]
fn finds_sequence_behind_a_false_start() {
    assert!(has_sequence(&[1, 1, 2], &[1, 2]));
    assert!(has_sequence(&[13, 13, 10, 13, 10], &[13, 10, 13, 10]));
}

#[test]
fn never_finds_an_empty_needle() {
    assert!(!has_sequence(&[], &[]));
    assert!(!has_sequence(&[1, 2, 3], &[]));
    assert!(!has_sequence(&[], &[1]));
}

#[test]
fn validates_size_constraint() {
    assert_eq!(validate_size_constraint(10, None), Ok(()));
    assert_eq!(validate_size_constraint(10, Some(10)), Ok(()));
    assert_eq!(validate_size_constraint(10, Some(11)), Ok(()));
    assert_eq!(validate_size_constraint(10, Some(9)), Err(Error::SizeLimitExceeded(9)));
    assert_eq!(validate_size_constraint(0, Some(0)), Ok(()));
    assert_eq!(validate_size_constraint(1, Some(0)), Err(Error::SizeLimitExceeded(0)));
}

#[test]
fn errors_compare_by_kind_and_payload() {
    assert_eq!(Error::MissingHeader(String::from("Host")), Error::MissingHeader(String::from("Host")));
    assert_ne!(Error::MissingHeader(String::from("Host")), Error::InvalidHeader(String::from("Host")));
    assert_ne!(Error::MissingHeader(String::from("Host")), Error::MissingHeader(String::from("host")));
    assert_ne!(Error::SizeLimitExceeded(1), Error::SizeLimitExceeded(2));
    assert_ne!(Error::StreamNotReadable, Error::StreamNotWritable);
    assert_eq!(Error::InvalidData.clone(), Error::InvalidData);
}
