use raft_progress::errors::Error;
use raft_progress::read_only::ReadOnlyOption;

#[test]
fn io_failures_convert_into_the_io_variant() {
    let io = std::io::Error::new(std::io::ErrorKind::UnexpectedEof, "boom");
    let e = Error::from(io);
    assert!(matches!(e, Error::Io(_)));
}

#[test]
fn read_consistency_defaults_to_quorum_confirmed() {
    assert_eq!(ReadOnlyOption::default(), ReadOnlyOption::Safe);
    assert_ne!(ReadOnlyOption::Safe, ReadOnlyOption::LeaseBased);
}
