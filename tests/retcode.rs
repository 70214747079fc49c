use salt_compressor::Retcode;

#[test]
fn from_success() {
    assert_eq!(Retcode::Success, 0.into())
}

#[test]
fn from_failure() {
    for i in 1..10 {
        assert_eq!(Retcode::Failure, i.into())
    }
}
