use tellme::error::Error;

#[test]
fn exit_codes() {
    assert_eq!(Error::NotImplemented { command: "x", phase: "y" }.exit_code(), 2);
    assert_eq!(Error::Other("z".to_string()).exit_code(), 1);
    assert_eq!(Error::Config("z".to_string()).exit_code(), 1);
}
