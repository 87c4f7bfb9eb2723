use network::shared::{SimCommand, INVALID_FRAMEID};

#[test]
fn it_works() {
    assert_eq!(2 + 2, 4);
}

#[test]
fn default_command_is_all_zero() {
    assert_eq!(SimCommand::default(), SimCommand { buttons: 0 });
    assert_eq!(INVALID_FRAMEID, 0);
}
