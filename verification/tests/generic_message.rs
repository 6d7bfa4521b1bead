use irc_core::generic_message::{Command, GenericMessage};

#[test]
fn test_generic_message() {
    let input = "TEST a b c :x y z";

    let msg = GenericMessage::parse(input).unwrap();
    assert_eq!(
        msg,
        GenericMessage {
            command: Command::Cmd("TEST".to_string()),
            parameters: vec!["a", "b", "c", "x y z"]
                .iter()
                .map(|s| s.to_string())
                .collect(),
        }
    );
}
