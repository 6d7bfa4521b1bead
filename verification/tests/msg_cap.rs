use irc_core::capability::Capability;
use irc_core::msg_cap::{CapNick, MsgCap, SubCommand};

fn parse(input: &str) -> MsgCap {
    match MsgCap::parse(input) {
        Err(err) => panic!("{err:?}"),
        Ok(msg) => msg,
    }
}

#[test]
fn test_star() {
    let input = "CAP * LS :";
    let msg = parse(input);

    assert_eq!(msg.nick, CapNick::Star);
    assert_eq!(msg.sub_command, SubCommand::LS(false, vec![]));
}

#[test]
fn test_nick() {
    let input = "CAP customclient LS :";
    let msg = parse(input);

    assert_eq!(msg.nick, CapNick::nick("customclient"));
    assert_eq!(msg.sub_command, SubCommand::LS(false, vec![]));
}

#[test]
fn test_ls() {
    let input = "CAP * LS * :one two=three,four -five";
    let msg = parse(input);

    assert_eq!(msg.nick, CapNick::Star);
    assert_eq!(
        msg.sub_command,
        SubCommand::LS(
            true,
            vec![
                Capability::new("one"),
                Capability::values("two", vec!["three", "four"]),
                Capability::disabled("five"),
            ]
        )
    );
}
