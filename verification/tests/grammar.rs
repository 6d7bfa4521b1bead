use irc_core::generic_message::{Command, GenericMessage};
use irc_core::text::{nocrlf_char, nospcrlf_char};

#[test]
fn test_nocrlf() {
    // should allow spaces...
    let input = String::from("asd asd\n");
    for char in input.chars() {
        let s = String::from(char);
        if s == "\n" {
            assert!(!nocrlf_char(char));
        } else {
            assert!(nocrlf_char(char));
        }
    }
}

#[test]
fn test_nospcrlf() {
    // should skip spaces...
    let input = String::from("asd asd\n");
    for char in input.chars() {
        let s = String::from(char);
        println!("{s}");
        if s == " " || s == "\n" {
            assert!(!nospcrlf_char(char));
        } else {
            assert!(nospcrlf_char(char));
        }
    }
}

#[test]
fn test_middle() {
    let (middle, end) = irc_core::parser::parse_middle("asd", 0).unwrap();
    assert_eq!(middle, "asd");
    assert_eq!(end, 3);
}

#[test]
fn test_trailing() {
    let input = ":asd xyz";
    let (trailing, end) = irc_core::parser::parse_trailing(input, 0).unwrap();
    assert_eq!(end, input.len());
    assert_eq!(trailing, "asd xyz");
}

#[test]
fn test_tags() {
    let input = "@id=123AB;rose";
    let (tags, end) = irc_core::parser::parse_tag_list(input, 1).unwrap();
    assert_eq!(end, input.len());
    assert_eq!(tags.len(), 2);

    // first tag "id=123AB"
    assert_eq!(tags[0].key, "id");
    assert_eq!(tags[0].value, Some("123AB".to_string()));

    // second tag "rose" with no value
    assert_eq!(tags[1].key, "rose");
    assert_eq!(tags[1].value, None);
}

#[test]
fn test_simple_command() {
    let msg = GenericMessage::parse("PING").unwrap();
    assert_eq!(msg.command, Command::Cmd("PING".to_string()));
    assert_eq!(msg.parameters.len(), 0);
}

#[test]
fn test_3digit_command() {
    let msg = GenericMessage::parse("001").unwrap();
    assert_eq!(msg.command, Command::Digit3(1));
    assert_eq!(msg.command.text(), "001");
    assert_eq!(msg.parameters.len(), 0);
}

#[test]
fn test_invalid_single_digit_command() {
    let res = GenericMessage::parse("1");
    assert!(res.is_err());
}

#[test]
fn test_msg_cap_single() {
    let msg = irc_core::msg_cap::MsgCap::parse("CAP * LS :sasl").unwrap();
    assert_eq!(msg.nick, irc_core::msg_cap::CapNick::Star);
    assert_eq!(
        msg.sub_command,
        irc_core::msg_cap::SubCommand::LS(false, vec![irc_core::capability::Capability::new("sasl")])
    );
    assert_eq!(msg.sub_command.text(), "LS :sasl");
}

#[test]
fn test_msg_cap_multi_key_value_pair() {
    let input = "CAP * LS :multi-prefix sasl=PLAIN,EXTERNAL";
    let msg = irc_core::msg_cap::MsgCap::parse(input).unwrap();
    assert_eq!(msg.nick, irc_core::msg_cap::CapNick::Star);
    assert_eq!(msg.sub_command.text(), "LS :multi-prefix sasl=PLAIN,EXTERNAL");
    let caps = match &msg.sub_command {
        irc_core::msg_cap::SubCommand::LS(multi, caps) => {
            assert!(!multi);
            caps
        }
        other => panic!("{other:?}"),
    };
    assert_eq!(caps.len(), 2);
    assert_eq!(caps[0], irc_core::capability::Capability::new("multi-prefix"));
    assert_eq!(
        caps[1],
        irc_core::capability::Capability::Values(
            "sasl".to_string(),
            vec!["PLAIN".to_string(), "EXTERNAL".to_string()]
        )
    );
}
