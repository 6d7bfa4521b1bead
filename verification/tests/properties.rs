use irc_core::capability::Capability;
use irc_core::cap_negotiator::{CapNegotiator, Error};
use irc_core::client::Client;
use irc_core::generic_message::Command;
use irc_core::message::Message;
use irc_core::msg_cap::MsgCap;

/// Numeric commands are valid exactly in 1..=999; a named command must be
/// non-empty.
#[test]
fn command_validity() {
    assert!(Command::Digit3(1).valid());
    assert!(Command::Digit3(999).valid());
    assert!(!Command::Digit3(0).valid());
    assert!(!Command::Digit3(1000).valid());
    assert!(!Command::Cmd(String::new()).valid());
    assert!(Command::Cmd("PING".to_string()).valid());
}

/// Serialization emits tags sorted by key, whatever order they arrived in.
#[test]
fn tags_serialize_sorted() {
    let msg = Message::parse("@rose;id=123AB TEST").unwrap();
    assert_eq!(msg.text(), "@id=123AB;rose TEST");

    let built = Message::cmd("TEST")
        .tag("rose", None)
        .tag("id", Some("123AB"))
        .build();
    assert_eq!(built.text(), "@id=123AB;rose TEST");
}

/// A later tag with the same key replaces the earlier one.
#[test]
fn tags_duplicate_key_keeps_last() {
    let msg = Message::parse("@a=1;a=2 TEST").unwrap();
    assert_eq!(msg.text(), "@a=2 TEST");
}

/// Tag values are unescaped when parsed, and a round trip through the
/// serializer keeps already-plain values.
#[test]
fn tag_value_unescaping() {
    let msg = Message::parse("@k=a\\sb\\:c TEST").unwrap();
    assert_eq!(msg.tags.len(), 1);
    assert_eq!(msg.tags[0].key, "k");
    assert_eq!(msg.tags[0].value, Some("a b;c".to_string()));
}

/// Round trip: serialize, parse, serialize again reproduces the wire text.
#[test]
fn round_trip_builder_message() {
    let m = Message::cmd("PRIVMSG")
        .param("#channel")
        .param("hello there")
        .tag("id", Some("77"))
        .host("irc.example.com")
        .build();
    let text = m.text();
    assert_eq!(text, "@id=77 :irc.example.com PRIVMSG #channel :hello there");
    let reparsed = Message::parse(&text).unwrap();
    assert_eq!(reparsed.text(), text);
    assert_eq!(reparsed, m);
}

/// A capability list line round-trips through parse and serialize.
#[test]
fn round_trip_cap_message() {
    let text = "CAP * LS * :multi-prefix sasl=PLAIN,EXTERNAL -away";
    let msg = Message::parse(text).unwrap();
    assert_eq!(msg.text(), text);
}

/// Malformed lines are rejected with a structured error, not a panic.
#[test]
fn parse_errors() {
    assert!(Message::parse("").is_err());
    assert!(Message::parse(" leading").is_err());
    assert!(Message::parse("12").is_err());
    assert!(Message::parse("TEST  doublespace").is_err());
    assert!(Message::parse("@ TEST").is_err());
    assert!(Message::parse(":name").is_err());
    assert!(Message::parse("TEST trailing\nnewline").is_err());
}

/// A subcommand the negotiator does not drive is reported by name and leaves
/// the state untouched.
#[test]
fn unexpected_subcommand() {
    let mut negotiator = CapNegotiator::request(vec![Capability::new("sasl")]);
    let before = negotiator.clone();
    let res = negotiator.handle(MsgCap::builder().star().req().single("sasl").build());
    match res {
        Err(Error::UnexpectedSubcommand(name)) => assert_eq!(name, "REQ"),
        other => panic!("{other:?}"),
    }
    assert_eq!(negotiator, before);

    let res = negotiator.handle(
        MsgCap::parse("CAP * LIST :sasl").unwrap(),
    );
    match res {
        Err(Error::UnexpectedSubcommand(name)) => assert_eq!(name, "LIST"),
        other => panic!("{other:?}"),
    }
    assert_eq!(negotiator, before);
}

/// An acknowledged capability keeps the shape it was requested with, not the
/// shape the server echoed.
#[test]
fn ack_keeps_requested_shape() {
    let requested = Capability::values("sasl", vec!["PLAIN"]);
    let mut negotiator = CapNegotiator::request(vec![requested.clone()]);
    let msgs = negotiator
        .handle(MsgCap::builder().star().ack().single("sasl").build())
        .unwrap();
    assert!(msgs.is_empty());
    assert_eq!(negotiator.requested, vec![]);
    assert_eq!(negotiator.acknowledged, vec![requested]);
}

/// After any sequence of handled messages, no capability name sits in more
/// than one of the three sets.
#[test]
fn sets_stay_disjoint() {
    let mut negotiator = CapNegotiator::request(vec![
        Capability::new("a"),
        Capability::new("b"),
        Capability::new("c"),
    ]);
    let steps = vec![
        MsgCap::builder().star().ls(false).single("a").single("b").build(),
        MsgCap::builder().star().ack().single("b").build(),
        MsgCap::builder().star().nak().single("a").build(),
        MsgCap::builder().star().ack().single("b").build(),
        MsgCap::builder().star().nak().single("b").build(),
        MsgCap::builder().star().ack().single("z").build(),
    ];
    for step in steps {
        let _ = negotiator.handle(step);
        let mut names: Vec<String> = Vec::new();
        for cap in negotiator
            .requested
            .iter()
            .chain(negotiator.acknowledged.iter())
            .chain(negotiator.not_acknowledged.iter())
        {
            let name = cap.name().clone();
            assert!(!names.contains(&name), "{name} appears twice");
            names.push(name);
        }
    }
}

/// The client opens the handshake with `CAP LS 302`.
#[test]
fn client_requests_capabilities() {
    let mut client = Client::new();
    let msg = client.request_capabilities();
    assert_eq!(msg.text(), "CAP LS 302");
    assert!(client.handle(&msg).is_ok());
}

/// A line that fits the capability sub-grammar parses as a capability
/// message; a `CAP` line that does not falls back to a generic command.
#[test]
fn cap_lines_versus_generic_lines() {
    let msg = Message::parse("CAP * LS :sasl").unwrap();
    match msg.msg_type {
        irc_core::message::MessageType::Capability(mc) => {
            assert_eq!(mc.nick, irc_core::msg_cap::CapNick::Star);
        }
        other => panic!("{other:?}"),
    }

    let msg = Message::parse("CAP LS 302").unwrap();
    match msg.msg_type {
        irc_core::message::MessageType::Generic(g) => {
            assert_eq!(g.command, Command::Cmd("CAP".to_string()));
            assert_eq!(g.parameters, vec!["LS".to_string(), "302".to_string()]);
        }
        other => panic!("{other:?}"),
    }
}

/// `ACK` and `NAK` lines parse into the structured capability model.
#[test]
fn ack_and_nak_lines_parse() {
    let msg = MsgCap::parse("CAP * ACK :sasl").unwrap();
    assert_eq!(
        msg.sub_command,
        irc_core::msg_cap::SubCommand::ACK(vec![Capability::new("sasl")])
    );

    let msg = MsgCap::parse("CAP nick NAK :multi-prefix sasl").unwrap();
    assert_eq!(msg.nick, irc_core::msg_cap::CapNick::nick("nick"));
    assert_eq!(
        msg.sub_command,
        irc_core::msg_cap::SubCommand::NAK(vec![
            Capability::new("multi-prefix"),
            Capability::new("sasl"),
        ])
    );
}

/// The remaining subcommands parse and serialize symmetrically.
#[test]
fn other_subcommand_lines() {
    let msg = MsgCap::parse("CAP * NEW :echo-message").unwrap();
    assert_eq!(msg.sub_command.text(), "NEW :echo-message");

    let msg = MsgCap::parse("CAP * DEL :sasl").unwrap();
    assert_eq!(msg.sub_command.text(), "DEL :sasl");

    let msg = MsgCap::parse("CAP * LIST * :sasl away").unwrap();
    assert_eq!(msg.sub_command.text(), "LIST * :sasl away");
}

/// Lines that are not capability messages, or hold a malformed capability
/// list, are rejected by the capability parser.
#[test]
fn cap_parse_errors() {
    assert!(MsgCap::parse("PING").is_err());
    assert!(MsgCap::parse("CAP * NOPE :x").is_err());
    assert!(MsgCap::parse("CAP * LS : ").is_err());
    assert!(MsgCap::parse("CAP * LS :a,,b").is_err());
}

/// The capability shapes serialize to their canonical texts.
#[test]
fn capability_texts() {
    assert_eq!(Capability::new("sasl").text(), "sasl");
    assert_eq!(Capability::values("sasl", vec!["PLAIN", "EXTERNAL"]).text(), "sasl=PLAIN,EXTERNAL");
    assert_eq!(Capability::disabled("away").text(), "-away");
}
