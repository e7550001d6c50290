use irc::{Message, ParseError, Tag};

#[test]
fn new() {
    let message = Message {
        tags: None,
        prefix: None,
        command: format!("PRIVMSG"),
        args: vec![format!("test")],
        suffix: Some(format!("Testing!")),
    };
    assert_eq!(Message::new(None, "PRIVMSG", Some(vec!["test"]), Some("Testing!")), message);
}

#[test]
fn get_source_nickname() {
    assert_eq!(Message::new(None, "PING", None, None).get_source_nickname(), None);
    assert_eq!(Message::new(Some("irc.test.net"), "PING", None, None).get_source_nickname(), None);
    assert_eq!(
        Message::new(Some("test!test@test"), "PING", None, None).get_source_nickname(),
        Some("test")
    );
    assert_eq!(Message::new(Some("test@test"), "PING", None, None).get_source_nickname(), Some("test"));
    assert_eq!(Message::new(Some("test"), "PING", None, None).get_source_nickname(), Some("test"));
}

#[test]
fn into_string() {
    let message = Message {
        tags: None,
        prefix: None,
        command: format!("PRIVMSG"),
        args: vec![format!("test")],
        suffix: Some(format!("Testing!")),
    };
    assert_eq!(&message.into_string()[..], "PRIVMSG test :Testing!\r\n");
    let message = Message {
        tags: None,
        prefix: Some(format!("test!test@test")),
        command: format!("PRIVMSG"),
        args: vec![format!("test")],
        suffix: Some(format!("Still testing!")),
    };
    assert_eq!(&message.into_string()[..], ":test!test@test PRIVMSG test :Still testing!\r\n");
}

#[test]
fn from_string() {
    let message = Message {
        tags: None,
        prefix: None,
        command: format!("PRIVMSG"),
        args: vec![format!("test")],
        suffix: Some(format!("Testing!")),
    };
    assert_eq!("PRIVMSG test :Testing!\r\n".parse(), Ok(message));
    let message = Message {
        tags: None,
        prefix: Some(format!("test!test@test")),
        command: format!("PRIVMSG"),
        args: vec![format!("test")],
        suffix: Some(format!("Still testing!")),
    };
    assert_eq!(":test!test@test PRIVMSG test :Still testing!\r\n".parse(), Ok(message));
    let message = Message {
        tags: Some(vec![
            Tag(format!("aaa"), Some(format!("bbb"))),
            Tag(format!("ccc"), None),
            Tag(format!("example.com/ddd"), Some(format!("eee"))),
        ]),
        prefix: Some(format!("test!test@test")),
        command: format!("PRIVMSG"),
        args: vec![format!("test")],
        suffix: Some(format!("Testing with tags!")),
    };
    assert_eq!(
        "@aaa=bbb;ccc;example.com/ddd=eee :test!test@test PRIVMSG test :Testing with \
         tags!\r\n"
            .parse(),
        Ok(message)
    )
}

#[test]
fn to_message() {
    let message = Message {
        tags: None,
        prefix: None,
        command: format!("PRIVMSG"),
        args: vec![format!("test")],
        suffix: Some(format!("Testing!")),
    };
    let msg: Message = Message::parse("PRIVMSG test :Testing!\r\n").unwrap();
    assert_eq!(msg, message);
    let message = Message {
        tags: None,
        prefix: Some(format!("test!test@test")),
        command: format!("PRIVMSG"),
        args: vec![format!("test")],
        suffix: Some(format!("Still testing!")),
    };
    let msg: Message = Message::parse(":test!test@test PRIVMSG test :Still testing!\r\n").unwrap();
    assert_eq!(msg, message);
}

#[test]
fn to_message_with_colon_in_arg() {
    // Some servers send colons inside individual parameters.
    let message = Message {
        tags: None,
        prefix: Some(format!("test!test@test")),
        command: format!("COMMAND"),
        args: vec![format!("ARG:test")],
        suffix: Some(format!("Testing!")),
    };
    let msg: Message = Message::parse(":test!test@test COMMAND ARG:test :Testing!\r\n").unwrap();
    assert_eq!(msg, message);
}

#[test]
#[should_panic]
fn to_message_invalid_format() {
    let _: Message = ":invalid :message".parse().unwrap();
}

#[test]
fn parse_empty_input() {
    assert_eq!(Message::parse(""), Err(ParseError::EmptyInput));
}

#[test]
fn parse_missing_command() {
    assert_eq!(Message::parse(":invalid :message\r\n"), Err(ParseError::MissingCommand));
    assert_eq!(Message::parse("\r\n"), Err(ParseError::MissingCommand));
    assert_eq!(Message::parse("@a=b\r\n"), Err(ParseError::MissingCommand));
    assert_eq!(Message::parse(":irc.test.net\r\n"), Err(ParseError::MissingCommand));
    assert_eq!(Message::parse("   \r\n"), Err(ParseError::MissingCommand));
}

#[test]
fn parse_error_messages() {
    assert_eq!(ParseError::EmptyInput.message(), "Cannot parse an empty string as a message.");
    assert_eq!(ParseError::MissingCommand.message(), "Cannot parse a message without a command.");
}

#[test]
fn parse_prefix_and_nickname() {
    let m = Message::parse(":test!test@test PRIVMSG test :Still testing!\r\n").unwrap();
    assert_eq!(m.prefix, Some(format!("test!test@test")));
    assert_eq!(m.get_source_nickname(), Some("test"));
}

#[test]
fn parse_command_alone() {
    let m = Message::parse("PING\r\n").unwrap();
    assert_eq!(m.command, "PING");
    assert!(m.args.is_empty());
    assert_eq!(m.suffix, None);
    assert_eq!(m.prefix, None);
    assert_eq!(m.tags, None);
}

#[test]
fn parse_empty_suffix_and_spaces() {
    let m = Message::parse("PRIVMSG #chan :\r\n").unwrap();
    assert_eq!(m.args, vec![format!("#chan")]);
    assert_eq!(m.suffix, Some(format!("")));
    let m = Message::parse("PRIVMSG  a   b :x :y z\r\n").unwrap();
    assert_eq!(m.args, vec![format!("a"), format!("b")]);
    assert_eq!(m.suffix, Some(format!("x :y z")));
}

#[test]
fn parse_tags_edge_cases() {
    let m = Message::parse("@;a==b;;c= PING\r\n").unwrap();
    assert_eq!(
        m.tags,
        Some(vec![Tag(format!("a"), Some(format!("=b"))), Tag(format!("c"), Some(format!("")))])
    );
    assert_eq!(m.command, "PING");
    let m = Message::parse("@ PING\r\n").unwrap();
    assert_eq!(m.tags, Some(vec![]));
}

#[test]
fn parse_fourteen_arguments() {
    let m = Message::parse("CMD a b c d e f g h i j k l m n\r\n").unwrap();
    assert_eq!(m.args.len(), 14);
    assert_eq!(m.args[13], "n");
}

#[test]
fn parse_fifteen_arguments() {
    let m = Message::parse("CMD a b c d e f g h i j k l m n o\r\n").unwrap();
    assert_eq!(m.args.len(), 14);
    assert_eq!(m.args[12], "m");
    assert_eq!(m.args[13], "n o");
}

#[test]
fn parse_fourteen_arguments_with_suffix() {
    let m = Message::parse("CMD a b c d e f g h i j k l m n :s\r\n").unwrap();
    assert_eq!(m.args.len(), 14);
    assert_eq!(m.args[13], "n ");
    assert_eq!(m.suffix, Some(format!("s")));
}

#[test]
fn nickname_of_server_is_absent() {
    let m = Message::new(Some("irc.test.net"), "NOTICE", None, Some("hi"));
    assert_eq!(m.get_source_nickname(), None);
    let m = Message::new(Some("a@b.c"), "NOTICE", None, None);
    assert_eq!(m.get_source_nickname(), None);
}

#[test]
fn constructors_agree() {
    let a = Message::new(Some("n"), "PRIVMSG", Some(vec!["x", "y"]), Some("z"));
    let b = Message::from_owned(
        Some(format!("n")),
        format!("PRIVMSG"),
        Some(vec![format!("x"), format!("y")]),
        Some(format!("z")),
    );
    assert_eq!(a, b);
    let t = Message::with_tags(Some(vec![Tag(format!("k"), None)]), None, "PING", None, None);
    assert_eq!(t.tags, Some(vec![Tag(format!("k"), None)]));
    assert!(t.args.is_empty());
    assert_eq!(Message::from_owned(None, format!("PING"), None, None).args.len(), 0);
}

#[test]
fn serialize_without_args_or_suffix() {
    assert_eq!(Message::new(None, "PING", None, None).into_string(), "PING\r\n");
    assert_eq!(Message::new(None, "QUIT", None, Some("")).into_string(), "QUIT :\r\n");
}

#[test]
fn serialize_drops_tags() {
    let m = Message::with_tags(Some(vec![Tag(format!("a"), Some(format!("b")))]), None, "PING", None, None);
    assert_eq!(m.into_string(), "PING\r\n");
}

#[test]
fn round_trip_without_tags() {
    let cases = vec![
        Message::new(None, "PING", None, None),
        Message::new(Some("test!test@test"), "PRIVMSG", Some(vec!["#chan"]), Some("hello :there world")),
        Message::new(Some("irc.net"), "005", Some(vec!["a:b", "c", "d"]), None),
        Message::new(None, "MODE", Some(vec!["a", "b", "c", "d", "e", "f", "g", "h", "i", "j", "k", "l", "m"]), Some("")),
        Message::new(None, "MODE", Some(vec!["a", "b", "c", "d", "e", "f", "g", "h", "i", "j", "k", "l", "m", "n"]), None),
    ];
    for m in cases {
        assert_eq!(Message::parse(&m.into_string()), Ok(m.clone()));
    }
}
