use irc_core::client::{Client, ClientCommand};
use irc_core::command::{check_channel_name, check_nick};
use irc_core::irc::{Command, Host, Origin};
use irc_core::parser::{parse_line, ParseError, ParsedMsg};
use irc_core::text::{canonical_name, parse_number, same_text, split_list, upper_case};

fn parsed(line: &str) -> ParsedMsg {
    parse_line(line).ok().unwrap()
}

fn failure(line: &str) -> ParseError {
    parse_line(line).err().unwrap()
}

#[test]
fn command_alone() {
    let m = parsed("QUIT");
    assert!(m.prefix.is_none());
    assert_eq!(m.command, "QUIT");
    assert_eq!(m.opt_params, None);
    assert_eq!(m.trailing, None);
}

#[test]
fn command_with_params_and_trailing() {
    let m = parsed("USER a 0 * :Alice Liddell");
    assert_eq!(m.command, "USER");
    assert_eq!(m.opt_params, Some(vec![String::from("a"), String::from("0"), String::from("*")]));
    assert_eq!(m.trailing.as_deref(), Some("Alice Liddell"));
}

#[test]
fn several_spaces_separate_like_one() {
    let m = parsed("PRIVMSG   bob    :hi  there ");
    assert_eq!(m.command, "PRIVMSG");
    assert_eq!(m.opt_params, Some(vec![String::from("bob")]));
    assert_eq!(m.trailing.as_deref(), Some("hi  there "));
    let m = parsed("JOIN #a ");
    assert_eq!(m.opt_params, Some(vec![String::from("#a")]));
    assert_eq!(m.trailing, None);
}

#[test]
fn empty_trailing_is_kept() {
    let m = parsed("TOPIC #a :");
    assert_eq!(m.trailing.as_deref(), Some(""));
}

#[test]
fn colon_inside_a_word_is_no_trailing() {
    let m = parsed("MODE a:b c");
    assert_eq!(m.opt_params, Some(vec![String::from("a:b"), String::from("c")]));
    assert_eq!(m.trailing, None);
}

#[test]
fn numeric_command() {
    let m = parsed("001 alice :Welcome");
    assert_eq!(m.command, "001");
}

#[test]
fn prefix_of_a_user() {
    let m = parsed(":alice!a@example.org PRIVMSG #chat :hello");
    match m.prefix {
        Some(Origin::User(nick, user, host)) => {
            assert_eq!(nick, "alice");
            assert_eq!(user.as_deref(), Some("a"));
            assert!(matches!(host, Some(Host::Hostname(ref h)) if h == "example.org"));
        }
        _ => panic!("not a user"),
    }
    assert_eq!(m.command, "PRIVMSG");
}

#[test]
fn prefix_forms() {
    assert!(matches!(parsed(":irc.example.org NOTICE x").prefix, Some(Origin::Server(Host::Hostname(ref h))) if h == "irc.example.org"));
    assert!(matches!(parsed(":bob QUIT").prefix, Some(Origin::User(ref n, None, None)) if n == "bob"));
    assert!(matches!(parsed(":bob@h.example QUIT").prefix, Some(Origin::User(ref n, None, Some(Host::Hostname(ref h)))) if n == "bob" && h == "h.example"));
    assert!(matches!(parsed(":bob!b QUIT").prefix, Some(Origin::User(ref n, Some(ref u), None)) if n == "bob" && u == "b"));
}

#[test]
fn parse_errors() {
    assert_eq!(failure(""), ParseError::NoCommand);
    assert_eq!(failure("   "), ParseError::NoCommand);
    assert_eq!(failure(": NICK a"), ParseError::EmptyPrefix);
    assert_eq!(failure(":"), ParseError::EmptyPrefix);
    assert_eq!(failure(":alice"), ParseError::NoCommand);
    assert_eq!(failure("N1CK a"), ParseError::BadCommand);
    assert_eq!(failure("12 a"), ParseError::BadCommand);
    assert_eq!(failure("1234 a"), ParseError::BadCommand);
    assert_eq!(failure("X a b c d e f g h i j k l m n o p"), ParseError::TooManyParams);
    assert_eq!(failure("X a b c d e f g h i j k l m n o :p"), ParseError::TooManyParams);
}

#[test]
fn fifteen_parameters_are_the_most() {
    let m = parsed("X a b c d e f g h i j k l m n o");
    assert_eq!(m.opt_params.unwrap().len(), 15);
    let m = parsed("X a b c d e f g h i j k l m n :o p");
    assert_eq!(m.opt_params.unwrap().len(), 14);
    assert_eq!(m.trailing.as_deref(), Some("o p"));
}

#[test]
fn line_of_510_characters_parses() {
    let line = format!("PRIVMSG #c :{}", "y".repeat(498));
    assert_eq!(line.len(), 510);
    let m = parsed(&line);
    assert_eq!(m.trailing.unwrap().len(), 498);
}

#[test]
fn commands_from_messages() {
    assert!(matches!(Command::from_msg(&parsed("nick alice")), Ok(Command::Nick(ref n)) if n == "alice"));
    assert!(matches!(Command::from_msg(&parsed("USER a 8 * :Alice L")), Ok(Command::User(ref u, 8, ref r)) if u == "a" && r == "Alice L"));
    assert!(matches!(Command::from_msg(&parsed("USER a x * Alice")), Ok(Command::User(ref u, 0, ref r)) if u == "a" && r == "Alice"));
    assert!(matches!(Command::from_msg(&parsed("JOIN #a,,#b")), Ok(Command::Join(ref c)) if c.len() == 2 && c[0] == "#a" && c[1] == "#b"));
    assert!(matches!(Command::from_msg(&parsed("PART #a :so long")), Ok(Command::Part(ref c, Some(ref m))) if c.len() == 1 && m == "so long"));
    assert!(matches!(Command::from_msg(&parsed("PART #a")), Ok(Command::Part(_, None))));
    assert!(matches!(Command::from_msg(&parsed("PRIVMSG a,b :x y")), Ok(Command::Message(ref t, ref m)) if t.len() == 2 && m == "x y"));
    assert!(matches!(Command::from_msg(&parsed("QUIT :bye")), Ok(Command::Quit(Some(ref m))) if m == "bye"));
    assert!(matches!(Command::from_msg(&parsed("QUIT")), Ok(Command::Quit(None))));
    let refused = Command::from_msg(&parsed("Frob x")).err().unwrap();
    assert_eq!(refused.error, irc_core::error::Error::UnknownCommand);
    assert_eq!(refused.arg, "Frob");
    let refused = Command::from_msg(&parsed("user a")).err().unwrap();
    assert_eq!(refused.error, irc_core::error::Error::NeedMoreParams);
    assert_eq!(refused.arg, "USER");
}

#[test]
fn end_of_line_parses_or_skips() {
    let mut c = Client::new(3);
    c.input.append_bytes(b"\r\nJOIN #a\r\n9x\r\nrest").unwrap();
    assert!(matches!(c.end_of_line(), Ok(ClientCommand::Empty)));
    assert!(matches!(c.end_of_line(), Ok(ClientCommand::Message(ref m)) if m.command == "JOIN"));
    assert!(matches!(c.end_of_line(), Err(ParseError::BadCommand)));
    assert_eq!(c.input.to_vec(), b"rest".to_vec());
}

#[test]
fn send_line_appends_delimiter_or_marks_dead() {
    let mut c = Client::new(0);
    c.send_line("abc");
    assert_eq!(c.output.to_vec(), b"abc\r\n".to_vec());
    assert!(!c.dead);
    c.send_line(&"z".repeat(4089));
    assert_eq!(c.output.len(), 4096);
    assert!(!c.dead);
    c.send_line("");
    assert!(c.dead);
    assert_eq!(c.output.len(), 4096);
}

#[test]
fn text_helpers() {
    assert_eq!(canonical_name("AbC[]9é"), "abc[]9é");
    assert_eq!(upper_case("privMsg1"), "PRIVMSG1");
    assert!(same_text("abc", "abc"));
    assert!(!same_text("abc", "abd"));
    assert!(!same_text("abc", "ab"));
    assert_eq!(split_list("a,b,,c,"), vec!["a", "b", "c"]);
    assert_eq!(split_list(""), Vec::<String>::new());
    assert_eq!(split_list(",,"), Vec::<String>::new());
    assert_eq!(parse_number("0"), Some(0));
    assert_eq!(parse_number("18446744073709551615"), Some(u64::MAX));
    assert_eq!(parse_number("18446744073709551616"), None);
    assert_eq!(parse_number("007"), Some(7));
    assert_eq!(parse_number(""), None);
    assert_eq!(parse_number("12a"), None);
    assert_eq!(parse_number("-1"), None);
}

#[test]
fn nick_and_channel_names() {
    assert!(check_nick("alice"));
    assert!(check_nick("[a]-9"));
    assert!(check_nick("a"));
    assert!(check_nick("abcdefghi"));
    assert!(!check_nick(""));
    assert!(!check_nick("abcdefghij"));
    assert!(!check_nick("9abc"));
    assert!(!check_nick("-abc"));
    assert!(!check_nick("a b"));
    assert!(!check_nick("a#b"));
    assert!(check_channel_name("#chat"));
    assert!(check_channel_name("&local"));
    assert!(!check_channel_name("chat"));
    assert!(!check_channel_name(""));
}

#[test]
fn format_then_parse_gives_the_message_back() {
    for line in [
        "QUIT",
        "NICK alice",
        "USER a 0 * :Alice Liddell",
        ":alice!a@example.org PRIVMSG #chat :hello there",
        ":irc.example.org 001 alice :Welcome",
        ":bob PART #a",
        ":bob@h.example JOIN #a,#b",
        ":bob!b TOPIC #a :",
    ] {
        let m = parsed(line);
        assert_eq!(m.format(), line);
        let again = parsed(&m.format());
        assert_eq!(again.command, m.command);
        assert_eq!(again.opt_params, m.opt_params);
        assert_eq!(again.trailing, m.trailing);
        assert_eq!(again.prefix.map(|o| o.text()), m.prefix.map(|o| o.text()));
    }
}

#[test]
fn format_writes_a_built_message() {
    let m = ParsedMsg {
        prefix: Some(Origin::User(
            String::from("alice"),
            Some(String::from("a")),
            Some(Host::Hostname(String::from("example.org"))),
        )),
        command: String::from("PRIVMSG"),
        opt_params: Some(vec![String::from("#chat")]),
        trailing: Some(String::from("hello world")),
    };
    assert_eq!(m.format(), ":alice!a@example.org PRIVMSG #chat :hello world");
    let back = parsed(&m.format());
    assert_eq!(back.command, "PRIVMSG");
    assert_eq!(back.opt_params, Some(vec![String::from("#chat")]));
    assert_eq!(back.trailing.as_deref(), Some("hello world"));
    assert!(matches!(back.prefix, Some(Origin::User(ref n, Some(ref u), Some(Host::Hostname(ref h)))) if n == "alice" && u == "a" && h == "example.org"));
}
