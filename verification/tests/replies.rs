use irc_core::error::{Error, ERR_ALREADYREGISTRED, ERR_ERRONEUSNICKNAME, ERR_NEEDMOREPARAMS, ERR_NICKNAMEINUSE, ERR_NORECIPIENT, ERR_NOSUCHNICK, ERR_NOTEXTTOSEND, ERR_NOTREGISTERED, ERR_UNKNOWNCOMMAND};

#[test]
fn codes_are_the_rfc_numbers() {
    assert_eq!(Error::NoSuchNick.code(), 401);
    assert_eq!(Error::NoRecipient.code(), 411);
    assert_eq!(Error::NoTextToSend.code(), 412);
    assert_eq!(Error::UnknownCommand.code(), 421);
    assert_eq!(Error::ErroneusNickname.code(), 432);
    assert_eq!(Error::NicknameInUse.code(), 433);
    assert_eq!(Error::NotRegistered.code(), 451);
    assert_eq!(Error::NeedMoreParams.code(), 461);
    assert_eq!(Error::AlreadyRegistred.code(), 462);
}

#[test]
fn to_string_is_number_and_template() {
    assert_eq!(Error::NoSuchNick.to_string(), "401 <nickname> :No such nick/channel");
    assert_eq!(Error::NoRecipient.to_string(), "411 :No recipient given (<command>)");
    assert_eq!(Error::NoTextToSend.to_string(), "412 :No text to send");
    assert_eq!(Error::UnknownCommand.to_string(), "421 <command> :Unknown command");
    assert_eq!(Error::ErroneusNickname.to_string(), "432 <nick> :Erroneus nickname");
    assert_eq!(Error::NicknameInUse.to_string(), "433 <nick> :Nickname is already in use");
    assert_eq!(Error::NotRegistered.to_string(), "451 :You have not registered");
    assert_eq!(Error::NeedMoreParams.to_string(), "461 <command> :Not enough parameters");
    assert_eq!(Error::AlreadyRegistred.to_string(), "462 :You may not reregister");
}

#[test]
fn reply_puts_target_and_argument_in_place() {
    assert_eq!(Error::NicknameInUse.reply("*", "alice"), "433 * alice :Nickname is already in use");
    assert_eq!(Error::NoSuchNick.reply("alice", "nobody"), "401 alice nobody :No such nick/channel");
    assert_eq!(Error::NoRecipient.reply("bob", "PRIVMSG"), "411 bob :No recipient given (PRIVMSG)");
    assert_eq!(Error::NoTextToSend.reply("bob", "PRIVMSG"), "412 bob :No text to send");
    assert_eq!(Error::NotRegistered.reply("*", ""), "451 * :You have not registered");
    assert_eq!(Error::NeedMoreParams.reply("*", "USER"), "461 * USER :Not enough parameters");
    assert_eq!(Error::AlreadyRegistred.reply("carol", ""), "462 carol :You may not reregister");
    assert_eq!(Error::UnknownCommand.reply("carol", "FOO"), "421 carol FOO :Unknown command");
    assert_eq!(Error::ErroneusNickname.reply("*", "1abc"), "432 * 1abc :Erroneus nickname");
}

#[test]
fn named_replies_are_their_variants() {
    assert_eq!(ERR_NOSUCHNICK, Error::NoSuchNick);
    assert_eq!(ERR_NORECIPIENT, Error::NoRecipient);
    assert_eq!(ERR_NOTEXTTOSEND, Error::NoTextToSend);
    assert_eq!(ERR_UNKNOWNCOMMAND, Error::UnknownCommand);
    assert_eq!(ERR_ERRONEUSNICKNAME, Error::ErroneusNickname);
    assert_eq!(ERR_NICKNAMEINUSE, Error::NicknameInUse);
    assert_eq!(ERR_NOTREGISTERED, Error::NotRegistered);
    assert_eq!(ERR_NEEDMOREPARAMS, Error::NeedMoreParams);
    assert_eq!(ERR_ALREADYREGISTRED, Error::AlreadyRegistred);
    assert_eq!(ERR_NICKNAMEINUSE.code(), 433);
}
