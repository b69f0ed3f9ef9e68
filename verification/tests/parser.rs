use botox::irc_parser::{
    parse_irc_message_context, parse_irc_message_token, parse_message, parse_message_at, Context,
    IrcMessage,
};

fn tag<'a>(message: &'a IrcMessage, key: &str) -> Option<&'a str> {
    message.tag(key).map(|value| value.as_str())
}

#[test]
fn parses_a_private_message() {
    let line = String::from(":nick!nick@nick.tmi.twitch.tv PRIVMSG #room :hello there");
    let message = parse_message(&line);
    assert_eq!(message.context, Context::new("nick", "PRIVMSG", "#room"));
    assert_eq!(message.payload, "hello there");
}

#[test]
fn a_line_without_tags_has_one_empty_tag() {
    let message = parse_message_at(":nick PRIVMSG #room :hi", 7);
    assert_eq!(message.timestamp, 7);
    assert_eq!(tag(&message, ""), Some(""));
    assert_eq!(message.token.len(), 1);
}

#[test]
fn parses_the_tags_of_a_tagged_line() {
    let line = "@badge-info=;badges=broadcaster/1;color=#FF0000 :nick!nick@nick.tmi.twitch.tv PRIVMSG #room :hi all";
    let message = parse_message_at(line, 1);
    assert_eq!(tag(&message, "badge-info"), Some(""));
    assert_eq!(tag(&message, "badges"), Some("broadcaster/1"));
    assert_eq!(tag(&message, "color"), Some("#FF0000"));
    assert_eq!(tag(&message, "missing"), None);
    assert_eq!(message.token.len(), 3);
    assert_eq!(message.context, Context::new("nick", "PRIVMSG", "#room"));
    assert_eq!(message.payload, "hi all");
}

#[test]
fn the_later_of_two_tags_with_one_key_stays() {
    let message = parse_message_at("@a=1;b=2;a=3 :s CMD d :p", 0);
    assert_eq!(tag(&message, "a"), Some("3"));
    assert_eq!(tag(&message, "b"), Some("2"));
    assert_eq!(message.token.len(), 2);
}

#[test]
fn a_tag_is_cut_at_its_first_equals_sign() {
    let tags = parse_irc_message_token("key=a=b;flag");
    assert_eq!(tags.get("key").map(|v| v.as_str()), Some("a=b"));
    assert_eq!(tags.get("flag").map(|v| v.as_str()), Some(""));
    assert_eq!(tags.len(), 2);
}

#[test]
fn leading_at_signs_are_all_cut_off() {
    let message = parse_message_at("@@a=1 :s CMD d :p", 0);
    assert_eq!(tag(&message, "a"), Some("1"));
}

#[test]
fn parses_the_servers_ping() {
    let message = parse_message_at("PING :tmi.twitch.tv", 0);
    assert_eq!(message.context, Context::new("", "PING", ""));
    assert_eq!(message.payload, "tmi.twitch.tv");
}

#[test]
fn parses_the_welcome_line() {
    let message = parse_message_at(":tmi.twitch.tv 001 botname :Welcome, GLHF!", 0);
    assert_eq!(message.context, Context::new("tmi.twitch.tv", "001", "botname"));
    assert_eq!(message.payload, "Welcome, GLHF!");
}

#[test]
fn the_payload_keeps_its_colons() {
    let message = parse_message_at(":nick PRIVMSG #room :see: http://x.y/z", 0);
    assert_eq!(message.payload, "see: http://x.y/z");
}

#[test]
fn the_payload_of_a_tagged_line_keeps_what_follows_the_second_cut() {
    let message = parse_message_at("@a=1 :nick PRIVMSG #room :one :two :three", 0);
    assert_eq!(message.context, Context::new("nick", "PRIVMSG", "#room"));
    assert_eq!(message.payload, "one :two :three");
}

#[test]
fn an_empty_line_gives_an_empty_context() {
    let message = parse_message_at("", 0);
    assert!(message.context.is_empty());
    assert_eq!(message.context, Context::default());
    assert_eq!(message.payload, "");
}

#[test]
fn a_line_of_white_space_gives_an_empty_context() {
    let message = parse_message_at(" \t ", 0);
    assert!(message.context.is_empty());
}

#[test]
fn a_context_of_two_words_has_no_command() {
    let context = parse_irc_message_context("tmi.twitch.tv RECONNECT");
    assert_eq!(context, Context::new("tmi.twitch.tv", "", "RECONNECT"));
    assert!(!context.is_empty());
}

#[test]
fn the_words_between_sender_and_destination_are_the_command() {
    let context = parse_irc_message_context("  nick!user@host   CAP  *   ACK  ");
    assert_eq!(context, Context::new("nick", "CAP *", "ACK"));
}

#[test]
fn the_sender_ends_at_its_first_exclamation_mark() {
    let context = parse_irc_message_context("a!b!c X y");
    assert_eq!(context.sender, "a");
    let context = parse_irc_message_context("!b X y");
    assert_eq!(context.sender, "");
}

#[test]
fn parts_are_trimmed_of_unicode_white_space() {
    let message = parse_message_at(":nick PRIVMSG #room :\u{a0}\u{3000} hi \u{2003}\u{85}", 0);
    assert_eq!(message.payload, "hi");
}

#[test]
fn new_keeps_what_it_is_given() {
    let tags = parse_irc_message_token("k=v");
    let message = IrcMessage::new(tags, Context::new("s", "c", "d"), "text");
    assert_eq!(tag(&message, "k"), Some("v"));
    assert_eq!(message.context, Context::new("s", "c", "d"));
    assert_eq!(message.payload, "text");
    assert!(message.timestamp > 0);
}

#[test]
fn parse_message_agrees_with_parse_message_at_but_for_the_time() {
    let line = String::from("@x=y :a!b PRIVMSG #c :d e");
    let now = parse_message(&line);
    let then = parse_message_at(&line, 5);
    assert_eq!(now.context, then.context);
    assert_eq!(now.payload, then.payload);
    assert_eq!(tag(&now, "x"), tag(&then, "x"));
}
