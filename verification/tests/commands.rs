use botox::commands::{
    command_of, die, list_all_commands, standard_commands, test_command, BotCommand, BotCommands,
    CommandMessage, COMMAND_PREFIX,
};
use botox::irc_parser::parse_message_at;
use botox::tts::{utterance_of, SpeechConfig, TTSDatabase, TTSVoice, Voice};

fn voice(short: Option<&str>) -> TTSVoice {
    TTSVoice {
        voice_config: Voice {
            name: String::from("n"),
            short_name: short.map(String::from),
            gender: None,
            locale: None,
            suggested_codec: None,
            friendly_name: None,
            status: None,
        },
        speech_config: SpeechConfig {
            voice_name: String::from("n"),
            audio_format: String::from("f"),
            pitch: 0,
            rate: 0,
            volume: 0,
        },
    }
}

#[test]
fn a_chat_line_that_begins_with_the_prefix_is_a_command() {
    assert_eq!(COMMAND_PREFIX, "!");
    let message = parse_message_at(":nick PRIVMSG #room :!help me please", 0);
    assert_eq!(command_of(&message), Some(String::from("help")));
    let message = parse_message_at(":nick PRIVMSG #room :!!!test", 0);
    assert_eq!(command_of(&message), Some(String::from("test")));
    let message = parse_message_at(":nick PRIVMSG #room :!", 0);
    assert_eq!(command_of(&message), Some(String::new()));
    let message = parse_message_at(":nick PRIVMSG #room :hello !help", 0);
    assert_eq!(command_of(&message), None);
    let message = parse_message_at(":nick NOTICE #room :!help", 0);
    assert_eq!(command_of(&message), None);
}

#[test]
fn a_chat_line_that_is_no_command_is_read_aloud() {
    let message = parse_message_at(":nick!n@n PRIVMSG #room :hello there", 0);
    assert_eq!(utterance_of(&message), Some((String::from("nick"), String::from("hello there"))));
    let message = parse_message_at(":nick PRIVMSG #room :!help", 0);
    assert_eq!(utterance_of(&message), None);
    let message = parse_message_at(":nick NOTICE #room :hello", 0);
    assert_eq!(utterance_of(&message), None);
    let message = parse_message_at(":nick PRIVMSG #room :", 0);
    assert_eq!(utterance_of(&message), Some((String::from("nick"), String::new())));
}

#[test]
fn the_test_command_greets_the_sender() {
    let message = parse_message_at(":nick!n@n PRIVMSG #room :!test", 0);
    let outcome = test_command(&message);
    assert_eq!(outcome.say, "Hi there nick this is the reply to your test message");
    assert!(outcome.speak);
    assert_eq!(outcome.fail, None);
}

#[test]
fn the_die_command_says_goodbye_and_fails() {
    let message = parse_message_at(":nick PRIVMSG #room :!die", 0);
    let outcome = die(&message);
    assert_eq!(outcome.say, "Goodbye cruel world");
    assert!(outcome.speak);
    assert_eq!(outcome.fail, Some(String::from("I'm dying as you wish!")));
}

#[test]
fn the_help_command_lists_the_commands() {
    let commands = standard_commands();
    assert_eq!(list_all_commands(&commands).say, "Available commands: !help, !test, !die");
    assert_eq!(list_all_commands(&BotCommands::new()).say, "Available commands: ");
}

#[test]
fn a_command_is_run_when_it_is_registered() {
    let mut commands = standard_commands();
    let voices = TTSDatabase::from_entries(vec![voice(Some("it-IT-A")), voice(None), voice(Some("en-GB-B"))]);
    let message = parse_message_at(":nick PRIVMSG #room :!list_voices", 0);
    assert!(commands.dispatch(&message, &voices).is_none());
    commands.add_command(String::from("list_voices"), BotCommand::ListVoices);
    let outcome = commands.dispatch(&message, &voices).unwrap();
    assert_eq!(outcome.say, "Available voices: it-IT-A, , en-GB-B");
    assert!(!outcome.speak);
    assert_eq!(outcome.fail, None);
    let outcome = commands.run_command("help", &message, &voices).unwrap();
    assert_eq!(outcome.say, "Available commands: !help, !test, !die, !list_voices");
    assert!(commands.run_command("nothing", &message, &voices).is_none());
    let chat = parse_message_at(":nick PRIVMSG #room :no command", 0);
    assert!(commands.dispatch(&chat, &voices).is_none());
}

#[test]
fn a_trigger_that_is_registered_again_keeps_its_place() {
    let mut commands = standard_commands();
    commands.add_command(String::from("test"), BotCommand::Die);
    assert_eq!(commands.command("test"), Some(BotCommand::Die));
    assert_eq!(commands.command("help"), Some(BotCommand::Help));
    assert_eq!(commands.command("none"), None);
    assert_eq!(list_all_commands(&commands).say, "Available commands: !help, !test, !die");
}

#[test]
fn a_command_message_holds_what_it_is_given() {
    let message = CommandMessage {
        timestamp: 3,
        sender: String::from("nick"),
        message: String::from("!help"),
    };
    assert_eq!(message.clone(), message);
}
