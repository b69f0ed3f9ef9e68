use botox::irc_parser::Context;
use botox::twitch_client::{
    loggable, twitch_auth, BOTInfo, Session, SessionAction, SessionEvent, TwitchClient,
};

fn sent(action: &SessionAction) -> &str {
    match action {
        SessionAction::Send(frame) => frame.as_str(),
        _ => panic!("a frame to send was expected"),
    }
}

#[test]
fn a_frame_of_two_lines_gives_two_events_in_the_order_of_arrival() {
    let mut session = Session::new("room");
    let frame = ":a!a@a PRIVMSG #room :first\r\n:b!b@b PRIVMSG #room :second\r\n";
    let actions = session.on_frame(frame, 42);
    assert_eq!(actions.len(), 2);
    match (&actions[0], &actions[1]) {
        (SessionAction::Publish(first), SessionAction::Publish(second)) => {
            assert_eq!(first.context, Context::new("a", "PRIVMSG", "#room"));
            assert_eq!(first.payload, "first");
            assert_eq!(first.timestamp, 42);
            assert_eq!(second.context, Context::new("b", "PRIVMSG", "#room"));
            assert_eq!(second.payload, "second");
            assert_eq!(second.timestamp, 42);
        }
        _ => panic!("two messages were expected"),
    }
}

#[test]
fn the_servers_ping_is_published_and_answered() {
    let mut session = Session::new("room");
    let actions = session.step_at(SessionEvent::Frame(String::from("PING :tmi.twitch.tv\r\n")), 0);
    assert_eq!(actions.len(), 2);
    match &actions[0] {
        SessionAction::Publish(message) => assert_eq!(message.context.command, "PING"),
        _ => panic!("a message was expected"),
    }
    assert_eq!(sent(&actions[1]), "PONG :tmi.twitch.tv");
}

#[test]
fn the_welcome_line_tells_the_bots_name() {
    let mut session = Session::new("room");
    assert_eq!(session.info().get_name(), "");
    assert_eq!(session.info().get_main_channel(), "");
    let frame = ":tmi.twitch.tv 001 botname :Welcome, GLHF!\r\n:tmi.twitch.tv 002 botname :Your host is tmi.twitch.tv";
    let actions = session.on_frame(frame, 0);
    assert_eq!(actions.len(), 2);
    assert_eq!(session.info().get_name(), "botname");
    assert_eq!(session.info().get_main_channel(), "room");
    assert_eq!(session.channel(), "room");
}

#[test]
fn a_line_that_cannot_be_parsed_is_dropped_and_the_rest_goes_on() {
    let mut session = Session::new("room");
    let actions = session.on_frame(":a PRIVMSG #room :x\r\n\r\n:b PRIVMSG #room :y", 0);
    assert_eq!(actions.len(), 3);
    assert!(matches!(&actions[0], SessionAction::Publish(m) if m.payload == "x"));
    assert!(matches!(&actions[1], SessionAction::Dropped(line) if line.is_empty()));
    assert!(matches!(&actions[2], SessionAction::Publish(m) if m.payload == "y"));
}

#[test]
fn an_empty_frame_is_one_line_that_is_dropped() {
    let mut session = Session::new("room");
    let actions = session.on_frame("", 0);
    assert_eq!(actions.len(), 1);
    assert!(matches!(&actions[0], SessionAction::Dropped(line) if line.is_empty()));
    let actions = session.on_frame("\r\n\r\n", 0);
    assert_eq!(actions.len(), 1);
}

#[test]
fn the_keepalive_tick_sends_a_ping() {
    let mut session = Session::new("room");
    assert_eq!(session.last_keepalive(), None);
    let actions = session.step_at(SessionEvent::Tick, 17);
    assert_eq!(actions.len(), 1);
    assert_eq!(sent(&actions[0]), "PING :tmi.twitch.tv");
    assert_eq!(session.last_keepalive(), Some(17));
    session.step_at(SessionEvent::Frame(String::from("PING :tmi.twitch.tv")), 20);
    assert_eq!(session.last_keepalive(), Some(17));
    session.step_at(SessionEvent::Tick, 197);
    assert_eq!(session.last_keepalive(), Some(197));
}

#[test]
fn a_lost_connection_ends_the_loop() {
    let mut session = Session::new("room");
    let (actions, _) = session.step(SessionEvent::ConnectionLost);
    assert_eq!(actions.len(), 1);
    assert!(matches!(actions[0], SessionAction::Fail));
}

#[test]
fn an_outbound_text_goes_out_in_frames_that_fit() {
    let mut session = Session::new("room");
    let long: String = std::iter::repeat('x').take(490).collect();
    let text = format!("{} {} end", long, long);
    let actions = session.step_at(SessionEvent::Outbound(text), 0);
    assert_eq!(actions.len(), 2);
    assert_eq!(sent(&actions[0]), format!("PRIVMSG #room :{}", long));
    assert_eq!(sent(&actions[1]), format!("PRIVMSG #room :{} end", long));
    let actions = session.on_outbound("   ");
    assert!(actions.is_empty());
    let actions = session.on_outbound("hello   world");
    assert_eq!(actions.len(), 1);
    assert_eq!(sent(&actions[0]), "PRIVMSG #room :hello world");
}

#[test]
fn step_stamps_the_messages_with_the_time_it_returns() {
    let mut session = Session::new("room");
    let (actions, now) = session.step(SessionEvent::Frame(String::from(":a PRIVMSG #room :x")));
    assert!(now > 0);
    assert!(matches!(&actions[0], SessionAction::Publish(m) if m.timestamp == now));
}

#[test]
fn the_session_opens_with_password_nickname_channel_and_tags() {
    let frames = twitch_auth(
        &String::from("1234567890"),
        &String::from("justinfan123"),
        &String::from("icsboyx"),
    );
    assert_eq!(
        frames,
        vec![
            String::from("PASS oauth:1234567890"),
            String::from("NICK justinfan123"),
            String::from("JOIN #icsboyx"),
            String::from("CAP REQ :twitch.tv/tags"),
        ]
    );
}

#[test]
fn the_password_is_not_shown_in_a_log() {
    assert_eq!(loggable("PASS oauth:1234567890"), "PASS oauth:**************************");
    assert_eq!(loggable("PASSWORD"), "PASS oauth:**************************");
    assert_eq!(loggable("NICK justinfan123"), "NICK justinfan123");
    assert_eq!(loggable("PAS"), "PAS");
    assert_eq!(loggable(" PASS x"), " PASS x");
    assert_eq!(loggable(""), "");
}

#[test]
fn the_default_configuration_is_an_anonymous_reader() {
    let config = TwitchClient::default();
    assert_eq!(config.file_name(), "twitch_client_config.toml");
    assert_eq!(config.server_address, "wss://irc-ws.chat.twitch.tv:443");
    assert_eq!(config.nick, "justinfan123");
    assert_eq!(config.token, "oauth:1234567890");
    assert_eq!(config.channel, "icsboyx");
    assert_eq!(config.log_level, "info");
    assert_eq!(config.anti_idle, 180);
    let same = TwitchClient::new(
        String::from("twitch_client_config.toml"),
        String::from("wss://irc-ws.chat.twitch.tv:443"),
        String::from("justinfan123"),
        String::from("oauth:1234567890"),
        String::from("icsboyx"),
        String::from("info"),
        180,
    );
    assert_eq!(config, same);
}

#[test]
fn what_is_known_of_the_bot_can_be_set_and_read() {
    let mut info = BOTInfo::default();
    info.set_name("bot");
    info.set_main_channel("room");
    assert_eq!(info.get_name(), "bot");
    assert_eq!(info.get_main_channel(), "room");
    info.set_name("other");
    assert_eq!(info.get_name(), "other");
    assert_eq!(info.get_main_channel(), "room");
}
