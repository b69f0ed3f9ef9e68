//! The session with the chat server: what to send when the connection
//! opens, and what each event of the session loop asks for.
//!
//! The loop itself waits on a timer, on the connection and on the outbound
//! lane, which this library does not do. It hands each event to `Session::step`
//! and carries out the actions that come back, in order. `Fail` ends the loop
//! with a failure, so that the supervisor can start the session afresh.

use crate::chunking::{split_spec, split_text};
use crate::clock::now_millis;
use crate::config_manager::{config_suffix, filename};
use crate::irc_parser::{empty_context, message_spec, parse_message_at, IrcMessage, IrcMessageView};
use crate::text::{
    chars_of, find, join, lemma_find_first, lemma_find_from, lemma_join_concat, occurs_at,
    ranges_within, slices, split, split_ranges, string_of, strip_trailing, strip_trailing_to,
    views,
};
use vstd::prelude::*;
use vstd::string::*;

verus! {

/// The largest text, in bytes, that one outbound frame carries.
pub const MSG_LEN: usize = 500;

/// The seconds between two keepalive pings.
pub const KEEPALIVE_SECS: u64 = 180;

/// How to reach the chat server, and as whom.
#[derive(Debug, Clone, PartialEq, Eq)]
pub struct TwitchClient {
    file_name: String,
    pub server_address: String,
    pub nick: String,
    pub token: String,
    pub channel: String,
    pub log_level: String,
    pub anti_idle: i32,
}

/// A `TwitchClient` as plain values.
pub ghost struct TwitchClientView {
    pub file_name: Seq<char>,
    pub server_address: Seq<char>,
    pub nick: Seq<char>,
    pub token: Seq<char>,
    pub channel: Seq<char>,
    pub log_level: Seq<char>,
    pub anti_idle: int,
}

impl View for TwitchClient {
    type V = TwitchClientView;

    closed spec fn view(&self) -> TwitchClientView {
        TwitchClientView {
            file_name: self.file_name@,
            server_address: self.server_address@,
            nick: self.nick@,
            token: self.token@,
            channel: self.channel@,
            log_level: self.log_level@,
            anti_idle: self.anti_idle as int,
        }
    }
}

/// The configuration of an anonymous reader of one channel.
pub open spec fn default_client() -> TwitchClientView {
    TwitchClientView {
        file_name: "twitch_client"@ + config_suffix(),
        server_address: "wss://irc-ws.chat.twitch.tv:443"@,
        nick: "justinfan123"@,
        token: "oauth:1234567890"@,
        channel: "icsboyx"@,
        log_level: "info"@,
        anti_idle: 180,
    }
}

impl TwitchClient {
    /// A configuration of the given parts, kept in the file `file_name`.
    pub fn new(
        file_name: String,
        server_address: String,
        nick: String,
        token: String,
        channel: String,
        log_level: String,
        anti_idle: i32,
    ) -> (config: Self)
        ensures
            config@ == (TwitchClientView {
                file_name: file_name@,
                server_address: server_address@,
                nick: nick@,
                token: token@,
                channel: channel@,
                log_level: log_level@,
                anti_idle: anti_idle as int,
            }),
    {
        TwitchClient { file_name, server_address, nick, token, channel, log_level, anti_idle }
    }

    /// The name of the file that keeps this configuration.
    pub fn file_name(&self) -> (name: &String)
        ensures
            name@ == self@.file_name,
    {
        &self.file_name
    }
}

impl Default for TwitchClient {
    fn default() -> (config: Self)
        ensures
            config@ == default_client(),
    {
        TwitchClient {
            file_name: filename("twitch_client"),
            server_address: "wss://irc-ws.chat.twitch.tv:443".to_owned(),
            nick: "justinfan123".to_owned(),
            token: "oauth:1234567890".to_owned(),
            channel: "icsboyx".to_owned(),
            log_level: "info".to_owned(),
            anti_idle: 180,
        }
    }
}

/// Who the bot is on the server, as far as the session has learned it.
#[derive(Debug, Clone, PartialEq, Eq)]
pub struct BOTInfo {
    name: String,
    main_channel: String,
}

/// A `BOTInfo` as plain text.
pub ghost struct BOTInfoView {
    pub name: Seq<char>,
    pub main_channel: Seq<char>,
}

impl View for BOTInfo {
    type V = BOTInfoView;

    closed spec fn view(&self) -> BOTInfoView {
        BOTInfoView { name: self.name@, main_channel: self.main_channel@ }
    }
}

impl BOTInfo {
    pub fn set_name(&mut self, name: &str)
        ensures
            final(self)@ == (BOTInfoView { name: name@, ..old(self)@ }),
    {
        self.name = name.to_owned();
    }

    pub fn set_main_channel(&mut self, main_channel: &str)
        ensures
            final(self)@ == (BOTInfoView { main_channel: main_channel@, ..old(self)@ }),
    {
        self.main_channel = main_channel.to_owned();
    }

    pub fn get_name(&self) -> (name: String)
        ensures
            name@ == self@.name,
    {
        self.name.clone()
    }

    pub fn get_main_channel(&self) -> (main_channel: String)
        ensures
            main_channel@ == self@.main_channel,
    {
        self.main_channel.clone()
    }
}

impl Default for BOTInfo {
    /// Nothing is known yet.
    fn default() -> (info: Self)
        ensures
            info@ == (BOTInfoView { name: seq![], main_channel: seq![] }),
    {
        BOTInfo { name: String::new(), main_channel: String::new() }
    }
}

/// The frames that open a session: password, nickname, the channel to
/// join, and the request for tags.
pub fn twitch_auth(user_token: &String, user_nick: &String, user_channel: &String) -> (frames:
    Vec<String>)
    ensures
        views(frames@) == seq![
            "PASS oauth:"@ + user_token@,
            "NICK "@ + user_nick@,
            "JOIN #"@ + user_channel@,
            "CAP REQ :twitch.tv/tags"@,
        ],
{
    let mut pass = "PASS oauth:".to_owned();
    pass.append(user_token.as_str());
    let mut nick = "NICK ".to_owned();
    nick.append(user_nick.as_str());
    let mut join = "JOIN #".to_owned();
    join.append(user_channel.as_str());
    let mut frames: Vec<String> = Vec::new();
    frames.push(pass);
    frames.push(nick);
    frames.push(join);
    frames.push("CAP REQ :twitch.tv/tags".to_owned());
    assert(views(frames@) =~= seq![
        "PASS oauth:"@ + user_token@,
        "NICK "@ + user_nick@,
        "JOIN #"@ + user_channel@,
        "CAP REQ :twitch.tv/tags"@,
    ]);
    frames
}

/// What a log may show of an outbound frame: the frame itself, unless it
/// carries the password.
pub open spec fn loggable_spec(frame: Seq<char>) -> Seq<char> {
    if "PASS"@.is_prefix_of(frame) {
        "PASS oauth:**************************"@
    } else {
        frame
    }
}

/// What a log may show of the outbound frame `frame`.
pub fn loggable(frame: &str) -> (shown: String)
    ensures
        shown@ == loggable_spec(frame@),
{
    let v = chars_of(frame);
    let pass = chars_of("PASS");
    assert(v@.subrange(0, v.len() as int) =~= v@);
    if crate::text::starts_with(&v, 0, v.len(), &pass) {
        "PASS oauth:**************************".to_owned()
    } else {
        frame.to_owned()
    }
}

/// The chunks into which an outbound text is cut, each small enough for one
/// frame.
pub fn split_message(message: &str) -> (chunks: Vec<String>)
    ensures
        views(chunks@) == split_spec(message@, MSG_LEN as nat),
{
    split_text(message, MSG_LEN)
}

/// What happened in the session loop.
pub enum SessionEvent {
    /// The keepalive timer fired.
    Tick,
    /// A text frame came in.
    Frame(String),
    /// A text is to go out to the channel.
    Outbound(String),
    /// The connection failed to send or to receive.
    ConnectionLost,
}

/// What the session loop is to do.
pub enum SessionAction {
    /// Send this frame.
    Send(String),
    /// Publish this message to whoever listens.
    Publish(IrcMessage),
    /// Note that this line could not be parsed; it is passed over.
    Dropped(String),
    /// Leave the loop and report failure.
    Fail,
}

/// A `SessionEvent` as plain values.
pub ghost enum EventView {
    Tick,
    Frame(Seq<char>),
    Outbound(Seq<char>),
    ConnectionLost,
}

/// A `SessionAction` as plain values.
pub ghost enum ActionView {
    Send(Seq<char>),
    Publish(IrcMessageView),
    Dropped(Seq<char>),
    Fail,
}

impl View for SessionEvent {
    type V = EventView;

    open spec fn view(&self) -> EventView {
        match self {
            SessionEvent::Tick => EventView::Tick,
            SessionEvent::Frame(frame) => EventView::Frame(frame@),
            SessionEvent::Outbound(text) => EventView::Outbound(text@),
            SessionEvent::ConnectionLost => EventView::ConnectionLost,
        }
    }
}

impl View for SessionAction {
    type V = ActionView;

    open spec fn view(&self) -> ActionView {
        match self {
            SessionAction::Send(frame) => ActionView::Send(frame@),
            SessionAction::Publish(message) => ActionView::Publish(message@),
            SessionAction::Dropped(line) => ActionView::Dropped(line@),
            SessionAction::Fail => ActionView::Fail,
        }
    }
}

/// The actions as plain values.
pub open spec fn action_views(actions: Seq<SessionAction>) -> Seq<ActionView> {
    Seq::new(actions.len(), |i: int| actions[i]@)
}

/// The line terminator of the protocol.
pub open spec fn line_end() -> Seq<char> {
    seq!['\r', '\n']
}

/// The keepalive frame.
pub open spec fn ping_frame() -> Seq<char> {
    "PING :tmi.twitch.tv"@
}

/// The answer to the server's ping.
pub open spec fn pong_frame() -> Seq<char> {
    "PONG :tmi.twitch.tv"@
}

/// The frame that says `text` in `channel`.
pub open spec fn say_frame(channel: Seq<char>, text: Seq<char>) -> Seq<char> {
    "PRIVMSG #"@ + channel + " :"@ + text
}

/// The lines of an inbound frame: what stands between its line terminators,
/// the trailing ones cut off first.
pub open spec fn frame_lines(frame: Seq<char>) -> Seq<Seq<char>> {
    split(strip_trailing(frame, line_end()), line_end())
}

/// What one inbound line asks for. A line without a context cannot be
/// parsed: it is dropped. Any other line is published, and the server's ping
/// is answered at once.
pub open spec fn line_actions(line: Seq<char>, now: int) -> Seq<ActionView> {
    let message = message_spec(line, now);
    if message.context == empty_context() {
        seq![ActionView::Dropped(line)]
    } else if message.context.command == "PING"@ {
        seq![ActionView::Publish(message), ActionView::Send(pong_frame())]
    } else {
        seq![ActionView::Publish(message)]
    }
}

/// What the lines ask for, line after line.
pub open spec fn lines_actions(lines: Seq<Seq<char>>, now: int) -> Seq<ActionView>
    decreases lines.len(),
{
    if lines.len() == 0 {
        seq![]
    } else {
        lines_actions(lines.drop_last(), now) + line_actions(lines.last(), now)
    }
}

/// What one inbound line tells of the bot's identity: the welcome line
/// names the bot, and from then on the session's channel is its main one.
pub open spec fn line_identity(info: BOTInfoView, channel: Seq<char>, line: Seq<char>) -> BOTInfoView {
    let message = message_spec(line, 0);
    if message.context.command == "001"@ {
        BOTInfoView { name: message.context.destination, main_channel: channel }
    } else {
        info
    }
}

/// What the lines tell of the bot's identity, line after line.
pub open spec fn lines_identity(info: BOTInfoView, channel: Seq<char>, lines: Seq<Seq<char>>) -> BOTInfoView
    decreases lines.len(),
{
    if lines.len() == 0 {
        info
    } else {
        line_identity(lines_identity(info, channel, lines.drop_last()), channel, lines.last())
    }
}

/// The frames that say the chunks in `channel`.
pub open spec fn say_actions(channel: Seq<char>, chunks: Seq<Seq<char>>) -> Seq<ActionView> {
    Seq::new(chunks.len(), |i: int| ActionView::Send(say_frame(channel, chunks[i])))
}

/// The state of one session: the channel it talks in, what it has learned
/// of the bot's identity, and when it last sent a keepalive.
pub struct Session {
    channel: String,
    info: BOTInfo,
    last_keepalive: Option<i64>,
}

/// A `Session` as plain values.
pub ghost struct SessionView {
    pub channel: Seq<char>,
    pub info: BOTInfoView,
    /// The time of the last keepalive tick, if there was one.
    pub last_keepalive: Option<i64>,
}

impl SessionView {
    /// The session after the event, where `now` is the time at which it is
    /// handled.
    pub open spec fn next(self, event: EventView, now: i64) -> SessionView {
        match event {
            EventView::Tick => SessionView { last_keepalive: Some(now), ..self },
            EventView::Frame(frame) => SessionView {
                info: lines_identity(self.info, self.channel, frame_lines(frame)),
                ..self
            },
            _ => self,
        }
    }

    /// What the event asks for, where `now` is the time at which it is
    /// handled.
    pub open spec fn actions(self, event: EventView, now: int) -> Seq<ActionView> {
        match event {
            EventView::Tick => seq![ActionView::Send(ping_frame())],
            EventView::Frame(frame) => lines_actions(frame_lines(frame), now),
            EventView::Outbound(text) => say_actions(
                self.channel,
                split_spec(text, MSG_LEN as nat),
            ),
            EventView::ConnectionLost => seq![ActionView::Fail],
        }
    }
}

impl View for Session {
    type V = SessionView;

    closed spec fn view(&self) -> SessionView {
        SessionView {
            channel: self.channel@,
            info: self.info@,
            last_keepalive: self.last_keepalive,
        }
    }
}

impl Session {
    /// A session in `channel` that knows nothing of the bot yet.
    pub fn new(channel: &str) -> (session: Self)
        ensures
            session@ == (SessionView {
                channel: channel@,
                info: BOTInfoView { name: seq![], main_channel: seq![] },
                last_keepalive: None,
            }),
    {
        Session { channel: channel.to_owned(), info: BOTInfo::default(), last_keepalive: None }
    }

    /// The time of the last keepalive tick, if there was one.
    pub fn last_keepalive(&self) -> (time: Option<i64>)
        ensures
            time == self@.last_keepalive,
    {
        self.last_keepalive
    }

    /// What the session has learned of the bot's identity.
    pub fn info(&self) -> (info: &BOTInfo)
        ensures
            info@ == self@.info,
    {
        &self.info
    }

    /// The channel of the session.
    pub fn channel(&self) -> (channel: &String)
        ensures
            channel@ == self@.channel,
    {
        &self.channel
    }

    /// What an inbound frame asks for, where `now` is the time at which it
    /// came.
    pub fn on_frame(&mut self, frame: &str, now: i64) -> (actions: Vec<SessionAction>)
        ensures
            final(self)@ == old(self)@.next(EventView::Frame(frame@), now),
            action_views(actions@) == lines_actions(frame_lines(frame@), now as int),
    {
        let v = chars_of(frame);
        let line_end: Vec<char> = vec!['\r', '\n'];
        assert(line_end@ =~= seq!['\r', '\n']);
        assert(v@.subrange(0, v.len() as int) =~= v@);
        let end = strip_trailing_to(&v, 0, v.len(), &line_end);
        let ranges = split_ranges(&v, 0, end, &line_end, None);
        let ghost lines = slices(v@, ranges@);
        assert(lines == frame_lines(frame@));
        let ping = "PING".to_owned();
        let welcome = "001".to_owned();
        let mut actions: Vec<SessionAction> = Vec::new();
        let mut k: usize = 0;
        assert(lines.take(0) =~= Seq::<Seq<char>>::empty());
        assert(action_views(actions@) =~= lines_actions(lines.take(0), now as int));
        while k < ranges.len()
            invariant
                k <= ranges.len(),
                end <= v.len(),
                ranges_within(ranges@, 0, end as int),
                lines == slices(v@, ranges@),
                ping@ == "PING"@,
                welcome@ == "001"@,
                self.channel == old(self).channel,
                self.last_keepalive == old(self).last_keepalive,
                self.info@ == lines_identity(old(self)@.info, self@.channel, lines.take(k as int)),
                action_views(actions@) == lines_actions(lines.take(k as int), now as int),
            decreases ranges.len() - k,
        {
            let r = ranges[k];
            let line = string_of(&v, r.0, r.1);
            let message = parse_message_at(line.as_str(), now);
            let ghost before = action_views(actions@);
            proof {
                assert(lines.take(k + 1).drop_last() =~= lines.take(k as int));
                assert(lines.take(k + 1).last() == line@);
                assert(message_spec(line@, now as int).context == message_spec(line@, 0).context);
            }
            if message.context.is_empty() {
                proof {
                    reveal_strlit("001");
                }
                actions.push(SessionAction::Dropped(line));
                assert(action_views(actions@) =~= before + line_actions(line@, now as int));
            } else {
                let is_ping = message.context.command == ping;
                if message.context.command == welcome {
                    self.info.set_name(message.context.destination.as_str());
                    self.info.set_main_channel(self.channel.as_str());
                }
                actions.push(SessionAction::Publish(message));
                if is_ping {
                    actions.push(SessionAction::Send("PONG :tmi.twitch.tv".to_owned()));
                }
                assert(action_views(actions@) =~= before + line_actions(line@, now as int));
            }
            k += 1;
        }
        assert(lines.take(ranges.len() as int) =~= lines);
        actions
    }

    /// What an outbound text asks for: one frame for each of its chunks.
    pub fn on_outbound(&self, text: &str) -> (actions: Vec<SessionAction>)
        ensures
            action_views(actions@) == say_actions(self@.channel, split_spec(text@, MSG_LEN as nat)),
    {
        let chunks = split_message(text);
        let mut actions: Vec<SessionAction> = Vec::new();
        let mut k: usize = 0;
        while k < chunks.len()
            invariant
                k <= chunks.len(),
                actions@.len() == k,
                forall|i: int|
                    0 <= i < k ==> (#[trigger] actions@[i])@ == ActionView::Send(
                        say_frame(self@.channel, chunks@[i]@),
                    ),
            decreases chunks.len() - k,
        {
            let mut frame = "PRIVMSG #".to_owned();
            frame.append(self.channel.as_str());
            frame.append(" :");
            frame.append(chunks[k].as_str());
            actions.push(SessionAction::Send(frame));
            k += 1;
        }
        assert(action_views(actions@) =~= say_actions(
            self@.channel,
            split_spec(text@, MSG_LEN as nat),
        )) by {
            assert(views(chunks@) == split_spec(text@, MSG_LEN as nat));
            assert forall|i: int| 0 <= i < chunks@.len() implies chunks@[i]@ == split_spec(
                text@,
                MSG_LEN as nat,
            )[i] by {
                assert(views(chunks@)[i] == chunks@[i]@);
            }
        }
        actions
    }

    /// What the event asks for, where `now` is the time at which it is
    /// handled.
    pub fn step_at(&mut self, event: SessionEvent, now: i64) -> (actions: Vec<SessionAction>)
        ensures
            final(self)@ == old(self)@.next(event@, now),
            action_views(actions@) == old(self)@.actions(event@, now as int),
    {
        match event {
            SessionEvent::Tick => {
                self.last_keepalive = Some(now);
                let mut actions: Vec<SessionAction> = Vec::new();
                actions.push(SessionAction::Send("PING :tmi.twitch.tv".to_owned()));
                assert(action_views(actions@) =~= seq![ActionView::Send(ping_frame())]);
                actions
            },
            SessionEvent::Frame(frame) => self.on_frame(frame.as_str(), now),
            SessionEvent::Outbound(text) => self.on_outbound(text.as_str()),
            SessionEvent::ConnectionLost => {
                let mut actions: Vec<SessionAction> = Vec::new();
                actions.push(SessionAction::Fail);
                assert(action_views(actions@) =~= seq![ActionView::Fail]);
                actions
            },
        }
    }

    /// What the event asks for. The messages that it publishes are stamped
    /// with the wall clock's time.
    pub fn step(&mut self, event: SessionEvent) -> (r: (Vec<SessionAction>, i64))
        ensures
            final(self)@ == old(self)@.next(event@, r.1),
            action_views(r.0@) == old(self)@.actions(event@, r.1 as int),
    {
        let now = now_millis();
        (self.step_at(event, now), now)
    }
}

/// The line terminator does not stand at the end of a frame whose last line
/// is not empty and does not hold it.
proof fn lemma_no_trailing_end(first: Seq<char>, second: Seq<char>)
    requires
        find(second, line_end()) is None,
        second.len() > 0,
    ensures
        !line_end().is_suffix_of(first + line_end() + second),
{
    let end = line_end();
    let frame = first + end + second;
    lemma_find_from(second, end, 0);
    if end.is_suffix_of(frame) {
        let last_two = frame.subrange(frame.len() - 2, frame.len() as int);
        assert(last_two =~= end);
        if second.len() >= 2 {
            assert(second.subrange(second.len() - 2, second.len() as int) =~= last_two);
            assert(occurs_at(second, end, second.len() - 2));
        } else {
            assert(last_two[0] == frame[frame.len() - 2]);
            assert(frame[frame.len() - 2] == '\n');
            assert(end[0] == '\r');
        }
    }
}

/// In a frame whose first line does not hold the line terminator, the
/// terminator stands first behind that line.
proof fn lemma_first_line_end(first: Seq<char>, second: Seq<char>)
    requires
        find(first, line_end()) is None,
    ensures
        find(first + line_end() + second, line_end()) == Some(first.len() as int),
{
    let end = line_end();
    let frame = first + end + second;
    let cut = first.len() as int;
    lemma_find_from(first, end, 0);
    assert(frame.subrange(cut, cut + 2) =~= end);
    assert forall|j: int| 0 <= j < cut implies !occurs_at(frame, end, j) by {
        if occurs_at(frame, end, j) {
            let found = frame.subrange(j, j + 2);
            if j + 2 <= cut {
                assert(first.subrange(j, j + 2) =~= found);
                assert(occurs_at(first, end, j));
            } else {
                assert(found[1] == frame[j + 1]);
                assert(frame[j + 1] == '\r');
                assert(end[1] == '\n');
            }
        }
    }
    lemma_find_first(frame, end, cut);
}

/// Two lines that stand in one frame, with the line terminator between them,
/// are the frame's lines, in that order.
pub proof fn lemma_two_lines(first: Seq<char>, second: Seq<char>)
    requires
        find(first, line_end()) is None,
        find(second, line_end()) is None,
        second.len() > 0,
    ensures
        frame_lines(first + line_end() + second) == seq![first, second],
{
    let end = line_end();
    let frame = first + end + second;
    let cut = first.len() as int;
    lemma_no_trailing_end(first, second);
    lemma_first_line_end(first, second);
    assert(strip_trailing(frame, end) == frame);
    assert(frame.take(cut) =~= first);
    assert(frame.skip(cut + 2) =~= second);
    assert(split(second, end) =~= seq![second]);
    assert(split(frame, end) =~= seq![first] + split(second, end));
    assert(seq![first] + seq![second] =~= seq![first, second]);
}

/// Whether the lines can travel in one frame: there is a line, the line
/// terminator stands in none of them, and the last one is not empty.
pub open spec fn framed(lines: Seq<Seq<char>>) -> bool {
    &&& lines.len() > 0
    &&& forall|i: int| 0 <= i < lines.len() ==> find(#[trigger] lines[i], line_end()) is None
    &&& lines.last().len() > 0
}

/// Lines without a line terminator in them are cut apart again as they were
/// put together.
proof fn lemma_split_lines(lines: Seq<Seq<char>>)
    requires
        lines.len() > 0,
        forall|i: int| 0 <= i < lines.len() ==> find(#[trigger] lines[i], line_end()) is None,
    ensures
        split(join(lines, line_end()), line_end()) == lines,
    decreases lines.len(),
{
    let end = line_end();
    let first = lines[0];
    assert(find(first, end) is None);
    if lines.len() == 1 {
        assert(split(first, end) =~= lines);
    } else {
        let rest = lines.drop_first();
        assert forall|i: int| 0 <= i < rest.len() implies find(#[trigger] rest[i], end) is None by {
            assert(rest[i] == lines[i + 1]);
        }
        lemma_split_lines(rest);
        assert(lines =~= seq![first] + rest);
        lemma_join_concat(seq![first], rest, end);
        let frame = first + end + join(rest, end);
        lemma_first_line_end(first, join(rest, end));
        assert(frame.take(first.len() as int) =~= first);
        assert(frame.skip(first.len() as int + 2) =~= join(rest, end));
        assert(split(frame, end) =~= seq![first] + split(join(rest, end), end));
    }
}

/// Lines that travel in one frame, with the line terminator between each
/// two, are the frame's lines, in that order.
pub proof fn lemma_frame_lines(lines: Seq<Seq<char>>)
    requires
        framed(lines),
    ensures
        frame_lines(join(lines, line_end())) == lines,
{
    let end = line_end();
    let frame = join(lines, end);
    lemma_split_lines(lines);
    assert(find(lines.last(), end) is None);
    if lines.len() == 1 {
        lemma_no_trailing_end(Seq::<char>::empty(), lines[0]);
        lemma_find_from(lines[0], end, 0);
        if end.is_suffix_of(frame) {
            assert(frame.subrange(frame.len() - 2, frame.len() as int) =~= end);
            assert(occurs_at(frame, end, frame.len() - 2));
        }
    } else {
        lemma_no_trailing_end(join(lines.drop_last(), end), lines.last());
    }
    assert(strip_trailing(frame, end) == frame);
}

/// A frame is handled line by line, in the order of arrival: what it asks
/// for is what its lines ask for, one after the other.
pub proof fn lemma_lines_in_order(session: SessionView, lines: Seq<Seq<char>>, now: int)
    requires
        framed(lines),
    ensures
        session.actions(EventView::Frame(join(lines, line_end())), now) == lines_actions(lines, now),
{
    lemma_frame_lines(lines);
}

/// A frame of two lines is handled line by line, in the order of arrival:
/// what it asks for is what the first line asks for, followed by what the
/// second asks for. Where both lines can be parsed, these are two messages to
/// publish, the first line's before the second's.
pub proof fn lemma_two_lines_in_order(
    session: SessionView,
    first: Seq<char>,
    second: Seq<char>,
    now: int,
)
    requires
        find(first, line_end()) is None,
        find(second, line_end()) is None,
        second.len() > 0,
    ensures
        session.actions(EventView::Frame(first + line_end() + second), now) == line_actions(
            first,
            now,
        ) + line_actions(second, now),
        line_actions(first, now)[0] == if message_spec(first, now).context == empty_context() {
            ActionView::Dropped(first)
        } else {
            ActionView::Publish(message_spec(first, now))
        },
        line_actions(second, now)[0] == if message_spec(second, now).context == empty_context() {
            ActionView::Dropped(second)
        } else {
            ActionView::Publish(message_spec(second, now))
        },
{
    lemma_two_lines(first, second);
    let lines = seq![first, second];
    assert(lines.drop_last() =~= seq![first]);
    assert(seq![first].drop_last() =~= Seq::<Seq<char>>::empty());
    assert(lines_actions(Seq::<Seq<char>>::empty(), now) =~= Seq::<ActionView>::empty());
    assert(seq![first].last() == first);
    assert(lines_actions(seq![first], now) =~= line_actions(first, now));
    assert(lines_actions(lines, now) =~= line_actions(first, now) + line_actions(second, now));
}

} // verus!
