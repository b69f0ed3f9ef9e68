//! The parser for the lines of the chat protocol.
//!
//! A line has up to three parts: tags (only where the line begins with
//! `@`), a context of sender, command and destination, and a payload. The
//! parser never fails: a line without a context gives a message whose
//! context is empty.

use crate::clock::now_millis;
use crate::text::{
    chars_of, join, join_ranges, ranges_within, slices, split, split_ranges, splitn, string_of,
    strip_leading, strip_leading_from, trim, trim_range, word_ranges, words,
};
use vstd::hash_map::StringHashMap;
use vstd::prelude::*;

verus! {

/// Who sent a line, what it asks, and to whom it goes.
#[derive(Debug, Clone, PartialEq, Eq)]
pub struct Context {
    pub sender: String,
    pub command: String,
    pub destination: String,
}

/// A `Context` as plain text.
pub ghost struct ContextView {
    pub sender: Seq<char>,
    pub command: Seq<char>,
    pub destination: Seq<char>,
}

impl View for Context {
    type V = ContextView;

    open spec fn view(&self) -> ContextView {
        ContextView {
            sender: self.sender@,
            command: self.command@,
            destination: self.destination@,
        }
    }
}

impl Context {
    pub fn new(sender: &str, command: &str, destination: &str) -> (c: Self)
        ensures
            c@.sender == sender@,
            c@.command == command@,
            c@.destination == destination@,
    {
        Context {
            sender: sender.to_owned(),
            command: command.to_owned(),
            destination: destination.to_owned(),
        }
    }

    /// Whether the context holds nothing: the mark of a line that could not
    /// be parsed.
    pub fn is_empty(&self) -> (b: bool)
        ensures
            b == (self@ == empty_context()),
    {
        let b = self.sender.as_str().is_empty() && self.command.as_str().is_empty()
            && self.destination.as_str().is_empty();
        proof {
            if b {
                assert(self@.sender =~= Seq::<char>::empty());
                assert(self@.command =~= Seq::<char>::empty());
                assert(self@.destination =~= Seq::<char>::empty());
            }
        }
        b
    }
}

impl Default for Context {
    fn default() -> (c: Self)
        ensures
            c@ == empty_context(),
    {
        Context { sender: String::new(), command: String::new(), destination: String::new() }
    }
}

/// One parsed line of the protocol.
pub struct IrcMessage {
    /// When the message was made, in milliseconds since the Unix epoch.
    pub timestamp: i64,
    /// The tags of the line, by key.
    pub token: StringHashMap<String>,
    pub context: Context,
    pub payload: String,
}

/// An `IrcMessage` as plain values.
pub ghost struct IrcMessageView {
    pub timestamp: int,
    pub token: Map<Seq<char>, Seq<char>>,
    pub context: ContextView,
    pub payload: Seq<char>,
}

/// The tags as a map from text to text.
pub open spec fn tag_views(token: Map<Seq<char>, String>) -> Map<Seq<char>, Seq<char>> {
    token.map_values(|v: String| v@)
}

impl View for IrcMessage {
    type V = IrcMessageView;

    open spec fn view(&self) -> IrcMessageView {
        IrcMessageView {
            timestamp: self.timestamp as int,
            token: tag_views(self.token@),
            context: self.context@,
            payload: self.payload@,
        }
    }
}

impl Default for IrcMessage {
    /// The message without tags, context and payload, made at time zero.
    fn default() -> (m: Self)
        ensures
            m@ == (IrcMessageView {
                timestamp: 0,
                token: Map::empty(),
                context: empty_context(),
                payload: seq![],
            }),
    {
        let m = IrcMessage {
            timestamp: 0,
            token: StringHashMap::new(),
            context: Context::default(),
            payload: String::new(),
        };
        assert(m@.token =~= Map::<Seq<char>, Seq<char>>::empty());
        m
    }
}

impl IrcMessage {
    /// A message made now: its timestamp is the wall clock's.
    pub fn new(token: StringHashMap<String>, context: Context, payload: &str) -> (m: Self)
        ensures
            m.token == token,
            m.context == context,
            m.payload@ == payload@,
    {
        IrcMessage::at(now_millis(), token, context, payload)
    }

    /// A message made at the given time.
    pub fn at(timestamp: i64, token: StringHashMap<String>, context: Context, payload: &str) -> (m:
        Self)
        ensures
            m.timestamp == timestamp,
            m.token == token,
            m.context == context,
            m.payload@ == payload@,
    {
        IrcMessage { timestamp, token, context, payload: payload.to_owned() }
    }

    /// The value of the tag `key`, where the line has that tag.
    pub fn tag(&self, key: &str) -> (value: Option<&String>)
        ensures
            match value {
                Some(v) => self@.token.contains_key(key@) && self@.token[key@] == v@,
                None => !self@.token.contains_key(key@),
            },
    {
        self.token.get(key)
    }
}

/// The context that holds nothing.
pub open spec fn empty_context() -> ContextView {
    ContextView { sender: seq![], command: seq![], destination: seq![] }
}

/// The piece at index `i`, or the empty text where there is none.
pub open spec fn piece(ps: Seq<Seq<char>>, i: int) -> Seq<char> {
    if 0 <= i < ps.len() {
        ps[i]
    } else {
        seq![]
    }
}

/// The key of one tag: what stands before its first `=`.
pub open spec fn tag_key(item: Seq<char>) -> Seq<char> {
    piece(splitn(item, 2, seq!['=']), 0)
}

/// The value of one tag: what follows its first `=`, or nothing.
pub open spec fn tag_value(item: Seq<char>) -> Seq<char> {
    piece(splitn(item, 2, seq!['=']), 1)
}

/// The map of the tags `items`. Of two tags with one key the later one stays.
pub open spec fn tags_of(items: Seq<Seq<char>>) -> Map<Seq<char>, Seq<char>>
    decreases items.len(),
{
    if items.len() == 0 {
        Map::empty()
    } else {
        tags_of(items.drop_last()).insert(tag_key(items.last()), tag_value(items.last()))
    }
}

/// The tags of a line: the items between the `;` of `token`, each cut at its
/// first `=` into key and value.
pub open spec fn token_spec(token: Seq<char>) -> Map<Seq<char>, Seq<char>> {
    tags_of(split(token, seq![';']))
}

/// The context of a line, from its words. One word is the command. Of
/// more, the first is the sender (up to its first `!`), the last is the
/// destination, and those between, joined by single spaces, are the command.
pub open spec fn context_spec(context: Seq<char>) -> ContextView {
    let w = words(context);
    if w.len() == 0 {
        empty_context()
    } else if w.len() == 1 {
        ContextView { sender: seq![], command: w[0], destination: seq![] }
    } else {
        ContextView {
            sender: piece(split(w[0], seq!['!']), 0),
            command: join(w.subrange(1, w.len() - 1), seq![' ']),
            destination: w.last(),
        }
    }
}

/// The three parts of a line, before the tags and the context are parsed.
pub ghost struct LineParts {
    pub token: Seq<char>,
    pub context: Seq<char>,
    pub payload: Seq<char>,
}

/// How a line falls into tags, context and payload.
///
/// A line that begins with `@` is cut at its first two ` :` into tags,
/// context and payload. One that begins with `:` has no tags; its context lies
/// between that colon and the next, its payload after. Any other line is cut
/// at its first `:` into context and payload. Each part is trimmed.
pub open spec fn line_parts(msg: Seq<char>) -> LineParts {
    if msg.len() > 0 && msg[0] == '@' {
        let a = splitn(msg, 3, seq![' ', ':']);
        LineParts {
            token: trim(strip_leading(piece(a, 0), '@')),
            context: trim(piece(a, 1)),
            payload: trim(piece(a, 2)),
        }
    } else if msg.len() > 0 && msg[0] == ':' {
        let a = splitn(msg, 3, seq![':']);
        LineParts { token: seq![], context: trim(piece(a, 1)), payload: trim(piece(a, 2)) }
    } else {
        let a = splitn(msg, 2, seq![':']);
        LineParts { token: seq![], context: trim(piece(a, 0)), payload: trim(piece(a, 1)) }
    }
}

/// What a line means, but for the time at which it was parsed.
pub open spec fn message_spec(msg: Seq<char>, timestamp: int) -> IrcMessageView {
    let parts = line_parts(msg);
    IrcMessageView {
        timestamp,
        token: token_spec(parts.token),
        context: context_spec(parts.context),
        payload: parts.payload,
    }
}

/// The range of the piece at index `i`, or an empty range where there is
/// none.
fn piece_range(v: &Vec<char>, parts: &Vec<(usize, usize)>, i: usize) -> (r: (usize, usize))
    requires
        ranges_within(parts@, 0, v.len() as int),
    ensures
        r.0 <= r.1 <= v.len(),
        v@.subrange(r.0 as int, r.1 as int) == piece(slices(v@, parts@), i as int),
{
    if i < parts.len() {
        parts[i]
    } else {
        assert(v@.subrange(0, 0) =~= Seq::<char>::empty());
        (0, 0)
    }
}

/// The tags in `v[from..to]`.
fn token_of(v: &Vec<char>, from: usize, to: usize) -> (token: StringHashMap<String>)
    requires
        from <= to <= v.len(),
    ensures
        tag_views(token@) == token_spec(v@.subrange(from as int, to as int)),
{
    let semicolon: Vec<char> = vec![';'];
    let equals: Vec<char> = vec!['='];
    assert(semicolon@ =~= seq![';']);
    assert(equals@ =~= seq!['=']);
    let items = split_ranges(v, from, to, &semicolon, None);
    let ghost texts = slices(v@, items@);
    let mut token: StringHashMap<String> = StringHashMap::new();
    let mut k: usize = 0;
    assert(tag_views(token@) =~= tags_of(texts.take(0)));
    while k < items.len()
        invariant
            k <= items.len(),
            to <= v.len(),
            equals@ == seq!['='],
            texts == slices(v@, items@),
            ranges_within(items@, from as int, to as int),
            tag_views(token@) == tags_of(texts.take(k as int)),
        decreases items.len() - k,
    {
        let item = items[k];
        let pair = split_ranges(v, item.0, item.1, &equals, Some(2));
        let key_range = piece_range(v, &pair, 0);
        let value_range = piece_range(v, &pair, 1);
        let key = string_of(v, key_range.0, key_range.1);
        let value = string_of(v, value_range.0, value_range.1);
        let ghost before = token@;
        token.insert(key, value);
        proof {
            assert(texts.take(k + 1).drop_last() =~= texts.take(k as int));
            assert(texts.take(k + 1).last() == texts[k as int]);
            assert(tag_views(token@) =~= tag_views(before).insert(key@, value@));
        }
        k += 1;
    }
    assert(texts.take(items.len() as int) =~= texts);
    token
}

/// The context in `v[from..to]`.
fn context_of(v: &Vec<char>, from: usize, to: usize) -> (context: Context)
    requires
        from <= to <= v.len(),
    ensures
        context@ == context_spec(v@.subrange(from as int, to as int)),
{
    let w = word_ranges(v, from, to);
    let n = w.len();
    let ghost texts = slices(v@, w@);
    if n == 0 {
        Context::default()
    } else if n == 1 {
        let r = w[0];
        Context { sender: String::new(), command: string_of(v, r.0, r.1), destination: String::new() }
    } else {
        let bang: Vec<char> = vec!['!'];
        let space: Vec<char> = vec![' '];
        assert(bang@ =~= seq!['!']);
        assert(space@ =~= seq![' ']);
        let first = w[0];
        let last = w[n - 1];
        let names = split_ranges(v, first.0, first.1, &bang, None);
        let sender_range = piece_range(v, &names, 0);
        Context {
            sender: string_of(v, sender_range.0, sender_range.1),
            command: join_ranges(v, &w, 1, n - 1, &space),
            destination: string_of(v, last.0, last.1),
        }
    }
}

/// The tags of a line, from the text that holds them.
pub fn parse_irc_message_token(token: &str) -> (tags: StringHashMap<String>)
    ensures
        tag_views(tags@) == token_spec(token@),
{
    let v = chars_of(token);
    assert(v@.subrange(0, v.len() as int) =~= v@);
    token_of(&v, 0, v.len())
}

/// The context of a line, from the text that holds it.
pub fn parse_irc_message_context(context: &str) -> (c: Context)
    ensures
        c@ == context_spec(context@),
{
    let v = chars_of(context);
    assert(v@.subrange(0, v.len() as int) =~= v@);
    context_of(&v, 0, v.len())
}

/// Parses one line of the protocol. The message's timestamp is the wall
/// clock's at the time of the call.
pub fn parse_message(msg: &String) -> (m: IrcMessage)
    ensures
        m@ == message_spec(msg@, m.timestamp as int),
{
    parse_message_at(msg.as_str(), now_millis())
}

/// Parses one line of the protocol into a message with the given timestamp.
pub fn parse_message_at(msg: &str, timestamp: i64) -> (m: IrcMessage)
    ensures
        m@ == message_spec(msg@, timestamp as int),
{
    let v = chars_of(msg);
    let n = v.len();
    assert(v@.subrange(0, n as int) =~= v@);
    let colon: Vec<char> = vec![':'];
    assert(colon@ =~= seq![':']);
    let token_range: (usize, usize);
    let context_range: (usize, usize);
    let payload_range: (usize, usize);
    if n > 0 && v[0] == '@' {
        let space_colon: Vec<char> = vec![' ', ':'];
        assert(space_colon@ =~= seq![' ', ':']);
        let a = split_ranges(&v, 0, n, &space_colon, Some(3));
        let head = piece_range(&v, &a, 0);
        let start = strip_leading_from(&v, head.0, head.1, '@');
        token_range = trim_range(&v, start, head.1);
        let second = piece_range(&v, &a, 1);
        context_range = trim_range(&v, second.0, second.1);
        let third = piece_range(&v, &a, 2);
        payload_range = trim_range(&v, third.0, third.1);
    } else if n > 0 && v[0] == ':' {
        let a = split_ranges(&v, 0, n, &colon, Some(3));
        token_range = (0, 0);
        let second = piece_range(&v, &a, 1);
        context_range = trim_range(&v, second.0, second.1);
        let third = piece_range(&v, &a, 2);
        payload_range = trim_range(&v, third.0, third.1);
    } else {
        let a = split_ranges(&v, 0, n, &colon, Some(2));
        token_range = (0, 0);
        let first = piece_range(&v, &a, 0);
        context_range = trim_range(&v, first.0, first.1);
        let second = piece_range(&v, &a, 1);
        payload_range = trim_range(&v, second.0, second.1);
    }
    assert(v@.subrange(0, 0) =~= Seq::<char>::empty());
    let token = token_of(&v, token_range.0, token_range.1);
    let context = context_of(&v, context_range.0, context_range.1);
    let payload = string_of(&v, payload_range.0, payload_range.1);
    IrcMessage { timestamp, token, context, payload }
}

} // verus!
