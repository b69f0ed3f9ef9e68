//! The commands that users give the bot in chat.
//!
//! A chat line is a command when its text begins with the command prefix.
//! Each command is registered under the word that triggers it. What a
//! command answers is computed here; saying and speaking the answer is the
//! caller's part.

use crate::irc_parser::{IrcMessage, IrcMessageView};
use crate::registry::{inserted, value_of, Registry};
use crate::text::{
    chars_of, join, slices, starts_with, string_of, strip_leading, strip_leading_from,
    word_ranges, words,
};
use crate::tts::{list_voices, voices_line, TTSDatabase, TTSVoiceView};
use vstd::prelude::*;
use vstd::string::*;

verus! {

/// What a chat line begins with when it is a command.
pub const COMMAND_PREFIX: &'static str = "!";

/// A command as it arrives from the chat.
#[derive(Debug, Clone, PartialEq, Eq)]
pub struct CommandMessage {
    pub timestamp: i64,
    pub sender: String,
    pub message: String,
}

/// The commands that the bot knows.
#[derive(Debug, Clone, Copy, PartialEq, Eq)]
pub enum BotCommand {
    /// Lists the commands.
    Help,
    /// Greets the sender.
    Test,
    /// Says goodbye and fails, which ends the command task.
    Die,
    /// Lists the voices.
    ListVoices,
}

/// What a command asks the caller to do.
#[derive(Debug)]
pub struct CommandOutcome {
    /// The answer, to be said in the chat.
    pub say: String,
    /// Whether the answer is to be spoken, too.
    pub speak: bool,
    /// The failure with which the command ends, if it ends with one.
    pub fail: Option<String>,
}

/// A `CommandOutcome` as plain values.
pub ghost struct OutcomeView {
    pub say: Seq<char>,
    pub speak: bool,
    pub fail: Option<Seq<char>>,
}

impl View for CommandOutcome {
    type V = OutcomeView;

    open spec fn view(&self) -> OutcomeView {
        OutcomeView {
            say: self.say@,
            speak: self.speak,
            fail: match self.fail {
                Some(reason) => Some(reason@),
                None => None,
            },
        }
    }
}

/// The command that a message gives: the first word of a chat line that
/// begins with the prefix, without the prefix.
pub open spec fn command_spec(message: IrcMessageView) -> Option<Seq<char>> {
    if message.context.command == "PRIVMSG"@ && COMMAND_PREFIX@.is_prefix_of(message.payload) {
        Some(strip_leading(words(message.payload)[0], '!'))
    } else {
        None
    }
}

/// The command that `message` gives, if it gives one.
pub fn command_of(message: &IrcMessage) -> (command: Option<String>)
    ensures
        match command {
            Some(name) => command_spec(message@) == Some(name@),
            None => command_spec(message@) is None,
        },
{
    let privmsg = "PRIVMSG".to_owned();
    if !(message.context.command == privmsg) {
        return None;
    }
    let v = chars_of(message.payload.as_str());
    let prefix = chars_of(COMMAND_PREFIX);
    assert(v@.subrange(0, v.len() as int) =~= v@);
    if !starts_with(&v, 0, v.len(), &prefix) {
        return None;
    }
    let w = word_ranges(&v, 0, v.len());
    proof {
        reveal_strlit("!");
        assert(v@[0] == '!');
        assert(words(v@).len() > 0);
        assert(slices(v@, w@)[0] == words(v@)[0]);
    }
    let first = w[0];
    let start = strip_leading_from(&v, first.0, first.1, '!');
    Some(string_of(&v, start, first.1))
}

/// The answer of the command that says goodbye.
pub open spec fn die_outcome() -> OutcomeView {
    OutcomeView { say: "Goodbye cruel world"@, speak: true, fail: Some("I'm dying as you wish!"@) }
}

/// The answer of the test command to the sender `sender`.
pub open spec fn test_outcome(sender: Seq<char>) -> OutcomeView {
    OutcomeView {
        say: "Hi there "@ + sender + " this is the reply to your test message"@,
        speak: true,
        fail: None,
    }
}

/// The triggers, each behind the prefix.
pub open spec fn prefixed(commands: Seq<(Seq<char>, BotCommand)>) -> Seq<Seq<char>> {
    Seq::new(commands.len(), |i: int| COMMAND_PREFIX@ + commands[i].0)
}

/// The answer of the command that lists the commands.
pub open spec fn help_outcome(commands: Seq<(Seq<char>, BotCommand)>) -> OutcomeView {
    OutcomeView {
        say: "Available commands: "@ + join(prefixed(commands), ", "@),
        speak: true,
        fail: None,
    }
}

/// The answer of the command that lists the voices.
pub open spec fn voices_outcome(voices: Seq<TTSVoiceView>) -> OutcomeView {
    OutcomeView { say: voices_line(voices), speak: false, fail: None }
}

/// What the command `command` answers to `message`.
pub open spec fn outcome_of(
    command: BotCommand,
    commands: Seq<(Seq<char>, BotCommand)>,
    message: IrcMessageView,
    voices: Seq<TTSVoiceView>,
) -> OutcomeView {
    match command {
        BotCommand::Help => help_outcome(commands),
        BotCommand::Test => test_outcome(message.context.sender),
        BotCommand::Die => die_outcome(),
        BotCommand::ListVoices => voices_outcome(voices),
    }
}

/// Says goodbye, and fails.
pub fn die(_message: &IrcMessage) -> (outcome: CommandOutcome)
    ensures
        outcome@ == die_outcome(),
{
    CommandOutcome {
        say: "Goodbye cruel world".to_owned(),
        speak: true,
        fail: Some("I'm dying as you wish!".to_owned()),
    }
}

/// Greets the sender of `message`.
pub fn test_command(message: &IrcMessage) -> (outcome: CommandOutcome)
    ensures
        outcome@ == test_outcome(message@.context.sender),
{
    let mut say = "Hi there ".to_owned();
    say.append(message.context.sender.as_str());
    say.append(" this is the reply to your test message");
    CommandOutcome { say, speak: true, fail: None }
}

/// The registered commands, by trigger.
#[derive(Debug)]
pub struct BotCommands {
    commands: Registry<BotCommand>,
}

impl View for BotCommands {
    type V = Seq<(Seq<char>, BotCommand)>;

    /// The triggers with their commands, in the order in which the triggers
    /// were registered.
    closed spec fn view(&self) -> Seq<(Seq<char>, BotCommand)> {
        self.commands@
    }
}

impl BotCommands {
    /// Whether no trigger occurs twice.
    pub closed spec fn wf(&self) -> bool {
        self.commands.wf()
    }

    /// No command is registered.
    pub fn new() -> (commands: Self)
        ensures
            commands.wf(),
            commands@ == Seq::<(Seq<char>, BotCommand)>::empty(),
    {
        BotCommands { commands: Registry::new() }
    }

    /// Registers `command` under `trigger`, in place of the command that was
    /// registered under it, if any.
    pub fn add_command(&mut self, trigger: String, command: BotCommand)
        requires
            old(self).wf(),
        ensures
            final(self).wf(),
            final(self)@ == inserted(old(self)@, trigger@, command),
    {
        self.commands.insert(trigger, command);
    }

    /// The command that is registered under `trigger`.
    pub fn command(&self, trigger: &str) -> (command: Option<BotCommand>)
        ensures
            command == value_of(self@, trigger@),
    {
        match self.commands.get(trigger) {
            Some(command) => Some(*command),
            None => None,
        }
    }

    /// Runs the command that is registered under `command`, if one is, and
    /// returns its answer.
    pub fn run_command(&self, command: &str, message: &IrcMessage, voices: &TTSDatabase) -> (outcome:
        Option<CommandOutcome>)
        ensures
            match outcome {
                Some(o) => value_of(self@, command@) matches Some(c) && o@ == outcome_of(
                    c,
                    self@,
                    message@,
                    voices@,
                ),
                None => value_of(self@, command@) is None,
            },
    {
        match self.command(command) {
            None => None,
            Some(BotCommand::Help) => Some(list_all_commands(self)),
            Some(BotCommand::Test) => Some(test_command(message)),
            Some(BotCommand::Die) => Some(die(message)),
            Some(BotCommand::ListVoices) => Some(
                CommandOutcome { say: list_voices(voices), speak: false, fail: None },
            ),
        }
    }

    /// Runs the command that `message` gives, if it gives one and that one
    /// is registered, and returns its answer.
    pub fn dispatch(&self, message: &IrcMessage, voices: &TTSDatabase) -> (outcome: Option<
        CommandOutcome,
    >)
        ensures
            match outcome {
                Some(o) => command_spec(message@) matches Some(name) && value_of(self@, name)
                    matches Some(c) && o@ == outcome_of(c, self@, message@, voices@),
                None => command_spec(message@) matches Some(name) ==> value_of(self@, name)
                    is None,
            },
    {
        match command_of(message) {
            Some(name) => self.run_command(name.as_str(), message, voices),
            None => None,
        }
    }
}

/// Lists the triggers of the registered commands, each behind the prefix,
/// with commas between.
pub fn list_all_commands(commands: &BotCommands) -> (outcome: CommandOutcome)
    ensures
        outcome@ == help_outcome(commands@),
{
    let ghost names = prefixed(commands@);
    let mut say = "Available commands: ".to_owned();
    let mut k: usize = 0;
    assert(names.take(0) =~= Seq::<Seq<char>>::empty());
    assert("Available commands: "@ + join(names.take(0), ", "@) =~= "Available commands: "@);
    while k < commands.commands.len()
        invariant
            k <= commands@.len() == names.len(),
            names == prefixed(commands@),
            say@ == "Available commands: "@ + join(names.take(k as int), ", "@),
        decreases commands@.len() - k,
    {
        proof {
            assert(names.take(k + 1).drop_last() =~= names.take(k as int));
            assert(names.take(k + 1).last() == names[k as int]);
        }
        if k > 0 {
            say.append(", ");
        }
        say.append(COMMAND_PREFIX);
        say.append(commands.commands.entry(k).0.as_str());
        assert(say@ =~= "Available commands: "@ + join(names.take(k + 1), ", "@));
        k += 1;
    }
    assert(names.take(names.len() as int) =~= names);
    CommandOutcome { say, speak: true, fail: None }
}

/// The commands that the bot knows from the start, under their triggers.
pub fn standard_commands() -> (commands: BotCommands)
    ensures
        commands.wf(),
        commands@ == inserted(
            inserted(
                inserted(Seq::<(Seq<char>, BotCommand)>::empty(), "help"@, BotCommand::Help),
                "test"@,
                BotCommand::Test,
            ),
            "die"@,
            BotCommand::Die,
        ),
{
    let mut commands = BotCommands::new();
    commands.add_command("help".to_owned(), BotCommand::Help);
    commands.add_command("test".to_owned(), BotCommand::Test);
    commands.add_command("die".to_owned(), BotCommand::Die);
    commands
}

} // verus!
