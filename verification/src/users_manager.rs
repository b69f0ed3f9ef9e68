//! The users of the chat, and the voice of each.
//!
//! A user who speaks for the first time is given a voice: one of the voices
//! that the template asks for, by chance, with the template's pitch, rate and
//! volume. The user keeps that voice until it is reset.

use crate::registry::{
    distinct_names, inserted, lemma_removed, lemma_with_values, lemma_with_values_inserted,
    removed, value_of, with_values, Registry,
};
use crate::tts::{
    by_gender, by_locale, SpeechConfig, SpeechConfigView, TTSDatabase, TTSVoice, TTSVoiceTemplate,
    TTSVoiceView, TemplateView,
};
use vstd::prelude::*;

verus! {

/// The voice in which the bot itself speaks.
#[derive(Debug)]
pub struct BotVoice {
    pub speech_config: SpeechConfig,
}

/// The bot's own voice, unless it is configured otherwise.
pub open spec fn default_bot_voice() -> SpeechConfigView {
    SpeechConfigView {
        voice_name: "Microsoft Server Speech Text to Speech Voice (it-IT, GiuseppeMultilingualNeural)"@,
        audio_format: "audio-24khz-48kbitrate-mono-mp3"@,
        pitch: 40,
        rate: 30,
        volume: 0,
    }
}

impl Default for BotVoice {
    fn default() -> (voice: Self)
        ensures
            voice.speech_config@ == default_bot_voice(),
    {
        BotVoice {
            speech_config: SpeechConfig {
                voice_name: "Microsoft Server Speech Text to Speech Voice (it-IT, GiuseppeMultilingualNeural)".to_owned(),
                audio_format: "audio-24khz-48kbitrate-mono-mp3".to_owned(),
                pitch: 40,
                rate: 30,
                volume: 0,
            },
        }
    }
}

/// A user and the voice that speaks for them.
#[derive(Debug)]
pub struct User {
    pub nickname: String,
    pub speech_config: SpeechConfig,
}

impl User {
    pub fn new(nickname: &str, speech_config: SpeechConfig) -> (user: Self)
        ensures
            user.nickname@ == nickname@,
            user.speech_config == speech_config,
    {
        User { nickname: nickname.to_owned(), speech_config }
    }
}

/// A speech configuration with the pitch, rate and volume of the template,
/// as far as the template gives them.
pub open spec fn with_template(config: SpeechConfigView, template: TemplateView) -> SpeechConfigView {
    SpeechConfigView {
        pitch: match template.pitch {
            Some(pitch) => pitch as int,
            None => config.pitch,
        },
        rate: match template.rate {
            Some(rate) => rate as int,
            None => config.rate,
        },
        volume: match template.volume {
            Some(volume) => volume as int,
            None => config.volume,
        },
        ..config
    }
}

/// A voice that speaks as the template asks.
pub open spec fn templated(voice: TTSVoiceView, template: TemplateView) -> TTSVoiceView {
    TTSVoiceView { speech_config: with_template(voice.speech_config, template), ..voice }
}

/// The voices among which a user's voice is chosen: those of the template's
/// locale, and among them those of its gender.
pub open spec fn candidates(voices: Seq<TTSVoiceView>, template: TemplateView) -> Seq<TTSVoiceView> {
    by_gender(by_locale(voices, template.locale), template.gender)
}

/// Whether `voice` is one of the candidates, speaking as the template asks.
pub open spec fn is_choice(
    voice: TTSVoiceView,
    voices: Seq<TTSVoiceView>,
    template: TemplateView,
) -> bool {
    exists|i: int|
        0 <= i < candidates(voices, template).len() && voice == templated(
            #[trigger] candidates(voices, template)[i],
            template,
        )
}

/// The candidate `index`, speaking as the template asks.
pub fn filter_template_at(database: &TTSDatabase, template: &TTSVoiceTemplate, index: usize) -> (voice:
    TTSVoice)
    requires
        index < candidates(database@, template@).len(),
    ensures
        voice@ == templated(candidates(database@, template@)[index as int], template@),
{
    let narrowed = database.filter_locale(&template.locale).filter_gender(&template.gender);
    apply_template(narrowed.pick(index), template)
}

/// The number of candidates.
pub fn count_candidates(database: &TTSDatabase, template: &TTSVoiceTemplate) -> (n: usize)
    ensures
        n == candidates(database@, template@).len(),
{
    database.filter_locale(&template.locale).filter_gender(&template.gender).len()
}

/// The voice, speaking as the template asks.
pub fn apply_template(voice: TTSVoice, template: &TTSVoiceTemplate) -> (out: TTSVoice)
    ensures
        out@ == templated(voice@, template@),
{
    let mut out = voice;
    if let Some(pitch) = template.pitch {
        out.speech_config.pitch = pitch;
    }
    if let Some(rate) = template.rate {
        out.speech_config.rate = rate;
    }
    if let Some(volume) = template.volume {
        out.speech_config.volume = volume;
    }
    out
}

/// The users, each with the voice that speaks for them.
#[derive(Debug)]
pub struct UserDatabase {
    users: Registry<SpeechConfig>,
}

/// The view of a speech configuration, as a function.
pub open spec fn config_view() -> spec_fn(SpeechConfig) -> SpeechConfigView {
    |config: SpeechConfig| config@
}

impl View for UserDatabase {
    type V = Seq<(Seq<char>, SpeechConfigView)>;

    /// The users by nickname, in the order in which they came.
    closed spec fn view(&self) -> Seq<(Seq<char>, SpeechConfigView)> {
        with_values(self.users@, config_view())
    }
}

impl UserDatabase {
    /// Whether no nickname occurs twice.
    pub closed spec fn wf(&self) -> bool {
        self.users.wf()
    }

    /// No nickname occurs twice.
    pub proof fn lemma_distinct(&self)
        requires
            self.wf(),
        ensures
            distinct_names(self@),
    {
        lemma_with_values(self.users@, config_view(), seq![]);
    }

    /// A database without users.
    pub fn new() -> (database: Self)
        ensures
            database.wf(),
            database@ == Seq::<(Seq<char>, SpeechConfigView)>::empty(),
    {
        let database = UserDatabase { users: Registry::new() };
        assert(database@ =~= Seq::<(Seq<char>, SpeechConfigView)>::empty());
        database
    }

    /// The number of users.
    pub fn len(&self) -> (n: usize)
        ensures
            n == self@.len(),
    {
        self.users.len()
    }

    /// A copy of the user `index`.
    pub fn user(&self, index: usize) -> (user: User)
        requires
            index < self@.len(),
        ensures
            (user.nickname@, user.speech_config@) == self@[index as int],
    {
        let entry = self.users.entry(index);
        User { nickname: entry.0.clone(), speech_config: entry.1.duplicate() }
    }

    /// A copy of the voice of `nickname`, if that user is known.
    pub fn lookup(&self, nickname: &str) -> (config: Option<SpeechConfig>)
        ensures
            match config {
                Some(c) => value_of(self@, nickname@) == Some(c@),
                None => value_of(self@, nickname@) is None,
            },
    {
        match self.users.get(nickname) {
            Some(config) => {
                proof {
                    lemma_with_values(self.users@, config_view(), nickname@);
                }
                Some(config.duplicate())
            },
            None => {
                proof {
                    lemma_with_values(self.users@, config_view(), nickname@);
                }
                None
            },
        }
    }

    /// Gives `nickname` the voice `speech_config`, in place of the voice the
    /// user had, if any.
    pub fn add_user(&mut self, nickname: &str, speech_config: SpeechConfig)
        requires
            old(self).wf(),
        ensures
            final(self).wf(),
            final(self)@ == inserted(old(self)@, nickname@, speech_config@),
    {
        proof {
            lemma_with_values_inserted(self.users@, config_view(), nickname@, speech_config);
        }
        self.users.insert(nickname.to_owned(), speech_config);
    }

    /// Forgets the user `nickname`.
    pub fn remove_user(&mut self, nickname: &str)
        requires
            old(self).wf(),
        ensures
            final(self).wf(),
            final(self)@ == removed(old(self)@, nickname@),
    {
        proof {
            lemma_with_values(self.users@, config_view(), nickname@);
        }
        self.users.remove(nickname);
    }

    /// One of the candidates, by chance, speaking as the template asks.
    pub fn filter_template(&self, database: &TTSDatabase, template: &TTSVoiceTemplate) -> (voice:
        TTSVoice)
        requires
            database@.len() > 0,
        ensures
            is_choice(voice@, database@, template@),
    {
        let narrowed = database.filter_locale(&template.locale).filter_gender(&template.gender);
        let chosen = narrowed.random();
        proof {
            let i = choose|i: int| 0 <= i < narrowed@.len() && narrowed@[i] == chosen@;
            assert(templated(chosen@, template@) == templated(
                candidates(database@, template@)[i],
                template@,
            ));
        }
        apply_template(chosen, template)
    }

    /// A voice for a new user: the speech configuration of one of the
    /// candidates, by chance, as the template asks.
    pub fn create_speech_config(&self, database: &TTSDatabase, template: &TTSVoiceTemplate) -> (config:
        SpeechConfig)
        requires
            database@.len() > 0,
        ensures
            exists|voice: TTSVoiceView|
                #[trigger] is_choice(voice, database@, template@) && voice.speech_config == config@,
    {
        let voice = self.filter_template(database, template);
        assert(is_choice(voice@, database@, template@) && voice@.speech_config
            == voice.speech_config@);
        voice.speech_config
    }

    /// The voice of `nickname`. A user who is not known is given a voice
    /// first, and is known from then on.
    pub fn get_speech_config(
        &mut self,
        nickname: &str,
        database: &TTSDatabase,
        template: &TTSVoiceTemplate,
    ) -> (config: SpeechConfig)
        requires
            old(self).wf(),
            database@.len() > 0,
        ensures
            final(self).wf(),
            match value_of(old(self)@, nickname@) {
                Some(known) => config@ == known && final(self)@ == old(self)@,
                None => final(self)@ == old(self)@.push((nickname@, config@)) && exists|
                    voice: TTSVoiceView,
                |
                    #[trigger] is_choice(voice, database@, template@) && voice.speech_config
                        == config@,
            },
    {
        match self.lookup(nickname) {
            Some(config) => config,
            None => {
                let config = self.create_speech_config(database, template);
                self.add_user(nickname, config.duplicate());
                config
            },
        }
    }

    /// Gives `nickname` a new voice, whatever voice the user had, and
    /// returns it.
    pub fn reset_user_voice(
        &mut self,
        nickname: &str,
        database: &TTSDatabase,
        template: &TTSVoiceTemplate,
    ) -> (config: SpeechConfig)
        requires
            old(self).wf(),
            database@.len() > 0,
        ensures
            final(self).wf(),
            final(self)@ == removed(old(self)@, nickname@).push((nickname@, config@)),
            exists|voice: TTSVoiceView|
                #[trigger] is_choice(voice, database@, template@) && voice.speech_config == config@,
    {
        self.remove_user(nickname);
        let ghost without = self@;
        let config = self.create_speech_config(database, template);
        proof {
            old(self).lemma_distinct();
            lemma_removed(old(self)@, nickname@, nickname@);
        }
        self.add_user(nickname, config.duplicate());
        config
    }
}

} // verus!
