//! Voices for speech: the catalogue of voices, the filters that narrow it,
//! and the text that is handed to the synthesizer.
//!
//! The synthesizer itself is a service outside this library. Its catalogue
//! arrives as plain values, and what goes to it is a text and a speech
//! configuration. The speech configuration that a voice comes with is made by
//! the synthesizer's own crate.

use crate::chance::random_below;
use crate::commands::COMMAND_PREFIX;
use crate::irc_parser::{IrcMessage, IrcMessageView};
use crate::text::{chars_of, join, same_text, starts_with};
use vstd::prelude::*;
use vstd::string::*;

verus! {

/// The gender of a voice.
#[derive(Debug, Clone, Copy, PartialEq, Eq)]
pub enum TTSGender {
    Male,
    Female,
}

/// The name of a gender, as the catalogue writes it.
pub open spec fn gender_name(gender: TTSGender) -> Seq<char> {
    match gender {
        TTSGender::Male => "Male"@,
        TTSGender::Female => "Female"@,
    }
}

/// The gender that `value` names, if it names one.
pub open spec fn gender_named(value: Seq<char>) -> Option<TTSGender> {
    if value == "Male"@ {
        Some(TTSGender::Male)
    } else if value == "Female"@ {
        Some(TTSGender::Female)
    } else {
        None
    }
}

impl TTSGender {
    /// The gender for a number: `Male` for zero, `Female` for any other.
    pub fn from_index(index: usize) -> (gender: Self)
        ensures
            gender == if index == 0 {
                TTSGender::Male
            } else {
                TTSGender::Female
            },
    {
        if index == 0 {
            TTSGender::Male
        } else {
            TTSGender::Female
        }
    }

    /// A gender by chance.
    pub fn random() -> Self {
        TTSGender::from_index(random_below(2))
    }

    /// The gender that `value` names, if it names one.
    pub fn named(value: &str) -> (gender: Option<Self>)
        ensures
            gender == gender_named(value@),
    {
        if same_text(value, "Male") {
            Some(TTSGender::Male)
        } else if same_text(value, "Female") {
            Some(TTSGender::Female)
        } else {
            None
        }
    }

    /// The gender that `value` names; where it names none, a gender by
    /// chance.
    pub fn from(value: &str) -> (gender: Self)
        ensures
            gender_named(value@) matches Some(named) ==> gender == named,
    {
        match TTSGender::named(value) {
            Some(gender) => gender,
            None => TTSGender::random(),
        }
    }

    /// The name of the gender, as the catalogue writes it.
    pub fn name(self) -> (name: String)
        ensures
            name@ == gender_name(self),
    {
        match self {
            TTSGender::Male => "Male".to_owned(),
            TTSGender::Female => "Female".to_owned(),
        }
    }
}

/// The text of an optional string.
pub open spec fn opt_view(text: Option<String>) -> Option<Seq<char>> {
    match text {
        Some(s) => Some(s@),
        None => None,
    }
}

/// A copy of an optional string.
pub fn clone_opt(text: &Option<String>) -> (copy: Option<String>)
    ensures
        opt_view(copy) == opt_view(*text),
{
    match text {
        Some(s) => Some(s.clone()),
        None => None,
    }
}

/// One voice of the catalogue, as far as this library reads it.
#[derive(Debug)]
pub struct Voice {
    pub name: String,
    pub short_name: Option<String>,
    pub gender: Option<String>,
    pub locale: Option<String>,
    pub suggested_codec: Option<String>,
    pub friendly_name: Option<String>,
    pub status: Option<String>,
}

/// A `Voice` as plain text.
pub ghost struct VoiceView {
    pub name: Seq<char>,
    pub short_name: Option<Seq<char>>,
    pub gender: Option<Seq<char>>,
    pub locale: Option<Seq<char>>,
    pub suggested_codec: Option<Seq<char>>,
    pub friendly_name: Option<Seq<char>>,
    pub status: Option<Seq<char>>,
}

impl View for Voice {
    type V = VoiceView;

    open spec fn view(&self) -> VoiceView {
        VoiceView {
            name: self.name@,
            short_name: opt_view(self.short_name),
            gender: opt_view(self.gender),
            locale: opt_view(self.locale),
            suggested_codec: opt_view(self.suggested_codec),
            friendly_name: opt_view(self.friendly_name),
            status: opt_view(self.status),
        }
    }
}

impl Voice {
    /// A copy of the voice.
    pub fn duplicate(&self) -> (copy: Self)
        ensures
            copy@ == self@,
    {
        Voice {
            name: self.name.clone(),
            short_name: clone_opt(&self.short_name),
            gender: clone_opt(&self.gender),
            locale: clone_opt(&self.locale),
            suggested_codec: clone_opt(&self.suggested_codec),
            friendly_name: clone_opt(&self.friendly_name),
            status: clone_opt(&self.status),
        }
    }
}

/// How to speak: which voice, in which audio format, and how far pitch, rate
/// and volume are moved from the voice's own.
#[derive(Debug)]
pub struct SpeechConfig {
    pub voice_name: String,
    pub audio_format: String,
    pub pitch: i32,
    pub rate: i32,
    pub volume: i32,
}

/// A `SpeechConfig` as plain values.
pub ghost struct SpeechConfigView {
    pub voice_name: Seq<char>,
    pub audio_format: Seq<char>,
    pub pitch: int,
    pub rate: int,
    pub volume: int,
}

impl View for SpeechConfig {
    type V = SpeechConfigView;

    open spec fn view(&self) -> SpeechConfigView {
        SpeechConfigView {
            voice_name: self.voice_name@,
            audio_format: self.audio_format@,
            pitch: self.pitch as int,
            rate: self.rate as int,
            volume: self.volume as int,
        }
    }
}

impl SpeechConfig {
    /// A copy of the configuration.
    pub fn duplicate(&self) -> (copy: Self)
        ensures
            copy@ == self@,
    {
        SpeechConfig {
            voice_name: self.voice_name.clone(),
            audio_format: self.audio_format.clone(),
            pitch: self.pitch,
            rate: self.rate,
            volume: self.volume,
        }
    }
}

/// The speech configuration that a voice comes with: the voice by its name,
/// in the audio format that the catalogue suggests for it, or in MP3 at 24
/// kHz where it suggests none, with pitch, rate and volume unchanged.
pub open spec fn preset_speech(voice: VoiceView) -> SpeechConfigView {
    SpeechConfigView {
        voice_name: voice.name,
        audio_format: match voice.suggested_codec {
            Some(codec) => codec,
            None => "audio-24khz-48kbitrate-mono-mp3"@,
        },
        pitch: 0,
        rate: 0,
        volume: 0,
    }
}

/// The speech configuration that the synthesizer's crate makes for a voice,
/// by `msedge_tts::tts::SpeechConfig::from(&Voice)`. That function reads the
/// voice's name and suggested codec, and sets pitch, rate and volume to zero.
#[verifier::external_body]
fn speech_config_of(voice: &Voice) -> (config: SpeechConfig)
    ensures
        config@ == preset_speech(voice@),
{
    let outside = msedge_tts::voice::Voice {
        name: voice.name.clone(), short_name: voice.short_name.clone(),
        gender: voice.gender.clone(), locale: voice.locale.clone(),
        suggested_codec: voice.suggested_codec.clone(),
        friendly_name: voice.friendly_name.clone(), status: voice.status.clone(),
        voice_tag: None,
    };
    let made = msedge_tts::tts::SpeechConfig::from(&outside);
    SpeechConfig {
        voice_name: made.voice_name, audio_format: made.audio_format,
        pitch: made.pitch, rate: made.rate, volume: made.volume,
    }
}

/// A voice with the configuration that speaks in it.
#[derive(Debug)]
pub struct TTSVoice {
    pub voice_config: Voice,
    pub speech_config: SpeechConfig,
}

/// A `TTSVoice` as plain values.
pub ghost struct TTSVoiceView {
    pub voice_config: VoiceView,
    pub speech_config: SpeechConfigView,
}

impl View for TTSVoice {
    type V = TTSVoiceView;

    open spec fn view(&self) -> TTSVoiceView {
        TTSVoiceView { voice_config: self.voice_config@, speech_config: self.speech_config@ }
    }
}

impl TTSVoice {
    /// A copy of the voice.
    pub fn duplicate(&self) -> (copy: Self)
        ensures
            copy@ == self@,
    {
        TTSVoice {
            voice_config: self.voice_config.duplicate(),
            speech_config: self.speech_config.duplicate(),
        }
    }
}

/// The voices as plain values.
pub open spec fn voice_views(voices: Seq<TTSVoice>) -> Seq<TTSVoiceView> {
    Seq::new(voices.len(), |i: int| voices[i]@)
}

/// Whether a voice has the gender of the given name.
pub open spec fn has_gender(name: Seq<char>) -> spec_fn(TTSVoiceView) -> bool {
    |v: TTSVoiceView| v.voice_config.gender == Some(name)
}

/// Whether a voice has the given locale.
pub open spec fn has_locale(locale: Seq<char>) -> spec_fn(TTSVoiceView) -> bool {
    |v: TTSVoiceView| v.voice_config.locale == Some(locale)
}

/// The voices that are wanted, in their order; all voices where none is
/// wanted.
pub open spec fn narrowed(voices: Seq<TTSVoiceView>, wanted: spec_fn(TTSVoiceView) -> bool) -> Seq<
    TTSVoiceView,
> {
    if voices.filter(wanted).len() == 0 {
        voices
    } else {
        voices.filter(wanted)
    }
}

/// The voices of the given gender, where one is given and some voice has
/// it; all voices otherwise.
pub open spec fn by_gender(voices: Seq<TTSVoiceView>, gender: Option<TTSGender>) -> Seq<
    TTSVoiceView,
> {
    match gender {
        Some(g) => narrowed(voices, has_gender(gender_name(g))),
        None => voices,
    }
}

/// The voices of the given locale, where one is given and some voice has
/// it; all voices otherwise.
pub open spec fn by_locale(voices: Seq<TTSVoiceView>, locale: Option<Seq<char>>) -> Seq<
    TTSVoiceView,
> {
    match locale {
        Some(l) => narrowed(voices, has_locale(l)),
        None => voices,
    }
}

/// Which field of a voice a filter looks at.
#[derive(Clone, Copy)]
enum Field {
    Gender,
    Locale,
}

/// What a filter on `field` for `wanted` asks of a voice.
spec fn asks(field: Field, wanted: Seq<char>) -> spec_fn(TTSVoiceView) -> bool {
    match field {
        Field::Gender => has_gender(wanted),
        Field::Locale => has_locale(wanted),
    }
}

/// Copies of the voices whose `field` is `wanted`, in their order.
fn matching(voices: &Vec<TTSVoice>, field: Field, wanted: &str) -> (found: Vec<TTSVoice>)
    ensures
        voice_views(found@) == voice_views(voices@).filter(asks(field, wanted@)),
{
    let ghost all = voice_views(voices@);
    let ghost ask = asks(field, wanted@);
    let mut found: Vec<TTSVoice> = Vec::new();
    let mut k: usize = 0;
    assert(voice_views(found@) =~= all.take(0).filter(ask)) by {
        reveal(Seq::filter);
    }
    while k < voices.len()
        invariant
            k <= voices.len(),
            all == voice_views(voices@),
            ask == asks(field, wanted@),
            voice_views(found@) == all.take(k as int).filter(ask),
        decreases voices.len() - k,
    {
        let voice = &voices[k];
        let value = match field {
            Field::Gender => &voice.voice_config.gender,
            Field::Locale => &voice.voice_config.locale,
        };
        let matches = match value {
            Some(text) => same_text(text.as_str(), wanted),
            None => false,
        };
        let ghost before = voice_views(found@);
        proof {
            reveal(Seq::filter);
            assert(all.take(k + 1).drop_last() =~= all.take(k as int));
            assert(all.take(k + 1).last() == voice@);
            assert(matches == ask(voice@));
        }
        if matches {
            found.push(voice.duplicate());
            assert(voice_views(found@) =~= before.push(voice@));
        }
        k += 1;
    }
    assert(all.take(voices.len() as int) =~= all);
    found
}

/// Copies of the voices, in their order.
fn duplicates(voices: &Vec<TTSVoice>) -> (copies: Vec<TTSVoice>)
    ensures
        voice_views(copies@) == voice_views(voices@),
{
    let mut copies: Vec<TTSVoice> = Vec::new();
    let mut k: usize = 0;
    while k < voices.len()
        invariant
            k <= voices.len(),
            copies@.len() == k,
            forall|i: int| 0 <= i < k ==> (#[trigger] copies@[i])@ == voices@[i]@,
        decreases voices.len() - k,
    {
        copies.push(voices[k].duplicate());
        k += 1;
    }
    assert(voice_views(copies@) =~= voice_views(voices@));
    copies
}

/// The catalogue of voices.
#[derive(Debug)]
pub struct TTSDatabase {
    tts_configs: Vec<TTSVoice>,
}

impl View for TTSDatabase {
    type V = Seq<TTSVoiceView>;

    closed spec fn view(&self) -> Seq<TTSVoiceView> {
        voice_views(self.tts_configs@)
    }
}

/// The catalogue entries of the voices: each voice with the speech
/// configuration that it comes with.
pub open spec fn catalogue(voices: Seq<Voice>) -> Seq<TTSVoiceView> {
    Seq::new(
        voices.len(),
        |i: int| TTSVoiceView { voice_config: voices[i]@, speech_config: preset_speech(voices[i]@) },
    )
}

impl TTSDatabase {
    /// The catalogue of the given voices, each with the speech configuration
    /// that it comes with.
    pub fn new(voices: Vec<Voice>) -> (database: Self)
        ensures
            database@ == catalogue(voices@),
    {
        let mut tts_configs: Vec<TTSVoice> = Vec::new();
        let mut k: usize = 0;
        while k < voices.len()
            invariant
                k <= voices.len(),
                tts_configs@.len() == k,
                forall|i: int|
                    0 <= i < k ==> (#[trigger] tts_configs@[i])@ == catalogue(voices@)[i],
            decreases voices.len() - k,
        {
            let voice = voices[k].duplicate();
            let speech_config = speech_config_of(&voice);
            tts_configs.push(TTSVoice { voice_config: voice, speech_config });
            k += 1;
        }
        let database = TTSDatabase { tts_configs };
        assert(database@ =~= catalogue(voices@));
        database
    }

    /// The catalogue of the given entries.
    pub fn from_entries(entries: Vec<TTSVoice>) -> (database: Self)
        ensures
            database@ == voice_views(entries@),
    {
        TTSDatabase { tts_configs: entries }
    }

    /// The voices of the catalogue.
    pub fn voices(&self) -> (voices: &Vec<TTSVoice>)
        ensures
            voice_views(voices@) == self@,
    {
        &self.tts_configs
    }

    /// The number of voices.
    pub fn len(&self) -> (n: usize)
        ensures
            n == self@.len(),
    {
        self.tts_configs.len()
    }

    /// The catalogue narrowed to the voices of `gender`. Where no gender is
    /// given, or no voice has it, the catalogue stays as it is.
    pub fn filter_gender(&self, gender: &Option<TTSGender>) -> (database: TTSDatabase)
        ensures
            database@ == by_gender(self@, *gender),
    {
        match gender {
            None => TTSDatabase { tts_configs: duplicates(&self.tts_configs) },
            Some(g) => {
                let name = g.name();
                let found = matching(&self.tts_configs, Field::Gender, name.as_str());
                if found.len() == 0 {
                    TTSDatabase { tts_configs: duplicates(&self.tts_configs) }
                } else {
                    TTSDatabase { tts_configs: found }
                }
            },
        }
    }

    /// The catalogue narrowed to the voices of `locale`. Where no locale is
    /// given, or no voice has it, the catalogue stays as it is.
    pub fn filter_locale(&self, locale: &Option<String>) -> (database: TTSDatabase)
        ensures
            database@ == by_locale(self@, opt_view(*locale)),
    {
        match locale {
            None => TTSDatabase { tts_configs: duplicates(&self.tts_configs) },
            Some(l) => {
                let found = matching(&self.tts_configs, Field::Locale, l.as_str());
                if found.len() == 0 {
                    TTSDatabase { tts_configs: duplicates(&self.tts_configs) }
                } else {
                    TTSDatabase { tts_configs: found }
                }
            },
        }
    }

    /// A copy of the voice `index`.
    pub fn pick(&self, index: usize) -> (voice: TTSVoice)
        requires
            index < self@.len(),
        ensures
            voice@ == self@[index as int],
    {
        self.tts_configs[index].duplicate()
    }

    /// A copy of one of the voices, by chance.
    pub fn random(&self) -> (voice: TTSVoice)
        requires
            self@.len() > 0,
        ensures
            self@.contains(voice@),
    {
        let index = random_below(self.tts_configs.len());
        self.pick(index)
    }
}

/// A text to speak, and how.
#[derive(Debug)]
pub struct TTSMessage {
    pub timestamp: i64,
    pub message: String,
    pub user_speech_config: SpeechConfig,
}

/// What a user may ask of the voice that is chosen for them. What is not
/// given is left to the voice.
#[derive(Debug)]
pub struct TTSVoiceTemplate {
    pub locale: Option<String>,
    pub gender: Option<TTSGender>,
    pub pitch: Option<i32>,
    pub rate: Option<i32>,
    pub volume: Option<i32>,
}

/// A `TTSVoiceTemplate` as plain values.
pub ghost struct TemplateView {
    pub locale: Option<Seq<char>>,
    pub gender: Option<TTSGender>,
    pub pitch: Option<i32>,
    pub rate: Option<i32>,
    pub volume: Option<i32>,
}

impl View for TTSVoiceTemplate {
    type V = TemplateView;

    open spec fn view(&self) -> TemplateView {
        TemplateView {
            locale: opt_view(self.locale),
            gender: self.gender,
            pitch: self.pitch,
            rate: self.rate,
            volume: self.volume,
        }
    }
}

impl Default for TTSVoiceTemplate {
    fn default() -> (template: Self)
        ensures
            template@ == (TemplateView {
                locale: Some("it-IT"@),
                gender: Some(TTSGender::Male),
                pitch: Some(-1i32),
                rate: Some(30i32),
                volume: Some(1i32),
            }),
    {
        TTSVoiceTemplate {
            locale: Some("it-IT".to_owned()),
            gender: Some(TTSGender::Male),
            pitch: Some(-1),
            rate: Some(30),
            volume: Some(1),
        }
    }
}

/// What is spoken in place of the character `c`.
pub open spec fn spoken(c: char) -> Seq<char> {
    if c == '&' {
        "and"@
    } else if c == '%' {
        "percent"@
    } else {
        seq![c]
    }
}

/// The text that is spoken for `text`: the signs that the synthesizer cannot
/// take are written out as words.
pub open spec fn speakable_spec(text: Seq<char>) -> Seq<char>
    decreases text.len(),
{
    if text.len() == 0 {
        seq![]
    } else {
        speakable_spec(text.drop_last()) + spoken(text.last())
    }
}

/// The text that is spoken for `text`.
pub fn speakable(text: &str) -> (out: String)
    ensures
        out@ == speakable_spec(text@),
{
    let v = chars_of(text);
    let mut out = String::new();
    let mut k: usize = 0;
    assert(v@.take(0) =~= Seq::<char>::empty());
    while k < v.len()
        invariant
            k <= v.len(),
            out@ == speakable_spec(v@.take(k as int)),
        decreases v.len() - k,
    {
        let c = v[k];
        proof {
            assert(v@.take(k + 1).drop_last() =~= v@.take(k as int));
            assert(v@.take(k + 1).last() == c);
        }
        if c == '&' {
            out.append("and");
        } else if c == '%' {
            out.append("percent");
        } else {
            out.push(c);
            assert(out@ =~= speakable_spec(v@.take(k as int)) + seq![c]);
        }
        k += 1;
    }
    assert(v@.take(v.len() as int) =~= v@);
    out
}

/// The short names of the voices, an empty text for a voice without one.
pub open spec fn short_names(voices: Seq<TTSVoiceView>) -> Seq<Seq<char>> {
    Seq::new(
        voices.len(),
        |i: int|
            match voices[i].voice_config.short_name {
                Some(name) => name,
                None => seq![],
            },
    )
}

/// The answer to whoever asks which voices there are.
pub open spec fn voices_line(voices: Seq<TTSVoiceView>) -> Seq<char> {
    "Available voices: "@ + join(short_names(voices), ", "@)
}

/// The answer to whoever asks which voices there are: their short names,
/// with commas between.
pub fn list_voices(database: &TTSDatabase) -> (line: String)
    ensures
        line@ == voices_line(database@),
{
    let ghost names = short_names(database@);
    let mut line = "Available voices: ".to_owned();
    let mut k: usize = 0;
    assert(names.take(0) =~= Seq::<Seq<char>>::empty());
    assert("Available voices: "@ + join(names.take(0), ", "@) =~= "Available voices: "@);
    while k < database.tts_configs.len()
        invariant
            k <= database.tts_configs.len() == names.len(),
            names == short_names(database@),
            line@ == "Available voices: "@ + join(names.take(k as int), ", "@),
        decreases database.tts_configs.len() - k,
    {
        proof {
            assert(names.take(k + 1).drop_last() =~= names.take(k as int));
            assert(names.take(k + 1).last() == names[k as int]);
        }
        let ghost so_far = line@;
        if k > 0 {
            line.append(", ");
        }
        match &database.tts_configs[k].voice_config.short_name {
            Some(name) => {
                line.append(name.as_str());
            },
            None => {},
        }
        assert(line@ =~= "Available voices: "@ + join(names.take(k + 1), ", "@));
        k += 1;
    }
    assert(names.take(names.len() as int) =~= names);
    line
}

/// What of a message is read aloud, and for whom: the text of a chat line
/// that is no command, with its sender.
pub open spec fn utterance_spec(message: IrcMessageView) -> Option<(Seq<char>, Seq<char>)> {
    if message.context.command == "PRIVMSG"@ && !COMMAND_PREFIX@.is_prefix_of(message.payload) {
        Some((message.context.sender, message.payload))
    } else {
        None
    }
}

/// What of `message` is read aloud, if anything: the sender, in whose voice
/// it is read, and the text.
pub fn utterance_of(message: &IrcMessage) -> (utterance: Option<(String, String)>)
    ensures
        match utterance {
            Some((sender, text)) => utterance_spec(message@) == Some((sender@, text@)),
            None => utterance_spec(message@) is None,
        },
{
    let privmsg = "PRIVMSG".to_owned();
    if !(message.context.command == privmsg) {
        return None;
    }
    let v = chars_of(message.payload.as_str());
    let prefix = chars_of(COMMAND_PREFIX);
    assert(v@.subrange(0, v.len() as int) =~= v@);
    if starts_with(&v, 0, v.len(), &prefix) {
        None
    } else {
        Some((message.context.sender.clone(), message.payload.clone()))
    }
}

} // verus!
