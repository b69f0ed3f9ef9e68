use botox::tts::{
    list_voices, speakable, SpeechConfig, TTSDatabase, TTSGender, TTSVoice, TTSVoiceTemplate, Voice,
};
use botox::users_manager::{
    apply_template, count_candidates, filter_template_at, BotVoice, User, UserDatabase,
};

fn voice(name: &str, gender: Option<&str>, locale: Option<&str>) -> TTSVoice {
    TTSVoice {
        voice_config: Voice {
            name: String::from(name),
            short_name: Some(String::from(name)),
            gender: gender.map(String::from),
            locale: locale.map(String::from),
            suggested_codec: None,
            friendly_name: None,
            status: None,
        },
        speech_config: SpeechConfig {
            voice_name: String::from(name),
            audio_format: String::from("audio-24khz-48kbitrate-mono-mp3"),
            pitch: 0,
            rate: 0,
            volume: 0,
        },
    }
}

fn database() -> TTSDatabase {
    TTSDatabase::from_entries(vec![
        voice("a", Some("Male"), Some("it-IT")),
        voice("b", Some("Female"), Some("it-IT")),
        voice("c", Some("Male"), Some("en-GB")),
        voice("d", None, Some("it-IT")),
        voice("e", Some("Male"), None),
        voice("f", Some("male"), Some("it-IT")),
    ])
}

fn names(database: &TTSDatabase) -> Vec<String> {
    database.voices().iter().map(|v| v.voice_config.name.clone()).collect()
}

#[test]
fn the_gender_filter_keeps_the_voices_of_that_gender_in_order() {
    let all = database();
    assert_eq!(names(&all.filter_gender(&Some(TTSGender::Male))), ["a", "c", "e"]);
    assert_eq!(names(&all.filter_gender(&Some(TTSGender::Female))), ["b"]);
    assert_eq!(names(&all.filter_gender(&None)), ["a", "b", "c", "d", "e", "f"]);
}

#[test]
fn the_locale_filter_keeps_the_voices_of_that_locale_in_order() {
    let all = database();
    assert_eq!(names(&all.filter_locale(&Some(String::from("it-IT")))), ["a", "b", "d", "f"]);
    assert_eq!(names(&all.filter_locale(&Some(String::from("en-GB")))), ["c"]);
    assert_eq!(names(&all.filter_locale(&None)), ["a", "b", "c", "d", "e", "f"]);
}

#[test]
fn a_filter_that_no_voice_meets_leaves_all_voices() {
    let all = database();
    assert_eq!(names(&all.filter_locale(&Some(String::from("xx-XX")))).len(), 6);
    let males = TTSDatabase::from_entries(vec![voice("a", Some("Male"), None)]);
    assert_eq!(names(&males.filter_gender(&Some(TTSGender::Female))), ["a"]);
    let none = TTSDatabase::from_entries(Vec::new());
    assert_eq!(none.filter_gender(&Some(TTSGender::Male)).len(), 0);
}

#[test]
fn a_voice_by_chance_is_one_of_the_voices() {
    let one = TTSDatabase::from_entries(vec![voice("only", None, None)]);
    for _ in 0..20 {
        assert_eq!(one.random().voice_config.name, "only");
    }
    let all = database();
    for _ in 0..50 {
        let name = all.random().voice_config.name;
        assert!(names(&all).contains(&name));
    }
    assert_eq!(all.pick(2).voice_config.name, "c");
}

#[test]
fn genders_have_names() {
    assert_eq!(TTSGender::from("Male"), TTSGender::Male);
    assert_eq!(TTSGender::from("Female"), TTSGender::Female);
    assert_eq!(TTSGender::named("Male"), Some(TTSGender::Male));
    assert_eq!(TTSGender::named("Female"), Some(TTSGender::Female));
    assert_eq!(TTSGender::named("female"), None);
    assert_eq!(TTSGender::named(""), None);
    assert_eq!(TTSGender::Male.name(), "Male");
    assert_eq!(TTSGender::Female.name(), "Female");
    assert_eq!(TTSGender::from_index(0), TTSGender::Male);
    assert_eq!(TTSGender::from_index(1), TTSGender::Female);
    assert_eq!(TTSGender::from_index(9), TTSGender::Female);
    let by_chance = TTSGender::from("whatever");
    assert!(by_chance == TTSGender::Male || by_chance == TTSGender::Female);
    let by_chance = TTSGender::random();
    assert!(by_chance == TTSGender::Male || by_chance == TTSGender::Female);
}

#[test]
fn signs_are_spoken_as_words() {
    assert_eq!(speakable("rock & roll at 100%"), "rock and roll at 100percent");
    assert_eq!(speakable("&&%"), "andandpercent");
    assert_eq!(speakable("plain"), "plain");
    assert_eq!(speakable(""), "");
    assert_eq!(speakable("caffè & tè"), "caffè and tè");
}

#[test]
fn the_voices_are_listed_by_short_name() {
    assert_eq!(list_voices(&database()), "Available voices: a, b, c, d, e, f");
    assert_eq!(list_voices(&TTSDatabase::from_entries(Vec::new())), "Available voices: ");
}

#[test]
fn the_default_template_asks_for_an_italian_male_voice() {
    let template = TTSVoiceTemplate::default();
    assert_eq!(template.locale, Some(String::from("it-IT")));
    assert_eq!(template.gender, Some(TTSGender::Male));
    assert_eq!(template.pitch, Some(-1));
    assert_eq!(template.rate, Some(30));
    assert_eq!(template.volume, Some(1));
}

#[test]
fn the_template_narrows_the_voices_and_sets_pitch_rate_and_volume() {
    let all = database();
    let template = TTSVoiceTemplate::default();
    assert_eq!(count_candidates(&all, &template), 1);
    let chosen = filter_template_at(&all, &template, 0);
    assert_eq!(chosen.voice_config.name, "a");
    assert_eq!(chosen.speech_config.pitch, -1);
    assert_eq!(chosen.speech_config.rate, 30);
    assert_eq!(chosen.speech_config.volume, 1);
    let open = TTSVoiceTemplate { locale: None, gender: None, pitch: None, rate: Some(5), volume: None };
    assert_eq!(count_candidates(&all, &open), 6);
    let chosen = filter_template_at(&all, &open, 3);
    assert_eq!(chosen.voice_config.name, "d");
    assert_eq!((chosen.speech_config.pitch, chosen.speech_config.rate, chosen.speech_config.volume), (0, 5, 0));
    let kept = apply_template(voice("x", None, None), &open);
    assert_eq!(kept.speech_config.voice_name, "x");
}

#[test]
fn a_new_user_is_given_a_voice_and_keeps_it() {
    let all = database();
    let template = TTSVoiceTemplate::default();
    let mut users = UserDatabase::new();
    let first = users.get_speech_config("nick", &all, &template);
    assert_eq!(first.voice_name, "a");
    assert_eq!((first.pitch, first.rate, first.volume), (-1, 30, 1));
    assert_eq!(users.len(), 1);
    let again = users.get_speech_config("nick", &all, &TTSVoiceTemplate { locale: None, gender: None, pitch: None, rate: None, volume: None });
    assert_eq!(again.voice_name, "a");
    assert_eq!(again.pitch, -1);
    assert_eq!(users.len(), 1);
    let chosen = users.filter_template(&all, &template);
    assert_eq!(chosen.voice_config.name, "a");
    assert_eq!(users.create_speech_config(&all, &template).voice_name, "a");
}

#[test]
fn users_are_added_replaced_removed_and_reset() {
    let all = database();
    let mut users = UserDatabase::new();
    users.add_user("one", voice("x", None, None).speech_config);
    users.add_user("two", voice("y", None, None).speech_config);
    users.add_user("one", voice("z", None, None).speech_config);
    assert_eq!(users.len(), 2);
    assert_eq!(users.user(0).nickname, "one");
    assert_eq!(users.user(0).speech_config.voice_name, "z");
    assert_eq!(users.lookup("two").unwrap().voice_name, "y");
    assert!(users.lookup("three").is_none());
    users.remove_user("three");
    assert_eq!(users.len(), 2);
    users.remove_user("one");
    assert_eq!(users.len(), 1);
    assert!(users.lookup("one").is_none());
    assert_eq!(users.user(0).nickname, "two");
    let template = TTSVoiceTemplate { locale: Some(String::from("en-GB")), gender: None, pitch: Some(7), rate: None, volume: None };
    let fresh = users.reset_user_voice("two", &all, &template);
    assert_eq!(fresh.voice_name, "c");
    assert_eq!(fresh.pitch, 7);
    assert_eq!(users.lookup("two").unwrap().voice_name, "c");
    assert_eq!(users.len(), 1);
    let fresh = users.reset_user_voice("new", &all, &template);
    assert_eq!(fresh.voice_name, "c");
    assert_eq!(users.len(), 2);
    assert_eq!(users.user(1).nickname, "new");
}

#[test]
fn a_voice_comes_with_its_speech_configuration() {
    let plain = Voice {
        name: String::from("Microsoft Server Speech Text to Speech Voice (it-IT, ElsaNeural)"),
        short_name: Some(String::from("it-IT-ElsaNeural")),
        gender: Some(String::from("Female")),
        locale: Some(String::from("it-IT")),
        suggested_codec: None,
        friendly_name: None,
        status: Some(String::from("GA")),
    };
    let mut with_codec = plain.duplicate();
    with_codec.name = String::from("other");
    with_codec.suggested_codec = Some(String::from("audio-16khz-32kbitrate-mono-mp3"));
    let database = TTSDatabase::new(vec![plain, with_codec]);
    assert_eq!(database.len(), 2);
    let first = database.pick(0);
    assert_eq!(first.voice_config.short_name, Some(String::from("it-IT-ElsaNeural")));
    assert_eq!(
        first.speech_config.voice_name,
        "Microsoft Server Speech Text to Speech Voice (it-IT, ElsaNeural)"
    );
    assert_eq!(first.speech_config.audio_format, "audio-24khz-48kbitrate-mono-mp3");
    assert_eq!((first.speech_config.pitch, first.speech_config.rate, first.speech_config.volume), (0, 0, 0));
    let second = database.pick(1);
    assert_eq!(second.speech_config.voice_name, "other");
    assert_eq!(second.speech_config.audio_format, "audio-16khz-32kbitrate-mono-mp3");
    assert_eq!(TTSDatabase::new(Vec::new()).len(), 0);
}

#[test]
fn the_bot_has_a_voice_of_its_own() {
    let bot = BotVoice::default();
    assert_eq!(
        bot.speech_config.voice_name,
        "Microsoft Server Speech Text to Speech Voice (it-IT, GiuseppeMultilingualNeural)"
    );
    assert_eq!(bot.speech_config.audio_format, "audio-24khz-48kbitrate-mono-mp3");
    assert_eq!((bot.speech_config.pitch, bot.speech_config.rate, bot.speech_config.volume), (40, 30, 0));
    let user = User::new("nick", bot.speech_config);
    assert_eq!(user.nickname, "nick");
    assert_eq!(user.speech_config.pitch, 40);
}
