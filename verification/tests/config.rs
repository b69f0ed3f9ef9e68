use botox::audio_player::{pcm_bytes, CHANNELS, SAMPLE_RATE};
use botox::config_manager::{config_file_name, config_source, filename, ConfigSource};
use botox::registry::Registry;
use botox::tts_player::TTSAudioMessage;
use botox::Args;

#[test]
fn a_configuration_file_is_named_after_its_stem() {
    assert_eq!(filename("twitch_client"), "twitch_client_config.toml");
    assert_eq!(filename(""), "_config.toml");
}

#[test]
fn a_types_configuration_file_is_named_after_the_last_segment_of_its_path() {
    assert_eq!(config_file_name("botox::twitch_client::TwitchClient"), "TwitchClient_config.toml");
    assert_eq!(config_file_name("UserDatabase"), "UserDatabase_config.toml");
    assert_eq!(config_file_name("a::"), "_config.toml");
    assert_eq!(config_file_name("a:::b"), "b_config.toml");
    assert_eq!(config_file_name(""), "_config.toml");
    for path in ["x::y", "::", "a:b", "a::b::c", ":::"] {
        let stem = path.rsplit("::").next().unwrap();
        assert_eq!(config_file_name(path), format!("{}_config.toml", stem));
    }
}

#[test]
fn a_configuration_comes_from_its_file_or_is_the_default() {
    assert_eq!(config_source(true, true), ConfigSource::Stored);
    assert_eq!(config_source(true, false), ConfigSource::DefaultKept);
    assert_eq!(config_source(false, false), ConfigSource::DefaultSaved);
    assert_eq!(config_source(false, true), ConfigSource::DefaultSaved);
}

#[test]
fn samples_become_bytes_low_byte_first() {
    assert_eq!(
        pcm_bytes(&vec![0, 1, -1, 256, -256, i16::MAX, i16::MIN, 0x1234]),
        vec![0, 0, 1, 0, 255, 255, 0, 1, 0, 255, 255, 127, 0, 128, 0x34, 0x12]
    );
    assert_eq!(pcm_bytes(&Vec::new()), Vec::<u8>::new());
    for sample in [i16::MIN, -12345, -2, 77, 30000] {
        assert_eq!(pcm_bytes(&vec![sample]), sample.to_le_bytes().to_vec());
    }
    assert_eq!(SAMPLE_RATE, 24000);
    assert_eq!(CHANNELS, 1);
}

#[test]
fn audio_travels_as_bytes() {
    let message = TTSAudioMessage { timestamp: 1, audio: vec![1, 2, 3] };
    assert_eq!(message.clone(), message);
    let _args = Args {};
}

#[test]
fn a_registry_keeps_one_value_for_each_name() {
    let mut registry: Registry<u32> = Registry::new();
    assert_eq!(registry.insert(String::from("a"), 1), None);
    assert_eq!(registry.insert(String::from("b"), 2), None);
    assert_eq!(registry.insert(String::from("a"), 3), Some(1));
    assert_eq!(registry.len(), 2);
    assert_eq!(registry.get("a"), Some(&3));
    assert_eq!(registry.get("c"), None);
    assert_eq!(registry.position("b"), Some(1));
    assert_eq!(registry.entry(0), (&String::from("a"), &3));
    assert_eq!(registry.remove("a"), Some(3));
    assert_eq!(registry.remove("a"), None);
    assert_eq!(registry.position("b"), Some(0));
    assert_eq!(registry.len(), 1);
}
