use synthesis::audio::AudioConfig;
use synthesis::engine::config::EngineConfig;
use synthesis::engine::module::PortId;
use synthesis::engine::synth_voice::OscModMode;
use synthesis::Error;

#[test]
fn test_config_default() {
    let config = AudioConfig::default();
    assert_eq!(config.sample_rate, 44100);
    assert_eq!(config.channels, 2);
}

#[test]
fn test_port_id() {
    let p1 = PortId(1);
    let p2 = PortId(1);
    assert_eq!(p1, p2);
}

#[test]
fn test_osc_mod_mode_default() {
    assert_eq!(OscModMode::default(), OscModMode::Off);
}

#[test]
fn engine_config_default() {
    let config = EngineConfig::default();
    assert_eq!(config.sample_rate, 44100);
    assert_eq!(config.buffer_size, 256);
    assert_eq!(config.max_voices, 8);
}

#[test]
fn error_messages() {
    assert_eq!(Error::Audio("x".to_string()).message(), "Audio error: x");
    assert_eq!(Error::Midi("port".to_string()).message(), "MIDI error: port");
    assert_eq!(Error::Preset("p".to_string()).message(), "Preset error: p");
    assert_eq!(Error::Parameter("q".to_string()).message(), "Parameter error: q");
}
