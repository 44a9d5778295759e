use synthesis::engine::synth_voice::{PlayMode, StealMode as SynthStealMode, VoiceAction, VoiceAllocator};
use synthesis::engine::voice::{StealMode, Voice, VoiceManager};

fn level(velocity: f32) -> u32 {
    velocity.to_bits()
}

#[test]
fn test_voice_new() {
    let voice = Voice::new();
    assert!(!voice.active);
    assert!(!voice.gate);
}

#[test]
fn test_voice_trigger() {
    let mut voice = Voice::new();
    voice.trigger(60, level(0.8));
    assert!(voice.active);
    assert!(voice.gate);
    assert_eq!(voice.note, 60);
}

#[test]
fn test_voice_release() {
    let mut voice = Voice::new();
    voice.trigger(60, level(0.8));
    voice.release();
    assert!(!voice.gate);
    assert!(voice.active);
}

#[test]
fn voice_test_voice_manager_new() {
    let vm = VoiceManager::new(8);
    assert_eq!(vm.active_count(), 0);
}

#[test]
fn voice_test_voice_manager_note_on() {
    let mut vm = VoiceManager::new(4);
    let idx = vm.note_on(60, level(0.8));
    assert!(idx.is_some());
    assert_eq!(vm.active_count(), 1);
}

#[test]
fn voice_test_voice_manager_note_off() {
    let mut vm = VoiceManager::new(4);
    vm.note_on(60, level(0.8));
    vm.note_off(60);
    assert_eq!(vm.active_count(), 1);
}

#[test]
fn voice_test_voice_manager_polyphony() {
    let mut vm = VoiceManager::new(4);
    vm.note_on(60, level(0.8));
    vm.note_on(64, level(0.8));
    vm.note_on(67, level(0.8));
    assert_eq!(vm.active_count(), 3);
}

#[test]
fn pool_steals_by_mode() {
    let mut vm = VoiceManager::new(3);
    vm.note_on(60, level(0.5));
    vm.note_on(72, level(0.2));
    vm.note_on(66, level(0.9));
    assert_eq!(vm.note_on(50, level(0.5)), Some(0));
    vm.set_steal_mode(StealMode::Lowest);
    assert_eq!(vm.note_on(80, level(0.5)), Some(0));
    vm.set_steal_mode(StealMode::Highest);
    assert_eq!(vm.note_on(40, level(0.5)), Some(0));
    vm.set_steal_mode(StealMode::Quietest);
    assert_eq!(vm.note_on(41, level(0.5)), Some(1));
    assert_eq!(vm.voices()[1].note, 41);
    assert_eq!(VoiceManager::new(0).note_on(60, 1), None);
}

#[test]
fn pool_reuses_finished_voices() {
    let mut vm = VoiceManager::new(2);
    vm.note_on(60, 1);
    vm.note_on(62, 1);
    vm.voice_finished(0);
    assert_eq!(vm.active_voices(), vec![1]);
    assert_eq!(vm.note_on(64, 1), Some(0));
    assert_eq!(vm.active_voices(), vec![0, 1]);
}

fn sounding_notes(a: &VoiceAllocator) -> Vec<u8> {
    a.slots().iter().filter(|s| s.active).map(|s| s.note).collect()
}

#[test]
fn synth_voice_test_voice_manager_new() {
    let a = VoiceAllocator::new(8);
    assert_eq!(a.active_count(), 0);
}

#[test]
fn synth_voice_test_voice_manager_note_on() {
    let mut a = VoiceAllocator::new(4);
    a.note_on(60, level(0.8));
    assert_eq!(a.active_count(), 1);
}

#[test]
fn synth_voice_test_voice_manager_note_off() {
    let mut a = VoiceAllocator::new(4);
    a.note_on(60, level(0.8));
    a.note_off(60, level(0.8));
    assert_eq!(a.active_count(), 1);
}

#[test]
fn synth_voice_test_voice_manager_polyphony() {
    let mut a = VoiceAllocator::new(4);
    a.note_on(60, level(0.8));
    a.note_on(64, level(0.8));
    a.note_on(67, level(0.8));
    assert_eq!(a.active_count(), 3);
}

#[test]
fn test_voice_manager_voice_stealing() {
    let mut a = VoiceAllocator::new(2);
    a.note_on(60, level(0.8));
    a.note_on(64, level(0.8));
    a.note_on(67, level(0.8));
    assert_eq!(a.active_count(), 2);
}

#[test]
fn test_voice_manager_mono_mode() {
    let mut a = VoiceAllocator::new(4);
    a.set_play_mode(PlayMode::Mono);
    a.note_on(60, level(0.8));
    a.note_on(64, level(0.8));
    assert_eq!(a.active_count(), 1);
    assert_eq!(a.slots()[0].note, 64);
}

#[test]
fn test_voice_manager_legato() {
    let mut a = VoiceAllocator::new(4);
    a.set_play_mode(PlayMode::Legato);
    a.note_on(60, level(0.8));
    let acts = a.note_on(64, level(0.8));
    assert_eq!(acts, vec![VoiceAction::Glide { voice: 0, note: 64 }]);
    assert_eq!(a.active_count(), 1);
    assert_eq!(a.slots()[0].note, 64);
}

#[test]
fn test_steal_mode_lowest() {
    let mut a = VoiceAllocator::new(2);
    a.set_steal_mode(SynthStealMode::Lowest);
    a.note_on(60, level(0.8));
    a.note_on(72, level(0.8));
    a.note_on(66, level(0.8));
    assert!(!sounding_notes(&a).contains(&60));
}

#[test]
fn test_steal_mode_highest() {
    let mut a = VoiceAllocator::new(2);
    a.set_steal_mode(SynthStealMode::Highest);
    a.note_on(60, level(0.8));
    a.note_on(72, level(0.8));
    a.note_on(66, level(0.8));
    assert!(!sounding_notes(&a).contains(&72));
}

#[test]
fn oldest_and_quietest_stealing() {
    let mut a = VoiceAllocator::new(2);
    assert_eq!(a.note_on(60, level(0.9)), vec![VoiceAction::Trigger { voice: 0, note: 60, age: 1 }]);
    assert_eq!(a.note_on(62, level(0.3)), vec![VoiceAction::Trigger { voice: 1, note: 62, age: 2 }]);
    assert_eq!(a.note_on(64, level(0.5)), vec![VoiceAction::Trigger { voice: 0, note: 64, age: 3 }]);
    a.set_steal_mode(SynthStealMode::Quietest);
    assert_eq!(a.find_steal_voice(), Some(1));
    assert_eq!(a.note_on(65, level(0.7)), vec![VoiceAction::Trigger { voice: 1, note: 65, age: 4 }]);
}

#[test]
fn poly_note_off_releases_matching_voices() {
    let mut a = VoiceAllocator::new(3);
    a.note_on(60, 1);
    a.note_on(62, 1);
    a.note_on(60, 1);
    assert_eq!(a.note_off(60, 1), vec![VoiceAction::Release { voice: 0 }, VoiceAction::Release { voice: 2 }]);
    assert!(a.slots()[1].gate);
    assert!(!a.slots()[0].gate && a.slots()[0].active);
    a.voice_finished(0);
    assert_eq!(a.active_count(), 2);
}

#[test]
fn mono_note_off_returns_to_held_note() {
    let mut a = VoiceAllocator::new(2);
    a.set_play_mode(PlayMode::Mono);
    a.note_on(60, 1);
    a.note_on(64, 1);
    assert_eq!(a.note_off(64, 7), vec![VoiceAction::Trigger { voice: 0, note: 60, age: 3 }]);
    assert_eq!(a.slots()[0].level, 7);
    assert_eq!(a.note_off(62, 7), vec![]);
    assert_eq!(a.note_off(60, 7), vec![VoiceAction::Release { voice: 0 }]);
    assert!(!a.slots()[0].gate);
}

#[test]
fn legato_note_off_glides_back() {
    let mut a = VoiceAllocator::new(1);
    a.set_play_mode(PlayMode::Legato);
    a.note_on(60, 1);
    a.note_on(67, 1);
    assert_eq!(a.note_off(67, 1), vec![VoiceAction::Glide { voice: 0, note: 60 }]);
    assert_eq!(a.slots()[0].note, 60);
}

#[test]
fn note_off_retakes_only_for_the_last_mono_note() {
    let mut a = VoiceAllocator::new(1);
    a.set_play_mode(PlayMode::Mono);
    a.note_on(60, level(0.5));
    assert!(!a.note_off_retakes(60));
    a.note_on(64, level(0.5));
    assert!(a.note_off_retakes(64));
    assert!(!a.note_off_retakes(60));
    let mut p = VoiceAllocator::new(1);
    p.note_on(60, level(0.5));
    p.note_on(64, level(0.5));
    assert!(!p.note_off_retakes(64));
}

#[test]
fn pool_voices_can_be_changed_in_place() {
    let mut m = VoiceManager::new(2);
    m.note_on(60, level(0.5));
    m.voices_mut()[0].active = false;
    assert_eq!(m.active_count(), 0);
    assert!(!m.voices()[0].active);
}
