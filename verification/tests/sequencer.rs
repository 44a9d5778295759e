use synthesis::modulation::sequencer::{SequencerDirection, StepCursor};

#[test]
fn test_sequencer_new() {
    let seq = StepCursor::new(8);
    assert_eq!(seq.num_steps(), 8);
    assert_eq!(seq.current_step(), 0);
}

#[test]
fn test_sequencer_backward() {
    let mut seq = StepCursor::new(4);
    seq.set_direction(SequencerDirection::Backward);
    seq.reset();
    seq.advance_step();
    assert_eq!(seq.current_step(), 3);
    seq.advance_step();
    assert_eq!(seq.current_step(), 2);
}

#[test]
fn test_sequencer_ping_pong() {
    let mut seq = StepCursor::new(4);
    seq.set_direction(SequencerDirection::PingPong);
    seq.reset();
    let expected = [0, 1, 2, 3, 2, 1, 0, 1, 2];
    for &exp in &expected {
        assert_eq!(seq.current_step(), exp, "Expected step {}", exp);
        seq.advance_step();
    }
}

#[test]
fn test_sequencer_reset() {
    let mut seq = StepCursor::new(3);
    seq.advance_step();
    seq.advance_step();
    assert_eq!(seq.current_step(), 2);
    seq.reset();
    assert_eq!(seq.current_step(), 0);
}

#[test]
fn test_sequencer_random() {
    let mut seq = StepCursor::new(4);
    seq.set_direction(SequencerDirection::Random);
    let mut steps_seen = std::collections::HashSet::new();
    for _ in 0..100 {
        seq.advance_step();
        steps_seen.insert(seq.current_step());
    }
    assert!(steps_seen.len() > 1);
}

#[test]
fn forward_wraps_around() {
    let mut seq = StepCursor::new(3);
    let mut seen = Vec::new();
    for _ in 0..4 {
        seq.advance_step();
        seen.push(seq.current_step());
    }
    assert_eq!(seen, vec![1, 2, 0, 1]);
}

#[test]
fn random_draw_picks_step_modulo_length() {
    let mut seq = StepCursor::new(5);
    seq.set_direction(SequencerDirection::Random);
    seq.advance_with(13);
    assert_eq!(seq.current_step(), 3);
}

#[test]
fn single_and_empty_sequences_stay_put() {
    let mut one = StepCursor::new(1);
    one.set_direction(SequencerDirection::PingPong);
    for _ in 0..3 {
        one.advance_step();
        assert_eq!(one.current_step(), 0);
    }
    let mut none = StepCursor::new(0);
    none.advance_step();
    assert_eq!(none.current_step(), 0);
    assert_eq!(SequencerDirection::default(), SequencerDirection::Forward);
}

use synthesis::modulation::matrix::{ModDest, ModSource, ModulationMatrix};

type Route = (ModSource, ModDest, f32);

#[test]
fn test_matrix_new() {
    let matrix: ModulationMatrix<Route> = ModulationMatrix::new(16);
    assert_eq!(matrix.slots().len(), 0);
}

#[test]
fn test_matrix_add_route() {
    let mut matrix = ModulationMatrix::new(16);
    assert!(matrix.add_route((ModSource::Lfo(0), ModDest::FilterCutoff, 0.5)));
    assert_eq!(matrix.slots().len(), 1);
}

#[test]
fn test_matrix_remove_route() {
    let mut matrix = ModulationMatrix::new(16);
    matrix.add_route((ModSource::Lfo(0), ModDest::FilterCutoff, 0.5));
    matrix.add_route((ModSource::Envelope(0), ModDest::Volume, 1.0));
    matrix.remove_route(0);
    assert_eq!(matrix.slots().len(), 1);
    assert_eq!(matrix.slots()[0].1, ModDest::Volume);
}

#[test]
fn matrix_refuses_routes_beyond_capacity() {
    let mut matrix = ModulationMatrix::new(1);
    assert!(matrix.add_route((ModSource::Velocity, ModDest::Pan, 0.1)));
    assert!(!matrix.add_route((ModSource::ModWheel, ModDest::Pan, 0.2)));
    matrix.remove_route(5);
    assert_eq!(matrix.slots().len(), 1);
    matrix.clear();
    assert!(matrix.add_route((ModSource::ModWheel, ModDest::Pan, 0.2)));
    assert_eq!(matrix.slots()[0].0, ModSource::ModWheel);
}

#[test]
fn advance_step_reports_moving() {
    let mut seq = StepCursor::new(3);
    assert!(seq.advance_step());
    assert_eq!(seq.current_step(), 1);
    seq.set_direction(SequencerDirection::Random);
    if seq.advance_step() {
        assert!(seq.current_step() < 3);
    }
}
