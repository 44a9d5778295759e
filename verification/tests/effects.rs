use synthesis::effects::{DelayCursor, DistortionType};

#[test]
fn delay_cursor_starts_half_a_ring_behind() {
    let c = DelayCursor::new(10);
    assert_eq!(c.len(), 10);
    assert_eq!(c.write_pos(), 0);
    assert_eq!(c.delay_samples(), 5);
    assert_eq!(c.read_pos(), 5);
}

#[test]
fn delay_cursor_delay_is_capped_below_the_ring() {
    let mut c = DelayCursor::new(8);
    c.set_delay_samples(3);
    assert_eq!(c.delay_samples(), 3);
    c.set_delay_samples(100);
    assert_eq!(c.delay_samples(), 7);
}

#[test]
fn delay_cursor_write_head_wraps() {
    let mut c = DelayCursor::new(3);
    c.advance();
    c.advance();
    assert_eq!(c.write_pos(), 2);
    c.advance();
    assert_eq!(c.write_pos(), 0);
}

#[test]
fn delay_cursor_read_trails_write_by_the_delay() {
    let mut c = DelayCursor::new(6);
    c.set_delay_samples(2);
    for _ in 0..4 {
        c.advance();
    }
    assert_eq!(c.write_pos(), 4);
    assert_eq!(c.read_pos(), 2);
    c.advance();
    c.advance();
    c.advance();
    assert_eq!(c.write_pos(), 1);
    assert_eq!(c.read_pos(), 5);
    assert_eq!((c.read_pos() + c.delay_samples()) % c.len(), c.write_pos());
}

#[test]
fn delay_cursor_of_an_empty_ring() {
    let c = DelayCursor::new(0);
    assert_eq!(c.len(), 0);
    assert_eq!(c.delay_samples(), 0);
}

#[test]
fn distortion_types_compare() {
    assert_eq!(DistortionType::Soft, DistortionType::Soft);
    assert_ne!(DistortionType::Hard, DistortionType::Foldback);
}
