use kmflow::edge::{to_signed, EdgeDetector, EdgeHit};
use kmflow::proto::{Double, Edge, ScreenInfo, ScreenPosition};

fn test_screen() -> ScreenInfo {
    ScreenInfo {
        width: 1920,
        height: 1080,
        scale_factor: Double { bits: 1.0f64.to_bits() },
        position: ScreenPosition {
            edge: Edge::Right,
            monitor_id: 0,
        },
    }
}

#[test]
fn edge_trigger_right() {
    let detector = EdgeDetector::new(test_screen(), Edge::Right);
    assert_eq!(detector.check(1919, 540), EdgeHit::Triggered(Edge::Right));
    assert_eq!(detector.check(1918, 540), EdgeHit::Miss);
}

#[test]
fn dead_zone_blocks_corner() {
    let detector = EdgeDetector::new(test_screen(), Edge::Right);
    // Top-right corner should be blocked
    assert_eq!(detector.check(1919, 10), EdgeHit::Miss);
    // Bottom-right corner should be blocked
    assert_eq!(detector.check(1919, 1075), EdgeHit::Miss);
    // Middle-right should trigger
    assert_eq!(detector.check(1919, 540), EdgeHit::Triggered(Edge::Right));
}

#[test]
fn every_edge_triggers_on_its_own_side() {
    let left = EdgeDetector::new(test_screen(), Edge::Left);
    assert_eq!(left.check(0, 540), EdgeHit::Triggered(Edge::Left));
    assert_eq!(left.check(1, 540), EdgeHit::Miss);
    let top = EdgeDetector::new(test_screen(), Edge::Top);
    assert_eq!(top.check(960, 0), EdgeHit::Triggered(Edge::Top));
    assert_eq!(top.check(960, 1), EdgeHit::Miss);
    let bottom = EdgeDetector::new(test_screen(), Edge::Bottom);
    assert_eq!(bottom.check(960, 1079), EdgeHit::Triggered(Edge::Bottom));
    assert_eq!(bottom.check(960, 1078), EdgeHit::Miss);
}

#[test]
fn the_dead_zone_can_be_set() {
    let detector = EdgeDetector::new(test_screen(), Edge::Right).with_dead_zone(5);
    assert_eq!(detector.check(1919, 10), EdgeHit::Triggered(Edge::Right));
    assert_eq!(detector.check(1919, 4), EdgeHit::Miss);
    assert!(detector.can_check());
    assert!(!detector.with_dead_zone(0x8000_0000).can_check());
    assert_eq!(detector.screen_info(), test_screen());
}

#[test]
fn the_corners_end_where_the_zone_does() {
    let detector = EdgeDetector::new(test_screen(), Edge::Right);
    assert_eq!(detector.check(1919, 49), EdgeHit::Miss);
    assert_eq!(detector.check(1919, 50), EdgeHit::Triggered(Edge::Right));
    assert_eq!(detector.check(1919, 1030), EdgeHit::Triggered(Edge::Right));
    assert_eq!(detector.check(1919, 1031), EdgeHit::Miss);
}

#[test]
fn signed_numbers_are_read_by_their_bits() {
    assert_eq!(to_signed(5), 5);
    assert_eq!(to_signed(0x7fff_ffff), i32::MAX);
    assert_eq!(to_signed(0x8000_0000), i32::MIN);
    assert_eq!(to_signed(u32::MAX), -1);
}
