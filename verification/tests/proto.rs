use kmflow::proto::{
    opposite_edge, round, Delta, Edge, KmflowConfig, DEFAULT_PORT, DELTA_UNIT, INFINITY_BITS,
    LARGEST_SUM, MAX_FRAME_SIZE, MDNS_SERVICE_TYPE, ONE_BITS, PROTOCOL_VERSION,
};

#[test]
fn constants_are_those_of_the_protocol() {
    assert_eq!(PROTOCOL_VERSION, 1);
    assert_eq!(DEFAULT_PORT, 4242);
    assert_eq!(MAX_FRAME_SIZE, 1200);
    assert_eq!(MDNS_SERVICE_TYPE, "_kmflow._udp.local.");
    assert_eq!(ONE_BITS, 1.0f64.to_bits());
    assert_eq!(INFINITY_BITS, f64::INFINITY.to_bits());
}

#[test]
fn the_default_configuration_is_empty() {
    let c = KmflowConfig::default();
    assert_eq!(c.port, 4242);
    assert_eq!(c.hostname, None);
    assert!(c.layout.is_empty());
    assert!(c.known_peers.is_empty());
    assert_eq!(c.scale_override, None);
}

#[test]
fn opposite_edges_lead_back() {
    assert_eq!(opposite_edge(Edge::Right), Edge::Left);
    assert_eq!(opposite_edge(Edge::Left), Edge::Right);
    assert_eq!(opposite_edge(Edge::Top), Edge::Bottom);
    assert_eq!(opposite_edge(Edge::Bottom), Edge::Top);
    for e in [Edge::Right, Edge::Left, Edge::Top, Edge::Bottom] {
        assert_eq!(opposite_edge(opposite_edge(e)), e);
        assert_ne!(opposite_edge(e), e);
    }
}

#[test]
fn whole_parts_are_rounded_towards_zero() {
    let half = DELTA_UNIT / 2;
    for (raw, whole) in [
        (0, 0),
        (half, 0),
        (-half, 0),
        (3 * half, 1),
        (-3 * half, -1),
        (-DELTA_UNIT, -1),
        (7 * DELTA_UNIT, 7),
    ] {
        assert_eq!(Delta { raw }.to_whole(), whole);
        assert_eq!(Delta { raw }.to_i32() as i128, whole);
        assert_eq!(Delta { raw }.to_i32_reversed() as i128, -whole);
        assert_eq!(Delta { raw }.to_i16() as i128, whole);
    }
    assert!(Delta::zero().is_zero());
    assert!(!Delta { raw: 1 }.is_zero());
}

#[test]
fn whole_parts_saturate() {
    assert_eq!(Delta::from_whole(i64::MAX as i128).to_i32(), i32::MAX);
    assert_eq!(Delta::from_whole(i64::MIN as i128).to_i32(), i32::MIN);
    assert_eq!(Delta::from_whole(i64::MIN as i128).to_i32_reversed(), i32::MAX);
    assert_eq!(Delta::from_whole(i64::MAX as i128).to_i32_reversed(), i32::MIN);
    assert_eq!(Delta::from_whole(40000).to_i16(), i16::MAX);
    assert_eq!(Delta::from_whole(-40000).to_i16(), i16::MIN);
    assert_eq!(Delta { raw: i128::MIN }.to_i32(), i32::MIN);
    assert_eq!(Delta { raw: i128::MIN }.to_whole(), i128::MIN / DELTA_UNIT);
}

#[test]
fn fixed_point_numbers_are_rounded_as_doubles_are() {
    for integral in [
        0,
        1,
        -1,
        2,
        -3,
        1000,
        -1000,
        0x001f_ffff,
        0x0020_0000,
        0x0020_0001,
        0x4000_0000,
        -0x4000_0000,
        i32::MAX,
        i32::MIN,
    ] {
        for frac in [0, 1, 2, 3, 0x8000_0000, 0x8000_0001, 0xffff_fdff, 0xffff_fe00, u32::MAX] {
            let exact = integral as f64 + (frac as f64 / 4294967296.0);
            let d = Delta::from_fixed(integral, frac);
            assert_eq!(d.raw as f64 / 4294967296.0, exact);
            assert_eq!(d.raw, (exact * 4294967296.0) as i128);
            assert_eq!(d.to_i32(), exact as i32);
            assert_eq!(d.is_zero(), exact == 0.0);
        }
    }
    assert_eq!(Delta::from_fixed(2, 0x8000_0000).raw, 5 * DELTA_UNIT / 2);
    assert_eq!(Delta::from_fixed(0x4000_0000, u32::MAX).to_i32(), 0x4000_0001);
}

#[test]
fn rounding_is_that_of_doubles() {
    for v in [
        0i128,
        1,
        -1,
        (1 << 53) - 1,
        1 << 53,
        (1 << 53) + 1,
        (1 << 53) + 2,
        (1 << 53) + 3,
        -((1 << 53) + 1),
        (1 << 60) + 123456789,
        (1 << 84) + (1 << 31),
        (1 << 84) + (1 << 31) + 1,
        LARGEST_SUM + i32::MAX as i128,
        -LARGEST_SUM + i32::MIN as i128,
    ] {
        assert_eq!(round(v), v as f64 as i128);
    }
}

#[test]
fn sums_stop_growing() {
    assert_eq!(round(LARGEST_SUM + i32::MAX as i128), LARGEST_SUM);
    assert_eq!(round(-LARGEST_SUM + i32::MIN as i128), -LARGEST_SUM);
    assert_eq!(LARGEST_SUM, 1 << 85);
}
