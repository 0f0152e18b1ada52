use agent_zones::geometry::{WorldPoint, UNIT};
use agent_zones::zone::{zone_holds, zone_members, AgentZoneMapping, Zone};

fn test_zone() -> Zone {
    Zone::new("TEST".to_string(), 1000 * UNIT, 1000 * UNIT)
}

#[test]
fn zone_holds_agent_then_is_dropped() {
    let mut m = AgentZoneMapping::new();
    let agents = vec![(1u64, WorldPoint::new(0, 0))];
    let zones = vec![(10u64, test_zone(), WorldPoint::new(0, 0))];
    m.update(&zones, &agents);
    assert_eq!(m.agents_in(10), Some(&vec![1u64]));
    m.update(&vec![], &agents);
    assert!(!m.contains_zone(10));
    assert_eq!(m.agents_in(10), None);
    assert_eq!(m.len(), 0);
}

#[test]
fn keys_follow_live_zones() {
    let mut m = AgentZoneMapping::new();
    let agents: Vec<(u64, WorldPoint)> = vec![];
    let p = WorldPoint::new(0, 0);
    m.register_zone(99);
    m.update(&vec![(1u64, test_zone(), p), (2u64, test_zone(), p)], &agents);
    assert!(!m.contains_zone(99));
    assert!(m.contains_zone(1) && m.contains_zone(2));
    m.update(&vec![(2u64, test_zone(), p), (3u64, test_zone(), p)], &agents);
    assert!(!m.contains_zone(1));
    assert!(m.contains_zone(2) && m.contains_zone(3));
    assert_eq!(m.len(), 2);
    assert_eq!(m.agents_in(3), Some(&vec![]));
}

#[test]
fn moved_agent_leaves_the_list() {
    let mut m = AgentZoneMapping::new();
    let zones = vec![(10u64, test_zone(), WorldPoint::new(0, 0))];
    m.update(&zones, &vec![(1u64, WorldPoint::new(0, 0)), (2u64, WorldPoint::new(100 * UNIT, 0))]);
    assert_eq!(m.agents_in(10), Some(&vec![1u64, 2]));
    m.update(&zones, &vec![(1u64, WorldPoint::new(600 * UNIT, 0)), (2u64, WorldPoint::new(100 * UNIT, 0))]);
    assert_eq!(m.agents_in(10), Some(&vec![2u64]));
}

#[test]
fn register_zone_starts_empty() {
    let mut m = AgentZoneMapping::new();
    m.register_zone(5);
    assert_eq!(m.agents_in(5), Some(&vec![]));
    assert_eq!(m.len(), 1);
}

#[test]
fn height_governs_x_and_width_governs_y() {
    let zone = Zone::new("strip".to_string(), 1000 * UNIT, 200 * UNIT);
    let agent = WorldPoint::new(0, 0);
    assert!(zone_holds(&zone, WorldPoint::new(500 * UNIT, 0), agent));
    assert!(!zone_holds(&zone, WorldPoint::new(500 * UNIT + 1, 0), agent));
    assert!(zone_holds(&zone, WorldPoint::new(0, 100 * UNIT), agent));
    assert!(!zone_holds(&zone, WorldPoint::new(0, 101 * UNIT), agent));
}

#[test]
fn zone_position_is_tested_against_the_agent_box() {
    let zone = Zone::new("z".to_string(), 1000 * UNIT, 1000 * UNIT);
    // the zone stands at (300, 300); the agent at (-100, 0): |300 - -100| = 400 <= 500
    let agents = vec![
        (1u64, WorldPoint::new(-100 * UNIT, 0)),
        (2u64, WorldPoint::new(-300 * UNIT, 0)),
        (3u64, WorldPoint::new(800 * UNIT, 800 * UNIT)),
    ];
    let members = zone_members(&zone, WorldPoint::new(300 * UNIT, 300 * UNIT), &agents);
    assert_eq!(members, vec![1u64, 3]);
}

#[test]
fn odd_extent_keeps_half_steps() {
    // an extent of 3 steps reaches 1.5 steps each way
    let zone = Zone::new("odd".to_string(), 3, 3);
    let agent = WorldPoint::new(0, 0);
    assert!(zone_holds(&zone, WorldPoint::new(1, -1), agent));
    assert!(!zone_holds(&zone, WorldPoint::new(2, 0), agent));
}

#[test]
fn several_zones_each_get_their_agents() {
    let mut m = AgentZoneMapping::new();
    let small = Zone::new("small".to_string(), 10 * UNIT, 10 * UNIT);
    let zones = vec![
        (1u64, test_zone(), WorldPoint::new(0, 0)),
        (2u64, small, WorldPoint::new(0, 0)),
    ];
    let agents = vec![(7u64, WorldPoint::new(0, 0)), (8u64, WorldPoint::new(200 * UNIT, 0))];
    m.update(&zones, &agents);
    assert_eq!(m.agents_in(1), Some(&vec![7u64, 8]));
    assert_eq!(m.agents_in(2), Some(&vec![7u64]));
}

#[test]
fn default_mapping_is_empty() {
    let m = AgentZoneMapping::default();
    assert_eq!(m.len(), 0);
}
