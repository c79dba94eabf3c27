use rpg_core::{ApiError, Registry, Side};

fn s(t: &str) -> String {
    t.to_string()
}

#[test]
fn registry_accounting() {
    let mut r = Registry::new();
    assert!(r.graph_new(s("g1")).is_ok());
    assert!(r.graph_new(s("g2")).is_ok());
    assert!(r.graph_delete(&s("g1")).is_some());
    assert!(r.graph_new(s("g3")).is_ok());
    assert!(r.graph_delete(&s("g1")).is_none());
    let mut names = r.graphs();
    names.sort();
    assert_eq!(names, vec![s("g2"), s("g3")]);
}

#[test]
fn create_graph_twice() {
    let mut r = Registry::new();
    assert!(r.graph_new(s("n")).is_ok());
    assert_eq!(r.graph_new(s("n")), Err(ApiError::GraphAlreadyExists));
    assert_eq!(r.graphs(), vec![s("n")]);
}

#[test]
fn create_brick_twice() {
    let mut r = Registry::new();
    assert!(r.graph_new(s("g")).is_ok());
    assert!(r.tap_new(&s("g"), s("b")).is_ok());
    assert_eq!(r.tap_new(&s("g"), s("b")), Err(ApiError::BrickAlreadyExists));
    assert_eq!(r.nop_new(&s("g"), s("b")), Err(ApiError::BrickAlreadyExists));
    let d = r.graph_get(&s("g")).unwrap();
    assert_eq!(d.bricks, vec![s("b")]);
    assert_eq!(r.brick_get(&s("g"), &s("b")).unwrap().kind_name, "tap");
}

#[test]
fn link_failure_keeps_bricks() {
    let mut r = Registry::new();
    assert!(r.graph_new(s("g")).is_ok());
    assert!(r.tap_new(&s("g"), s("a")).is_ok());
    assert!(r.tap_new(&s("g"), s("b")).is_ok());
    assert!(r.tap_new(&s("g"), s("c")).is_ok());
    assert!(r.link(&s("g"), &s("a"), &s("b")).is_ok());
    // a tap has a single east port, so a second link out of `a` is refused
    assert_eq!(r.link(&s("g"), &s("a"), &s("c")), Err(ApiError::PortsExhausted));
    assert!(r.brick_get(&s("g"), &s("a")).is_ok());
    assert!(r.brick_get(&s("g"), &s("c")).is_ok());
    assert_eq!(r.graph_get(&s("g")).unwrap().bricks.len(), 3);
    // a tap has a single west port too
    assert_eq!(r.link(&s("g"), &s("c"), &s("b")), Err(ApiError::PortsExhausted));
    assert_eq!(r.graph_get(&s("g")).unwrap().bricks.len(), 3);
}

#[test]
fn link_partial_presence() {
    let mut r = Registry::new();
    assert!(r.graph_new(s("g")).is_ok());
    assert!(r.tap_new(&s("g"), s("a")).is_ok());
    assert_eq!(r.link(&s("g"), &s("a"), &s("missing")), Err(ApiError::EastBrickNotFound));
    assert_eq!(r.link(&s("g"), &s("missing"), &s("a")), Err(ApiError::WestBrickNotFound));
    assert_eq!(r.link(&s("g"), &s("x"), &s("y")), Err(ApiError::WestAndEastBricksNotFound));
    assert_eq!(r.link(&s("g"), &s("a"), &s("a")), Err(ApiError::EastBrickNotFound));
    assert!(r.brick_get(&s("g"), &s("a")).is_ok());
    assert_eq!(r.graph_get(&s("g")).unwrap().bricks.len(), 1);
}

#[test]
fn unlink_pair_not_linked() {
    let mut r = Registry::new();
    assert!(r.graph_new(s("g")).is_ok());
    assert!(r.tap_new(&s("g"), s("a")).is_ok());
    assert!(r.tap_new(&s("g"), s("b")).is_ok());
    assert_eq!(r.unlink_from(&s("g"), &s("a"), &s("b")), Err(ApiError::NotLinked));
    assert!(r.link(&s("g"), &s("a"), &s("b")).is_ok());
    assert!(r.unlink_from(&s("g"), &s("a"), &s("b")).is_ok());
    assert_eq!(r.unlink_from(&s("g"), &s("a"), &s("b")), Err(ApiError::NotLinked));
    // after the unlink both ports are free again
    assert!(r.link(&s("g"), &s("a"), &s("b")).is_ok());
}

#[test]
fn nic_parameters() {
    let mut r = Registry::new();
    assert!(r.graph_new(s("g")).is_ok());
    assert_eq!(
        r.nic_new(&s("g"), s("n0"), Some(s("tap0")), Some(3)),
        Err(ApiError::NicParameters)
    );
    assert_eq!(r.nic_new(&s("g"), s("n0"), None, None), Err(ApiError::NicParameters));
    assert!(matches!(r.brick_get(&s("g"), &s("n0")), Err(ApiError::BrickNotFound)));
    assert!(r.nic_new(&s("g"), s("n1"), Some(s("tap0")), None).is_ok());
    assert!(r.nic_new(&s("g"), s("n2"), None, Some(0)).is_ok());
    assert_eq!(r.brick_get(&s("g"), &s("n1")).unwrap().kind_name, "nic");
    assert_eq!(r.brick_get(&s("g"), &s("n2")).unwrap().kind_name, "nic");
}

#[test]
fn switch_bad_side() {
    let mut r = Registry::new();
    assert!(r.graph_new(s("g")).is_ok());
    assert_eq!(r.switch_new(&s("g"), s("sw"), 2, 2, &s("north")), Err(ApiError::InvalidSide));
    assert!(matches!(r.brick_get(&s("g"), &s("sw")), Err(ApiError::BrickNotFound)));
    assert_eq!(r.graph_get(&s("g")).unwrap().bricks.len(), 0);
    assert!(r.switch_new(&s("g"), s("sw"), 2, 2, &s("east")).is_ok());
    assert_eq!(r.brick_get(&s("g"), &s("sw")).unwrap().kind_name, "switch");
}

#[test]
fn firewall_wrong_kind() {
    let mut r = Registry::new();
    assert!(r.graph_new(s("g")).is_ok());
    assert!(r.tap_new(&s("g"), s("t")).is_ok());
    assert_eq!(
        r.firewall_rule_add(&s("g"), &s("t"), s("src host ::1"), &s("west")),
        Err(ApiError::WrongBrickKind)
    );
    assert_eq!(r.firewall_flush(&s("g"), &s("t")), Err(ApiError::WrongBrickKind));
    assert_eq!(r.firewall_reload(&s("g"), &s("t")), Err(ApiError::WrongBrickKind));
    assert!(r.firewall_new(&s("g"), s("fw")).is_ok());
    assert_eq!(
        r.firewall_rule_add(&s("g"), &s("fw"), s("src host ::1"), &s("up")),
        Err(ApiError::InvalidSide)
    );
    assert_eq!(
        r.firewall_rule_add(&s("g"), &s("none"), s("x"), &s("west")),
        Err(ApiError::BrickNotFound)
    );
}

#[test]
fn graph_not_found() {
    let mut r = Registry::new();
    assert!(matches!(r.graph_get(&s("g")), Err(ApiError::GraphNotFound)));
    assert_eq!(r.tap_new(&s("g"), s("t")), Err(ApiError::GraphNotFound));
    assert_eq!(r.link(&s("g"), &s("a"), &s("b")), Err(ApiError::GraphNotFound));
    assert_eq!(r.firewall_flush(&s("g"), &s("b")), Err(ApiError::GraphNotFound));
    assert!(r.graph_delete(&s("g")).is_none());
}

#[test]
fn brick_delete_removes() {
    let mut r = Registry::new();
    assert!(r.graph_new(s("g")).is_ok());
    assert!(r.hub_new(&s("g"), s("h"), 3, 3).is_ok());
    assert_eq!(r.brick_get(&s("g"), &s("h")).unwrap().kind_name, "hub");
    assert!(r.brick_delete(&s("g"), &s("h")).is_ok());
    assert!(matches!(r.brick_get(&s("g"), &s("h")), Err(ApiError::BrickNotFound)));
    assert_eq!(r.brick_delete(&s("g"), &s("h")), Err(ApiError::BrickNotFound));
}

#[test]
fn hub_capacity() {
    let mut r = Registry::new();
    assert!(r.graph_new(s("g")).is_ok());
    assert!(r.hub_new(&s("g"), s("h"), 1, 2).is_ok());
    assert!(r.tap_new(&s("g"), s("a")).is_ok());
    assert!(r.tap_new(&s("g"), s("b")).is_ok());
    assert!(r.tap_new(&s("g"), s("c")).is_ok());
    // the hub has one west port and two east ports
    assert!(r.link(&s("g"), &s("a"), &s("h")).is_ok());
    assert_eq!(r.link(&s("g"), &s("b"), &s("h")), Err(ApiError::PortsExhausted));
    assert!(r.link(&s("g"), &s("h"), &s("b")).is_ok());
    assert!(r.link(&s("g"), &s("h"), &s("c")).is_ok());
}

#[test]
fn driver_flag() {
    let mut r = Registry::new();
    assert!(r.graph_new(s("g")).is_ok());
    assert!(r.poll_graph(&s("g")));
    assert!(!r.poll_graph(&s("missing")));
    let mut h = r.graph_delete(&s("g")).unwrap();
    assert!(!h.running);
    assert!(!h.driver_step());
    assert!(!r.poll_graph(&s("g")));
}

#[test]
fn side_parse() {
    assert_eq!(Side::from_str(&s("west")), Some(Side::West));
    assert_eq!(Side::from_str(&s("east")), Some(Side::East));
    assert_eq!(Side::from_str(&s("West")), None);
    assert_eq!(Side::from_str(&s("")), None);
}

#[test]
fn error_descriptions() {
    assert_eq!(ApiError::GraphAlreadyExists.description(), "graph already exists");
    assert_eq!(ApiError::BrickAlreadyExists.description(), "brick already exists");
    assert_eq!(ApiError::WestBrickNotFound.description(), "west brick not found");
    assert_eq!(ApiError::EastBrickNotFound.description(), "east brick not found");
    assert_eq!(
        ApiError::WestAndEastBricksNotFound.description(),
        "west and east bricks not found"
    );
    assert_eq!(
        ApiError::InvalidSide.description(),
        "choose west or east for side parameter"
    );
    assert_eq!(
        ApiError::NicParameters.description(),
        "must specify either 'port' or 'vdev' parameters"
    );
}
