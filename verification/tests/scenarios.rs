use rpg_core::Registry;

fn s(t: &str) -> String {
    t.to_string()
}

#[test]
fn simple() {
    let mut r = Registry::new();
    assert!(r.graph_new(s("mygraph")).is_ok());
    assert!(r.graph_get(&s("mygraph")).is_ok());
    assert!(r.tap_new(&s("mygraph"), s("tap1")).is_ok());
    assert!(r.nop_new(&s("mygraph"), s("nop1")).is_ok());
    assert!(r.tap_new(&s("mygraph"), s("tap2")).is_ok());
    assert!(r.switch_new(&s("mygraph"), s("switch1"), 2, 2, &s("west")).is_ok());
    assert!(r.brick_get(&s("mygraph"), &s("tap1")).is_ok());
    assert!(r.brick_get(&s("mygraph"), &s("nop1")).is_ok());
    assert!(r.brick_get(&s("mygraph"), &s("tap2")).is_ok());
    assert!(r.brick_get(&s("mygraph"), &s("switch1")).is_ok());
    assert!(r.link(&s("mygraph"), &s("tap1"), &s("switch1")).is_ok());
    assert!(r.link(&s("mygraph"), &s("nop1"), &s("switch1")).is_ok());
    assert!(r.link(&s("mygraph"), &s("switch1"), &s("tap2")).is_ok());
    assert!(r.unlink_from(&s("mygraph"), &s("tap1"), &s("switch1")).is_ok());
    assert!(r.graph_get(&s("mygraph")).is_ok());
    assert!(r.unlink(&s("mygraph"), &s("switch1")).is_ok());
    let h = r.graph_delete(&s("mygraph"));
    assert!(h.is_some());
    assert!(!h.unwrap().running);
}

#[test]
fn firewall() {
    let mut r = Registry::new();
    assert!(r.graph_new(s("mygraph")).is_ok());
    assert!(r.graph_get(&s("mygraph")).is_ok());
    assert!(r.tap_new(&s("mygraph"), s("tap1")).is_ok());
    assert!(r.firewall_new(&s("mygraph"), s("fw")).is_ok());
    assert!(r.tap_new(&s("mygraph"), s("tap2")).is_ok());
    assert!(r.brick_get(&s("mygraph"), &s("tap1")).is_ok());
    assert!(r.brick_get(&s("mygraph"), &s("fw")).is_ok());
    assert!(r.brick_get(&s("mygraph"), &s("tap2")).is_ok());
    assert!(r.link(&s("mygraph"), &s("tap1"), &s("fw")).is_ok());
    assert!(r.link(&s("mygraph"), &s("fw"), &s("tap2")).is_ok());
    assert!(r.firewall_rule_add(&s("mygraph"), &s("fw"), s("src host 10::1"), &s("west")).is_ok());
    assert!(r.firewall_flush(&s("mygraph"), &s("fw")).is_ok());
    assert!(r.firewall_rule_add(&s("mygraph"), &s("fw"), s("src host 10::1"), &s("west")).is_ok());
    assert!(r.firewall_rule_add(&s("mygraph"), &s("fw"), s("src host 10::2"), &s("west")).is_ok());
    assert!(r.firewall_reload(&s("mygraph"), &s("fw")).is_ok());
}

#[test]
fn end_to_end() {
    let mut r = Registry::new();
    assert!(r.graph_new(s("g")).is_ok());
    assert!(r.tap_new(&s("g"), s("t1")).is_ok());
    assert!(r.nop_new(&s("g"), s("n1")).is_ok());
    assert!(r.switch_new(&s("g"), s("s1"), 2, 2, &s("west")).is_ok());
    assert!(r.link(&s("g"), &s("t1"), &s("s1")).is_ok());
    assert!(r.link(&s("g"), &s("n1"), &s("s1")).is_ok());
    let d = r.graph_get(&s("g")).unwrap();
    assert_eq!(d.name, "g");
    let mut bricks = d.bricks.clone();
    bricks.sort();
    assert_eq!(bricks, vec![s("n1"), s("s1"), s("t1")]);
    assert!(r.unlink_from(&s("g"), &s("t1"), &s("s1")).is_ok());
    assert!(r.unlink(&s("g"), &s("s1")).is_ok());
    assert!(r.graph_delete(&s("g")).is_some());
    assert!(r.graph_get(&s("g")).is_err());
}
