use netblocker::listing::{listing_of_fetch, rule_le_exec, select_rules};
use netblocker::rule::{derive_rule_name, name_has_marker, new_rule, Action, Direction, Protocol};
use netblocker::rule::FwRule;

fn plain_rule(name: &str, app_name: &str) -> FwRule {
    FwRule {
        name: name.to_string(),
        description: String::new(),
        app_name: app_name.to_string(),
        service_name: String::new(),
        protocol: Protocol::Any,
        icmp_type: String::new(),
        local_ports: String::new(),
        remote_ports: String::new(),
        local_addresses: String::new(),
        remote_addresses: String::new(),
        profile1: String::new(),
        profile2: String::new(),
        profile3: String::new(),
        direction: Direction::In,
        action: Action::Allow,
        interface_types: String::new(),
        interfaces: String::new(),
        enabled: false,
        grouping: String::new(),
        edge_traversal: false,
    }
}

#[test]
fn outbound_name_is_deterministic() {
    let n = derive_rule_name("C:\\apps\\browser.exe", true);
    assert_eq!(n, "NetBlockerRule_Outbound_C:\\apps\\browser.exe");
}

#[test]
fn inbound_name_is_deterministic() {
    let n = derive_rule_name("C:\\apps\\browser.exe", false);
    assert_eq!(n, "NetBlockerRule_Inbound_C:\\apps\\browser.exe");
}

#[test]
fn empty_path_still_gets_marker_and_tag() {
    assert_eq!(derive_rule_name("", true), "NetBlockerRule_Outbound_");
    assert_eq!(derive_rule_name("", false), "NetBlockerRule_Inbound_");
}

#[test]
fn marker_check_accepts_generated_names() {
    assert!(name_has_marker("NetBlockerRule_Outbound_a"));
    assert!(name_has_marker("NetBlockerRule_"));
    assert!(!name_has_marker("OtherRule"));
    assert!(!name_has_marker(""));
    assert!(!name_has_marker("NetBlockerRule"));
    assert!(!name_has_marker("netblockerrule_Outbound_a"));
}

#[test]
fn generated_rule_fields_match_the_convention() {
    let r = new_rule("C:\\apps\\game.exe", true);
    assert_eq!(r.name, "NetBlockerRule_Outbound_C:\\apps\\game.exe");
    assert_eq!(r.app_name, "C:\\apps\\game.exe");
    assert_eq!(r.description, "");
    assert_eq!(r.action, Action::Block);
    assert_eq!(r.direction, Direction::Out);
    assert_eq!(r.protocol, Protocol::Any);
    assert!(r.enabled);
    assert!(!r.edge_traversal);
    assert_eq!(r.local_addresses, "*");
    assert_eq!(r.remote_addresses, "*");
    assert_eq!(r.interface_types, "All");
    assert_eq!(r.interfaces, "");
    assert_eq!(r.service_name, "");
    assert_eq!(r.icmp_type, "");
    assert_eq!(r.local_ports, "");
    assert_eq!(r.remote_ports, "");
    assert_eq!(r.profile1, "");
    assert_eq!(r.profile2, "");
    assert_eq!(r.profile3, "");
    assert_eq!(r.grouping, "");

    let inbound = new_rule("x", false);
    assert_eq!(inbound.direction, Direction::In);
    assert_eq!(inbound.name, "NetBlockerRule_Inbound_x");
}

#[test]
fn listing_keeps_only_marked_entries_in_case_insensitive_order() {
    let rules = vec![
        plain_rule("NetBlockerRule_Inbound_B", "B"),
        plain_rule("OtherRule", "0aaa"),
        plain_rule("NetBlockerRule_Outbound_a", "a"),
    ];
    let listed = select_rules(rules);
    assert_eq!(listed.len(), 2);
    assert_eq!(listed[0].name, "NetBlockerRule_Outbound_a");
    assert_eq!(listed[1].name, "NetBlockerRule_Inbound_B");
}

#[test]
fn ordering_ignores_case() {
    // by raw code points "B" < "a"; case-insensitively "a" < "B"
    let a = plain_rule("NetBlockerRule_Outbound_a", "a");
    let b = plain_rule("NetBlockerRule_Inbound_B", "B");
    assert!(rule_le_exec(&a, &b));
    assert!(!rule_le_exec(&b, &a));
    // equal keys compare both ways
    let b2 = plain_rule("NetBlockerRule_Outbound_b2", "b");
    let b3 = plain_rule("NetBlockerRule_Outbound_b3", "B");
    assert!(rule_le_exec(&b2, &b3));
    assert!(rule_le_exec(&b3, &b2));
}

#[test]
fn sort_is_stable_for_equal_keys() {
    let rules = vec![
        plain_rule("NetBlockerRule_Outbound_first", "Same"),
        plain_rule("NetBlockerRule_Outbound_second", "same"),
        plain_rule("NetBlockerRule_Outbound_third", "SAME"),
    ];
    let listed = select_rules(rules);
    assert_eq!(listed.len(), 3);
    assert_eq!(listed[0].name, "NetBlockerRule_Outbound_first");
    assert_eq!(listed[1].name, "NetBlockerRule_Outbound_second");
    assert_eq!(listed[2].name, "NetBlockerRule_Outbound_third");
}

#[test]
fn listing_is_the_same_on_repeated_calls() {
    let mk = || {
        vec![
            plain_rule("NetBlockerRule_Outbound_z", "Zeta"),
            plain_rule("NetBlockerRule_Outbound_b", "beta"),
            plain_rule("NetBlockerRule_Outbound_al", "Alpha"),
        ]
    };
    let first = select_rules(mk());
    let second = select_rules(mk());
    assert_eq!(first.len(), second.len());
    for i in 0..first.len() {
        assert_eq!(first[i].name, second[i].name);
        assert_eq!(first[i].app_name, second[i].app_name);
    }
    assert_eq!(first[0].app_name, "Alpha");
    assert_eq!(first[1].app_name, "beta");
    assert_eq!(first[2].app_name, "Zeta");
}

#[test]
fn failed_enumeration_is_presented_as_an_empty_listing() {
    let listed = listing_of_fetch(Err("0x80070005".to_string()));
    assert_eq!(listed.len(), 0);
}

#[test]
fn successful_enumeration_is_presented_as_the_listing() {
    let fetched = vec![
        plain_rule("NetBlockerRule_Inbound_B", "B"),
        plain_rule("OtherRule", "0aaa"),
        plain_rule("NetBlockerRule_Outbound_a", "a"),
    ];
    let listed = listing_of_fetch(Ok(fetched));
    assert_eq!(listed.len(), 2);
    assert_eq!(listed[0].name, "NetBlockerRule_Outbound_a");
    assert_eq!(listed[1].name, "NetBlockerRule_Inbound_B");
}

#[test]
fn listing_of_unmarked_rules_is_empty() {
    let rules = vec![plain_rule("OtherRule", "a"), plain_rule("netblocker", "b")];
    let listed = select_rules(rules);
    assert_eq!(listed.len(), 0);
}
