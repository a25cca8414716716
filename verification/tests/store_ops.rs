use netblocker::rule::{Action, Direction, FwRule, Protocol};
use netblocker::store::{status_of_result, RuleStore};

fn marked_rule(name: &str, app_name: &str, enabled: bool) -> FwRule {
    FwRule {
        name: name.to_string(),
        description: String::new(),
        app_name: app_name.to_string(),
        service_name: String::new(),
        protocol: Protocol::Any,
        icmp_type: String::new(),
        local_ports: String::new(),
        remote_ports: String::new(),
        local_addresses: String::new(),
        remote_addresses: String::new(),
        profile1: String::new(),
        profile2: String::new(),
        profile3: String::new(),
        direction: Direction::Out,
        action: Action::Block,
        interface_types: String::new(),
        interfaces: String::new(),
        enabled,
        grouping: String::new(),
        edge_traversal: false,
    }
}

#[test]
fn operations_on_missing_names_fail_with_a_message() {
    let mut store = RuleStore::new();
    assert_eq!(store.enable_rule("NetBlockerRule_Outbound_x"), "no rule with this name");
    assert!(!store.disable_rule("NetBlockerRule_Outbound_x").is_empty());
    assert!(!store.delete_rule("NetBlockerRule_Outbound_x").is_empty());
    assert_eq!(store.len(), 0);
}

#[test]
fn operations_on_wrong_names_leave_the_store_alone() {
    let rules = vec![marked_rule("NetBlockerRule_Outbound_a", "a", true)];
    let mut store = RuleStore::from_rules(rules);
    assert!(!store.enable_rule("NetBlockerRule_Outbound_b").is_empty());
    assert!(!store.delete_rule("NetBlockerRule_Inbound_a").is_empty());
    let listed = store.get_rules();
    assert_eq!(listed.len(), 1);
    assert_eq!(listed[0].name, "NetBlockerRule_Outbound_a");
    assert!(listed[0].enabled);
}

#[test]
fn disable_then_enable_flips_the_flag() {
    let rules = vec![
        marked_rule("NetBlockerRule_Outbound_a", "a", true),
        marked_rule("NetBlockerRule_Outbound_b", "b", true),
    ];
    let mut store = RuleStore::from_rules(rules);

    let status = store.disable_rule("NetBlockerRule_Outbound_a");
    assert_eq!(status, "");
    let listed = store.get_rules();
    assert_eq!(listed.len(), 2);
    assert!(!listed[0].enabled);
    assert!(listed[1].enabled);

    let status = store.enable_rule("NetBlockerRule_Outbound_a");
    assert_eq!(status, "");
    let listed = store.get_rules();
    assert!(listed[0].enabled);
    assert!(listed[1].enabled);
}

#[test]
fn delete_removes_exactly_the_named_rule() {
    let rules = vec![
        marked_rule("NetBlockerRule_Outbound_a", "a", true),
        marked_rule("NetBlockerRule_Outbound_b", "b", true),
    ];
    let mut store = RuleStore::from_rules(rules);
    let status = store.delete_rule("NetBlockerRule_Outbound_a");
    assert_eq!(status, "");
    assert_eq!(store.len(), 1);
    let listed = store.get_rules();
    assert_eq!(listed.len(), 1);
    assert_eq!(listed[0].name, "NetBlockerRule_Outbound_b");

    // deleting it again fails: it is gone
    assert!(!store.delete_rule("NetBlockerRule_Outbound_a").is_empty());
}

#[test]
fn created_rules_show_up_in_the_listing() {
    let mut store = RuleStore::new();
    let status = store.create_rule("C:\\apps\\game.exe", true);
    assert_eq!(status, "");
    let status = store.create_rule("C:\\apps\\alpha.exe", false);
    assert_eq!(status, "");
    let listed = store.get_rules();
    assert_eq!(listed.len(), 2);
    assert_eq!(listed[0].name, "NetBlockerRule_Inbound_C:\\apps\\alpha.exe");
    assert_eq!(listed[1].name, "NetBlockerRule_Outbound_C:\\apps\\game.exe");
    assert_eq!(listed[0].app_name, "C:\\apps\\alpha.exe");
    assert!(listed[0].enabled);
    assert_eq!(listed[0].action, Action::Block);
}

#[test]
fn create_then_toggle_by_the_derived_name() {
    let mut store = RuleStore::new();
    assert_eq!(store.create_rule("app", false), "");
    let name = netblocker::rule::derive_rule_name("app", false);
    assert_eq!(store.disable_rule(&name), "");
    let listed = store.get_rules();
    assert_eq!(listed.len(), 1);
    assert!(!listed[0].enabled);
    assert_eq!(store.delete_rule(&name), "");
    assert_eq!(store.get_rules().len(), 0);
}

#[test]
fn duplicate_creation_is_not_prevented() {
    let mut store = RuleStore::new();
    assert_eq!(store.create_rule("app", true), "");
    assert_eq!(store.create_rule("app", true), "");
    assert_eq!(store.len(), 2);
    let listed = store.get_rules();
    assert_eq!(listed.len(), 2);
    assert_eq!(listed[0].name, listed[1].name);
}

#[test]
fn status_of_result_follows_the_convention() {
    assert_eq!(status_of_result(Ok(())), "");
    assert_eq!(status_of_result(Err("0x80070002".to_string())), "0x80070002");
}
