//! The firewall-rule record, the marker naming convention, and the
//! construction of the block rules this system creates.

use vstd::prelude::*;

verus! {

/// Traffic direction a rule governs.
#[derive(Clone, Copy, PartialEq, Eq, Structural, Debug)]
pub enum Direction {
    In,
    Out,
    Any,
}

/// What a matching rule does with the traffic.
#[derive(Clone, Copy, PartialEq, Eq, Structural, Debug)]
pub enum Action {
    Block,
    Allow,
}

/// Transport protocol a rule matches.
#[derive(Clone, Copy, PartialEq, Eq, Structural, Debug)]
pub enum Protocol {
    Tcp,
    Udp,
    Any,
}

/// One firewall rule record, with the descriptive fields the OS store
/// carries. The authoritative copy of a rule lives in the OS store;
/// values of this type are read-throughs and requests.
#[derive(Debug)]
pub struct FwRule {
    pub name: String,
    pub description: String,
    pub app_name: String,
    pub service_name: String,
    pub protocol: Protocol,
    pub icmp_type: String,
    pub local_ports: String,
    pub remote_ports: String,
    pub local_addresses: String,
    pub remote_addresses: String,
    pub profile1: String,
    pub profile2: String,
    pub profile3: String,
    pub direction: Direction,
    pub action: Action,
    pub interface_types: String,
    pub interfaces: String,
    pub enabled: bool,
    pub grouping: String,
    pub edge_traversal: bool,
}

impl Clone for FwRule {
    /// A clone is equal to the original, field for field.
    fn clone(&self) -> (res: Self)
        ensures
            res == *self,
    {
        FwRule {
            name: self.name.clone(),
            description: self.description.clone(),
            app_name: self.app_name.clone(),
            service_name: self.service_name.clone(),
            protocol: self.protocol,
            icmp_type: self.icmp_type.clone(),
            local_ports: self.local_ports.clone(),
            remote_ports: self.remote_ports.clone(),
            local_addresses: self.local_addresses.clone(),
            remote_addresses: self.remote_addresses.clone(),
            profile1: self.profile1.clone(),
            profile2: self.profile2.clone(),
            profile3: self.profile3.clone(),
            direction: self.direction,
            action: self.action,
            interface_types: self.interface_types.clone(),
            interfaces: self.interfaces.clone(),
            enabled: self.enabled,
            grouping: self.grouping.clone(),
            edge_traversal: self.edge_traversal,
        }
    }
}

/// The fixed marker every rule owned by this system carries in front of
/// its name; it distinguishes these rules from rules of other tools.
pub open spec fn marker_prefix() -> Seq<char> {
    "NetBlockerRule_"@
}

/// Whether a rule name carries the marker prefix.
pub open spec fn has_marker(name: Seq<char>) -> bool {
    marker_prefix().len() <= name.len() && name.subrange(
        0,
        marker_prefix().len() as int,
    ) == marker_prefix()
}

/// The direction tag spliced into a generated rule name.
pub open spec fn direction_tag(is_out: bool) -> Seq<char> {
    if is_out {
        "Outbound_"@
    } else {
        "Inbound_"@
    }
}

/// The name generated for a rule: marker, direction tag, then the
/// application path.
pub open spec fn spec_rule_name(path: Seq<char>, is_out: bool) -> Seq<char> {
    marker_prefix() + direction_tag(is_out) + path
}

/// Decides whether a rule name starts with the marker prefix.
pub fn name_has_marker(name: &str) -> (r: bool)
    ensures
        r == has_marker(name@),
{
    let p = "NetBlockerRule_";
    proof {
        reveal_strlit("NetBlockerRule_");
    }
    let plen = p.unicode_len();
    let nlen = name.unicode_len();
    if nlen < plen {
        return false;
    }
    let mut i: usize = 0;
    while i < plen
        invariant
            i <= plen,
            plen == marker_prefix().len(),
            p@ == marker_prefix(),
            nlen == name@.len(),
            plen <= nlen,
            forall|j: int| 0 <= j < i ==> name@[j] == marker_prefix()[j],
        decreases plen - i,
    {
        if name.get_char(i) != p.get_char(i) {
            proof {
                assert(name@.subrange(0, plen as int)[i as int] == name@[i as int]);
            }
            return false;
        }
        i += 1;
    }
    proof {
        assert(name@.subrange(0, plen as int) =~= marker_prefix());
    }
    true
}

/// Builds the deterministic name for a generated rule.
pub fn derive_rule_name(path: &str, is_out: bool) -> (r: String)
    ensures
        r@ == spec_rule_name(path@, is_out),
{
    let mut name: String = if is_out {
        "NetBlockerRule_Outbound_".to_owned()
    } else {
        "NetBlockerRule_Inbound_".to_owned()
    };
    name.append(path);
    proof {
        reveal_strlit("NetBlockerRule_Outbound_");
        reveal_strlit("NetBlockerRule_Inbound_");
        reveal_strlit("NetBlockerRule_");
        reveal_strlit("Outbound_");
        reveal_strlit("Inbound_");
        if is_out {
            assert("NetBlockerRule_Outbound_"@ =~= marker_prefix() + direction_tag(true));
        } else {
            assert("NetBlockerRule_Inbound_"@ =~= marker_prefix() + direction_tag(false));
        }
    }
    name
}

/// Every generated rule name carries the marker prefix, whatever the
/// path and direction.
pub proof fn lemma_rule_name_has_marker(path: Seq<char>, is_out: bool)
    ensures
        has_marker(spec_rule_name(path, is_out)),
{
    reveal_strlit("NetBlockerRule_");
    reveal_strlit("Outbound_");
    reveal_strlit("Inbound_");
    assert(spec_rule_name(path, is_out).subrange(0, marker_prefix().len() as int)
        =~= marker_prefix());
}

/// The exact shape of a rule this system creates for an application
/// path: a block rule, enabled, with wildcard addresses, all interface
/// types, any protocol, and every other descriptive field empty.
pub open spec fn is_generated_rule(r: FwRule, path: Seq<char>, is_out: bool) -> bool {
    &&& r.name@ == spec_rule_name(path, is_out)
    &&& r.description@ == Seq::<char>::empty()
    &&& r.app_name@ == path
    &&& r.service_name@ == Seq::<char>::empty()
    &&& r.protocol == Protocol::Any
    &&& r.icmp_type@ == Seq::<char>::empty()
    &&& r.local_ports@ == Seq::<char>::empty()
    &&& r.remote_ports@ == Seq::<char>::empty()
    &&& r.local_addresses@ == "*"@
    &&& r.remote_addresses@ == "*"@
    &&& r.profile1@ == Seq::<char>::empty()
    &&& r.profile2@ == Seq::<char>::empty()
    &&& r.profile3@ == Seq::<char>::empty()
    &&& r.direction == (if is_out {
        Direction::Out
    } else {
        Direction::In
    })
    &&& r.action == Action::Block
    &&& r.interface_types@ == "All"@
    &&& r.interfaces@ == Seq::<char>::empty()
    &&& r.enabled == true
    &&& r.grouping@ == Seq::<char>::empty()
    &&& r.edge_traversal == false
}

/// Builds the rule this system submits for an application path and
/// direction.
pub fn new_rule(path: &str, is_out: bool) -> (r: FwRule)
    ensures
        is_generated_rule(r, path@, is_out),
{
    let direction = if is_out {
        Direction::Out
    } else {
        Direction::In
    };
    FwRule {
        name: derive_rule_name(path, is_out),
        description: String::new(),
        app_name: path.to_owned(),
        service_name: String::new(),
        protocol: Protocol::Any,
        icmp_type: String::new(),
        local_ports: String::new(),
        remote_ports: String::new(),
        local_addresses: "*".to_owned(),
        remote_addresses: "*".to_owned(),
        profile1: String::new(),
        profile2: String::new(),
        profile3: String::new(),
        direction,
        action: Action::Block,
        interface_types: "All".to_owned(),
        interfaces: String::new(),
        enabled: true,
        grouping: String::new(),
        edge_traversal: false,
    }
}

} // verus!
