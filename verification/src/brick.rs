use vstd::prelude::*;
use crate::errors::{ApiError, Side};

verus! {

/// The closed set of brick kinds a graph can contain.
#[derive(Clone, Copy, PartialEq, Eq, Structural, Debug)]
pub enum BrickKind {
    Nop,
    Tap,
    Hub,
    Switch,
    Nic,
    Firewall,
}

/// One firewall rule: a filter expression bound to one side.
pub struct FirewallRule {
    pub filter: String,
    pub side: Side,
}

/// The kind-specific configuration a brick is constructed with.
pub enum BrickConfig {
    Nop,
    Tap,
    Hub { west_ports: u32, east_ports: u32 },
    Switch { west_ports: u32, east_ports: u32, side: Side },
    Nic { vdev: Option<String>, port: Option<u8> },
    Firewall,
}

impl BrickConfig {
    /// The kind tag of a configuration.
    pub open spec fn kind(self) -> BrickKind {
        match self {
            BrickConfig::Nop => BrickKind::Nop,
            BrickConfig::Tap => BrickKind::Tap,
            BrickConfig::Hub { .. } => BrickKind::Hub,
            BrickConfig::Switch { .. } => BrickKind::Switch,
            BrickConfig::Nic { .. } => BrickKind::Nic,
            BrickConfig::Firewall => BrickKind::Firewall,
        }
    }
}

/// A named packet-processing unit. Link relations are recorded in the
/// brick's own state: `west_peers` / `east_peers` hold the names of the
/// bricks connected on each face, one entry per occupied port.
/// `rules` is the firewall rule set; it is empty for every other kind.
pub struct Brick {
    pub name: String,
    pub config: BrickConfig,
    pub rules: Vec<FirewallRule>,
    pub west_peers: Vec<String>,
    pub east_peers: Vec<String>,
}

impl Brick {
    /// The kind tag of this brick.
    pub open spec fn kind(self) -> BrickKind {
        self.config.kind()
    }

    /// How many connections the west face can hold.
    pub open spec fn west_capacity(self) -> u64 {
        match self.config {
            BrickConfig::Hub { west_ports, .. } => west_ports as u64,
            BrickConfig::Switch { west_ports, .. } => west_ports as u64,
            _ => 1u64,
        }
    }

    /// How many connections the east face can hold.
    pub open spec fn east_capacity(self) -> u64 {
        match self.config {
            BrickConfig::Hub { east_ports, .. } => east_ports as u64,
            BrickConfig::Switch { east_ports, .. } => east_ports as u64,
            _ => 1u64,
        }
    }

    /// A brick is well formed when each face holds no more connections
    /// than it has ports, a nic names exactly one of a virtual device or
    /// a physical port, and only a firewall carries rules.
    pub open spec fn wf(self) -> bool {
        &&& self.west_peers@.len() <= self.west_capacity()
        &&& self.east_peers@.len() <= self.east_capacity()
        &&& match self.config {
            BrickConfig::Nic { vdev, port } => vdev is Some <==> port is None,
            _ => true,
        }
        &&& !(self.config is Firewall) ==> self.rules@.len() == 0
    }

    /// A freshly constructed brick: not linked, and with no rules unless
    /// it is a firewall (whose rule set starts empty too).
    pub open spec fn fresh(self, name: Seq<char>, config: BrickConfig) -> bool {
        &&& self.name@ == name
        &&& self.config == config
        &&& self.rules@.len() == 0
        &&& self.west_peers@.len() == 0
        &&& self.east_peers@.len() == 0
    }

    /// Builds a brick of the given configuration with no links and no rules.
    pub fn new(name: String, config: BrickConfig) -> (b: Brick)
        ensures
            b.fresh(name@, config),
            b.name == name,
    {
        Brick { name, config, rules: Vec::new(), west_peers: Vec::new(), east_peers: Vec::new() }
    }

    /// The textual kind tag shown by brick descriptions.
    pub open spec fn kind_name(self) -> Seq<char> {
        match self.kind() {
            BrickKind::Nop => "nop"@,
            BrickKind::Tap => "tap"@,
            BrickKind::Hub => "hub"@,
            BrickKind::Switch => "switch"@,
            BrickKind::Nic => "nic"@,
            BrickKind::Firewall => "firewall"@,
        }
    }

    /// Renders the kind tag of this brick.
    pub fn type_str(&self) -> (r: String)
        ensures
            r@ == self.kind_name(),
    {
        match self.config {
            BrickConfig::Nop => "nop".to_owned(),
            BrickConfig::Tap => "tap".to_owned(),
            BrickConfig::Hub { .. } => "hub".to_owned(),
            BrickConfig::Switch { .. } => "switch".to_owned(),
            BrickConfig::Nic { .. } => "nic".to_owned(),
            BrickConfig::Firewall => "firewall".to_owned(),
        }
    }

    /// The narrowing check for firewall-specific operations.
    pub fn is_firewall(&self) -> (r: bool)
        ensures
            r == (self.config is Firewall),
    {
        match self.config {
            BrickConfig::Firewall => true,
            _ => false,
        }
    }

    /// Connects this brick's east face to the west face of `east`.
    /// Succeeds exactly when both faces still have a free port; a refused
    /// attempt changes neither brick.
    pub fn link(&mut self, east: &mut Brick) -> (r: Result<(), ApiError>)
        ensures
            r is Ok <==> {
                &&& old(self).east_peers@.len() < old(self).east_capacity()
                &&& old(east).west_peers@.len() < old(east).west_capacity()
            },
            r is Err ==> r == Err::<(), ApiError>(ApiError::PortsExhausted),
            r is Err ==> *final(self) == *old(self) && *final(east) == *old(east),
            r is Ok ==> final(self).east_peers@ == old(self).east_peers@.push(old(east).name),
            r is Ok ==> final(east).west_peers@ == old(east).west_peers@.push(old(self).name),
            final(self).name == old(self).name,
            final(self).config == old(self).config,
            final(self).rules == old(self).rules,
            final(self).west_peers == old(self).west_peers,
            final(east).name == old(east).name,
            final(east).config == old(east).config,
            final(east).rules == old(east).rules,
            final(east).east_peers == old(east).east_peers,
    {
        let own_cap = match self.config {
            BrickConfig::Hub { east_ports, .. } => east_ports as u64,
            BrickConfig::Switch { east_ports, .. } => east_ports as u64,
            _ => 1u64,
        };
        let peer_cap = match east.config {
            BrickConfig::Hub { west_ports, .. } => west_ports as u64,
            BrickConfig::Switch { west_ports, .. } => west_ports as u64,
            _ => 1u64,
        };
        if (self.east_peers.len() as u64) < own_cap && (east.west_peers.len() as u64) < peer_cap {
            self.east_peers.push(east.name.clone());
            east.west_peers.push(self.name.clone());
            Ok(())
        } else {
            Err(ApiError::PortsExhausted)
        }
    }

    /// Disconnects this brick's east face from the west face of `east`.
    /// Succeeds exactly when each of the two records the other as a peer;
    /// one matching entry is then dropped on each side. A refused attempt
    /// changes neither brick.
    pub fn unlink_from(&mut self, east: &mut Brick) -> (r: Result<(), ApiError>)
        ensures
            r is Ok <==> {
                &&& exists|i: int|
                    0 <= i < old(self).east_peers@.len() && old(self).east_peers@[i]@ == old(
                        east,
                    ).name@
                &&& exists|j: int|
                    0 <= j < old(east).west_peers@.len() && old(east).west_peers@[j]@ == old(
                        self,
                    ).name@
            },
            r is Err ==> r == Err::<(), ApiError>(ApiError::NotLinked),
            r is Err ==> *final(self) == *old(self) && *final(east) == *old(east),
            r is Ok ==> exists|i: int|
                0 <= i < old(self).east_peers@.len() && old(self).east_peers@[i]@ == old(
                    east,
                ).name@ && final(self).east_peers@ == old(self).east_peers@.remove(i),
            r is Ok ==> exists|j: int|
                0 <= j < old(east).west_peers@.len() && old(east).west_peers@[j]@ == old(
                    self,
                ).name@ && final(east).west_peers@ == old(east).west_peers@.remove(j),
            final(self).name == old(self).name,
            final(self).config == old(self).config,
            final(self).rules == old(self).rules,
            final(self).west_peers == old(self).west_peers,
            final(east).name == old(east).name,
            final(east).config == old(east).config,
            final(east).rules == old(east).rules,
            final(east).east_peers == old(east).east_peers,
    {
        let own = find_peer(&self.east_peers, &east.name);
        let peer = find_peer(&east.west_peers, &self.name);
        match (own, peer) {
            (Some(i), Some(j)) => {
                self.east_peers.remove(i);
                east.west_peers.remove(j);
                Ok(())
            },
            _ => Err(ApiError::NotLinked),
        }
    }

    /// Adds one firewall rule; refused with WrongBrickKind on any other
    /// brick kind. The filter expression is stored as given: compiling it
    /// is the brick capability's own (external) concern.
    pub fn rule_add(&mut self, filter: String, side: Side) -> (r: Result<(), ApiError>)
        ensures
            r is Ok <==> old(self).config is Firewall,
            r is Err ==> r == Err::<(), ApiError>(ApiError::WrongBrickKind) && *final(self) == *old(
                self,
            ),
            r is Ok ==> final(self).rules@ == old(self).rules@.push(
                FirewallRule { filter: filter, side: side },
            ),
            final(self).name == old(self).name,
            final(self).config == old(self).config,
            final(self).west_peers == old(self).west_peers,
            final(self).east_peers == old(self).east_peers,
    {
        match self.config {
            BrickConfig::Firewall => {
                self.rules.push(FirewallRule { filter, side });
                Ok(())
            },
            _ => Err(ApiError::WrongBrickKind),
        }
    }

    /// Drops every firewall rule; refused with WrongBrickKind on any
    /// other brick kind.
    pub fn flush(&mut self) -> (r: Result<(), ApiError>)
        ensures
            r is Ok <==> old(self).config is Firewall,
            r is Err ==> r == Err::<(), ApiError>(ApiError::WrongBrickKind) && *final(self) == *old(
                self,
            ),
            r is Ok ==> final(self).rules@.len() == 0,
            final(self).name == old(self).name,
            final(self).config == old(self).config,
            final(self).west_peers == old(self).west_peers,
            final(self).east_peers == old(self).east_peers,
    {
        match self.config {
            BrickConfig::Firewall => {
                self.rules = Vec::new();
                Ok(())
            },
            _ => Err(ApiError::WrongBrickKind),
        }
    }

    /// Reapplies the active rule set; refused with WrongBrickKind on any
    /// other brick kind. Recompilation is the brick capability's own
    /// (external) concern, so the stored state is unchanged.
    pub fn reload(&mut self) -> (r: Result<(), ApiError>)
        ensures
            r is Ok <==> old(self).config is Firewall,
            r is Err ==> r == Err::<(), ApiError>(ApiError::WrongBrickKind),
            *final(self) == *old(self),
    {
        match self.config {
            BrickConfig::Firewall => Ok(()),
            _ => Err(ApiError::WrongBrickKind),
        }
    }
}

/// Finds the position of `name` in a peer list, if any.
fn find_peer(peers: &Vec<String>, name: &String) -> (r: Option<usize>)
    ensures
        match r {
            Some(i) => i < peers@.len() && peers@[i as int]@ == name@,
            None => forall|i: int| 0 <= i < peers@.len() ==> peers@[i]@ != name@,
        },
{
    let mut i: usize = 0;
    while i < peers.len()
        invariant
            i <= peers@.len(),
            forall|j: int| 0 <= j < i ==> peers@[j]@ != name@,
        decreases peers@.len() - i,
    {
        if peers[i] == *name {
            return Some(i);
        }
        i += 1;
    }
    None
}

} // verus!
