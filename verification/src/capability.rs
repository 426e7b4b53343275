//! Capabilities: unforgeable tokens bearing a kind and a unique id. Only a
//! `Tool`-kind capability grants the right to perform a tool call. Fresh
//! ids come from an explicit minter whose counter only grows.

use vstd::prelude::*;
use vstd::string::StringExecFns;

verus! {

#[derive(Debug, Clone, Copy, PartialEq, Eq, Structural)]
pub enum CapabilityKind {
    Tool,
    Net,
    Fs,
    Memory,
}

/// A token with a kind and an id; values can only be made through a minter
/// or by narrowing, so holders cannot forge them.
#[derive(Debug, Clone)]
pub struct Capability {
    id: u64,
    kind: CapabilityKind,
}

/// The mathematical shape of a capability.
pub struct CapabilityModel {
    pub id: u64,
    pub kind: CapabilityKind,
}

impl View for Capability {
    type V = CapabilityModel;

    closed spec fn view(&self) -> CapabilityModel {
        CapabilityModel { id: self.id, kind: self.kind }
    }
}

impl Capability {
    /// Whether this capability grants the right to perform a tool call.
    pub fn can_use_tool(&self) -> (r: bool)
        ensures
            r == (self@.kind == CapabilityKind::Tool),
    {
        self.kind == CapabilityKind::Tool
    }

    /// Narrowing to the Tool kind yields a capability with the same id iff
    /// the original was already Tool-kind.
    pub fn narrow_to_tool(&self) -> (r: Option<Self>)
        ensures
            match r {
                Some(c) => self@.kind == CapabilityKind::Tool && c@ == self@,
                None => self@.kind != CapabilityKind::Tool,
            },
    {
        if self.can_use_tool() {
            Some(Capability { id: self.id, kind: CapabilityKind::Tool })
        } else {
            None
        }
    }
}

/// The source of fresh capability ids: each mint yields the next id, so ids
/// from one minter are unique and increasing.
#[derive(Debug)]
pub struct CapabilityMinter {
    next_id: u64,
}

impl View for CapabilityMinter {
    type V = u64;

    closed spec fn view(&self) -> u64 {
        self.next_id
    }
}

impl CapabilityMinter {
    /// A minter whose first capability gets id 1.
    pub fn new() -> (r: Self)
        ensures
            r@ == 1u64,
    {
        CapabilityMinter { next_id: 1 }
    }

    /// Mint a capability of the given kind with a fresh id.
    pub fn mint(&mut self, kind: CapabilityKind) -> (r: Capability)
        requires
            old(self)@ < u64::MAX,
        ensures
            r@.id == old(self)@,
            r@.kind == kind,
            final(self)@ == old(self)@ + 1,
    {
        let id = self.next_id;
        self.next_id = self.next_id + 1;
        Capability { id, kind }
    }
}

pub open spec fn caps_view(v: Seq<(String, Capability)>) -> Seq<(Seq<char>, CapabilityModel)> {
    v.map_values(|p: (String, Capability)| (p.0@, p.1@))
}

/// The default capability mapping: one fresh Tool-kind capability under the
/// name "toolCap".
pub fn default_capabilities() -> (r: Vec<(String, Capability)>)
    ensures
        caps_view(r@) == seq![
            ("toolCap"@, CapabilityModel { id: 1u64, kind: CapabilityKind::Tool }),
        ],
{
    let mut minter = CapabilityMinter::new();
    let c = minter.mint(CapabilityKind::Tool);
    let mut caps: Vec<(String, Capability)> = Vec::new();
    caps.push((String::from_str("toolCap"), c));
    proof {
        assert(caps_view(caps@) =~= seq![
            ("toolCap"@, CapabilityModel { id: 1u64, kind: CapabilityKind::Tool }),
        ]);
    }
    caps
}

} // verus!
