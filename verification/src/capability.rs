//! Capability kinds, statuses and the survival invariants of the agent.

use vstd::prelude::*;

use std::collections::HashMap;

verus! {

#[derive(Debug, Clone, Copy, PartialEq, Eq, Hash)]
pub enum CapabilityType {
    Hardware,
    System,
    External,
    Internal,
}

#[derive(Debug, Clone, Copy, PartialEq, Eq, PartialOrd, Ord)]
pub enum PrivilegeLevel {
    ReadOnly,
    Limited,
    Full,
}

#[derive(Debug, Clone, PartialEq, Eq)]
pub enum CapabilityStatus {
    Discovered,
    Available,
    Loading,
    Active,
    Unavailable { reason: String },
    Deprecated,
    Evolving,
}

impl CapabilityStatus {
    /// A capability in this status can be used: it is available or active.
    pub fn is_available(&self) -> (r: bool)
        ensures
            r == (*self is Available || *self is Active),
    {
        match self {
            CapabilityStatus::Available | CapabilityStatus::Active => true,
            _ => false,
        }
    }
}

#[derive(Debug, Clone, Copy, PartialEq, Eq)]
pub enum ProviderKind {
    BuiltIn,
    RhaiScript,
    DynamicLibrary,
    Process,
    ExternalApi,
}

/// Estimated resource use of a capability. The relative energy estimate
/// (0.0 to 1.0) is a float; it is held here by its IEEE 754 bits
/// (`f64::to_bits`), which nothing in this library reads.
#[derive(Debug, Clone)]
pub struct CapabilityCost {
    pub cpu_ms: Option<u64>,
    pub memory_bytes: Option<u64>,
    pub energy_bits: Option<u64>,
    pub network_bytes: Option<u64>,
}

impl Default for CapabilityCost {
    /// No estimates.
    fn default() -> (c: Self)
        ensures
            c.cpu_ms is None,
            c.memory_bytes is None,
            c.energy_bits is None,
            c.network_bytes is None,
    {
        CapabilityCost { cpu_ms: None, memory_bytes: None, energy_bits: None, network_bytes: None }
    }
}

/// The version a new capability descriptor records: this package's version.
pub const PACKAGE_VERSION: &'static str = "0.1.0";

/// A capability: what it is, who provides it, what it may do and its state.
#[derive(Debug, Clone)]
pub struct CapabilityDescriptor {
    pub id: String,
    pub name: String,
    pub description: String,
    pub capability_type: CapabilityType,
    pub provider_kind: ProviderKind,
    pub privilege: PrivilegeLevel,
    pub status: CapabilityStatus,
    pub input_schema: Option<serde_json::Value>,
    pub output_schema: Option<serde_json::Value>,
    pub cost: CapabilityCost,
    pub version: String,
    pub provider_path: Option<String>,
    pub dependencies: Vec<String>,
    pub metadata: HashMap<String, serde_json::Value>,
    pub created_at: i64,
    pub updated_at: i64,
}

/// Seconds since the Unix epoch (`chrono::Utc::now().timestamp()`). Nothing is
/// stated of it: it is the clock.
#[verifier::external_body]
fn unix_timestamp() -> i64 {
    chrono::Utc::now().timestamp()
}

impl CapabilityDescriptor {
    /// A discovered, read-only capability with no schemas, estimates, path,
    /// dependencies or metadata, created and updated now.
    pub fn new(
        id: &str,
        name: &str,
        description: &str,
        capability_type: CapabilityType,
        provider_kind: ProviderKind,
    ) -> (c: Self)
        ensures
            c.id@ == id@ && c.name@ == name@ && c.description@ == description@,
            c.capability_type == capability_type && c.provider_kind == provider_kind,
            c.privilege == PrivilegeLevel::ReadOnly,
            c.status == CapabilityStatus::Discovered,
            c.input_schema is None && c.output_schema is None,
            c.cost.cpu_ms is None && c.cost.memory_bytes is None && c.cost.energy_bits is None
                && c.cost.network_bytes is None,
            c.version@ == PACKAGE_VERSION@,
            c.provider_path is None,
            c.dependencies@.len() == 0,
            c.metadata@ == Map::<String, serde_json::Value>::empty(),
            c.created_at == c.updated_at,
    {
        let now = unix_timestamp();
        CapabilityDescriptor {
            id: id.to_owned(),
            name: name.to_owned(),
            description: description.to_owned(),
            capability_type,
            provider_kind,
            privilege: PrivilegeLevel::ReadOnly,
            status: CapabilityStatus::Discovered,
            input_schema: None,
            output_schema: None,
            cost: CapabilityCost::default(),
            version: PACKAGE_VERSION.to_owned(),
            provider_path: None,
            dependencies: Vec::new(),
            metadata: HashMap::new(),
            created_at: now,
            updated_at: now,
        }
    }

    /// The same capability with this privilege level.
    pub fn with_privilege(self, privilege: PrivilegeLevel) -> (c: Self)
        ensures
            c == (CapabilityDescriptor { privilege, ..self }),
    {
        let mut c = self;
        c.privilege = privilege;
        c
    }

    /// The same capability in this status.
    pub fn with_status(self, status: CapabilityStatus) -> (c: Self)
        ensures
            c == (CapabilityDescriptor { status, ..self }),
    {
        let mut c = self;
        c.status = status;
        c
    }

    /// The same capability provided from this path.
    pub fn with_provider_path(self, path: &str) -> (c: Self)
        ensures
            c.provider_path matches Some(p) && p@ == path@,
            c == (CapabilityDescriptor { provider_path: c.provider_path, ..self }),
    {
        let mut c = self;
        c.provider_path = Some(path.to_owned());
        c
    }

    /// Whether the capability can be used: it is available or active.
    pub fn is_available(&self) -> (r: bool)
        ensures
            r == (self.status is Available || self.status is Active),
    {
        self.status.is_available()
    }
}

#[derive(Debug, Clone, Copy, PartialEq, Eq)]
pub enum CapabilityLifecycle {
    Draft,
    Compiling,
    Validating,
    Loading,
    Observing,
    Optimizing,
    Replacing,
    Active,
    Retired,
}

#[derive(Debug, Clone)]
pub struct SurvivalInvariants {
    pub can_compile: bool,
    pub can_load_capabilities: bool,
    pub can_communicate: bool,
    pub can_evolve: bool,
    pub last_checked: i64,
    pub diagnostics: HashMap<String, String>,
}

impl Default for SurvivalInvariants {
    /// Nothing checked yet: every invariant false, no diagnostics.
    fn default() -> (r: Self)
        ensures
            !r.can_compile,
            !r.can_load_capabilities,
            !r.can_communicate,
            !r.can_evolve,
            r.last_checked == 0,
            r.diagnostics@ == Map::<String, String>::empty(),
    {
        SurvivalInvariants {
            can_compile: false,
            can_load_capabilities: false,
            can_communicate: false,
            can_evolve: false,
            last_checked: 0,
            diagnostics: HashMap::new(),
        }
    }
}

/// The messages of the invariants that do not hold, in a fixed order.
pub open spec fn violations_spec(inv: SurvivalInvariants) -> Seq<Seq<char>> {
    let a: Seq<Seq<char>> = if inv.can_compile {
        seq![]
    } else {
        seq!["cannot compile new code"@]
    };
    let b: Seq<Seq<char>> = if inv.can_load_capabilities {
        seq![]
    } else {
        seq!["cannot load new capabilities"@]
    };
    let c: Seq<Seq<char>> = if inv.can_communicate {
        seq![]
    } else {
        seq!["cannot communicate with owner"@]
    };
    let d: Seq<Seq<char>> = if inv.can_evolve {
        seq![]
    } else {
        seq!["cannot continue evolution"@]
    };
    a + b + c + d
}

impl SurvivalInvariants {
    pub fn all_healthy(&self) -> (r: bool)
        ensures
            r == (self.can_compile && self.can_load_capabilities && self.can_communicate
                && self.can_evolve),
    {
        self.can_compile && self.can_load_capabilities && self.can_communicate && self.can_evolve
    }

    pub fn violations(&self) -> (v: Vec<&'static str>)
        ensures
            v@.map_values(|s: &str| s@) == violations_spec(*self),
    {
        let mut v: Vec<&'static str> = Vec::new();
        if !self.can_compile {
            v.push("cannot compile new code");
        }
        if !self.can_load_capabilities {
            v.push("cannot load new capabilities");
        }
        if !self.can_communicate {
            v.push("cannot communicate with owner");
        }
        if !self.can_evolve {
            v.push("cannot continue evolution");
        }
        assert(v@.map_values(|s: &str| s@) =~= violations_spec(*self));
        v
    }
}

/// The invariants are all healthy exactly when there is no violation.
pub proof fn lemma_healthy_iff_no_violations(inv: SurvivalInvariants)
    ensures
        (inv.can_compile && inv.can_load_capabilities && inv.can_communicate && inv.can_evolve)
            <==> violations_spec(inv).len() == 0,
{
}

} // verus!
