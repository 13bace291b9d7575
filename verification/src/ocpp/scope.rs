use vstd::prelude::*;

verus! {

/// The part of a charging station a message or setting belongs to: the station itself
/// (both ids absent), an EVSE, or a connector.
#[derive(Debug, Clone, Copy, PartialEq, Eq, Hash, Structural)]
pub struct Scope {
    pub evse: Option<i64>,
    pub connector: Option<i64>,
}

impl Scope {
    /// The charge-point-wide scope (no EVSE, no connector).
    pub open spec fn cs_spec() -> Scope {
        Scope { evse: None, connector: None }
    }

    /// The charge-point-wide scope.
    pub fn cs() -> (r: Scope)
        ensures
            r == Scope::cs_spec(),
    {
        Scope { evse: None, connector: None }
    }

    /// Whether this is the charge-point-wide scope.
    pub fn is_cs(&self) -> (r: bool)
        ensures
            r == (*self == Scope::cs_spec()),
    {
        self.evse.is_none() && self.connector.is_none()
    }

    /// The scope of connector `id` (OCPP 1.6 addressing).
    pub fn connector(id: i64) -> (r: Scope)
        ensures
            r == (Scope { evse: None, connector: Some(id) }),
    {
        Scope { evse: None, connector: Some(id) }
    }

    /// The scope of EVSE `evse`, optionally narrowed to one of its connectors (OCPP 2.x
    /// addressing).
    pub fn evse(evse: i64, connector: Option<i64>) -> (r: Scope)
        ensures
            r == (Scope { evse: Some(evse), connector }),
    {
        Scope { evse: Some(evse), connector }
    }
}

} // verus!
