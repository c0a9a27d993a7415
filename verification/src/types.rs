//! General value types used by every part of the crate.

use vstd::prelude::*;

verus! {

/// Identifier of a world map from the resources.
#[derive(Debug, Clone, PartialEq, Eq, Structural)]
pub struct WorldID(pub u32);

/// Identifier of an object template.
#[derive(Debug, Clone, PartialEq, Eq, Structural)]
pub struct ObjectTemplate(pub u32);

/// Identifier of an object instance.
#[derive(Debug, Clone)]
pub struct ObjectID {
    /// The bitmask for the scope of this object
    pub scope: u32,
    /// The serial ID of this object
    pub id: u32,
}

impl WorldID {
    /// The identifier with the number `n`; every `u32` is one.
    pub fn from_u32(n: u32) -> (r: Option<WorldID>)
        ensures
            r == Some(WorldID(n)),
    {
        Some(WorldID(n))
    }

    /// The identifier with the number `n`, if `n` fits in a `u32`.
    pub fn from_i64(n: i64) -> (r: Option<WorldID>)
        ensures
            0 <= n <= u32::MAX ==> r == Some(WorldID(n as u32)),
            !(0 <= n <= u32::MAX) ==> r is None,
    {
        if 0 <= n && n <= 0xFFFF_FFFF {
            Some(WorldID(n as u32))
        } else {
            None
        }
    }

    /// The identifier with the number `n`, if `n` fits in a `u32`.
    pub fn from_u64(n: u64) -> (r: Option<WorldID>)
        ensures
            n <= u32::MAX ==> r == Some(WorldID(n as u32)),
            n > u32::MAX ==> r is None,
    {
        if n <= 0xFFFF_FFFF {
            Some(WorldID(n as u32))
        } else {
            None
        }
    }

    /// The identifier's number.
    pub fn to_u32(&self) -> (r: Option<u32>)
        ensures
            r == Some(self.0),
    {
        Some(self.0)
    }

    /// The identifier's number, widened.
    pub fn to_i64(&self) -> (r: Option<i64>)
        ensures
            r == Some(self.0 as i64),
    {
        Some(self.0 as i64)
    }

    /// The identifier's number, widened.
    pub fn to_u64(&self) -> (r: Option<u64>)
        ensures
            r == Some(self.0 as u64),
    {
        Some(self.0 as u64)
    }
}

impl ObjectTemplate {
    /// The template identifier with the number `n`; every `u32` is one.
    pub fn from_u32(n: u32) -> (r: Option<ObjectTemplate>)
        ensures
            r == Some(ObjectTemplate(n)),
    {
        Some(ObjectTemplate(n))
    }

    /// The template identifier with the number `n`, if `n` fits in a `u32`.
    pub fn from_i64(n: i64) -> (r: Option<ObjectTemplate>)
        ensures
            0 <= n <= u32::MAX ==> r == Some(ObjectTemplate(n as u32)),
            !(0 <= n <= u32::MAX) ==> r is None,
    {
        if 0 <= n && n <= 0xFFFF_FFFF {
            Some(ObjectTemplate(n as u32))
        } else {
            None
        }
    }

    /// The template identifier with the number `n`, if `n` fits in a `u32`.
    pub fn from_u64(n: u64) -> (r: Option<ObjectTemplate>)
        ensures
            n <= u32::MAX ==> r == Some(ObjectTemplate(n as u32)),
            n > u32::MAX ==> r is None,
    {
        if n <= 0xFFFF_FFFF {
            Some(ObjectTemplate(n as u32))
        } else {
            None
        }
    }

    /// The identifier's number.
    pub fn to_u32(&self) -> (r: Option<u32>)
        ensures
            r == Some(self.0),
    {
        Some(self.0)
    }

    /// The identifier's number, widened.
    pub fn to_i64(&self) -> (r: Option<i64>)
        ensures
            r == Some(self.0 as i64),
    {
        Some(self.0 as i64)
    }

    /// The identifier's number, widened.
    pub fn to_u64(&self) -> (r: Option<u64>)
        ensures
            r == Some(self.0 as u64),
    {
        Some(self.0 as u64)
    }
}

impl ObjectID {
    /// The identifier with the given scope and serial number.
    pub fn new(scope: u32, id: u32) -> (r: ObjectID)
        ensures
            r.scope == scope,
            r.id == id,
    {
        ObjectID { scope, id }
    }
}

} // verus!
