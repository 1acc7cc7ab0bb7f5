//! Reference capabilities and pointer kinds, and the algebra over them.
use vstd::prelude::*;
use vstd::string::StringExecFns;

verus! {

/// The six reference capabilities of the language.
#[derive(Clone, Copy, Debug, PartialEq, Eq, Structural, Hash)]
pub enum ReferenceCapability {
    /// Unique and mutable: no other alias can read or write.
    Iso,
    /// Transitional: mutable, other aliases are read-only.
    Trn,
    /// Mutable and freely aliased.
    Mut,
    /// Deeply immutable.
    Val,
    /// Read-only view.
    Box,
    /// Opaque identity: no reads, no writes.
    Tag,
}

/// How a reference is represented: a raw pointer or a managed (tracked) reference.
#[derive(Clone, Copy, Debug, PartialEq, Eq, Structural, Hash)]
pub enum PointerKind {
    Raw,
    Managed,
}

/// `held` may coexist with an alias at capability `other`.
pub open spec fn aliases(held: ReferenceCapability, other: ReferenceCapability) -> bool {
    held == other
        || (held == ReferenceCapability::Iso && other == ReferenceCapability::Tag)
        || (held == ReferenceCapability::Trn && other == ReferenceCapability::Box)
}

/// Capabilities that may cross an actor boundary.
pub open spec fn is_sendable(c: ReferenceCapability) -> bool {
    c == ReferenceCapability::Iso || c == ReferenceCapability::Tag || c == ReferenceCapability::Val
}

/// Capabilities through which the referent may be written.
pub open spec fn allows_write(c: ReferenceCapability) -> bool {
    c == ReferenceCapability::Iso || c == ReferenceCapability::Trn || c == ReferenceCapability::Mut
}

/// The capability of a field declared at `field`, seen through a reference held at
/// `origin`; `None` where the origin grants no access to fields.
pub open spec fn adapted(origin: ReferenceCapability, field: ReferenceCapability) -> Option<ReferenceCapability> {
    match origin {
        ReferenceCapability::Iso => match field {
            ReferenceCapability::Iso => Some(ReferenceCapability::Iso),
            ReferenceCapability::Trn | ReferenceCapability::Mut | ReferenceCapability::Box => Some(ReferenceCapability::Tag),
            _ => Some(field),
        },
        ReferenceCapability::Trn => match field {
            ReferenceCapability::Trn | ReferenceCapability::Mut => Some(ReferenceCapability::Box),
            _ => Some(field),
        },
        ReferenceCapability::Mut => Some(field),
        ReferenceCapability::Val => match field {
            ReferenceCapability::Tag => Some(ReferenceCapability::Tag),
            _ => Some(ReferenceCapability::Val),
        },
        ReferenceCapability::Box => match field {
            ReferenceCapability::Iso | ReferenceCapability::Trn | ReferenceCapability::Mut => Some(ReferenceCapability::Tag),
            _ => Some(field),
        },
        ReferenceCapability::Tag => None,
    }
}

/// The keyword that names a capability.
pub open spec fn refcap_text(c: ReferenceCapability) -> Seq<char> {
    match c {
        ReferenceCapability::Iso => "iso"@,
        ReferenceCapability::Trn => "trn"@,
        ReferenceCapability::Mut => "mut"@,
        ReferenceCapability::Val => "val"@,
        ReferenceCapability::Box => "box"@,
        ReferenceCapability::Tag => "tag"@,
    }
}

impl ReferenceCapability {
    /// Can this capability be aliased as `other`?
    pub fn _can_alias(&self, other: Self) -> (r: bool)
        ensures
            r == aliases(*self, other),
    {
        if *self == other {
            return true;
        }
        match (*self, other) {
            (ReferenceCapability::Iso, ReferenceCapability::Tag) => true,
            (ReferenceCapability::Trn, ReferenceCapability::Box) => true,
            _ => false,
        }
    }

    /// Can this capability be sent to another actor?
    pub fn _sendable(&self) -> (r: bool)
        ensures
            r == is_sendable(*self),
    {
        match self {
            ReferenceCapability::Iso | ReferenceCapability::Tag | ReferenceCapability::Val => true,
            _ => false,
        }
    }

    /// Can the referent be mutated through this capability?
    pub fn _is_mutable(&self) -> (r: bool)
        ensures
            r == allows_write(*self),
    {
        match self {
            ReferenceCapability::Iso | ReferenceCapability::Trn | ReferenceCapability::Mut => true,
            _ => false,
        }
    }

    /// Combine the capability of the origin with the capability of one of its
    /// fields: what the field looks like from the origin's viewpoint.
    pub fn _adapt_viewpoint(&self, field: Self) -> (r: Option<Self>)
        ensures
            r == adapted(*self, field),
    {
        match (*self, field) {
            (ReferenceCapability::Iso, ReferenceCapability::Iso) => Some(ReferenceCapability::Iso),
            (ReferenceCapability::Iso, ReferenceCapability::Trn)
            | (ReferenceCapability::Iso, ReferenceCapability::Mut)
            | (ReferenceCapability::Iso, ReferenceCapability::Box) => Some(ReferenceCapability::Tag),
            (ReferenceCapability::Iso, x) => Some(x),
            (ReferenceCapability::Trn, ReferenceCapability::Trn)
            | (ReferenceCapability::Trn, ReferenceCapability::Mut) => Some(ReferenceCapability::Box),
            (ReferenceCapability::Trn, x) => Some(x),
            (ReferenceCapability::Mut, x) => Some(x),
            (ReferenceCapability::Val, ReferenceCapability::Tag) => Some(ReferenceCapability::Tag),
            (ReferenceCapability::Val, _) => Some(ReferenceCapability::Val),
            (ReferenceCapability::Box, ReferenceCapability::Iso)
            | (ReferenceCapability::Box, ReferenceCapability::Trn)
            | (ReferenceCapability::Box, ReferenceCapability::Mut) => Some(ReferenceCapability::Tag),
            (ReferenceCapability::Box, x) => Some(x),
            (ReferenceCapability::Tag, _) => None,
        }
    }

    /// The capability's keyword.
    pub fn to_string(&self) -> (r: String)
        ensures
            r@ == refcap_text(*self),
    {
        match self {
            ReferenceCapability::Iso => String::from_str("iso"),
            ReferenceCapability::Trn => String::from_str("trn"),
            ReferenceCapability::Mut => String::from_str("mut"),
            ReferenceCapability::Val => String::from_str("val"),
            ReferenceCapability::Box => String::from_str("box"),
            ReferenceCapability::Tag => String::from_str("tag"),
        }
    }
}

/// Aliasing is allowed for exactly eight ordered pairs of capabilities: the six
/// reflexive pairs, an `Iso` beside a `Tag`, and a `Trn` beside a `Box`.
pub proof fn lemma_alias_pairs(a: ReferenceCapability, b: ReferenceCapability)
    ensures
        aliases(a, b) <==> set![
            (ReferenceCapability::Iso, ReferenceCapability::Iso),
            (ReferenceCapability::Trn, ReferenceCapability::Trn),
            (ReferenceCapability::Mut, ReferenceCapability::Mut),
            (ReferenceCapability::Val, ReferenceCapability::Val),
            (ReferenceCapability::Box, ReferenceCapability::Box),
            (ReferenceCapability::Tag, ReferenceCapability::Tag),
            (ReferenceCapability::Iso, ReferenceCapability::Tag),
            (ReferenceCapability::Trn, ReferenceCapability::Box),
        ].contains((a, b)),
{
}

/// Exactly `Iso`, `Tag` and `Val` are sendable.
pub proof fn lemma_sendable_exactly(c: ReferenceCapability)
    ensures
        is_sendable(c) <==> set![ReferenceCapability::Iso, ReferenceCapability::Tag, ReferenceCapability::Val].contains(c),
{
}

/// Exactly `Iso`, `Trn` and `Mut` are mutable.
pub proof fn lemma_mutable_exactly(c: ReferenceCapability)
    ensures
        allows_write(c) <==> set![ReferenceCapability::Iso, ReferenceCapability::Trn, ReferenceCapability::Mut].contains(c),
{
}

/// A `Mut` origin is transparent: every field keeps its own capability.
pub proof fn lemma_mut_origin_transparent(field: ReferenceCapability)
    ensures
        adapted(ReferenceCapability::Mut, field) == Some(field),
{
}

/// Immutability is absorbing: through a `Val` origin every field is `Val`, but a
/// `Tag` field stays `Tag`.
pub proof fn lemma_val_origin_absorbs(field: ReferenceCapability)
    ensures
        field != ReferenceCapability::Tag ==> adapted(ReferenceCapability::Val, field) == Some(ReferenceCapability::Val),
        adapted(ReferenceCapability::Val, ReferenceCapability::Tag) == Some(ReferenceCapability::Tag),
{
}

/// A `Tag` origin grants no access to any field.
pub proof fn lemma_tag_origin_opaque(field: ReferenceCapability)
    ensures
        adapted(ReferenceCapability::Tag, field).is_none(),
{
}

} // verus!
