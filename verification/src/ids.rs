//! View-function addressing.
//!
//! Every query is addressed by a 32-byte identifier: a 16-byte prefix
//! derived from the owning module's identity and a 16-byte suffix derived
//! from the query's canonical signature.  Both halves are context-tagged
//! hashes; the two tags differ, so a prefix can never be confused with a
//! suffix.

use vstd::prelude::*;
use crate::hashing::{hash16, hash16_of};

verus! {

/// Context tag under which module-identity hashes are computed.
pub open spec fn prefix_tag() -> Seq<u8> {
    seq![118u8, 102u8, 112u8, 58u8]
}

/// Context tag under which signature hashes are computed.
pub open spec fn suffix_tag() -> Seq<u8> {
    seq![118u8, 102u8, 115u8, 58u8]
}

/// The prefix assigned to a module whose identity is `name`.
pub open spec fn prefix_hash(name: Seq<u8>) -> Seq<u8> {
    hash16_of(prefix_tag(), name)
}

/// The suffix assigned to a query whose canonical signature is `sig`.
pub open spec fn suffix_hash(sig: Seq<u8>) -> Seq<u8> {
    hash16_of(suffix_tag(), sig)
}

fn prefix_tag_bytes() -> (v: Vec<u8>)
    ensures
        v@ == prefix_tag(),
{
    let mut v: Vec<u8> = Vec::new();
    v.push(118u8);
    v.push(102u8);
    v.push(112u8);
    v.push(58u8);
    proof {
        assert(v@ =~= prefix_tag());
    }
    v
}

fn suffix_tag_bytes() -> (v: Vec<u8>)
    ensures
        v@ == suffix_tag(),
{
    let mut v: Vec<u8> = Vec::new();
    v.push(118u8);
    v.push(102u8);
    v.push(115u8);
    v.push(58u8);
    proof {
        assert(v@ =~= suffix_tag());
    }
    v
}

/// The 32-byte address of one view function: the owning module's prefix and
/// the query's own signature suffix.  Identifiers are compared by byte
/// equality; no ordering is defined.
#[derive(Clone, Copy, Debug, PartialEq, Eq)]
pub struct ViewFunctionId {
    /// First 16 bytes of the context-tagged hash of the module's identity.
    pub prefix: [u8; 16],
    /// First 16 bytes of the context-tagged hash of the query's canonical
    /// signature.
    pub suffix: [u8; 16],
}

impl ViewFunctionId {
    /// Byte equality of two identifiers, the only comparison routing uses.
    pub open spec fn spec_same(self, other: ViewFunctionId) -> bool {
        self.prefix@ == other.prefix@ && self.suffix@ == other.suffix@
    }
}

/// Byte equality of two 16-byte halves.
pub fn eq16(a: &[u8; 16], b: &[u8; 16]) -> (r: bool)
    ensures
        r <==> a@ == b@,
{
    let mut i: usize = 0;
    while i < 16
        invariant
            0 <= i <= 16,
            forall|j: int| 0 <= j < i ==> a@[j] == b@[j],
        decreases 16 - i,
    {
        if a[i] != b[i] {
            return false;
        }
        i += 1;
    }
    proof {
        assert(a@ =~= b@);
    }
    true
}

/// The suffix of a query whose canonical signature is `sig`: the
/// context-tagged 16-byte hash of the signature bytes.  Pure and
/// deterministic; distinct signatures are expected (with cryptographic-hash
/// confidence) to give distinct suffixes, but nothing here assumes so.
pub fn suffix_of(sig: &Vec<u8>) -> (r: [u8; 16])
    ensures
        r@ == suffix_hash(sig@),
{
    let tag = suffix_tag_bytes();
    hash16(&tag, sig)
}

/// A module's identity within a runtime: its registered name, whether it
/// has been attached to the runtime yet, and the memoized prefix.
///
/// The prefix may only be requested once the module is attached; asking
/// earlier signals a broken assembly order and is reported as a fault.
pub struct ModuleIdentity {
    name: Vec<u8>,
    attached: bool,
    cached_prefix: Option<[u8; 16]>,
}

/// A fault raised while a metadata document is being constructed.  These
/// indicate a broken build or registration order; construction aborts and
/// nothing is retried.
#[derive(Clone, Copy, Debug, PartialEq, Eq, Structural)]
pub enum AssemblyError {
    /// A module's prefix was requested before the module was attached to a
    /// runtime.
    IdentityUnavailable,
    /// Two queries of one module hashed to the same signature suffix, which
    /// would make one of them permanently unreachable.
    DuplicateSuffix,
}

impl ModuleIdentity {
    /// The module's registered name.
    pub closed spec fn spec_name(self) -> Seq<u8> {
        self.name@
    }

    /// Whether the module has been attached to a runtime.
    pub closed spec fn spec_attached(self) -> bool {
        self.attached
    }

    /// The memo holds the prefix of `name` or nothing.
    pub closed spec fn wf(self) -> bool {
        self.cached_prefix matches Some(h) ==> h@ == prefix_hash(self.name@)
    }

    /// A module that has not yet been attached to a runtime.
    pub fn new(name: Vec<u8>) -> (m: ModuleIdentity)
        ensures
            m.wf(),
            m.spec_name() == name@,
            !m.spec_attached(),
    {
        ModuleIdentity { name, attached: false, cached_prefix: None }
    }

    /// Attach the module to a runtime, making its identity available.
    pub fn attach(&mut self)
        requires
            old(self).wf(),
        ensures
            final(self).wf(),
            final(self).spec_name() == old(self).spec_name(),
            final(self).spec_attached(),
    {
        self.attached = true;
    }

    /// The module's 16-byte prefix: the context-tagged hash of its name,
    /// computed once and memoized.  Fails exactly when the module has not
    /// been attached; repeated calls return the same bytes.
    pub fn prefix_of(&mut self) -> (r: Result<[u8; 16], AssemblyError>)
        requires
            old(self).wf(),
        ensures
            final(self).wf(),
            final(self).spec_name() == old(self).spec_name(),
            final(self).spec_attached() == old(self).spec_attached(),
            old(self).spec_attached() ==> (r matches Ok(h) && h@ == prefix_hash(
                old(self).spec_name(),
            )),
            !old(self).spec_attached() ==> r == Err::<[u8; 16], AssemblyError>(
                AssemblyError::IdentityUnavailable,
            ),
    {
        if !self.attached {
            return Err(AssemblyError::IdentityUnavailable);
        }
        match self.cached_prefix {
            Some(h) => Ok(h),
            None => {
                let tag = prefix_tag_bytes();
                let h = hash16(&tag, &self.name);
                self.cached_prefix = Some(h);
                Ok(h)
            },
        }
    }

    /// The module's name as bytes, for building canonical signatures.
    pub fn name(&self) -> (r: &Vec<u8>)
        ensures
            r@ == self.spec_name(),
    {
        &self.name
    }
}

} // verus!
