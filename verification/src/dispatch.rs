//! View-function dispatch.
//!
//! Per module, a routing table from signature suffix to query
//! implementation, built once at assembly time and immutable afterwards.
//! The caller matches an identifier's prefix against the module before
//! dispatching; the dispatcher resolves the suffix within the module,
//! lets the query decode its input and invoke itself, and appends the
//! encoded result to the output sink.  An unknown suffix and a malformed
//! input are reported as distinct errors, and nothing is written to the
//! sink unless the query succeeded.

use vstd::prelude::*;
use crate::ids::{eq16, AssemblyError, ViewFunctionId};
use crate::types::ViewFunctionsInterfaceIR;

verus! {

/// A failure to decode a query's input buffer, reported by the query's
/// own argument schema.
#[derive(Clone, Copy, Debug, PartialEq, Eq, Structural)]
pub struct QueryDecodeError {
}

/// Why a dispatch did not run a query to completion.
#[derive(Clone, Copy, Debug, PartialEq, Eq)]
pub enum ViewFunctionDispatchError {
    /// No query with the identifier's suffix is registered on this
    /// module; carries the full identifier for diagnostics.
    NotFound(ViewFunctionId),
    /// The resolved query could not decode the input buffer.
    Codec(QueryDecodeError),
}

/// A query implementation: it decodes its arguments from the input
/// buffer by its own schema, invokes the query body, and returns the
/// encoded result.  A malformed input is reported as a decode failure,
/// never swallowed.
pub trait ViewFunction {
    /// Decode, invoke, encode.
    fn invoke(&self, input: &Vec<u8>) -> Result<Vec<u8>, QueryDecodeError>;
}

/// One routing entry: a query keyed by its 16-byte signature suffix.
pub struct RouteEntry<Q> {
    /// The query's signature suffix.
    pub suffix: [u8; 16],
    /// The query implementation.
    pub query: Q,
}

/// No two entries share a suffix; a duplicate would make one query
/// permanently unreachable.
pub open spec fn routes_distinct<Q>(rs: Seq<RouteEntry<Q>>) -> bool {
    forall|i: int, j: int|
        0 <= i < j < rs.len() ==> (#[trigger] rs[i]).suffix@ != (#[trigger] rs[j]).suffix@
}

/// One module's routing table from signature suffix to query
/// implementation.
pub struct ViewFunctionDispatcher<Q> {
    routes: Vec<RouteEntry<Q>>,
}

impl<Q> ViewFunctionDispatcher<Q> {
    /// The routing entries, in registration order.
    pub closed spec fn routes_seq(self) -> Seq<RouteEntry<Q>> {
        self.routes@
    }

    /// Whether some entry is keyed by the suffix `s`.
    pub open spec fn spec_has_suffix(self, s: Seq<u8>) -> bool {
        exists|i: int| 0 <= i < self.routes_seq().len() && (#[trigger] self.routes_seq()[i]).suffix@
            == s
    }

    /// The table holds no duplicate suffix.
    pub open spec fn wf(self) -> bool {
        routes_distinct(self.routes_seq())
    }

    /// Build the routing table from a module's query list.  A list in
    /// which two queries share a suffix is rejected: routing must never
    /// silently shadow a query.
    pub fn new(routes: Vec<RouteEntry<Q>>) -> (r: Result<ViewFunctionDispatcher<Q>, AssemblyError>)
        ensures
            routes_distinct(routes@) ==> (r matches Ok(d) && d.routes_seq() == routes@),
            !routes_distinct(routes@) ==> (r matches Err(e) && e
                == AssemblyError::DuplicateSuffix),
            r matches Ok(d) ==> d.wf() && d.routes_seq() == routes@,
    {
        let n = routes.len();
        let mut a: usize = 0;
        while a < n
            invariant
                0 <= a <= n,
                n == routes@.len(),
                forall|x: int, y: int|
                    0 <= x < a && x < y < n ==> (#[trigger] routes@[x]).suffix@ != (
                    #[trigger] routes@[y]).suffix@,
            decreases n - a,
        {
            let mut b: usize = a + 1;
            while b < n
                invariant
                    0 <= a < n,
                    a < b <= n,
                    n == routes@.len(),
                    forall|x: int, y: int|
                        0 <= x < a && x < y < n ==> (#[trigger] routes@[x]).suffix@ != (
                        #[trigger] routes@[y]).suffix@,
                    forall|y: int|
                        a < y < b ==> routes@[a as int].suffix@ != (#[trigger] routes@[y]).suffix@,
                decreases n - b,
            {
                if eq16(&routes[a].suffix, &routes[b].suffix) {
                    return Err(AssemblyError::DuplicateSuffix);
                }
                b += 1;
            }
            a += 1;
        }
        Ok(ViewFunctionDispatcher { routes })
    }
}

impl<Q: ViewFunction> ViewFunctionDispatcher<Q> {
    /// Route `id` by its suffix and run the matching query on `input`,
    /// appending the encoded result to `output`.
    ///
    /// Exactly when no entry carries the suffix, dispatch fails with
    /// `NotFound` holding that identifier.  A decode failure of the
    /// resolved query is reported as the distinct `Codec` error.  On
    /// either error the output sink is untouched; on success the sink is
    /// extended by exactly the bytes the matched entry's own query
    /// returned, as that query's `invoke` postcondition describes them.
    pub fn dispatch(
        &self,
        id: &ViewFunctionId,
        input: &Vec<u8>,
        output: &mut Vec<u8>,
    ) -> (r: Result<(), ViewFunctionDispatchError>)
        ensures
            !self.spec_has_suffix(id.suffix@) ==> (r matches Err(e) && e
                == ViewFunctionDispatchError::NotFound(*id) && final(output)@ == old(output)@),
            (r matches Err(e) && e is NotFound) ==> !self.spec_has_suffix(id.suffix@),
            (r matches Err(e) && e is Codec) ==> self.spec_has_suffix(id.suffix@)
                && final(output)@ == old(output)@,
            r is Ok ==> exists|i: int, b: Vec<u8>|
                0 <= i < self.routes_seq().len() && self.routes_seq()[i].suffix@ == id.suffix@
                    && #[trigger] call_ensures(
                    Q::invoke,
                    (&self.routes_seq()[i].query, input),
                    Ok(b),
                ) && final(output)@ == old(output)@ + b@,
    {
        let n = self.routes.len();
        let mut i: usize = 0;
        while i < n
            invariant
                0 <= i <= n,
                n == self.routes_seq().len(),
                output@ == old(output)@,
                forall|j: int| 0 <= j < i ==> (#[trigger] self.routes_seq()[j]).suffix@
                    != id.suffix@,
            decreases n - i,
        {
            if eq16(&self.routes[i].suffix, &id.suffix) {
                proof {
                    assert((#[trigger] self.routes_seq()[i as int]).suffix@ == id.suffix@);
                }
                match self.routes[i].query.invoke(input) {
                    Ok(encoded) => {
                        let ghost encoded0 = encoded;
                        proof {
                            assert(call_ensures(
                                Q::invoke,
                                (&self.routes_seq()[i as int].query, input),
                                Ok(encoded0),
                            ));
                        }
                        let mut encoded = encoded;
                        output.append(&mut encoded);
                        proof {
                            assert(output@ == old(output)@ + encoded0@);
                        }
                        return Ok(());
                    },
                    Err(e) => {
                        return Err(ViewFunctionDispatchError::Codec(e));
                    },
                }
            }
            i += 1;
        }
        Err(ViewFunctionDispatchError::NotFound(*id))
    }
}

/// Build a module's routing table from its assembled group and the
/// matching query implementations, one per metadata record in order.
/// Succeeds exactly when the group's suffixes are pairwise distinct,
/// which an assembled group guarantees by construction.
#[verifier::loop_isolation(false)]
pub fn routes_from_group<Q>(group: &ViewFunctionsInterfaceIR, queries: Vec<Q>) -> (r: Result<
    ViewFunctionDispatcher<Q>,
    AssemblyError,
>)
    requires
        queries@.len() == group.queries@.len(),
    ensures
        r matches Ok(d) ==> d.wf() && d.routes_seq().len() == group.queries@.len() && forall|i: int|
            0 <= i < group.queries@.len() ==> (#[trigger] d.routes_seq()[i]).suffix@
                == group.queries@[i].id.suffix@,
        (forall|i: int, j: int|
            0 <= i < j < group.queries@.len() ==> (#[trigger] group.queries@[i]).id.suffix@ != (
            #[trigger] group.queries@[j]).id.suffix@) ==> r is Ok,
        r matches Err(e) ==> e == AssemblyError::DuplicateSuffix,
{
    let ghost qsv = queries@;
    let n = group.queries.len();
    let mut rest = queries;
    let mut routes: Vec<RouteEntry<Q>> = Vec::new();
    let mut i: usize = 0;
    while rest.len() > 0
        invariant
            i + rest@.len() == n,
            routes@.len() == i,
            rest@ == qsv.subrange(i as int, qsv.len() as int),
            forall|k: int|
                0 <= k < i ==> (#[trigger] routes@[k]).suffix@ == group.queries@[k].id.suffix@,
        decreases rest@.len(),
    {
        let q = rest.remove(0);
        routes.push(RouteEntry { suffix: group.queries[i].id.suffix, query: q });
        proof {
            assert(rest@ =~= qsv.subrange(i + 1, qsv.len() as int));
        }
        i = routes.len();
    }
    let ghost routesv = routes@;
    let r = ViewFunctionDispatcher::new(routes);
    proof {
        if forall|x: int, y: int|
            0 <= x < y < group.queries@.len() ==> (#[trigger] group.queries@[x]).id.suffix@ != (
            #[trigger] group.queries@[y]).id.suffix@ {
            assert forall|x: int, y: int|
                0 <= x < y < routesv.len() implies (#[trigger] routesv[x]).suffix@ != (
            #[trigger] routesv[y]).suffix@ by {
                assert(group.queries@[x].id.suffix@ != group.queries@[y].id.suffix@);
            }
            assert(routes_distinct(routesv));
        }
    }
    r
}

} // verus!
