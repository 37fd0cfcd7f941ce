//! The metadata assembler.
//!
//! A module author declares each view function once: name, ordered
//! arguments with their type names and cache keys, return type and
//! documentation.  From that list the assembler produces the module's
//! documented group: one metadata record per query, carrying the
//! identifier computed from the module's identity and the query's
//! canonical signature.
//!
//! The canonical signature of a query is the byte string
//! `name(ty1,ty2,...)->ret` built from the declared name and type names;
//! it fixes one spelling so that equal declarations always hash to the
//! same suffix.  The owning module does not enter the suffix: identically
//! declared queries on two modules share a suffix and are told apart by
//! the identifier's module prefix, which the caller matches before
//! dispatching.  Two queries of one module whose signatures hash to the
//! same suffix would leave one of them unreachable, so assembly rejects
//! the group instead.

use vstd::prelude::*;
use crate::ids::{
    eq16, prefix_hash, suffix_hash, suffix_of, AssemblyError, ModuleIdentity, ViewFunctionId,
};
use crate::registry::copy_bytes;
use crate::types::{docs_view, QueryArgMetadataIR, ViewFunctionMetadataIR, ViewFunctionsInterfaceIR};

verus! {

/// One declared argument: its name, the display name of its type, and the
/// type's cache key.
#[derive(Debug, Clone, PartialEq, Eq)]
pub struct ViewFunctionArgDef {
    /// Argument name.
    pub name: Vec<u8>,
    /// Display name of the argument's type, as it appears in the
    /// canonical signature.
    pub ty_name: Vec<u8>,
    /// Cache key of the argument's type.
    pub ty: u64,
}

/// One declared view function of a module.
#[derive(Debug, Clone, PartialEq, Eq)]
pub struct ViewFunctionDef {
    /// Query name.
    pub name: Vec<u8>,
    /// Ordered argument declarations.
    pub args: Vec<ViewFunctionArgDef>,
    /// Cache key of the return type.
    pub output: u64,
    /// Display name of the return type, as it appears in the canonical
    /// signature.
    pub output_ty_name: Vec<u8>,
    /// Query documentation.
    pub docs: Vec<Vec<u8>>,
}

/// The comma-separated argument type names of a signature.
pub open spec fn args_sig(s: Seq<ViewFunctionArgDef>) -> Seq<u8>
    decreases s.len(),
{
    if s.len() == 0 {
        Seq::empty()
    } else if s.len() == 1 {
        s[0].ty_name@
    } else {
        args_sig(s.drop_last()) + seq![44u8] + s.last().ty_name@
    }
}

/// The canonical signature of a declared query:
/// `name(ty1,ty2,...)->ret`.  It is a function of the declaration alone,
/// independent of the owning module.
pub open spec fn sig_spec(d: ViewFunctionDef) -> Seq<u8> {
    d.name@ + seq![40u8] + args_sig(d.args@) + seq![41u8, 45u8, 62u8] + d.output_ty_name@
}

/// Append `src` to `dst`.
fn append_bytes(dst: &mut Vec<u8>, src: &Vec<u8>)
    ensures
        final(dst)@ == old(dst)@ + src@,
{
    let n = src.len();
    let mut i: usize = 0;
    while i < n
        invariant
            0 <= i <= n,
            n == src@.len(),
            dst@ == old(dst)@ + src@.subrange(0, i as int),
        decreases n - i,
    {
        dst.push(src[i]);
        proof {
            assert(dst@ =~= old(dst)@ + src@.subrange(0, i + 1));
        }
        i += 1;
    }
    proof {
        assert(dst@ =~= old(dst)@ + src@);
    }
}

/// Copy a list of documentation strings byte for byte.
fn copy_docs(v: &Vec<Vec<u8>>) -> (r: Vec<Vec<u8>>)
    ensures
        docs_view(r@) == docs_view(v@),
{
    let n = v.len();
    let mut r: Vec<Vec<u8>> = Vec::new();
    let mut i: usize = 0;
    while i < n
        invariant
            0 <= i <= n,
            n == v@.len(),
            r@.len() == i,
            forall|k: int| 0 <= k < i ==> (#[trigger] r@[k])@ == v@[k]@,
        decreases n - i,
    {
        r.push(copy_bytes(&v[i]));
        i += 1;
    }
    proof {
        assert(docs_view(r@) =~= docs_view(v@));
    }
    r
}

/// Extending a take by one element extends the argument signature by the
/// element's type name, comma-separated after the first.
proof fn lemma_args_sig_step(s: Seq<ViewFunctionArgDef>, j: int)
    requires
        0 <= j < s.len(),
    ensures
        j == 0 ==> args_sig(s.take(1)) == s[0].ty_name@,
        j > 0 ==> args_sig(s.take(j + 1)) == args_sig(s.take(j)) + seq![44u8] + s[j].ty_name@,
{
    let t = s.take(j + 1);
    if j == 0 {
        assert(t.len() == 1);
        assert(t[0] == s[0]);
    } else {
        assert(t.len() == j + 1);
        assert(t.drop_last() =~= s.take(j));
        assert(t.last() == s[j]);
    }
}

/// The canonical signature bytes of the declaration `d`.
#[verifier::loop_isolation(false)]
pub fn canonical_signature(d: &ViewFunctionDef) -> (r: Vec<u8>)
    ensures
        r@ == sig_spec(*d),
{
    let mut out: Vec<u8> = Vec::new();
    append_bytes(&mut out, &d.name);
    out.push(40u8);
    let ghost base = d.name@ + seq![40u8];
    proof {
        assert(out@ =~= base);
        assert(d.args@.take(0) =~= Seq::<ViewFunctionArgDef>::empty());
    }
    let n = d.args.len();
    let mut j: usize = 0;
    while j < n
        invariant
            0 <= j <= n,
            out@ == base + args_sig(d.args@.take(j as int)),
        decreases n - j,
    {
        let ghost out0 = out@;
        if j > 0 {
            out.push(44u8);
        }
        append_bytes(&mut out, &d.args[j].ty_name);
        proof {
            lemma_args_sig_step(d.args@, j as int);
            if j == 0 {
                assert(out@ =~= base + args_sig(d.args@.take(1)));
            } else {
                assert(out@ =~= base + args_sig(d.args@.take(j + 1)));
            }
        }
        j += 1;
    }
    proof {
        assert(d.args@.take(n as int) =~= d.args@);
    }
    out.push(41u8);
    out.push(45u8);
    out.push(62u8);
    append_bytes(&mut out, &d.output_ty_name);
    proof {
        assert(out@ =~= sig_spec(*d));
    }
    out
}

/// Whether the doc-capture toggle embeds source documentation in the
/// metadata (`Always`) or omits it to shrink the document (`Never`).  No
/// other behavior differs between the two.
#[derive(Clone, Copy, Debug, PartialEq, Eq, Structural)]
pub enum CaptureDocs {
    /// Embed documentation strings.
    Always,
    /// Omit documentation strings.
    Never,
}

/// One assembled query record matches its declaration: same name,
/// identifier derived from the module's prefix and the canonical
/// signature's suffix, arguments and output carried over in order, and
/// docs per the capture toggle.
pub open spec fn query_matches(
    q: ViewFunctionMetadataIR,
    module: Seq<u8>,
    d: ViewFunctionDef,
    capture: CaptureDocs,
) -> bool {
    &&& q.name@ == d.name@
    &&& q.id.prefix@ == prefix_hash(module)
    &&& q.id.suffix@ == suffix_hash(sig_spec(d))
    &&& q.args@.len() == d.args@.len()
    &&& forall|j: int|
        0 <= j < d.args@.len() ==> (#[trigger] q.args@[j]).name@ == d.args@[j].name@
            && q.args@[j].ty == d.args@[j].ty
    &&& q.output == d.output
    &&& (capture is Always ==> docs_view(q.docs@) == docs_view(d.docs@))
    &&& (capture is Never ==> q.docs@.len() == 0)
}

/// The assembled group matches the declarations: module name carried
/// over, one matching query per declaration in order, group docs per the
/// capture toggle.
pub open spec fn group_matches(
    g: ViewFunctionsInterfaceIR,
    module: Seq<u8>,
    defs: Seq<ViewFunctionDef>,
    group_docs: Seq<Vec<u8>>,
    capture: CaptureDocs,
) -> bool {
    &&& g.name@ == module
    &&& g.queries@.len() == defs.len()
    &&& forall|i: int|
        0 <= i < defs.len() ==> #[trigger] query_matches(g.queries@[i], module, defs[i], capture)
    &&& (capture is Always ==> docs_view(g.docs@) == docs_view(group_docs))
    &&& (capture is Never ==> g.docs@.len() == 0)
}

/// No two declared queries of the module hash to the same suffix.
pub open spec fn suffixes_distinct(defs: Seq<ViewFunctionDef>) -> bool {
    forall|i: int, j: int|
        0 <= i < j < defs.len() ==> suffix_hash(sig_spec(#[trigger] defs[i])) != suffix_hash(
            sig_spec(#[trigger] defs[j]),
        )
}

/// A group assembled from declarations with distinct signature hashes
/// carries pairwise distinct suffix bytes, so building a routing table
/// from it can never hit the duplicate-suffix fault: uniqueness is
/// guaranteed at assembly time, by construction.
pub proof fn lemma_assembled_suffixes_distinct(
    g: ViewFunctionsInterfaceIR,
    module: Seq<u8>,
    defs: Seq<ViewFunctionDef>,
    group_docs: Seq<Vec<u8>>,
    capture: CaptureDocs,
)
    requires
        group_matches(g, module, defs, group_docs, capture),
        suffixes_distinct(defs),
    ensures
        forall|i: int, j: int|
            0 <= i < j < g.queries@.len() ==> (#[trigger] g.queries@[i]).id.suffix@ != (
            #[trigger] g.queries@[j]).id.suffix@,
{
    assert forall|i: int, j: int|
        0 <= i < j < g.queries@.len() implies (#[trigger] g.queries@[i]).id.suffix@ != (
    #[trigger] g.queries@[j]).id.suffix@ by {
        assert(query_matches(g.queries@[i], module, defs[i], capture));
        assert(query_matches(g.queries@[j], module, defs[j], capture));
        assert(suffix_hash(sig_spec(defs[i])) != suffix_hash(sig_spec(defs[j])));
    }
}

/// Builds one module's documented view-function group from its
/// declarations.
pub struct MetadataAssembler {
    /// The doc-capture toggle applied to every record.
    pub capture_docs: CaptureDocs,
}

impl MetadataAssembler {
    /// Assemble the module's group: compute each query's identifier from
    /// the module's prefix and the query's canonical signature, carry
    /// arguments, output and docs over, and reject the group if two
    /// queries share a suffix or the module has no identity yet.
    ///
    /// Calling this twice with the same inputs yields identical records.
    #[verifier::loop_isolation(false)]
    pub fn build_group(
        &self,
        module: &mut ModuleIdentity,
        defs: &Vec<ViewFunctionDef>,
        group_docs: &Vec<Vec<u8>>,
    ) -> (r: Result<ViewFunctionsInterfaceIR, AssemblyError>)
        requires
            old(module).wf(),
        ensures
            final(module).wf(),
            final(module).spec_name() == old(module).spec_name(),
            final(module).spec_attached() == old(module).spec_attached(),
            !old(module).spec_attached() ==> r == Err::<ViewFunctionsInterfaceIR, AssemblyError>(
                AssemblyError::IdentityUnavailable,
            ),
            old(module).spec_attached() && suffixes_distinct(defs@) ==> (
            r matches Ok(g) && group_matches(
                g,
                old(module).spec_name(),
                defs@,
                group_docs@,
                self.capture_docs,
            )),
            old(module).spec_attached() && !suffixes_distinct(defs@)
                ==> r == Err::<ViewFunctionsInterfaceIR, AssemblyError>(
                AssemblyError::DuplicateSuffix,
            ),
    {
        let prefix = match module.prefix_of() {
            Ok(p) => p,
            Err(e) => {
                return Err(e);
            },
        };
        let ghost mname = old(module).spec_name();
        let n = defs.len();
        let mut queries: Vec<ViewFunctionMetadataIR> = Vec::new();
        let mut i: usize = 0;
        while i < n
            invariant
                0 <= i <= n,
                n == defs@.len(),
                queries@.len() == i,
                module.wf(),
                module.spec_name() == mname,
                module.spec_attached() == old(module).spec_attached(),
                prefix@ == prefix_hash(mname),
                forall|k: int|
                    0 <= k < i ==> #[trigger] query_matches(
                        queries@[k],
                        mname,
                        defs@[k],
                        self.capture_docs,
                    ),
            decreases n - i,
        {
            let d = &defs[i];
            let sig = canonical_signature(d);
            let suffix = suffix_of(&sig);
            let m = d.args.len();
            let mut qargs: Vec<QueryArgMetadataIR> = Vec::new();
            let mut j: usize = 0;
            while j < m
                invariant
                    0 <= j <= m,
                    m == d.args@.len(),
                    qargs@.len() == j,
                    forall|k: int|
                        0 <= k < j ==> (#[trigger] qargs@[k]).name@ == d.args@[k].name@
                            && qargs@[k].ty == d.args@[k].ty,
                decreases m - j,
            {
                qargs.push(QueryArgMetadataIR { name: copy_bytes(&d.args[j].name), ty: d.args[j].ty });
                j += 1;
            }
            let docs = match self.capture_docs {
                CaptureDocs::Always => copy_docs(&d.docs),
                CaptureDocs::Never => Vec::new(),
            };
            let q = ViewFunctionMetadataIR {
                name: copy_bytes(&d.name),
                id: ViewFunctionId { prefix, suffix },
                args: qargs,
                output: d.output,
                docs,
            };
            let ghost qs0 = queries@;
            queries.push(q);
            proof {
                assert forall|k: int| 0 <= k < i + 1 implies #[trigger] query_matches(
                    queries@[k],
                    mname,
                    defs@[k],
                    self.capture_docs,
                ) by {
                    if k < i {
                        assert(queries@[k] == qs0[k]);
                        assert(query_matches(qs0[k], mname, defs@[k], self.capture_docs));
                    } else {
                        assert(query_matches(queries@[k], mname, defs@[k], self.capture_docs));
                    }
                }
            }
            i += 1;
        }
        let mut a: usize = 0;
        while a < n
            invariant
                0 <= a <= n,
                n == defs@.len(),
                queries@.len() == n,
                forall|k: int|
                    0 <= k < n ==> #[trigger] query_matches(
                        queries@[k],
                        mname,
                        defs@[k],
                        self.capture_docs,
                    ),
                forall|x: int, y: int|
                    0 <= x < a && x < y < n ==> suffix_hash(sig_spec(#[trigger] defs@[x]))
                        != suffix_hash(sig_spec(#[trigger] defs@[y])),
            decreases n - a,
        {
            let mut b: usize = a + 1;
            while b < n
                invariant
                    0 <= a < n,
                    a < b <= n,
                    n == defs@.len(),
                    queries@.len() == n,
                    forall|k: int|
                        0 <= k < n ==> #[trigger] query_matches(
                            queries@[k],
                            mname,
                            defs@[k],
                            self.capture_docs,
                        ),
                    forall|y: int|
                        a < y < b ==> suffix_hash(sig_spec(defs@[a as int])) != suffix_hash(
                            sig_spec(#[trigger] defs@[y]),
                        ),
                decreases n - b,
            {
                if eq16(&queries[a].id.suffix, &queries[b].id.suffix) {
                    proof {
                        assert(query_matches(queries@[a as int], mname, defs@[a as int], self.capture_docs));
                        assert(query_matches(queries@[b as int], mname, defs@[b as int], self.capture_docs));
                        assert(!suffixes_distinct(defs@));
                    }
                    return Err(AssemblyError::DuplicateSuffix);
                }
                proof {
                    assert(query_matches(
                        queries@[a as int],
                        mname,
                        defs@[a as int],
                        self.capture_docs,
                    ));
                    assert(query_matches(
                        queries@[b as int],
                        mname,
                        defs@[b as int],
                        self.capture_docs,
                    ));
                }
                b += 1;
            }
            a += 1;
        }
        proof {
            assert forall|x: int, y: int|
                0 <= x < y < defs@.len() implies suffix_hash(sig_spec(#[trigger] defs@[x]))
                != suffix_hash(sig_spec(#[trigger] defs@[y])) by {
                assert(query_matches(queries@[x], mname, defs@[x], self.capture_docs));
                assert(query_matches(queries@[y], mname, defs@[y], self.capture_docs));
            }
        }
        let gdocs = match self.capture_docs {
            CaptureDocs::Always => copy_docs(group_docs),
            CaptureDocs::Never => Vec::new(),
        };
        Ok(ViewFunctionsInterfaceIR { name: copy_bytes(module.name()), queries, docs: gdocs })
    }
}

} // verus!
