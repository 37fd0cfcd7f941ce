//! The metadata intermediate representation.
//!
//! A module's queries and storage entries are first described in *inline*
//! form, where every type is referenced by its cache key into a
//! [`TypeUniverse`].  `into_portable` rewrites a record into its
//! *portable* form against a [`TypeRegistry`]: field order and list order
//! are preserved, scalar fields are carried over unchanged, and exactly
//! the type references are replaced by registry handles.  Together with
//! the registry these conversions make up the portability pass: after it,
//! no inline reference remains anywhere in the document.

use vstd::prelude::*;
use crate::ids::ViewFunctionId;
use crate::registry::{
    handle_is_image, lemma_handle_image_stable, PortableTypeDescription, RegistryError,
    TypeRegistry, TypeUniverse,
};

verus! {

/// The documentation strings of two records, compared byte for byte.
pub open spec fn docs_view(docs: Seq<Vec<u8>>) -> Seq<Seq<u8>> {
    docs.map_values(|d: Vec<u8>| d@)
}

/// An argument of one view function: its name and the cache key of its
/// type.
#[derive(Debug, Clone, PartialEq, Eq)]
pub struct QueryArgMetadataIR {
    /// Query argument name.
    pub name: Vec<u8>,
    /// Query argument type.
    pub ty: u64,
}

/// An argument of one view function, with its type as a registry handle.
#[derive(Debug, Clone, PartialEq, Eq)]
pub struct PortableQueryArgMetadataIR {
    /// Query argument name.
    pub name: Vec<u8>,
    /// Query argument type.
    pub ty: u32,
}

/// The portable argument carries the same name and the handle of the
/// inline argument's type.
pub open spec fn arg_is_image(
    a: QueryArgMetadataIR,
    keys: Seq<u64>,
    p: PortableQueryArgMetadataIR,
) -> bool {
    &&& p.name@ == a.name@
    &&& handle_is_image(a.ty, keys, p.ty)
}

/// An argument image survives registry growth.
pub proof fn lemma_arg_image_stable(
    a: QueryArgMetadataIR,
    keys1: Seq<u64>,
    keys2: Seq<u64>,
    p: PortableQueryArgMetadataIR,
)
    requires
        keys1.is_prefix_of(keys2),
        keys2.no_duplicates(),
        arg_is_image(a, keys1, p),
    ensures
        arg_is_image(a, keys2, p),
{
    lemma_handle_image_stable(a.ty, keys1, keys2, p.ty);
}

/// Metadata of one view function: name, 32-byte identifier, arguments,
/// return type and documentation, with types as cache keys.
#[derive(Debug, Clone, PartialEq, Eq)]
pub struct ViewFunctionMetadataIR {
    /// Query name.
    pub name: Vec<u8>,
    /// Query id.
    pub id: ViewFunctionId,
    /// Query args.
    pub args: Vec<QueryArgMetadataIR>,
    /// Query output.
    pub output: u64,
    /// Query documentation.
    pub docs: Vec<Vec<u8>>,
}

/// Metadata of one view function with every type as a registry handle.
#[derive(Debug, Clone, PartialEq, Eq)]
pub struct PortableViewFunctionMetadataIR {
    /// Query name.
    pub name: Vec<u8>,
    /// Query id.
    pub id: ViewFunctionId,
    /// Query args.
    pub args: Vec<PortableQueryArgMetadataIR>,
    /// Query output.
    pub output: u32,
    /// Query documentation.
    pub docs: Vec<Vec<u8>>,
}

/// The portable record carries the same name, identifier and docs; its
/// arguments are imaged element by element and its output is the handle
/// of the inline output key.
pub open spec fn vf_is_image(
    m: ViewFunctionMetadataIR,
    keys: Seq<u64>,
    p: PortableViewFunctionMetadataIR,
) -> bool {
    &&& p.name@ == m.name@
    &&& p.id == m.id
    &&& p.args@.len() == m.args@.len()
    &&& forall|i: int|
        0 <= i < m.args@.len() ==> #[trigger] arg_is_image(m.args@[i], keys, p.args@[i])
    &&& handle_is_image(m.output, keys, p.output)
    &&& docs_view(p.docs@) == docs_view(m.docs@)
}

/// A view-function image survives registry growth.
pub proof fn lemma_vf_image_stable(
    m: ViewFunctionMetadataIR,
    keys1: Seq<u64>,
    keys2: Seq<u64>,
    p: PortableViewFunctionMetadataIR,
)
    requires
        keys1.is_prefix_of(keys2),
        keys2.no_duplicates(),
        vf_is_image(m, keys1, p),
    ensures
        vf_is_image(m, keys2, p),
{
    assert forall|i: int| 0 <= i < m.args@.len() implies #[trigger] arg_is_image(
        m.args@[i],
        keys2,
        p.args@[i],
    ) by {
        assert(arg_is_image(m.args@[i], keys1, p.args@[i]));
        lemma_arg_image_stable(m.args@[i], keys1, keys2, p.args@[i]);
    }
    lemma_handle_image_stable(m.output, keys1, keys2, p.output);
}

/// The cache keys a view function's metadata mentions are all described.
pub open spec fn vf_keys_in(m: ViewFunctionMetadataIR, u: TypeUniverse) -> bool {
    &&& u.spec_contains(m.output)
    &&& forall|i: int| 0 <= i < m.args@.len() ==> u.spec_contains(#[trigger] m.args@[i].ty)
}

/// One module's documented group of view functions, in inline form.
#[derive(Debug, Clone, PartialEq, Eq)]
pub struct ViewFunctionsInterfaceIR {
    /// Name of the query interface.
    pub name: Vec<u8>,
    /// Queries belonging to the query interface.
    pub queries: Vec<ViewFunctionMetadataIR>,
    /// Query interface documentation.
    pub docs: Vec<Vec<u8>>,
}

/// One module's documented group of view functions, in portable form.
#[derive(Debug, Clone, PartialEq, Eq)]
pub struct PortableViewFunctionsInterfaceIR {
    /// Name of the query interface.
    pub name: Vec<u8>,
    /// Queries belonging to the query interface.
    pub queries: Vec<PortableViewFunctionMetadataIR>,
    /// Query interface documentation.
    pub docs: Vec<Vec<u8>>,
}

/// The portable group carries the same name and docs and images every
/// query in order.
pub open spec fn interface_is_image(
    g: ViewFunctionsInterfaceIR,
    keys: Seq<u64>,
    p: PortableViewFunctionsInterfaceIR,
) -> bool {
    &&& p.name@ == g.name@
    &&& p.queries@.len() == g.queries@.len()
    &&& forall|i: int|
        0 <= i < g.queries@.len() ==> #[trigger] vf_is_image(g.queries@[i], keys, p.queries@[i])
    &&& docs_view(p.docs@) == docs_view(g.docs@)
}

/// The cache keys an interface mentions are all described.
pub open spec fn interface_keys_in(g: ViewFunctionsInterfaceIR, u: TypeUniverse) -> bool {
    forall|i: int| 0 <= i < g.queries@.len() ==> #[trigger] vf_keys_in(g.queries@[i], u)
}

impl QueryArgMetadataIR {
    /// Rewrite this argument into portable form, registering its type.
    pub fn into_portable(self, reg: &mut TypeRegistry, u: &TypeUniverse) -> (r: Result<
        PortableQueryArgMetadataIR,
        RegistryError,
    >)
        requires
            u.wf(),
            old(reg).wf_for(*u),
        ensures
            final(reg).wf_for(*u),
            TypeRegistry::extends(*old(reg), *final(reg)),
            r is Ok ==> forall|i: int|
                old(reg).spec_len() <= i < final(reg).spec_len() ==> (
                #[trigger] final(reg).table_seq()[i]) is Some,
            r matches Err(e) ==> (e matches RegistryError::MissingType(m) && !u.spec_contains(
                m,
            )),
            r matches Ok(p) ==> arg_is_image(self, final(reg).key_seq(), p),
            u.is_closed() && u.spec_contains(self.ty) ==> r is Ok,
    {
        let ty = match reg.register(u, self.ty) {
            Ok(h) => h,
            Err(e) => {
                return Err(e);
            },
        };
        Ok(PortableQueryArgMetadataIR { name: self.name, ty })
    }
}

impl ViewFunctionMetadataIR {
    /// Rewrite this query's metadata into portable form, registering its
    /// argument and output types in declaration order.
    #[verifier::loop_isolation(false)]
    pub fn into_portable(self, reg: &mut TypeRegistry, u: &TypeUniverse) -> (r: Result<
        PortableViewFunctionMetadataIR,
        RegistryError,
    >)
        requires
            u.wf(),
            old(reg).wf_for(*u),
        ensures
            final(reg).wf_for(*u),
            TypeRegistry::extends(*old(reg), *final(reg)),
            r is Ok ==> forall|i: int|
                old(reg).spec_len() <= i < final(reg).spec_len() ==> (
                #[trigger] final(reg).table_seq()[i]) is Some,
            r matches Err(e) ==> (e matches RegistryError::MissingType(m) && !u.spec_contains(
                m,
            )),
            r matches Ok(p) ==> vf_is_image(self, final(reg).key_seq(), p),
            u.is_closed() && vf_keys_in(self, *u) ==> r is Ok,
    {
        let ghost r0 = *reg;
        let ghost argsv = self.args@;
        let mut args = self.args;
        let mut pargs: Vec<PortableQueryArgMetadataIR> = Vec::new();
        let mut i: usize = 0;
        while args.len() > 0
            invariant
                reg.wf_for(*u),
                TypeRegistry::extends(r0, *reg),
                i + args@.len() == argsv.len(),
                args@ == argsv.subrange(i as int, argsv.len() as int),
                pargs@.len() == i,
                forall|k: int|
                    0 <= k < i ==> #[trigger] arg_is_image(argsv[k], reg.key_seq(), pargs@[k]),
                forall|k: int|
                    r0.spec_len() <= k < reg.spec_len() ==> (#[trigger] reg.table_seq()[k])
                        is Some,
            decreases args@.len(),
        {
            let ghost before = *reg;
            let a = args.remove(0);
            proof {
                assert(a == argsv[i as int]);
            }
            let pa = match a.into_portable(reg, u) {
                Ok(pa) => pa,
                Err(e) => {
                    proof {
                        TypeRegistry::lemma_extends_trans(r0, before, *reg);
                        if u.is_closed() && vf_keys_in(self, *u) {
                            assert(u.spec_contains(argsv[i as int].ty));
                        }
                    }
                    return Err(e);
                },
            };
            let ghost pargs0 = pargs@;
            pargs.push(pa);
            proof {
                TypeRegistry::lemma_extends_trans(r0, before, *reg);
                assert forall|k: int| 0 <= k < i + 1 implies #[trigger] arg_is_image(
                    argsv[k],
                    reg.key_seq(),
                    pargs@[k],
                ) by {
                    if k < i {
                        assert(pargs@[k] == pargs0[k]);
                        assert(arg_is_image(argsv[k], before.key_seq(), pargs0[k]));
                        lemma_arg_image_stable(argsv[k], before.key_seq(), reg.key_seq(), pargs0[k]);
                    } else {
                        assert(arg_is_image(argsv[k], reg.key_seq(), pa));
                    }
                }
                assert forall|k: int|
                    r0.spec_len() <= k < reg.spec_len() implies (#[trigger] reg.table_seq()[k])
                    is Some by {
                    if k < before.spec_len() {
                        assert(reg.table_seq()[k] == before.table_seq()[k]);
                    }
                }
                assert(args@ =~= argsv.subrange(i + 1, argsv.len() as int));
            }
            i = pargs.len();
        }
        let ghost before = *reg;
        let output = match reg.register(u, self.output) {
            Ok(h) => h,
            Err(e) => {
                proof {
                    TypeRegistry::lemma_extends_trans(r0, before, *reg);
                }
                return Err(e);
            },
        };
        proof {
            TypeRegistry::lemma_extends_trans(r0, before, *reg);
            assert forall|k: int| 0 <= k < argsv.len() implies #[trigger] arg_is_image(
                argsv[k],
                reg.key_seq(),
                pargs@[k],
            ) by {
                assert(arg_is_image(argsv[k], before.key_seq(), pargs@[k]));
                lemma_arg_image_stable(argsv[k], before.key_seq(), reg.key_seq(), pargs@[k]);
            }
            assert forall|k: int|
                r0.spec_len() <= k < reg.spec_len() implies (#[trigger] reg.table_seq()[k])
                is Some by {
                if k < before.spec_len() {
                    assert(reg.table_seq()[k] == before.table_seq()[k]);
                }
            }
        }
        Ok(
            PortableViewFunctionMetadataIR {
                name: self.name,
                id: self.id,
                args: pargs,
                output,
                docs: self.docs,
            },
        )
    }
}

impl ViewFunctionsInterfaceIR {
    /// Rewrite this group into portable form, registering every type any
    /// of its queries mentions.
    #[verifier::loop_isolation(false)]
    pub fn into_portable(self, reg: &mut TypeRegistry, u: &TypeUniverse) -> (r: Result<
        PortableViewFunctionsInterfaceIR,
        RegistryError,
    >)
        requires
            u.wf(),
            old(reg).wf_for(*u),
        ensures
            final(reg).wf_for(*u),
            TypeRegistry::extends(*old(reg), *final(reg)),
            r is Ok ==> forall|i: int|
                old(reg).spec_len() <= i < final(reg).spec_len() ==> (
                #[trigger] final(reg).table_seq()[i]) is Some,
            r matches Err(e) ==> (e matches RegistryError::MissingType(m) && !u.spec_contains(
                m,
            )),
            r matches Ok(p) ==> interface_is_image(self, final(reg).key_seq(), p),
            u.is_closed() && interface_keys_in(self, *u) ==> r is Ok,
            self.queries@.len() == 0 ==> *final(reg) == *old(reg),
    {
        let ghost r0 = *reg;
        let ghost qsv = self.queries@;
        let mut queries = self.queries;
        let mut pqs: Vec<PortableViewFunctionMetadataIR> = Vec::new();
        let mut i: usize = 0;
        while queries.len() > 0
            invariant
                reg.wf_for(*u),
                TypeRegistry::extends(r0, *reg),
                i + queries@.len() == qsv.len(),
                queries@ == qsv.subrange(i as int, qsv.len() as int),
                pqs@.len() == i,
                i == 0 ==> *reg == r0,
                forall|k: int|
                    0 <= k < i ==> #[trigger] vf_is_image(qsv[k], reg.key_seq(), pqs@[k]),
                forall|k: int|
                    r0.spec_len() <= k < reg.spec_len() ==> (#[trigger] reg.table_seq()[k])
                        is Some,
            decreases queries@.len(),
        {
            let ghost before = *reg;
            let q = queries.remove(0);
            proof {
                assert(q == qsv[i as int]);
            }
            let pq = match q.into_portable(reg, u) {
                Ok(pq) => pq,
                Err(e) => {
                    proof {
                        TypeRegistry::lemma_extends_trans(r0, before, *reg);
                        if u.is_closed() && interface_keys_in(self, *u) {
                            assert(vf_keys_in(qsv[i as int], *u));
                        }
                    }
                    return Err(e);
                },
            };
            let ghost pqs0 = pqs@;
            pqs.push(pq);
            proof {
                TypeRegistry::lemma_extends_trans(r0, before, *reg);
                assert forall|k: int| 0 <= k < i + 1 implies #[trigger] vf_is_image(
                    qsv[k],
                    reg.key_seq(),
                    pqs@[k],
                ) by {
                    if k < i {
                        assert(pqs@[k] == pqs0[k]);
                        assert(vf_is_image(qsv[k], before.key_seq(), pqs0[k]));
                        lemma_vf_image_stable(qsv[k], before.key_seq(), reg.key_seq(), pqs0[k]);
                    } else {
                        assert(vf_is_image(qsv[k], reg.key_seq(), pq));
                    }
                }
                assert forall|k: int|
                    r0.spec_len() <= k < reg.spec_len() implies (#[trigger] reg.table_seq()[k])
                    is Some by {
                    if k < before.spec_len() {
                        assert(reg.table_seq()[k] == before.table_seq()[k]);
                    }
                }
                assert(queries@ =~= qsv.subrange(i + 1, qsv.len() as int));
            }
            i = pqs.len();
        }
        Ok(
            PortableViewFunctionsInterfaceIR {
                name: self.name,
                queries: pqs,
                docs: self.docs,
            },
        )
    }
}

/// How a storage entry is returned when fetched: an `Option`, or the
/// value type's default when the key is absent.
#[derive(Clone, Copy, Debug, PartialEq, Eq, Structural)]
pub enum StorageEntryModifierIR {
    /// The storage entry returns an `Option`, `None` if the key is not
    /// present.
    Optional,
    /// The storage entry returns the default value if the key is not
    /// present.
    Default,
}

/// Hasher used by storage maps.
#[derive(Clone, Copy, Debug, PartialEq, Eq, Structural)]
pub enum StorageHasherIR {
    /// 128-bit Blake2 hash.
    Blake2_128,
    /// 256-bit Blake2 hash.
    Blake2_256,
    /// Multiple 128-bit Blake2 hashes concatenated.
    Blake2_128Concat,
    /// 128-bit XX hash.
    Twox128,
    /// 256-bit XX hash.
    Twox256,
    /// Multiple 64-bit XX hashes concatenated.
    Twox64Concat,
    /// Identity hashing (no hashing).
    Identity,
}

/// A type of storage value, with types as cache keys.
#[derive(Debug, Clone, PartialEq, Eq)]
pub enum StorageEntryTypeIR {
    /// Plain storage entry (just the value).
    Plain(u64),
    /// A storage map.
    StorageMap {
        /// One or more hashers, one per key element.
        hashers: Vec<StorageHasherIR>,
        /// The type of the key; a tuple for multiple hashers.
        key: u64,
        /// The type of the value.
        value: u64,
    },
}

/// A type of storage value, with types as registry handles.
#[derive(Debug, Clone, PartialEq, Eq)]
pub enum PortableStorageEntryTypeIR {
    /// Plain storage entry (just the value).
    Plain(u32),
    /// A storage map.
    StorageMap {
        /// One or more hashers, one per key element.
        hashers: Vec<StorageHasherIR>,
        /// The type of the key; a tuple for multiple hashers.
        key: u32,
        /// The type of the value.
        value: u32,
    },
}

/// The portable storage type keeps the hashers and replaces each type
/// reference by its handle.
pub open spec fn storage_type_is_image(
    t: StorageEntryTypeIR,
    keys: Seq<u64>,
    p: PortableStorageEntryTypeIR,
) -> bool {
    match (t, p) {
        (StorageEntryTypeIR::Plain(k), PortableStorageEntryTypeIR::Plain(h)) => handle_is_image(
            k,
            keys,
            h,
        ),
        (
            StorageEntryTypeIR::StorageMap { hashers, key, value },
            PortableStorageEntryTypeIR::StorageMap { hashers: ph, key: pk, value: pv },
        ) => {
            &&& ph@ == hashers@
            &&& handle_is_image(key, keys, pk)
            &&& handle_is_image(value, keys, pv)
        },
        _ => false,
    }
}

/// A storage-type image survives registry growth.
pub proof fn lemma_storage_type_image_stable(
    t: StorageEntryTypeIR,
    keys1: Seq<u64>,
    keys2: Seq<u64>,
    p: PortableStorageEntryTypeIR,
)
    requires
        keys1.is_prefix_of(keys2),
        keys2.no_duplicates(),
        storage_type_is_image(t, keys1, p),
    ensures
        storage_type_is_image(t, keys2, p),
{
    match (t, p) {
        (StorageEntryTypeIR::Plain(k), PortableStorageEntryTypeIR::Plain(h)) => {
            lemma_handle_image_stable(k, keys1, keys2, h);
        },
        (
            StorageEntryTypeIR::StorageMap { hashers, key, value },
            PortableStorageEntryTypeIR::StorageMap { hashers: ph, key: pk, value: pv },
        ) => {
            lemma_handle_image_stable(key, keys1, keys2, pk);
            lemma_handle_image_stable(value, keys1, keys2, pv);
        },
        _ => {},
    }
}

/// The cache keys a storage type mentions are all described.
pub open spec fn storage_type_keys_in(t: StorageEntryTypeIR, u: TypeUniverse) -> bool {
    match t {
        StorageEntryTypeIR::Plain(k) => u.spec_contains(k),
        StorageEntryTypeIR::StorageMap { hashers, key, value } => u.spec_contains(key)
            && u.spec_contains(value),
    }
}

/// Metadata about one storage entry, with its value type as a cache key.
#[derive(Debug, Clone, PartialEq, Eq)]
pub struct StorageEntryMetadataIR {
    /// Variable name of the storage entry.
    pub name: Vec<u8>,
    /// An `Option` modifier of that storage entry.
    pub modifier: StorageEntryModifierIR,
    /// Type of the value stored in the entry.
    pub ty: StorageEntryTypeIR,
    /// Default value (encoded).
    pub default: Vec<u8>,
    /// Storage entry documentation.
    pub docs: Vec<Vec<u8>>,
}

/// Metadata about one storage entry, with its value type as a handle.
#[derive(Debug, Clone, PartialEq, Eq)]
pub struct PortableStorageEntryMetadataIR {
    /// Variable name of the storage entry.
    pub name: Vec<u8>,
    /// An `Option` modifier of that storage entry.
    pub modifier: StorageEntryModifierIR,
    /// Type of the value stored in the entry.
    pub ty: PortableStorageEntryTypeIR,
    /// Default value (encoded).
    pub default: Vec<u8>,
    /// Storage entry documentation.
    pub docs: Vec<Vec<u8>>,
}

/// The portable entry carries name, modifier, default and docs unchanged
/// and images the storage type.
pub open spec fn storage_entry_is_image(
    e: StorageEntryMetadataIR,
    keys: Seq<u64>,
    p: PortableStorageEntryMetadataIR,
) -> bool {
    &&& p.name@ == e.name@
    &&& p.modifier == e.modifier
    &&& storage_type_is_image(e.ty, keys, p.ty)
    &&& p.default@ == e.default@
    &&& docs_view(p.docs@) == docs_view(e.docs@)
}

/// A storage-entry image survives registry growth.
pub proof fn lemma_storage_entry_image_stable(
    e: StorageEntryMetadataIR,
    keys1: Seq<u64>,
    keys2: Seq<u64>,
    p: PortableStorageEntryMetadataIR,
)
    requires
        keys1.is_prefix_of(keys2),
        keys2.no_duplicates(),
        storage_entry_is_image(e, keys1, p),
    ensures
        storage_entry_is_image(e, keys2, p),
{
    lemma_storage_type_image_stable(e.ty, keys1, keys2, p.ty);
}

/// All metadata of one module's storage, in inline form.
#[derive(Debug, Clone, PartialEq, Eq)]
pub struct PalletStorageMetadataIR {
    /// The common prefix used by all storage entries.
    pub prefix: Vec<u8>,
    /// Metadata for all storage entries.
    pub entries: Vec<StorageEntryMetadataIR>,
}

/// All metadata of one module's storage, in portable form.
#[derive(Debug, Clone, PartialEq, Eq)]
pub struct PortablePalletStorageMetadataIR {
    /// The common prefix used by all storage entries.
    pub prefix: Vec<u8>,
    /// Metadata for all storage entries.
    pub entries: Vec<PortableStorageEntryMetadataIR>,
}

/// The portable storage metadata carries the prefix unchanged and images
/// every entry in order.
pub open spec fn storage_is_image(
    s: PalletStorageMetadataIR,
    keys: Seq<u64>,
    p: PortablePalletStorageMetadataIR,
) -> bool {
    &&& p.prefix@ == s.prefix@
    &&& p.entries@.len() == s.entries@.len()
    &&& forall|i: int|
        0 <= i < s.entries@.len() ==> #[trigger] storage_entry_is_image(
            s.entries@[i],
            keys,
            p.entries@[i],
        )
}

/// The cache keys a module's storage mentions are all described.
pub open spec fn storage_keys_in(s: PalletStorageMetadataIR, u: TypeUniverse) -> bool {
    forall|i: int| 0 <= i < s.entries@.len() ==> #[trigger] storage_type_keys_in(
        s.entries@[i].ty,
        u,
    )
}

impl StorageEntryTypeIR {
    /// Rewrite this storage type into portable form, registering the
    /// types it references.
    pub fn into_portable(self, reg: &mut TypeRegistry, u: &TypeUniverse) -> (r: Result<
        PortableStorageEntryTypeIR,
        RegistryError,
    >)
        requires
            u.wf(),
            old(reg).wf_for(*u),
        ensures
            final(reg).wf_for(*u),
            TypeRegistry::extends(*old(reg), *final(reg)),
            r is Ok ==> forall|i: int|
                old(reg).spec_len() <= i < final(reg).spec_len() ==> (
                #[trigger] final(reg).table_seq()[i]) is Some,
            r matches Err(e) ==> (e matches RegistryError::MissingType(m) && !u.spec_contains(
                m,
            )),
            r matches Ok(p) ==> storage_type_is_image(self, final(reg).key_seq(), p),
            u.is_closed() && storage_type_keys_in(self, *u) ==> r is Ok,
    {
        match self {
            StorageEntryTypeIR::Plain(k) => {
                let h = match reg.register(u, k) {
                    Ok(h) => h,
                    Err(e) => {
                        return Err(e);
                    },
                };
                Ok(PortableStorageEntryTypeIR::Plain(h))
            },
            StorageEntryTypeIR::StorageMap { hashers, key, value } => {
                let ghost r0 = *reg;
                let pk = match reg.register(u, key) {
                    Ok(h) => h,
                    Err(e) => {
                        return Err(e);
                    },
                };
                let ghost r1 = *reg;
                let pv = match reg.register(u, value) {
                    Ok(h) => h,
                    Err(e) => {
                        proof {
                            TypeRegistry::lemma_extends_trans(r0, r1, *reg);
                        }
                        return Err(e);
                    },
                };
                proof {
                    TypeRegistry::lemma_extends_trans(r0, r1, *reg);
                    lemma_handle_image_stable(key, r1.key_seq(), reg.key_seq(), pk);
                    assert forall|i: int|
                        r0.spec_len() <= i < reg.spec_len() implies (
                    #[trigger] reg.table_seq()[i]) is Some by {
                        if i < r1.spec_len() {
                            assert(reg.table_seq()[i] == r1.table_seq()[i]);
                        }
                    }
                }
                Ok(PortableStorageEntryTypeIR::StorageMap { hashers, key: pk, value: pv })
            },
        }
    }
}

impl StorageEntryMetadataIR {
    /// Rewrite this storage entry into portable form.
    pub fn into_portable(self, reg: &mut TypeRegistry, u: &TypeUniverse) -> (r: Result<
        PortableStorageEntryMetadataIR,
        RegistryError,
    >)
        requires
            u.wf(),
            old(reg).wf_for(*u),
        ensures
            final(reg).wf_for(*u),
            TypeRegistry::extends(*old(reg), *final(reg)),
            r is Ok ==> forall|i: int|
                old(reg).spec_len() <= i < final(reg).spec_len() ==> (
                #[trigger] final(reg).table_seq()[i]) is Some,
            r matches Err(e) ==> (e matches RegistryError::MissingType(m) && !u.spec_contains(
                m,
            )),
            r matches Ok(p) ==> storage_entry_is_image(self, final(reg).key_seq(), p),
            u.is_closed() && storage_type_keys_in(self.ty, *u) ==> r is Ok,
    {
        let ty = match self.ty.into_portable(reg, u) {
            Ok(t) => t,
            Err(e) => {
                return Err(e);
            },
        };
        Ok(
            PortableStorageEntryMetadataIR {
                name: self.name,
                modifier: self.modifier,
                ty,
                default: self.default,
                docs: self.docs,
            },
        )
    }
}

impl PalletStorageMetadataIR {
    /// Rewrite this module's storage metadata into portable form,
    /// registering every type its entries mention.
    #[verifier::loop_isolation(false)]
    pub fn into_portable(self, reg: &mut TypeRegistry, u: &TypeUniverse) -> (r: Result<
        PortablePalletStorageMetadataIR,
        RegistryError,
    >)
        requires
            u.wf(),
            old(reg).wf_for(*u),
        ensures
            final(reg).wf_for(*u),
            TypeRegistry::extends(*old(reg), *final(reg)),
            r is Ok ==> forall|i: int|
                old(reg).spec_len() <= i < final(reg).spec_len() ==> (
                #[trigger] final(reg).table_seq()[i]) is Some,
            r matches Err(e) ==> (e matches RegistryError::MissingType(m) && !u.spec_contains(
                m,
            )),
            r matches Ok(p) ==> storage_is_image(self, final(reg).key_seq(), p),
            u.is_closed() && storage_keys_in(self, *u) ==> r is Ok,
            self.entries@.len() == 0 ==> *final(reg) == *old(reg),
    {
        let ghost r0 = *reg;
        let ghost esv = self.entries@;
        let mut entries = self.entries;
        let mut pes: Vec<PortableStorageEntryMetadataIR> = Vec::new();
        let mut i: usize = 0;
        while entries.len() > 0
            invariant
                reg.wf_for(*u),
                TypeRegistry::extends(r0, *reg),
                i + entries@.len() == esv.len(),
                entries@ == esv.subrange(i as int, esv.len() as int),
                pes@.len() == i,
                i == 0 ==> *reg == r0,
                forall|k: int|
                    0 <= k < i ==> #[trigger] storage_entry_is_image(
                        esv[k],
                        reg.key_seq(),
                        pes@[k],
                    ),
                forall|k: int|
                    r0.spec_len() <= k < reg.spec_len() ==> (#[trigger] reg.table_seq()[k])
                        is Some,
            decreases entries@.len(),
        {
            let ghost before = *reg;
            let e = entries.remove(0);
            proof {
                assert(e == esv[i as int]);
            }
            let pe = match e.into_portable(reg, u) {
                Ok(pe) => pe,
                Err(er) => {
                    proof {
                        TypeRegistry::lemma_extends_trans(r0, before, *reg);
                        if u.is_closed() && storage_keys_in(self, *u) {
                            assert(storage_type_keys_in(esv[i as int].ty, *u));
                        }
                    }
                    return Err(er);
                },
            };
            let ghost pes0 = pes@;
            pes.push(pe);
            proof {
                TypeRegistry::lemma_extends_trans(r0, before, *reg);
                assert forall|k: int| 0 <= k < i + 1 implies #[trigger] storage_entry_is_image(
                    esv[k],
                    reg.key_seq(),
                    pes@[k],
                ) by {
                    if k < i {
                        assert(pes@[k] == pes0[k]);
                        assert(storage_entry_is_image(esv[k], before.key_seq(), pes0[k]));
                        lemma_storage_entry_image_stable(
                            esv[k],
                            before.key_seq(),
                            reg.key_seq(),
                            pes0[k],
                        );
                    } else {
                        assert(storage_entry_is_image(esv[k], reg.key_seq(), pe));
                    }
                }
                assert forall|k: int|
                    r0.spec_len() <= k < reg.spec_len() implies (#[trigger] reg.table_seq()[k])
                    is Some by {
                    if k < before.spec_len() {
                        assert(reg.table_seq()[k] == before.table_seq()[k]);
                    }
                }
                assert(entries@ =~= esv.subrange(i + 1, esv.len() as int));
            }
            i = pes.len();
        }
        Ok(PortablePalletStorageMetadataIR { prefix: self.prefix, entries: pes })
    }
}

/// A finalized conversion is tied to the universe through the key order
/// the registry chose: the table holds, in handle order, the image of
/// each registered key's description, and the group's references point
/// into it.
pub open spec fn document_tied(
    u: TypeUniverse,
    keys: Seq<u64>,
    table: Seq<PortableTypeDescription>,
    g: ViewFunctionsInterfaceIR,
    p: PortableViewFunctionsInterfaceIR,
) -> bool {
    &&& keys.no_duplicates()
    &&& table.len() == keys.len()
    &&& forall|i: int|
        0 <= i < keys.len() ==> u.spec_contains(#[trigger] keys[i]) && crate::registry::is_image(
            u.desc_of(keys[i]),
            keys,
            table[i],
        )
    &&& interface_is_image(g, keys, p)
}

/// A successful conversion produced a table and group tied to the
/// universe by some key order.
pub open spec fn converted_ok(
    u: TypeUniverse,
    g: ViewFunctionsInterfaceIR,
    pr: (Vec<PortableTypeDescription>, PortableViewFunctionsInterfaceIR),
) -> bool {
    exists|keys: Seq<u64>| #[trigger] document_tied(u, keys, pr.0@, g, pr.1)
}

/// The portability pass in one step: walk the group, replace every type
/// reference by a handle into a fresh registry, and finalize the
/// registry into the portable table.  On success the output is fully
/// self-contained: no inline reference remains, and every handle points
/// at the image of the type it stood for.  The pass is total on a closed
/// universe and otherwise fails by naming a cache key the universe does
/// not describe.
pub fn convert_interface(u: &TypeUniverse, g: ViewFunctionsInterfaceIR) -> (r: Result<
    (Vec<PortableTypeDescription>, PortableViewFunctionsInterfaceIR),
    RegistryError,
>)
    requires
        u.wf(),
    ensures
        r matches Ok(pr) ==> converted_ok(*u, g, pr),
        g.queries@.len() == 0 && r is Ok ==> (r matches Ok(pr) && pr.0@.len() == 0),
        r matches Err(e) ==> (e matches RegistryError::MissingType(m) && !u.spec_contains(m)),
        u.is_closed() && interface_keys_in(g, *u) ==> r is Ok,
{
    let mut reg = TypeRegistry::new();
    proof {
        reg.lemma_empty_wf_for(*u);
    }
    let ghost g0 = g;
    let p = match g.into_portable(&mut reg, u) {
        Ok(p) => p,
        Err(e) => {
            return Err(e);
        },
    };
    proof {
        assert forall|i: int| 0 <= i < reg.table_seq().len() implies (
        #[trigger] reg.table_seq()[i]) is Some by {}
        assert(reg.complete());
    }
    let ghost regv = reg;
    let table = reg.finalize();
    proof {
        let keys = regv.key_seq();
        assert forall|i: int| 0 <= i < keys.len() implies u.spec_contains(#[trigger] keys[i])
            && crate::registry::is_image(u.desc_of(keys[i]), keys, table@[i]) by {
            assert(regv.registered(keys[i]));
            assert(regv.table_seq()[i] == Some(table@[i]));
            assert(regv.table_seq()[i] matches Some(q) ==> crate::registry::is_image(
                u.desc_of(keys[i]),
                keys,
                q,
            ));
        }
        assert(document_tied(*u, keys, table@, g0, p));
    }
    let pair = (table, p);
    proof {
        let keys = regv.key_seq();
        assert(converted_ok(*u, g0, pair)) by {
            assert(document_tied(*u, keys, pair.0@, g0, pair.1));
        }
    }
    Ok(pair)
}

} // verus!
