//! The deduplicating type registry.
//!
//! A metadata document references types through *inline* references: a
//! cache key (the type's structural identity) resolvable on demand to a
//! structural [`TypeDescription`] whose nested references are again cache
//! keys.  The resolvable pool of descriptions is a [`TypeUniverse`].
//!
//! A [`TypeRegistry`] flattens that graph: registering a cache key assigns
//! it a stable integer handle, resolves its description, recursively
//! registers every nested reference, and stores a
//! [`PortableTypeDescription`] in which every reference is a handle.  A key
//! registered twice keeps its first handle and the table gains no second
//! entry.  Handles are assigned before recursive descent, so cyclic
//! descriptions terminate and simply reference their own handle.

use vstd::prelude::*;
use vstd::pervasive::VecAdditionalExecFns;

verus! {

/// A named field of a composite or variant type; `ty` is the cache key of
/// the field's type.
#[derive(Debug, Clone, PartialEq, Eq)]
pub struct FieldDesc {
    /// Field name bytes.
    pub name: Vec<u8>,
    /// Cache key of the field's type.
    pub ty: u64,
}

/// One alternative of a variant type.
#[derive(Debug, Clone, PartialEq, Eq)]
pub struct VariantDesc {
    /// Variant name bytes.
    pub name: Vec<u8>,
    /// The variant's fields.
    pub fields: Vec<FieldDesc>,
}

/// The structural shape of a type, with nested references given as cache
/// keys into a [`TypeUniverse`].
#[derive(Debug, Clone, PartialEq, Eq)]
pub enum TypeDescription {
    /// A primitive, described by its name bytes.
    Primitive(Vec<u8>),
    /// A record of named fields.
    Composite(Vec<FieldDesc>),
    /// A choice among named alternatives.
    Variant(Vec<VariantDesc>),
    /// A homogeneous sequence of the referenced element type.
    Sequence(u64),
    /// An ordered tuple of the referenced types.
    Tuple(Vec<u64>),
}

/// A named field whose type is a registry handle.
#[derive(Debug, Clone, PartialEq, Eq)]
pub struct PortableFieldDesc {
    /// Field name bytes.
    pub name: Vec<u8>,
    /// Handle of the field's type.
    pub ty: u32,
}

/// One alternative of a variant type, in portable form.
#[derive(Debug, Clone, PartialEq, Eq)]
pub struct PortableVariantDesc {
    /// Variant name bytes.
    pub name: Vec<u8>,
    /// The variant's fields.
    pub fields: Vec<PortableFieldDesc>,
}

/// The structural shape of a type, with every nested reference replaced by
/// a handle into the registry's portable table.
#[derive(Debug, Clone, PartialEq, Eq)]
pub enum PortableTypeDescription {
    /// A primitive, described by its name bytes.
    Primitive(Vec<u8>),
    /// A record of named fields.
    Composite(Vec<PortableFieldDesc>),
    /// A choice among named alternatives.
    Variant(Vec<PortableVariantDesc>),
    /// A homogeneous sequence of the referenced element type.
    Sequence(u32),
    /// An ordered tuple of the referenced types.
    Tuple(Vec<u32>),
}

/// Whether the description `d` references the cache key `k`.
pub open spec fn mentions(d: TypeDescription, k: u64) -> bool {
    match d {
        TypeDescription::Primitive(_) => false,
        TypeDescription::Composite(fs) => exists|i: int| 0 <= i < fs@.len() && fs@[i].ty == k,
        TypeDescription::Variant(vs) => exists|i: int, j: int|
            0 <= i < vs@.len() && 0 <= j < vs@[i].fields@.len() && vs@[i].fields@[j].ty == k,
        TypeDescription::Sequence(e) => e == k,
        TypeDescription::Tuple(ks) => ks@.contains(k),
    }
}

/// Each of the first `j` references in `ks` is registered in `keys` and
/// `hs` holds its handle.
pub open spec fn handles_match(keys: Seq<u64>, ks: Seq<u64>, hs: Seq<u32>, j: int) -> bool {
    forall|jj: int| 0 <= jj < j ==> #[trigger] handle_is_image(ks[jj], keys, hs[jj])
}

/// Each of the first `j` fields in `fs` has its portable image in `ps`.
pub open spec fn fields_match(
    keys: Seq<u64>,
    fs: Seq<FieldDesc>,
    ps: Seq<PortableFieldDesc>,
    j: int,
) -> bool {
    forall|jj: int| 0 <= jj < j ==> #[trigger] field_is_image(fs[jj], keys, ps[jj])
}

/// Each of the first `j` variants in `vs` has its portable image in `pvs`.
pub open spec fn variants_match(
    keys: Seq<u64>,
    vs: Seq<VariantDesc>,
    pvs: Seq<PortableVariantDesc>,
    j: int,
) -> bool {
    forall|jj: int| 0 <= jj < j ==> #[trigger] variant_is_image(vs[jj], keys, pvs[jj])
}

/// A fault raised while the registry resolves type descriptions.
#[derive(Clone, Copy, Debug, PartialEq, Eq, Structural)]
pub enum RegistryError {
    /// A referenced cache key has no description in the universe; the
    /// document would contain a dangling reference, so construction aborts.
    MissingType(u64),
}

struct TypeEntry {
    key: u64,
    desc: TypeDescription,
}

/// The pool of type descriptions a document draws from: a mapping from
/// cache key to structural description.  Producing a description for the
/// same cache key always yields the same structure, which is what lets the
/// registry deduplicate safely.
pub struct TypeUniverse {
    types: Vec<TypeEntry>,
}

impl TypeUniverse {
    /// The cache keys with a description, in insertion order.
    pub closed spec fn key_seq(self) -> Seq<u64> {
        self.types@.map_values(|e: TypeEntry| e.key)
    }

    /// Whether `k` has a description.
    pub open spec fn spec_contains(self, k: u64) -> bool {
        self.key_seq().contains(k)
    }

    /// The description of `k`, for a `k` that has one.
    pub closed spec fn desc_of(self, k: u64) -> TypeDescription {
        self.types@[self.key_seq().index_of(k)].desc
    }

    /// Keys are unique and the universe is small enough that every type
    /// can receive a distinct 32-bit handle.
    pub closed spec fn wf(self) -> bool {
        &&& self.key_seq().no_duplicates()
        &&& self.types@.len() < 0x1_0000_0000
    }

    /// How many descriptions the universe holds.
    pub closed spec fn spec_len(self) -> nat {
        self.types@.len()
    }

    /// Every reference reachable from a described type is itself described:
    /// no registration starting from a described key can hit a dangling
    /// reference.
    pub open spec fn is_closed(self) -> bool {
        forall|k: u64, k2: u64|
            self.spec_contains(k) && #[trigger] mentions(self.desc_of(k), k2)
                ==> self.spec_contains(k2)
    }

    /// An empty universe.
    pub fn new() -> (u: TypeUniverse)
        ensures
            u.wf(),
            u.spec_len() == 0,
            u.key_seq() == Seq::<u64>::empty(),
            forall|k: u64| !u.spec_contains(k),
    {
        let u = TypeUniverse { types: Vec::new() };
        proof {
            assert(u.key_seq() =~= Seq::<u64>::empty());
        }
        u
    }

    /// Describe the cache key `k` as `desc`.  Returns `false`, changing
    /// nothing, if `k` is already described or the universe is full.
    pub fn add_type(&mut self, k: u64, desc: TypeDescription) -> (r: bool)
        requires
            old(self).wf(),
        ensures
            final(self).wf(),
            r <==> (!old(self).spec_contains(k) && old(self).spec_len() < 0xFFFF_FFFF),
            !r ==> *final(self) == *old(self),
            r ==> final(self).key_seq() == old(self).key_seq().push(k),
            r ==> final(self).desc_of(k) == desc,
            r ==> forall|k2: u64|
                old(self).spec_contains(k2) ==> final(self).desc_of(k2) == old(self).desc_of(k2),
    {
        if self.types.len() >= 0xFFFF_FFFFusize {
            return false;
        }
        let found = self.find(k);
        if found.is_some() {
            return false;
        }
        let ghost pre = *self;
        self.types.push(TypeEntry { key: k, desc });
        proof {
            assert(self.key_seq() =~= pre.key_seq().push(k));
            assert(self.key_seq().no_duplicates());
            let n = pre.key_seq().len() as int;
            lemma_index_of_unique(self.key_seq(), k, n);
            assert(self.desc_of(k) == desc);
            assert forall|k2: u64| pre.spec_contains(k2) implies self.desc_of(k2)
                == pre.desc_of(k2) by {
                let i = pre.key_seq().index_of(k2);
                lemma_index_of_is_witness(pre.key_seq(), k2);
                lemma_index_of_unique(self.key_seq(), k2, i);
            }
        }
        true
    }

    /// The position of `k` among the descriptions, if any.
    fn find(&self, k: u64) -> (r: Option<usize>)
        requires
            self.wf(),
        ensures
            r matches Some(i) ==> i < self.types@.len() && self.types@[i as int].key == k
                && self.spec_contains(k) && self.types@[i as int].desc == self.desc_of(k),
            r is None ==> !self.spec_contains(k),
    {
        let n = self.types.len();
        let mut i: usize = 0;
        while i < n
            invariant
                0 <= i <= n,
                n == self.types@.len(),
                self.wf(),
                forall|j: int| 0 <= j < i ==> self.types@[j].key != k,
            decreases n - i,
        {
            if self.types[i].key == k {
                proof {
                    assert(self.key_seq()[i as int] == k);
                    lemma_index_of_unique(self.key_seq(), k, i as int);
                }
                return Some(i);
            }
            i += 1;
        }
        proof {
            assert forall|j: int| 0 <= j < self.key_seq().len() implies self.key_seq()[j]
                != k by {
                assert(self.types@[j].key != k);
            }
        }
        None
    }

    /// The description of `k`, if any.
    pub fn get(&self, k: u64) -> (r: Option<&TypeDescription>)
        requires
            self.wf(),
        ensures
            r matches Some(d) ==> self.spec_contains(k) && *d == self.desc_of(k),
            r is None ==> !self.spec_contains(k),
    {
        match self.find(k) {
            Some(i) => Some(&self.types[i].desc),
            None => None,
        }
    }
}

/// The index at which a sequence of distinct keys holds `k` is the unique
/// witness of `contains`.
pub proof fn lemma_index_of_unique(s: Seq<u64>, k: u64, i: int)
    requires
        s.no_duplicates(),
        0 <= i < s.len(),
        s[i] == k,
    ensures
        s.index_of(k) == i,
{
    assert(s.contains(k));
    let j = s.index_of(k);
    lemma_index_of_is_witness(s, k);
    if i != j {
        assert(s[i] == s[j]);
    }
}

/// For a key the sequence contains, `index_of` names a real occurrence.
pub proof fn lemma_index_of_is_witness(s: Seq<u64>, k: u64)
    requires
        s.contains(k),
    ensures
        0 <= s.index_of(k) < s.len(),
        s[s.index_of(k)] == k,
{
    assert(exists|i: int| 0 <= i < s.len() && s[i] == k);
}

/// A key's handle is stable when the key sequence is extended.
pub proof fn lemma_handle_stable(s1: Seq<u64>, s2: Seq<u64>, k: u64)
    requires
        s1.is_prefix_of(s2),
        s2.no_duplicates(),
        s1.contains(k),
    ensures
        s2.contains(k),
        s2.index_of(k) == s1.index_of(k),
        0 <= s1.index_of(k) < s1.len(),
{
    lemma_index_of_is_witness(s1, k);
    let i = s1.index_of(k);
    assert(s2[i] == s1[i]);
    lemma_index_of_unique(s2, k, i);
}

/// The portable handle `h` names the cache key `k` in `keys`.
pub open spec fn handle_is_image(k: u64, keys: Seq<u64>, h: u32) -> bool {
    keys.contains(k) && h as int == keys.index_of(k)
}

/// The handle naming a key is stable when the key sequence is extended.
pub proof fn lemma_handle_image_stable(k: u64, keys1: Seq<u64>, keys2: Seq<u64>, h: u32)
    requires
        keys1.is_prefix_of(keys2),
        keys2.no_duplicates(),
        handle_is_image(k, keys1, h),
    ensures
        handle_is_image(k, keys2, h),
{
    lemma_handle_stable(keys1, keys2, k);
}

/// A field matches its portable form when the names agree and the portable
/// type is the handle of the inline cache key.
pub open spec fn field_is_image(f: FieldDesc, keys: Seq<u64>, p: PortableFieldDesc) -> bool {
    &&& p.name@ == f.name@
    &&& keys.contains(f.ty)
    &&& p.ty as int == keys.index_of(f.ty)
}

/// A variant matches its portable form field by field.
pub open spec fn variant_is_image(v: VariantDesc, keys: Seq<u64>, p: PortableVariantDesc) -> bool {
    &&& p.name@ == v.name@
    &&& p.fields@.len() == v.fields@.len()
    &&& forall|i: int|
        #![trigger v.fields@[i]]
        #![trigger p.fields@[i]]
        0 <= i < v.fields@.len() ==> field_is_image(v.fields@[i], keys, p.fields@[i])
}

/// The portable description `p` is the inline description `d` with every
/// cache key replaced by its handle in `keys`.
pub open spec fn is_image(d: TypeDescription, keys: Seq<u64>, p: PortableTypeDescription) -> bool {
    match (d, p) {
        (TypeDescription::Primitive(n), PortableTypeDescription::Primitive(m)) => m@ == n@,
        (TypeDescription::Composite(fs), PortableTypeDescription::Composite(ps)) => {
            &&& ps@.len() == fs@.len()
            &&& forall|i: int|
                #![trigger fs@[i]]
                #![trigger ps@[i]]
                0 <= i < fs@.len() ==> field_is_image(fs@[i], keys, ps@[i])
        },
        (TypeDescription::Variant(vs), PortableTypeDescription::Variant(pvs)) => {
            &&& pvs@.len() == vs@.len()
            &&& forall|i: int|
                #![trigger vs@[i]]
                #![trigger pvs@[i]]
                0 <= i < vs@.len() ==> variant_is_image(vs@[i], keys, pvs@[i])
        },
        (TypeDescription::Sequence(e), PortableTypeDescription::Sequence(h)) => {
            &&& keys.contains(e)
            &&& h as int == keys.index_of(e)
        },
        (TypeDescription::Tuple(ks), PortableTypeDescription::Tuple(hs)) => {
            &&& hs@.len() == ks@.len()
            &&& forall|i: int| 0 <= i < ks@.len() ==> #[trigger] handle_is_image(ks@[i], keys, hs@[i])
        },
        _ => false,
    }
}

/// A byte-for-byte copy of a name.
pub(crate) fn copy_bytes(v: &Vec<u8>) -> (r: Vec<u8>)
    ensures
        r@ == v@,
{
    let mut r: Vec<u8> = Vec::new();
    let n = v.len();
    let mut i: usize = 0;
    while i < n
        invariant
            0 <= i <= n,
            n == v@.len(),
            r@ == v@.subrange(0, i as int),
        decreases n - i,
    {
        r.push(v[i]);
        proof {
            assert(r@ =~= v@.subrange(0, i + 1));
        }
        i += 1;
    }
    proof {
        assert(r@ =~= v@);
    }
    r
}

/// A field image stays an image when the key sequence is extended.
pub proof fn lemma_field_image_stable(
    f: FieldDesc,
    keys1: Seq<u64>,
    keys2: Seq<u64>,
    p: PortableFieldDesc,
)
    requires
        keys1.is_prefix_of(keys2),
        keys2.no_duplicates(),
        field_is_image(f, keys1, p),
    ensures
        field_is_image(f, keys2, p),
{
    lemma_handle_stable(keys1, keys2, f.ty);
}

/// A variant image stays an image when the key sequence is extended.
pub proof fn lemma_variant_image_stable(
    v: VariantDesc,
    keys1: Seq<u64>,
    keys2: Seq<u64>,
    p: PortableVariantDesc,
)
    requires
        keys1.is_prefix_of(keys2),
        keys2.no_duplicates(),
        variant_is_image(v, keys1, p),
    ensures
        variant_is_image(v, keys2, p),
{
    assert forall|j: int| 0 <= j < v.fields@.len() implies field_is_image(
        v.fields@[j],
        keys2,
        #[trigger] p.fields@[j],
    ) by {
        assert(field_is_image(v.fields@[j], keys1, p.fields@[j]));
        lemma_field_image_stable(v.fields@[j], keys1, keys2, p.fields@[j]);
    }
}

/// An image stays an image when the key sequence is extended: handles never
/// move once assigned.
pub proof fn lemma_image_stable(
    d: TypeDescription,
    keys1: Seq<u64>,
    keys2: Seq<u64>,
    p: PortableTypeDescription,
)
    requires
        keys1.is_prefix_of(keys2),
        keys2.no_duplicates(),
        is_image(d, keys1, p),
    ensures
        is_image(d, keys2, p),
{
    match d {
        TypeDescription::Primitive(_) => {},
        TypeDescription::Composite(fs) => {
            let ps = p->Composite_0;
            assert forall|i: int| 0 <= i < fs@.len() implies field_is_image(
                fs@[i],
                keys2,
                #[trigger] ps@[i],
            ) by {
                assert(field_is_image(fs@[i], keys1, ps@[i]));
                lemma_handle_stable(keys1, keys2, fs@[i].ty);
            }
        },
        TypeDescription::Variant(vs) => {
            let pvs = p->Variant_0;
            assert forall|i: int| 0 <= i < vs@.len() implies variant_is_image(
                vs@[i],
                keys2,
                #[trigger] pvs@[i],
            ) by {
                let v = vs@[i];
                let pv = pvs@[i];
                assert forall|j: int| 0 <= j < v.fields@.len() implies field_is_image(
                    v.fields@[j],
                    keys2,
                    #[trigger] pv.fields@[j],
                ) by {
                    assert(field_is_image(v.fields@[j], keys1, pv.fields@[j]));
                    lemma_handle_stable(keys1, keys2, v.fields@[j].ty);
                }
            }
        },
        TypeDescription::Sequence(e) => {
            lemma_handle_stable(keys1, keys2, e);
        },
        TypeDescription::Tuple(ks) => {
            let hs = p->Tuple_0;
            assert forall|i: int|
                0 <= i < ks@.len() implies #[trigger] handle_is_image(
                ks@[i],
                keys2,
                hs@[i],
            ) by {
                assert(handle_is_image(ks@[i], keys1, hs@[i]));
                lemma_handle_image_stable(ks@[i], keys1, keys2, hs@[i]);
            }
        },
    }
}

/// The deduplicating store that assigns every distinct cache key a stable
/// integer handle and keeps the portable description stored at it.
///
/// The registry grows monotonically during a conversion pass and is then
/// finalized into the portable table; it never shrinks and handles never
/// move.  An entry is momentarily empty while the descriptions it
/// references are still being resolved — that placeholder is what makes
/// cyclic descriptions terminate — and is filled in before registration of
/// its key returns.
pub struct TypeRegistry {
    keys: Vec<u64>,
    table: Vec<Option<PortableTypeDescription>>,
}

impl TypeRegistry {
    /// The registered cache keys; a key's handle is its position here.
    pub closed spec fn key_seq(self) -> Seq<u64> {
        self.keys@
    }

    /// The table of portable descriptions, handle by handle; `None` marks
    /// an entry whose description is still being resolved.
    pub closed spec fn table_seq(self) -> Seq<Option<PortableTypeDescription>> {
        self.table@
    }

    /// How many handles have been assigned.
    pub open spec fn spec_len(self) -> nat {
        self.key_seq().len()
    }

    /// Whether `k` has been assigned a handle.
    pub open spec fn registered(self, k: u64) -> bool {
        self.key_seq().contains(k)
    }

    /// The handle assigned to a registered key.
    pub open spec fn handle_of(self, k: u64) -> int {
        self.key_seq().index_of(k)
    }

    /// Keys are unique and every key has a table slot.
    pub open spec fn wf(self) -> bool {
        &&& self.key_seq().no_duplicates()
        &&& self.table_seq().len() == self.key_seq().len()
    }

    /// The registry holds only keys described by `u`, and every filled
    /// entry is the image of its key's description.
    pub open spec fn wf_for(self, u: TypeUniverse) -> bool {
        &&& self.wf()
        &&& forall|k: u64| #[trigger] self.registered(k) ==> u.spec_contains(k)
        &&& forall|i: int|
            0 <= i < self.spec_len() ==> ((#[trigger] self.table_seq()[i]) matches Some(p)
                ==> is_image(u.desc_of(self.key_seq()[i]), self.key_seq(), p))
    }

    /// No entry is still being resolved.
    pub open spec fn complete(self) -> bool {
        forall|i: int|
            0 <= i < self.table_seq().len() ==> (#[trigger] self.table_seq()[i]) is Some
    }

    /// `post` is `pre` grown by registration: handles and filled entries
    /// never change.
    pub open spec fn extends(pre: TypeRegistry, post: TypeRegistry) -> bool {
        &&& pre.key_seq().is_prefix_of(post.key_seq())
        &&& pre.table_seq().len() <= post.table_seq().len()
        &&& forall|i: int|
            0 <= i < pre.table_seq().len() ==> #[trigger] post.table_seq()[i]
                == pre.table_seq()[i]
    }

    /// Growth by registration composes.
    pub proof fn lemma_extends_trans(a: TypeRegistry, b: TypeRegistry, c: TypeRegistry)
        requires
            Self::extends(a, b),
            Self::extends(b, c),
        ensures
            Self::extends(a, c),
    {
        assert(a.key_seq() =~= c.key_seq().subrange(0, a.key_seq().len() as int));
    }

    /// A registry tied to `u` holds at most as many keys as `u` describes.
    pub proof fn lemma_len_bound(self, u: TypeUniverse)
        requires
            u.wf(),
            self.wf_for(u),
        ensures
            self.spec_len() <= u.spec_len(),
            self.spec_len() < 0x1_0000_0000,
    {
        broadcast use vstd::seq_lib::seq_to_set_is_finite;

        self.key_seq().unique_seq_to_set();
        assert forall|k: u64| self.key_seq().to_set().contains(k) implies u.key_seq().to_set()
            .contains(k) by {
            assert(self.registered(k));
        }
        vstd::set_lib::lemma_len_subset(self.key_seq().to_set(), u.key_seq().to_set());
        u.key_seq().lemma_cardinality_of_set();
    }

    /// An empty registry.
    pub fn new() -> (r: TypeRegistry)
        ensures
            r.wf(),
            r.spec_len() == 0,
            r.complete(),
            forall|k: u64| !r.registered(k),
    {
        TypeRegistry { keys: Vec::new(), table: Vec::new() }
    }

    /// An empty registry is well-formed for any universe.
    pub proof fn lemma_empty_wf_for(self, u: TypeUniverse)
        requires
            self.wf(),
            self.spec_len() == 0,
        ensures
            self.wf_for(u),
    {
    }

    /// The handle of `k`, if `k` is registered.
    fn find(&self, k: u64) -> (r: Option<usize>)
        requires
            self.wf(),
        ensures
            r matches Some(i) ==> i < self.spec_len() && self.key_seq()[i as int] == k
                && self.registered(k) && self.handle_of(k) == i as int,
            r is None ==> !self.registered(k),
    {
        let n = self.keys.len();
        let mut i: usize = 0;
        while i < n
            invariant
                0 <= i <= n,
                n == self.keys@.len(),
                self.wf(),
                forall|j: int| 0 <= j < i ==> self.keys@[j] != k,
            decreases n - i,
        {
            if self.keys[i] == k {
                proof {
                    lemma_index_of_unique(self.key_seq(), k, i as int);
                }
                return Some(i);
            }
            i += 1;
        }
        None
    }

    /// A registered key's handle names it and nothing else: the key
    /// sequence holds it at exactly one position, so the finalized table
    /// has exactly one entry for any set of registrations of one key.
    pub proof fn lemma_handle_unique(self, k: u64, i: int)
        requires
            self.wf(),
            0 <= i < self.spec_len(),
            self.key_seq()[i] == k,
        ensures
            self.handle_of(k) == i,
            self.registered(k),
    {
        lemma_index_of_unique(self.key_seq(), k, i);
    }

    /// Consume the registry and produce the completed portable table: one
    /// description per handle, in handle order.  Only a registry with no
    /// entry still being resolved can be finalized; afterwards the table
    /// is plain data, read-only and safe to share.
    pub fn finalize(self) -> (r: Vec<PortableTypeDescription>)
        requires
            self.wf(),
            self.complete(),
        ensures
            r@.len() == self.table_seq().len(),
            forall|i: int|
                0 <= i < r@.len() ==> self.table_seq()[i] == Some(#[trigger] r@[i]),
    {
        let ghost orig = self;
        let mut rest = self;
        let mut out: Vec<PortableTypeDescription> = Vec::new();
        while rest.table.len() > 0
            invariant
                out@.len() + rest.table@.len() == orig.table_seq().len(),
                forall|i: int|
                    0 <= i < out@.len() ==> orig.table_seq()[i] == Some(#[trigger] out@[i]),
                forall|i: int|
                    0 <= i < rest.table@.len() ==> #[trigger] rest.table@[i] == orig.table_seq()[
                    out@.len() + i],
                orig.complete(),
            decreases rest.table@.len(),
        {
            let ghost rest0 = rest.table@;
            let ghost outlen = out@.len() as int;
            let e = rest.table.remove(0);
            match e {
                Some(p) => {
                    out.push(p);
                },
                None => {
                    proof {
                        assert(orig.table_seq()[outlen] == rest0[0]);
                        assert(false);
                    }
                },
            }
            proof {
                assert forall|i: int|
                    0 <= i < rest.table@.len() implies #[trigger] rest.table@[i]
                    == orig.table_seq()[out@.len() + i] by {
                    assert(rest.table@[i] == rest0[i + 1]);
                }
            }
        }
        out
    }

    /// What every registration step guarantees: the registry stays tied to
    /// the universe, only grows, fills every entry it created when it
    /// succeeds, and fails only on a key the universe does not describe.
    pub open spec fn reg_step(
        pre: TypeRegistry,
        post: TypeRegistry,
        u: TypeUniverse,
        r: Result<u32, RegistryError>,
    ) -> bool {
        &&& post.wf_for(u)
        &&& Self::extends(pre, post)
        &&& (r is Ok ==> forall|i: int|
            pre.spec_len() <= i < post.spec_len() ==> (#[trigger] post.table_seq()[i]) is Some)
        &&& (r matches Err(e) ==> (e matches RegistryError::MissingType(m) && !u.spec_contains(
            m,
        )))
    }

    /// Register `key`, reusing its handle if it is already registered.
    ///
    /// On success the returned handle names `key` in the final key
    /// sequence.  A key registered before leaves the registry untouched
    /// and returns the handle assigned first — the finalized table holds
    /// exactly one entry per distinct key.  Registration fails exactly by
    /// reporting a cache key that the universe does not describe; on a
    /// closed universe a described key always registers.
    pub fn register(&mut self, u: &TypeUniverse, key: u64) -> (r: Result<u32, RegistryError>)
        requires
            u.wf(),
            old(self).wf_for(*u),
        ensures
            Self::reg_step(*old(self), *final(self), *u, r),
            r matches Ok(h) ==> final(self).registered(key) && h as int == final(self).handle_of(key),
            old(self).registered(key) ==> *final(self) == *old(self) && (r matches Ok(h) && h
                as int == old(self).handle_of(key)),
            u.is_closed() && (old(self).registered(key) || u.spec_contains(key)) ==> r is Ok,
            old(self).complete() && r is Ok ==> final(self).complete(),
    {
        let r = self.resolve_ref(u, key);
        proof {
            if old(self).complete() && r is Ok {
                assert forall|i: int| 0 <= i < final(self).table_seq().len() implies (
                #[trigger] final(self).table_seq()[i]) is Some by {
                    if i < old(self).table_seq().len() {
                        assert(final(self).table_seq()[i] == old(self).table_seq()[i]);
                    }
                }
            }
        }
        r
    }

    /// Register `key` if it has no handle yet, then return its handle.
    fn resolve_ref(&mut self, u: &TypeUniverse, key: u64) -> (r: Result<u32, RegistryError>)
        requires
            u.wf(),
            old(self).wf_for(*u),
        ensures
            Self::reg_step(*old(self), *final(self), *u, r),
            r matches Ok(h) ==> final(self).registered(key) && h as int == final(self).handle_of(key),
            old(self).registered(key) ==> *final(self) == *old(self) && (r matches Ok(h) && h
                as int == old(self).handle_of(key)),
            u.is_closed() && (old(self).registered(key) || u.spec_contains(key)) ==> r is Ok,
        decreases u.spec_len() - self.spec_len(), 1int,
    {
        match self.find(key) {
            Some(i) => {
                proof {
                    self.lemma_len_bound(*u);
                }
                Ok(i as u32)
            },
            None => self.register_new(u, key),
        }
    }

    /// Assign `key` a fresh handle, resolve its description, register its
    /// references, and fill the new entry.
    #[verifier::loop_isolation(false)]
    fn register_new(&mut self, u: &TypeUniverse, key: u64) -> (r: Result<u32, RegistryError>)
        requires
            u.wf(),
            old(self).wf_for(*u),
            !old(self).registered(key),
        ensures
            Self::reg_step(*old(self), *final(self), *u, r),
            r matches Ok(h) ==> final(self).registered(key) && h as int == final(self).handle_of(
                key,
            ) && h as int == old(self).spec_len(),
            u.is_closed() && u.spec_contains(key) ==> r is Ok,
        decreases u.spec_len() - self.spec_len(), 0int,
    {
        let desc = match u.get(key) {
            None => {
                return Err(RegistryError::MissingType(key));
            },
            Some(d) => d,
        };
        proof {
            self.lemma_len_bound(*u);
        }
        let ghost pre = *self;
        let h_usize: usize = self.keys.len();
        let h: u32 = h_usize as u32;
        self.keys.push(key);
        self.table.push(None);
        proof {
            lemma_registry_push(pre, *self, *u, key);
            lemma_index_of_unique(self.key_seq(), key, h_usize as int);
        }
        let ghost s1 = *self;
        let portable = match desc {
            TypeDescription::Primitive(n) => {
                let p = PortableTypeDescription::Primitive(copy_bytes(n));
                proof {
                    assert(is_image(u.desc_of(key), self.key_seq(), p));
                }
                p
            },
            TypeDescription::Sequence(e) => {
                proof {
                    assert(mentions(u.desc_of(key), *e));
                    self.lemma_len_bound(*u);
                }
                let eh = match self.resolve_ref(u, *e) {
                    Ok(eh) => eh,
                    Err(er) => {
                        proof {
                            Self::lemma_extends_trans(pre, s1, *self);
                        }
                        return Err(er);
                    },
                };
                let p = PortableTypeDescription::Sequence(eh);
                proof {
                    assert(is_image(u.desc_of(key), self.key_seq(), p));
                }
                p
            },
            TypeDescription::Tuple(ks) => {
                let n = ks.len();
                let mut hs: Vec<u32> = Vec::new();
                let mut j: usize = 0;
                while j < n
                    invariant
                        0 <= j <= n,
                        hs@.len() == j,
                        self.wf_for(*u),
                        TypeRegistry::extends(s1, *self),
                        self.key_seq()[h_usize as int] == key,
                        handles_match(self.key_seq(), ks@, hs@, j as int),
                        forall|i: int|
                            pre.spec_len() < i < self.spec_len() ==> (#[trigger] self.table_seq()[
                            i]) is Some,
                    decreases n - j,
                {
                    let ghost before = *self;
                    proof {
                        let tks = u.desc_of(key)->Tuple_0;
                        assert(tks == *ks);
                        assert(tks@.contains(tks@[j as int]));
                        assert(mentions(u.desc_of(key), ks@[j as int]));
                        self.lemma_len_bound(*u);
                    }
                    let hh = match self.resolve_ref(u, ks[j]) {
                        Ok(hh) => hh,
                        Err(er) => {
                            proof {
                                Self::lemma_extends_trans(s1, before, *self);
                                Self::lemma_extends_trans(pre, s1, *self);
                            }
                            return Err(er);
                        },
                    };
                    let ghost hs0 = hs@;
                    hs.push(hh);
                    proof {
                        Self::lemma_extends_trans(s1, before, *self);
                        assert(self.key_seq()[h_usize as int] == before.key_seq()[h_usize
                            as int]);
                        assert(hs@ == hs0.push(hh));
                        assert forall|jj: int|
                            0 <= jj < j + 1 implies #[trigger] handle_is_image(
                            ks@[jj],
                            self.key_seq(),
                            hs@[jj],
                        ) by {
                            if jj < j {
                                assert(hs@[jj] == hs0.push(hh)[jj]);
                                assert(hs0.push(hh)[jj] == hs0[jj]);
                                assert(handle_is_image(ks@[jj], before.key_seq(), hs0[jj]));
                                lemma_handle_image_stable(
                                    ks@[jj],
                                    before.key_seq(),
                                    self.key_seq(),
                                    hs0[jj],
                                );
                            } else {
                                assert(hs@[jj] == hh);
                                assert(handle_is_image(ks@[jj], self.key_seq(), hh));
                            }
                        }
                        assert forall|i: int|
                            pre.spec_len() < i < self.spec_len() implies (
                        #[trigger] self.table_seq()[i]) is Some by {
                            if i < before.spec_len() {
                                assert(self.table_seq()[i] == before.table_seq()[i]);
                            }
                        }
                    }
                    j += 1;
                }
                let ghost hsv = hs@;
                let p = PortableTypeDescription::Tuple(hs);
                proof {
                    assert(p->Tuple_0@ == hsv);
                    assert(is_image(u.desc_of(key), self.key_seq(), p)) by {
                        assert forall|i: int|
                            0 <= i < ks@.len() implies #[trigger] handle_is_image(
                            ks@[i],
                            self.key_seq(),
                            hsv[i],
                        ) by {
                            assert(handle_is_image(ks@[i], self.key_seq(), hsv[i]));
                        }
                    }
                }
                p
            },
            TypeDescription::Composite(fs) => {
                let n = fs.len();
                let mut ps: Vec<PortableFieldDesc> = Vec::new();
                let mut j: usize = 0;
                while j < n
                    invariant
                        0 <= j <= n,
                        ps@.len() == j,
                        self.wf_for(*u),
                        TypeRegistry::extends(s1, *self),
                        self.key_seq()[h_usize as int] == key,
                        fields_match(self.key_seq(), fs@, ps@, j as int),
                        forall|i: int|
                            pre.spec_len() < i < self.spec_len() ==> (#[trigger] self.table_seq()[
                            i]) is Some,
                    decreases n - j,
                {
                    let ghost before = *self;
                    proof {
                        let cfs = u.desc_of(key)->Composite_0;
                        assert(cfs == *fs);
                        assert(cfs@[j as int].ty == fs@[j as int].ty);
                        assert(mentions(u.desc_of(key), fs@[j as int].ty));
                        self.lemma_len_bound(*u);
                    }
                    let name = copy_bytes(&fs[j].name);
                    let hh = match self.resolve_ref(u, fs[j].ty) {
                        Ok(hh) => hh,
                        Err(er) => {
                            proof {
                                Self::lemma_extends_trans(s1, before, *self);
                                Self::lemma_extends_trans(pre, s1, *self);
                            }
                            return Err(er);
                        },
                    };
                    let ghost ps0 = ps@;
                    ps.push(PortableFieldDesc { name, ty: hh });
                    proof {
                        Self::lemma_extends_trans(s1, before, *self);
                        assert(self.key_seq()[h_usize as int] == before.key_seq()[h_usize
                            as int]);
                        assert forall|jj: int|
                            0 <= jj < j + 1 implies #[trigger] field_is_image(
                            fs@[jj],
                            self.key_seq(),
                            ps@[jj],
                        ) by {
                            if jj < j {
                                assert(ps@[jj] == ps0[jj]);
                                assert(fields_match(before.key_seq(), fs@, ps0, j as int));
                                assert(field_is_image(fs@[jj], before.key_seq(), ps0[jj]));
                                lemma_field_image_stable(
                                    fs@[jj],
                                    before.key_seq(),
                                    self.key_seq(),
                                    ps0[jj],
                                );
                            } else {
                                assert(ps@[jj].name@ == fs@[jj].name@);
                                assert(self.key_seq().contains(fs@[jj].ty));
                                assert(ps@[jj].ty as int == self.key_seq().index_of(fs@[jj].ty));
                            }
                        }
                        assert forall|i: int|
                            pre.spec_len() < i < self.spec_len() implies (
                        #[trigger] self.table_seq()[i]) is Some by {
                            if i < before.spec_len() {
                                assert(self.table_seq()[i] == before.table_seq()[i]);
                            }
                        }
                    }
                    j += 1;
                }
                let ghost psv = ps@;
                let p = PortableTypeDescription::Composite(ps);
                proof {
                    assert(p->Composite_0@ == psv);
                    assert(is_image(u.desc_of(key), self.key_seq(), p)) by {
                        assert(fields_match(self.key_seq(), fs@, psv, n as int));
                        assert forall|i: int|
                            0 <= i < fs@.len() implies field_is_image(
                            fs@[i],
                            self.key_seq(),
                            #[trigger] psv[i],
                        ) by {
                            assert(field_is_image(fs@[i], self.key_seq(), psv[i]));
                        }
                    }
                }
                p
            },
            TypeDescription::Variant(vs) => {
                let n = vs.len();
                let mut pvs: Vec<PortableVariantDesc> = Vec::new();
                let mut j: usize = 0;
                while j < n
                    invariant
                        0 <= j <= n,
                        pvs@.len() == j,
                        self.wf_for(*u),
                        TypeRegistry::extends(s1, *self),
                        self.key_seq()[h_usize as int] == key,
                        variants_match(self.key_seq(), vs@, pvs@, j as int),
                        forall|i: int|
                            pre.spec_len() < i < self.spec_len() ==> (#[trigger] self.table_seq()[
                            i]) is Some,
                    decreases n - j,
                {
                    let fsj = &vs[j].fields;
                    let m = fsj.len();
                    let vname = copy_bytes(&vs[j].name);
                    let mut pfs: Vec<PortableFieldDesc> = Vec::new();
                    let mut l: usize = 0;
                    while l < m
                        invariant
                            0 <= l <= m,
                            0 <= j < n,
                            pfs@.len() == l,
                            pvs@.len() == j,
                            self.wf_for(*u),
                            TypeRegistry::extends(s1, *self),
                            self.key_seq()[h_usize as int] == key,
                            variants_match(self.key_seq(), vs@, pvs@, j as int),
                            fields_match(self.key_seq(), fsj@, pfs@, l as int),
                            forall|i: int|
                                pre.spec_len() < i < self.spec_len() ==> (
                                #[trigger] self.table_seq()[i]) is Some,
                        decreases m - l,
                    {
                        let ghost before = *self;
                        proof {
                            let vvs = u.desc_of(key)->Variant_0;
                            assert(vvs == *vs);
                            assert(vvs@[j as int].fields@[l as int].ty == fsj@[l as int].ty);
                            assert(mentions(u.desc_of(key), fsj@[l as int].ty));
                            self.lemma_len_bound(*u);
                        }
                        let fname = copy_bytes(&fsj[l].name);
                        let hh = match self.resolve_ref(u, fsj[l].ty) {
                            Ok(hh) => hh,
                            Err(er) => {
                                proof {
                                    Self::lemma_extends_trans(s1, before, *self);
                                    Self::lemma_extends_trans(pre, s1, *self);
                                }
                                return Err(er);
                            },
                        };
                        let ghost pfs0 = pfs@;
                        pfs.push(PortableFieldDesc { name: fname, ty: hh });
                        proof {
                            Self::lemma_extends_trans(s1, before, *self);
                            assert(self.key_seq()[h_usize as int] == before.key_seq()[h_usize
                                as int]);
                            assert forall|jj: int|
                                0 <= jj < j implies #[trigger] variant_is_image(
                                vs@[jj],
                                self.key_seq(),
                                pvs@[jj],
                            ) by {
                                assert(variants_match(before.key_seq(), vs@, pvs@, j as int));
                                assert(variant_is_image(vs@[jj], before.key_seq(), pvs@[jj]));
                                lemma_variant_image_stable(
                                    vs@[jj],
                                    before.key_seq(),
                                    self.key_seq(),
                                    pvs@[jj],
                                );
                            }
                            assert forall|ll: int|
                                0 <= ll < l + 1 implies #[trigger] field_is_image(
                                fsj@[ll],
                                self.key_seq(),
                                pfs@[ll],
                            ) by {
                                if ll < l {
                                    assert(pfs@[ll] == pfs0[ll]);
                                    assert(fields_match(before.key_seq(), fsj@, pfs0, l as int));
                                    assert(field_is_image(fsj@[ll], before.key_seq(), pfs0[ll]));
                                    lemma_field_image_stable(
                                        fsj@[ll],
                                        before.key_seq(),
                                        self.key_seq(),
                                        pfs0[ll],
                                    );
                                } else {
                                    assert(pfs@[ll].name@ == fsj@[ll].name@);
                                    assert(self.key_seq().contains(fsj@[ll].ty));
                                    assert(pfs@[ll].ty as int == self.key_seq().index_of(
                                        fsj@[ll].ty,
                                    ));
                                }
                            }
                            assert forall|i: int|
                                pre.spec_len() < i < self.spec_len() implies (
                            #[trigger] self.table_seq()[i]) is Some by {
                                if i < before.spec_len() {
                                    assert(self.table_seq()[i] == before.table_seq()[i]);
                                }
                            }
                        }
                        l += 1;
                    }
                    let ghost pfsv = pfs@;
                    let ghost pvs0 = pvs@;
                    pvs.push(PortableVariantDesc { name: vname, fields: pfs });
                    proof {
                        assert(pvs@[j as int].fields@ == pfsv);
                        assert forall|jj: int|
                            0 <= jj < j + 1 implies #[trigger] variant_is_image(
                            vs@[jj],
                            self.key_seq(),
                            pvs@[jj],
                        ) by {
                            if jj < j {
                                assert(pvs@[jj] == pvs0[jj]);
                                assert(variants_match(self.key_seq(), vs@, pvs0, j as int));
                                assert(variant_is_image(vs@[jj], self.key_seq(), pvs0[jj]));
                            } else {
                                assert(pvs@[jj].name@ == vs@[jj].name@);
                                assert(fields_match(self.key_seq(), fsj@, pfsv, m as int));
                                assert forall|ll: int|
                                    0 <= ll < vs@[jj].fields@.len() implies field_is_image(
                                    vs@[jj].fields@[ll],
                                    self.key_seq(),
                                    #[trigger] pvs@[jj].fields@[ll],
                                ) by {
                                    assert(field_is_image(fsj@[ll], self.key_seq(), pfsv[ll]));
                                }
                            }
                        }
                    }
                    j += 1;
                }
                let ghost pvsv = pvs@;
                let p = PortableTypeDescription::Variant(pvs);
                proof {
                    assert(p->Variant_0@ == pvsv);
                    assert(is_image(u.desc_of(key), self.key_seq(), p)) by {
                        assert(variants_match(self.key_seq(), vs@, pvsv, n as int));
                        assert forall|i: int|
                            0 <= i < vs@.len() implies variant_is_image(
                            vs@[i],
                            self.key_seq(),
                            #[trigger] pvsv[i],
                        ) by {
                            assert(variant_is_image(vs@[i], self.key_seq(), pvsv[i]));
                        }
                    }
                }
                p
            },
        };
        proof {
            assert(is_image(u.desc_of(key), self.key_seq(), portable));
        }
        let ghost s2 = *self;
        self.table.set(h_usize, Some(portable));
        proof {
            assert(self.key_seq() == s2.key_seq());
            assert forall|k: u64| #[trigger] self.registered(k) implies u.spec_contains(k) by {
                assert(s2.registered(k));
            }
            assert forall|i: int|
                0 <= i < self.spec_len() implies ((#[trigger] self.table_seq()[i]) matches Some(
            p) ==> is_image(u.desc_of(self.key_seq()[i]), self.key_seq(), p)) by {
                if i != h_usize as int {
                    assert(self.table_seq()[i] == s2.table_seq()[i]);
                }
            }
            assert forall|i: int|
                pre.spec_len() <= i < self.spec_len() implies (#[trigger] self.table_seq()[i])
                is Some by {
                if i != h_usize as int {
                    assert(self.table_seq()[i] == s2.table_seq()[i]);
                }
            }
            Self::lemma_extends_trans(pre, s1, s2);
            assert(Self::extends(pre, *self));
            lemma_index_of_unique(self.key_seq(), key, h_usize as int);
        }
        Ok(h)
    }
}


/// Two portable descriptions that are images of one inline description
/// under one key sequence are the same description, byte for byte.  With
/// every registry entry pinned to the image of its key's description, the
/// portable table is fully determined by the universe and the order in
/// which keys received handles: converting the same graph again yields
/// identical portable output.
pub proof fn lemma_image_functional(
    d: TypeDescription,
    keys: Seq<u64>,
    p1: PortableTypeDescription,
    p2: PortableTypeDescription,
)
    requires
        is_image(d, keys, p1),
        is_image(d, keys, p2),
    ensures
        portable_desc_eq(p1, p2),
{
    match d {
        TypeDescription::Primitive(_) => {},
        TypeDescription::Composite(fs) => {
            let ps1 = p1->Composite_0;
            let ps2 = p2->Composite_0;
            assert forall|i: int|
                0 <= i < ps1@.len() implies (#[trigger] ps1@[i]).name@ == ps2@[i].name@
                && ps1@[i].ty == ps2@[i].ty by {
                assert(field_is_image(fs@[i], keys, ps1@[i]));
                assert(field_is_image(fs@[i], keys, ps2@[i]));
            }
        },
        TypeDescription::Variant(vs) => {
            let ps1 = p1->Variant_0;
            let ps2 = p2->Variant_0;
            assert forall|i: int|
                0 <= i < ps1@.len() implies (#[trigger] ps1@[i]).name@ == ps2@[i].name@
                && ps1@[i].fields@.len() == ps2@[i].fields@.len() && (forall|j: int|
                0 <= j < ps1@[i].fields@.len() ==> (#[trigger] ps1@[i].fields@[j]).name@
                    == ps2@[i].fields@[j].name@ && ps1@[i].fields@[j].ty
                    == ps2@[i].fields@[j].ty) by {
                assert(variant_is_image(vs@[i], keys, ps1@[i]));
                assert(variant_is_image(vs@[i], keys, ps2@[i]));
                assert forall|j: int|
                    0 <= j < ps1@[i].fields@.len() implies (#[trigger] ps1@[i].fields@[j]).name@
                    == ps2@[i].fields@[j].name@ && ps1@[i].fields@[j].ty
                    == ps2@[i].fields@[j].ty by {
                    assert(field_is_image(vs@[i].fields@[j], keys, ps1@[i].fields@[j]));
                    assert(field_is_image(vs@[i].fields@[j], keys, ps2@[i].fields@[j]));
                }
            }
        },
        TypeDescription::Sequence(e) => {
            assert(handle_is_image(e, keys, p1->Sequence_0));
            assert(handle_is_image(e, keys, p2->Sequence_0));
        },
        TypeDescription::Tuple(ks) => {
            let hs1 = p1->Tuple_0;
            let hs2 = p2->Tuple_0;
            assert forall|i: int| 0 <= i < hs1@.len() implies (#[trigger] hs1@[i]) == hs2@[i] by {
                assert(handle_is_image(ks@[i], keys, hs1@[i]));
                assert(handle_is_image(ks@[i], keys, hs2@[i]));
            }
        },
    }
}

/// Two portable descriptions hold the same bytes: same shape, same names,
/// same handles.
pub open spec fn portable_desc_eq(p1: PortableTypeDescription, p2: PortableTypeDescription) -> bool {
    match (p1, p2) {
        (PortableTypeDescription::Primitive(m1), PortableTypeDescription::Primitive(m2)) => m1@
            == m2@,
        (PortableTypeDescription::Composite(ps1), PortableTypeDescription::Composite(ps2)) => {
            &&& ps1@.len() == ps2@.len()
            &&& forall|i: int|
                0 <= i < ps1@.len() ==> (#[trigger] ps1@[i]).name@ == ps2@[i].name@ && ps1@[i].ty
                    == ps2@[i].ty
        },
        (PortableTypeDescription::Variant(ps1), PortableTypeDescription::Variant(ps2)) => {
            &&& ps1@.len() == ps2@.len()
            &&& forall|i: int|
                0 <= i < ps1@.len() ==> (#[trigger] ps1@[i]).name@ == ps2@[i].name@
                    && ps1@[i].fields@.len() == ps2@[i].fields@.len() && (forall|j: int|
                    0 <= j < ps1@[i].fields@.len() ==> (#[trigger] ps1@[i].fields@[j]).name@
                        == ps2@[i].fields@[j].name@ && ps1@[i].fields@[j].ty
                        == ps2@[i].fields@[j].ty)
        },
        (PortableTypeDescription::Sequence(h1), PortableTypeDescription::Sequence(h2)) => h1 == h2,
        (PortableTypeDescription::Tuple(hs1), PortableTypeDescription::Tuple(hs2)) => {
            &&& hs1@.len() == hs2@.len()
            &&& forall|i: int| 0 <= i < hs1@.len() ==> (#[trigger] hs1@[i]) == hs2@[i]
        },
        _ => false,
    }
}

/// Two complete registries tied to one universe that assigned handles to
/// the same keys in the same order hold tables that agree entry by entry:
/// the portable table is determined by the universe and the key order.
pub proof fn lemma_tables_agree(r1: TypeRegistry, r2: TypeRegistry, u: TypeUniverse)
    requires
        r1.wf_for(u),
        r2.wf_for(u),
        r1.complete(),
        r2.complete(),
        r1.key_seq() == r2.key_seq(),
    ensures
        r1.table_seq().len() == r2.table_seq().len(),
        forall|i: int|
            0 <= i < r1.table_seq().len() ==> portable_desc_eq(
                (#[trigger] r1.table_seq()[i])->Some_0,
                r2.table_seq()[i]->Some_0,
            ),
{
    assert forall|i: int| 0 <= i < r1.table_seq().len() implies portable_desc_eq(
        (#[trigger] r1.table_seq()[i])->Some_0,
        r2.table_seq()[i]->Some_0,
    ) by {
        assert(r1.table_seq()[i] is Some);
        assert(r2.table_seq()[i] is Some);
        let p1 = r1.table_seq()[i]->Some_0;
        let p2 = r2.table_seq()[i]->Some_0;
        assert(is_image(u.desc_of(r1.key_seq()[i]), r1.key_seq(), p1));
        assert(is_image(u.desc_of(r2.key_seq()[i]), r2.key_seq(), p2));
        lemma_image_functional(u.desc_of(r1.key_seq()[i]), r1.key_seq(), p1, p2);
    }
}

/// Pushing a fresh universe key with an empty slot keeps the registry
/// well-formed for the universe and is a growth step.
proof fn lemma_registry_push(pre: TypeRegistry, post: TypeRegistry, u: TypeUniverse, key: u64)
    requires
        u.wf(),
        pre.wf_for(u),
        !pre.registered(key),
        u.spec_contains(key),
        post.key_seq() == pre.key_seq().push(key),
        post.table_seq() == pre.table_seq().push(None::<PortableTypeDescription>),
    ensures
        post.wf_for(u),
        TypeRegistry::extends(pre, post),
        post.spec_len() == pre.spec_len() + 1,
        post.key_seq()[pre.spec_len() as int] == key,
        post.registered(key),
{
    let n = pre.key_seq().len() as int;
    assert forall|i: int, j: int|
        (0 <= i < post.key_seq().len() && 0 <= j < post.key_seq().len() && i != j) implies post
        .key_seq()[i] != post.key_seq()[j] by {
        if i < n && j < n {
        } else if i == n {
            if post.key_seq()[i] == post.key_seq()[j] {
                assert(pre.key_seq().contains(key));
            }
        } else if j == n {
            if post.key_seq()[i] == post.key_seq()[j] {
                assert(pre.key_seq().contains(key));
            }
        }
    }
    assert(pre.key_seq() =~= post.key_seq().subrange(0, n));
    assert forall|k2: u64| #[trigger] post.registered(k2) implies u.spec_contains(k2) by {
        let i = choose|i: int| 0 <= i < post.key_seq().len() && post.key_seq()[i] == k2;
        if i < n {
            assert(pre.key_seq().contains(k2));
            assert(pre.registered(k2));
        }
    }
    assert forall|i: int|
        0 <= i < post.spec_len() implies ((#[trigger] post.table_seq()[i]) matches Some(p)
        ==> is_image(u.desc_of(post.key_seq()[i]), post.key_seq(), p)) by {
        if i < n {
            assert(post.table_seq()[i] == pre.table_seq()[i]);
            if post.table_seq()[i] is Some {
                let p = post.table_seq()[i]->Some_0;
                assert(is_image(u.desc_of(pre.key_seq()[i]), pre.key_seq(), p));
                lemma_image_stable(u.desc_of(pre.key_seq()[i]), pre.key_seq(), post.key_seq(), p);
            }
        }
    }
}

} // verus!

