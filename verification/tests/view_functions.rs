use metadata_ir::assemble::{
    canonical_signature, CaptureDocs, MetadataAssembler, ViewFunctionArgDef, ViewFunctionDef,
};
use metadata_ir::dispatch::{
    routes_from_group, QueryDecodeError, RouteEntry, ViewFunction, ViewFunctionDispatchError,
    ViewFunctionDispatcher,
};
use metadata_ir::ids::{suffix_of, AssemblyError, ModuleIdentity, ViewFunctionId};
use metadata_ir::registry::{TypeDescription, TypeRegistry, TypeUniverse};
use parity_scale_codec::{Decode, Encode};

const U128_KEY: u64 = 1;
const U32_KEY: u64 = 2;

fn universe() -> TypeUniverse {
    let mut u = TypeUniverse::new();
    assert!(u.add_type(U128_KEY, TypeDescription::Primitive(b"u128".to_vec())));
    assert!(u.add_type(U32_KEY, TypeDescription::Primitive(b"u32".to_vec())));
    u
}

fn total_issuance_def() -> ViewFunctionDef {
    ViewFunctionDef {
        name: b"totalIssuance".to_vec(),
        args: vec![],
        output: U128_KEY,
        output_ty_name: b"u128".to_vec(),
        docs: vec![b"The total units issued.".to_vec()],
    }
}

fn attached_module(name: &[u8]) -> ModuleIdentity {
    let mut m = ModuleIdentity::new(name.to_vec());
    m.attach();
    m
}

struct TotalIssuance {
    value: u128,
}

impl ViewFunction for TotalIssuance {
    fn invoke(&self, input: &Vec<u8>) -> Result<Vec<u8>, QueryDecodeError> {
        if !input.is_empty() {
            return Err(QueryDecodeError {});
        }
        Ok(self.value.encode())
    }
}

struct Double;

impl ViewFunction for Double {
    fn invoke(&self, input: &Vec<u8>) -> Result<Vec<u8>, QueryDecodeError> {
        let mut slice: &[u8] = input.as_slice();
        match u32::decode(&mut slice) {
            Ok(v) => Ok((v.wrapping_mul(2)).encode()),
            Err(_) => Err(QueryDecodeError {}),
        }
    }
}

#[test]
fn canonical_signature_has_the_documented_form() {
    let def = ViewFunctionDef {
        name: b"transferable".to_vec(),
        args: vec![
            ViewFunctionArgDef {
                name: b"who".to_vec(),
                ty_name: b"AccountId".to_vec(),
                ty: U32_KEY,
            },
            ViewFunctionArgDef { name: b"at".to_vec(), ty_name: b"u32".to_vec(), ty: U32_KEY },
        ],
        output: U128_KEY,
        output_ty_name: b"u128".to_vec(),
        docs: vec![],
    };
    let sig = canonical_signature(&def);
    assert_eq!(sig, b"transferable(AccountId,u32)->u128".to_vec());
}

#[test]
fn prefix_is_stable_across_repeated_calls() {
    let mut m = attached_module(b"Balances");
    let p1 = m.prefix_of().unwrap();
    let p2 = m.prefix_of().unwrap();
    let p3 = m.prefix_of().unwrap();
    assert_eq!(p1, p2);
    assert_eq!(p2, p3);
}

#[test]
fn prefix_of_an_unattached_module_is_a_fault() {
    let mut m = ModuleIdentity::new(b"Balances".to_vec());
    assert_eq!(m.prefix_of(), Err(AssemblyError::IdentityUnavailable));
    m.attach();
    assert!(m.prefix_of().is_ok());
}

#[test]
fn suffixes_of_many_distinct_signatures_do_not_collide() {
    let mut seen: Vec<[u8; 16]> = Vec::new();
    for arg in ["", "u8", "u32", "AccountId"] {
        for name in ["get", "total", "free", "reserved", "locks", "count"] {
            for ret in ["u8", "u16", "u32", "u64", "u128", "bool"] {
                let sig = format!("{}({})->{}", name, arg, ret).into_bytes();
                let s = suffix_of(&sig);
                assert!(!seen.contains(&s), "collision for {:?}", sig);
                seen.push(s);
            }
        }
    }
    assert_eq!(seen.len(), 144);
}

#[test]
fn suffix_is_not_the_input_bytes() {
    let sig = b"0123456789abcdef".to_vec();
    let s = suffix_of(&sig);
    assert_ne!(s.to_vec(), sig, "the suffix is a hash, not the signature itself");
}

#[test]
fn build_group_records_name_id_args_output_and_docs() {
    let u = universe();
    let mut module = attached_module(b"Balances");
    let assembler = MetadataAssembler { capture_docs: CaptureDocs::Always };
    let defs = vec![total_issuance_def()];
    let group = assembler
        .build_group(&mut module, &defs, &vec![b"Balance queries.".to_vec()])
        .unwrap();

    assert_eq!(group.name, b"Balances".to_vec());
    assert_eq!(group.docs, vec![b"Balance queries.".to_vec()]);
    assert_eq!(group.queries.len(), 1);
    let q = &group.queries[0];
    assert_eq!(q.name, b"totalIssuance".to_vec());
    assert!(q.args.is_empty());
    assert_eq!(q.output, U128_KEY);
    assert_eq!(q.docs, vec![b"The total units issued.".to_vec()]);

    let expected_prefix = module.prefix_of().unwrap();
    assert_eq!(q.id.prefix, expected_prefix);
    let sig = canonical_signature(&defs[0]);
    assert_eq!(sig, b"totalIssuance()->u128".to_vec());
    assert_eq!(q.id.suffix, suffix_of(&sig));

    // the group's types pass through the registry
    let mut reg = TypeRegistry::new();
    let portable = group.into_portable(&mut reg, &u).unwrap();
    assert_eq!(portable.queries[0].output, 0);
    let table = reg.finalize();
    assert_eq!(table.len(), 1);
}

#[test]
fn build_group_without_docs_omits_them() {
    let mut module = attached_module(b"Balances");
    let assembler = MetadataAssembler { capture_docs: CaptureDocs::Never };
    let defs = vec![total_issuance_def()];
    let group = assembler
        .build_group(&mut module, &defs, &vec![b"Balance queries.".to_vec()])
        .unwrap();
    assert!(group.docs.is_empty());
    assert!(group.queries[0].docs.is_empty());
}

#[test]
fn build_group_on_an_unattached_module_is_a_fault() {
    let mut module = ModuleIdentity::new(b"Balances".to_vec());
    let assembler = MetadataAssembler { capture_docs: CaptureDocs::Always };
    let r = assembler.build_group(&mut module, &vec![total_issuance_def()], &vec![]);
    assert_eq!(r.err(), Some(AssemblyError::IdentityUnavailable));
}

#[test]
fn two_declarations_with_one_signature_are_rejected() {
    let mut module = attached_module(b"Balances");
    let assembler = MetadataAssembler { capture_docs: CaptureDocs::Always };
    let defs = vec![total_issuance_def(), total_issuance_def()];
    let r = assembler.build_group(&mut module, &defs, &vec![]);
    assert_eq!(r.err(), Some(AssemblyError::DuplicateSuffix));
}

#[test]
fn duplicate_routes_are_rejected() {
    let routes = vec![
        RouteEntry { suffix: [7u8; 16], query: TotalIssuance { value: 1 } },
        RouteEntry { suffix: [7u8; 16], query: TotalIssuance { value: 2 } },
    ];
    match ViewFunctionDispatcher::new(routes) {
        Err(AssemblyError::DuplicateSuffix) => {},
        _ => panic!("a shadowed query must be rejected"),
    }
}

#[test]
fn dispatching_an_unknown_suffix_returns_not_found_with_that_id() {
    let dispatcher = ViewFunctionDispatcher::new(vec![RouteEntry {
        suffix: [7u8; 16],
        query: TotalIssuance { value: 1 },
    }])
    .unwrap();
    let id = ViewFunctionId { prefix: [9u8; 16], suffix: [8u8; 16] };
    let mut output: Vec<u8> = Vec::new();
    let r = dispatcher.dispatch(&id, &Vec::new(), &mut output);
    assert_eq!(r, Err(ViewFunctionDispatchError::NotFound(id)));
    assert!(output.is_empty());
}

#[test]
fn a_corrupt_input_yields_a_decode_error_and_no_partial_write() {
    let dispatcher = ViewFunctionDispatcher::new(vec![RouteEntry {
        suffix: [7u8; 16],
        query: Double,
    }])
    .unwrap();
    let id = ViewFunctionId { prefix: [9u8; 16], suffix: [7u8; 16] };
    let truncated = vec![1u8, 0u8];
    let mut output: Vec<u8> = Vec::new();
    let r = dispatcher.dispatch(&id, &truncated, &mut output);
    assert_eq!(r, Err(ViewFunctionDispatchError::Codec(QueryDecodeError {})));
    assert!(output.is_empty(), "a failed decode must not write to the sink");
    assert_ne!(
        r,
        Err(ViewFunctionDispatchError::NotFound(id)),
        "a malformed input is not an unknown query"
    );
}

#[test]
fn balances_total_issuance_end_to_end() {
    let u = universe();
    let mut module = attached_module(b"Balances");
    let assembler = MetadataAssembler { capture_docs: CaptureDocs::Always };
    let defs = vec![total_issuance_def()];
    let group = assembler.build_group(&mut module, &defs, &vec![]).unwrap();
    let q = &group.queries[0];
    assert!(q.args.is_empty());
    assert_eq!(q.id.prefix, module.prefix_of().unwrap());
    assert_eq!(q.id.suffix, suffix_of(&b"totalIssuance()->u128".to_vec()));

    // the output type is registered and resolvable
    let mut reg = TypeRegistry::new();
    let portable = group.clone().into_portable(&mut reg, &u).unwrap();
    let table = reg.finalize();
    assert_eq!(table.len(), 1);
    assert_eq!(portable.queries[0].output, 0);

    // dispatching the exact id runs the query and writes the encoded issuance
    let issuance: u128 = 157_000_000;
    let dispatcher = ViewFunctionDispatcher::new(vec![RouteEntry {
        suffix: group.queries[0].id.suffix,
        query: TotalIssuance { value: issuance },
    }])
    .unwrap();
    let mut output: Vec<u8> = Vec::new();
    dispatcher.dispatch(&group.queries[0].id, &Vec::new(), &mut output).unwrap();
    assert_eq!(output, issuance.encode());
}

#[test]
fn two_modules_with_the_same_query_share_a_suffix_but_not_a_prefix() {
    let get_def = || ViewFunctionDef {
        name: b"get".to_vec(),
        args: vec![],
        output: U32_KEY,
        output_ty_name: b"u32".to_vec(),
        docs: vec![],
    };
    let assembler = MetadataAssembler { capture_docs: CaptureDocs::Never };

    let mut module_a = attached_module(b"A");
    let group_a = assembler.build_group(&mut module_a, &vec![get_def()], &vec![]).unwrap();
    let mut module_b = attached_module(b"B");
    let group_b = assembler.build_group(&mut module_b, &vec![get_def()], &vec![]).unwrap();

    let id_a = group_a.queries[0].id;
    let id_b = group_b.queries[0].id;
    assert_eq!(id_a.suffix, id_b.suffix, "the suffix depends on the declaration alone");
    assert_ne!(id_a.prefix, id_b.prefix, "distinct module identities, distinct prefixes");

    // module selection is the caller's prefix match; only an identifier
    // that passes it reaches the module's own dispatcher
    let prefix_a = module_a.prefix_of().unwrap();
    assert_eq!(id_a.prefix, prefix_a);
    assert_ne!(id_b.prefix, prefix_a, "the prefix gate screens out the other module's id");
    let dispatcher_a = routes_from_group(&group_a, vec![TotalIssuance { value: 1 }]).unwrap();
    let mut output: Vec<u8> = Vec::new();
    assert!(dispatcher_a.dispatch(&id_a, &Vec::new(), &mut output).is_ok());
}

#[test]
fn a_dispatcher_built_from_an_assembled_group_routes_its_queries() {
    let mut module = attached_module(b"Balances");
    let assembler = MetadataAssembler { capture_docs: CaptureDocs::Never };
    let defs = vec![total_issuance_def()];
    let group = assembler.build_group(&mut module, &defs, &vec![]).unwrap();
    let id = group.queries[0].id;

    let dispatcher =
        routes_from_group(&group, vec![TotalIssuance { value: 42 }]).unwrap();
    let mut output: Vec<u8> = Vec::new();
    dispatcher.dispatch(&id, &Vec::new(), &mut output).unwrap();
    assert_eq!(output, 42u128.encode());
}
