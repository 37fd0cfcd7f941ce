use metadata_ir::registry::{
    FieldDesc, PortableTypeDescription, PortableVariantDesc, RegistryError, TypeDescription,
    TypeRegistry, TypeUniverse, VariantDesc,
};
use metadata_ir::types::{
    PalletStorageMetadataIR, PortableStorageEntryTypeIR, StorageEntryMetadataIR,
    StorageEntryModifierIR, StorageEntryTypeIR, StorageHasherIR, ViewFunctionsInterfaceIR,
    ViewFunctionMetadataIR, QueryArgMetadataIR,
};
use metadata_ir::ids::ViewFunctionId;
use metadata_ir::types::convert_interface;

const U128_KEY: u64 = 1;
const ACCOUNT_KEY: u64 = 2;
const LIST_KEY: u64 = 3;

fn sample_universe() -> TypeUniverse {
    let mut u = TypeUniverse::new();
    assert!(u.add_type(U128_KEY, TypeDescription::Primitive(b"u128".to_vec())));
    assert!(u.add_type(
        ACCOUNT_KEY,
        TypeDescription::Composite(vec![
            FieldDesc { name: b"free".to_vec(), ty: U128_KEY },
            FieldDesc { name: b"reserved".to_vec(), ty: U128_KEY },
        ]),
    ));
    assert!(u.add_type(LIST_KEY, TypeDescription::Sequence(ACCOUNT_KEY)));
    u
}

#[test]
fn register_assigns_handles_in_preorder() {
    let u = sample_universe();
    let mut reg = TypeRegistry::new();
    let h = reg.register(&u, LIST_KEY).unwrap();
    // list first, then its element, then the element's field type
    assert_eq!(h, 0);
    let table = reg.finalize();
    assert_eq!(table.len(), 3);
    assert_eq!(table[0], PortableTypeDescription::Sequence(1));
    match &table[1] {
        PortableTypeDescription::Composite(fields) => {
            assert_eq!(fields.len(), 2);
            assert_eq!(fields[0].name, b"free".to_vec());
            assert_eq!(fields[0].ty, 2);
            assert_eq!(fields[1].ty, 2);
        },
        other => panic!("unexpected shape: {:?}", other),
    }
    assert_eq!(table[2], PortableTypeDescription::Primitive(b"u128".to_vec()));
}

#[test]
fn registering_twice_returns_the_same_handle_and_one_entry() {
    let u = sample_universe();
    let mut reg = TypeRegistry::new();
    let h1 = reg.register(&u, U128_KEY).unwrap();
    let h2 = reg.register(&u, U128_KEY).unwrap();
    assert_eq!(h1, h2);
    let table = reg.finalize();
    assert_eq!(table.len(), 1);
}

#[test]
fn registering_a_missing_key_fails_and_reports_it() {
    let u = sample_universe();
    let mut reg = TypeRegistry::new();
    let r = reg.register(&u, 99);
    assert_eq!(r, Err(RegistryError::MissingType(99)));
}

#[test]
fn registering_a_type_with_a_dangling_field_propagates_the_fault() {
    let mut u = TypeUniverse::new();
    assert!(u.add_type(
        7,
        TypeDescription::Composite(vec![FieldDesc { name: b"broken".to_vec(), ty: 8 }]),
    ));
    let mut reg = TypeRegistry::new();
    assert_eq!(reg.register(&u, 7), Err(RegistryError::MissingType(8)));
}

#[test]
fn duplicate_cache_keys_are_rejected_by_the_universe() {
    let mut u = TypeUniverse::new();
    assert!(u.add_type(1, TypeDescription::Primitive(b"u8".to_vec())));
    assert!(!u.add_type(1, TypeDescription::Primitive(b"u16".to_vec())));
}

#[test]
fn cyclic_description_terminates_with_a_self_referencing_handle() {
    // type Node { next: Node } -- a directly recursive description
    let mut u = TypeUniverse::new();
    assert!(u.add_type(
        5,
        TypeDescription::Composite(vec![FieldDesc { name: b"next".to_vec(), ty: 5 }]),
    ));
    let mut reg = TypeRegistry::new();
    let h = reg.register(&u, 5).unwrap();
    assert_eq!(h, 0);
    let table = reg.finalize();
    assert_eq!(table.len(), 1);
    match &table[0] {
        PortableTypeDescription::Composite(fields) => {
            assert_eq!(fields[0].ty, 0, "the cycle resolves to the type's own handle");
        },
        other => panic!("unexpected shape: {:?}", other),
    }
}

#[test]
fn converting_the_same_graph_twice_is_byte_identical() {
    let make_interface = || ViewFunctionsInterfaceIR {
        name: b"Balances".to_vec(),
        queries: vec![ViewFunctionMetadataIR {
            name: b"accounts".to_vec(),
            id: ViewFunctionId { prefix: [1u8; 16], suffix: [2u8; 16] },
            args: vec![QueryArgMetadataIR { name: b"who".to_vec(), ty: ACCOUNT_KEY }],
            output: LIST_KEY,
            docs: vec![b"All accounts.".to_vec()],
        }],
        docs: vec![],
    };
    let u = sample_universe();

    let mut reg1 = TypeRegistry::new();
    let p1 = make_interface().into_portable(&mut reg1, &u).unwrap();
    let t1 = reg1.finalize();

    let mut reg2 = TypeRegistry::new();
    let p2 = make_interface().into_portable(&mut reg2, &u).unwrap();
    let t2 = reg2.finalize();

    assert_eq!(p1, p2);
    assert_eq!(t1, t2);
}

#[test]
fn storage_metadata_converts_with_handles_and_hashers_kept() {
    let u = sample_universe();
    let storage = PalletStorageMetadataIR {
        prefix: b"Balances".to_vec(),
        entries: vec![
            StorageEntryMetadataIR {
                name: b"TotalIssuance".to_vec(),
                modifier: StorageEntryModifierIR::Default,
                ty: StorageEntryTypeIR::Plain(U128_KEY),
                default: vec![0u8],
                docs: vec![b"The total units issued.".to_vec()],
            },
            StorageEntryMetadataIR {
                name: b"Account".to_vec(),
                modifier: StorageEntryModifierIR::Optional,
                ty: StorageEntryTypeIR::StorageMap {
                    hashers: vec![StorageHasherIR::Blake2_128Concat],
                    key: U128_KEY,
                    value: ACCOUNT_KEY,
                },
                default: vec![],
                docs: vec![],
            },
        ],
    };
    let mut reg = TypeRegistry::new();
    let p = storage.into_portable(&mut reg, &u).unwrap();
    assert_eq!(p.prefix, b"Balances".to_vec());
    assert_eq!(p.entries.len(), 2);
    assert_eq!(p.entries[0].modifier, StorageEntryModifierIR::Default);
    assert_eq!(p.entries[0].ty, PortableStorageEntryTypeIR::Plain(0));
    match &p.entries[1].ty {
        PortableStorageEntryTypeIR::StorageMap { hashers, key, value } => {
            assert_eq!(hashers, &vec![StorageHasherIR::Blake2_128Concat]);
            assert_eq!(*key, 0, "u128 was already registered and keeps its handle");
            assert_eq!(*value, 1);
        },
        other => panic!("unexpected storage type: {:?}", other),
    }
    let table = reg.finalize();
    assert_eq!(table.len(), 2, "u128 and the account composite, deduplicated");
}

#[test]
fn convert_interface_produces_a_self_contained_document() {
    let u = sample_universe();
    let interface = ViewFunctionsInterfaceIR {
        name: b"Balances".to_vec(),
        queries: vec![ViewFunctionMetadataIR {
            name: b"accounts".to_vec(),
            id: ViewFunctionId { prefix: [1u8; 16], suffix: [2u8; 16] },
            args: vec![],
            output: LIST_KEY,
            docs: vec![],
        }],
        docs: vec![],
    };
    let (table, portable) = convert_interface(&u, interface).unwrap();
    assert_eq!(table.len(), 3, "list, account composite, u128");
    let out = portable.queries[0].output as usize;
    assert!(out < table.len(), "every handle points into the table");
    assert_eq!(table[out], PortableTypeDescription::Sequence(1));
}

#[test]
fn convert_interface_reports_a_dangling_reference() {
    let u = sample_universe();
    let interface = ViewFunctionsInterfaceIR {
        name: b"Broken".to_vec(),
        queries: vec![ViewFunctionMetadataIR {
            name: b"nope".to_vec(),
            id: ViewFunctionId { prefix: [0u8; 16], suffix: [0u8; 16] },
            args: vec![],
            output: 42,
            docs: vec![],
        }],
        docs: vec![],
    };
    assert_eq!(convert_interface(&u, interface), Err(RegistryError::MissingType(42)));
}

#[test]
fn variants_and_tuples_resolve_their_nested_references() {
    let mut u = TypeUniverse::new();
    assert!(u.add_type(1, TypeDescription::Primitive(b"u32".to_vec())));
    assert!(u.add_type(2, TypeDescription::Primitive(b"bool".to_vec())));
    assert!(u.add_type(3, TypeDescription::Tuple(vec![1, 2, 1])));
    assert!(u.add_type(
        4,
        TypeDescription::Variant(vec![
            VariantDesc { name: b"None".to_vec(), fields: vec![] },
            VariantDesc {
                name: b"Some".to_vec(),
                fields: vec![FieldDesc { name: b"value".to_vec(), ty: 3 }],
            },
        ]),
    ));
    let mut reg = TypeRegistry::new();
    let h = reg.register(&u, 4).unwrap();
    assert_eq!(h, 0);
    let table = reg.finalize();
    assert_eq!(table.len(), 4, "variant, tuple, u32, bool");
    match &table[0] {
        PortableTypeDescription::Variant(vs) => {
            let expected = vec![
                PortableVariantDesc { name: b"None".to_vec(), fields: vec![] },
                PortableVariantDesc {
                    name: b"Some".to_vec(),
                    fields: vec![metadata_ir::registry::PortableFieldDesc {
                        name: b"value".to_vec(),
                        ty: 1,
                    }],
                },
            ];
            assert_eq!(vs, &expected);
        },
        other => panic!("unexpected shape: {:?}", other),
    }
    match &table[1] {
        PortableTypeDescription::Tuple(hs) => {
            assert_eq!(hs, &vec![2, 3, 2], "repeated references reuse one handle");
        },
        other => panic!("unexpected shape: {:?}", other),
    }
}

#[test]
fn a_group_without_queries_registers_no_types() {
    let u = sample_universe();
    let g = ViewFunctionsInterfaceIR {
        name: b"Empty".to_vec(),
        queries: vec![],
        docs: vec![b"Nothing declared.".to_vec()],
    };
    let (table, portable) = convert_interface(&u, g).unwrap();
    assert!(table.is_empty(), "no type references, no registrations");
    assert!(portable.queries.is_empty());
    assert_eq!(portable.name, b"Empty".to_vec());
    assert_eq!(portable.docs, vec![b"Nothing declared.".to_vec()]);
}
