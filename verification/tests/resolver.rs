use dwarf_import::attrs::Sections;
use dwarf_import::builder::DebugInfoBuilder;
use dwarf_import::cursor::{Cursor, Endian};
use dwarf_import::die::{At, AttrValue, Attribute, Die, Tag, Unit};
use dwarf_import::error::Error;
use dwarf_import::resolver::{
    base_type_request, find_parent_entry, find_typedef_target, get_member_location, get_type,
    resolve_entry,
};
use dwarf_import::types::{
    Enumerator, Member, Parameter, StructureKind, TypeHandle, TypeRequest,
};

fn attr(at: At, value: AttrValue) -> Attribute {
    Attribute { at, value }
}

fn name(text: &str) -> Attribute {
    attr(At::Name, AttrValue::String(text.as_bytes().to_vec()))
}

fn size(bytes: u64) -> Attribute {
    attr(At::ByteSize, AttrValue::Udata(bytes))
}

fn ty(offset: usize) -> Attribute {
    attr(At::Type, AttrValue::UnitRef(offset))
}

fn encoding(code: u8) -> Attribute {
    attr(At::Encoding, AttrValue::Encoding(code))
}

fn at_offset(offset: u64) -> Attribute {
    attr(At::DataMemberLocation, AttrValue::Udata(offset))
}

fn die(offset: usize, delta_depth: isize, tag: Tag, attrs: Vec<Attribute>) -> Die {
    Die { offset, delta_depth, tag, attrs }
}

fn int_die(offset: usize, delta_depth: isize) -> Die {
    die(offset, delta_depth, Tag::BaseType, vec![name("int"), size(4), encoding(0x05)])
}

fn unit(dies: Vec<Die>) -> Unit {
    Unit::new(dies, 8, 0).unwrap()
}

fn no_tables() -> Sections {
    Sections {
        debug_str: Cursor::new(vec![], Endian::Little),
        debug_addr: Cursor::new(vec![], Endian::Little),
    }
}

fn h(index: usize) -> TypeHandle {
    TypeHandle { index }
}

fn int_request() -> TypeRequest {
    TypeRequest::Integer { width: 4, signed: true, name: "int".to_string() }
}

#[test]
fn a_structure_that_points_to_itself() {
    // struct node { struct node *next; } of 8 bytes, next at offset 0
    let u = unit(vec![
        die(0, 0, Tag::CompileUnit, vec![]),
        die(0x10, 1, Tag::StructureType, vec![name("node"), size(8)]),
        die(0x18, 1, Tag::Member, vec![name("next"), ty(0x20), at_offset(0)]),
        die(0x20, -1, Tag::PointerType, vec![size(8), ty(0x10)]),
    ]);
    let s = no_tables();
    let mut b = DebugInfoBuilder::new();
    assert_eq!(get_type(&s, &u, 1, &mut b), Ok(Some(0x10)));
    assert_eq!(
        b.requests(),
        &vec![
            TypeRequest::NamedReference { name: "node".to_string() },
            TypeRequest::Pointer { width: 8, target: h(0) },
            TypeRequest::Structure {
                kind: StructureKind::Struct,
                width: 8,
                members: vec![Member { ty: h(1), name: "next".to_string(), offset: Some(0) }],
            },
        ]
    );
    assert_eq!(b.types().len(), 2);
    assert_eq!(b.get_type(0x10).unwrap().name, "node");
    assert_eq!(b.handle_of(0x10), Some(h(2)));
    assert_eq!(b.get_type(0x20).unwrap().name, "");
    assert_eq!(b.handle_of(0x20), Some(h(1)));
}

#[test]
fn a_pointer_to_a_structure_that_holds_the_pointer() {
    let u = unit(vec![
        die(0, 0, Tag::CompileUnit, vec![]),
        die(0x10, 1, Tag::StructureType, vec![name("node"), size(16)]),
        die(0x18, 1, Tag::Member, vec![name("value"), ty(0x30), at_offset(0)]),
        die(0x1c, 0, Tag::Member, vec![name("next"), ty(0x20), at_offset(8)]),
        die(0x20, -1, Tag::PointerType, vec![size(8), ty(0x10)]),
        int_die(0x30, 0),
    ]);
    let s = no_tables();
    let mut b = DebugInfoBuilder::new();
    assert_eq!(get_type(&s, &u, 4, &mut b), Ok(Some(0x20)));
    assert_eq!(
        b.requests(),
        &vec![
            TypeRequest::NamedReference { name: "node".to_string() },
            int_request(),
            TypeRequest::Pointer { width: 8, target: h(0) },
            TypeRequest::Structure {
                kind: StructureKind::Struct,
                width: 16,
                members: vec![
                    Member { ty: h(1), name: "value".to_string(), offset: Some(0) },
                    Member { ty: h(2), name: "next".to_string(), offset: Some(8) },
                ],
            },
        ]
    );
    assert_eq!(b.handle_of(0x20), Some(h(2)));
    assert_eq!(b.handle_of(0x10), Some(h(3)));
    assert_eq!(b.handle_of(0x30), Some(h(1)));
    assert_eq!(b.types().len(), 3);
}

#[test]
fn two_structures_that_refer_to_each_other() {
    let u = unit(vec![
        die(0, 0, Tag::CompileUnit, vec![]),
        die(0x10, 1, Tag::StructureType, vec![name("a"), size(8)]),
        die(0x14, 1, Tag::Member, vec![name("b"), ty(0x40), at_offset(0)]),
        die(0x20, -1, Tag::StructureType, vec![name("b"), size(8)]),
        die(0x24, 1, Tag::Member, vec![name("a"), ty(0x48), at_offset(0)]),
        die(0x40, -1, Tag::PointerType, vec![size(8), ty(0x20)]),
        die(0x48, 0, Tag::PointerType, vec![size(8), ty(0x10)]),
    ]);
    let s = no_tables();
    let mut b = DebugInfoBuilder::new();
    assert_eq!(get_type(&s, &u, 1, &mut b), Ok(Some(0x10)));
    assert!(b.contains_type(0x10));
    assert!(b.contains_type(0x20));
    assert!(b.contains_type(0x40));
    assert!(b.contains_type(0x48));
    assert_eq!(b.types().len(), 4);
    let a = b.handle_of(0x10).unwrap();
    match &b.requests()[a.index] {
        TypeRequest::Structure { kind, width, members } => {
            assert_eq!(*kind, StructureKind::Struct);
            assert_eq!(*width, 8);
            assert_eq!(members.len(), 1);
            assert_eq!(members[0].name, "b");
            assert_eq!(members[0].ty, b.handle_of(0x40).unwrap());
        },
        other => panic!("unexpected {:?}", other),
    }
    for (i, request) in b.requests().iter().enumerate() {
        match request {
            TypeRequest::Pointer { target, .. } => assert!(target.index < i),
            TypeRequest::Structure { members, .. } => {
                assert!(members.iter().all(|m| m.ty.index < i))
            },
            _ => {},
        }
    }
}

#[test]
fn resolving_twice_asks_nothing_more_of_the_sink() {
    let u = unit(vec![
        die(0, 0, Tag::CompileUnit, vec![]),
        die(0x10, 1, Tag::PointerType, vec![size(8), ty(0x20)]),
        int_die(0x20, 0),
    ]);
    let s = no_tables();
    let mut b = DebugInfoBuilder::new();
    assert_eq!(get_type(&s, &u, 1, &mut b), Ok(Some(0x10)));
    let requests = b.requests().clone();
    let types = b.types().clone();
    assert_eq!(requests.len(), 2);
    assert_eq!(get_type(&s, &u, 1, &mut b), Ok(Some(0x10)));
    assert_eq!(b.requests(), &requests);
    assert_eq!(b.types(), &types);
    assert_eq!(get_type(&s, &u, 2, &mut b), Ok(Some(0x20)));
    assert_eq!(b.requests(), &requests);
    assert_eq!(b.types(), &types);
    assert_eq!(resolve_entry(&s, &u, 1, &mut b, 0), Ok(Some(0x10)));
    assert_eq!(b.requests(), &requests);
}

#[test]
fn a_chain_of_typedefs_resolves_to_the_base_type() {
    let u = unit(vec![
        die(0, 0, Tag::CompileUnit, vec![]),
        die(0x10, 1, Tag::Typedef, vec![name("first"), ty(0x20)]),
        die(0x20, 0, Tag::Typedef, vec![name("second"), ty(0x30)]),
        die(0x30, 0, Tag::Typedef, vec![name("third"), ty(0x40)]),
        int_die(0x40, 0),
    ]);
    let s = no_tables();
    assert_eq!(find_typedef_target(&u, 1), Ok(Some(4)));
    assert_eq!(find_typedef_target(&u, 2), Ok(Some(4)));
    assert_eq!(find_typedef_target(&u, 3), Ok(Some(4)));
    assert_eq!(find_parent_entry(&u, 1), Ok(Some(4)));
    let mut b = DebugInfoBuilder::new();
    assert_eq!(get_type(&s, &u, 1, &mut b), Ok(Some(0x10)));
    assert_eq!(
        b.requests(),
        &vec![int_request(), TypeRequest::NamedAlias { name: "first".to_string(), target: h(0) }]
    );
    assert_eq!(b.handle_of(0x40), Some(h(0)));
    assert_eq!(b.handle_of(0x10), Some(h(1)));
    assert_eq!(b.get_type(0x10).unwrap().name, "first");
    assert!(!b.contains_type(0x20));
    assert!(!b.contains_type(0x30));
    assert_eq!(get_type(&s, &u, 3, &mut b), Ok(Some(0x30)));
    assert_eq!(
        b.requests()[2],
        TypeRequest::NamedAlias { name: "third".to_string(), target: h(0) }
    );
}

#[test]
fn a_typedef_stops_at_the_first_entry_that_is_no_typedef() {
    // typedef const int *p;
    let u = unit(vec![
        die(0, 0, Tag::CompileUnit, vec![]),
        die(0x10, 1, Tag::Typedef, vec![name("p"), ty(0x20)]),
        die(0x20, 0, Tag::PointerType, vec![size(8), ty(0x30)]),
        die(0x30, 0, Tag::ConstType, vec![ty(0x40)]),
        int_die(0x40, 0),
    ]);
    let s = no_tables();
    assert_eq!(find_typedef_target(&u, 1), Ok(Some(2)));
    let mut b = DebugInfoBuilder::new();
    assert_eq!(get_type(&s, &u, 1, &mut b), Ok(Some(0x10)));
    assert_eq!(
        b.requests(),
        &vec![
            int_request(),
            TypeRequest::Const { target: h(0) },
            TypeRequest::Pointer { width: 8, target: h(1) },
            TypeRequest::NamedAlias { name: "p".to_string(), target: h(2) },
        ]
    );
}

#[test]
fn typedefs_without_a_type() {
    let u = unit(vec![
        die(0, 0, Tag::CompileUnit, vec![]),
        die(0x10, 1, Tag::Typedef, vec![name("opaque")]),
        die(0x20, 0, Tag::Typedef, vec![name("alias"), ty(0x10)]),
        die(0x30, 0, Tag::Typedef, vec![ty(0x40)]),
        int_die(0x40, 0),
    ]);
    let s = no_tables();
    let mut b = DebugInfoBuilder::new();
    assert_eq!(get_type(&s, &u, 1, &mut b), Ok(None));
    assert_eq!(find_typedef_target(&u, 2), Ok(None));
    assert_eq!(get_type(&s, &u, 2, &mut b), Ok(None));
    assert_eq!(b.types().len(), 0);
    assert_eq!(b.requests().len(), 0);
    assert_eq!(get_type(&s, &u, 3, &mut b), Err(Error::MalformedTree));
}

#[test]
fn typedefs_in_a_circle_are_malformed() {
    let u = unit(vec![
        die(0, 0, Tag::CompileUnit, vec![]),
        die(0x10, 1, Tag::Typedef, vec![name("a"), ty(0x20)]),
        die(0x20, 0, Tag::Typedef, vec![name("b"), ty(0x10)]),
    ]);
    let s = no_tables();
    let mut b = DebugInfoBuilder::new();
    assert_eq!(find_typedef_target(&u, 1), Err(Error::MalformedTree));
    assert_eq!(get_type(&s, &u, 1, &mut b), Err(Error::MalformedTree));
    assert_eq!(b.types().len(), 0);
}

#[test]
fn pointers_in_a_circle_hit_the_depth_limit() {
    let u = unit(vec![
        die(0, 0, Tag::CompileUnit, vec![]),
        die(0x10, 1, Tag::PointerType, vec![size(8), ty(0x20)]),
        die(0x20, 0, Tag::PointerType, vec![size(8), ty(0x10)]),
    ]);
    let s = no_tables();
    let mut b = DebugInfoBuilder::new();
    assert_eq!(get_type(&s, &u, 1, &mut b), Err(Error::MalformedTree));
    assert_eq!(b.types().len(), 0);
    assert_eq!(b.requests().len(), 0);
}

#[test]
fn the_depth_limit_bounds_the_nesting() {
    let u = unit(vec![
        die(0, 0, Tag::CompileUnit, vec![]),
        die(0x10, 1, Tag::PointerType, vec![size(8), ty(0x20)]),
        die(0x20, 0, Tag::ConstType, vec![ty(0x30)]),
        int_die(0x30, 0),
    ]);
    let s = no_tables();
    for limit in 0..3 {
        let mut b = DebugInfoBuilder::with_depth_limit(limit);
        assert_eq!(get_type(&s, &u, 1, &mut b), Err(Error::MalformedTree));
    }
    for limit in 3..6 {
        let mut b = DebugInfoBuilder::with_depth_limit(limit);
        assert_eq!(get_type(&s, &u, 1, &mut b), Ok(Some(0x10)));
        assert_eq!(b.requests().len(), 3);
    }
}

#[test]
fn base_types_by_encoding() {
    let cases: Vec<(u8, Option<TypeRequest>)> = vec![
        (0x01, None),
        (0x02, Some(TypeRequest::Bool)),
        (0x03, None),
        (0x04, Some(TypeRequest::Float { width: 4, name: "t".to_string() })),
        (0x05, Some(TypeRequest::Integer { width: 4, signed: true, name: "t".to_string() })),
        (0x06, Some(TypeRequest::Integer { width: 4, signed: true, name: "t".to_string() })),
        (0x07, Some(TypeRequest::Integer { width: 4, signed: false, name: "t".to_string() })),
        (0x08, Some(TypeRequest::Integer { width: 4, signed: false, name: "t".to_string() })),
        (0x09, None),
        (0x0a, None),
        (0x0b, None),
        (0x0c, None),
        (0x0d, None),
        (0x0e, None),
        (0x0f, Some(TypeRequest::Float { width: 4, name: "t".to_string() })),
        (0x10, Some(TypeRequest::Integer { width: 4, signed: false, name: "t".to_string() })),
        (0x11, None),
        (0x12, None),
        (0x80, None),
        (0xff, None),
    ];
    let s = no_tables();
    for (code, expected) in cases {
        let u = unit(vec![
            die(0, 0, Tag::CompileUnit, vec![]),
            die(0x10, 1, Tag::BaseType, vec![name("t"), size(4), encoding(code)]),
        ]);
        let mut b = DebugInfoBuilder::new();
        match expected {
            Some(request) => {
                assert_eq!(get_type(&s, &u, 1, &mut b), Ok(Some(0x10)));
                assert_eq!(b.requests(), &vec![request]);
                assert_eq!(b.get_type(0x10).unwrap().name, "t");
            },
            None => {
                assert_eq!(get_type(&s, &u, 1, &mut b), Ok(None));
                assert_eq!(b.requests().len(), 0);
                assert!(!b.contains_type(0x10));
            },
        }
    }
}

#[test]
fn a_base_type_needs_a_name_and_a_size() {
    let s = no_tables();
    let u = unit(vec![
        die(0, 0, Tag::CompileUnit, vec![]),
        die(0x10, 1, Tag::BaseType, vec![name("int"), encoding(0x05)]),
        die(0x20, 0, Tag::BaseType, vec![size(4), encoding(0x05)]),
        die(0x30, 0, Tag::BaseType, vec![name("int"), size(4)]),
        die(
            0x40,
            0,
            Tag::BaseType,
            vec![name("bits"), attr(At::BitSize, AttrValue::Udata(24)), encoding(0x07)],
        ),
    ]);
    let mut b = DebugInfoBuilder::new();
    assert_eq!(get_type(&s, &u, 1, &mut b), Err(Error::MalformedTree));
    assert_eq!(get_type(&s, &u, 2, &mut b), Err(Error::MalformedTree));
    assert_eq!(get_type(&s, &u, 3, &mut b), Ok(None));
    assert_eq!(b.types().len(), 0);
    assert_eq!(get_type(&s, &u, 4, &mut b), Ok(Some(0x40)));
    assert_eq!(
        b.requests(),
        &vec![TypeRequest::Integer { width: 3, signed: false, name: "bits".to_string() }]
    );
}

#[test]
fn pointers_with_and_without_a_pointee() {
    let s = no_tables();
    let u = unit(vec![
        die(0, 0, Tag::CompileUnit, vec![]),
        die(0x10, 1, Tag::PointerType, vec![size(8)]),
        die(0x20, 0, Tag::PointerType, vec![size(4), ty(0x40)]),
        die(0x30, 0, Tag::PointerType, vec![ty(0x40)]),
        int_die(0x40, 0),
        die(0x50, 0, Tag::PointerType, vec![size(8), ty(0x60)]),
        die(
            0x60,
            0,
            Tag::StructureType,
            vec![name("fwd"), attr(At::Declaration, AttrValue::Flag(true))],
        ),
    ]);
    let mut b = DebugInfoBuilder::new();
    assert_eq!(get_type(&s, &u, 1, &mut b), Ok(Some(0x10)));
    assert_eq!(
        b.requests(),
        &vec![TypeRequest::Void, TypeRequest::Pointer { width: 8, target: h(0) }]
    );
    assert_eq!(b.handle_of(0x10), Some(h(1)));
    assert_eq!(get_type(&s, &u, 2, &mut b), Ok(Some(0x20)));
    assert_eq!(b.requests()[2], int_request());
    assert_eq!(b.requests()[3], TypeRequest::Pointer { width: 4, target: h(2) });
    assert_eq!(get_type(&s, &u, 3, &mut b), Ok(None));
    assert!(!b.contains_type(0x30));
    assert_eq!(b.requests().len(), 4);
    assert_eq!(get_type(&s, &u, 5, &mut b), Ok(Some(0x50)));
    assert_eq!(b.requests()[4], TypeRequest::Void);
    assert_eq!(b.requests()[5], TypeRequest::Pointer { width: 8, target: h(4) });
    assert!(!b.contains_type(0x60));
}

#[test]
fn const_array_and_unspecified_types() {
    let s = no_tables();
    let u = unit(vec![
        die(0, 0, Tag::CompileUnit, vec![]),
        die(0x10, 1, Tag::ConstType, vec![ty(0x50)]),
        die(0x20, 0, Tag::ConstType, vec![]),
        die(0x30, 0, Tag::ArrayType, vec![ty(0x50)]),
        die(0x40, 0, Tag::ArrayType, vec![]),
        int_die(0x50, 0),
        die(0x60, 0, Tag::UnspecifiedType, vec![name("decltype(nullptr)")]),
        die(0x70, 0, Tag::Other(0x10), vec![ty(0x50)]),
    ]);
    let mut b = DebugInfoBuilder::new();
    assert_eq!(get_type(&s, &u, 1, &mut b), Ok(Some(0x10)));
    assert_eq!(b.requests(), &vec![int_request(), TypeRequest::Const { target: h(0) }]);
    assert_eq!(get_type(&s, &u, 2, &mut b), Ok(Some(0x20)));
    assert_eq!(b.requests()[2], TypeRequest::Void);
    assert_eq!(b.requests()[3], TypeRequest::Const { target: h(2) });
    assert_eq!(get_type(&s, &u, 3, &mut b), Ok(Some(0x30)));
    assert_eq!(b.requests()[4], TypeRequest::Array { element: h(0), count: 0 });
    assert_eq!(get_type(&s, &u, 4, &mut b), Ok(None));
    assert_eq!(get_type(&s, &u, 6, &mut b), Ok(Some(0x60)));
    assert_eq!(b.requests()[5], TypeRequest::Void);
    assert_eq!(b.get_type(0x60).unwrap().name, "decltype(nullptr)");
    assert_eq!(get_type(&s, &u, 7, &mut b), Ok(None));
    assert!(!b.contains_type(0x70));
    assert_eq!(b.requests().len(), 6);
}

#[test]
fn enumerations_skip_children_without_name_or_value() {
    let s = no_tables();
    let value = |v: i64| attr(At::ConstValue, AttrValue::Sdata(v));
    let u = unit(vec![
        die(0, 0, Tag::CompileUnit, vec![]),
        die(0x10, 1, Tag::EnumerationType, vec![name("color"), size(4)]),
        die(0x14, 1, Tag::Enumerator, vec![name("red"), value(0)]),
        die(0x18, 0, Tag::Enumerator, vec![value(1)]),
        die(0x1c, 0, Tag::Enumerator, vec![name("green")]),
        die(0x20, 0, Tag::Enumerator, vec![name("blue"), value(2)]),
        die(0x24, 0, Tag::Member, vec![name("stray"), value(3)]),
        die(0x28, 0, Tag::Enumerator, vec![name("minus"), value(-1)]),
        die(0x30, -1, Tag::EnumerationType, vec![name("unsized")]),
    ]);
    let mut b = DebugInfoBuilder::new();
    assert_eq!(get_type(&s, &u, 1, &mut b), Ok(Some(0x10)));
    assert_eq!(
        b.requests(),
        &vec![TypeRequest::Enumeration {
            width: 4,
            members: vec![
                Enumerator { name: "red".to_string(), value: 0 },
                Enumerator { name: "blue".to_string(), value: 2 },
                Enumerator { name: "minus".to_string(), value: u64::MAX },
            ],
        }]
    );
    assert_eq!(b.get_type(0x10).unwrap().name, "color");
    assert_eq!(get_type(&s, &u, 8, &mut b), Ok(Some(0x30)));
    assert_eq!(b.requests()[1], TypeRequest::Enumeration { width: 8, members: vec![] });
}

#[test]
fn a_union_member_without_an_offset_is_appended() {
    let s = no_tables();
    let u = unit(vec![
        die(0, 0, Tag::CompileUnit, vec![]),
        die(0x10, 1, Tag::UnionType, vec![name("u"), size(4)]),
        die(0x14, 1, Tag::Member, vec![name("i"), ty(0x40)]),
        die(0x18, 0, Tag::Member, vec![name("j"), ty(0x40), at_offset(0)]),
        die(0x1c, 0, Tag::Member, vec![ty(0x40)]),
        die(0x20, -1, Tag::StructureType, vec![name("s"), size(4)]),
        die(0x24, 1, Tag::Member, vec![name("i"), ty(0x40)]),
        die(0x28, 0, Tag::Member, vec![name("j"), ty(0x40), at_offset(0)]),
        int_die(0x40, -1),
    ]);
    let mut b = DebugInfoBuilder::new();
    assert_eq!(get_type(&s, &u, 1, &mut b), Ok(Some(0x10)));
    assert_eq!(
        b.requests(),
        &vec![
            TypeRequest::NamedReference { name: "u".to_string() },
            int_request(),
            TypeRequest::Structure {
                kind: StructureKind::Union,
                width: 4,
                members: vec![
                    Member { ty: h(1), name: "i".to_string(), offset: None },
                    Member { ty: h(1), name: "j".to_string(), offset: Some(0) },
                ],
            },
        ]
    );
    assert_eq!(get_type(&s, &u, 5, &mut b), Ok(Some(0x20)));
    assert_eq!(
        b.requests()[4],
        TypeRequest::Structure {
            kind: StructureKind::Struct,
            width: 4,
            members: vec![Member { ty: h(1), name: "j".to_string(), offset: Some(0) }],
        }
    );
}

#[test]
fn members_whose_offset_is_no_number_have_none() {
    let s = no_tables();
    let u = unit(vec![
        die(0, 0, Tag::CompileUnit, vec![]),
        die(0x10, 1, Tag::UnionType, vec![name("u")]),
        die(
            0x14,
            1,
            Tag::Member,
            vec![name("i"), ty(0x40), attr(At::DataMemberLocation, AttrValue::Other)],
        ),
        die(0x20, -1, Tag::ClassType, vec![name("c")]),
        die(
            0x24,
            1,
            Tag::Member,
            vec![name("i"), ty(0x40), attr(At::DataMemberLocation, AttrValue::Other)],
        ),
        int_die(0x40, -1),
    ]);
    let mut b = DebugInfoBuilder::new();
    assert_eq!(get_type(&s, &u, 1, &mut b), Ok(Some(0x10)));
    assert_eq!(
        b.requests()[2],
        TypeRequest::Structure {
            kind: StructureKind::Union,
            width: 0,
            members: vec![Member { ty: h(1), name: "i".to_string(), offset: None }],
        }
    );
    assert_eq!(get_type(&s, &u, 3, &mut b), Ok(Some(0x20)));
    assert_eq!(
        b.requests()[4],
        TypeRequest::Structure { kind: StructureKind::Class, width: 0, members: vec![] }
    );
}

#[test]
fn forward_declarations_and_unnamed_structures_do_not_resolve() {
    let s = no_tables();
    let u = unit(vec![
        die(0, 0, Tag::CompileUnit, vec![]),
        die(
            0x10,
            1,
            Tag::StructureType,
            vec![name("fwd"), attr(At::Declaration, AttrValue::Flag(true))],
        ),
        die(0x20, 0, Tag::StructureType, vec![size(4)]),
        die(0x24, 1, Tag::Member, vec![name("x"), ty(0x40), at_offset(0)]),
        die(0x30, -1, Tag::Typedef, vec![name("fwd_t"), ty(0x10)]),
        int_die(0x40, 0),
    ]);
    let mut b = DebugInfoBuilder::new();
    assert_eq!(get_type(&s, &u, 1, &mut b), Ok(None));
    assert_eq!(get_type(&s, &u, 2, &mut b), Ok(None));
    assert_eq!(get_type(&s, &u, 4, &mut b), Ok(None));
    assert_eq!(b.types().len(), 0);
    assert_eq!(b.requests().len(), 0);
    assert_eq!(get_type(&s, &u, 1, &mut b), Ok(None));
}

#[test]
fn nested_types_are_resolved_but_are_no_members() {
    let s = no_tables();
    let u = unit(vec![
        die(0, 0, Tag::CompileUnit, vec![]),
        die(0x10, 1, Tag::StructureType, vec![name("outer"), size(4)]),
        die(0x14, 1, Tag::StructureType, vec![name("inner"), size(4)]),
        die(0x18, 1, Tag::Member, vec![name("x"), ty(0x40), at_offset(0)]),
        die(0x20, -1, Tag::Member, vec![name("in"), ty(0x14), at_offset(0)]),
        die(0x28, 0, Tag::Member, vec![name("untyped")]),
        die(0x2c, 0, Tag::Member, vec![name("unsupported"), ty(0x50), at_offset(4)]),
        int_die(0x40, -1),
        die(0x50, 0, Tag::Other(0x10), vec![ty(0x40)]),
    ]);
    let mut b = DebugInfoBuilder::new();
    assert_eq!(get_type(&s, &u, 1, &mut b), Ok(Some(0x10)));
    assert_eq!(
        b.requests(),
        &vec![
            TypeRequest::NamedReference { name: "outer".to_string() },
            TypeRequest::NamedReference { name: "inner".to_string() },
            int_request(),
            TypeRequest::Structure {
                kind: StructureKind::Struct,
                width: 4,
                members: vec![Member { ty: h(2), name: "x".to_string(), offset: Some(0) }],
            },
            TypeRequest::Structure {
                kind: StructureKind::Struct,
                width: 4,
                members: vec![Member { ty: h(3), name: "in".to_string(), offset: Some(0) }],
            },
        ]
    );
    assert_eq!(b.handle_of(0x14), Some(h(3)));
    assert_eq!(b.handle_of(0x10), Some(h(4)));
    assert!(!b.contains_type(0x50));
}

#[test]
fn function_types() {
    let s = no_tables();
    let u = unit(vec![
        die(0, 0, Tag::CompileUnit, vec![]),
        die(0x10, 1, Tag::SubroutineType, vec![ty(0x40)]),
        die(0x14, 1, Tag::FormalParameter, vec![name("a"), ty(0x40)]),
        die(0x18, 0, Tag::FormalParameter, vec![ty(0x40)]),
        die(0x1c, 0, Tag::FormalParameter, vec![name("c")]),
        die(0x20, 0, Tag::FormalParameter, vec![name("d"), ty(0x48)]),
        die(0x24, 0, Tag::UnspecifiedParameters, vec![]),
        die(0x30, -1, Tag::SubroutineType, vec![]),
        int_die(0x40, 0),
        die(0x48, 0, Tag::PointerType, vec![size(8)]),
    ]);
    let mut b = DebugInfoBuilder::new();
    assert_eq!(get_type(&s, &u, 1, &mut b), Ok(Some(0x10)));
    assert_eq!(
        b.requests(),
        &vec![
            int_request(),
            TypeRequest::Void,
            TypeRequest::Pointer { width: 8, target: h(1) },
            TypeRequest::Function {
                return_type: h(0),
                parameters: vec![
                    Parameter { ty: h(0), name: "a".to_string() },
                    Parameter { ty: h(2), name: "d".to_string() },
                ],
                variadic: true,
            },
        ]
    );
    assert_eq!(b.handle_of(0x14), Some(h(0)));
    assert_eq!(b.get_type(0x14).unwrap().name, "a");
    assert_eq!(b.handle_of(0x18), Some(h(0)));
    assert!(!b.contains_type(0x1c));
    assert_eq!(b.handle_of(0x20), Some(h(2)));
    assert_eq!(get_type(&s, &u, 7, &mut b), Ok(Some(0x30)));
    assert_eq!(b.requests()[4], TypeRequest::Void);
    assert_eq!(
        b.requests()[5],
        TypeRequest::Function { return_type: h(4), parameters: vec![], variadic: false }
    );
}

#[test]
fn a_function_type_that_takes_a_structure_that_holds_it() {
    // struct ops; typedef int (*fn)(struct ops *); struct ops { fn call; };
    let s = no_tables();
    let u = unit(vec![
        die(0, 0, Tag::CompileUnit, vec![]),
        die(0x10, 1, Tag::SubroutineType, vec![ty(0x60)]),
        die(0x14, 1, Tag::FormalParameter, vec![name("self"), ty(0x20)]),
        die(0x20, -1, Tag::PointerType, vec![size(8), ty(0x30)]),
        die(0x30, 0, Tag::StructureType, vec![name("ops"), size(8)]),
        die(0x34, 1, Tag::Member, vec![name("call"), ty(0x40), at_offset(0)]),
        die(0x40, -1, Tag::Typedef, vec![name("fn"), ty(0x50)]),
        die(0x50, 0, Tag::PointerType, vec![size(8), ty(0x10)]),
        int_die(0x60, 0),
    ]);
    let mut b = DebugInfoBuilder::new();
    assert_eq!(get_type(&s, &u, 1, &mut b), Ok(Some(0x10)));
    for key in [0x10, 0x14, 0x20, 0x30, 0x40, 0x50, 0x60] {
        assert!(b.contains_type(key), "{:#x}", key);
    }
    assert_eq!(b.types().len(), 7);
    let mut keys: Vec<usize> = b.types().iter().map(|t| t.key).collect();
    keys.sort();
    keys.dedup();
    assert_eq!(keys.len(), 7);
    let before = b.requests().len();
    assert_eq!(get_type(&s, &u, 4, &mut b), Ok(Some(0x30)));
    assert_eq!(b.requests().len(), before);
}

#[test]
fn parameters_and_subprograms_pass_their_type_through() {
    let s = no_tables();
    let u = unit(vec![
        die(0, 0, Tag::CompileUnit, vec![]),
        die(0x10, 1, Tag::Subprogram, vec![name("f"), ty(0x40)]),
        die(0x14, 1, Tag::FormalParameter, vec![name("x"), ty(0x40)]),
        die(0x20, -1, Tag::Subprogram, vec![name("g")]),
        int_die(0x40, 0),
    ]);
    let mut b = DebugInfoBuilder::new();
    assert_eq!(get_type(&s, &u, 1, &mut b), Ok(Some(0x10)));
    assert_eq!(b.requests(), &vec![int_request()]);
    assert_eq!(b.handle_of(0x10), Some(h(0)));
    assert_eq!(b.get_type(0x10).unwrap().name, "f");
    assert_eq!(get_type(&s, &u, 2, &mut b), Ok(Some(0x14)));
    assert_eq!(b.handle_of(0x14), Some(h(0)));
    assert_eq!(b.requests().len(), 1);
    assert_eq!(get_type(&s, &u, 3, &mut b), Ok(None));
    assert!(!b.contains_type(0x20));
}

#[test]
fn references_to_no_entry_are_malformed() {
    let s = no_tables();
    let u = unit(vec![
        die(0, 0, Tag::CompileUnit, vec![]),
        die(0x10, 1, Tag::PointerType, vec![size(8), ty(0x11)]),
        die(0x20, 0, Tag::StructureType, vec![name("s")]),
        die(0x24, 1, Tag::Member, vec![name("m"), ty(0x99), at_offset(0)]),
        die(0x30, -1, Tag::Typedef, vec![name("t"), ty(0x31)]),
    ]);
    let mut b = DebugInfoBuilder::new();
    assert_eq!(find_parent_entry(&u, 1), Err(Error::MalformedTree));
    assert_eq!(get_type(&s, &u, 1, &mut b), Err(Error::MalformedTree));
    assert_eq!(get_type(&s, &u, 2, &mut b), Err(Error::MalformedTree));
    assert_eq!(get_type(&s, &u, 4, &mut b), Err(Error::MalformedTree));
}

#[test]
fn a_reference_in_another_form_is_no_type_reference() {
    let s = no_tables();
    let u = unit(vec![
        die(0, 0, Tag::CompileUnit, vec![]),
        die(0x10, 1, Tag::PointerType, vec![size(8), attr(At::Type, AttrValue::Udata(0x20))]),
        int_die(0x20, 0),
    ]);
    let mut b = DebugInfoBuilder::new();
    assert_eq!(find_parent_entry(&u, 1), Ok(None));
    assert_eq!(get_type(&s, &u, 1, &mut b), Ok(Some(0x10)));
    assert_eq!(
        b.requests(),
        &vec![TypeRequest::Void, TypeRequest::Pointer { width: 8, target: h(0) }]
    );
}

#[test]
fn names_in_the_string_table() {
    let s = Sections {
        debug_str: Cursor::new(b"\0int\0node\0".to_vec(), Endian::Little),
        debug_addr: Cursor::new(vec![], Endian::Little),
    };
    let u = unit(vec![
        die(0, 0, Tag::CompileUnit, vec![]),
        die(
            0x10,
            1,
            Tag::BaseType,
            vec![attr(At::Name, AttrValue::StrRef(1)), size(4), encoding(0x05)],
        ),
        die(0x20, 0, Tag::StructureType, vec![attr(At::Name, AttrValue::StrRef(5)), size(0)]),
    ]);
    let mut b = DebugInfoBuilder::new();
    assert_eq!(get_type(&s, &u, 1, &mut b), Ok(Some(0x10)));
    assert_eq!(b.requests(), &vec![int_request()]);
    assert_eq!(get_type(&s, &u, 2, &mut b), Ok(Some(0x20)));
    assert_eq!(b.get_type(0x20).unwrap().name, "node");
}

#[test]
fn unsupported_encodings_have_their_own_error() {
    assert_eq!(base_type_request(0x01, 8, "addr".to_string()), Err(Error::UnsupportedEncoding));
    assert_eq!(base_type_request(0x03, 8, "c".to_string()), Err(Error::UnsupportedEncoding));
    assert_eq!(base_type_request(0x0d, 8, "fx".to_string()), Err(Error::UnsupportedEncoding));
    assert_eq!(base_type_request(0x02, 1, "bool".to_string()), Ok(TypeRequest::Bool));
    assert_eq!(
        base_type_request(0x0f, 16, "_Decimal128".to_string()),
        Ok(TypeRequest::Float { width: 16, name: "_Decimal128".to_string() })
    );
    let numeric = die(0, 0, Tag::Member, vec![at_offset(12)]);
    assert_eq!(get_member_location(&numeric), Ok(Some(12)));
    let none = die(0, 0, Tag::Member, vec![name("m")]);
    assert_eq!(get_member_location(&none), Ok(None));
    let expression =
        die(0, 0, Tag::Member, vec![attr(At::DataMemberLocation, AttrValue::Other)]);
    assert_eq!(get_member_location(&expression), Err(Error::UnsupportedEncoding));
}
