use dwarf_import::attrs::Sections;
use dwarf_import::builder::DebugInfoBuilder;
use dwarf_import::cursor::{Cursor, Endian};
use dwarf_import::die::{At, AttrValue, Attribute, Die, Tag, Unit};
use dwarf_import::error::Error;
use dwarf_import::namespace::NamespaceStack;
use dwarf_import::types::{TypeHandle, TypeRequest};
use dwarf_import::walker::{get_parameters, parse_function_entry, parse_unit};

fn attr(at: At, value: AttrValue) -> Attribute {
    Attribute { at, value }
}

fn name(text: &str) -> Attribute {
    attr(At::Name, AttrValue::String(text.as_bytes().to_vec()))
}

fn ty(offset: usize) -> Attribute {
    attr(At::Type, AttrValue::UnitRef(offset))
}

fn die(offset: usize, delta_depth: isize, tag: Tag, attrs: Vec<Attribute>) -> Die {
    Die { offset, delta_depth, tag, attrs }
}

fn int_die(offset: usize, delta_depth: isize) -> Die {
    die(
        offset,
        delta_depth,
        Tag::BaseType,
        vec![
            name("int"),
            attr(At::ByteSize, AttrValue::Udata(4)),
            attr(At::Encoding, AttrValue::Encoding(0x05)),
        ],
    )
}

fn unit(dies: Vec<Die>) -> Unit {
    Unit::new(dies, 8, 0).unwrap()
}

fn no_tables() -> Sections {
    Sections {
        debug_str: Cursor::new(vec![], Endian::Little),
        debug_addr: Cursor::new(vec![], Endian::Little),
    }
}

fn s(text: &str) -> Option<String> {
    Some(text.to_string())
}

#[test]
fn qualified_names_follow_the_nesting() {
    // unit
    //   namespace a
    //     struct b
    //       function c
    //     function d
    //   function e
    let u = unit(vec![
        die(0, 0, Tag::CompileUnit, vec![name("unit.c")]),
        die(0x10, 1, Tag::Namespace, vec![name("a")]),
        die(0x20, 1, Tag::StructureType, vec![name("b")]),
        die(0x30, 1, Tag::Subprogram, vec![name("c")]),
        die(0x40, -1, Tag::Subprogram, vec![name("d")]),
        die(0x50, -1, Tag::Subprogram, vec![name("e")]),
    ]);
    let mut b = DebugInfoBuilder::new();
    assert_eq!(parse_unit(&no_tables(), &u, &mut b), Ok(()));
    let names: Vec<(usize, Option<String>, Option<String>)> = b
        .functions()
        .iter()
        .map(|f| (f.key, f.info.short_name.clone(), f.info.full_name.clone()))
        .collect();
    assert_eq!(
        names,
        vec![
            (0x30, s("c"), s("a::b::c")),
            (0x40, s("d"), s("a::d")),
            (0x50, s("e"), s("e")),
        ]
    );
}

#[test]
fn classes_qualify_and_unnamed_scopes_do_not() {
    let u = unit(vec![
        die(0, 0, Tag::CompileUnit, vec![]),
        die(0x10, 1, Tag::ClassType, vec![name("k")]),
        die(0x20, 1, Tag::Namespace, vec![]),
        die(0x30, 1, Tag::Subprogram, vec![name("m")]),
        die(0x40, -2, Tag::UnionType, vec![name("u")]),
        die(0x50, 1, Tag::Subprogram, vec![name("n")]),
        die(0x60, 0, Tag::Subprogram, vec![]),
    ]);
    let mut b = DebugInfoBuilder::new();
    assert_eq!(parse_unit(&no_tables(), &u, &mut b), Ok(()));
    assert_eq!(b.functions().len(), 3);
    assert_eq!(b.functions()[0].info.full_name, s("k::m"));
    assert_eq!(b.functions()[1].info.full_name, s("n"));
    assert_eq!(b.functions()[2].key, 0x60);
    assert_eq!(b.functions()[2].info.short_name, None);
    assert_eq!(b.functions()[2].info.full_name, None);
}

#[test]
fn declaration_and_definition_become_one_function() {
    let u = unit(vec![
        die(0, 0, Tag::CompileUnit, vec![]),
        die(0x10, 1, Tag::Namespace, vec![name("ns")]),
        die(
            0x20,
            1,
            Tag::Subprogram,
            vec![
                name("f"),
                attr(At::LinkageName, AttrValue::String(b"_ZN2ns1fEi".to_vec())),
                ty(0x80),
                attr(At::Declaration, AttrValue::Flag(true)),
            ],
        ),
        die(0x28, 1, Tag::FormalParameter, vec![name("x"), ty(0x80)]),
        die(
            0x40,
            -2,
            Tag::Subprogram,
            vec![
                attr(At::Specification, AttrValue::UnitRef(0x20)),
                attr(At::LowPc, AttrValue::Addr(0x401000)),
            ],
        ),
        int_die(0x80, 0),
    ]);
    let mut b = DebugInfoBuilder::new();
    assert_eq!(parse_unit(&no_tables(), &u, &mut b), Ok(()));
    assert_eq!(b.functions().len(), 1);
    let f = &b.functions()[0];
    assert_eq!(f.key, 0x20);
    assert_eq!(f.info.short_name, s("f"));
    assert_eq!(f.info.raw_name, s("_ZN2ns1fEi"));
    assert_eq!(f.info.return_type, Some(0x20));
    assert_eq!(f.info.address, Some(0x401000));
    assert_eq!(f.info.parameters, vec![("x".to_string(), 0x28)]);
    // The definition stands outside the namespace and inherits the name:
    // the later qualified name is the one that stays.
    assert_eq!(f.info.full_name, s("f"));
    assert_eq!(b.handle_of(0x20), Some(TypeHandle { index: 0 }));
    assert_eq!(b.handle_of(0x28), Some(TypeHandle { index: 0 }));
    assert_eq!(
        b.requests(),
        &vec![TypeRequest::Integer { width: 4, signed: true, name: "int".to_string() }]
    );
}

#[test]
fn a_definition_that_comes_first_keeps_its_address() {
    let u = unit(vec![
        die(0, 0, Tag::CompileUnit, vec![]),
        die(
            0x10,
            1,
            Tag::Subprogram,
            vec![
                attr(At::AbstractOrigin, AttrValue::UnitRef(0x20)),
                attr(At::EntryPc, AttrValue::Addr(0x2000)),
            ],
        ),
        die(0x20, 0, Tag::Subprogram, vec![name("inlined"), ty(0x80)]),
        int_die(0x80, 0),
    ]);
    let mut b = DebugInfoBuilder::new();
    assert_eq!(parse_unit(&no_tables(), &u, &mut b), Ok(()));
    assert_eq!(b.functions().len(), 1);
    let f = &b.functions()[0];
    assert_eq!(f.key, 0x20);
    assert_eq!(f.info.short_name, s("inlined"));
    assert_eq!(f.info.address, Some(0x2000));
    assert_eq!(f.info.return_type, Some(0x20));
}

#[test]
fn a_negative_depth_ends_the_walk() {
    let u = unit(vec![
        die(0, 0, Tag::CompileUnit, vec![]),
        die(0x10, 1, Tag::Subprogram, vec![name("before")]),
        die(0x20, -2, Tag::Subprogram, vec![name("below")]),
        die(0x30, 3, Tag::Subprogram, vec![name("after")]),
    ]);
    let mut b = DebugInfoBuilder::new();
    assert_eq!(parse_unit(&no_tables(), &u, &mut b), Err(Error::MalformedTree));
    assert_eq!(b.functions().len(), 1);
    assert_eq!(b.functions()[0].info.short_name, s("before"));
}

#[test]
fn a_depth_of_zero_is_no_error() {
    let u = unit(vec![
        die(0, 0, Tag::CompileUnit, vec![]),
        die(0x10, 0, Tag::Subprogram, vec![name("sibling")]),
        die(0x20, isize::MAX, Tag::Subprogram, vec![name("deep")]),
        die(0x30, isize::MAX, Tag::Subprogram, vec![name("deeper")]),
        die(0x40, isize::MIN, Tag::Subprogram, vec![name("back")]),
    ]);
    let mut b = DebugInfoBuilder::new();
    assert_eq!(parse_unit(&no_tables(), &u, &mut b), Ok(()));
    assert_eq!(b.functions().len(), 4);
}

#[test]
fn an_empty_unit_and_a_lone_header() {
    let mut b = DebugInfoBuilder::new();
    assert_eq!(parse_unit(&no_tables(), &unit(vec![]), &mut b), Ok(()));
    let lone = unit(vec![die(0, -5, Tag::Subprogram, vec![name("header")])]);
    assert_eq!(parse_unit(&no_tables(), &lone, &mut b), Ok(()));
    assert_eq!(b.functions().len(), 0);
    assert_eq!(b.types().len(), 0);
}

#[test]
fn an_unresolvable_function_ends_the_walk() {
    let u = unit(vec![
        die(0, 0, Tag::CompileUnit, vec![]),
        die(
            0x10,
            1,
            Tag::Subprogram,
            vec![name("f"), attr(At::Specification, AttrValue::UnitRef(0x99))],
        ),
    ]);
    let mut b = DebugInfoBuilder::new();
    assert_eq!(parse_unit(&no_tables(), &u, &mut b), Err(Error::MalformedTree));
    assert_eq!(b.functions().len(), 0);
}

#[test]
fn parameters_need_a_name_and_a_type() {
    let u = unit(vec![
        die(0, 0, Tag::CompileUnit, vec![]),
        die(0x10, 1, Tag::Subprogram, vec![name("f")]),
        die(0x14, 1, Tag::FormalParameter, vec![name("a"), ty(0x80)]),
        die(0x18, 0, Tag::FormalParameter, vec![ty(0x80)]),
        die(0x1c, 0, Tag::FormalParameter, vec![name("c")]),
        die(0x20, 0, Tag::UnspecifiedParameters, vec![]),
        die(0x24, 0, Tag::Other(0x34), vec![name("local"), ty(0x80)]),
        die(0x28, 0, Tag::FormalParameter, vec![name("e"), ty(0x80)]),
        int_die(0x80, -1),
    ]);
    let mut b = DebugInfoBuilder::new();
    let list = get_parameters(&no_tables(), &u, 1, &mut b);
    assert_eq!(list, Ok(vec![("a".to_string(), 0x14), ("e".to_string(), 0x28)]));
    assert!(b.contains_type(0x18));
    assert!(!b.contains_type(0x1c));
    assert!(!b.contains_type(0x24));
    assert_eq!(get_parameters(&no_tables(), &u, 8, &mut b), Ok(vec![]));
}

#[test]
fn a_function_entry_outside_a_walk() {
    let u = unit(vec![
        die(0, 0, Tag::CompileUnit, vec![]),
        die(0x10, 1, Tag::Subprogram, vec![name("f"), ty(0x80)]),
        int_die(0x80, 0),
    ]);
    let mut stack = NamespaceStack::new();
    stack.push(1, "outer".to_string());
    stack.push(2, "inner".to_string());
    let mut b = DebugInfoBuilder::new();
    assert_eq!(parse_function_entry(&no_tables(), &u, 1, &stack, &mut b), Ok(()));
    assert_eq!(b.functions().len(), 1);
    assert_eq!(b.functions()[0].key, 0x10);
    assert_eq!(b.functions()[0].info.full_name, s("outer::inner::f"));
    assert_eq!(b.functions()[0].info.return_type, Some(0x10));
    assert_eq!(b.functions()[0].info.raw_name, None);
    assert_eq!(b.functions()[0].info.address, None);
}
