use dwarf_import::builder::{DebugInfoBuilder, FunctionInfoBuilder, DEFAULT_DEPTH_LIMIT};
use dwarf_import::namespace::{recover_full_name, NamespaceStack};
use dwarf_import::types::{member_at, Member, TypeHandle, TypeRequest};

fn record() -> FunctionInfoBuilder {
    FunctionInfoBuilder {
        short_name: None,
        full_name: None,
        raw_name: None,
        return_type: None,
        address: None,
        parameters: vec![],
    }
}

fn s(text: &str) -> Option<String> {
    Some(text.to_string())
}

#[test]
fn update_takes_what_is_set_and_keeps_the_rest() {
    let mut f = record();
    f.update(s("f"), s("ns::f"), None, Some(7), None, Some(vec![("x".to_string(), 3)]));
    assert_eq!(f.short_name, s("f"));
    assert_eq!(f.full_name, s("ns::f"));
    assert_eq!(f.raw_name, None);
    assert_eq!(f.return_type, Some(7));
    assert_eq!(f.address, None);
    assert_eq!(f.parameters, vec![("x".to_string(), 3)]);
    f.update(None, None, s("_Z1f"), None, Some(0x1000), None);
    assert_eq!(f.short_name, s("f"));
    assert_eq!(f.full_name, s("ns::f"));
    assert_eq!(f.raw_name, s("_Z1f"));
    assert_eq!(f.return_type, Some(7));
    assert_eq!(f.address, Some(0x1000));
    assert_eq!(f.parameters, vec![("x".to_string(), 3)]);
}

#[test]
fn update_lets_the_later_value_win() {
    let mut f = record();
    f.update(s("a"), None, None, Some(1), Some(10), Some(vec![("x".to_string(), 3)]));
    f.update(s("b"), None, None, Some(2), Some(20), Some(vec![("y".to_string(), 4)]));
    assert_eq!(f.short_name, s("b"));
    assert_eq!(f.return_type, Some(2));
    assert_eq!(f.address, Some(20));
    assert_eq!(f.parameters, vec![("y".to_string(), 4)]);
}

#[test]
fn an_empty_parameter_list_clears_nothing() {
    let mut f = record();
    f.update(None, None, None, None, None, Some(vec![("x".to_string(), 3)]));
    f.update(None, None, None, None, None, Some(vec![]));
    assert_eq!(f.parameters, vec![("x".to_string(), 3)]);
    f.update(None, None, None, None, None, None);
    assert_eq!(f.parameters, vec![("x".to_string(), 3)]);
}

#[test]
fn declaration_and_definition_merge_into_one_record() {
    let mut b = DebugInfoBuilder::new();
    b.insert_function(
        0x40,
        s("f"),
        s("ns::f"),
        s("_ZN2ns1fEi"),
        Some(0x40),
        None,
        Some(vec![("x".to_string(), 0x50)]),
    );
    b.insert_function(0x40, None, None, None, None, Some(0x401000), Some(vec![]));
    assert_eq!(b.functions().len(), 1);
    let f = &b.functions()[0];
    assert_eq!(f.key, 0x40);
    assert_eq!(f.info.short_name, s("f"));
    assert_eq!(f.info.full_name, s("ns::f"));
    assert_eq!(f.info.raw_name, s("_ZN2ns1fEi"));
    assert_eq!(f.info.return_type, Some(0x40));
    assert_eq!(f.info.address, Some(0x401000));
    assert_eq!(f.info.parameters, vec![("x".to_string(), 0x50)]);
}

#[test]
fn definition_before_declaration_merges_too() {
    let mut b = DebugInfoBuilder::new();
    b.insert_function(0x40, None, None, None, None, Some(0x401000), None);
    b.insert_function(0x40, s("f"), None, None, Some(9), None, Some(vec![("x".to_string(), 1)]));
    b.insert_function(0x80, s("g"), None, None, None, None, None);
    assert_eq!(b.functions().len(), 2);
    assert_eq!(b.functions()[0].key, 0x40);
    assert_eq!(b.functions()[0].info.short_name, s("f"));
    assert_eq!(b.functions()[0].info.address, Some(0x401000));
    assert_eq!(b.functions()[0].info.return_type, Some(9));
    assert_eq!(b.functions()[0].info.parameters, vec![("x".to_string(), 1)]);
    assert_eq!(b.functions()[1].key, 0x80);
    assert_eq!(b.functions()[1].info.short_name, s("g"));
    assert_eq!(b.functions()[1].info.parameters, vec![]);
}

#[test]
fn types_are_registered_once_per_key() {
    let mut b = DebugInfoBuilder::new();
    assert_eq!(b.depth_limit(), DEFAULT_DEPTH_LIMIT);
    assert!(!b.contains_type(4));
    assert_eq!(b.get_type(4), None);
    let h = b.create(TypeRequest::Void);
    assert_eq!(h, TypeHandle { index: 0 });
    b.add_type(4, "void".to_string(), h);
    let g = b.create(TypeRequest::Const { target: h });
    assert_eq!(g, TypeHandle { index: 1 });
    b.add_type(8, String::new(), g);
    assert!(b.contains_type(4));
    assert!(b.contains_type(8));
    assert!(!b.contains_type(5));
    assert_eq!(b.get_type(4).unwrap().name, "void");
    assert_eq!(b.get_type(4).unwrap().handle, h);
    assert_eq!(b.handle_of(8), Some(g));
    assert_eq!(b.handle_of(9), None);
    assert_eq!(b.types().len(), 2);
    assert_eq!(b.requests(), &vec![TypeRequest::Void, TypeRequest::Const { target: h }]);
    b.remove_type(4);
    assert!(!b.contains_type(4));
    assert!(b.contains_type(8));
    assert_eq!(b.handle_of(8), Some(g));
    b.remove_type(4);
    assert_eq!(b.types().len(), 1);
    assert_eq!(b.requests().len(), 2);
}

#[test]
fn depth_limit_can_be_chosen() {
    let b = DebugInfoBuilder::with_depth_limit(3);
    assert_eq!(b.depth_limit(), 3);
    assert_eq!(b.types().len(), 0);
    assert_eq!(b.functions().len(), 0);
    assert_eq!(b.requests().len(), 0);
}

#[test]
fn the_first_member_at_an_offset_wins() {
    let m = |index: usize, name: &str, offset: Option<u64>| Member {
        ty: TypeHandle { index },
        name: name.to_string(),
        offset,
    };
    let members =
        vec![m(0, "a", Some(0)), m(1, "b", Some(8)), m(2, "c", Some(8)), m(3, "d", None)];
    assert_eq!(member_at(&members, 0), Some(0));
    assert_eq!(member_at(&members, 8), Some(1));
    assert_eq!(member_at(&members, 4), None);
    assert_eq!(member_at(&vec![], 0), None);
}

#[test]
fn pruning_drops_scopes_at_the_depth_or_deeper() {
    let mut stack = NamespaceStack::new();
    stack.push(1, "a".to_string());
    stack.push(2, "b".to_string());
    stack.push(4, "c".to_string());
    stack.prune(5);
    assert_eq!(stack.entries.len(), 3);
    stack.prune(4);
    assert_eq!(stack.entries, vec![(1, "a".to_string()), (2, "b".to_string())]);
    stack.prune(2);
    assert_eq!(stack.entries, vec![(1, "a".to_string())]);
    stack.prune(2);
    assert_eq!(stack.entries, vec![(1, "a".to_string())]);
    stack.prune(0);
    assert!(stack.entries.is_empty());
}

#[test]
fn pruning_keeps_the_order_of_what_stays() {
    let mut stack = NamespaceStack::new();
    stack.push(3, "x".to_string());
    stack.push(1, "y".to_string());
    stack.push(5, "z".to_string());
    stack.push(2, "w".to_string());
    stack.prune(3);
    assert_eq!(stack.entries, vec![(1, "y".to_string()), (2, "w".to_string())]);
}

#[test]
fn qualified_names_join_the_scopes() {
    let mut stack = NamespaceStack::new();
    assert_eq!(recover_full_name(&s("f"), &stack), s("f"));
    assert_eq!(recover_full_name(&None, &stack), None);
    assert_eq!(stack.prefix(), "");
    stack.push(1, "a".to_string());
    assert_eq!(recover_full_name(&s("f"), &stack), s("a::f"));
    stack.push(2, "b".to_string());
    assert_eq!(recover_full_name(&s("c"), &stack), s("a::b::c"));
    assert_eq!(recover_full_name(&s(""), &stack), s("a::b::"));
    assert_eq!(recover_full_name(&None, &stack), None);
    assert_eq!(stack.prefix(), "a::b::");
}
