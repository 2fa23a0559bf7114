//! Resolution of entries into types: memoized on the identity of the
//! entry, safe on cyclic references, and transparent to chains of
//! typedefs.

use vstd::prelude::*;
use crate::attrs::Sections;
use crate::builder::{BuilderView, DebugInfoBuilder};
use crate::cursor::CursorView;
use crate::die::{children_of, At, AttrValue, Die, Tag, Unit};
use crate::error::Error;
use crate::names::{get_name, resolved_name};
use crate::types::{
    Enumerator, EnumeratorView, Member, MemberView, Parameter, ParameterView, StructureKind,
    TypeHandle, TypeRequest, TypeRequestView,
};

verus! {

/// The width given to an enumeration that declares no size.
pub const DEFAULT_ENUMERATION_WIDTH: usize = 8;

/// The first entry that is not a typedef on the chain of type references
/// that starts at the typedef `i`, followed for at most `fuel` typedefs.
pub open spec fn typedef_target_from(unit: &Unit, i: int, fuel: nat) -> Result<Option<int>, Error>
    decreases fuel,
{
    match unit.dies()[i].spec_attr_ref(At::Type) {
        None => Ok(None),
        Some(offset) => match unit.index_of(offset) {
            None => Err(Error::MalformedTree),
            Some(j) => if unit.dies()[j].tag != Tag::Typedef {
                Ok(Some(j))
            } else if fuel == 0 {
                Err(Error::MalformedTree)
            } else {
                typedef_target_from(unit, j, (fuel - 1) as nat)
            },
        },
    }
}

/// The entry that a typedef stands for: the first entry on its chain of
/// type references that is not itself a typedef. There is none where the
/// chain ends in a typedef without a type; a reference to no entry makes
/// the tree malformed, and so does a chain of more typedefs than the unit
/// has entries.
pub open spec fn typedef_target(unit: &Unit, i: int) -> Result<Option<int>, Error> {
    typedef_target_from(unit, i, unit.dies().len())
}

/// The entry whose type is resolved before the entry at `i` itself: the
/// target of its type reference, and for a typedef the entry that it
/// stands for.
pub open spec fn parent_entry(unit: &Unit, i: int) -> Result<Option<int>, Error> {
    let die = unit.dies()[i];
    match die.spec_attr_ref(At::Type) {
        None => Ok(None),
        Some(offset) => if die.tag == Tag::Typedef {
            typedef_target(unit, i)
        } else {
            match unit.index_of(offset) {
                None => Err(Error::MalformedTree),
                Some(j) => Ok(Some(j)),
            }
        },
    }
}

/// The handle of the type that was resolved first, if one was.
pub open spec fn parent_handle(st: BuilderView, parent: Option<usize>) -> Option<TypeHandle> {
    match parent {
        Some(key) => st.handle_of(key),
        None => None,
    }
}

/// The primitive type that a base type of the given encoding, size and
/// name becomes: booleans, signed and unsigned integers and characters,
/// binary and decimal floating point, and UTF code units. Every other
/// encoding is unsupported.
pub open spec fn base_request(encoding: u8, size: usize, name: Seq<char>) -> Result<
    TypeRequestView,
    Error,
> {
    if encoding == 0x02 {
        Ok(TypeRequestView::Bool)
    } else if encoding == 0x04 || encoding == 0x0f {
        Ok(TypeRequestView::Float { width: size, name })
    } else if encoding == 0x05 || encoding == 0x06 {
        Ok(TypeRequestView::Integer { width: size, signed: true, name })
    } else if encoding == 0x07 || encoding == 0x08 || encoding == 0x10 {
        Ok(TypeRequestView::Integer { width: size, signed: false, name })
    } else {
        Err(Error::UnsupportedEncoding)
    }
}

/// The outcome of building a type: the handle, none where the entry is
/// unsupported, or the error; and the state afterwards.
pub type Built = (Result<Option<TypeHandle>, Error>, BuilderView);

/// The outcome of resolving an entry: its key, none where it did not
/// resolve, or the error; and the state afterwards.
pub type Resolved = (Result<Option<usize>, Error>, BuilderView);

/// Asking the sink for one construction.
pub open spec fn construct(st: BuilderView, request: TypeRequestView) -> Built {
    (Ok(Some(st.next_handle())), st.create(request))
}

/// A base type. It must have a name and a size; with an encoding that is
/// unsupported, or none, it resolves to nothing.
pub open spec fn build_base(strings: CursorView, unit: &Unit, st: BuilderView, i: int) -> Built {
    let die = unit.dies()[i];
    match resolved_name(strings, unit, i) {
        Err(e) => (Err(e), st),
        Ok(None) => (Err(Error::MalformedTree), st),
        Ok(Some(name)) => match die.spec_size_usize() {
            None => (Err(Error::MalformedTree), st),
            Some(size) => match die.spec_attr(At::Encoding) {
                Some(AttrValue::Encoding(encoding)) => match base_request(encoding, size, name) {
                    Ok(request) => construct(st, request),
                    Err(_) => (Ok(None), st),
                },
                _ => (Ok(None), st),
            },
        },
    }
}

/// The named constants among the children `kids` from position `k` on,
/// after `acc`. A child that is no enumerator, has no name or has no
/// value is passed over.
pub open spec fn enumerators_from(
    strings: CursorView,
    unit: &Unit,
    kids: Seq<int>,
    k: int,
    acc: Seq<EnumeratorView>,
) -> Result<Seq<EnumeratorView>, Error>
    decreases kids.len() - k,
{
    if k < 0 || k >= kids.len() {
        Ok(acc)
    } else {
        let child = unit.dies()[kids[k]];
        if child.tag == Tag::Enumerator {
            match resolved_name(strings, unit, kids[k]) {
                Err(e) => Err(e),
                Ok(name) => {
                    let value = match child.spec_attr(At::ConstValue) {
                        Some(v) => v.spec_as_u64(),
                        None => None,
                    };
                    match (name, value) {
                        (Some(name), Some(value)) => enumerators_from(
                            strings,
                            unit,
                            kids,
                            k + 1,
                            acc.push(EnumeratorView { name, value }),
                        ),
                        _ => enumerators_from(strings, unit, kids, k + 1, acc),
                    }
                },
            }
        } else {
            enumerators_from(strings, unit, kids, k + 1, acc)
        }
    }
}

/// An enumeration: its declared size, and its named constants in order.
pub open spec fn build_enumeration(strings: CursorView, unit: &Unit, st: BuilderView, i: int) -> Built {
    let die = unit.dies()[i];
    let width = match die.spec_size_usize() {
        Some(size) => size,
        None => DEFAULT_ENUMERATION_WIDTH,
    };
    match enumerators_from(strings, unit, children_of(unit.dies(), i), 0, Seq::empty()) {
        Err(e) => (Err(e), st),
        Ok(members) => construct(st, TypeRequestView::Enumeration { width, members }),
    }
}

/// A typedef: a name for the type of the entry that it stands for.
/// Without a resolved type to stand for it is only a declaration and
/// resolves to nothing; with one it must have a name.
pub open spec fn build_typedef(
    strings: CursorView,
    unit: &Unit,
    st: BuilderView,
    i: int,
    parent: Option<usize>,
) -> Built {
    match parent_handle(st, parent) {
        None => (Ok(None), st),
        Some(target) => match resolved_name(strings, unit, i) {
            Err(e) => (Err(e), st),
            Ok(None) => (Err(Error::MalformedTree), st),
            Ok(Some(name)) => construct(st, TypeRequestView::NamedAlias { name, target }),
        },
    }
}

/// A wrapper around the type that was resolved first, or around void
/// where none was.
pub open spec fn wrap_or_void(
    st: BuilderView,
    parent: Option<usize>,
    wrap: spec_fn(TypeHandle) -> TypeRequestView,
) -> Built {
    match parent_handle(st, parent) {
        Some(target) => construct(st, wrap(target)),
        None => {
            let void = st.next_handle();
            construct(st.create(TypeRequestView::Void), wrap(void))
        },
    }
}

/// A pointer of the declared width to the resolved type, or to void.
/// Without a declared size the pointer is unsupported.
pub open spec fn build_pointer(unit: &Unit, st: BuilderView, i: int, parent: Option<usize>) -> Built {
    match unit.dies()[i].spec_size_usize() {
        None => (Ok(None), st),
        Some(width) => wrap_or_void(
            st,
            parent,
            |target: TypeHandle| TypeRequestView::Pointer { width, target },
        ),
    }
}

/// An array of the resolved element type. Its bounds are not modelled:
/// it has no elements.
pub open spec fn build_array(st: BuilderView, parent: Option<usize>) -> Built {
    match parent_handle(st, parent) {
        Some(element) => construct(st, TypeRequestView::Array { element, count: 0 }),
        None => (Ok(None), st),
    }
}

/// The byte offset that a member declares. A location in a form that is
/// no number is unsupported.
pub open spec fn member_location(die: Die) -> Result<Option<u64>, Error> {
    match die.spec_attr(At::DataMemberLocation) {
        Some(value) => match value.spec_as_u64() {
            Some(offset) => Ok(Some(offset)),
            None => Err(Error::UnsupportedEncoding),
        },
        None => Ok(None),
    }
}

/// The byte offset at which a member is inserted: the one it declares,
/// and none where it declares none or one that is unsupported.
pub open spec fn member_offset(die: Die) -> Option<u64> {
    match member_location(die) {
        Ok(offset) => offset,
        Err(_) => None,
    }
}

/// Whether one of the children is a data member.
pub open spec fn has_member(unit: &Unit, kids: Seq<int>) -> bool {
    exists|k: int| 0 <= k < kids.len() && unit.dies()[#[trigger] kids[k]].tag == Tag::Member
}

/// Whether the entry only declares an aggregate that is defined
/// elsewhere: it is marked as a declaration and has no data members.
pub open spec fn is_forward_declaration(unit: &Unit, i: int) -> bool {
    unit.dies()[i].spec_attr(At::Declaration) is Some && !has_member(
        unit,
        children_of(unit.dies(), i),
    )
}

/// Resolving the entry at `i` in the state `st`, with references nesting
/// at most `fuel` deep.
///
/// An entry that has a type already resolves to its key and changes
/// nothing. Otherwise the entry that its type refers to is resolved first,
/// and then a type is built for its tag and registered under its key,
/// unless the key has got a type in the meantime, which then stands.  An
/// entry for which no type is built resolves to nothing and registers
/// nothing.
pub open spec fn resolve(strings: CursorView, unit: &Unit, st: BuilderView, i: int, fuel: nat) -> Resolved
    decreases fuel, 0nat, 0nat,
{
    let key = unit.dies()[i].offset;
    if st.contains_type(key) {
        (Ok(Some(key)), st)
    } else if fuel == 0 {
        (Err(Error::MalformedTree), st)
    } else {
        let f = (fuel - 1) as nat;
        match parent_entry(unit, i) {
            Err(e) => (Err(e), st),
            Ok(target) => {
                let (parent, st1) = match target {
                    Some(j) => resolve(strings, unit, st, j, f),
                    None => (Ok(None), st),
                };
                match parent {
                    Err(e) => (Err(e), st1),
                    Ok(parent) => if st1.contains_type(key) {
                        (Ok(Some(key)), st1)
                    } else {
                        let (built, st2) = build(strings, unit, st1, i, parent, f);
                        match built {
                            Err(e) => (Err(e), st2),
                            Ok(None) => (Ok(None), st2),
                            Ok(Some(handle)) => match resolved_name(strings, unit, i) {
                                Err(e) => (Err(e), st2),
                                Ok(name) => if st2.contains_type(key) {
                                    (Ok(Some(key)), st2)
                                } else {
                                    let name = match name {
                                        Some(name) => name,
                                        None => Seq::empty(),
                                    };
                                    (Ok(Some(key)), st2.add_type(key, name, handle))
                                },
                            },
                        }
                    },
                }
            },
        }
    }
}

/// Building the type of the entry at `i` by its tag, once the type that
/// it refers to has resolved to `parent`.
pub open spec fn build(
    strings: CursorView,
    unit: &Unit,
    st: BuilderView,
    i: int,
    parent: Option<usize>,
    f: nat,
) -> Built
    decreases f, 3nat, 0nat,
{
    match unit.dies()[i].tag {
        Tag::BaseType => build_base(strings, unit, st, i),
        Tag::StructureType => build_structure(strings, unit, st, i, StructureKind::Struct, f),
        Tag::ClassType => build_structure(strings, unit, st, i, StructureKind::Class, f),
        Tag::UnionType => build_structure(strings, unit, st, i, StructureKind::Union, f),
        Tag::EnumerationType => build_enumeration(strings, unit, st, i),
        Tag::Typedef => build_typedef(strings, unit, st, i, parent),
        Tag::PointerType => build_pointer(unit, st, i, parent),
        Tag::ArrayType => build_array(st, parent),
        Tag::UnspecifiedType => construct(st, TypeRequestView::Void),
        Tag::SubroutineType => build_subroutine(strings, unit, st, i, parent, f),
        Tag::ConstType => wrap_or_void(
            st,
            parent,
            |target: TypeHandle| TypeRequestView::Const { target },
        ),
        Tag::FormalParameter => (Ok(parent_handle(st, parent)), st),
        Tag::Subprogram => (Ok(parent_handle(st, parent)), st),
        _ => (Ok(None), st),
    }
}

/// A structure, class or union.
///
/// A forward declaration and an aggregate without a name are unsupported.
/// Otherwise a reference by name is registered under the entry's key
/// before any child is looked at, so that a member whose type leads back
/// to the aggregate finds it. When the children are done the reference is
/// taken out again, and the aggregate is constructed with its declared
/// size (zero where it declares none) and its members.
pub open spec fn build_structure(
    strings: CursorView,
    unit: &Unit,
    st: BuilderView,
    i: int,
    kind: StructureKind,
    f: nat,
) -> Built
    decreases f, 2nat, 0nat,
{
    let die = unit.dies()[i];
    if is_forward_declaration(unit, i) {
        (Ok(None), st)
    } else {
        match resolved_name(strings, unit, i) {
            Err(e) => (Err(e), st),
            Ok(None) => (Ok(None), st),
            Ok(Some(name)) => {
                let placeholder = st.next_handle();
                let st1 = st.create(TypeRequestView::NamedReference { name }).add_type(
                    die.offset,
                    name,
                    placeholder,
                );
                let width = match die.spec_size() {
                    Some(size) => size,
                    None => 0,
                };
                let (members, st2) = struct_members(
                    strings,
                    unit,
                    st1,
                    kind,
                    children_of(unit.dies(), i),
                    0,
                    Seq::empty(),
                    f,
                );
                match members {
                    Err(e) => (Err(e), st2),
                    Ok(members) => construct(
                        st2.remove_type(die.offset),
                        TypeRequestView::Structure { kind, width, members },
                    ),
                }
            },
        }
    }
}

/// The members that the children `kids` from position `k` on add to
/// `acc`, and the state after those children.
///
/// A data member with a type reference has that type resolved; if the
/// type resolves and the member has a name, it is inserted at the byte
/// offset it declares, and one that declares none is appended if the
/// aggregate is a union and passed over otherwise. Every other child is
/// resolved for what it adds to the state, and adds no member.
pub open spec fn struct_members(
    strings: CursorView,
    unit: &Unit,
    st: BuilderView,
    kind: StructureKind,
    kids: Seq<int>,
    k: int,
    acc: Seq<MemberView>,
    f: nat,
) -> (Result<Seq<MemberView>, Error>, BuilderView)
    decreases f, 1nat, kids.len() - k,
{
    if k < 0 || k >= kids.len() {
        (Ok(acc), st)
    } else {
        let c = kids[k];
        let child = unit.dies()[c];
        if child.tag == Tag::Member {
            match child.spec_attr_ref(At::Type) {
                None => struct_members(strings, unit, st, kind, kids, k + 1, acc, f),
                Some(offset) => match unit.index_of(offset) {
                    None => (Err(Error::MalformedTree), st),
                    Some(t) => {
                        let (resolved, st1) = resolve(strings, unit, st, t, f);
                        match resolved {
                            Err(e) => (Err(e), st1),
                            Ok(None) => struct_members(
                                strings,
                                unit,
                                st1,
                                kind,
                                kids,
                                k + 1,
                                acc,
                                f,
                            ),
                            Ok(Some(type_key)) => match resolved_name(strings, unit, c) {
                                Err(e) => (Err(e), st1),
                                Ok(name) => struct_members(
                                    strings,
                                    unit,
                                    st1,
                                    kind,
                                    kids,
                                    k + 1,
                                    with_member(
                                        acc,
                                        kind,
                                        name,
                                        st1.handle_of(type_key),
                                        member_offset(child),
                                    ),
                                    f,
                                ),
                            },
                        }
                    },
                },
            }
        } else {
            let (resolved, st1) = resolve(strings, unit, st, c, f);
            match resolved {
                Err(e) => (Err(e), st1),
                Ok(_) => struct_members(strings, unit, st1, kind, kids, k + 1, acc, f),
            }
        }
    }
}

/// The members after a data member with a resolved type has been looked
/// at: with a name it is inserted at its offset, or appended where it has
/// none and the aggregate is a union.
pub open spec fn with_member(
    acc: Seq<MemberView>,
    kind: StructureKind,
    name: Option<Seq<char>>,
    ty: Option<TypeHandle>,
    offset: Option<u64>,
) -> Seq<MemberView> {
    match (name, ty) {
        (Some(name), Some(ty)) => if offset is Some || kind == StructureKind::Union {
            acc.push(MemberView { ty, name, offset })
        } else {
            acc
        },
        _ => acc,
    }
}

/// A function type: the resolved return type, or void, the named
/// parameters with resolved types in order, and whether it takes further
/// arguments.
pub open spec fn build_subroutine(
    strings: CursorView,
    unit: &Unit,
    st: BuilderView,
    i: int,
    parent: Option<usize>,
    f: nat,
) -> Built
    decreases f, 2nat, 0nat,
{
    let (return_type, st1) = match parent_handle(st, parent) {
        Some(handle) => (handle, st),
        None => (st.next_handle(), st.create(TypeRequestView::Void)),
    };
    let (signature, st2) = fn_params(
        strings,
        unit,
        st1,
        children_of(unit.dies(), i),
        0,
        Seq::empty(),
        false,
        f,
    );
    match signature {
        Err(e) => (Err(e), st2),
        Ok((parameters, variadic)) => construct(
            st2,
            TypeRequestView::Function { return_type, parameters, variadic },
        ),
    }
}

/// The parameters that the children `kids` from position `k` on add to
/// `acc`, whether one of them or an earlier one marks further arguments,
/// and the state after those children.
pub open spec fn fn_params(
    strings: CursorView,
    unit: &Unit,
    st: BuilderView,
    kids: Seq<int>,
    k: int,
    acc: Seq<ParameterView>,
    variadic: bool,
    f: nat,
) -> (Result<(Seq<ParameterView>, bool), Error>, BuilderView)
    decreases f, 1nat, kids.len() - k,
{
    if k < 0 || k >= kids.len() {
        (Ok((acc, variadic)), st)
    } else {
        let c = kids[k];
        let child = unit.dies()[c];
        if child.tag == Tag::FormalParameter {
            let (resolved, st1) = resolve(strings, unit, st, c, f);
            match resolved {
                Err(e) => (Err(e), st1),
                Ok(type_key) => match resolved_name(strings, unit, c) {
                    Err(e) => (Err(e), st1),
                    Ok(name) => fn_params(
                        strings,
                        unit,
                        st1,
                        kids,
                        k + 1,
                        with_parameter(acc, name, parent_handle(st1, type_key)),
                        variadic,
                        f,
                    ),
                },
            }
        } else if child.tag == Tag::UnspecifiedParameters {
            fn_params(strings, unit, st, kids, k + 1, acc, true, f)
        } else {
            fn_params(strings, unit, st, kids, k + 1, acc, variadic, f)
        }
    }
}

/// The parameters after a formal parameter has been looked at: it counts
/// if it has a name and its type resolved.
pub open spec fn with_parameter(
    acc: Seq<ParameterView>,
    name: Option<Seq<char>>,
    ty: Option<TypeHandle>,
) -> Seq<ParameterView> {
    match (name, ty) {
        (Some(name), Some(ty)) => acc.push(ParameterView { ty, name }),
        _ => acc,
    }
}

/// Finds the entry that the typedef at `i` stands for.
pub fn find_typedef_target(unit: &Unit, i: usize) -> (r: Result<Option<usize>, Error>)
    requires
        i < unit.dies().len(),
    ensures
        match r {
            Ok(Some(j)) => j < unit.dies().len() && typedef_target(unit, i as int) == Ok::<
                Option<int>,
                Error,
            >(Some(j as int)),
            Ok(None) => typedef_target(unit, i as int) == Ok::<Option<int>, Error>(None),
            Err(e) => typedef_target(unit, i as int) == Err::<Option<int>, Error>(e),
        },
{
    let mut cur = i;
    let mut fuel = unit.len();
    loop
        invariant
            cur < unit.dies().len(),
            typedef_target_from(unit, cur as int, fuel as nat) == typedef_target(unit, i as int),
        decreases fuel,
    {
        match unit.die(cur).attr_ref(At::Type) {
            None => {
                return Ok(None);
            },
            Some(offset) => match unit.find(offset) {
                None => {
                    return Err(Error::MalformedTree);
                },
                Some(j) => {
                    if unit.die(j).tag != Tag::Typedef {
                        return Ok(Some(j));
                    }
                    if fuel == 0 {
                        return Err(Error::MalformedTree);
                    }
                    fuel -= 1;
                    cur = j;
                },
            },
        }
    }
}

/// Finds the entry whose type is resolved before the entry at `i`.
pub fn find_parent_entry(unit: &Unit, i: usize) -> (r: Result<Option<usize>, Error>)
    requires
        i < unit.dies().len(),
    ensures
        match r {
            Ok(Some(j)) => j < unit.dies().len() && parent_entry(unit, i as int) == Ok::<
                Option<int>,
                Error,
            >(Some(j as int)),
            Ok(None) => parent_entry(unit, i as int) == Ok::<Option<int>, Error>(None),
            Err(e) => parent_entry(unit, i as int) == Err::<Option<int>, Error>(e),
        },
{
    let die = unit.die(i);
    match die.attr_ref(At::Type) {
        None => Ok(None),
        Some(offset) => {
            if die.tag == Tag::Typedef {
                find_typedef_target(unit, i)
            } else {
                match unit.find(offset) {
                    None => Err(Error::MalformedTree),
                    Some(j) => Ok(Some(j)),
                }
            }
        },
    }
}

fn handle_of_parent(builder: &DebugInfoBuilder, parent: Option<usize>) -> (r: Option<TypeHandle>)
    requires
        builder.wf(),
    ensures
        r == parent_handle(builder@, parent),
        r is Some ==> r->0.index < builder@.requests.len(),
{
    match parent {
        Some(key) => builder.handle_of(key),
        None => None,
    }
}

fn construct_type(builder: &mut DebugInfoBuilder, request: TypeRequest) -> (r: Result<
    Option<TypeHandle>,
    Error,
>)
    requires
        old(builder).wf(),
        request@.refers_below(old(builder)@.requests.len()),
    ensures
        final(builder).wf(),
        old(builder)@.extends_to(final(builder)@),
        (r, final(builder)@) == construct(old(builder)@, request@),
{
    proof {
        builder@.lemma_create_extends(request@);
    }
    Ok(Some(builder.create(request)))
}

/// Chooses the primitive type for a base type by its encoding.
pub fn base_type_request(encoding: u8, size: usize, name: String) -> (r: Result<TypeRequest, Error>)
    ensures
        match (r, base_request(encoding, size, name@)) {
            (Ok(request), Ok(expected)) => request@ == expected,
            (Err(e), Err(expected)) => e == expected,
            _ => false,
        },
        r is Ok ==> r->Ok_0@.refers_below(0),
{
    if encoding == 0x02 {
        Ok(TypeRequest::Bool)
    } else if encoding == 0x04 || encoding == 0x0f {
        Ok(TypeRequest::Float { width: size, name })
    } else if encoding == 0x05 || encoding == 0x06 {
        Ok(TypeRequest::Integer { width: size, signed: true, name })
    } else if encoding == 0x07 || encoding == 0x08 || encoding == 0x10 {
        Ok(TypeRequest::Integer { width: size, signed: false, name })
    } else {
        Err(Error::UnsupportedEncoding)
    }
}

/// Reads the byte offset that a member declares.
pub fn get_member_location(die: &Die) -> (r: Result<Option<u64>, Error>)
    ensures
        r == member_location(*die),
{
    match die.attr(At::DataMemberLocation) {
        Some(value) => match value.as_u64() {
            Some(offset) => Ok(Some(offset)),
            None => Err(Error::UnsupportedEncoding),
        },
        None => Ok(None),
    }
}

fn parse_base(sections: &Sections, unit: &Unit, i: usize, builder: &mut DebugInfoBuilder) -> (r:
    Result<Option<TypeHandle>, Error>)
    requires
        i < unit.dies().len(),
        old(builder).wf(),
    ensures
        final(builder).wf(),
        old(builder)@.extends_to(final(builder)@),
        (r, final(builder)@) == build_base(sections.debug_str@, unit, old(builder)@, i as int),
{
    let die = unit.die(i);
    let name = match get_name(sections, unit, i) {
        Err(e) => {
            return Err(e);
        },
        Ok(None) => {
            return Err(Error::MalformedTree);
        },
        Ok(Some(name)) => name,
    };
    let size = match die.size_as_usize() {
        None => {
            return Err(Error::MalformedTree);
        },
        Some(size) => size,
    };
    match die.attr(At::Encoding) {
        Some(AttrValue::Encoding(encoding)) => match base_type_request(*encoding, size, name) {
            Ok(request) => construct_type(builder, request),
            Err(_) => Ok(None),
        },
        _ => Ok(None),
    }
}

fn parse_enumeration(sections: &Sections, unit: &Unit, i: usize, builder: &mut DebugInfoBuilder) -> (r:
    Result<Option<TypeHandle>, Error>)
    requires
        i < unit.dies().len(),
        old(builder).wf(),
    ensures
        final(builder).wf(),
        old(builder)@.extends_to(final(builder)@),
        (r, final(builder)@) == build_enumeration(
            sections.debug_str@,
            unit,
            old(builder)@,
            i as int,
        ),
{
    let die = unit.die(i);
    let width = match die.size_as_usize() {
        Some(size) => size,
        None => DEFAULT_ENUMERATION_WIDTH,
    };
    let kids = unit.children(i);
    let ghost all = children_of(unit.dies(), i as int);
    let ghost strings = sections.debug_str@;
    let mut members: Vec<Enumerator> = Vec::new();
    let mut k: usize = 0;
    proof {
        assert(crate::types::enumerators_view(members@) =~= Seq::<EnumeratorView>::empty());
    }
    while k < kids.len()
        invariant
            k <= kids.len(),
            kids.len() == all.len(),
            forall|n: int| 0 <= n < kids.len() ==> #[trigger] kids[n] as int == all[n],
            forall|n: int| 0 <= n < kids.len() ==> #[trigger] kids[n] < unit.dies().len(),
            strings == sections.debug_str@,
            all == children_of(unit.dies(), i as int),
            builder.wf(),
            builder@ == old(builder)@,
            enumerators_from(
                strings,
                unit,
                all,
                k as int,
                crate::types::enumerators_view(members@),
            ) == enumerators_from(strings, unit, all, 0, Seq::empty()),
        decreases kids.len() - k,
    {
        let c = kids[k];
        let child = unit.die(c);
        proof {
            assert(all[k as int] == c as int);
        }
        if child.tag == Tag::Enumerator {
            match get_name(sections, unit, c) {
                Err(e) => {
                    return Err(e);
                },
                Ok(name) => {
                    let value = match child.attr(At::ConstValue) {
                        Some(v) => v.as_u64(),
                        None => None,
                    };
                    match (name, value) {
                        (Some(name), Some(value)) => {
                            let ghost before = crate::types::enumerators_view(members@);
                            members.push(Enumerator { name, value });
                            proof {
                                assert(crate::types::enumerators_view(members@) =~= before.push(
                                    EnumeratorView { name: name@, value },
                                ));
                            }
                        },
                        _ => {},
                    }
                },
            }
        }
        k += 1;
    }
    construct_type(builder, TypeRequest::Enumeration { width, members })
}

fn parse_typedef(
    sections: &Sections,
    unit: &Unit,
    i: usize,
    parent: Option<usize>,
    builder: &mut DebugInfoBuilder,
) -> (r: Result<Option<TypeHandle>, Error>)
    requires
        i < unit.dies().len(),
        old(builder).wf(),
    ensures
        final(builder).wf(),
        old(builder)@.extends_to(final(builder)@),
        (r, final(builder)@) == build_typedef(
            sections.debug_str@,
            unit,
            old(builder)@,
            i as int,
            parent,
        ),
{
    let target = match handle_of_parent(builder, parent) {
        None => {
            return Ok(None);
        },
        Some(target) => target,
    };
    match get_name(sections, unit, i) {
        Err(e) => Err(e),
        Ok(None) => Err(Error::MalformedTree),
        Ok(Some(name)) => construct_type(builder, TypeRequest::NamedAlias { name, target }),
    }
}

fn parse_pointer(unit: &Unit, i: usize, parent: Option<usize>, builder: &mut DebugInfoBuilder) -> (r:
    Result<Option<TypeHandle>, Error>)
    requires
        i < unit.dies().len(),
        old(builder).wf(),
    ensures
        final(builder).wf(),
        old(builder)@.extends_to(final(builder)@),
        (r, final(builder)@) == build_pointer(unit, old(builder)@, i as int, parent),
{
    let width = match unit.die(i).size_as_usize() {
        None => {
            return Ok(None);
        },
        Some(width) => width,
    };
    match handle_of_parent(builder, parent) {
        Some(target) => construct_type(builder, TypeRequest::Pointer { width, target }),
        None => {
            let ghost st = builder@;
            proof {
                st.lemma_create_extends(TypeRequestView::Void);
            }
            let target = builder.create(TypeRequest::Void);
            let ghost mid = builder@;
            let r = construct_type(builder, TypeRequest::Pointer { width, target });
            proof {
                st.lemma_extends_transitive(mid, builder@);
            }
            r
        },
    }
}

fn parse_array(parent: Option<usize>, builder: &mut DebugInfoBuilder) -> (r: Result<
    Option<TypeHandle>,
    Error,
>)
    requires
        old(builder).wf(),
    ensures
        final(builder).wf(),
        old(builder)@.extends_to(final(builder)@),
        (r, final(builder)@) == build_array(old(builder)@, parent),
{
    match handle_of_parent(builder, parent) {
        Some(element) => construct_type(builder, TypeRequest::Array { element, count: 0 }),
        None => Ok(None),
    }
}

fn parse_const(parent: Option<usize>, builder: &mut DebugInfoBuilder) -> (r: Result<
    Option<TypeHandle>,
    Error,
>)
    requires
        old(builder).wf(),
    ensures
        final(builder).wf(),
        old(builder)@.extends_to(final(builder)@),
        (r, final(builder)@) == wrap_or_void(
            old(builder)@,
            parent,
            |target: TypeHandle| TypeRequestView::Const { target },
        ),
{
    match handle_of_parent(builder, parent) {
        Some(target) => construct_type(builder, TypeRequest::Const { target }),
        None => {
            let ghost st = builder@;
            proof {
                st.lemma_create_extends(TypeRequestView::Void);
            }
            let target = builder.create(TypeRequest::Void);
            let ghost mid = builder@;
            let r = construct_type(builder, TypeRequest::Const { target });
            proof {
                st.lemma_extends_transitive(mid, builder@);
            }
            r
        },
    }
}

fn has_member_child(unit: &Unit, kids: &Vec<usize>) -> (b: bool)
    requires
        forall|n: int| 0 <= n < kids.len() ==> #[trigger] kids[n] < unit.dies().len(),
    ensures
        b == has_member(unit, kids@.map_values(|c: usize| c as int)),
{
    let ghost all = kids@.map_values(|c: usize| c as int);
    let mut k: usize = 0;
    while k < kids.len()
        invariant
            k <= kids.len(),
            all == kids@.map_values(|c: usize| c as int),
            forall|n: int| 0 <= n < kids.len() ==> #[trigger] kids[n] < unit.dies().len(),
            forall|n: int| 0 <= n < k ==> unit.dies()[#[trigger] all[n]].tag != Tag::Member,
        decreases kids.len() - k,
    {
        if unit.die(kids[k]).tag == Tag::Member {
            assert(unit.dies()[all[k as int]].tag == Tag::Member);
            return true;
        }
        k += 1;
    }
    false
}

/// Resolves the entry at `entry` into a type.
///
/// An entry that has a type already resolves to its key at once, and
/// neither the types nor the requests made of the sink change. No type
/// that was registered before the call is changed by it.
pub fn get_type(sections: &Sections, unit: &Unit, entry: usize, builder: &mut DebugInfoBuilder) -> (r:
    Result<Option<usize>, Error>)
    requires
        entry < unit.dies().len(),
        old(builder).wf(),
    ensures
        final(builder).wf(),
        old(builder)@.extends_to(final(builder)@),
        (r, final(builder)@) == resolve(
            sections.debug_str@,
            unit,
            old(builder)@,
            entry as int,
            old(builder)@.depth_limit,
        ),
        old(builder)@.contains_type(unit.dies()[entry as int].offset) ==> final(builder)@
            == old(builder)@,
        r is Ok && r->Ok_0 is Some ==> r->Ok_0->0 == unit.dies()[entry as int].offset
            && final(builder)@.contains_type(r->Ok_0->0),
{
    let fuel = builder.depth_limit();
    resolve_entry(sections, unit, entry, builder, fuel)
}

/// Resolves the entry at `i` with references nesting at most `fuel`
/// deep.
pub fn resolve_entry(
    sections: &Sections,
    unit: &Unit,
    i: usize,
    builder: &mut DebugInfoBuilder,
    fuel: usize,
) -> (r: Result<Option<usize>, Error>)
    requires
        i < unit.dies().len(),
        old(builder).wf(),
    ensures
        final(builder).wf(),
        old(builder)@.extends_to(final(builder)@),
        (r, final(builder)@) == resolve(
            sections.debug_str@,
            unit,
            old(builder)@,
            i as int,
            fuel as nat,
        ),
        old(builder)@.contains_type(unit.dies()[i as int].offset) ==> final(builder)@
            == old(builder)@,
        r is Ok && r->Ok_0 is Some ==> r->Ok_0->0 == unit.dies()[i as int].offset
            && final(builder)@.contains_type(r->Ok_0->0),
    decreases fuel, 0nat, 0nat,
{
    let ghost st = builder@;
    let key = unit.die(i).offset;
    if builder.contains_type(key) {
        return Ok(Some(key));
    }
    if fuel == 0 {
        return Err(Error::MalformedTree);
    }
    let target = match find_parent_entry(unit, i) {
        Err(e) => {
            return Err(e);
        },
        Ok(target) => target,
    };
    let parent = match target {
        Some(j) => match resolve_entry(sections, unit, j, builder, fuel - 1) {
            Err(e) => {
                return Err(e);
            },
            Ok(parent) => parent,
        },
        None => None,
    };
    let ghost st1 = builder@;
    if builder.contains_type(key) {
        return Ok(Some(key));
    }
    let handle = match build_type(sections, unit, i, parent, builder, fuel - 1) {
        Err(e) => {
            proof {
                st.lemma_extends_transitive(st1, builder@);
            }
            return Err(e);
        },
        Ok(None) => {
            proof {
                st.lemma_extends_transitive(st1, builder@);
            }
            return Ok(None);
        },
        Ok(Some(handle)) => handle,
    };
    let ghost st2 = builder@;
    proof {
        st.lemma_extends_transitive(st1, st2);
    }
    let name = match get_name(sections, unit, i) {
        Err(e) => {
            return Err(e);
        },
        Ok(Some(name)) => name,
        Ok(None) => String::new(),
    };
    if builder.contains_type(key) {
        return Ok(Some(key));
    }
    proof {
        st2.lemma_add_type_extends(key, name@, handle);
        st.lemma_extends_transitive(st2, st2.add_type(key, name@, handle));
    }
    builder.add_type(key, name, handle);
    Ok(Some(key))
}

/// Builds the type of the entry at `i` by its tag.
fn build_type(
    sections: &Sections,
    unit: &Unit,
    i: usize,
    parent: Option<usize>,
    builder: &mut DebugInfoBuilder,
    fuel: usize,
) -> (r: Result<Option<TypeHandle>, Error>)
    requires
        i < unit.dies().len(),
        old(builder).wf(),
        !old(builder)@.contains_type(unit.dies()[i as int].offset),
    ensures
        final(builder).wf(),
        old(builder)@.extends_to(final(builder)@),
        (r, final(builder)@) == build(
            sections.debug_str@,
            unit,
            old(builder)@,
            i as int,
            parent,
            fuel as nat,
        ),
        r is Ok && r->Ok_0 is Some ==> r->Ok_0->0.index < final(builder)@.requests.len(),
    decreases fuel, 3nat, 0nat,
{
    match unit.die(i).tag {
        Tag::BaseType => parse_base(sections, unit, i, builder),
        Tag::StructureType => do_structure_parse(
            StructureKind::Struct,
            sections,
            unit,
            i,
            builder,
            fuel,
        ),
        Tag::ClassType => do_structure_parse(StructureKind::Class, sections, unit, i, builder, fuel),
        Tag::UnionType => do_structure_parse(StructureKind::Union, sections, unit, i, builder, fuel),
        Tag::EnumerationType => parse_enumeration(sections, unit, i, builder),
        Tag::Typedef => parse_typedef(sections, unit, i, parent, builder),
        Tag::PointerType => parse_pointer(unit, i, parent, builder),
        Tag::ArrayType => parse_array(parent, builder),
        Tag::UnspecifiedType => construct_type(builder, TypeRequest::Void),
        Tag::SubroutineType => parse_subroutine(sections, unit, i, parent, builder, fuel),
        Tag::ConstType => parse_const(parent, builder),
        Tag::FormalParameter => Ok(handle_of_parent(builder, parent)),
        Tag::Subprogram => Ok(handle_of_parent(builder, parent)),
        _ => Ok(None),
    }
}

/// Builds a structure, class or union from the entry at `i` and its
/// children.
#[verifier::loop_isolation(false)]
fn do_structure_parse(
    structure_type: StructureKind,
    sections: &Sections,
    unit: &Unit,
    i: usize,
    builder: &mut DebugInfoBuilder,
    fuel: usize,
) -> (r: Result<Option<TypeHandle>, Error>)
    requires
        i < unit.dies().len(),
        old(builder).wf(),
        !old(builder)@.contains_type(unit.dies()[i as int].offset),
    ensures
        final(builder).wf(),
        old(builder)@.extends_to(final(builder)@),
        (r, final(builder)@) == build_structure(
            sections.debug_str@,
            unit,
            old(builder)@,
            i as int,
            structure_type,
            fuel as nat,
        ),
        r is Ok && r->Ok_0 is Some ==> r->Ok_0->0.index < final(builder)@.requests.len(),
    decreases fuel, 2nat, 0nat,
{
    let ghost st = builder@;
    let ghost strings = sections.debug_str@;
    let ghost all = children_of(unit.dies(), i as int);
    let die = unit.die(i);
    let key = die.offset;
    let kids = unit.children(i);
    proof {
        assert(kids@.map_values(|c: usize| c as int) =~= all);
    }
    if die.attr(At::Declaration).is_some() && !has_member_child(unit, &kids) {
        return Ok(None);
    }
    let name = match get_name(sections, unit, i) {
        Err(e) => {
            return Err(e);
        },
        Ok(None) => {
            return Ok(None);
        },
        Ok(Some(name)) => name,
    };
    let ghost name_text = name@;
    let ghost st0 = st.create(TypeRequestView::NamedReference { name: name_text });
    let placeholder = builder.create(TypeRequest::NamedReference { name: name.clone() });
    proof {
        st.lemma_create_extends(TypeRequestView::NamedReference { name: name_text });
        st0.lemma_add_type_extends(key, name_text, placeholder);
    }
    builder.add_type(key, name, placeholder);
    let ghost st1 = builder@;
    proof {
        st.lemma_extends_transitive(st0, st1);
    }
    let width = match die.size_as_u64() {
        Some(size) => size,
        None => 0,
    };
    let mut members: Vec<Member> = Vec::new();
    let mut k: usize = 0;
    proof {
        assert(crate::types::members_view(members@) =~= Seq::<MemberView>::empty());
    }
    while k < kids.len()
        invariant
            k <= kids.len(),
            i < unit.dies().len(),
            kids.len() == all.len(),
            forall|n: int| 0 <= n < kids.len() ==> #[trigger] kids[n] as int == all[n],
            forall|n: int| 0 <= n < kids.len() ==> #[trigger] kids[n] < unit.dies().len(),
            strings == sections.debug_str@,
            builder.wf(),
            st1.extends_to(builder@),
            forall|n: int|
                0 <= n < members.len() ==> (#[trigger] members[n]).ty.index
                    < builder@.requests.len(),
            struct_members(
                strings,
                unit,
                builder@,
                structure_type,
                all,
                k as int,
                crate::types::members_view(members@),
                fuel as nat,
            ) == struct_members(
                strings,
                unit,
                st1,
                structure_type,
                all,
                0,
                Seq::empty(),
                fuel as nat,
            ),
        decreases kids.len() - k,
    {
        let c = kids[k];
        let child = unit.die(c);
        let ghost before = builder@;
        proof {
            assert(all[k as int] == c as int);
        }
        if child.tag == Tag::Member {
            match child.attr_ref(At::Type) {
                None => {},
                Some(offset) => match unit.find(offset) {
                    None => {
                        return Err(Error::MalformedTree);
                    },
                    Some(t) => {
                        let resolved = resolve_entry(sections, unit, t, builder, fuel);
                        proof {
                            st1.lemma_extends_transitive(before, builder@);
                        }
                        match resolved {
                            Err(e) => {
                                return Err(e);
                            },
                            Ok(None) => {},
                            Ok(Some(type_key)) => match get_name(sections, unit, c) {
                                Err(e) => {
                                    return Err(e);
                                },
                                Ok(name) => {
                                    let ty = builder.handle_of(type_key);
                                    let offset = match get_member_location(child) {
                                        Ok(offset) => offset,
                                        Err(_) => None,
                                    };
                                    match (name, ty) {
                                        (Some(name), Some(ty)) => {
                                            if offset.is_some() || structure_type
                                                == StructureKind::Union {
                                                let ghost view = crate::types::members_view(
                                                    members@,
                                                );
                                                members.push(Member { ty, name, offset });
                                                proof {
                                                    assert(crate::types::members_view(members@)
                                                        =~= view.push(
                                                        MemberView { ty, name: name@, offset },
                                                    ));
                                                }
                                            }
                                        },
                                        _ => {},
                                    }
                                },
                            },
                        }
                    },
                },
            }
        } else {
            let resolved = resolve_entry(sections, unit, c, builder, fuel);
            proof {
                st1.lemma_extends_transitive(before, builder@);
            }
            match resolved {
                Err(e) => {
                    return Err(e);
                },
                Ok(_) => {},
            }
        }
        k += 1;
    }
    let ghost st2 = builder@;
    proof {
        st2.lemma_remove_type(key);
    }
    builder.remove_type(key);
    let ghost st3 = builder@;
    let request = TypeRequest::Structure { kind: structure_type, width, members };
    proof {
        st3.lemma_create_extends(request@);
    }
    let handle = builder.create(request);
    proof {
        let st4 = builder@;
        assert forall|k: usize| #[trigger] st.contains_type(k) implies st4.contains_type(k)
            && st4.get_type(k) == st.get_type(k) by {
            assert(st1.contains_type(k));
            assert(st2.contains_type(k));
            assert(k != key);
            assert(st3.contains_type(k));
        }
    }
    Ok(Some(handle))
}

/// Builds a function type from the entry at `i` and its children.
#[verifier::loop_isolation(false)]
fn parse_subroutine(
    sections: &Sections,
    unit: &Unit,
    i: usize,
    parent: Option<usize>,
    builder: &mut DebugInfoBuilder,
    fuel: usize,
) -> (r: Result<Option<TypeHandle>, Error>)
    requires
        i < unit.dies().len(),
        old(builder).wf(),
    ensures
        final(builder).wf(),
        old(builder)@.extends_to(final(builder)@),
        (r, final(builder)@) == build_subroutine(
            sections.debug_str@,
            unit,
            old(builder)@,
            i as int,
            parent,
            fuel as nat,
        ),
        r is Ok && r->Ok_0 is Some ==> r->Ok_0->0.index < final(builder)@.requests.len(),
    decreases fuel, 2nat, 0nat,
{
    let ghost st = builder@;
    let ghost strings = sections.debug_str@;
    let ghost all = children_of(unit.dies(), i as int);
    let return_type = match handle_of_parent(builder, parent) {
        Some(handle) => handle,
        None => {
            proof {
                st.lemma_create_extends(TypeRequestView::Void);
            }
            builder.create(TypeRequest::Void)
        },
    };
    let ghost st1 = builder@;
    let kids = unit.children(i);
    let mut parameters: Vec<Parameter> = Vec::new();
    let mut variadic = false;
    let mut k: usize = 0;
    proof {
        assert(crate::types::parameters_view(parameters@) =~= Seq::<ParameterView>::empty());
    }
    while k < kids.len()
        invariant
            k <= kids.len(),
            i < unit.dies().len(),
            kids.len() == all.len(),
            forall|n: int| 0 <= n < kids.len() ==> #[trigger] kids[n] as int == all[n],
            forall|n: int| 0 <= n < kids.len() ==> #[trigger] kids[n] < unit.dies().len(),
            strings == sections.debug_str@,
            builder.wf(),
            st1.extends_to(builder@),
            st.extends_to(st1),
            return_type.index < st1.requests.len(),
            forall|n: int|
                0 <= n < parameters.len() ==> (#[trigger] parameters[n]).ty.index
                    < builder@.requests.len(),
            fn_params(
                strings,
                unit,
                builder@,
                all,
                k as int,
                crate::types::parameters_view(parameters@),
                variadic,
                fuel as nat,
            ) == fn_params(strings, unit, st1, all, 0, Seq::empty(), false, fuel as nat),
        decreases kids.len() - k,
    {
        let c = kids[k];
        let child = unit.die(c);
        let ghost before = builder@;
        proof {
            assert(all[k as int] == c as int);
        }
        if child.tag == Tag::FormalParameter {
            let resolved = resolve_entry(sections, unit, c, builder, fuel);
            proof {
                st1.lemma_extends_transitive(before, builder@);
                st.lemma_extends_transitive(st1, builder@);
            }
            match resolved {
                Err(e) => {
                    return Err(e);
                },
                Ok(type_key) => match get_name(sections, unit, c) {
                    Err(e) => {
                        return Err(e);
                    },
                    Ok(name) => {
                        let ty = handle_of_parent(builder, type_key);
                        match (name, ty) {
                            (Some(name), Some(ty)) => {
                                let ghost view = crate::types::parameters_view(parameters@);
                                parameters.push(Parameter { ty, name });
                                proof {
                                    assert(crate::types::parameters_view(parameters@) =~= view.push(
                                        ParameterView { ty, name: name@ },
                                    ));
                                }
                            },
                            _ => {},
                        }
                    },
                },
            }
        } else if child.tag == Tag::UnspecifiedParameters {
            variadic = true;
        }
        k += 1;
    }
    let ghost st2 = builder@;
    let request = TypeRequest::Function { return_type, parameters, variadic };
    proof {
        st2.lemma_create_extends(request@);
        st.lemma_extends_transitive(st1, st2);
        st.lemma_extends_transitive(st2, st2.create(request@));
    }
    Ok(Some(builder.create(request)))
}

/// The entry that a typedef stands for is an entry of the unit and never
/// a typedef itself, however long the chain of typedefs before it.
pub proof fn lemma_typedef_stands_for_no_typedef(unit: &Unit, i: int, fuel: nat)
    requires
        0 <= i < unit.dies().len(),
    ensures
        match typedef_target_from(unit, i, fuel) {
            Ok(Some(j)) => 0 <= j < unit.dies().len() && unit.dies()[j].tag != Tag::Typedef,
            _ => true,
        },
    decreases fuel,
{
    match unit.dies()[i].spec_attr_ref(At::Type) {
        None => {},
        Some(offset) => match unit.index_of(offset) {
            None => {},
            Some(j) => {
                if unit.dies()[j].tag == Tag::Typedef && fuel > 0 {
                    lemma_typedef_stands_for_no_typedef(unit, j, (fuel - 1) as nat);
                }
            },
        },
    }
}

/// A typedef is built as a name for the type of the entry that it stands
/// for, which is no typedef: typedefs are transparent to each other.
pub proof fn lemma_typedef_names_its_target(
    strings: CursorView,
    unit: &Unit,
    st: BuilderView,
    i: int,
    parent: Option<usize>,
    f: nat,
)
    requires
        0 <= i < unit.dies().len(),
        unit.dies()[i].tag == Tag::Typedef,
    ensures
        match parent_entry(unit, i) {
            Ok(Some(j)) => 0 <= j < unit.dies().len() && unit.dies()[j].tag != Tag::Typedef,
            _ => true,
        },
        ({
            let (built, after) = build(strings, unit, st, i, parent, f);
            match built {
                Ok(Some(handle)) => {
                    &&& parent is Some
                    &&& st.handle_of(parent->0) is Some
                    &&& resolved_name(strings, unit, i) is Ok
                    &&& resolved_name(strings, unit, i)->Ok_0 is Some
                    &&& handle == st.next_handle()
                    &&& after.requests == st.requests.push(
                        TypeRequestView::NamedAlias {
                            name: resolved_name(strings, unit, i)->Ok_0->0,
                            target: st.handle_of(parent->0)->0,
                        },
                    )
                    &&& after.types == st.types
                },
                _ => after == st,
            }
        }),
{
    lemma_typedef_stands_for_no_typedef(unit, i, unit.dies().len());
}

/// From the first typedef of a chain, resolution goes straight to the
/// entry at the end of the chain that is no typedef: that entry is
/// resolved, the typedef becomes a name for its type, and no typedef in
/// between is resolved or registered on the way.
pub proof fn lemma_typedef_resolves_to_its_target(
    strings: CursorView,
    unit: &Unit,
    st: BuilderView,
    i: int,
    fuel: nat,
)
    requires
        0 <= i < unit.dies().len(),
        unit.dies()[i].tag == Tag::Typedef,
        !st.contains_type(unit.dies()[i].offset),
        fuel > 0,
        typedef_target(unit, i) is Ok,
        typedef_target(unit, i)->Ok_0 is Some,
    ensures
        ({
            let j = typedef_target(unit, i)->Ok_0->0;
            let key = unit.dies()[i].offset;
            let (target, st1) = resolve(strings, unit, st, j, (fuel - 1) as nat);
            let name = resolved_name(strings, unit, i);
            &&& 0 <= j < unit.dies().len()
            &&& unit.dies()[j].tag != Tag::Typedef
            &&& target is Ok && target->Ok_0 is Some && !st1.contains_type(key) && name is Ok
                && name->Ok_0 is Some ==> {
                &&& st1.handle_of(target->Ok_0->0) is Some
                &&& resolve(strings, unit, st, i, fuel) == (
                    Ok::<Option<usize>, Error>(Some(key)),
                    st1.create(
                        TypeRequestView::NamedAlias {
                            name: name->Ok_0->0,
                            target: st1.handle_of(target->Ok_0->0)->0,
                        },
                    ).add_type(key, name->Ok_0->0, st1.next_handle()),
                )
            }
        }),
{
    lemma_typedef_stands_for_no_typedef(unit, i, unit.dies().len());
    let j = typedef_target(unit, i)->Ok_0->0;
    let key = unit.dies()[i].offset;
    let f = (fuel - 1) as nat;
    lemma_resolve_again(strings, unit, st, j, f, f);
    let (target, st1) = resolve(strings, unit, st, j, f);
    let name = resolved_name(strings, unit, i);
    if target is Ok && target->Ok_0 is Some && !st1.contains_type(key) && name is Ok
        && name->Ok_0 is Some {
        assert(unit.dies()[i].spec_attr_ref(At::Type) is Some);
        assert(parent_entry(unit, i) == Ok::<Option<int>, Error>(Some(j)));
        let request = TypeRequestView::NamedAlias {
            name: name->Ok_0->0,
            target: st1.handle_of(target->Ok_0->0)->0,
        };
        let st2 = st1.create(request);
        assert(st2.types == st1.types);
        assert(!st2.contains_type(key));
        assert(st1.contains_type(target->Ok_0->0));
        assert(st1.handle_of(target->Ok_0->0) is Some);
        assert(parent_handle(st1, target->Ok_0) == st1.handle_of(target->Ok_0->0));
        assert(build_typedef(strings, unit, st1, i, target->Ok_0) == construct(st1, request));
        assert(build(strings, unit, st1, i, target->Ok_0, f) == construct(st1, request));
        assert(resolve(strings, unit, st, i, fuel) == (
            Ok::<Option<usize>, Error>(Some(key)),
            st2.add_type(key, name->Ok_0->0, st1.next_handle()),
        ));
    }
}

/// The tag of the entries that describe aggregates of a kind.
pub open spec fn aggregate_tag(kind: StructureKind) -> Tag {
    match kind {
        StructureKind::Struct => Tag::StructureType,
        StructureKind::Class => Tag::ClassType,
        StructureKind::Union => Tag::UnionType,
    }
}

/// The state after an aggregate whose one member is a pointer to the
/// aggregate itself has been resolved from `st`: the sink has been asked
/// for a reference by name, a pointer to it, and the aggregate with the
/// pointer as its member; the pointer and the aggregate are registered.
pub open spec fn self_pointing_resolved(
    st: BuilderView,
    kind: StructureKind,
    aggregate: (usize, Seq<char>, u64),
    member: (Seq<char>, u64),
    pointer: (usize, Seq<char>, usize),
) -> BuilderView {
    let first = st.requests.len();
    let reference = TypeHandle { index: first as usize };
    let to_reference = TypeHandle { index: (first + 1) as usize };
    let whole = TypeHandle { index: (first + 2) as usize };
    BuilderView {
        requests: st.requests.push(TypeRequestView::NamedReference { name: aggregate.1 }).push(
            TypeRequestView::Pointer { width: pointer.2, target: reference },
        ).push(
            TypeRequestView::Structure {
                kind,
                width: aggregate.2,
                members: seq![
                    MemberView { ty: to_reference, name: member.0, offset: Some(member.1) },
                ],
            },
        ),
        types: st.types.push(
            crate::builder::TypeEntryView { key: pointer.0, name: pointer.1, handle: to_reference },
        ).push(crate::builder::TypeEntryView { key: aggregate.0, name: aggregate.1, handle: whole }),
        ..st
    }
}

/// References in a circle end at the aggregate: a named aggregate whose
/// one child is a named member at a declared offset, with a pointer to
/// the aggregate as its type, resolves within any limit of two or more.
/// The result is the aggregate of its declared size with exactly that
/// member at its offset, and the member's type is the pointer.
pub proof fn lemma_self_pointing_aggregate_resolves(
    strings: CursorView,
    unit: &Unit,
    st: BuilderView,
    kind: StructureKind,
    s: int,
    m: int,
    p: int,
    fuel: nat,
)
    requires
        0 <= s < unit.dies().len(),
        0 <= m < unit.dies().len(),
        0 <= p < unit.dies().len(),
        fuel >= 2,
        st.requests.len() + 2 <= usize::MAX,
        unit.dies()[s].tag == aggregate_tag(kind),
        parent_entry(unit, s) == Ok::<Option<int>, Error>(None),
        !is_forward_declaration(unit, s),
        resolved_name(strings, unit, s) is Ok,
        resolved_name(strings, unit, s)->Ok_0 is Some,
        children_of(unit.dies(), s) == seq![m],
        unit.dies()[m].tag == Tag::Member,
        unit.dies()[m].spec_attr_ref(At::Type) == Some(unit.dies()[p].offset),
        unit.index_of(unit.dies()[p].offset) == Some(p),
        resolved_name(strings, unit, m) is Ok,
        resolved_name(strings, unit, m)->Ok_0 is Some,
        member_offset(unit.dies()[m]) is Some,
        unit.dies()[p].tag == Tag::PointerType,
        unit.dies()[p].spec_size_usize() is Some,
        parent_entry(unit, p) == Ok::<Option<int>, Error>(Some(s)),
        resolved_name(strings, unit, p) is Ok,
        unit.dies()[s].offset != unit.dies()[p].offset,
        !st.contains_type(unit.dies()[s].offset),
        !st.contains_type(unit.dies()[p].offset),
    ensures
        resolve(strings, unit, st, s, fuel) == (
            Ok::<Option<usize>, Error>(Some(unit.dies()[s].offset)),
            self_pointing_resolved(
                st,
                kind,
                (
                    unit.dies()[s].offset,
                    resolved_name(strings, unit, s)->Ok_0->0,
                    match unit.dies()[s].spec_size() {
                        Some(size) => size,
                        None => 0,
                    },
                ),
                (resolved_name(strings, unit, m)->Ok_0->0, member_offset(unit.dies()[m])->0),
                (
                    unit.dies()[p].offset,
                    match resolved_name(strings, unit, p)->Ok_0 {
                        Some(name) => name,
                        None => Seq::empty(),
                    },
                    unit.dies()[p].spec_size_usize()->0,
                ),
            ),
        ),
{
    let dies = unit.dies();
    let s_key = dies[s].offset;
    let p_key = dies[p].offset;
    let s_name = resolved_name(strings, unit, s)->Ok_0->0;
    let m_name = resolved_name(strings, unit, m)->Ok_0->0;
    let p_name = match resolved_name(strings, unit, p)->Ok_0 {
        Some(name) => name,
        None => Seq::empty(),
    };
    let width = dies[p].spec_size_usize()->0;
    let size = match dies[s].spec_size() {
        Some(size) => size,
        None => 0,
    };
    let at = member_offset(dies[m])->0;
    let n = st.types.len() as int;
    let f = (fuel - 1) as nat;
    let g = (f - 1) as nat;
    let kids = children_of(dies, s);

    // The reference by name is registered before the member is looked at.
    let reference = st.next_handle();
    let st_a = st.create(TypeRequestView::NamedReference { name: s_name }).add_type(
        s_key,
        s_name,
        reference,
    );
    assert(crate::builder::registered_at(st_a.types, s_key, n));
    assert forall|i: int| crate::builder::registered_at(st_a.types, s_key, i) implies i == n by {
        if i < n {
            assert(crate::builder::registered_at(st.types, s_key, i));
        }
    }
    assert(st_a.handle_of(s_key) == Some(reference));
    assert(!st_a.contains_type(p_key)) by {
        assert forall|i: int| !crate::builder::registered_at(st_a.types, p_key, i) by {
            if crate::builder::registered_at(st_a.types, p_key, i) && i < n {
                assert(crate::builder::registered_at(st.types, p_key, i));
            }
        }
    }

    // The pointer finds the aggregate registered and points to the reference.
    assert(resolve(strings, unit, st_a, s, g) == (Ok::<Option<usize>, Error>(Some(s_key)), st_a));
    let pointer_request = TypeRequestView::Pointer { width, target: reference };
    let to_reference = st_a.next_handle();
    let st_p = st_a.create(pointer_request);
    assert(st_p.types == st_a.types);
    assert(build_pointer(unit, st_a, p, Some(s_key)) == construct(st_a, pointer_request));
    assert(build(strings, unit, st_a, p, Some(s_key), g) == construct(st_a, pointer_request));
    let st_b = st_p.add_type(p_key, p_name, to_reference);
    assert(resolve(strings, unit, st_a, p, f) == (Ok::<Option<usize>, Error>(Some(p_key)), st_b));
    assert(crate::builder::registered_at(st_b.types, p_key, n + 1));
    assert forall|i: int| crate::builder::registered_at(st_b.types, p_key, i) implies i == n
        + 1 by {
        if i < n {
            assert(crate::builder::registered_at(st.types, p_key, i));
        }
    }
    assert(st_b.handle_of(p_key) == Some(to_reference));

    // The one child adds the one member.
    let member = MemberView { ty: to_reference, name: m_name, offset: Some(at) };
    let members = seq![member];
    assert(with_member(
        Seq::<MemberView>::empty(),
        kind,
        Some(m_name),
        Some(to_reference),
        member_offset(dies[m]),
    ) =~= members);
    assert(struct_members(strings, unit, st_b, kind, kids, 1, members, f) == (
        Ok::<Seq<MemberView>, Error>(members),
        st_b,
    ));
    assert(kids[0] == m);
    assert(struct_members(strings, unit, st_a, kind, kids, 0, Seq::empty(), f) == (
        Ok::<Seq<MemberView>, Error>(members),
        st_b,
    ));

    // The reference is taken out and the aggregate takes its place.
    assert(crate::builder::registered_at(st_b.types, s_key, n));
    assert forall|i: int| crate::builder::registered_at(st_b.types, s_key, i) implies i == n by {
        if i < n {
            assert(crate::builder::registered_at(st.types, s_key, i));
        }
    }
    let st_c = st_b.remove_type(s_key);
    assert(st_c.types =~= st.types.push(
        crate::builder::TypeEntryView { key: p_key, name: p_name, handle: to_reference },
    ));
    let whole = st_c.next_handle();
    let request = TypeRequestView::Structure { kind, width: size, members };
    assert(build_structure(strings, unit, st, s, kind, f) == construct(st_c, request));
    assert(build(strings, unit, st, s, None, f) == construct(st_c, request));
    let st_d = st_c.create(request);
    assert(!st_d.contains_type(s_key)) by {
        assert forall|i: int| !crate::builder::registered_at(st_d.types, s_key, i) by {
            if crate::builder::registered_at(st_d.types, s_key, i) && i < n {
                assert(crate::builder::registered_at(st.types, s_key, i));
            }
        }
    }
    let done = st_d.add_type(s_key, s_name, whole);
    assert(resolve(strings, unit, st, s, fuel) == (Ok::<Option<usize>, Error>(Some(s_key)), done));
    let expected = self_pointing_resolved(
        st,
        kind,
        (s_key, s_name, size),
        (m_name, at),
        (p_key, p_name, width),
    );
    assert(done.requests =~= expected.requests);
    assert(done.types =~= expected.types);
}

/// Resolving an entry a second time returns the key it returned the
/// first time and changes nothing: no type is registered and nothing is
/// asked of the sink.
pub proof fn lemma_resolve_again(
    strings: CursorView,
    unit: &Unit,
    st: BuilderView,
    i: int,
    fuel: nat,
    again: nat,
)
    requires
        0 <= i < unit.dies().len(),
    ensures
        ({
            let (first, after) = resolve(strings, unit, st, i, fuel);
            first is Ok && first->Ok_0 is Some ==> {
                &&& first->Ok_0->0 == unit.dies()[i].offset
                &&& after.contains_type(first->Ok_0->0)
                &&& resolve(strings, unit, after, i, again) == (first, after)
            }
        }),
{
    let key = unit.dies()[i].offset;
    let (first, after) = resolve(strings, unit, st, i, fuel);
    if first is Ok && first->Ok_0 is Some {
        if !st.contains_type(key) {
            let f = (fuel - 1) as nat;
            let target = parent_entry(unit, i)->Ok_0;
            let (parent, st1) = match target {
                Some(j) => resolve(strings, unit, st, j, f),
                None => (Ok(None), st),
            };
            if !st1.contains_type(key) {
                let (built, st2) = build(strings, unit, st1, i, parent->Ok_0, f);
                if !st2.contains_type(key) {
                    let handle = built->Ok_0->0;
                    let name = match resolved_name(strings, unit, i)->Ok_0 {
                        Some(name) => name,
                        None => Seq::empty(),
                    };
                    assert(crate::builder::registered_at(
                        st2.add_type(key, name, handle).types,
                        key,
                        st2.types.len() as int,
                    ));
                }
            }
        }
    }
}

/// An entry that has a type resolves to its key whatever the depth limit,
/// and the state stays as it is.
pub proof fn lemma_resolved_entry_is_a_hit(
    strings: CursorView,
    unit: &Unit,
    st: BuilderView,
    i: int,
    fuel: nat,
)
    requires
        st.contains_type(unit.dies()[i].offset),
    ensures
        resolve(strings, unit, st, i, fuel) == (
            Ok::<Option<usize>, Error>(Some(unit.dies()[i].offset)),
            st,
        ),
{
}

/// A named member of a union whose type resolved is appended without an
/// offset where it declares none, and kept with its offset where it
/// declares one: it is never dropped. A named member of a structure or
/// class is kept only with an offset.
pub proof fn lemma_union_member_is_kept(
    acc: Seq<MemberView>,
    kind: StructureKind,
    name: Seq<char>,
    ty: TypeHandle,
    offset: Option<u64>,
)
    ensures
        kind == StructureKind::Union ==> with_member(acc, kind, Some(name), Some(ty), offset)
            == acc.push(MemberView { ty, name, offset }),
        kind != StructureKind::Union && offset is None ==> with_member(
            acc,
            kind,
            Some(name),
            Some(ty),
            offset,
        ) == acc,
        offset is Some ==> with_member(acc, kind, Some(name), Some(ty), offset) == acc.push(
            MemberView { ty, name, offset },
        ),
{
}

/// The depth limit only ever cuts a resolution short: a resolution that
/// ends without an error within one limit ends in the same result and the
/// same state within every larger limit.
pub proof fn lemma_resolve_within_larger_limit(
    strings: CursorView,
    unit: &Unit,
    st: BuilderView,
    i: int,
    fuel: nat,
    more: nat,
)
    requires
        fuel <= more,
        resolve(strings, unit, st, i, fuel).0 is Ok,
    ensures
        resolve(strings, unit, st, i, more) == resolve(strings, unit, st, i, fuel),
    decreases fuel, 0nat, 0nat,
{
    let key = unit.dies()[i].offset;
    if !st.contains_type(key) {
        let f = (fuel - 1) as nat;
        let m = (more - 1) as nat;
        match parent_entry(unit, i) {
            Err(_) => {},
            Ok(target) => {
                match target {
                    Some(j) => {
                        lemma_resolve_within_larger_limit(strings, unit, st, j, f, m);
                    },
                    None => {},
                }
                let (parent, st1) = match target {
                    Some(j) => resolve(strings, unit, st, j, f),
                    None => (Ok(None), st),
                };
                if !st1.contains_type(key) {
                    lemma_build_within_larger_limit(strings, unit, st1, i, parent->Ok_0, f, m);
                }
            },
        }
    }
}

/// Building a type that ends without an error within one limit ends the
/// same within every larger limit.
pub proof fn lemma_build_within_larger_limit(
    strings: CursorView,
    unit: &Unit,
    st: BuilderView,
    i: int,
    parent: Option<usize>,
    f: nat,
    more: nat,
)
    requires
        f <= more,
        build(strings, unit, st, i, parent, f).0 is Ok,
    ensures
        build(strings, unit, st, i, parent, more) == build(strings, unit, st, i, parent, f),
    decreases f, 3nat, 0nat,
{
    match unit.dies()[i].tag {
        Tag::StructureType => lemma_structure_within_larger_limit(
            strings,
            unit,
            st,
            i,
            StructureKind::Struct,
            f,
            more,
        ),
        Tag::ClassType => lemma_structure_within_larger_limit(
            strings,
            unit,
            st,
            i,
            StructureKind::Class,
            f,
            more,
        ),
        Tag::UnionType => lemma_structure_within_larger_limit(
            strings,
            unit,
            st,
            i,
            StructureKind::Union,
            f,
            more,
        ),
        Tag::SubroutineType => {
            let st1 = match parent_handle(st, parent) {
                Some(handle) => st,
                None => st.create(TypeRequestView::Void),
            };
            lemma_parameters_within_larger_limit(
                strings,
                unit,
                st1,
                children_of(unit.dies(), i),
                0,
                Seq::empty(),
                false,
                f,
                more,
            );
        },
        _ => {},
    }
}

/// Building an aggregate that ends without an error within one limit
/// ends the same within every larger limit.
pub proof fn lemma_structure_within_larger_limit(
    strings: CursorView,
    unit: &Unit,
    st: BuilderView,
    i: int,
    kind: StructureKind,
    f: nat,
    more: nat,
)
    requires
        f <= more,
        build_structure(strings, unit, st, i, kind, f).0 is Ok,
    ensures
        build_structure(strings, unit, st, i, kind, more) == build_structure(
            strings,
            unit,
            st,
            i,
            kind,
            f,
        ),
    decreases f, 2nat, 0nat,
{
    let die = unit.dies()[i];
    if !is_forward_declaration(unit, i) {
        match resolved_name(strings, unit, i) {
            Ok(Some(name)) => {
                let st1 = st.create(TypeRequestView::NamedReference { name }).add_type(
                    die.offset,
                    name,
                    st.next_handle(),
                );
                lemma_members_within_larger_limit(
                    strings,
                    unit,
                    st1,
                    kind,
                    children_of(unit.dies(), i),
                    0,
                    Seq::empty(),
                    f,
                    more,
                );
            },
            _ => {},
        }
    }
}

/// Collecting members that ends without an error within one limit ends
/// the same within every larger limit.
pub proof fn lemma_members_within_larger_limit(
    strings: CursorView,
    unit: &Unit,
    st: BuilderView,
    kind: StructureKind,
    kids: Seq<int>,
    k: int,
    acc: Seq<MemberView>,
    f: nat,
    more: nat,
)
    requires
        f <= more,
        struct_members(strings, unit, st, kind, kids, k, acc, f).0 is Ok,
    ensures
        struct_members(strings, unit, st, kind, kids, k, acc, more) == struct_members(
            strings,
            unit,
            st,
            kind,
            kids,
            k,
            acc,
            f,
        ),
    decreases f, 1nat, kids.len() - k,
{
    if 0 <= k < kids.len() {
        let c = kids[k];
        let child = unit.dies()[c];
        if child.tag == Tag::Member {
            match child.spec_attr_ref(At::Type) {
                None => lemma_members_within_larger_limit(
                    strings,
                    unit,
                    st,
                    kind,
                    kids,
                    k + 1,
                    acc,
                    f,
                    more,
                ),
                Some(offset) => match unit.index_of(offset) {
                    None => {},
                    Some(t) => {
                        lemma_resolve_within_larger_limit(strings, unit, st, t, f, more);
                        let (resolved, st1) = resolve(strings, unit, st, t, f);
                        match resolved {
                            Err(_) => {},
                            Ok(None) => lemma_members_within_larger_limit(
                                strings,
                                unit,
                                st1,
                                kind,
                                kids,
                                k + 1,
                                acc,
                                f,
                                more,
                            ),
                            Ok(Some(type_key)) => match resolved_name(strings, unit, c) {
                                Err(_) => {},
                                Ok(name) => lemma_members_within_larger_limit(
                                    strings,
                                    unit,
                                    st1,
                                    kind,
                                    kids,
                                    k + 1,
                                    with_member(
                                        acc,
                                        kind,
                                        name,
                                        st1.handle_of(type_key),
                                        member_offset(child),
                                    ),
                                    f,
                                    more,
                                ),
                            },
                        }
                    },
                },
            }
        } else {
            lemma_resolve_within_larger_limit(strings, unit, st, c, f, more);
            let (resolved, st1) = resolve(strings, unit, st, c, f);
            match resolved {
                Err(_) => {},
                Ok(_) => lemma_members_within_larger_limit(
                    strings,
                    unit,
                    st1,
                    kind,
                    kids,
                    k + 1,
                    acc,
                    f,
                    more,
                ),
            }
        }
    }
}

/// Collecting parameters that ends without an error within one limit
/// ends the same within every larger limit.
pub proof fn lemma_parameters_within_larger_limit(
    strings: CursorView,
    unit: &Unit,
    st: BuilderView,
    kids: Seq<int>,
    k: int,
    acc: Seq<ParameterView>,
    variadic: bool,
    f: nat,
    more: nat,
)
    requires
        f <= more,
        fn_params(strings, unit, st, kids, k, acc, variadic, f).0 is Ok,
    ensures
        fn_params(strings, unit, st, kids, k, acc, variadic, more) == fn_params(
            strings,
            unit,
            st,
            kids,
            k,
            acc,
            variadic,
            f,
        ),
    decreases f, 1nat, kids.len() - k,
{
    if 0 <= k < kids.len() {
        let c = kids[k];
        let child = unit.dies()[c];
        if child.tag == Tag::FormalParameter {
            lemma_resolve_within_larger_limit(strings, unit, st, c, f, more);
            let (resolved, st1) = resolve(strings, unit, st, c, f);
            match resolved {
                Err(_) => {},
                Ok(type_key) => match resolved_name(strings, unit, c) {
                    Err(_) => {},
                    Ok(name) => lemma_parameters_within_larger_limit(
                        strings,
                        unit,
                        st1,
                        kids,
                        k + 1,
                        with_parameter(acc, name, parent_handle(st1, type_key)),
                        variadic,
                        f,
                        more,
                    ),
                },
            }
        } else if child.tag == Tag::UnspecifiedParameters {
            lemma_parameters_within_larger_limit(
                strings,
                unit,
                st,
                kids,
                k + 1,
                acc,
                true,
                f,
                more,
            );
        } else {
            lemma_parameters_within_larger_limit(
                strings,
                unit,
                st,
                kids,
                k + 1,
                acc,
                variadic,
                f,
                more,
            );
        }
    }
}

} // verus!
