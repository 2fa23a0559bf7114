//! The types that resolution asks the type sink to construct.

use vstd::prelude::*;

verus! {

/// What the type sink hands back for a construction: the position of the
/// request among all requests made of it.
#[derive(Clone, Copy, Debug, PartialEq, Eq, Structural)]
pub struct TypeHandle {
    pub index: usize,
}

/// The three kinds of aggregate.
#[derive(Clone, Copy, Debug, PartialEq, Eq, Structural)]
pub enum StructureKind {
    Struct,
    Class,
    Union,
}

/// A data member of an aggregate.
#[derive(Clone, Debug, PartialEq, Eq)]
pub struct Member {
    pub ty: TypeHandle,
    pub name: String,
    /// The byte offset at which the member is inserted; a member without
    /// one is appended.
    pub offset: Option<u64>,
}

/// A parameter of a function type.
#[derive(Clone, Debug, PartialEq, Eq)]
pub struct Parameter {
    pub ty: TypeHandle,
    pub name: String,
}

/// A named constant of an enumeration.
#[derive(Clone, Debug, PartialEq, Eq)]
pub struct Enumerator {
    pub name: String,
    pub value: u64,
}

/// One construction asked of the type sink.
#[derive(Clone, Debug, PartialEq, Eq)]
pub enum TypeRequest {
    Void,
    Bool,
    Integer { width: usize, signed: bool, name: String },
    Float { width: usize, name: String },
    /// A reference by name to a structure that is defined elsewhere or
    /// later.
    NamedReference { name: String },
    Structure { kind: StructureKind, width: u64, members: Vec<Member> },
    Enumeration { width: usize, members: Vec<Enumerator> },
    /// A name for another type.
    NamedAlias { name: String, target: TypeHandle },
    Pointer { width: usize, target: TypeHandle },
    Array { element: TypeHandle, count: u64 },
    Function { return_type: TypeHandle, parameters: Vec<Parameter>, variadic: bool },
    Const { target: TypeHandle },
}

pub struct MemberView {
    pub ty: TypeHandle,
    pub name: Seq<char>,
    pub offset: Option<u64>,
}

pub struct ParameterView {
    pub ty: TypeHandle,
    pub name: Seq<char>,
}

pub struct EnumeratorView {
    pub name: Seq<char>,
    pub value: u64,
}

pub enum TypeRequestView {
    Void,
    Bool,
    Integer { width: usize, signed: bool, name: Seq<char> },
    Float { width: usize, name: Seq<char> },
    NamedReference { name: Seq<char> },
    Structure { kind: StructureKind, width: u64, members: Seq<MemberView> },
    Enumeration { width: usize, members: Seq<EnumeratorView> },
    NamedAlias { name: Seq<char>, target: TypeHandle },
    Pointer { width: usize, target: TypeHandle },
    Array { element: TypeHandle, count: u64 },
    Function { return_type: TypeHandle, parameters: Seq<ParameterView>, variadic: bool },
    Const { target: TypeHandle },
}

impl View for Member {
    type V = MemberView;

    open spec fn view(&self) -> MemberView {
        MemberView { ty: self.ty, name: self.name@, offset: self.offset }
    }
}

impl View for Parameter {
    type V = ParameterView;

    open spec fn view(&self) -> ParameterView {
        ParameterView { ty: self.ty, name: self.name@ }
    }
}

impl View for Enumerator {
    type V = EnumeratorView;

    open spec fn view(&self) -> EnumeratorView {
        EnumeratorView { name: self.name@, value: self.value }
    }
}

/// The members of an aggregate as plain values.
pub open spec fn members_view(members: Seq<Member>) -> Seq<MemberView> {
    Seq::new(members.len(), |i: int| members[i]@)
}

/// The parameters of a function type as plain values.
pub open spec fn parameters_view(parameters: Seq<Parameter>) -> Seq<ParameterView> {
    Seq::new(parameters.len(), |i: int| parameters[i]@)
}

/// The constants of an enumeration as plain values.
pub open spec fn enumerators_view(members: Seq<Enumerator>) -> Seq<EnumeratorView> {
    Seq::new(members.len(), |i: int| members[i]@)
}

impl View for TypeRequest {
    type V = TypeRequestView;

    open spec fn view(&self) -> TypeRequestView {
        match *self {
            TypeRequest::Void => TypeRequestView::Void,
            TypeRequest::Bool => TypeRequestView::Bool,
            TypeRequest::Integer { width, signed, name } => TypeRequestView::Integer {
                width,
                signed,
                name: name@,
            },
            TypeRequest::Float { width, name } => TypeRequestView::Float { width, name: name@ },
            TypeRequest::NamedReference { name } => TypeRequestView::NamedReference { name: name@ },
            TypeRequest::Structure { kind, width, members } => TypeRequestView::Structure {
                kind,
                width,
                members: members_view(members@),
            },
            TypeRequest::Enumeration { width, members } => TypeRequestView::Enumeration {
                width,
                members: enumerators_view(members@),
            },
            TypeRequest::NamedAlias { name, target } => TypeRequestView::NamedAlias {
                name: name@,
                target,
            },
            TypeRequest::Pointer { width, target } => TypeRequestView::Pointer { width, target },
            TypeRequest::Array { element, count } => TypeRequestView::Array { element, count },
            TypeRequest::Function { return_type, parameters, variadic } => TypeRequestView::Function {
                return_type,
                parameters: parameters_view(parameters@),
                variadic,
            },
            TypeRequest::Const { target } => TypeRequestView::Const { target },
        }
    }
}

impl TypeRequestView {
    /// Whether every handle in the request is below `bound`, that is, was
    /// handed out before `bound` requests had been made.
    pub open spec fn refers_below(self, bound: nat) -> bool {
        match self {
            TypeRequestView::Structure { members, .. } => forall|i: int|
                0 <= i < members.len() ==> (#[trigger] members[i]).ty.index < bound,
            TypeRequestView::NamedAlias { target, .. } => target.index < bound,
            TypeRequestView::Pointer { target, .. } => target.index < bound,
            TypeRequestView::Array { element, .. } => element.index < bound,
            TypeRequestView::Function { return_type, parameters, .. } => return_type.index < bound
                && forall|i: int|
                0 <= i < parameters.len() ==> (#[trigger] parameters[i]).ty.index < bound,
            TypeRequestView::Const { target } => target.index < bound,
            _ => true,
        }
    }

    /// The first member, in the order of insertion, that was inserted at
    /// the byte offset `offset`.
    pub open spec fn first_member_at(members: Seq<MemberView>, offset: u64) -> Option<int>
        decreases members.len(),
    {
        if members.len() == 0 {
            None
        } else if members[0].offset == Some(offset) {
            Some(0)
        } else {
            match Self::first_member_at(members.drop_first(), offset) {
                Some(i) => Some(i + 1),
                None => None,
            }
        }
    }
}

/// The member that holds the byte offset `offset`: of several members
/// inserted at one offset, the first.
pub fn member_at(members: &Vec<Member>, offset: u64) -> (r: Option<usize>)
    ensures
        match r {
            Some(i) => TypeRequestView::first_member_at(members_view(members@), offset) == Some(
                i as int,
            ) && i < members.len() && members[i as int].offset == Some(offset),
            None => TypeRequestView::first_member_at(members_view(members@), offset) is None,
        },
{
    let ghost all = members_view(members@);
    let mut i: usize = 0;
    assert(all.skip(0) =~= all);
    while i < members.len()
        invariant
            i <= members.len(),
            all == members_view(members@),
            match TypeRequestView::first_member_at(all.skip(i as int), offset) {
                Some(k) => TypeRequestView::first_member_at(all, offset) == Some(k + i),
                None => TypeRequestView::first_member_at(all, offset) is None,
            },
        decreases members.len() - i,
    {
        proof {
            assert(all.skip(i as int).drop_first() =~= all.skip(i + 1));
            assert(all.skip(i as int)[0] == members[i as int]@);
        }
        match members[i].offset {
            Some(at) => {
                if at == offset {
                    return Some(i);
                }
            },
            None => {},
        }
        i += 1;
    }
    None
}

} // verus!
