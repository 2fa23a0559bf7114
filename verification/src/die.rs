//! The entries of one compilation unit, as plain values.

use vstd::prelude::*;
use crate::error::Error;

verus! {

/// The kind of an entry. The kinds that resolution knows have a variant
/// each; every other code is kept as it came.
#[derive(Clone, Copy, Debug, PartialEq, Eq, Structural)]
pub enum Tag {
    ArrayType,
    ClassType,
    EnumerationType,
    FormalParameter,
    Member,
    PointerType,
    CompileUnit,
    StructureType,
    SubroutineType,
    Typedef,
    UnionType,
    UnspecifiedParameters,
    BaseType,
    ConstType,
    Enumerator,
    Subprogram,
    Namespace,
    UnspecifiedType,
    Other(u16),
}

impl Tag {
    /// The tag that a code of the format stands for.
    pub open spec fn spec_from_code(code: u16) -> Tag {
        if code == 0x01 {
            Tag::ArrayType
        } else if code == 0x02 {
            Tag::ClassType
        } else if code == 0x04 {
            Tag::EnumerationType
        } else if code == 0x05 {
            Tag::FormalParameter
        } else if code == 0x0d {
            Tag::Member
        } else if code == 0x0f {
            Tag::PointerType
        } else if code == 0x11 {
            Tag::CompileUnit
        } else if code == 0x13 {
            Tag::StructureType
        } else if code == 0x15 {
            Tag::SubroutineType
        } else if code == 0x16 {
            Tag::Typedef
        } else if code == 0x17 {
            Tag::UnionType
        } else if code == 0x18 {
            Tag::UnspecifiedParameters
        } else if code == 0x24 {
            Tag::BaseType
        } else if code == 0x26 {
            Tag::ConstType
        } else if code == 0x28 {
            Tag::Enumerator
        } else if code == 0x2e {
            Tag::Subprogram
        } else if code == 0x39 {
            Tag::Namespace
        } else if code == 0x3b {
            Tag::UnspecifiedType
        } else {
            Tag::Other(code)
        }
    }

    /// The code that the format writes for this tag.
    pub open spec fn spec_code(self) -> u16 {
        match self {
            Tag::ArrayType => 0x01,
            Tag::ClassType => 0x02,
            Tag::EnumerationType => 0x04,
            Tag::FormalParameter => 0x05,
            Tag::Member => 0x0d,
            Tag::PointerType => 0x0f,
            Tag::CompileUnit => 0x11,
            Tag::StructureType => 0x13,
            Tag::SubroutineType => 0x15,
            Tag::Typedef => 0x16,
            Tag::UnionType => 0x17,
            Tag::UnspecifiedParameters => 0x18,
            Tag::BaseType => 0x24,
            Tag::ConstType => 0x26,
            Tag::Enumerator => 0x28,
            Tag::Subprogram => 0x2e,
            Tag::Namespace => 0x39,
            Tag::UnspecifiedType => 0x3b,
            Tag::Other(code) => code,
        }
    }

    pub fn from_code(code: u16) -> (tag: Tag)
        ensures
            tag == Tag::spec_from_code(code),
            tag.spec_code() == code,
    {
        if code == 0x01 {
            Tag::ArrayType
        } else if code == 0x02 {
            Tag::ClassType
        } else if code == 0x04 {
            Tag::EnumerationType
        } else if code == 0x05 {
            Tag::FormalParameter
        } else if code == 0x0d {
            Tag::Member
        } else if code == 0x0f {
            Tag::PointerType
        } else if code == 0x11 {
            Tag::CompileUnit
        } else if code == 0x13 {
            Tag::StructureType
        } else if code == 0x15 {
            Tag::SubroutineType
        } else if code == 0x16 {
            Tag::Typedef
        } else if code == 0x17 {
            Tag::UnionType
        } else if code == 0x18 {
            Tag::UnspecifiedParameters
        } else if code == 0x24 {
            Tag::BaseType
        } else if code == 0x26 {
            Tag::ConstType
        } else if code == 0x28 {
            Tag::Enumerator
        } else if code == 0x2e {
            Tag::Subprogram
        } else if code == 0x39 {
            Tag::Namespace
        } else if code == 0x3b {
            Tag::UnspecifiedType
        } else {
            Tag::Other(code)
        }
    }

    /// Whether entries of this kind open a scope whose name qualifies the
    /// names inside it.
    pub open spec fn spec_is_scope(self) -> bool {
        self == Tag::Namespace || self == Tag::ClassType || self == Tag::StructureType
    }

    pub fn is_scope(self) -> (b: bool)
        ensures
            b == self.spec_is_scope(),
    {
        self == Tag::Namespace || self == Tag::ClassType || self == Tag::StructureType
    }
}

/// The identifier of an attribute. Those that resolution reads have a
/// variant each; every other code is kept as it came.
#[derive(Clone, Copy, Debug, PartialEq, Eq, Structural)]
pub enum At {
    Name,
    ByteSize,
    BitSize,
    LowPc,
    ConstValue,
    AbstractOrigin,
    DataMemberLocation,
    Declaration,
    Encoding,
    Specification,
    Type,
    EntryPc,
    LinkageName,
    Other(u16),
}

impl At {
    /// The attribute that a code of the format stands for.
    pub open spec fn spec_from_code(code: u16) -> At {
        if code == 0x03 {
            At::Name
        } else if code == 0x0b {
            At::ByteSize
        } else if code == 0x0d {
            At::BitSize
        } else if code == 0x11 {
            At::LowPc
        } else if code == 0x1c {
            At::ConstValue
        } else if code == 0x31 {
            At::AbstractOrigin
        } else if code == 0x38 {
            At::DataMemberLocation
        } else if code == 0x3c {
            At::Declaration
        } else if code == 0x3e {
            At::Encoding
        } else if code == 0x47 {
            At::Specification
        } else if code == 0x49 {
            At::Type
        } else if code == 0x52 {
            At::EntryPc
        } else if code == 0x6e {
            At::LinkageName
        } else {
            At::Other(code)
        }
    }

    /// The code that the format writes for this attribute.
    pub open spec fn spec_code(self) -> u16 {
        match self {
            At::Name => 0x03,
            At::ByteSize => 0x0b,
            At::BitSize => 0x0d,
            At::LowPc => 0x11,
            At::ConstValue => 0x1c,
            At::AbstractOrigin => 0x31,
            At::DataMemberLocation => 0x38,
            At::Declaration => 0x3c,
            At::Encoding => 0x3e,
            At::Specification => 0x47,
            At::Type => 0x49,
            At::EntryPc => 0x52,
            At::LinkageName => 0x6e,
            At::Other(code) => code,
        }
    }

    pub fn from_code(code: u16) -> (at: At)
        ensures
            at == At::spec_from_code(code),
            at.spec_code() == code,
    {
        if code == 0x03 {
            At::Name
        } else if code == 0x0b {
            At::ByteSize
        } else if code == 0x0d {
            At::BitSize
        } else if code == 0x11 {
            At::LowPc
        } else if code == 0x1c {
            At::ConstValue
        } else if code == 0x31 {
            At::AbstractOrigin
        } else if code == 0x38 {
            At::DataMemberLocation
        } else if code == 0x3c {
            At::Declaration
        } else if code == 0x3e {
            At::Encoding
        } else if code == 0x47 {
            At::Specification
        } else if code == 0x49 {
            At::Type
        } else if code == 0x52 {
            At::EntryPc
        } else if code == 0x6e {
            At::LinkageName
        } else {
            At::Other(code)
        }
    }
}

/// The value of an attribute, in the forms that resolution reads.
#[derive(Clone, Debug, PartialEq, Eq)]
pub enum AttrValue {
    /// An unsigned constant of one byte.
    Data1(u8),
    /// An unsigned constant of two bytes.
    Data2(u16),
    /// An unsigned constant of four bytes.
    Data4(u32),
    /// An unsigned constant of eight bytes.
    Data8(u64),
    /// An unsigned constant of variable length.
    Udata(u64),
    /// A signed constant.
    Sdata(i64),
    /// A flag.
    Flag(bool),
    /// Text that is stored in the entry itself, as bytes.
    String(Vec<u8>),
    /// Text that is stored in the string table, at this offset.
    StrRef(usize),
    /// A reference to the entry at this offset in the same unit.
    UnitRef(usize),
    /// An address.
    Addr(u64),
    /// An address that is stored in the address table, under this index.
    AddrIndex(usize),
    /// The encoding of a base type, by its code.
    Encoding(u8),
    /// A value in a form that resolution does not read.
    Other,
}

/// One attribute of an entry.
#[derive(Clone, Debug, PartialEq, Eq)]
pub struct Attribute {
    pub at: At,
    pub value: AttrValue,
}

/// One debugging information entry.
#[derive(Clone, Debug, PartialEq, Eq)]
pub struct Die {
    /// Where the entry starts in its unit; its identity within the unit.
    pub offset: usize,
    /// How much deeper in the tree this entry lies than the entry before it
    /// in pre-order.
    pub delta_depth: isize,
    pub tag: Tag,
    pub attrs: Vec<Attribute>,
}

/// The offsets of the entries grow from each entry to the next.
pub open spec fn offsets_increase(dies: Seq<Die>) -> bool {
    forall|i: int, j: int| 0 <= i < j < dies.len() ==> dies[i].offset < dies[j].offset
}

/// The depth of the entry at `i`, counted from the depth before the first
/// entry: the sum of the depth changes up to and including its own.
pub open spec fn depth_at(dies: Seq<Die>, i: int) -> int
    decreases i,
{
    if i < 0 || i >= dies.len() {
        0
    } else if i == 0 {
        dies[0].delta_depth as int
    } else {
        depth_at(dies, i - 1) + dies[i].delta_depth
    }
}

/// The direct children among the entries from `j` on, when the entry
/// before `j` lies `rel` levels below the parent: the entries one level
/// below the parent that come before the walk leaves the parent's subtree.
pub open spec fn children_from(dies: Seq<Die>, j: int, rel: int) -> Seq<int>
    decreases dies.len() - j,
{
    if j < 0 || j >= dies.len() {
        Seq::empty()
    } else {
        let r = rel + dies[j].delta_depth;
        if r <= 0 {
            Seq::empty()
        } else if r == 1 {
            seq![j] + children_from(dies, j + 1, r)
        } else {
            children_from(dies, j + 1, r)
        }
    }
}

/// The direct children of the entry at `i`, in the order of the walk.
pub open spec fn children_of(dies: Seq<Die>, i: int) -> Seq<int> {
    children_from(dies, i + 1, 0)
}

/// Whether the entry at `a` encloses the entry at `i`: every entry after
/// `a` up to `i` lies deeper than `a`.
pub open spec fn encloses(dies: Seq<Die>, a: int, i: int) -> bool {
    0 <= a < i < dies.len() && forall|k: int|
        a < k <= i ==> #[trigger] depth_at(dies, k) > depth_at(dies, a)
}

/// Whether the entry at `j` is a direct child of the entry at `i`: the
/// entry at `i` encloses it, and it lies one level below.
pub open spec fn is_child(dies: Seq<Die>, i: int, j: int) -> bool {
    encloses(dies, i, j) && depth_at(dies, j) == depth_at(dies, i) + 1
}

/// The children found from `j` on are exactly the direct children of `i`
/// at `j` or later, and they come in the order of the walk.
pub proof fn lemma_children_from(dies: Seq<Die>, i: int, j: int, rel: int)
    requires
        0 <= i < j <= dies.len(),
        rel == depth_at(dies, j - 1) - depth_at(dies, i),
        forall|k: int| i < k < j ==> depth_at(dies, k) > depth_at(dies, i),
    ensures
        forall|c: int| #[trigger]
            children_from(dies, j, rel).contains(c) <==> j <= c && is_child(dies, i, c),
        forall|a: int, b: int|
            0 <= a < b < children_from(dies, j, rel).len() ==> #[trigger] children_from(
                dies,
                j,
                rel,
            )[a] < #[trigger] children_from(dies, j, rel)[b],
    decreases dies.len() - j,
{
    let found = children_from(dies, j, rel);
    if j < dies.len() {
        let r = rel + dies[j].delta_depth;
        assert(r == depth_at(dies, j) - depth_at(dies, i));
        if r <= 0 {
            assert forall|c: int| j <= c implies !is_child(dies, i, c) by {
                if is_child(dies, i, c) {
                    assert(depth_at(dies, j) > depth_at(dies, i));
                }
            }
        } else {
            lemma_children_from(dies, i, j + 1, r);
            let rest = children_from(dies, j + 1, r);
            if r == 1 {
                assert(found =~= seq![j] + rest);
                assert(is_child(dies, i, j));
                assert(found.len() == rest.len() + 1);
                assert(found[0] == j);
                assert forall|n: int| 1 <= n < found.len() implies found[n] == rest[n - 1] by {}
                assert forall|c: int| found.contains(c) implies j <= c && is_child(dies, i, c) by {
                    let n = choose|n: int| 0 <= n < found.len() && found[n] == c;
                    if n > 0 {
                        assert(found[n] == rest[n - 1]);
                        assert(rest.contains(c));
                    }
                }
                assert forall|c: int| j <= c && is_child(dies, i, c) implies found.contains(c) by {
                    if c == j {
                        assert(found[0] == c);
                    } else {
                        assert(rest.contains(c));
                        let n = choose|n: int| 0 <= n < rest.len() && rest[n] == c;
                        assert(found[n + 1] == rest[n]);
                    }
                }
                assert forall|a: int, b: int| 0 <= a < b < found.len() implies found[a]
                    < found[b] by {
                    assert(found[b] == rest[b - 1]);
                    assert(rest.contains(rest[b - 1]));
                    if a > 0 {
                        assert(found[a] == rest[a - 1]);
                    }
                }
            } else {
                assert(found =~= rest);
                assert(!is_child(dies, i, j));
            }
        }
    } else {
        assert forall|c: int| j <= c implies !is_child(dies, i, c) by {}
    }
}

/// The children of an entry are exactly its direct children in the tree,
/// each once, in the order of the walk.
pub proof fn lemma_children_of(dies: Seq<Die>, i: int)
    requires
        0 <= i < dies.len(),
    ensures
        forall|c: int| #[trigger] children_of(dies, i).contains(c) <==> is_child(dies, i, c),
        forall|a: int, b: int|
            0 <= a < b < children_of(dies, i).len() ==> #[trigger] children_of(dies, i)[a]
                < #[trigger] children_of(dies, i)[b],
{
    lemma_children_from(dies, i, i + 1, 0);
}

/// The entries of one compilation unit in pre-order, with what is needed
/// to read their addresses.
#[derive(Debug)]
pub struct Unit {
    dies: Vec<Die>,
    address_size: u8,
    addr_base: usize,
}

impl Unit {
    #[verifier::type_invariant]
    spec fn inv(&self) -> bool {
        offsets_increase(self.dies@)
    }

    /// The entries, in pre-order.
    pub closed spec fn dies(&self) -> Seq<Die> {
        self.dies@
    }

    /// The width of an address in this unit, in bytes.
    pub closed spec fn spec_address_size(&self) -> u8 {
        self.address_size
    }

    /// Where this unit's part of the address table starts.
    pub closed spec fn spec_addr_base(&self) -> usize {
        self.addr_base
    }

    /// The index of the entry at `offset`, if there is one.
    pub open spec fn index_of(&self, offset: usize) -> Option<int> {
        if exists|i: int| 0 <= i < self.dies().len() && self.dies()[i].offset == offset {
            Some(choose|i: int| 0 <= i < self.dies().len() && self.dies()[i].offset == offset)
        } else {
            None
        }
    }

    /// A unit of the given entries. The entries must come in pre-order, in
    /// which their offsets grow; entries in any other order are refused.
    pub fn new(dies: Vec<Die>, address_size: u8, addr_base: usize) -> (r: Result<Unit, Error>)
        ensures
            match r {
                Ok(unit) => offsets_increase(dies@) && unit.dies() == dies@
                    && unit.spec_address_size() == address_size && unit.spec_addr_base()
                    == addr_base,
                Err(e) => !offsets_increase(dies@) && e == Error::MalformedTree,
            },
    {
        let mut i: usize = 1;
        while i < dies.len()
            invariant
                1 <= i,
                forall|a: int, b: int| 0 <= a < b < i && b < dies.len() ==> dies[a].offset < dies[b].offset,
            decreases dies.len() - i,
        {
            if dies[i - 1].offset >= dies[i].offset {
                return Err(Error::MalformedTree);
            }
            i += 1;
        }
        Ok(Unit { dies, address_size, addr_base })
    }

    /// The number of entries.
    pub fn len(&self) -> (n: usize)
        ensures
            n == self.dies().len(),
    {
        self.dies.len()
    }

    pub fn address_size(&self) -> (s: u8)
        ensures
            s == self.spec_address_size(),
    {
        self.address_size
    }

    pub fn addr_base(&self) -> (b: usize)
        ensures
            b == self.spec_addr_base(),
    {
        self.addr_base
    }

    /// The entry at index `i`.
    pub fn die(&self, i: usize) -> (d: &Die)
        requires
            i < self.dies().len(),
        ensures
            *d == self.dies()[i as int],
    {
        &self.dies[i]
    }

    /// Finds the entry at `offset`.
    pub fn find(&self, offset: usize) -> (r: Option<usize>)
        ensures
            match r {
                Some(i) => i < self.dies().len() && self.dies()[i as int].offset == offset
                    && self.index_of(offset) == Some(i as int),
                None => self.index_of(offset) is None,
            },
    {
        proof {
            use_type_invariant(self);
        }
        let mut lo: usize = 0;
        let mut hi: usize = self.dies.len();
        while lo < hi
            invariant
                lo <= hi <= self.dies.len(),
                offsets_increase(self.dies@),
                forall|k: int| 0 <= k < lo ==> self.dies[k].offset < offset,
                forall|k: int| hi <= k < self.dies.len() ==> self.dies[k].offset > offset,
            decreases hi - lo,
        {
            let mid = lo + (hi - lo) / 2;
            let at = self.dies[mid].offset;
            if at == offset {
                return Some(mid);
            } else if at < offset {
                lo = mid + 1;
            } else {
                hi = mid;
            }
        }
        None
    }

    /// The indices of the direct children of the entry at `i`, in the order
    /// of the walk.
    pub fn children(&self, i: usize) -> (r: Vec<usize>)
        requires
            i < self.dies().len(),
        ensures
            r.len() == children_of(self.dies(), i as int).len(),
            forall|k: int|
                0 <= k < r.len() ==> #[trigger] r[k] as int == children_of(self.dies(), i as int)[k],
            forall|k: int| 0 <= k < r.len() ==> i < #[trigger] r[k] < self.dies().len(),
    {
        let mut out: Vec<usize> = Vec::new();
        let n = self.dies.len();
        let mut j: usize = i + 1;
        let mut rel: i128 = 0;
        let ghost dies = self.dies@;
        proof {
            assert(out@.map_values(|c: usize| c as int) =~= Seq::<int>::empty());
        }
        while j < n
            invariant
                n == self.dies.len(),
                i < j <= self.dies.len(),
                dies == self.dies@,
                -(j - i - 1) * 0x8000_0000_0000_0000 <= rel <= (j - i - 1) * 0x8000_0000_0000_0000,
                out@.map_values(|c: usize| c as int) + children_from(dies, j as int, rel as int)
                    == children_of(dies, i as int),
                forall|k: int| 0 <= k < out.len() ==> i < #[trigger] out[k] < dies.len(),
            decreases self.dies.len() - j,
        {
            let r: i128 = rel + self.dies[j].delta_depth as i128;
            if r <= 0 {
                proof {
                    assert(children_from(dies, j as int, rel as int) =~= Seq::<int>::empty());
                    assert(out@.map_values(|c: usize| c as int) + Seq::<int>::empty()
                        =~= out@.map_values(|c: usize| c as int));
                }
                return out;
            }
            if r == 1 {
                let ghost before = out@.map_values(|c: usize| c as int);
                out.push(j);
                proof {
                    assert(out@.map_values(|c: usize| c as int) =~= before + seq![j as int]);
                    assert(before + (seq![j as int] + children_from(dies, j + 1, r as int))
                        =~= (before + seq![j as int]) + children_from(dies, j + 1, r as int));
                }
            }
            rel = r;
            j += 1;
        }
        proof {
            assert(children_from(dies, j as int, rel as int) =~= Seq::<int>::empty());
            assert(out@.map_values(|c: usize| c as int) + Seq::<int>::empty() =~= out@.map_values(
                |c: usize| c as int,
            ));
        }
        out
    }
}

} // verus!
