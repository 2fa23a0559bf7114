//! Typed values out of the attributes of an entry.

use vstd::prelude::*;
use crate::cursor::{Cursor, CursorView};
use crate::die::{At, AttrValue, Attribute, Die, Unit};
use crate::error::Error;
use crate::text::{decode_text, text_of};

verus! {

/// The value of the first attribute with the identifier `at`.
pub open spec fn find_attr(attrs: Seq<Attribute>, at: At) -> Option<AttrValue>
    decreases attrs.len(),
{
    if attrs.len() == 0 {
        None
    } else if attrs[0].at == at {
        Some(attrs[0].value)
    } else {
        find_attr(attrs.drop_first(), at)
    }
}

impl AttrValue {
    /// The value as an unsigned number. Every unsigned constant is its own
    /// value; a signed constant is its value where that is not negative,
    /// and the two's complement of it in 64 bits where it is.
    pub open spec fn spec_as_u64(&self) -> Option<u64> {
        match *self {
            AttrValue::Data1(v) => Some(v as u64),
            AttrValue::Data2(v) => Some(v as u64),
            AttrValue::Data4(v) => Some(v as u64),
            AttrValue::Data8(v) => Some(v),
            AttrValue::Udata(v) => Some(v),
            AttrValue::Sdata(v) => if v >= 0 {
                Some(v as u64)
            } else {
                Some((v + 0x1_0000_0000_0000_0000) as u64)
            },
            _ => None,
        }
    }

    /// The value as a `usize`, cut to the width of `usize` where it is
    /// wider.
    pub open spec fn spec_as_usize(&self) -> Option<usize> {
        match self.spec_as_u64() {
            Some(v) => Some(v as usize),
            None => None,
        }
    }

    /// The offset that the value refers to, where it is a reference into
    /// the same unit.
    pub open spec fn spec_unit_ref(&self) -> Option<usize> {
        match *self {
            AttrValue::UnitRef(offset) => Some(offset),
            _ => None,
        }
    }

    pub fn as_u64(&self) -> (r: Option<u64>)
        ensures
            r == self.spec_as_u64(),
    {
        match *self {
            AttrValue::Data1(v) => Some(v as u64),
            AttrValue::Data2(v) => Some(v as u64),
            AttrValue::Data4(v) => Some(v as u64),
            AttrValue::Data8(v) => Some(v),
            AttrValue::Udata(v) => Some(v),
            AttrValue::Sdata(v) => if v >= 0 {
                Some(v as u64)
            } else {
                Some(u64::MAX - ((-(v + 1)) as u64))
            },
            _ => None,
        }
    }

    pub fn as_usize(&self) -> (r: Option<usize>)
        ensures
            r == self.spec_as_usize(),
    {
        match self.as_u64() {
            Some(v) => Some(
                #[verifier::truncate]
                (v as usize),
            ),
            None => None,
        }
    }

    pub fn unit_ref(&self) -> (r: Option<usize>)
        ensures
            r == self.spec_unit_ref(),
    {
        match *self {
            AttrValue::UnitRef(offset) => Some(offset),
            _ => None,
        }
    }
}

impl Die {
    /// The value of the attribute `at`, if the entry has one.
    pub open spec fn spec_attr(&self, at: At) -> Option<AttrValue> {
        find_attr(self.attrs@, at)
    }

    /// The offset that the attribute `at` refers to, where the entry has
    /// the attribute and it is a reference into the same unit.
    pub open spec fn spec_attr_ref(&self, at: At) -> Option<usize> {
        match self.spec_attr(at) {
            Some(value) => value.spec_unit_ref(),
            None => None,
        }
    }

    /// The size of the entry in bytes: its byte size where it declares one,
    /// and otherwise its bit size divided by eight, rounded down.
    pub open spec fn spec_size(&self) -> Option<u64> {
        match self.spec_attr(At::ByteSize) {
            Some(value) => value.spec_as_u64(),
            None => match self.spec_attr(At::BitSize) {
                Some(value) => match value.spec_as_u64() {
                    Some(bits) => Some(bits / 8),
                    None => None,
                },
                None => None,
            },
        }
    }

    /// The size of the entry as a `usize`, found as `spec_size` is.
    pub open spec fn spec_size_usize(&self) -> Option<usize> {
        match self.spec_attr(At::ByteSize) {
            Some(value) => value.spec_as_usize(),
            None => match self.spec_attr(At::BitSize) {
                Some(value) => match value.spec_as_usize() {
                    Some(bits) => Some(bits / 8),
                    None => None,
                },
                None => None,
            },
        }
    }

    /// The entry that this entry completes: the target of its
    /// specification, or else that of its abstract origin.
    pub open spec fn spec_back_link(&self) -> Option<usize> {
        match self.spec_attr_ref(At::Specification) {
            Some(offset) => Some(offset),
            None => self.spec_attr_ref(At::AbstractOrigin),
        }
    }

    /// Looks up the attribute `at`. Absence is no error.
    pub fn attr(&self, at: At) -> (r: Option<&AttrValue>)
        ensures
            match r {
                Some(value) => self.spec_attr(at) == Some(*value),
                None => self.spec_attr(at) is None,
            },
    {
        let mut i: usize = 0;
        assert(self.attrs@.skip(0) =~= self.attrs@);
        while i < self.attrs.len()
            invariant
                i <= self.attrs.len(),
                find_attr(self.attrs@.skip(i as int), at) == find_attr(self.attrs@, at),
            decreases self.attrs.len() - i,
        {
            if self.attrs[i].at == at {
                return Some(&self.attrs[i].value);
            }
            proof {
                assert(self.attrs@.skip(i as int).drop_first() =~= self.attrs@.skip(i + 1));
            }
            i += 1;
        }
        None
    }

    /// Looks up the attribute `at` and reads it as a reference into the
    /// same unit.
    pub fn attr_ref(&self, at: At) -> (r: Option<usize>)
        ensures
            r == self.spec_attr_ref(at),
    {
        match self.attr(at) {
            Some(value) => value.unit_ref(),
            None => None,
        }
    }

    pub fn size_as_u64(&self) -> (r: Option<u64>)
        ensures
            r == self.spec_size(),
    {
        match self.attr(At::ByteSize) {
            Some(value) => value.as_u64(),
            None => match self.attr(At::BitSize) {
                Some(value) => match value.as_u64() {
                    Some(bits) => Some(bits / 8),
                    None => None,
                },
                None => None,
            },
        }
    }

    pub fn size_as_usize(&self) -> (r: Option<usize>)
        ensures
            r == self.spec_size_usize(),
    {
        match self.attr(At::ByteSize) {
            Some(value) => value.as_usize(),
            None => match self.attr(At::BitSize) {
                Some(value) => match value.as_usize() {
                    Some(bits) => Some(bits / 8),
                    None => None,
                },
                None => None,
            },
        }
    }

    pub fn back_link(&self) -> (r: Option<usize>)
        ensures
            r == self.spec_back_link(),
    {
        match self.attr_ref(At::Specification) {
            Some(offset) => Some(offset),
            None => self.attr_ref(At::AbstractOrigin),
        }
    }
}

/// The tables that attribute values point into.
#[derive(Debug)]
pub struct Sections {
    /// The string table, from its start.
    pub debug_str: Cursor,
    /// The address table, from its start.
    pub debug_addr: Cursor,
}

/// The name under which a section is asked for. In a split file a section
/// goes by its split name, and a section without one is not asked for: it
/// is empty. Otherwise it goes by its ordinary name.
pub open spec fn section_to_load<'a>(dwo_file: bool, name: &'a str, dwo_name: Option<&'a str>) -> Option<
    &'a str,
> {
    if dwo_file {
        dwo_name
    } else {
        Some(name)
    }
}

/// Chooses the name under which a section is asked for, if it is asked
/// for at all.
pub fn section_name<'a>(dwo_file: bool, name: &'a str, dwo_name: Option<&'a str>) -> (r: Option<
    &'a str,
>)
    ensures
        r == section_to_load(dwo_file, name, dwo_name),
{
    if dwo_file {
        dwo_name
    } else {
        Some(name)
    }
}

/// The text that starts at `offset` in the string table and ends before
/// the next zero byte.
pub open spec fn string_at(table: CursorView, offset: usize) -> Result<Seq<char>, Error> {
    let (skipped, at) = table.skip(offset as nat);
    if skipped is Err {
        Err(Error::Truncated)
    } else {
        match at.find(0) {
            Err(e) => Err(e),
            Ok(d) => match text_of(at.remaining.take(d as int)) {
                Some(text) => Ok(text),
                None => Err(Error::InvalidEncoding),
            },
        }
    }
}

/// The text of a string-valued attribute, whether it is stored in the
/// entry or in the string table. A value of any other form is not text.
pub open spec fn attr_string(strings: CursorView, value: AttrValue) -> Result<Seq<char>, Error> {
    match value {
        AttrValue::String(bytes) => match text_of(bytes@) {
            Some(text) => Ok(text),
            None => Err(Error::InvalidEncoding),
        },
        AttrValue::StrRef(offset) => string_at(strings, offset),
        _ => Err(Error::InvalidEncoding),
    }
}

/// The address stored under `index` in the unit's part of the address
/// table.
pub open spec fn address_at(table: CursorView, unit: &Unit, index: usize) -> Result<u64, Error> {
    let start = unit.spec_addr_base() + index * unit.spec_address_size();
    if start > usize::MAX {
        Err(Error::Truncated)
    } else {
        let (skipped, at) = table.skip(start as nat);
        if skipped is Err {
            Err(Error::Truncated)
        } else {
            at.read_address(unit.spec_address_size()).0
        }
    }
}

/// The address that an attribute value stands for, whether it holds the
/// address or the index of one; a value of any other form stands for none.
pub open spec fn attr_address(addresses: CursorView, unit: &Unit, value: AttrValue) -> Result<
    Option<u64>,
    Error,
> {
    match value {
        AttrValue::Addr(address) => Ok(Some(address)),
        AttrValue::AddrIndex(index) => match address_at(addresses, unit, index) {
            Ok(address) => Ok(Some(address)),
            Err(e) => Err(e),
        },
        _ => Ok(None),
    }
}

/// Whether a text lookup ended as it is defined to end.
pub open spec fn same_text(r: Result<String, Error>, expected: Result<Seq<char>, Error>) -> bool {
    match (r, expected) {
        (Ok(s), Ok(text)) => s@ == text,
        (Err(e), Err(f)) => e == f,
        _ => false,
    }
}

/// Whether a name lookup found what it is defined to find.
pub open spec fn same_name(r: Option<String>, expected: Option<Seq<char>>) -> bool {
    match (r, expected) {
        (Some(s), Some(text)) => s@ == text,
        (None, None) => true,
        _ => false,
    }
}

impl Sections {
    /// Reads the text at `offset` in the string table.
    pub fn string_at(&self, offset: usize) -> (r: Result<String, Error>)
        ensures
            same_text(r, string_at(self.debug_str@, offset)),
    {
        let mut at = self.debug_str.clone();
        match at.skip(offset) {
            Err(_) => {
                return Err(Error::Truncated);
            },
            Ok(_) => {},
        }
        match at.find(0) {
            Err(e) => Err(e),
            Ok(d) => {
                match at.read_bytes(d) {
                    Ok(bytes) => decode_text(bytes.as_slice()),
                    Err(e) => Err(e),
                }
            },
        }
    }

    /// Reads a string-valued attribute.
    pub fn attr_string(&self, value: &AttrValue) -> (r: Result<String, Error>)
        ensures
            same_text(r, attr_string(self.debug_str@, *value)),
    {
        match value {
            AttrValue::String(bytes) => decode_text(bytes.as_slice()),
            AttrValue::StrRef(offset) => self.string_at(*offset),
            _ => Err(Error::InvalidEncoding),
        }
    }

    /// Reads the address stored under `index` in the unit's part of the
    /// address table.
    pub fn address_at(&self, unit: &Unit, index: usize) -> (r: Result<u64, Error>)
        ensures
            r == address_at(self.debug_addr@, unit, index),
    {
        let size = unit.address_size();
        let start = match index.checked_mul(size as usize) {
            Some(scaled) => match scaled.checked_add(unit.addr_base()) {
                Some(start) => start,
                None => {
                    return Err(Error::Truncated);
                },
            },
            None => {
                return Err(Error::Truncated);
            },
        };
        let mut at = self.debug_addr.clone();
        match at.skip(start) {
            Err(_) => Err(Error::Truncated),
            Ok(_) => at.read_address(size),
        }
    }

    /// Reads an address-valued attribute.
    pub fn attr_address(&self, unit: &Unit, value: &AttrValue) -> (r: Result<Option<u64>, Error>)
        ensures
            r == attr_address(self.debug_addr@, unit, *value),
    {
        match value {
            AttrValue::Addr(address) => Ok(Some(*address)),
            AttrValue::AddrIndex(index) => match self.address_at(unit, *index) {
                Ok(address) => Ok(Some(address)),
                Err(e) => Err(e),
            },
            _ => Ok(None),
        }
    }
}

} // verus!
