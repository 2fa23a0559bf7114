//! Names and canonical declarations, found by following the links from an
//! entry to the entry that it completes.

use vstd::prelude::*;
use crate::attrs::{attr_address, attr_string, same_name, Sections};
use crate::cursor::CursorView;
use crate::die::{At, Die, Unit};
use crate::error::Error;

verus! {

/// The entry in which the chain of back links that starts at `i` ends,
/// followed for at most `fuel` links.
pub open spec fn canonical_from(unit: &Unit, i: int, fuel: nat) -> Result<int, Error>
    decreases fuel,
{
    match unit.dies()[i].spec_back_link() {
        None => Ok(i),
        Some(offset) => match unit.index_of(offset) {
            None => Err(Error::MalformedTree),
            Some(j) => if fuel == 0 {
                Err(Error::MalformedTree)
            } else {
                canonical_from(unit, j, (fuel - 1) as nat)
            },
        },
    }
}

/// The canonical declaration of the entry at `i`: the entry itself where
/// it has no back link, and otherwise the canonical declaration of the
/// entry that it completes. A link to no entry makes the tree malformed,
/// and so does a chain of more links than the unit has entries, which
/// can only be a cycle.
pub open spec fn canonical_declaration(unit: &Unit, i: int) -> Result<int, Error> {
    canonical_from(unit, i, unit.dies().len())
}

/// The name of the entry at `i`, looked for along at most `fuel` back
/// links.
pub open spec fn name_from(strings: CursorView, unit: &Unit, i: int, fuel: nat) -> Result<
    Option<Seq<char>>,
    Error,
>
    decreases fuel,
{
    let die = unit.dies()[i];
    match die.spec_attr(At::Name) {
        Some(value) => match attr_string(strings, value) {
            Ok(text) => Ok(Some(text)),
            Err(_) => Ok(None),
        },
        None => match die.spec_back_link() {
            None => Ok(None),
            Some(offset) => match unit.index_of(offset) {
                None => Err(Error::MalformedTree),
                Some(j) => if fuel == 0 {
                    Err(Error::MalformedTree)
                } else {
                    name_from(strings, unit, j, (fuel - 1) as nat)
                },
            },
        },
    }
}

/// The name of the entry at `i`: the text of its own name attribute where
/// it has one (no name where that is not text), and otherwise the name of
/// the entry that it completes.
pub open spec fn resolved_name(strings: CursorView, unit: &Unit, i: int) -> Result<
    Option<Seq<char>>,
    Error,
> {
    name_from(strings, unit, i, unit.dies().len())
}

/// The name under which the linker knows the entry.
pub open spec fn raw_name(strings: CursorView, die: &Die) -> Option<Seq<char>> {
    match die.spec_attr(At::LinkageName) {
        Some(value) => match attr_string(strings, value) {
            Ok(text) => Some(text),
            Err(_) => None,
        },
        None => None,
    }
}

/// The address at which the entry's code starts: its low address where it
/// has the attribute, and otherwise its entry address.
pub open spec fn start_address(addresses: CursorView, unit: &Unit, die: &Die) -> Option<u64> {
    match die.spec_attr(At::LowPc) {
        Some(value) => match attr_address(addresses, unit, value) {
            Ok(Some(address)) => Some(address),
            _ => None,
        },
        None => match die.spec_attr(At::EntryPc) {
            Some(value) => match attr_address(addresses, unit, value) {
                Ok(Some(address)) => Some(address),
                _ => None,
            },
            None => None,
        },
    }
}

/// A canonical declaration completes no other entry, so it is its own
/// canonical declaration.
pub proof fn lemma_canonical_is_a_fixed_point(unit: &Unit, i: int, fuel: nat)
    requires
        0 <= i < unit.dies().len(),
    ensures
        match canonical_from(unit, i, fuel) {
            Ok(j) => 0 <= j < unit.dies().len() && unit.dies()[j].spec_back_link() is None
                && canonical_declaration(unit, j) == Ok::<int, Error>(j),
            Err(_) => true,
        },
    decreases fuel,
{
    match unit.dies()[i].spec_back_link() {
        None => {},
        Some(offset) => match unit.index_of(offset) {
            None => {},
            Some(j) => {
                if fuel > 0 {
                    lemma_canonical_is_a_fixed_point(unit, j, (fuel - 1) as nat);
                }
            },
        },
    }
}

/// A definition that completes a declaration has the declaration as its
/// canonical declaration, as the declaration itself has; and where it
/// has no name attribute of its own, it has the declaration's name.
pub proof fn lemma_definition_goes_by_its_declaration(
    strings: CursorView,
    unit: &Unit,
    definition: int,
    declaration: int,
)
    requires
        0 <= definition < unit.dies().len(),
        0 <= declaration < unit.dies().len(),
        unit.dies()[definition].spec_back_link() is Some,
        unit.index_of(unit.dies()[definition].spec_back_link()->0) == Some(declaration),
        unit.dies()[declaration].spec_back_link() is None,
    ensures
        canonical_declaration(unit, definition) == Ok::<int, Error>(declaration),
        canonical_declaration(unit, declaration) == Ok::<int, Error>(declaration),
        unit.dies()[definition].spec_attr(At::Name) is None ==> resolved_name(
            strings,
            unit,
            definition,
        ) == resolved_name(strings, unit, declaration),
{
    let n = unit.dies().len();
    assert(canonical_from(unit, declaration, (n - 1) as nat) == Ok::<int, Error>(declaration));
    if unit.dies()[definition].spec_attr(At::Name) is None {
        let m = (n - 1) as nat;
        assert(name_from(strings, unit, definition, n) == name_from(
            strings,
            unit,
            declaration,
            m,
        ));
        assert(name_from(strings, unit, declaration, m) == name_from(
            strings,
            unit,
            declaration,
            n,
        ));
    }
}

/// Whether a name lookup that can fail ended as it is defined to end.
pub open spec fn same_name_result(
    r: Result<Option<String>, Error>,
    expected: Result<Option<Seq<char>>, Error>,
) -> bool {
    match (r, expected) {
        (Ok(name), Ok(text)) => same_name(name, text),
        (Err(e), Err(f)) => e == f,
        _ => false,
    }
}

/// Finds the canonical declaration of the entry at `i`.
pub fn get_base_entry(unit: &Unit, i: usize) -> (r: Result<usize, Error>)
    requires
        i < unit.dies().len(),
    ensures
        match r {
            Ok(j) => j < unit.dies().len() && canonical_declaration(unit, i as int) == Ok::<
                int,
                Error,
            >(j as int),
            Err(e) => canonical_declaration(unit, i as int) == Err::<int, Error>(e),
        },
{
    let mut cur = i;
    let mut fuel = unit.len();
    loop
        invariant
            cur < unit.dies().len(),
            canonical_from(unit, cur as int, fuel as nat) == canonical_declaration(unit, i as int),
        decreases fuel,
    {
        match unit.die(cur).back_link() {
            None => {
                return Ok(cur);
            },
            Some(offset) => match unit.find(offset) {
                None => {
                    return Err(Error::MalformedTree);
                },
                Some(j) => {
                    if fuel == 0 {
                        return Err(Error::MalformedTree);
                    }
                    fuel -= 1;
                    cur = j;
                },
            },
        }
    }
}

/// Finds the name of the entry at `i`, its own or that of the entry it
/// completes.
pub fn get_name(sections: &Sections, unit: &Unit, i: usize) -> (r: Result<Option<String>, Error>)
    requires
        i < unit.dies().len(),
    ensures
        same_name_result(r, resolved_name(sections.debug_str@, unit, i as int)),
{
    let mut cur = i;
    let mut fuel = unit.len();
    loop
        invariant
            cur < unit.dies().len(),
            name_from(sections.debug_str@, unit, cur as int, fuel as nat) == resolved_name(
                sections.debug_str@,
                unit,
                i as int,
            ),
        decreases fuel,
    {
        let die = unit.die(cur);
        match die.attr(At::Name) {
            Some(value) => {
                return match sections.attr_string(value) {
                    Ok(text) => Ok(Some(text)),
                    Err(_) => Ok(None),
                };
            },
            None => match die.back_link() {
                None => {
                    return Ok(None);
                },
                Some(offset) => match unit.find(offset) {
                    None => {
                        return Err(Error::MalformedTree);
                    },
                    Some(j) => {
                        if fuel == 0 {
                            return Err(Error::MalformedTree);
                        }
                        fuel -= 1;
                        cur = j;
                    },
                },
            },
        }
    }
}

/// Reads the name under which the linker knows the entry.
pub fn get_raw_name(sections: &Sections, die: &Die) -> (r: Option<String>)
    ensures
        same_name(r, raw_name(sections.debug_str@, die)),
{
    match die.attr(At::LinkageName) {
        Some(value) => match sections.attr_string(value) {
            Ok(text) => Some(text),
            Err(_) => None,
        },
        None => None,
    }
}

/// Reads the address at which the entry's code starts.
pub fn get_start_address(sections: &Sections, unit: &Unit, die: &Die) -> (r: Option<u64>)
    ensures
        r == start_address(sections.debug_addr@, unit, die),
{
    match die.attr(At::LowPc) {
        Some(value) => match sections.attr_address(unit, value) {
            Ok(Some(address)) => Some(address),
            _ => None,
        },
        None => match die.attr(At::EntryPc) {
            Some(value) => match sections.attr_address(unit, value) {
                Ok(Some(address)) => Some(address),
                _ => None,
            },
            None => None,
        },
    }
}

} // verus!
