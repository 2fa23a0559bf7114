//! The walk over the entries of one unit, which tracks the enclosing
//! scopes and records the functions it meets.

use vstd::prelude::*;
use crate::attrs::Sections;
use crate::builder::{opt_text, named_keys, BuilderView, DebugInfoBuilder, Sighting};
use crate::cursor::CursorView;
use crate::die::{children_of, depth_at, encloses, Tag, Unit};
use crate::error::Error;
use crate::names::{
    canonical_declaration, get_base_entry, get_name, get_raw_name, get_start_address, raw_name,
    resolved_name, start_address,
};
use crate::namespace::{pruned, qualified_name, recover_full_name, NamespaceStack};
use crate::resolver::{resolve, resolve_entry};

verus! {

/// The named parameters with resolved types among the children `kids`
/// from position `k` on, after `acc`, each with the key of its type; and
/// the state after those children.
pub open spec fn parameters_from(
    strings: CursorView,
    unit: &Unit,
    st: BuilderView,
    kids: Seq<int>,
    k: int,
    acc: Seq<(Seq<char>, usize)>,
) -> (Result<Seq<(Seq<char>, usize)>, Error>, BuilderView)
    decreases kids.len() - k,
{
    if k < 0 || k >= kids.len() {
        (Ok(acc), st)
    } else {
        let c = kids[k];
        if unit.dies()[c].tag == Tag::FormalParameter {
            match resolved_name(strings, unit, c) {
                Err(e) => (Err(e), st),
                Ok(name) => {
                    let (resolved, st1) = resolve(strings, unit, st, c, st.depth_limit);
                    match resolved {
                        Err(e) => (Err(e), st1),
                        Ok(type_key) => parameters_from(
                            strings,
                            unit,
                            st1,
                            kids,
                            k + 1,
                            match (name, type_key) {
                                (Some(name), Some(type_key)) => acc.push((name, type_key)),
                                _ => acc,
                            },
                        ),
                    }
                },
            }
        } else {
            parameters_from(strings, unit, st, kids, k + 1, acc)
        }
    }
}

/// Recording the function that the entry at `i` describes, met inside the
/// scopes on `stack`.
///
/// What the entry says of the function, its names, its return type, its
/// address and its parameters, is merged into the record under the key of
/// its canonical declaration. The scopes shape the qualified name only,
/// never the key.
pub open spec fn function_entry(
    sections: (CursorView, CursorView),
    unit: &Unit,
    stack: Seq<(int, Seq<char>)>,
    st: BuilderView,
    i: int,
) -> (Result<(), Error>, BuilderView) {
    let (strings, addresses) = sections;
    let die = unit.dies()[i];
    match resolved_name(strings, unit, i) {
        Err(e) => (Err(e), st),
        Ok(short_name) => {
            let (return_type, st1) = resolve(strings, unit, st, i, st.depth_limit);
            match return_type {
                Err(e) => (Err(e), st1),
                Ok(return_type) => {
                    let (parameters, st2) = parameters_from(
                        strings,
                        unit,
                        st1,
                        children_of(unit.dies(), i),
                        0,
                        Seq::empty(),
                    );
                    match parameters {
                        Err(e) => (Err(e), st2),
                        Ok(parameters) => match canonical_declaration(unit, i) {
                            Err(e) => (Err(e), st2),
                            Ok(base) => (
                                Ok(()),
                                st2.insert_function(
                                    unit.dies()[base].offset,
                                    Sighting {
                                        short_name,
                                        full_name: qualified_name(stack, short_name),
                                        raw_name: raw_name(strings, &die),
                                        return_type,
                                        address: start_address(addresses, unit, &die),
                                        parameters: Some(parameters),
                                    },
                                ),
                            ),
                        },
                    }
                },
            }
        },
    }
}

/// The walk from the entry at `i` on, when the entry before it lies at
/// `depth` inside the scopes on `stack`.
///
/// The depth of each entry is the depth before it plus its own change. A
/// negative depth ends the walk: the tree is malformed. Before an entry
/// is looked at, the scopes entered at its depth or deeper are dropped.
/// A namespace, class or structure with a name is entered as a scope, a
/// subprogram is recorded as a function, and every other entry is passed
/// over.
pub open spec fn walk_from(
    sections: (CursorView, CursorView),
    unit: &Unit,
    st: BuilderView,
    stack: Seq<(int, Seq<char>)>,
    depth: int,
    i: int,
) -> (Result<(), Error>, BuilderView)
    decreases unit.dies().len() - i,
{
    if i < 0 || i >= unit.dies().len() {
        (Ok(()), st)
    } else {
        let die = unit.dies()[i];
        let depth = depth + die.delta_depth;
        if depth < 0 {
            (Err(Error::MalformedTree), st)
        } else {
            let stack = pruned(stack, depth);
            if die.tag.spec_is_scope() {
                match resolved_name(sections.0, unit, i) {
                    Err(e) => (Err(e), st),
                    Ok(Some(name)) => walk_from(
                        sections,
                        unit,
                        st,
                        stack.push((depth, name)),
                        depth,
                        i + 1,
                    ),
                    Ok(None) => walk_from(sections, unit, st, stack, depth, i + 1),
                }
            } else if die.tag == Tag::Subprogram {
                let (recorded, st1) = function_entry(sections, unit, stack, st, i);
                match recorded {
                    Err(e) => (Err(e), st1),
                    Ok(_) => walk_from(sections, unit, st1, stack, depth, i + 1),
                }
            } else {
                walk_from(sections, unit, st, stack, depth, i + 1)
            }
        }
    }
}

/// The walk over a whole unit. Its first entry is the unit's own header,
/// which only sets the depth from which the walk starts.
pub open spec fn walk(sections: (CursorView, CursorView), unit: &Unit, st: BuilderView) -> (
    Result<(), Error>,
    BuilderView,
) {
    if unit.dies().len() == 0 {
        (Ok(()), st)
    } else {
        walk_from(sections, unit, st, Seq::empty(), unit.dies()[0].delta_depth as int, 1)
    }
}

/// Collects the named parameters with resolved types among the children
/// of the entry at `i`.
#[verifier::loop_isolation(false)]
pub fn get_parameters(sections: &Sections, unit: &Unit, i: usize, builder: &mut DebugInfoBuilder) -> (r:
    Result<Vec<(String, usize)>, Error>)
    requires
        i < unit.dies().len(),
        old(builder).wf(),
    ensures
        final(builder).wf(),
        old(builder)@.extends_to(final(builder)@),
        final(builder)@ == parameters_from(
            sections.debug_str@,
            unit,
            old(builder)@,
            children_of(unit.dies(), i as int),
            0,
            Seq::empty(),
        ).1,
        match (r, parameters_from(
            sections.debug_str@,
            unit,
            old(builder)@,
            children_of(unit.dies(), i as int),
            0,
            Seq::empty(),
        ).0) {
            (Ok(list), Ok(expected)) => named_keys(list@) == expected,
            (Err(e), Err(expected)) => e == expected,
            _ => false,
        },
{
    let ghost st = builder@;
    let ghost strings = sections.debug_str@;
    let ghost all = children_of(unit.dies(), i as int);
    let kids = unit.children(i);
    let mut result: Vec<(String, usize)> = Vec::new();
    let mut k: usize = 0;
    proof {
        assert(named_keys(result@) =~= Seq::<(Seq<char>, usize)>::empty());
    }
    while k < kids.len()
        invariant
            k <= kids.len(),
            builder.wf(),
            st.extends_to(builder@),
            parameters_from(strings, unit, builder@, all, k as int, named_keys(result@))
                == parameters_from(strings, unit, st, all, 0, Seq::empty()),
        decreases kids.len() - k,
    {
        let c = kids[k];
        let ghost before = builder@;
        proof {
            assert(all[k as int] == c as int);
        }
        if unit.die(c).tag == Tag::FormalParameter {
            match get_name(sections, unit, c) {
                Err(e) => {
                    return Err(e);
                },
                Ok(name) => {
                    let fuel = builder.depth_limit();
                    let resolved = resolve_entry(sections, unit, c, builder, fuel);
                    proof {
                        st.lemma_extends_transitive(before, builder@);
                    }
                    match resolved {
                        Err(e) => {
                            return Err(e);
                        },
                        Ok(type_key) => match (name, type_key) {
                            (Some(name), Some(type_key)) => {
                                let ghost view = named_keys(result@);
                                result.push((name, type_key));
                                proof {
                                    assert(named_keys(result@) =~= view.push((name@, type_key)));
                                }
                            },
                            _ => {},
                        },
                    }
                },
            }
        }
        k += 1;
    }
    Ok(result)
}

/// Records the function that the entry at `i` describes.
pub fn parse_function_entry(
    sections: &Sections,
    unit: &Unit,
    i: usize,
    namespace_qualifiers: &NamespaceStack,
    builder: &mut DebugInfoBuilder,
) -> (r: Result<(), Error>)
    requires
        i < unit.dies().len(),
        old(builder).wf(),
    ensures
        final(builder).wf(),
        (r, final(builder)@) == function_entry(
            (sections.debug_str@, sections.debug_addr@),
            unit,
            namespace_qualifiers@,
            old(builder)@,
            i as int,
        ),
        old(builder)@.keeps(final(builder)@),
{
    let ghost st = builder@;
    let die = unit.die(i);
    let short_name = match get_name(sections, unit, i) {
        Err(e) => {
            return Err(e);
        },
        Ok(name) => name,
    };
    let full_name = recover_full_name(&short_name, namespace_qualifiers);
    let raw_name = get_raw_name(sections, die);
    let fuel = builder.depth_limit();
    let return_type = match resolve_entry(sections, unit, i, builder, fuel) {
        Err(e) => {
            return Err(e);
        },
        Ok(return_type) => return_type,
    };
    let ghost st1 = builder@;
    let address = get_start_address(sections, unit, die);
    let parameters = match get_parameters(sections, unit, i, builder) {
        Err(e) => {
            return Err(e);
        },
        Ok(parameters) => parameters,
    };
    let ghost st2 = builder@;
    proof {
        st.lemma_keeps_transitive(st1, st2);
    }
    let base = match get_base_entry(unit, i) {
        Err(e) => {
            return Err(e);
        },
        Ok(base) => base,
    };
    proof {
        st2.lemma_insert_function_keeps(
            unit.dies()[base as int].offset,
            crate::builder::sighting(
                short_name,
                full_name,
                raw_name,
                return_type,
                address,
                Some(parameters),
            ),
        );
        st.lemma_keeps_transitive(
            st2,
            st2.insert_function(
                unit.dies()[base as int].offset,
                crate::builder::sighting(
                    short_name,
                    full_name,
                    raw_name,
                    return_type,
                    address,
                    Some(parameters),
                ),
            ),
        );
    }
    builder.insert_function(
        unit.die(base).offset,
        short_name,
        full_name,
        raw_name,
        return_type,
        address,
        Some(parameters),
    );
    Ok(())
}

/// Walks the entries of one unit.
#[verifier::loop_isolation(false)]
pub fn parse_unit(sections: &Sections, unit: &Unit, builder: &mut DebugInfoBuilder) -> (r: Result<
    (),
    Error,
>)
    requires
        old(builder).wf(),
    ensures
        final(builder).wf(),
        (r, final(builder)@) == walk(
            (sections.debug_str@, sections.debug_addr@),
            unit,
            old(builder)@,
        ),
        old(builder)@.keeps(final(builder)@),
{
    let n = unit.len();
    if n == 0 {
        return Ok(());
    }
    let ghost tables = (sections.debug_str@, sections.debug_addr@);
    let ghost st = builder@;
    let mut namespace_qualifiers = NamespaceStack::new();
    let mut depth: i128 = unit.die(0).delta_depth as i128;
    let mut i: usize = 1;
    while i < n
        invariant
            1 <= i <= n,
            builder.wf(),
            st.keeps(builder@),
            -i * 0x8000_0000_0000_0000 <= depth <= i * 0x8000_0000_0000_0000,
            walk_from(tables, unit, builder@, namespace_qualifiers@, depth as int, i as int)
                == walk(tables, unit, st),
        decreases n - i,
    {
        let die = unit.die(i);
        depth = depth + die.delta_depth as i128;
        if depth < 0 {
            return Err(Error::MalformedTree);
        }
        namespace_qualifiers.prune(depth);
        if die.tag.is_scope() {
            match get_name(sections, unit, i) {
                Err(e) => {
                    return Err(e);
                },
                Ok(Some(name)) => {
                    namespace_qualifiers.push(depth, name);
                },
                Ok(None) => {},
            }
        } else if die.tag == Tag::Subprogram {
            let ghost before = builder@;
            let recorded = parse_function_entry(sections, unit, i, &namespace_qualifiers, builder);
            proof {
                st.lemma_keeps_transitive(before, builder@);
            }
            match recorded {
                Err(e) => {
                    return Err(e);
                },
                Ok(_) => {},
            }
        }
        i += 1;
    }
    Ok(())
}

/// The scopes around a function shape its qualified name and nothing
/// else: whatever the scopes, the walk ends the same, resolves the same
/// types, and records the function under the same key.
pub proof fn lemma_scopes_shape_names_only(
    sections: (CursorView, CursorView),
    unit: &Unit,
    one: Seq<(int, Seq<char>)>,
    other: Seq<(int, Seq<char>)>,
    st: BuilderView,
    i: int,
)
    ensures
        ({
            let (r1, a1) = function_entry(sections, unit, one, st, i);
            let (r2, a2) = function_entry(sections, unit, other, st, i);
            &&& r1 == r2
            &&& a1.types == a2.types
            &&& a1.requests == a2.requests
            &&& a1.functions.len() == a2.functions.len()
            &&& forall|k: int|
                0 <= k < a1.functions.len() ==> (#[trigger] a1.functions[k]).key
                    == a2.functions[k].key
        }),
{
}

/// The name under which the entry at `n` qualifies what it encloses, if
/// it is a scope and has a name.
pub open spec fn scope_name(strings: CursorView, unit: &Unit, n: int) -> Option<Seq<char>> {
    if unit.dies()[n].tag.spec_is_scope() {
        match resolved_name(strings, unit, n) {
            Ok(Some(name)) => Some(name),
            _ => None,
        }
    } else {
        None
    }
}

/// The named scopes among the entries from the first after the header up
/// to `n` that enclose the entry at `i`, outermost first, each with its
/// depth.
pub open spec fn enclosing_scopes(strings: CursorView, unit: &Unit, i: int, n: int) -> Seq<
    (int, Seq<char>),
>
    decreases n,
{
    if n < 1 {
        Seq::empty()
    } else {
        let rest = enclosing_scopes(strings, unit, i, n - 1);
        if encloses(unit.dies(), n, i) && scope_name(strings, unit, n) is Some {
            rest.push((depth_at(unit.dies(), n), scope_name(strings, unit, n)->0))
        } else {
            rest
        }
    }
}

/// The stack of scopes when the walk has looked at the entry at `i`: the
/// named scopes that enclose it, and the entry itself if it is one.
pub open spec fn scopes_after(strings: CursorView, unit: &Unit, i: int) -> Seq<(int, Seq<char>)> {
    let around = enclosing_scopes(strings, unit, i, i - 1);
    if i >= 1 && scope_name(strings, unit, i) is Some {
        around.push((depth_at(unit.dies(), i), scope_name(strings, unit, i)->0))
    } else {
        around
    }
}

/// The walk from the entry at `i` on, with the scopes of each entry looked
/// up afresh: each function is recorded inside exactly the named scopes
/// that enclose its entry.
pub open spec fn walk_scoped(
    sections: (CursorView, CursorView),
    unit: &Unit,
    st: BuilderView,
    i: int,
) -> (Result<(), Error>, BuilderView)
    decreases unit.dies().len() - i,
{
    if i < 1 || i >= unit.dies().len() {
        (Ok(()), st)
    } else {
        let die = unit.dies()[i];
        if depth_at(unit.dies(), i) < 0 {
            (Err(Error::MalformedTree), st)
        } else if die.tag.spec_is_scope() {
            match resolved_name(sections.0, unit, i) {
                Err(e) => (Err(e), st),
                Ok(_) => walk_scoped(sections, unit, st, i + 1),
            }
        } else if die.tag == Tag::Subprogram {
            let (recorded, st1) = function_entry(
                sections,
                unit,
                enclosing_scopes(sections.0, unit, i, i - 1),
                st,
                i,
            );
            match recorded {
                Err(e) => (Err(e), st1),
                Ok(_) => walk_scoped(sections, unit, st1, i + 1),
            }
        } else {
            walk_scoped(sections, unit, st, i + 1)
        }
    }
}

/// Pruning the scopes that enclose one entry at the depth of the next
/// leaves the scopes that enclose the next.
proof fn lemma_prune_enclosing(strings: CursorView, unit: &Unit, i: int, n: int)
    requires
        1 <= i < unit.dies().len(),
        0 <= n <= i - 2,
    ensures
        pruned(enclosing_scopes(strings, unit, i - 1, n), depth_at(unit.dies(), i))
            == enclosing_scopes(strings, unit, i, n),
    decreases n,
{
    let dies = unit.dies();
    let d = depth_at(dies, i);
    if n >= 1 {
        lemma_prune_enclosing(strings, unit, i, n - 1);
        let rest = enclosing_scopes(strings, unit, i - 1, n - 1);
        assert(encloses(dies, n, i) <==> encloses(dies, n, i - 1) && depth_at(dies, n) < d) by {
            if encloses(dies, n, i) {
                assert(depth_at(dies, i) > depth_at(dies, n));
            }
        }
        if encloses(dies, n, i - 1) && scope_name(strings, unit, n) is Some {
            let e = (depth_at(dies, n), scope_name(strings, unit, n)->0);
            assert(rest.push(e).drop_last() =~= rest);
        }
    }
}

/// When the walk comes to an entry, the scopes left on its stack are
/// exactly the named scopes that enclose the entry.
pub proof fn lemma_stack_is_enclosing_scopes(strings: CursorView, unit: &Unit, i: int)
    requires
        1 <= i < unit.dies().len(),
    ensures
        pruned(scopes_after(strings, unit, i - 1), depth_at(unit.dies(), i)) == enclosing_scopes(
            strings,
            unit,
            i,
            i - 1,
        ),
{
    let dies = unit.dies();
    let d = depth_at(dies, i);
    if i >= 2 {
        lemma_prune_enclosing(strings, unit, i, i - 2);
        let around = enclosing_scopes(strings, unit, i - 1, i - 2);
        assert(encloses(dies, i - 1, i) <==> depth_at(dies, i - 1) < d) by {
            if depth_at(dies, i - 1) < d {
                assert forall|k: int| i - 1 < k <= i implies #[trigger] depth_at(dies, k)
                    > depth_at(dies, i - 1) by {
                    assert(k == i);
                }
            }
        }
        if scope_name(strings, unit, i - 1) is Some {
            let e = (depth_at(dies, i - 1), scope_name(strings, unit, i - 1)->0);
            assert(around.push(e).drop_last() =~= around);
        }
    } else {
        assert(scopes_after(strings, unit, 0) =~= Seq::<(int, Seq<char>)>::empty());
    }
}

/// The walk that threads its stack from entry to entry is the walk that
/// looks up the enclosing scopes of each entry afresh.
pub proof fn lemma_walk_from_is_scoped(
    sections: (CursorView, CursorView),
    unit: &Unit,
    st: BuilderView,
    i: int,
)
    requires
        1 <= i <= unit.dies().len(),
    ensures
        walk_from(
            sections,
            unit,
            st,
            scopes_after(sections.0, unit, i - 1),
            depth_at(unit.dies(), i - 1),
            i,
        ) == walk_scoped(sections, unit, st, i),
    decreases unit.dies().len() - i,
{
    let dies = unit.dies();
    if i < dies.len() {
        let die = dies[i];
        let depth = depth_at(dies, i);
        assert(depth == depth_at(dies, i - 1) + die.delta_depth);
        if depth >= 0 {
            lemma_stack_is_enclosing_scopes(sections.0, unit, i);
            let stack = enclosing_scopes(sections.0, unit, i, i - 1);
            if die.tag.spec_is_scope() {
                match resolved_name(sections.0, unit, i) {
                    Err(_) => {},
                    Ok(_) => lemma_walk_from_is_scoped(sections, unit, st, i + 1),
                }
            } else if die.tag == Tag::Subprogram {
                let (recorded, st1) = function_entry(sections, unit, stack, st, i);
                if recorded is Ok {
                    lemma_walk_from_is_scoped(sections, unit, st1, i + 1);
                }
            } else {
                lemma_walk_from_is_scoped(sections, unit, st, i + 1);
            }
        }
    }
}

/// Every function that the walk records is recorded inside exactly the
/// named namespaces, classes and structures that enclose its entry.
pub proof fn lemma_walk_is_scoped(sections: (CursorView, CursorView), unit: &Unit, st: BuilderView)
    ensures
        walk(sections, unit, st) == walk_scoped(sections, unit, st, 1),
{
    if unit.dies().len() > 0 {
        assert(scopes_after(sections.0, unit, 0) =~= Seq::<(int, Seq<char>)>::empty());
        lemma_walk_from_is_scoped(sections, unit, st, 1);
    }
}

} // verus!
