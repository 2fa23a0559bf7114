//! The names of the scopes that enclose the entry being visited.

use vstd::prelude::*;
use vstd::string::StringExecFns;

verus! {

/// What separates the name of a scope from a name inside it.
pub open spec fn scope_separator() -> Seq<char> {
    seq![':', ':']
}

/// The entries of the stack that were recorded above `depth`, in their
/// order.
pub open spec fn pruned(stack: Seq<(int, Seq<char>)>, depth: int) -> Seq<(int, Seq<char>)>
    decreases stack.len(),
{
    if stack.len() == 0 {
        Seq::empty()
    } else {
        let rest = pruned(stack.drop_last(), depth);
        if stack.last().0 < depth {
            rest.push(stack.last())
        } else {
            rest
        }
    }
}

/// The names on the stack in stack order, each followed by the scope
/// separator.
pub open spec fn scope_prefix(stack: Seq<(int, Seq<char>)>) -> Seq<char>
    decreases stack.len(),
{
    if stack.len() == 0 {
        Seq::empty()
    } else {
        scope_prefix(stack.drop_last()) + stack.last().1 + scope_separator()
    }
}

/// The fully qualified name of an entity inside the scopes on the stack.
/// An entity without a name of its own has no qualified name.
pub open spec fn qualified_name(stack: Seq<(int, Seq<char>)>, name: Option<Seq<char>>) -> Option<
    Seq<char>,
> {
    match name {
        Some(name) => Some(scope_prefix(stack) + name),
        None => None,
    }
}

/// After pruning at `depth` every entry left was recorded above `depth`,
/// every such entry is left, and pruning again changes nothing.
pub proof fn lemma_pruned(stack: Seq<(int, Seq<char>)>, depth: int)
    ensures
        pruned(stack, depth).len() <= stack.len(),
        forall|i: int|
            0 <= i < pruned(stack, depth).len() ==> (#[trigger] pruned(stack, depth)[i]).0 < depth,
        (forall|i: int| 0 <= i < stack.len() ==> (#[trigger] stack[i]).0 < depth) ==> pruned(
            stack,
            depth,
        ) == stack,
        pruned(pruned(stack, depth), depth) == pruned(stack, depth),
    decreases stack.len(),
{
    if stack.len() > 0 {
        lemma_pruned(stack.drop_last(), depth);
        let rest = pruned(stack.drop_last(), depth);
        if stack.last().0 < depth {
            assert(rest.push(stack.last()).drop_last() =~= rest);
            if forall|i: int| 0 <= i < stack.len() ==> (#[trigger] stack[i]).0 < depth {
                assert forall|i: int| 0 <= i < stack.drop_last().len() implies (
                #[trigger] stack.drop_last()[i]).0 < depth by {
                    assert(stack.drop_last()[i] == stack[i]);
                }
                assert(stack.drop_last().push(stack.last()) =~= stack);
            }
        } else {
            if forall|i: int| 0 <= i < stack.len() ==> (#[trigger] stack[i]).0 < depth {
                assert(stack[stack.len() - 1].0 < depth);
            }
        }
    }
}

/// The stack of enclosing scopes: for each, the depth at which it was
/// entered and its name.
#[derive(Clone, Debug, PartialEq, Eq)]
pub struct NamespaceStack {
    pub entries: Vec<(i128, String)>,
}

impl View for NamespaceStack {
    type V = Seq<(int, Seq<char>)>;

    open spec fn view(&self) -> Seq<(int, Seq<char>)> {
        Seq::new(self.entries@.len(), |i: int| (self.entries@[i].0 as int, self.entries@[i].1@))
    }
}

impl NamespaceStack {
    pub fn new() -> (s: NamespaceStack)
        ensures
            s@ == Seq::<(int, Seq<char>)>::empty(),
    {
        let s = NamespaceStack { entries: Vec::new() };
        assert(s@ =~= Seq::<(int, Seq<char>)>::empty());
        s
    }

    /// Drops the scopes that were entered at `depth` or deeper: the walk
    /// has left them.
    pub fn prune(&mut self, depth: i128)
        ensures
            final(self)@ == pruned(old(self)@, depth as int),
    {
        let mut kept: Vec<(i128, String)> = Vec::new();
        let ghost all = self@;
        let ghost mut kept_view: Seq<(int, Seq<char>)> = Seq::empty();
        let mut i: usize = 0;
        assert(all.take(0) =~= Seq::<(int, Seq<char>)>::empty());
        while i < self.entries.len()
            invariant
                i <= self.entries.len(),
                all == self@,
                kept_view == pruned(all.take(i as int), depth as int),
                kept_view.len() == kept.len(),
                forall|k: int|
                    0 <= k < kept.len() ==> kept_view[k] == (kept[k].0 as int, kept[k].1@),
            decreases self.entries.len() - i,
        {
            proof {
                assert(all.take(i + 1).drop_last() =~= all.take(i as int));
                assert(all.take(i + 1).last() == all[i as int]);
            }
            if self.entries[i].0 < depth {
                kept.push((self.entries[i].0, self.entries[i].1.clone()));
                proof {
                    kept_view = kept_view.push(all[i as int]);
                }
            }
            i += 1;
        }
        proof {
            assert(all.take(i as int) =~= all);
        }
        self.entries = kept;
        assert(self@ =~= kept_view);
    }

    /// Enters a scope.
    pub fn push(&mut self, depth: i128, name: String)
        ensures
            final(self)@ == old(self)@.push((depth as int, name@)),
    {
        self.entries.push((depth, name));
        assert(self@ =~= old(self)@.push((depth as int, name@)));
    }

    /// The names of the enclosing scopes, each followed by the scope
    /// separator.
    pub fn prefix(&self) -> (r: String)
        ensures
            r@ == scope_prefix(self@),
    {
        let mut out = String::new();
        let mut i: usize = 0;
        assert(self@.take(0) =~= Seq::<(int, Seq<char>)>::empty());
        while i < self.entries.len()
            invariant
                i <= self.entries.len(),
                out@ == scope_prefix(self@.take(i as int)),
            decreases self.entries.len() - i,
        {
            proof {
                reveal_strlit("::");
                assert(self@.take(i + 1).drop_last() =~= self@.take(i as int));
                assert(self@.take(i + 1).last() == self@[i as int]);
                assert("::"@ =~= scope_separator());
            }
            out.append(self.entries[i].1.as_str());
            out.append("::");
            i += 1;
        }
        proof {
            assert(self@.take(i as int) =~= self@);
        }
        out
    }
}

/// The fully qualified name of an entity with the given name inside the
/// scopes on the stack.
pub fn recover_full_name(short_name: &Option<String>, namespace_qualifiers: &NamespaceStack) -> (r:
    Option<String>)
    ensures
        match (r, qualified_name(
            namespace_qualifiers@,
            match *short_name {
                Some(s) => Some(s@),
                None => None,
            },
        )) {
            (Some(full), Some(expected)) => full@ == expected,
            (None, None) => true,
            _ => false,
        },
{
    match short_name {
        Some(name) => {
            let mut full = namespace_qualifiers.prefix();
            full.append(name.as_str());
            Some(full)
        },
        None => None,
    }
}

} // verus!
