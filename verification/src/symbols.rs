//! Symbol tables: names bound to a type and a value, in two tiers.

use vstd::prelude::*;
use crate::ir::{Ty, Value};
use crate::source::{ParseError, ParseET, ParseETView, ParseErrorView};

verus! {

/// What a name is bound to: the recorded type and the handle of the value.
pub type Binding = (Ty, Value);

/// What a table holds: for each bound name its latest binding.
pub type Bindings = Map<Seq<char>, Binding>;

/// One tier of names. A later definition of a name replaces an earlier one.
#[derive(Debug)]
pub struct SymbolTable {
    pub entries: Vec<(String, Binding)>,
}

/// The bindings that a list of definitions leaves, the last one of each
/// name winning.
pub open spec fn bindings_of(entries: Seq<(String, Binding)>) -> Bindings
    decreases entries.len(),
{
    if entries.len() == 0 {
        Map::empty()
    } else {
        bindings_of(entries.drop_last()).insert(entries.last().0@, entries.last().1)
    }
}

impl View for SymbolTable {
    type V = Bindings;

    open spec fn view(&self) -> Bindings {
        bindings_of(self.entries@)
    }
}

/// What `name` stands for where `locals` lie over `globals`: the local
/// binding if there is one, else the global one.
pub open spec fn resolve(globals: Bindings, locals: Bindings, name: Seq<char>) -> Option<Binding> {
    if locals.contains_key(name) {
        Some(locals[name])
    } else if globals.contains_key(name) {
        Some(globals[name])
    } else {
        None
    }
}

/// The failure for a name that nothing binds.
pub open spec fn unresolved(name: Seq<char>) -> ParseErrorView {
    ParseETView::VariableError(name).error()
}

impl SymbolTable {
    /// A table with no names.
    pub fn new() -> (res: Self)
        ensures
            res@ == Map::<Seq<char>, Binding>::empty(),
    {
        SymbolTable { entries: Vec::new() }
    }

    /// Binds `name`, replacing what it was bound to before.
    pub fn define(&mut self, name: String, ty: Ty, value: Value)
        ensures
            final(self)@ == old(self)@.insert(name@, (ty, value)),
    {
        self.entries.push((name, (ty, value)));
        assert(self.entries@.drop_last() =~= old(self).entries@);
    }

    /// What `name` is bound to in this table.
    pub fn get(&self, name: &str) -> (res: Option<Binding>)
        ensures
            res == if self@.contains_key(name@) {
                Some(self@[name@])
            } else {
                None
            },
    {
        let mut i: usize = self.entries.len();
        assert(self.entries@.take(i as int) =~= self.entries@);
        while i > 0
            invariant
                i <= self.entries@.len(),
                self@.contains_key(name@) == bindings_of(self.entries@.take(i as int)).contains_key(
                    name@,
                ),
                self@.contains_key(name@) ==> self@[name@] == bindings_of(
                    self.entries@.take(i as int),
                )[name@],
            decreases i,
        {
            proof {
                let upto = self.entries@.take(i as int);
                assert(upto.drop_last() =~= self.entries@.take(i - 1));
            }
            i -= 1;
            if crate::text::same_text(self.entries[i].0.as_str(), name) {
                return Some(self.entries[i].1);
            }
        }
        None
    }
}

/// What `name` stands for: the local binding if there is one, else the
/// global one, else a failure that names it.
pub fn get_var(name: &str, varmap: &SymbolTable, local_varmap: &SymbolTable) -> (res: Result<
    Binding,
    ParseError,
>)
    ensures
        match resolve(varmap@, local_varmap@, name@) {
            Some(b) => res == Ok::<Binding, ParseError>(b),
            None => res is Err && res->Err_0@ == unresolved(name@),
        },
{
    match local_varmap.get(name) {
        Some(b) => Ok(b),
        None => match varmap.get(name) {
            Some(b) => Ok(b),
            None => Err(ParseET::VariableError(name.to_owned()).error()),
        },
    }
}

/// A name resolves to its latest definition: after `define`, the name
/// stands for the new binding and every other name for what it stood for.
pub proof fn lemma_define_overwrites(table: Bindings, name: Seq<char>, b: Binding, other: Seq<char>)
    ensures
        table.insert(name, b).contains_key(name),
        table.insert(name, b)[name] == b,
        other != name ==> table.insert(name, b).contains_key(other) == table.contains_key(other),
        other != name && table.contains_key(other) ==> table.insert(name, b)[other] == table[other],
{
}

/// A local binding hides a global one of the same name, whatever the
/// global tier holds; without the local tier the name stands for the
/// global binding again, or for nothing.
pub proof fn lemma_locals_shadow_globals(globals: Bindings, locals: Bindings, name: Seq<char>, b: Binding)
    ensures
        resolve(globals, locals.insert(name, b), name) == Some(b),
        resolve(globals, Map::empty(), name) == if globals.contains_key(name) {
            Some(globals[name])
        } else {
            None
        },
{
}

} // verus!
