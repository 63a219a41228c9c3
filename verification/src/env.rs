//! The environment: the values that names are bound to.

use crate::error::{Error, ErrorView};
use crate::expr::eval_view;
use crate::val::Val;
use vstd::hash_map::StringHashMap;
use vstd::prelude::*;
use vstd::string::StringExecFns;

verus! {

/// A store of values by name. Each name has at most one value, the last one
/// stored under it.
pub struct Env {
    bindings: StringHashMap<Val>,
}

impl View for Env {
    type V = Map<Seq<char>, Val>;

    closed spec fn view(&self) -> Map<Seq<char>, Val> {
        self.bindings@
    }
}

/// The value under `name` in `bindings`, or the failure that names it.
pub open spec fn spec_lookup(bindings: Map<Seq<char>, Val>, name: Seq<char>) -> Result<
    Val,
    ErrorView,
> {
    if bindings.contains_key(name) {
        Ok(bindings[name])
    } else {
        Err(ErrorView::UnboundName(name))
    }
}

impl Env {
    /// An environment in which no name is bound.
    pub fn new() -> (env: Env)
        ensures
            env@ == Map::<Seq<char>, Val>::empty(),
    {
        Env { bindings: StringHashMap::new() }
    }

    /// Binds `name` to `val`, in place of any value it had.
    pub fn store_binding(&mut self, name: String, val: Val)
        ensures
            final(self)@ == old(self)@.insert(name@, val),
    {
        self.bindings.insert(name, val);
    }

    /// The value that `name` is bound to.
    pub fn get_binding_value(&self, name: &str) -> (r: Result<Val, Error>)
        ensures
            eval_view(r) == spec_lookup(self@, name@),
    {
        match self.bindings.get(name) {
            Some(val) => Ok(*val),
            None => Err(Error::UnboundName(String::from_str(name))),
        }
    }
}

impl Default for Env {
    fn default() -> (env: Env)
        ensures
            env@ == Map::<Seq<char>, Val>::empty(),
    {
        Env::new()
    }
}

/// A name that has just been stored is found, with the value stored.
pub proof fn lemma_lookup_stored(bindings: Map<Seq<char>, Val>, name: Seq<char>, val: Val)
    ensures
        spec_lookup(bindings.insert(name, val), name) == Ok::<_, ErrorView>(val),
{
}

/// Storing under one name changes what no other name is bound to.
pub proof fn lemma_lookup_other(
    bindings: Map<Seq<char>, Val>,
    name: Seq<char>,
    val: Val,
    other: Seq<char>,
)
    requires
        other != name,
    ensures
        spec_lookup(bindings.insert(name, val), other) == spec_lookup(bindings, other),
{
}

/// Of two values stored under one name, only the second is kept.
pub proof fn lemma_store_overwrites(
    bindings: Map<Seq<char>, Val>,
    name: Seq<char>,
    first: Val,
    second: Val,
)
    ensures
        bindings.insert(name, first).insert(name, second) == bindings.insert(name, second),
{
    assert(bindings.insert(name, first).insert(name, second) =~= bindings.insert(name, second));
}

/// In a fresh environment no name is bound.
pub proof fn lemma_lookup_in_empty(name: Seq<char>)
    ensures
        spec_lookup(Map::empty(), name) == Err::<Val, _>(ErrorView::UnboundName(name)),
{
}

} // verus!
