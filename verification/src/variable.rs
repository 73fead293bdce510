//! Variables, the sets they travel in, and the lookup map a list of them
//! stands for.

use vstd::prelude::*;

verus! {

/// A named value. The value is substituted verbatim wherever the name is
/// referenced.
#[derive(Debug)]
pub struct Variable {
    pub name: String,
    pub value: String,
}

/// What a [`Variable`] holds, as plain character sequences.
pub struct Binding {
    pub name: Seq<char>,
    pub value: Seq<char>,
}

impl View for Variable {
    type V = Binding;

    open spec fn view(&self) -> Binding {
        Binding { name: self.name@, value: self.value@ }
    }
}

impl Clone for Variable {
    fn clone(&self) -> (r: Self)
        ensures
            r@ == self@,
    {
        Variable { name: self.name.clone(), value: self.value.clone() }
    }
}

/// An ordered list of variables: the shape in which bindings are exchanged.
#[derive(Debug)]
pub struct VariableSet {
    pub variables: Vec<Variable>,
}

/// The bindings of a list of variables, in order.
pub open spec fn bindings(vars: Seq<Variable>) -> Seq<Binding> {
    vars.map_values(|v: Variable| v@)
}

impl View for VariableSet {
    type V = Seq<Binding>;

    open spec fn view(&self) -> Seq<Binding> {
        bindings(self.variables@)
    }
}

/// `base` after setting each binding of `bs` in turn: a later binding of a
/// name replaces an earlier one.
pub open spec fn fold_bindings(base: Map<Seq<char>, Seq<char>>, bs: Seq<Binding>) -> Map<
    Seq<char>,
    Seq<char>,
>
    decreases bs.len(),
{
    if bs.len() == 0 {
        base
    } else {
        fold_bindings(base, bs.drop_last()).insert(bs.last().name, bs.last().value)
    }
}

/// The lookup map that a list of bindings stands for (last one wins).
pub open spec fn bindings_map(bs: Seq<Binding>) -> Map<Seq<char>, Seq<char>> {
    fold_bindings(Map::empty(), bs)
}

/// Whether no name occurs twice in `bs`.
pub open spec fn distinct_names(bs: Seq<Binding>) -> bool {
    forall|i: int, j: int| 0 <= i < j < bs.len() ==> bs[i].name != bs[j].name
}

/// Whether `i` is the last position of `bs` that binds `name`.
pub open spec fn is_last_binding(bs: Seq<Binding>, name: Seq<char>, i: int) -> bool {
    &&& 0 <= i < bs.len()
    &&& bs[i].name == name
    &&& forall|j: int| i < j < bs.len() ==> bs[j].name != name
}

/// Whether no position of `bs` binds `name`.
pub open spec fn unbound(bs: Seq<Binding>, name: Seq<char>) -> bool {
    forall|j: int| 0 <= j < bs.len() ==> bs[j].name != name
}

/// The folded map gives a name the value of its last binding.
pub proof fn lemma_fold_last(
    base: Map<Seq<char>, Seq<char>>,
    bs: Seq<Binding>,
    name: Seq<char>,
    i: int,
)
    requires
        is_last_binding(bs, name, i),
    ensures
        fold_bindings(base, bs).contains_key(name),
        fold_bindings(base, bs)[name] == bs[i].value,
    decreases bs.len(),
{
    if i < bs.len() - 1 {
        lemma_fold_last(base, bs.drop_last(), name, i);
    }
}

/// The folded map leaves a name that the list does not bind as the base has it.
pub proof fn lemma_fold_unbound(base: Map<Seq<char>, Seq<char>>, bs: Seq<Binding>, name: Seq<char>)
    requires
        unbound(bs, name),
    ensures
        fold_bindings(base, bs).contains_key(name) == base.contains_key(name),
        base.contains_key(name) ==> fold_bindings(base, bs)[name] == base[name],
    decreases bs.len(),
{
    if bs.len() > 0 {
        lemma_fold_unbound(base, bs.drop_last(), name);
    }
}

/// Replacing the value at the one position that binds a name is setting the
/// name in the map.
pub proof fn lemma_fold_replace(bs: Seq<Binding>, i: int, b: Binding)
    requires
        distinct_names(bs),
        0 <= i < bs.len(),
        bs[i].name == b.name,
    ensures
        distinct_names(bs.update(i, b)),
        bindings_map(bs.update(i, b)) == bindings_map(bs).insert(b.name, b.value),
    decreases bs.len(),
{
    let after = bs.update(i, b);
    if i == bs.len() - 1 {
        assert(after.drop_last() =~= bs.drop_last());
        assert(bindings_map(after) =~= bindings_map(bs).insert(b.name, b.value));
    } else {
        lemma_fold_replace(bs.drop_last(), i, b);
        assert(after.drop_last() =~= bs.drop_last().update(i, b));
        assert(after.last() == bs.last());
        assert(bs.last().name != b.name);
        assert(bindings_map(after) =~= bindings_map(bs).insert(b.name, b.value));
    }
}

/// The last position of `vars` whose name is `name`, if there is one.
pub fn find_last(vars: &Vec<Variable>, name: &String) -> (r: Option<usize>)
    ensures
        match r {
            Some(i) => is_last_binding(bindings(vars@), name@, i as int),
            None => unbound(bindings(vars@), name@),
        },
{
    let mut i: usize = vars.len();
    while i > 0
        invariant
            i <= vars@.len(),
            forall|j: int| i <= j < vars@.len() ==> bindings(vars@)[j].name != name@,
        decreases i,
    {
        i -= 1;
        if vars[i].name == *name {
            return Some(i);
        }
    }
    None
}

} // verus!
