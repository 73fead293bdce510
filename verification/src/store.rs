//! The variable store: the shared bindings, one per name, and the
//! operations that read, set, exchange and apply them.

use crate::expand::{expand, expand_text};
use crate::extract::{extract, extract_variables, strip_declarations};
use crate::variable::{
    bindings, bindings_map, distinct_names, find_last, fold_bindings, lemma_fold_last,
    lemma_fold_replace, lemma_fold_unbound, Binding, Variable, VariableSet,
};
use vstd::prelude::*;

verus! {

/// Why a payload of variables could not be read.
#[derive(Debug)]
pub struct ParseError {
    pub message: String,
}

/// The store of global variables. It never holds two entries for one name.
pub struct VariableProcessor {
    global_variables: Vec<Variable>,
}

impl View for VariableProcessor {
    type V = Map<Seq<char>, Seq<char>>;

    /// The store as a map from name to value.
    closed spec fn view(&self) -> Map<Seq<char>, Seq<char>> {
        bindings_map(bindings(self.global_variables@))
    }
}

impl VariableProcessor {
    #[verifier::type_invariant]
    spec fn one_entry_per_name(self) -> bool {
        distinct_names(bindings(self.global_variables@))
    }

    /// An empty store.
    pub fn new() -> (r: Self)
        ensures
            r@ == Map::<Seq<char>, Seq<char>>::empty(),
    {
        VariableProcessor { global_variables: Vec::new() }
    }

    /// Binds `name` to `value`, replacing what `name` was bound to.
    pub fn set_global_variable(&mut self, name: String, value: String)
        ensures
            final(self)@ == old(self)@.insert(name@, value@),
    {
        proof {
            use_type_invariant(&*self);
        }
        let ghost before = bindings(self.global_variables@);
        let ghost b = Binding { name: name@, value: value@ };
        let mut entries: Vec<Variable> = Vec::new();
        std::mem::swap(&mut self.global_variables, &mut entries);
        match find_last(&entries, &name) {
            Some(i) => {
                entries.set(i, Variable { name, value });
                proof {
                    lemma_fold_replace(before, i as int, b);
                    assert(bindings(entries@) =~= before.update(i as int, b));
                }
            },
            None => {
                entries.push(Variable { name, value });
                proof {
                    assert(bindings(entries@) =~= before.push(b));
                    assert(before.push(b).drop_last() =~= before);
                }
            },
        }
        self.global_variables = entries;
    }

    /// The value that `name` is bound to, if it is bound.
    pub fn get_global_variable(&self, name: &str) -> (r: Option<String>)
        ensures
            match r {
                Some(v) => self@.contains_key(name@) && self@[name@] == v@,
                None => !self@.contains_key(name@),
            },
    {
        let key = name.to_owned();
        match find_last(&self.global_variables, &key) {
            Some(i) => {
                proof {
                    lemma_fold_last(
                        Map::empty(),
                        bindings(self.global_variables@),
                        key@,
                        i as int,
                    );
                }
                Some(self.global_variables[i].value.clone())
            },
            None => {
                proof {
                    lemma_fold_unbound(Map::empty(), bindings(self.global_variables@), key@);
                }
                None
            },
        }
    }

    /// A copy of all entries: one per bound name, standing for the same map.
    pub fn get_all_global_variables(&self) -> (r: Vec<Variable>)
        ensures
            distinct_names(bindings(r@)),
            bindings_map(bindings(r@)) == self@,
    {
        proof {
            use_type_invariant(self);
        }
        let mut out: Vec<Variable> = Vec::new();
        let mut i: usize = 0;
        while i < self.global_variables.len()
            invariant
                i <= self.global_variables@.len(),
                bindings(out@) == bindings(self.global_variables@).take(i as int),
            decreases self.global_variables@.len() - i,
        {
            let ghost before = bindings(out@);
            out.push(self.global_variables[i].clone());
            proof {
                assert(bindings(out@) =~= before.push(self.global_variables@[i as int]@));
                assert(bindings(self.global_variables@).take(i + 1) =~= before.push(
                    self.global_variables@[i as int]@,
                ));
            }
            i += 1;
        }
        proof {
            let all = bindings(self.global_variables@);
            assert(all.take(all.len() as int) =~= all);
        }
        out
    }

    /// Extracts the variables that `content` declares, in order, and the text
    /// without its declaration and inclusion lines.
    pub fn parse_variables_from_markdown(&self, content: &str) -> (r: (Vec<Variable>, String))
        ensures
            bindings(r.0@) == extract_variables(content@),
            r.1@ == strip_declarations(content@),
    {
        extract(content)
    }

    /// Expands the placeholders of `content`, once its declarations are taken
    /// out: a name declared in the document has the value of its last
    /// declaration, any other name the value that the store gives it.
    pub fn process_variables(&self, content: &str) -> (r: String)
        ensures
            r@ == expand(
                strip_declarations(content@),
                bindings_map(extract_variables(content@)),
                self@,
            ),
    {
        let (file_variables, processed_content) = extract(content);
        expand_text(processed_content.as_str(), &file_variables, &self.global_variables)
    }

    /// Sets every binding of `set`, in order.
    pub fn set_all(&mut self, set: &VariableSet)
        ensures
            final(self)@ == fold_bindings(old(self)@, set@),
    {
        let mut i: usize = 0;
        while i < set.variables.len()
            invariant
                i <= set.variables@.len(),
                self@ == fold_bindings(old(self)@, set@.take(i as int)),
            decreases set.variables@.len() - i,
        {
            let v = set.variables[i].clone();
            proof {
                assert(set@.take(i + 1).drop_last() =~= set@.take(i as int));
            }
            self.set_global_variable(v.name, v.value);
            i += 1;
        }
        proof {
            assert(set@.take(set@.len() as int) =~= set@);
        }
    }

    /// Takes in a payload that was read: every binding of a well-formed one is
    /// set, in order; a malformed one is handed back and changes nothing.
    pub fn load_variables_from_yaml(&mut self, parsed: Result<VariableSet, ParseError>) -> (r:
        Result<(), ParseError>)
        ensures
            match parsed {
                Ok(set) => r is Ok && final(self)@ == fold_bindings(old(self)@, set@),
                Err(e) => r == Err::<(), ParseError>(e) && final(self)@ == old(self)@,
            },
    {
        match parsed {
            Ok(set) => {
                self.set_all(&set);
                Ok(())
            },
            Err(e) => Err(e),
        }
    }

    /// The store's entries as a set to be written out: one per bound name,
    /// standing for the same map.
    pub fn export_variables_to_yaml(&self) -> (r: VariableSet)
        ensures
            distinct_names(r@),
            bindings_map(r@) == self@,
    {
        VariableSet { variables: self.get_all_global_variables() }
    }

    /// Sets every binding of `global_variables`, then expands `content`
    /// against the store as it then is.
    pub fn process_markdown(&mut self, content: &str, global_variables: Vec<Variable>) -> (r:
        String)
        ensures
            final(self)@ == fold_bindings(old(self)@, bindings(global_variables@)),
            r@ == expand(
                strip_declarations(content@),
                bindings_map(extract_variables(content@)),
                final(self)@,
            ),
    {
        let seed = VariableSet { variables: global_variables };
        self.set_all(&seed);
        self.process_variables(content)
    }
}

} // verus!
