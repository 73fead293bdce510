//! Placeholder expansion: `{{name}}` tokens are replaced by the value bound
//! to the trimmed name, locally first, then globally; a token whose name is
//! bound nowhere stays as it is. The text is scanned once, left to right, and
//! what was substituted is never scanned again.

use crate::text::{
    find_char, index_of, lemma_index_of, lemma_index_of_bounds, push_range, range_to_string,
    to_chars, trim, trim_range,
};
use crate::variable::{
    bindings, bindings_map, find_last, lemma_fold_last, lemma_fold_unbound, Variable,
};
use vstd::prelude::*;

verus! {

/// Where the placeholder that starts at `i` ends, if one starts there: two
/// opening braces, at least one character that is no closing brace, and two
/// closing braces. The first closing brace after the opening ends the name.
pub open spec fn placeholder_end(s: Seq<char>, i: int) -> Option<int> {
    if 0 <= i && i + 1 < s.len() && s[i] == '{' && s[i + 1] == '{' {
        let close = i + 2 + index_of(s.skip(i + 2), '}');
        if close > i + 2 && close + 1 < s.len() && s[close + 1] == '}' {
            Some(close + 2)
        } else {
            None
        }
    } else {
        None
    }
}

/// The value of `name`: the local one where there is one, else the global
/// one, else none.
pub open spec fn resolve(
    name: Seq<char>,
    locals: Map<Seq<char>, Seq<char>>,
    globals: Map<Seq<char>, Seq<char>>,
) -> Option<Seq<char>> {
    if locals.contains_key(name) {
        Some(locals[name])
    } else if globals.contains_key(name) {
        Some(globals[name])
    } else {
        None
    }
}

/// The name that a placeholder token refers to: what stands between the
/// braces, trimmed.
pub open spec fn placeholder_name(token: Seq<char>) -> Seq<char> {
    trim(token.subrange(2, token.len() - 2))
}

/// What a placeholder token is replaced by: the value of its name, or the
/// token itself where the name has none.
pub open spec fn substitute(
    token: Seq<char>,
    locals: Map<Seq<char>, Seq<char>>,
    globals: Map<Seq<char>, Seq<char>>,
) -> Seq<char> {
    match resolve(placeholder_name(token), locals, globals) {
        Some(v) => v,
        None => token,
    }
}

/// The expansion of `s[i..]`: the leftmost placeholder is taken first, and
/// the scan goes on behind it.
pub open spec fn expand_from(
    s: Seq<char>,
    i: int,
    locals: Map<Seq<char>, Seq<char>>,
    globals: Map<Seq<char>, Seq<char>>,
) -> Seq<char>
    decreases s.len() - i,
{
    if i < 0 || i >= s.len() {
        Seq::empty()
    } else {
        match placeholder_end(s, i) {
            Some(e) => substitute(s.subrange(i, e), locals, globals) + expand_from(
                s,
                e,
                locals,
                globals,
            ),
            None => seq![s[i]] + expand_from(s, i + 1, locals, globals),
        }
    }
}

/// The expansion of `s` against the two scopes.
pub open spec fn expand(
    s: Seq<char>,
    locals: Map<Seq<char>, Seq<char>>,
    globals: Map<Seq<char>, Seq<char>>,
) -> Seq<char> {
    expand_from(s, 0, locals, globals)
}

/// Where the scan last found a closing brace: none stands in
/// `[from, at)`, and one stands at `at` unless `at` is the length. It saves
/// scanning the same stretch again.
pub struct CloseHint {
    pub from: usize,
    pub at: usize,
}

impl CloseHint {
    /// Whether the hint is true of `s`.
    pub open spec fn holds_for(&self, s: Seq<char>) -> bool {
        &&& self.from <= self.at <= s.len()
        &&& forall|k: int| self.from <= k < self.at ==> s[k] != '}'
        &&& self.at < s.len() ==> s[self.at as int] == '}'
    }
}

/// Position of the first closing brace at or after `from`, or the length
/// where there is none.
pub fn first_close(text: &Vec<char>, from: usize, hint: &mut CloseHint) -> (r: usize)
    requires
        from <= text@.len(),
        old(hint).holds_for(text@),
    ensures
        final(hint).holds_for(text@),
        from <= r <= text@.len(),
        r == from + index_of(text@.skip(from as int), '}'),
{
    if hint.from <= from && from <= hint.at {
        proof {
            lemma_index_of(text@.skip(from as int), '}', hint.at - from);
        }
        hint.at
    } else {
        let at = find_char(text, from, text.len(), '}');
        proof {
            let rest = text@.skip(from as int);
            assert(text@.subrange(from as int, text@.len() as int) =~= rest);
            lemma_index_of_bounds(rest, '}');
            assert forall|k: int| from <= k < at implies text@[k] != '}' by {
                assert(text@[k] == rest[k - from]);
            }
        }
        hint.from = from;
        hint.at = at;
        at
    }
}

/// Where the placeholder that starts at `text[i]` ends, if one starts there.
pub fn match_placeholder(text: &Vec<char>, i: usize, hint: &mut CloseHint) -> (r: Option<usize>)
    requires
        i < text@.len(),
        old(hint).holds_for(text@),
    ensures
        final(hint).holds_for(text@),
        match r {
            Some(e) => placeholder_end(text@, i as int) == Some(e as int) && i + 4 < e
                <= text@.len(),
            None => placeholder_end(text@, i as int) is None,
        },
{
    let n = text.len();
    if text[i] != '{' || n - i < 2 || text[i + 1] != '{' {
        return None;
    }
    let close = first_close(text, i + 2, hint);
    if close > i + 2 && n - close > 1 && text[close + 1] == '}' {
        Some(close + 2)
    } else {
        None
    }
}

/// The value bound to `name`, looked up locally, then globally.
pub fn lookup<'a>(name: &String, locals: &'a Vec<Variable>, globals: &'a Vec<Variable>) -> (r:
    Option<&'a String>)
    ensures
        match r {
            Some(v) => resolve(
                name@,
                bindings_map(bindings(locals@)),
                bindings_map(bindings(globals@)),
            ) == Some(v@),
            None => resolve(
                name@,
                bindings_map(bindings(locals@)),
                bindings_map(bindings(globals@)),
            ) is None,
        },
{
    match find_last(locals, name) {
        Some(i) => {
            proof {
                lemma_fold_last(Map::empty(), bindings(locals@), name@, i as int);
            }
            Some(&locals[i].value)
        },
        None => {
            proof {
                lemma_fold_unbound(Map::empty(), bindings(locals@), name@);
            }
            match find_last(globals, name) {
                Some(j) => {
                    proof {
                        lemma_fold_last(Map::empty(), bindings(globals@), name@, j as int);
                    }
                    Some(&globals[j].value)
                },
                None => {
                    proof {
                        lemma_fold_unbound(Map::empty(), bindings(globals@), name@);
                    }
                    None
                },
            }
        },
    }
}

/// Expands every placeholder of `text`, resolving names in `locals` first
/// and in `globals` second. Where a list binds a name twice, its last
/// binding counts.
pub fn expand_text(text: &str, locals: &Vec<Variable>, globals: &Vec<Variable>) -> (r: String)
    ensures
        r@ == expand(text@, bindings_map(bindings(locals@)), bindings_map(bindings(globals@))),
{
    let chars = to_chars(text);
    let n = chars.len();
    let ghost lm = bindings_map(bindings(locals@));
    let ghost gm = bindings_map(bindings(globals@));
    let mut out = String::new();
    let mut hint = CloseHint { from: n, at: n };
    let mut i: usize = 0;
    proof {
        assert(out@ + expand_from(chars@, 0, lm, gm) =~= expand_from(chars@, 0, lm, gm));
    }
    while i < n
        invariant
            i <= n,
            hint.holds_for(chars@),
            n == chars@.len(),
            chars@ == text@,
            lm == bindings_map(bindings(locals@)),
            gm == bindings_map(bindings(globals@)),
            expand(text@, lm, gm) == out@ + expand_from(chars@, i as int, lm, gm),
        decreases n - i,
    {
        let ghost before = out@;
        match match_placeholder(&chars, i, &mut hint) {
            Some(e) => {
                let (a, b) = trim_range(&chars, i + 2, e - 2);
                let name = range_to_string(&chars, a, b);
                let ghost token = chars@.subrange(i as int, e as int);
                proof {
                    assert(token.subrange(2, token.len() - 2) =~= chars@.subrange(i + 2, e - 2));
                }
                match lookup(&name, locals, globals) {
                    Some(v) => {
                        out.append(v.as_str());
                    },
                    None => {
                        push_range(&mut out, &chars, i, e);
                    },
                }
                proof {
                    assert(out@ == before + substitute(token, lm, gm));
                    assert(before + (substitute(token, lm, gm) + expand_from(
                        chars@,
                        e as int,
                        lm,
                        gm,
                    )) =~= out@ + expand_from(chars@, e as int, lm, gm));
                }
                i = e;
            },
            None => {
                out.push(chars[i]);
                proof {
                    assert(before + (seq![chars@[i as int]] + expand_from(chars@, i + 1, lm, gm))
                        =~= out@ + expand_from(chars@, i + 1, lm, gm));
                }
                i += 1;
            },
        }
    }
    proof {
        assert(out@ + expand_from(chars@, n as int, lm, gm) =~= out@);
    }
    out
}

} // verus!
