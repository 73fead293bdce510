//! What holds of the library as a whole: statements that relate several of
//! its operations, each proved from their definitions.

use crate::expand::{expand, expand_from, placeholder_end, placeholder_name, resolve, substitute};
use crate::extract::{
    declaration, declared, extract_variables, is_marker_line, kept_lines, strip_declarations,
};
use crate::store::VariableProcessor;
use crate::text::{
    index_of, is_space, join_lines, lemma_index_of, lemma_index_of_bounds, split_lines, strip_cr,
    trim, trim_end,
};
use crate::variable::{bindings_map, fold_bindings, Binding, VariableSet};
use vstd::prelude::*;

verus! {

/// The placeholder token that refers to `name`.
pub open spec fn placeholder(name: Seq<char>) -> Seq<char> {
    seq!['{', '{'] + name + seq!['}', '}']
}

/// Whether `name` can stand between the braces of a placeholder: it is not
/// empty and holds no closing brace.
pub open spec fn fits_placeholder(name: Seq<char>) -> bool {
    name.len() > 0 && forall|k: int| 0 <= k < name.len() ==> name[k] != '}'
}

/// Whether `s` holds white space only.
pub open spec fn all_space(s: Seq<char>) -> bool {
    forall|k: int| 0 <= k < s.len() ==> is_space(s[k])
}

/// Whether `line` holds no line feed.
pub open spec fn no_line_feed(line: Seq<char>) -> bool {
    forall|k: int| 0 <= k < line.len() ==> line[k] != '\n'
}

/// A text that is one placeholder expands to the value of its trimmed name,
/// or stays as it is where the name has none.
pub proof fn lemma_expand_placeholder(
    name: Seq<char>,
    locals: Map<Seq<char>, Seq<char>>,
    globals: Map<Seq<char>, Seq<char>>,
)
    requires
        fits_placeholder(name),
    ensures
        expand(placeholder(name), locals, globals) == match resolve(trim(name), locals, globals) {
            Some(v) => v,
            None => placeholder(name),
        },
{
    let s = placeholder(name);
    let n = s.len() as int;
    assert(n == name.len() + 4);
    let inner = s.skip(2);
    assert forall|k: int| 0 <= k < name.len() implies inner[k] != '}' by {
        assert(inner[k] == name[k]);
    }
    lemma_index_of(inner, '}', name.len() as int);
    assert(placeholder_end(s, 0) == Some(n));
    assert(s.subrange(0, n) =~= s);
    assert(s.subrange(2, n - 2) =~= name);
    assert(placeholder_name(s) == trim(name));
    assert(expand_from(s, n, locals, globals) =~= Seq::<char>::empty());
    assert(substitute(s, locals, globals) + Seq::<char>::empty() =~= substitute(
        s,
        locals,
        globals,
    ));
}

/// Local scope shadows global scope: a placeholder whose name is bound
/// locally expands to the local value, whatever the global scope holds.
pub proof fn lemma_local_shadows_global(
    name: Seq<char>,
    locals: Map<Seq<char>, Seq<char>>,
    globals: Map<Seq<char>, Seq<char>>,
)
    requires
        fits_placeholder(name),
        locals.contains_key(trim(name)),
    ensures
        expand(placeholder(name), locals, globals) == locals[trim(name)],
{
    lemma_expand_placeholder(name, locals, globals);
}

/// A placeholder whose name is bound in neither scope is left as it is,
/// braces included.
pub proof fn lemma_unknown_placeholder_is_kept(
    name: Seq<char>,
    locals: Map<Seq<char>, Seq<char>>,
    globals: Map<Seq<char>, Seq<char>>,
)
    requires
        fits_placeholder(name),
        !locals.contains_key(trim(name)),
        !globals.contains_key(trim(name)),
    ensures
        expand(placeholder(name), locals, globals) == placeholder(name),
{
    lemma_expand_placeholder(name, locals, globals);
}

/// Expansion is not recursive: a placeholder whose name is bound expands to
/// the bound value exactly, also where that value holds placeholders itself.
pub proof fn lemma_value_is_not_expanded_again(
    name: Seq<char>,
    value: Seq<char>,
    locals: Map<Seq<char>, Seq<char>>,
    globals: Map<Seq<char>, Seq<char>>,
)
    requires
        fits_placeholder(name),
        resolve(trim(name), locals, globals) == Some(value),
    ensures
        expand(placeholder(name), locals, globals) == value,
{
    lemma_expand_placeholder(name, locals, globals);
}

/// White space at the end of a text does not change what is left once its
/// end is trimmed.
pub proof fn lemma_trim_end_ignores_trailing_space(s: Seq<char>, right: Seq<char>)
    requires
        all_space(right),
    ensures
        trim_end(s + right) == trim_end(s),
    decreases right.len(),
{
    if right.len() == 0 {
        assert(s + right =~= s);
    } else {
        assert((s + right).last() == right.last());
        assert((s + right).drop_last() =~= s + right.drop_last());
        lemma_trim_end_ignores_trailing_space(s, right.drop_last());
    }
}

/// One white-space character in front of a text does not change its trimmed
/// form.
proof fn lemma_trim_ignores_leading_space(c: char, s: Seq<char>)
    requires
        is_space(c),
    ensures
        trim(seq![c] + s) == trim(s),
        trim_end(s).len() == 0 ==> trim_end(seq![c] + s).len() == 0,
        trim_end(s).len() > 0 ==> trim_end(seq![c] + s) == seq![c] + trim_end(s),
    decreases s.len(),
{
    let u = seq![c] + s;
    if s.len() == 0 {
        assert(u.last() == c);
        assert(u.drop_last() =~= Seq::<char>::empty());
        assert(trim_end(u.drop_last()) =~= Seq::<char>::empty());
        assert(trim_end(u) =~= Seq::<char>::empty());
    } else if is_space(s.last()) {
        assert(u.last() == s.last());
        assert(u.drop_last() =~= seq![c] + s.drop_last());
        lemma_trim_ignores_leading_space(c, s.drop_last());
    } else {
        assert(u.last() == s.last());
        assert(trim_end(u) == u);
        assert(u.drop_first() =~= s);
    }
    if trim_end(s).len() > 0 {
        assert((seq![c] + trim_end(s)).drop_first() =~= trim_end(s));
    }
}

/// White space around a text does not change its trimmed form.
pub proof fn lemma_trim_ignores_padding(left: Seq<char>, s: Seq<char>, right: Seq<char>)
    requires
        all_space(left),
        all_space(right),
    ensures
        trim(left + s + right) == trim(s),
    decreases left.len(),
{
    lemma_trim_end_ignores_trailing_space(left + s, right);
    if left.len() == 0 {
        assert(left + s =~= s);
    } else {
        let rest = left.drop_first();
        assert(left + s =~= seq![left[0]] + (rest + s));
        lemma_trim_ignores_leading_space(left[0], rest + s);
        lemma_trim_end_ignores_trailing_space(rest + s, Seq::<char>::empty());
        assert(rest + s + Seq::<char>::empty() =~= rest + s);
        lemma_trim_ignores_padding(rest, s, Seq::<char>::empty());
    }
}

/// White space around the name between the braces is ignored: the padded
/// placeholder refers to the same name, and where that name is bound both
/// expand to the same text.
pub proof fn lemma_padding_in_placeholder_is_ignored(
    left: Seq<char>,
    name: Seq<char>,
    right: Seq<char>,
    locals: Map<Seq<char>, Seq<char>>,
    globals: Map<Seq<char>, Seq<char>>,
)
    requires
        fits_placeholder(name),
        all_space(left),
        all_space(right),
    ensures
        placeholder_name(placeholder(left + name + right)) == placeholder_name(placeholder(name)),
        resolve(trim(name), locals, globals) is Some ==> expand(
            placeholder(left + name + right),
            locals,
            globals,
        ) == expand(placeholder(name), locals, globals),
{
    let padded = left + name + right;
    lemma_trim_ignores_padding(left, name, right);
    assert(fits_placeholder(padded)) by {
        assert(padded[left.len() as int] == name[0]);
        assert forall|k: int| 0 <= k < padded.len() implies padded[k] != '}' by {
            if k < left.len() {
                assert(padded[k] == left[k]);
            } else if k < left.len() + name.len() {
                assert(padded[k] == name[k - left.len()]);
            } else {
                assert(padded[k] == right[k - left.len() - name.len()]);
            }
        }
    }
    lemma_expand_placeholder(padded, locals, globals);
    lemma_expand_placeholder(name, locals, globals);
    let p = placeholder(padded);
    let q = placeholder(name);
    assert(p.subrange(2, p.len() - 2) =~= padded);
    assert(q.subrange(2, q.len() - 2) =~= name);
}

/// Exporting a store and loading what was exported into an empty store gives
/// a store that holds the same bindings.
pub proof fn lemma_export_import_round_trip(
    source: VariableProcessor,
    exported: VariableSet,
    fresh: VariableProcessor,
    loaded: VariableProcessor,
)
    requires
        bindings_map(exported@) == source@,
        fresh@ == Map::<Seq<char>, Seq<char>>::empty(),
        loaded@ == fold_bindings(fresh@, exported@),
    ensures
        loaded@ == source@,
{
}

/// No line of a text holds a line feed.
pub proof fn lemma_lines_hold_no_line_feed(s: Seq<char>)
    ensures
        forall|i: int| 0 <= i < split_lines(s).len() ==> no_line_feed(#[trigger] split_lines(s)[i]),
    decreases s.len(),
{
    if s.len() > 0 {
        lemma_index_of_bounds(s, '\n');
        let e = index_of(s, '\n') as int;
        if e < s.len() {
            let first = strip_cr(s.take(e));
            let rest = split_lines(s.skip(e + 1));
            lemma_lines_hold_no_line_feed(s.skip(e + 1));
            assert(no_line_feed(first)) by {
                assert forall|k: int| 0 <= k < first.len() implies first[k] != '\n' by {
                    assert(first[k] == s[k]);
                }
            }
            assert forall|i: int| 0 <= i < split_lines(s).len() implies no_line_feed(
                #[trigger] split_lines(s)[i],
            ) by {
                if i > 0 {
                    assert(split_lines(s)[i] == rest[i - 1]);
                }
            }
        }
    }
}

/// The lines that are kept are lines that were there, and none of them is a
/// declaration or an inclusion.
pub proof fn lemma_kept_lines_are_plain(lines: Seq<Seq<char>>)
    requires
        forall|i: int| 0 <= i < lines.len() ==> no_line_feed(#[trigger] lines[i]),
    ensures
        forall|i: int|
            0 <= i < kept_lines(lines).len() ==> no_line_feed(#[trigger] kept_lines(lines)[i])
                && !is_marker_line(kept_lines(lines)[i]),
    decreases lines.len(),
{
    if lines.len() > 0 {
        let front = lines.drop_last();
        assert forall|i: int| 0 <= i < front.len() implies no_line_feed(#[trigger] front[i]) by {
            assert(front[i] == lines[i]);
        }
        lemma_kept_lines_are_plain(front);
        assert(no_line_feed(lines[lines.len() - 1]));
        let kept = kept_lines(lines);
        assert forall|i: int| 0 <= i < kept.len() implies no_line_feed(#[trigger] kept[i])
            && !is_marker_line(kept[i]) by {
            if i < kept_lines(front).len() {
                assert(kept[i] == kept_lines(front)[i]);
            } else {
                assert(kept[i] == lines.last());
            }
        }
    }
}

/// Joining two or more lines puts the first line and a line feed in front of
/// the others joined.
pub proof fn lemma_join_lines_front(lines: Seq<Seq<char>>)
    requires
        lines.len() >= 2,
    ensures
        join_lines(lines) == lines[0] + seq!['\n'] + join_lines(lines.drop_first()),
    decreases lines.len(),
{
    let tail = lines.drop_first();
    if lines.len() == 2 {
        assert(join_lines(lines.drop_last()) == lines[0]);
        assert(join_lines(tail) == lines[1]);
    } else {
        lemma_join_lines_front(lines.drop_last());
        assert(lines.drop_last().drop_first() =~= tail.drop_last());
        assert(tail.last() == lines.last());
        assert(lines.drop_last()[0] == lines[0]);
        assert(join_lines(lines) =~= lines[0] + seq!['\n'] + join_lines(tail));
    }
}

/// A carriage return at the end of a line does not change what the line
/// declares, nor whether it is left out.
pub proof fn lemma_carriage_return_is_ignored(line: Seq<char>)
    ensures
        is_marker_line(strip_cr(line)) == is_marker_line(line),
        declaration(strip_cr(line)) == declaration(line),
{
    assert(trim(strip_cr(line)) == trim(line));
}

/// Lines without declarations and inclusions, joined and split again, hold
/// no declaration and no inclusion.
pub proof fn lemma_rejoined_lines_are_plain(kept: Seq<Seq<char>>)
    requires
        forall|i: int|
            0 <= i < kept.len() ==> no_line_feed(#[trigger] kept[i]) && !is_marker_line(kept[i]),
    ensures
        forall|j: int|
            0 <= j < split_lines(join_lines(kept)).len() ==> !is_marker_line(
                #[trigger] split_lines(join_lines(kept))[j],
            ),
    decreases kept.len(),
{
    let text = join_lines(kept);
    if kept.len() == 1 {
        assert(no_line_feed(kept[0]));
        if text.len() > 0 {
            lemma_index_of(text, '\n', text.len() as int);
        }
    } else if kept.len() >= 2 {
        let tail = kept.drop_first();
        lemma_join_lines_front(kept);
        assert forall|i: int| 0 <= i < tail.len() implies no_line_feed(#[trigger] tail[i])
            && !is_marker_line(tail[i]) by {
            assert(tail[i] == kept[i + 1]);
        }
        lemma_rejoined_lines_are_plain(tail);
        let e = kept[0].len() as int;
        assert(no_line_feed(kept[0]));
        assert forall|k: int| 0 <= k < e implies text[k] != '\n' by {
            assert(text[k] == kept[0][k]);
        }
        lemma_index_of(text, '\n', e);
        assert(text.take(e) =~= kept[0]);
        assert(text.skip(e + 1) =~= join_lines(tail));
        lemma_carriage_return_is_ignored(kept[0]);
        let rest = split_lines(join_lines(tail));
        assert(split_lines(text) == seq![strip_cr(kept[0])] + rest);
        assert forall|j: int| 0 <= j < split_lines(text).len() implies !is_marker_line(
            #[trigger] split_lines(text)[j],
        ) by {
            if j > 0 {
                assert(split_lines(text)[j] == rest[j - 1]);
            }
        }
    }
}

/// Where no line is a declaration or an inclusion, nothing is declared and
/// every line is kept.
pub proof fn lemma_plain_lines_are_all_kept(lines: Seq<Seq<char>>)
    requires
        forall|i: int| 0 <= i < lines.len() ==> !is_marker_line(#[trigger] lines[i]),
    ensures
        declared(lines) == Seq::<Binding>::empty(),
        kept_lines(lines) == lines,
    decreases lines.len(),
{
    if lines.len() > 0 {
        let front = lines.drop_last();
        assert forall|i: int| 0 <= i < front.len() implies !is_marker_line(#[trigger] front[i]) by {
            assert(front[i] == lines[i]);
        }
        lemma_plain_lines_are_all_kept(front);
        assert(!is_marker_line(lines[lines.len() - 1]));
        assert(front.push(lines.last()) =~= lines);
    }
}

/// With nothing bound in either scope every placeholder stays as it is, so
/// the expansion of `s[i..]` is `s[i..]`.
pub proof fn lemma_expand_from_without_bindings(s: Seq<char>, i: int)
    requires
        0 <= i <= s.len(),
    ensures
        expand_from(s, i, Map::empty(), Map::empty()) == s.skip(i),
    decreases s.len() - i,
{
    let none = Map::<Seq<char>, Seq<char>>::empty();
    if i >= s.len() {
        assert(s.skip(i) =~= Seq::<char>::empty());
    } else {
        match placeholder_end(s, i) {
            Some(e) => {
                lemma_index_of_bounds(s.skip(i + 2), '}');
                lemma_expand_from_without_bindings(s, e);
                assert(substitute(s.subrange(i, e), none, none) == s.subrange(i, e));
                assert(s.subrange(i, e) + s.skip(e) =~= s.skip(i));
            },
            None => {
                lemma_expand_from_without_bindings(s, i + 1);
                assert(seq![s[i]] + s.skip(i + 1) =~= s.skip(i));
            },
        }
    }
}

/// Expanding against two empty scopes changes nothing.
pub proof fn lemma_expansion_without_bindings_is_identity(s: Seq<char>)
    ensures
        expand(s, Map::empty(), Map::empty()) == s,
{
    lemma_expand_from_without_bindings(s, 0);
    assert(s.skip(0) =~= s);
}

/// Extraction is idempotent: the text that an extraction leaves, expanded
/// against two empty scopes or not at all, declares no variable, and
/// extracting from it again removes none of its lines.
pub proof fn lemma_extraction_is_idempotent(content: Seq<char>)
    ensures
        expand(strip_declarations(content), Map::empty(), Map::empty()) == strip_declarations(
            content,
        ),
        extract_variables(strip_declarations(content)) == Seq::<Binding>::empty(),
        kept_lines(split_lines(strip_declarations(content))) == split_lines(
            strip_declarations(content),
        ),
        strip_declarations(strip_declarations(content)) == join_lines(
            split_lines(strip_declarations(content)),
        ),
{
    let lines = split_lines(content);
    lemma_expansion_without_bindings_is_identity(strip_declarations(content));
    lemma_lines_hold_no_line_feed(content);
    lemma_kept_lines_are_plain(lines);
    lemma_rejoined_lines_are_plain(kept_lines(lines));
    lemma_plain_lines_are_all_kept(split_lines(strip_declarations(content)));
}

/// Whether splitting `s` into lines and joining them again can lose
/// nothing: no line feed follows a carriage return, and `s` does not end in
/// a line feed.
pub open spec fn rejoins_exactly(s: Seq<char>) -> bool {
    &&& forall|k: int| 0 < k < s.len() && #[trigger] s[k] == '\n' ==> s[k - 1] != '\r'
    &&& s.len() > 0 ==> s.last() != '\n'
}

/// A text whose line ends are plain line feeds, and which does not end in
/// one, is the join of its lines.
pub proof fn lemma_join_of_lines(s: Seq<char>)
    requires
        rejoins_exactly(s),
    ensures
        join_lines(split_lines(s)) == s,
        s.len() > 0 ==> split_lines(s).len() > 0,
    decreases s.len(),
{
    if s.len() > 0 {
        lemma_index_of_bounds(s, '\n');
        let e = index_of(s, '\n') as int;
        if e < s.len() {
            let first = s.take(e);
            let rest = s.skip(e + 1);
            assert(strip_cr(first) == first) by {
                if e > 0 {
                    assert(first.last() == s[e - 1]);
                }
            }
            assert(rest.len() > 0);
            assert(rest.last() == s.last());
            assert forall|k: int| 0 < k < rest.len() && #[trigger] rest[k] == '\n' implies rest[k
                - 1] != '\r' by {
                assert(rest[k] == s[e + 1 + k]);
                assert(rest[k - 1] == s[e + k]);
            }
            lemma_join_of_lines(rest);
            let lines = split_lines(s);
            assert(lines == seq![first] + split_lines(rest));
            assert(lines.drop_first() =~= split_lines(rest));
            lemma_join_lines_front(lines);
            assert(first + seq!['\n'] + rest =~= s);
        }
    }
}

/// Where the text that an extraction leaves is the join of its lines, a
/// second extraction returns it unchanged.
pub proof fn lemma_extraction_fixes_cleaned_text(content: Seq<char>)
    requires
        rejoins_exactly(strip_declarations(content)),
    ensures
        strip_declarations(strip_declarations(content)) == strip_declarations(content),
        extract_variables(strip_declarations(content)) == Seq::<Binding>::empty(),
{
    lemma_extraction_is_idempotent(content);
    lemma_join_of_lines(strip_declarations(content));
}

} // verus!
