//! Reading a document's declaration lines: which lines declare a variable,
//! which are reserved markers, and what text is left once both are removed.

use crate::text::{
    find_char, has_prefix, has_suffix, index_of, join_lines, line_views, lines_of, push_range,
    range_ends_with, range_starts_with, range_to_string, split_lines, to_chars, trim, trim_range,
};
use crate::variable::{bindings, Binding, Variable};
use vstd::prelude::*;

verus! {

/// What opens a declaration line.
pub open spec fn var_prefix() -> Seq<char> {
    "<!-- @var "@
}

/// What opens an inclusion line, which is recognised and has no effect.
pub open spec fn include_prefix() -> Seq<char> {
    "<!-- @include:"@
}

/// What closes a declaration line and an inclusion line.
pub open spec fn marker_suffix() -> Seq<char> {
    " -->"@
}

/// Whether the trimmed line opens and closes as a declaration does.
pub open spec fn is_var_line(line: Seq<char>) -> bool {
    has_prefix(trim(line), var_prefix()) && has_suffix(trim(line), marker_suffix())
}

/// Whether the trimmed line opens and closes as an inclusion does.
pub open spec fn is_include_line(line: Seq<char>) -> bool {
    has_prefix(trim(line), include_prefix()) && has_suffix(trim(line), marker_suffix())
}

/// Whether the line is left out of the cleaned text.
pub open spec fn is_marker_line(line: Seq<char>) -> bool {
    is_var_line(line) || is_include_line(line)
}

/// What stands between the opening and the closing of a declaration line.
/// Where the two overlap there is nothing between them.
pub open spec fn var_body(line: Seq<char>) -> Seq<char> {
    let t = trim(line);
    if t.len() >= var_prefix().len() + marker_suffix().len() {
        t.subrange(var_prefix().len() as int, t.len() - marker_suffix().len())
    } else {
        Seq::empty()
    }
}

/// The binding that a line declares: the body is split at its first colon,
/// and both sides are trimmed. A line that is no declaration, or whose body
/// has no colon, declares nothing.
pub open spec fn declaration(line: Seq<char>) -> Option<Binding> {
    let body = var_body(line);
    let colon = index_of(body, ':') as int;
    if is_var_line(line) && colon < body.len() {
        Some(Binding { name: trim(body.take(colon)), value: trim(body.skip(colon + 1)) })
    } else {
        None
    }
}

/// The bindings that the lines declare, in order; a name declared twice
/// occurs twice.
pub open spec fn declared(lines: Seq<Seq<char>>) -> Seq<Binding>
    decreases lines.len(),
{
    if lines.len() == 0 {
        Seq::empty()
    } else {
        match declaration(lines.last()) {
            Some(b) => declared(lines.drop_last()).push(b),
            None => declared(lines.drop_last()),
        }
    }
}

/// The lines that are neither declarations nor inclusions, in order.
pub open spec fn kept_lines(lines: Seq<Seq<char>>) -> Seq<Seq<char>>
    decreases lines.len(),
{
    if lines.len() == 0 {
        Seq::empty()
    } else if is_marker_line(lines.last()) {
        kept_lines(lines.drop_last())
    } else {
        kept_lines(lines.drop_last()).push(lines.last())
    }
}

/// The bindings that a document declares.
pub open spec fn extract_variables(content: Seq<char>) -> Seq<Binding> {
    declared(split_lines(content))
}

/// The document without its declaration and inclusion lines; the lines that
/// remain are joined by single line feeds.
pub open spec fn strip_declarations(content: Seq<char>) -> Seq<char> {
    join_lines(kept_lines(split_lines(content)))
}

/// The three marker texts, ready to be compared with a line.
pub struct Markers {
    pub var_prefix: Vec<char>,
    pub include_prefix: Vec<char>,
    pub suffix: Vec<char>,
}

impl Markers {
    /// Whether the fields hold the marker texts.
    pub open spec fn wf(&self) -> bool {
        &&& self.var_prefix@ == var_prefix()
        &&& self.include_prefix@ == include_prefix()
        &&& self.suffix@ == marker_suffix()
    }

    /// The marker texts.
    pub fn new() -> (r: Self)
        ensures
            r.wf(),
    {
        Markers {
            var_prefix: to_chars("<!-- @var "),
            include_prefix: to_chars("<!-- @include:"),
            suffix: to_chars(" -->"),
        }
    }
}

/// Reads one line: whether it is left out of the cleaned text, and the
/// variable it declares, if any.
pub fn read_line(line: &Vec<char>, markers: &Markers) -> (r: (bool, Option<Variable>))
    requires
        markers.wf(),
    ensures
        r.0 == is_marker_line(line@),
        match r.1 {
            Some(v) => declaration(line@) == Some(v@),
            None => declaration(line@) is None,
        },
{
    let (a, b) = trim_range(line, 0, line.len());
    proof {
        assert(line@.subrange(0, line@.len() as int) =~= line@);
    }
    let ghost t = trim(line@);
    if range_starts_with(line, a, b, &markers.var_prefix) && range_ends_with(
        line,
        a,
        b,
        &markers.suffix,
    ) {
        let plen = markers.var_prefix.len();
        let slen = markers.suffix.len();
        if b - a - plen < slen {
            proof {
                assert(var_body(line@).len() == 0);
            }
            return (true, None);
        }
        let body_from: usize = a + plen;
        let body_to: usize = b - slen;
        proof {
            assert(line@.subrange(body_from as int, body_to as int) =~= t.subrange(
                plen as int,
                t.len() - slen,
            ));
        }
        let ghost body = var_body(line@);
        let colon = find_char(line, body_from, body_to, ':');
        if colon >= body_to {
            return (true, None);
        }
        let (na, nb) = trim_range(line, body_from, colon);
        let (va, vb) = trim_range(line, colon + 1, body_to);
        proof {
            assert(line@.subrange(body_from as int, colon as int) =~= body.take(
                colon - body_from,
            ));
            assert(line@.subrange(colon + 1, body_to as int) =~= body.skip(
                colon - body_from + 1,
            ));
        }
        let name = range_to_string(line, na, nb);
        let value = range_to_string(line, va, vb);
        (true, Some(Variable { name, value }))
    } else if range_starts_with(line, a, b, &markers.include_prefix) && range_ends_with(
        line,
        a,
        b,
        &markers.suffix,
    ) {
        (true, None)
    } else {
        (false, None)
    }
}

/// Extracts the variables that `content` declares and the text that is left
/// without the declaration and inclusion lines.
pub fn extract(content: &str) -> (r: (Vec<Variable>, String))
    ensures
        bindings(r.0@) == extract_variables(content@),
        r.1@ == strip_declarations(content@),
{
    let chars = to_chars(content);
    let lines = lines_of(&chars);
    let markers = Markers::new();
    let mut variables: Vec<Variable> = Vec::new();
    let mut cleaned = String::new();
    let mut any_kept = false;
    let ghost all = line_views(lines@);
    let mut i: usize = 0;
    while i < lines.len()
        invariant
            i <= lines@.len(),
            markers.wf(),
            all == line_views(lines@),
            bindings(variables@) == declared(all.take(i as int)),
            cleaned@ == join_lines(kept_lines(all.take(i as int))),
            any_kept == (kept_lines(all.take(i as int)).len() > 0),
        decreases lines@.len() - i,
    {
        let ghost before = all.take(i as int);
        let ghost vars_before = bindings(variables@);
        proof {
            assert(all.take(i + 1).drop_last() =~= before);
            assert(all.take(i + 1).last() == lines@[i as int]@);
        }
        let (marker, declared_here) = read_line(&lines[i], &markers);
        match declared_here {
            Some(v) => {
                variables.push(v);
                proof {
                    assert(bindings(variables@) =~= vars_before.push(v@));
                }
            },
            None => {},
        }
        if !marker {
            if any_kept {
                cleaned.push('\n');
            }
            let ghost mid = cleaned@;
            push_range(&mut cleaned, &lines[i], 0, lines[i].len());
            proof {
                let line = lines@[i as int]@;
                assert(line.subrange(0, line.len() as int) =~= line);
                let kept = kept_lines(all.take(i + 1));
                assert(kept.drop_last() =~= kept_lines(before));
                if any_kept {
                    assert(mid =~= join_lines(kept_lines(before)) + seq!['\n']);
                } else {
                    assert(kept_lines(before) =~= Seq::<Seq<char>>::empty());
                    assert(Seq::<char>::empty() + line =~= line);
                }
            }
            any_kept = true;
        }
        i += 1;
    }
    proof {
        assert(all.take(lines@.len() as int) =~= all);
    }
    (variables, cleaned)
}

} // verus!
