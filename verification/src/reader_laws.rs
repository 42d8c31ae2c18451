//! Properties of the individual readers that hold for every input: nullability of written
//! types, what an extension keeps, the `repeatable` keyword, the arguments of directives
//! on enum values, and how selection sets are scanned.
use vstd::prelude::*;
use crate::types::{DirectiveDataV, ObjectTypeV, InterfaceTypeV, ScalarTypeV, EnumTypeV, UnionTypeV, SelectionV};
use crate::text::{has_char, ends_with, replaced, lines};
use crate::patterns::{Pattern, all_matches, matches_from, first_match_from, match_at, remove_all, first_match_text};
use crate::fields::type_is_nullable;
use crate::syntax::{SyntaxElementV, KindQuery, is_child, children_from, first_child_token, subtree_end};
use crate::directives::{at_name, directive_data_view};
use crate::laws::{lemma_key_index_from, lemma_first_key_in, lemma_nested_forward};
use crate::enum_values::{
    TempV,
    value_entries,
    insert_fresh,
    key_index,
    describe,
    block_phase,
    quoted_phase,
    quoted_key,
    description_text,
    push_directive,
    line_without_directives,
    first_key_in,
    lines_phase,
    directive_step,
    directives_phase,
    directive_entry,
    directive_name_with_at,
    fallback_text,
    strip_descriptions,
    descriptions_read,
    without_directives,
    enum_values_state,
    enum_value_view,
    enum_values_view,
};
use crate::selection::{line_name, is_parent_from, nested_selections, nested_loop, top_loop};
use crate::definitions::{
    add_directives,
    directive_view,
    scalar_extension_view,
    enum_extension_view,
    union_extension_view,
    object_extension_view,
    interface_extension_view,
    input_object_extension_view,
};

verus! {

proof fn lemma_no_match_anywhere(p: Pattern, s: Seq<char>, i: int)
    requires
        0 <= i,
        forall|q: int| i <= q < s.len() ==> (#[trigger] match_at(p, s, q)) is None,
    ensures
        first_match_from(p, s, i) is None,
    decreases s.len() - i,
{
    if i < s.len() {
        lemma_no_match_anywhere(p, s, i + 1);
    }
}

proof fn lemma_some_match(p: Pattern, s: Seq<char>, i: int, q: int)
    requires
        0 <= i <= q < s.len(),
        match_at(p, s, q) is Some,
    ensures
        first_match_from(p, s, i) is Some,
    decreases q - i,
{
    if i < q && match_at(p, s, i) is None {
        lemma_some_match(p, s, i + 1, q);
    }
}

/// Nullability of written types: a list type whose outermost list is required (it ends
/// with `]!`) is not nullable; a type without `!` is nullable; a type that is not a list
/// and holds `!` is not nullable; a list type whose only `!` marks the items of its
/// outermost list (`[String!]`) is nullable.
pub proof fn law_nullability_of_written_types(c: Seq<char>)
    ensures
        has_char(c, '[') && ends_with(c, seq![']', '!']) ==> !type_is_nullable(c),
        !has_char(c, '!') ==> type_is_nullable(c),
        !has_char(c, '[') && has_char(c, '!') ==> !type_is_nullable(c),
        has_char(c, '[') && c.len() >= 2 && c[c.len() - 1] == ']' && c[c.len() - 2] == '!' && (forall|q: int|
            0 <= q < c.len() - 2 ==> c[q] != '!') ==> type_is_nullable(c),
{
    if has_char(c, '[') && c.len() >= 2 && c[c.len() - 1] == ']' && c[c.len() - 2] == '!' && (forall|q: int|
        0 <= q < c.len() - 2 ==> c[q] != '!') {
        lemma_one_bang_before_last_bracket(c);
    }
    if !has_char(c, '!') {
        assert forall|q: int| 0 <= q < c.len() implies (#[trigger] match_at(Pattern::Exclamations, c, q)) is None by {
            assert(c[q] != '!');
        }
        lemma_no_match_anywhere(Pattern::Exclamations, c, 0);
        assert(all_matches(Pattern::Exclamations, c).len() == 0);
    }
    if has_char(c, '!') {
        let q = choose|q: int| 0 <= q < c.len() && c[q] == '!';
        assert(match_at(Pattern::Exclamations, c, q) is Some);
        lemma_some_match(Pattern::Exclamations, c, 0, q);
        crate::patterns::lemma_match_at_bounds(Pattern::Exclamations, c, 0);
        if let Some((a, e)) = first_match_from(Pattern::Exclamations, c, 0) {
            lemma_first_match_bounds(Pattern::Exclamations, c, 0);
            assert(matches_from(Pattern::Exclamations, c, 0).len() > 0);
        }
    }
}

proof fn lemma_skip_no_match(p: Pattern, s: Seq<char>, i: int, j: int)
    requires
        0 <= i <= j <= s.len(),
        forall|q: int| i <= q < j ==> (#[trigger] match_at(p, s, q)) is None,
    ensures
        first_match_from(p, s, i) == first_match_from(p, s, j),
    decreases j - i,
{
    if i < j {
        lemma_skip_no_match(p, s, i + 1, j);
    }
}

/// A list type whose only `!` stands right before its final `]` has one run of `!` and at
/// least one `]`, so it is nullable.
proof fn lemma_one_bang_before_last_bracket(c: Seq<char>)
    requires
        has_char(c, '['),
        c.len() >= 2,
        c[c.len() - 1] == ']',
        c[c.len() - 2] == '!',
        forall|q: int| 0 <= q < c.len() - 2 ==> c[q] != '!',
    ensures
        type_is_nullable(c),
{
    let n = c.len() as int;
    assert forall|q: int| 0 <= q < n - 2 implies (#[trigger] match_at(Pattern::Exclamations, c, q)) is None by {
        assert(c[q] != '!');
    }
    lemma_skip_no_match(Pattern::Exclamations, c, 0, n - 2);
    assert(crate::text::run_end(c, n - 1, crate::text::CharClass::Bang) == n - 1);
    assert(crate::text::run_end(c, n - 2, crate::text::CharClass::Bang) == n - 1);
    assert(match_at(Pattern::Exclamations, c, n - 2) == Some(n - 1));
    assert(first_match_from(Pattern::Exclamations, c, n - 2) == Some((n - 2, n - 1)));
    assert(match_at(Pattern::Exclamations, c, n - 1) is None);
    assert(first_match_from(Pattern::Exclamations, c, n) is None);
    assert(first_match_from(Pattern::Exclamations, c, n - 1) is None);
    assert(matches_from(Pattern::Exclamations, c, n - 1).len() == 0);
    assert(all_matches(Pattern::Exclamations, c).len() == 1);
    assert(match_at(Pattern::ClosingBrackets, c, n - 1) is Some);
    lemma_some_match(Pattern::ClosingBrackets, c, 0, n - 1);
    lemma_first_match_bounds(Pattern::ClosingBrackets, c, 0);
    assert(all_matches(Pattern::ClosingBrackets, c).len() >= 1);
    assert(!ends_with(c, seq![']', '!'])) by {
        if ends_with(c, seq![']', '!']) {
            assert(crate::text::occurs_at(c, seq![']', '!'], n - 2));
            assert(c[n - 1] == '!');
        }
    }
}

proof fn lemma_first_match_bounds(p: Pattern, s: Seq<char>, i: int)
    requires
        0 <= i,
    ensures
        first_match_from(p, s, i) matches Some((a, e)) ==> i <= a < e <= s.len(),
    decreases s.len() - i,
{
    if i < s.len() {
        crate::patterns::lemma_match_at_bounds(p, s, i);
        if match_at(p, s, i) is None {
            lemma_first_match_bounds(p, s, i + 1);
        }
    }
}

/// An extension keeps every directive a type already had, in order, and puts the
/// extension's directives after them.
pub proof fn law_extension_keeps_old_directives(ds: Option<Seq<DirectiveDataV>>, added: Option<Seq<DirectiveDataV>>)
    ensures
        ds matches Some(d) ==> (add_directives(ds, added) matches Some(r) && r.len() >= d.len() && r.subrange(
            0,
            d.len() as int,
        ) == d),
        added matches Some(a) ==> (a.len() > 0 ==> (add_directives(ds, added) matches Some(r) && r.len() >= a.len()
            && r.subrange(r.len() - a.len(), r.len() as int) == a)),
        ds matches Some(d) ==> (added matches Some(a) ==> add_directives(ds, added).unwrap().len() == d.len() + a.len()),
        (ds is None && added is None) ==> add_directives(ds, added) is None,
{
    match (ds, added) {
        (Some(d), Some(a)) => {
            if a.len() > 0 {
                assert((d + a).subrange(0, d.len() as int) =~= d);
                assert((d + a).subrange(d.len() as int, (d + a).len() as int) =~= a);
            } else {
                assert(d.subrange(d.len() - a.len(), d.len() as int) =~= a);
                assert(d.subrange(0, d.len() as int) =~= d);
            }
        },
        (Some(d), None) => {
            assert(d.subrange(0, d.len() as int) =~= d);
        },
        (None, Some(a)) => {
            assert(a.subrange(0, a.len() as int) =~= a);
        },
        _ => {},
    }
}

/// Applying an extension keeps, in every type, the directives it had as the start of its
/// directives, and for types with fields or values keeps its fields or values as the
/// start of its new ones; the extension's directives come at the end of those of each type
/// it extends.
pub proof fn law_extensions_keep_what_types_had(
    es: Seq<SyntaxElementV>,
    i: int,
    objects: Seq<ObjectTypeV>,
    inputs: Seq<ObjectTypeV>,
    interfaces: Seq<InterfaceTypeV>,
    scalars: Seq<ScalarTypeV>,
    enums: Seq<EnumTypeV>,
    unions: Seq<UnionTypeV>,
)
    ensures
        object_extension_view(es, i, objects) matches Some(r) ==> forall|k: int| 0 <= k < r.len() ==> (
            objects[k].directives matches Some(d) ==> (#[trigger] r[k]).directives matches Some(x) && x.len() >= d.len() && x.subrange(0, d.len() as int) == d)
            && r[k].fields.len() >= objects[k].fields.len() && r[k].fields.subrange(0, objects[k].fields.len() as int) == objects[k].fields,
        input_object_extension_view(es, i, inputs) matches Some(r) ==> forall|k: int| 0 <= k < r.len() ==> (
            inputs[k].directives matches Some(d) ==> (#[trigger] r[k]).directives matches Some(x) && x.len() >= d.len() && x.subrange(0, d.len() as int) == d)
            && r[k].fields.len() >= inputs[k].fields.len() && r[k].fields.subrange(0, inputs[k].fields.len() as int) == inputs[k].fields,
        interface_extension_view(es, i, interfaces) matches Some(r) ==> forall|k: int| 0 <= k < r.len() ==> (
            interfaces[k].directives matches Some(d) ==> (#[trigger] r[k]).directives matches Some(x) && x.len() >= d.len() && x.subrange(0, d.len() as int) == d)
            && r[k].fields.len() >= interfaces[k].fields.len() && r[k].fields.subrange(0, interfaces[k].fields.len() as int) == interfaces[k].fields,
        scalar_extension_view(es, i, scalars) matches Some(r) ==> forall|k: int| 0 <= k < r.len() ==> (
            scalars[k].directives matches Some(d) ==> (#[trigger] r[k]).directives matches Some(x) && x.len() >= d.len() && x.subrange(0, d.len() as int) == d),
        enum_extension_view(es, i, enums) matches Some(r) ==> forall|k: int| 0 <= k < r.len() ==> (
            enums[k].directives matches Some(d) ==> (#[trigger] r[k]).directives matches Some(x) && x.len() >= d.len() && x.subrange(0, d.len() as int) == d)
            && r[k].values.len() >= enums[k].values.len() && r[k].values.subrange(0, enums[k].values.len() as int) == enums[k].values,
        union_extension_view(es, i, unions) matches Some(r) ==> forall|k: int| 0 <= k < r.len() ==> (
            unions[k].directives matches Some(d) ==> (#[trigger] r[k]).directives matches Some(x) && x.len() >= d.len() && x.subrange(0, d.len() as int) == d),
{
    assert forall|d: Option<Seq<DirectiveDataV>>, a: Option<Seq<DirectiveDataV>>| #[trigger] add_directives(d, a) == add_directives(d, a) implies
        (d matches Some(dd) ==> (add_directives(d, a) matches Some(x) && x.len() >= dd.len() && x.subrange(0, dd.len() as int) == dd)) by {
        law_extension_keeps_old_directives(d, a);
    }
    if let Some(r) = object_extension_view(es, i, objects) {
        assert forall|k: int| 0 <= k < r.len() implies r[k].fields.subrange(0, objects[k].fields.len() as int) == objects[k].fields by {
            assert(r[k].fields.subrange(0, objects[k].fields.len() as int) =~= objects[k].fields);
        }
    }
    if let Some(r) = input_object_extension_view(es, i, inputs) {
        assert forall|k: int| 0 <= k < r.len() implies r[k].fields.subrange(0, inputs[k].fields.len() as int) == inputs[k].fields by {
            assert(r[k].fields.subrange(0, inputs[k].fields.len() as int) =~= inputs[k].fields);
        }
    }
    if let Some(r) = interface_extension_view(es, i, interfaces) {
        assert forall|k: int| 0 <= k < r.len() implies r[k].fields.subrange(0, interfaces[k].fields.len() as int) == interfaces[k].fields by {
            assert(r[k].fields.subrange(0, interfaces[k].fields.len() as int) =~= interfaces[k].fields);
        }
    }
    if let Some(r) = enum_extension_view(es, i, enums) {
        assert forall|k: int| 0 <= k < r.len() implies r[k].values.subrange(0, enums[k].values.len() as int) == enums[k].values by {
            assert(r[k].values.subrange(0, enums[k].values.len() as int) =~= enums[k].values);
        }
    }
}

proof fn lemma_children_from_nonempty(es: Seq<SyntaxElementV>, i: int, k: int, q: KindQuery, want_node: bool)
    requires
        0 <= k,
    ensures
        children_from(es, i, k, q, want_node).len() > 0 <==> exists|j: int|
            k <= j && #[trigger] crate::syntax::is_child_of_kind(es, i, j, q, want_node),
    decreases es.len() - k,
{
    if !(k >= es.len() || k >= subtree_end(es, i)) {
        lemma_children_from_nonempty(es, i, k + 1, q, want_node);
    }
}

/// A directive definition is repeatable exactly when the `repeatable` keyword stands among
/// its children.
pub proof fn law_repeatable_iff_keyword(es: Seq<SyntaxElementV>, i: int)
    requires
        0 <= i < es.len(),
    ensures
        directive_view(es, i) matches Some(d) ==> (d.repeatable <==> exists|j: int|
            #[trigger] is_child(es, i, j) && !es[j].is_node && es[j].kind == "repeatable_KW"@),
{
    lemma_children_from_nonempty(es, i, i + 1, KindQuery::Kind("repeatable_KW"), false);
    if let Some(d) = directive_view(es, i) {
        if exists|j: int| #[trigger] is_child(es, i, j) && !es[j].is_node && es[j].kind == "repeatable_KW"@ {
            let j = choose|j: int| #[trigger] is_child(es, i, j) && !es[j].is_node && es[j].kind == "repeatable_KW"@;
            assert(crate::syntax::is_child_of_kind(es, i, j, KindQuery::Kind("repeatable_KW"), false));
        }
        if first_child_token(es, i, "repeatable_KW") is Some {
            let j = choose|j: int| i + 1 <= j && #[trigger] crate::syntax::is_child_of_kind(es, i, j, KindQuery::Kind("repeatable_KW"), false);
            assert(is_child(es, i, j));
        }
    }
}


/// A directive read for an enum value, as it was written in the block `v` (the block with
/// its descriptions taken out; `v2` is `v` without its directives that have arguments):
/// either a directive with arguments, named as written and carrying the `parameter: value`
/// pairs read from its argument text, or a bare directive, named as written, with no values.
pub open spec fn read_as_written(d: DirectiveDataV, v: Seq<char>, v2: Seq<char>) -> bool {
    (exists|m: (int, int)|
        #[trigger] all_matches(Pattern::DirectiveWithArguments, v).contains(m) && d.name == at_name(
            directive_name_with_at(v, m, true),
        ) && d.values == directive_data_view(
            replaced(v.subrange(m.0, m.1), directive_name_with_at(v, m, true), Seq::empty()),
        )) || (exists|m: (int, int)|
        #[trigger] all_matches(Pattern::DirectiveName, v2).contains(m) && d.name == at_name(v2.subrange(m.0, m.1))
            && d.values is None)
}

/// The pair kept for a directive comes from a directive match of `v` or of `v2`.
spec fn entry_origin(e: (Seq<char>, Seq<char>), v: Seq<char>, v2: Seq<char>) -> bool {
    (exists|m: (int, int)| #[trigger] all_matches(Pattern::DirectiveWithArguments, v).contains(m) && e == directive_entry(v, m, true))
        || (exists|m: (int, int)| #[trigger] all_matches(Pattern::DirectiveName, v2).contains(m) && e == directive_entry(v2, m, false))
}

spec fn entries_origin(s: Seq<TempV>, v: Seq<char>, v2: Seq<char>) -> bool {
    forall|k: int, j: int| 0 <= k < s.len() && 0 <= j < s[k].directives.len() ==> entry_origin(#[trigger] s[k].directives[j], v, v2)
}

proof fn lemma_value_entries_bare(src: Seq<char>, ms: Seq<(int, int)>, n: int)
    ensures
        forall|k: int| 0 <= k < value_entries(src, ms, n).len() ==> (#[trigger] value_entries(src, ms, n)[k]).directives.len() == 0,
    decreases n,
{
    if n > 0 && n <= ms.len() {
        lemma_value_entries_bare(src, ms, n - 1);
        let s = value_entries(src, ms, n - 1);
        let v = src.subrange(ms[n - 1].0, ms[n - 1].1);
        lemma_key_index_from(s, v, 0);
        let t = insert_fresh(s, v);
        assert forall|k: int| 0 <= k < t.len() implies (#[trigger] t[k]).directives.len() == 0 by {
            if k < s.len() {
                assert(s[k].directives.len() == 0);
            }
        }
    }
}

proof fn lemma_describe_origin(s: Option<Seq<TempV>>, key: Option<Seq<char>>, desc: Seq<char>, v: Seq<char>, v2: Seq<char>)
    ensures
        s matches Some(x) ==> (entries_origin(x, v, v2) ==> (describe(s, key, desc) matches Some(y) ==> entries_origin(y, v, v2))),
{
    if let (Some(x), Some(k)) = (s, key) {
        lemma_key_index_from(x, k, 0);
        if let Some(y) = describe(s, key, desc) {
            if entries_origin(x, v, v2) {
                assert forall|a: int, j: int| 0 <= a < y.len() && 0 <= j < y[a].directives.len() implies entry_origin(#[trigger] y[a].directives[j], v, v2) by {
                    assert(y[a].directives[j] == x[a].directives[j]);
                }
            }
        }
    }
}

proof fn lemma_block_phase_origin(s0: Seq<TempV>, vwd: Seq<char>, ms: Seq<(int, int)>, n: int, v: Seq<char>, v2: Seq<char>)
    requires
        entries_origin(s0, v, v2),
    ensures
        block_phase(s0, vwd, ms, n) matches Some(y) ==> entries_origin(y, v, v2),
    decreases n,
{
    if n > 0 && n <= ms.len() {
        lemma_block_phase_origin(s0, vwd, ms, n - 1, v, v2);
        let prev = block_phase(s0, vwd, ms, n - 1);
        lemma_describe_origin(prev, first_match_text(Pattern::FirstWord, vwd.subrange(ms[n - 1].1, vwd.len() as int)), description_text(vwd, ms[n - 1]), v, v2);
    }
}

proof fn lemma_quoted_phase_origin(s0: Option<Seq<TempV>>, vwd: Seq<char>, w: Seq<char>, ms: Seq<(int, int)>, n: int, v: Seq<char>, v2: Seq<char>)
    ensures
        s0 matches Some(x) ==> (entries_origin(x, v, v2) ==> (quoted_phase(s0, vwd, w, ms, n) matches Some(y) ==> entries_origin(y, v, v2))),
    decreases n,
{
    if n > 0 && n <= ms.len() {
        lemma_quoted_phase_origin(s0, vwd, w, ms, n - 1, v, v2);
        let prev = quoted_phase(s0, vwd, w, ms, n - 1);
        lemma_describe_origin(prev, quoted_key(vwd, w, ms[n - 1]), description_text(w, ms[n - 1]), v, v2);
    }
}

proof fn lemma_push_origin(s: Seq<TempV>, j: int, e: (Seq<char>, Seq<char>), v: Seq<char>, v2: Seq<char>)
    requires
        entries_origin(s, v, v2),
        entry_origin(e, v, v2),
        0 <= j < s.len(),
    ensures
        entries_origin(push_directive(s, j, e), v, v2),
{
    let y = push_directive(s, j, e);
    assert forall|a: int, b: int| 0 <= a < y.len() && 0 <= b < y[a].directives.len() implies entry_origin(#[trigger] y[a].directives[b], v, v2) by {
        if a == j && b == s[j].directives.len() {
            assert(y[a].directives[b] == e);
        } else {
            assert(y[a].directives[b] == s[a].directives[b]);
        }
    }
}

proof fn lemma_lines_phase_origin(
    s0: Seq<TempV>,
    b: bool,
    tv: Seq<char>,
    ls: Seq<Seq<char>>,
    n: int,
    nwa: Seq<char>,
    start: int,
    entry: (Seq<char>, Seq<char>),
    with_args: bool,
    v: Seq<char>,
    v2: Seq<char>,
)
    requires
        entries_origin(s0, v, v2),
        entry_origin(entry, v, v2),
    ensures
        lines_phase((Some(s0), b), tv, ls, n, nwa, start, entry, with_args).0 matches Some(y) ==> entries_origin(y, v, v2),
    decreases n,
{
    if n > 0 && n <= ls.len() {
        lemma_lines_phase_origin(s0, b, tv, ls, n - 1, nwa, start, entry, with_args, v, v2);
        let st = lines_phase((Some(s0), b), tv, ls, n - 1, nwa, start, entry, with_args);
        if let Some(s) = st.0 {
            let t = line_without_directives(ls[n - 1], with_args);
            lemma_first_key_in(s, t, 0);
            if let Some(j) = first_key_in(s, t, 0) {
                lemma_push_origin(s, j, entry, v, v2);
            }
        }
    }
}

proof fn lemma_directive_step_origin(s: Option<Seq<TempV>>, tv: Seq<char>, m: (int, int), with_args: bool, v: Seq<char>, v2: Seq<char>)
    requires
        entry_origin(directive_entry(tv, m, with_args), v, v2),
    ensures
        s matches Some(x) ==> (entries_origin(x, v, v2) ==> (directive_step(s, tv, m, with_args) matches Some(y) ==> entries_origin(y, v, v2))),
{
    if let Some(x) = s {
        if entries_origin(x, v, v2) {
            let nwa = directive_name_with_at(tv, m, with_args);
            let entry = directive_entry(tv, m, with_args);
            lemma_lines_phase_origin(x, false, tv, lines(tv), lines(tv).len() as int, nwa, m.0, entry, with_args, v, v2);
            let st = lines_phase((Some(x), false), tv, lines(tv), lines(tv).len() as int, nwa, m.0, entry, with_args);
            if let Some(s1) = st.0 {
                if let Some(k) = first_match_text(Pattern::FirstWord, fallback_text(tv, m.1, with_args)) {
                    lemma_key_index_from(s1, k, 0);
                    if let Some(j) = key_index(s1, k) {
                        lemma_push_origin(s1, j, entry, v, v2);
                    }
                }
            }
        }
    }
}

proof fn lemma_directives_phase_origin(s0: Option<Seq<TempV>>, tv: Seq<char>, ms: Seq<(int, int)>, n: int, with_args: bool, v: Seq<char>, v2: Seq<char>)
    requires
        forall|k: int| 0 <= k < ms.len() ==> entry_origin(directive_entry(tv, #[trigger] ms[k], with_args), v, v2),
    ensures
        s0 matches Some(x) ==> (entries_origin(x, v, v2) ==> (directives_phase(s0, tv, ms, n, with_args) matches Some(y) ==> entries_origin(y, v, v2))),
    decreases n,
{
    if n > 0 && n <= ms.len() {
        lemma_directives_phase_origin(s0, tv, ms, n - 1, with_args, v, v2);
        let prev = directives_phase(s0, tv, ms, n - 1, with_args);
        lemma_directive_step_origin(prev, tv, ms[n - 1], with_args, v, v2);
        if prev is None {
            let m = ms[n - 1];
            crate::enum_values::lemma_lines_phase_from_none(
                false,
                tv,
                lines(tv),
                lines(tv).len() as int,
                directive_name_with_at(tv, m, with_args),
                m.0,
                directive_entry(tv, m, with_args),
                with_args,
            );
        }
    }
}

/// Every directive attached to an enum value is one written in the block: a directive
/// written with arguments keeps the `parameter: value` pairs read from its arguments, and
/// only a directive written without arguments has no values.
pub proof fn law_enum_value_directives_keep_arguments(raw: Seq<char>)
    ensures
        enum_values_view(raw) matches Some(vs) ==> forall|k: int|
            0 <= k < vs.len() ==> ((#[trigger] vs[k]).directives matches Some(ds) ==> forall|j: int|
                0 <= j < ds.len() ==> read_as_written(
                    #[trigger] ds[j],
                    strip_descriptions(raw, descriptions_read(raw), descriptions_read(raw).len() as int),
                    remove_all(
                        Pattern::DirectiveWithArguments,
                        strip_descriptions(raw, descriptions_read(raw), descriptions_read(raw).len() as int),
                    ),
                )),
{
    let vwd = without_directives(raw);
    let raw_values = remove_all(Pattern::QuotedDescription, remove_all(Pattern::BlockString, vwd));
    let vms = all_matches(Pattern::FirstWord, raw_values);
    let s1 = value_entries(raw_values, vms, vms.len() as int);
    let bms = all_matches(Pattern::BlockString, vwd);
    let s2 = block_phase(s1, vwd, bms, bms.len() as int);
    let w = remove_all(Pattern::BlockString, vwd);
    let qms = all_matches(Pattern::QuotedDescription, w);
    let s3 = quoted_phase(s2, vwd, w, qms, qms.len() as int);
    let descs = descriptions_read(raw);
    let v = strip_descriptions(raw, descs, descs.len() as int);
    let dms = all_matches(Pattern::DirectiveWithArguments, v);
    let s4 = directives_phase(s3, v, dms, dms.len() as int, true);
    let v2 = remove_all(Pattern::DirectiveWithArguments, v);
    let nms = all_matches(Pattern::DirectiveName, v2);
    let s5 = directives_phase(s4, v2, nms, nms.len() as int, false);
    assert(enum_values_state(raw) == s5);
    lemma_value_entries_bare(raw_values, vms, vms.len() as int);
    assert(entries_origin(s1, v, v2));
    lemma_block_phase_origin(s1, vwd, bms, bms.len() as int, v, v2);
    lemma_quoted_phase_origin(s2, vwd, w, qms, qms.len() as int, v, v2);
    assert forall|k: int| 0 <= k < dms.len() implies entry_origin(directive_entry(v, #[trigger] dms[k], true), v, v2) by {
        assert(dms.contains(dms[k]));
    }
    assert forall|k: int| 0 <= k < nms.len() implies entry_origin(directive_entry(v2, #[trigger] nms[k], false), v, v2) by {
        assert(nms.contains(nms[k]));
    }
    lemma_directives_phase_origin(s3, v, dms, dms.len() as int, true, v, v2);
    lemma_directives_phase_origin(s4, v2, nms, nms.len() as int, false, v, v2);
    if s2 is None {
        crate::enum_values::lemma_state_none(raw, 2);
    } else if s3 is None {
        crate::enum_values::lemma_state_none(raw, 3);
    } else if s4 is None {
        crate::enum_values::lemma_state_none(raw, 4);
    }
    lemma_no_arguments_no_values();
    if let Some(y) = s5 {
        let vs = y.map_values(|t: TempV| enum_value_view(t));
        assert forall|k: int| 0 <= k < vs.len() implies ((#[trigger] vs[k]).directives matches Some(ds) ==> forall|j: int|
            0 <= j < ds.len() ==> read_as_written(#[trigger] ds[j], v, v2)) by {
            if let Some(ds) = vs[k].directives {
                assert forall|j: int| 0 <= j < ds.len() implies read_as_written(#[trigger] ds[j], v, v2) by {
                    let e = y[k].directives[j];
                    assert(entry_origin(e, v, v2));
                    assert(ds[j] == DirectiveDataV { name: e.0, values: directive_data_view(e.1) });
                    if exists|m: (int, int)| #[trigger] dms.contains(m) && e == directive_entry(v, m, true) {
                        let m = choose|m: (int, int)| #[trigger] dms.contains(m) && e == directive_entry(v, m, true);
                        assert(dms.contains(m));
                    } else {
                        let m = choose|m: (int, int)| #[trigger] nms.contains(m) && e == directive_entry(v2, m, false);
                        assert(nms.contains(m));
                    }
                }
            }
        }
    }
}

proof fn lemma_no_arguments_no_values()
    ensures
        directive_data_view(Seq::empty()) is None,
{
    let data = crate::directives::directive_argument_text(Seq::empty());
    assert(data.len() == 0);
    assert(all_matches(Pattern::FieldName, data).len() == 0);
}


proof fn lemma_nested_skip(ls: Seq<Seq<char>>, i: int, sp: int, on_next: bool, acc: Seq<SelectionV>)
    requires
        0 <= i <= sp + 1,
    ensures
        nested_loop(ls, i, sp, on_next, acc) == nested_loop(ls, sp + 1, sp, on_next, acc),
    decreases sp + 1 - i,
{
    if i <= sp && i < ls.len() {
        lemma_nested_skip(ls, i + 1, sp, on_next, acc);
    }
}

proof fn lemma_top_skip(ls: Seq<Seq<char>>, i: int, sp: int, on_next: bool, acc: Seq<SelectionV>)
    requires
        1 <= i <= sp + 1,
    ensures
        top_loop(ls, i, sp, on_next, acc) == top_loop(ls, sp + 1, sp, on_next, acc),
    decreases sp + 1 - i,
{
    if i <= sp && i < ls.len() {
        lemma_top_skip(ls, i + 1, sp, on_next, acc);
    }
}

/// Inside a nested selection set, a line that names a parent (a name with `{` on its line,
/// or a name whose `{` comes on a later line) is read together with its nested selections,
/// which stop at some line `c` at or after it; the scan then goes on from line `c + 1`, so
/// that no line up to `c` is read again.
pub proof fn law_nested_scan_resumes_after_block(
    ls: Seq<Seq<char>>,
    idx: int,
    sp: int,
    on_next: bool,
    acc: Seq<SelectionV>,
)
    requires
        sp < idx < ls.len(),
        0 <= idx,
        line_name(ls[idx]) is Some,
        has_char(ls[idx], '{') || (!has_char(ls[idx], '}') && (on_next || is_parent_from(ls, idx + 1))),
    ensures
        nested_selections(ls, idx).1 >= idx,
        nested_loop(ls, idx, sp, on_next, acc) == nested_loop(
            ls,
            nested_selections(ls, idx).1 + 1,
            nested_selections(ls, idx).1,
            on_next && has_char(ls[idx], '{'),
            acc.push(SelectionV::Parent(line_name(ls[idx]).unwrap(), nested_selections(ls, idx).0)),
        ),
{
    lemma_nested_forward(ls, idx);
    let (sub, c) = nested_selections(ls, idx);
    let name = line_name(ls[idx]).unwrap();
    let on2 = on_next && has_char(ls[idx], '{');
    lemma_nested_skip(ls, idx + 1, c, on2, acc.push(SelectionV::Parent(name, sub)));
}

/// At the top of a selection set, a line that names a parent is read together with its
/// nested selections, which stop at some line `c` at or after it; the scan then goes on
/// from line `c + 1`, so that no line up to `c` is read again.
pub proof fn law_top_scan_resumes_after_block(
    ls: Seq<Seq<char>>,
    idx: int,
    sp: int,
    on_next: bool,
    acc: Seq<SelectionV>,
)
    requires
        0 <= idx < ls.len(),
        sp < idx || idx == 0,
        line_name(ls[idx]) is Some,
        has_char(ls[idx], '{') || (!has_char(ls[idx], '}') && (on_next || is_parent_from(ls, idx + 1))),
    ensures
        nested_selections(ls, idx).1 >= idx,
        top_loop(ls, idx, sp, on_next, acc) == top_loop(
            ls,
            nested_selections(ls, idx).1 + 1,
            nested_selections(ls, idx).1,
            on_next && has_char(ls[idx], '{'),
            acc.push(SelectionV::Parent(line_name(ls[idx]).unwrap(), nested_selections(ls, idx).0)),
        ),
{
    lemma_nested_forward(ls, idx);
    let (sub, c) = nested_selections(ls, idx);
    let name = line_name(ls[idx]).unwrap();
    let on2 = on_next && has_char(ls[idx], '{');
    lemma_top_skip(ls, idx + 1, c, on2, acc.push(SelectionV::Parent(name, sub)));
}

} // verus!
