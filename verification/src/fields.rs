//! Fields and arguments: names, written types, nullability, descriptions, directives and
//! default values, read from the syntax tree.
use vstd::prelude::*;
use crate::text::{chars_of, string_of, has_char, contains_char, ends_with, text_ends_with};
use crate::patterns::{
    Pattern,
    all_matches,
    remove_all,
    first_match_text,
    find_all_matches,
    remove_all_matches,
    find_first_match_text,
};
use crate::types::{Config, DirectiveData, DirectiveDataV, FieldArgumentData, FieldArgumentDataV, FieldData, FieldDataV};
use crate::directives::{directive_instance_view, parse_directive_instance};
use crate::syntax::{
    SyntaxElementData,
    SyntaxElementV,
    KindQuery,
    elements_view,
    first_child_node,
    child_nodes,
    first_token_text,
    first_child_node_exec,
    children_exec,
    first_token_text_exec,
    indices_match,
    opt_index,
};

verus! {

/// Text with whitespace taken out.
pub open spec fn without_ws(t: Seq<char>) -> Seq<char> {
    remove_all(Pattern::Whitespace, t)
}

/// The description of node `i`: its `Description` child's text without the quotes and
/// whitespace at its two ends.
pub open spec fn description_of(es: Seq<SyntaxElementV>, i: int) -> Option<Seq<char>> {
    match first_child_node(es, i, KindQuery::Kind("DESCRIPTION")) {
        Some(d) => Some(remove_all(Pattern::DescriptionQuotes, es[d].text)),
        None => None,
    }
}

/// The directives applied on node `i`, read from its `Directives` child.
pub open spec fn directives_of(es: Seq<SyntaxElementV>, i: int) -> Option<Seq<DirectiveDataV>> {
    directive_instance_view(
        match first_child_node(es, i, KindQuery::Kind("DIRECTIVES")) {
            Some(d) => Some(es[d].text),
            None => None,
        },
    )
}

/// The written type: the first run of word characters, brackets and `!`, or the whole text
/// when there is none.
pub open spec fn complete_type(t: Seq<char>) -> Seq<char> {
    match first_match_text(Pattern::CompleteType, t) {
        Some(m) => m,
        None => t,
    }
}

/// The named type inside a written type: brackets and `!` taken out.
pub open spec fn bare_type(c: Seq<char>) -> Seq<char> {
    remove_all(Pattern::BracketsAndExclamation, c)
}

/// A written type is a list when it holds `[`.
pub open spec fn type_is_array(c: Seq<char>) -> bool {
    has_char(c, '[')
}

/// Nullability of a written type: a list type is required when it has more runs of `!`
/// than runs of `]`, or when it ends with `]!`; another type is required when it has a `!`.
pub open spec fn type_is_nullable(c: Seq<char>) -> bool {
    let bangs = all_matches(Pattern::Exclamations, c).len();
    let closings = all_matches(Pattern::ClosingBrackets, c).len();
    if type_is_array(c) {
        if bangs > closings {
            false
        } else if ends_with(c, seq![']', '!']) {
            false
        } else {
            true
        }
    } else {
        bangs == 0
    }
}

/// The written type of a field whose type text may hold a comment: with a `#` in it,
/// everything up to the end of the last comment is dropped first.
pub open spec fn type_without_comment(t: Seq<char>) -> Seq<char> {
    if has_char(t, '#') {
        remove_all(Pattern::CommentsBeforeType, t)
    } else {
        t
    }
}

/// The default value of node `i`: the first word of its `DefaultValue` child. The outer
/// `None` stands for a default value with no word in it, on which reading panics.
pub open spec fn default_value_of(es: Seq<SyntaxElementV>, i: int) -> Option<Option<Seq<char>>> {
    match first_child_node(es, i, KindQuery::Kind("DEFAULT_VALUE")) {
        Some(d) => match first_match_text(Pattern::Words, es[d].text) {
            Some(w) => Some(Some(w)),
            None => None,
        },
        None => Some(None),
    }
}

/// The text of the first child node of `i` answering `q`.
pub open spec fn child_text(es: Seq<SyntaxElementV>, i: int, q: KindQuery) -> Option<Seq<char>> {
    match first_child_node(es, i, q) {
        Some(j) => Some(es[j].text),
        None => None,
    }
}

/// The text of the name of node `i` (its `Name` child's first token); `None` where reading it
/// panics.
pub open spec fn name_token_of(es: Seq<SyntaxElementV>, i: int) -> Option<Seq<char>> {
    match first_child_node(es, i, KindQuery::Kind("NAME")) {
        Some(n) => first_token_text(es, n),
        None => None,
    }
}

/// The argument at `j` (an `InputValueDefinition`), number `index` of its list. With
/// `word_type`, the argument type is the first word of the type text (a field's argument);
/// without, the type text with brackets and `!` taken out (a directive's argument).
/// `None` where reading it panics.
pub open spec fn argument_view(
    es: Seq<SyntaxElementV>,
    j: int,
    index: usize,
    word_type: bool,
) -> Option<FieldArgumentDataV> {
    match (child_text(es, j, KindQuery::Kind("NAME")), child_text(es, j, KindQuery::AnyType), default_value_of(es, j)) {
        (Some(name), Some(t), Some(default_value)) => {
            let complete = complete_type(t);
            Some(FieldArgumentDataV {
                argument_index: index,
                name,
                argument_type: if word_type {
                    match first_match_text(Pattern::Words, t) {
                        Some(w) => w,
                        None => bare_type(t),
                    }
                } else {
                    bare_type(t)
                },
                argument_complete_type: complete,
                directives: directives_of(es, j),
                description: description_of(es, j),
                default_value,
                is_nullable: type_is_nullable(complete),
                is_array: type_is_array(complete),
                is_enum: false,
                is_scalar: false,
                is_union: false,
            })
        },
        _ => None,
    }
}

/// The first `n` arguments of the list `ivds`.
pub open spec fn arguments_prefix(es: Seq<SyntaxElementV>, ivds: Seq<int>, n: int, word_type: bool) -> Option<Seq<FieldArgumentDataV>>
    decreases n,
{
    if n <= 0 {
        Some(Seq::empty())
    } else {
        match arguments_prefix(es, ivds, n - 1, word_type) {
            Some(acc) => match argument_view(es, ivds[n - 1], (n - 1) as usize, word_type) {
                Some(a) => Some(acc.push(a)),
                None => None,
            },
            None => None,
        }
    }
}

/// The arguments of node `i`: the `InputValueDefinition`s of its `ArgumentsDefinition` child.
pub open spec fn arguments_of(es: Seq<SyntaxElementV>, i: int, word_type: bool) -> Option<Seq<FieldArgumentDataV>> {
    match first_child_node(es, i, KindQuery::Kind("ARGUMENTS_DEFINITION")) {
        Some(a) => {
            let ivds = child_nodes(es, a, KindQuery::Kind("INPUT_VALUE_DEFINITION"));
            arguments_prefix(es, ivds, ivds.len() as int, word_type)
        },
        None => Some(Seq::empty()),
    }
}

/// A list, or `None` when it is empty.
pub open spec fn nonempty<T>(s: Seq<T>) -> Option<Seq<T>> {
    if s.len() != 0 {
        Some(s)
    } else {
        None
    }
}

/// The three kinds of definition that `parse_field` reads, each at a position of the
/// element list of a syntax dump.
#[derive(Clone, Copy, PartialEq, Eq, Debug)]
pub enum FieldDefs {
    FieldDef(usize),
    InputValueDef(usize),
    VariableDef(usize),
}

/// The field read from a field definition, an input value definition or a variable
/// definition; `None` where reading it panics.
pub open spec fn field_view(es: Seq<SyntaxElementV>, def: FieldDefs) -> Option<FieldDataV> {
    match def {
        FieldDefs::FieldDef(i) => {
            match (name_token_of(es, i as int), child_text(es, i as int, KindQuery::AnyType), arguments_of(es, i as int, true)) {
                (Some(n), Some(t), Some(args)) => {
                    let complete = complete_type(t);
                    Some(FieldDataV {
                        name: without_ws(n),
                        field_type: bare_type(complete),
                        field_complete_type: complete,
                        directives: directives_of(es, i as int),
                        description: description_of(es, i as int),
                        arguments: nonempty(args),
                        default_value: None,
                        is_nullable: type_is_nullable(complete),
                        is_array: type_is_array(complete),
                        is_enum: false,
                        is_scalar: false,
                        is_union: false,
                    })
                },
                _ => None,
            }
        },
        FieldDefs::InputValueDef(i) => {
            match (name_token_of(es, i as int), child_text(es, i as int, KindQuery::AnyType), default_value_of(es, i as int)) {
                (Some(n), Some(t), Some(dv)) => {
                    let complete = complete_type(type_without_comment(t));
                    Some(FieldDataV {
                        name: without_ws(n),
                        field_type: bare_type(complete),
                        field_complete_type: complete,
                        directives: directives_of(es, i as int),
                        description: description_of(es, i as int),
                        arguments: None,
                        default_value: dv,
                        is_nullable: type_is_nullable(complete),
                        is_array: type_is_array(complete),
                        is_enum: false,
                        is_scalar: false,
                        is_union: false,
                    })
                },
                _ => None,
            }
        },
        FieldDefs::VariableDef(i) => {
            match (child_text(es, i as int, KindQuery::AnyType), default_value_of(es, i as int)) {
                (Some(t), Some(dv)) => {
                    let complete = complete_type(type_without_comment(t));
                    Some(FieldDataV {
                        name: without_ws(es[i as int].text),
                        field_type: bare_type(complete),
                        field_complete_type: complete,
                        directives: directives_of(es, i as int),
                        description: None,
                        arguments: None,
                        default_value: dv,
                        is_nullable: type_is_nullable(complete),
                        is_array: type_is_array(complete),
                        is_enum: false,
                        is_scalar: false,
                        is_union: false,
                    })
                },
                _ => None,
            }
        },
    }
}


/// Whether a written type is nullable.
pub fn nullable_exec(c: &[char]) -> (r: bool)
    ensures
        r == type_is_nullable(c@),
{
    let bangs = find_all_matches(Pattern::Exclamations, c).len();
    let closings = find_all_matches(Pattern::ClosingBrackets, c).len();
    if contains_char(c, '[') {
        if bangs > closings {
            false
        } else {
            let tail: Vec<char> = vec![']', '!'];
            assert(tail@ =~= seq![']', '!']);
            !text_ends_with(c, tail.as_slice())
        }
    } else {
        bangs == 0
    }
}

/// Executable `without_ws` on a string.
pub fn without_ws_exec(t: &String) -> (r: String)
    ensures
        r@ == without_ws(t@),
{
    let cs = chars_of(t.as_str());
    let v = remove_all_matches(Pattern::Whitespace, cs.as_slice());
    string_of(v.as_slice())
}

/// Executable `description_of`.
pub fn read_description(es: &Vec<SyntaxElementData>, i: usize) -> (r: Option<String>)
    requires
        i < es@.len(),
    ensures
        r.deep_view() == description_of(elements_view(es), i as int),
{
    match first_child_node_exec(es, i, KindQuery::Kind("DESCRIPTION")) {
        Some(d) => {
            assert(elements_view(es)[d as int] == es@[d as int].deep_view());
            let cs = chars_of(es[d].text.as_str());
            let v = remove_all_matches(Pattern::DescriptionQuotes, cs.as_slice());
            Some(string_of(v.as_slice()))
        },
        None => None,
    }
}

/// Executable `directives_of`.
pub fn read_directives(es: &Vec<SyntaxElementData>, i: usize, config: &Config) -> (r: Option<Vec<DirectiveData>>)
    requires
        i < es@.len(),
    ensures
        r.deep_view() == directives_of(elements_view(es), i as int),
{
    match first_child_node_exec(es, i, KindQuery::Kind("DIRECTIVES")) {
        Some(d) => {
            assert(elements_view(es)[d as int] == es@[d as int].deep_view());
            parse_directive_instance(Some(es[d].text.as_str()), config)
        },
        None => parse_directive_instance(None, config),
    }
}

/// Executable `child_text`.
pub fn read_child_text(es: &Vec<SyntaxElementData>, i: usize, q: KindQuery) -> (r: Option<&String>)
    requires
        i < es@.len(),
    ensures
        match r {
            Some(t) => child_text(elements_view(es), i as int, q) == Some(t@),
            None => child_text(elements_view(es), i as int, q) is None,
        },
{
    match first_child_node_exec(es, i, q) {
        Some(j) => {
            assert(elements_view(es)[j as int] == es@[j as int].deep_view());
            Some(&es[j].text)
        },
        None => None,
    }
}

/// Executable `name_token_of`.
pub fn read_name_token(es: &Vec<SyntaxElementData>, i: usize) -> (r: Option<&String>)
    requires
        i < es@.len(),
    ensures
        match r {
            Some(t) => name_token_of(elements_view(es), i as int) == Some(t@),
            None => name_token_of(elements_view(es), i as int) is None,
        },
{
    match first_child_node_exec(es, i, KindQuery::Kind("NAME")) {
        Some(n) => first_token_text_exec(es, n),
        None => None,
    }
}

/// Executable `default_value_of`.
pub fn read_default_value(es: &Vec<SyntaxElementData>, i: usize) -> (r: Option<Option<String>>)
    requires
        i < es@.len(),
    ensures
        r.deep_view() == default_value_of(elements_view(es), i as int),
{
    match first_child_node_exec(es, i, KindQuery::Kind("DEFAULT_VALUE")) {
        Some(d) => {
            assert(elements_view(es)[d as int] == es@[d as int].deep_view());
            let cs = chars_of(es[d].text.as_str());
            match find_first_match_text(Pattern::Words, cs.as_slice()) {
                Some(w) => Some(Some(string_of(w.as_slice()))),
                None => None,
            }
        },
        None => Some(None),
    }
}

/// Executable `complete_type`.
pub fn complete_type_exec(t: &[char]) -> (r: Vec<char>)
    ensures
        r@ == complete_type(t@),
{
    match find_first_match_text(Pattern::CompleteType, t) {
        Some(m) => m,
        None => {
            let mut v: Vec<char> = Vec::new();
            let mut k: usize = 0;
            while k < t.len()
                invariant
                    k <= t@.len(),
                    v@ == t@.take(k as int),
                decreases t.len() - k,
            {
                v.push(t[k]);
                k = k + 1;
                assert(v@ =~= t@.take(k as int));
            }
            assert(t@.take(t@.len() as int) =~= t@);
            v
        },
    }
}

/// Executable `argument_view`.
pub fn read_argument(es: &Vec<SyntaxElementData>, j: usize, index: usize, word_type: bool, config: &Config) -> (r: Option<FieldArgumentData>)
    requires
        j < es@.len(),
    ensures
        r.deep_view() == argument_view(elements_view(es), j as int, index, word_type),
{
    let name = read_child_text(es, j, KindQuery::Kind("NAME"));
    let t = read_child_text(es, j, KindQuery::AnyType);
    let dv = read_default_value(es, j);
    match (name, t, dv) {
        (Some(name), Some(t), Some(default_value)) => {
            let tc = chars_of(t.as_str());
            let complete = complete_type_exec(tc.as_slice());
            let argument_type = if word_type {
                match find_first_match_text(Pattern::Words, tc.as_slice()) {
                    Some(w) => string_of(w.as_slice()),
                    None => string_of(remove_all_matches(Pattern::BracketsAndExclamation, tc.as_slice()).as_slice()),
                }
            } else {
                string_of(remove_all_matches(Pattern::BracketsAndExclamation, tc.as_slice()).as_slice())
            };
            let is_nullable = nullable_exec(complete.as_slice());
            let is_array = contains_char(complete.as_slice(), '[');
            Some(FieldArgumentData {
                argument_index: index,
                name: name.clone(),
                argument_type,
                argument_complete_type: string_of(complete.as_slice()),
                directives: read_directives(es, j, config),
                description: read_description(es, j),
                default_value,
                is_nullable,
                is_array,
                is_enum: false,
                is_scalar: false,
                is_union: false,
            })
        },
        _ => None,
    }
}

/// Executable `arguments_of`.
pub fn read_arguments(es: &Vec<SyntaxElementData>, i: usize, word_type: bool, config: &Config) -> (r: Option<Vec<FieldArgumentData>>)
    requires
        i < es@.len(),
    ensures
        r.deep_view() == arguments_of(elements_view(es), i as int, word_type),
{
    let ghost g = elements_view(es);
    let mut out: Vec<FieldArgumentData> = Vec::new();
    match first_child_node_exec(es, i, KindQuery::Kind("ARGUMENTS_DEFINITION")) {
        Some(a) => {
            let ivds = children_exec(es, a, KindQuery::Kind("INPUT_VALUE_DEFINITION"), true);
            let ghost gi = child_nodes(g, a as int, KindQuery::Kind("INPUT_VALUE_DEFINITION"));
            let mut k: usize = 0;
            assert(out.deep_view() =~= Seq::<FieldArgumentDataV>::empty());
            while k < ivds.len()
                invariant
                    k <= ivds@.len(),
                    g == elements_view(es),
                    first_child_node(g, i as int, KindQuery::Kind("ARGUMENTS_DEFINITION")) == Some(a as int),
                    gi == child_nodes(g, a as int, KindQuery::Kind("INPUT_VALUE_DEFINITION")),
                    indices_match(ivds@, gi),
                    forall|m: int| 0 <= m < ivds@.len() ==> #[trigger] ivds@[m] < es@.len(),
                    arguments_prefix(g, gi, k as int, word_type) == Some(out.deep_view()),
                decreases ivds.len() - k,
            {
                match read_argument(es, ivds[k], k, word_type, config) {
                    Some(arg) => {
                        assert(ivds@[k as int] as int == gi[k as int]);
                        let ghost before = out.deep_view();
                        out.push(arg);
                        assert(out.deep_view() =~= before.push(arg.deep_view()));
                    },
                    None => {
                        assert(ivds@[k as int] as int == gi[k as int]);
                        assert(arguments_prefix(g, gi, k as int + 1, word_type) is None);
                        proof {
                            lemma_arguments_prefix_none(g, gi, k as int + 1, ivds@.len() as int, word_type);
                        }
                        return None;
                    },
                }
                k = k + 1;
            }
            Some(out)
        },
        None => {
            assert(out.deep_view() =~= Seq::<FieldArgumentDataV>::empty());
            Some(out)
        },
    }
}

proof fn lemma_arguments_prefix_none(es: Seq<SyntaxElementV>, ivds: Seq<int>, n: int, m: int, word_type: bool)
    requires
        n <= m,
        arguments_prefix(es, ivds, n, word_type) is None,
    ensures
        arguments_prefix(es, ivds, m, word_type) is None,
    decreases m - n,
{
    if n < m {
        lemma_arguments_prefix_none(es, ivds, n, m - 1, word_type);
    }
}


/// Executable `type_without_comment` followed by `complete_type`.
fn field_type_text(t: &String, strip_comment: bool) -> (r: Vec<char>)
    ensures
        r@ == complete_type(if strip_comment { type_without_comment(t@) } else { t@ }),
{
    let tc = chars_of(t.as_str());
    if strip_comment && contains_char(tc.as_slice(), '#') {
        let stripped = remove_all_matches(Pattern::CommentsBeforeType, tc.as_slice());
        complete_type_exec(stripped.as_slice())
    } else {
        complete_type_exec(tc.as_slice())
    }
}

/// Executable `field_view`.
pub fn read_field(es: &Vec<SyntaxElementData>, def: FieldDefs, config: &Config) -> (r: Option<FieldData>)
    ensures
        r.deep_view() == field_view(elements_view(es), def),
{
    let i = match def {
        FieldDefs::FieldDef(i) => i,
        FieldDefs::InputValueDef(i) => i,
        FieldDefs::VariableDef(i) => i,
    };
    if i >= es.len() {
        assert(child_nodes(elements_view(es), i as int, KindQuery::Kind("NAME")) =~= Seq::empty());
        assert(child_nodes(elements_view(es), i as int, KindQuery::AnyType) =~= Seq::empty());
        return None;
    }
    match def {
        FieldDefs::FieldDef(i) => {
            let n = read_name_token(es, i);
            let t = read_child_text(es, i, KindQuery::AnyType);
            let args = read_arguments(es, i, true, config);
            match (n, t, args) {
                (Some(n), Some(t), Some(args)) => {
                    let complete = field_type_text(t, false);
                    let arguments = if args.len() != 0 { Some(args) } else { None };
                    Some(FieldData {
                        name: without_ws_exec(n),
                        field_type: string_of(remove_all_matches(Pattern::BracketsAndExclamation, complete.as_slice()).as_slice()),
                        field_complete_type: string_of(complete.as_slice()),
                        directives: read_directives(es, i, config),
                        description: read_description(es, i),
                        arguments,
                        default_value: None,
                        is_nullable: nullable_exec(complete.as_slice()),
                        is_array: contains_char(complete.as_slice(), '['),
                        is_enum: false,
                        is_scalar: false,
                        is_union: false,
                    })
                },
                _ => None,
            }
        },
        FieldDefs::InputValueDef(i) => {
            let n = read_name_token(es, i);
            let t = read_child_text(es, i, KindQuery::AnyType);
            let dv = read_default_value(es, i);
            match (n, t, dv) {
                (Some(n), Some(t), Some(dv)) => {
                    let complete = field_type_text(t, true);
                    Some(FieldData {
                        name: without_ws_exec(n),
                        field_type: string_of(remove_all_matches(Pattern::BracketsAndExclamation, complete.as_slice()).as_slice()),
                        field_complete_type: string_of(complete.as_slice()),
                        directives: read_directives(es, i, config),
                        description: read_description(es, i),
                        arguments: None,
                        default_value: dv,
                        is_nullable: nullable_exec(complete.as_slice()),
                        is_array: contains_char(complete.as_slice(), '['),
                        is_enum: false,
                        is_scalar: false,
                        is_union: false,
                    })
                },
                _ => None,
            }
        },
        FieldDefs::VariableDef(i) => {
            let t = read_child_text(es, i, KindQuery::AnyType);
            let dv = read_default_value(es, i);
            match (t, dv) {
                (Some(t), Some(dv)) => {
                    let complete = field_type_text(t, true);
                    assert(elements_view(es)[i as int] == es@[i as int].deep_view());
                    Some(FieldData {
                        name: without_ws_exec(&es[i].text),
                        field_type: string_of(remove_all_matches(Pattern::BracketsAndExclamation, complete.as_slice()).as_slice()),
                        field_complete_type: string_of(complete.as_slice()),
                        directives: read_directives(es, i, config),
                        description: None,
                        arguments: None,
                        default_value: dv,
                        is_nullable: nullable_exec(complete.as_slice()),
                        is_array: contains_char(complete.as_slice(), '['),
                        is_enum: false,
                        is_scalar: false,
                        is_union: false,
                    })
                },
                _ => None,
            }
        },
    }
}


/// Reads a field definition, an input value definition or a variable definition, for one
/// that `field_view` can read.
pub fn parse_field(es: &Vec<SyntaxElementData>, field_def: FieldDefs, config: &Config) -> (r: FieldData)
    requires
        field_view(elements_view(es), field_def) is Some,
    ensures
        Some(r.deep_view()) == field_view(elements_view(es), field_def),
{
    read_field(es, field_def, config).unwrap()
}

} // verus!
