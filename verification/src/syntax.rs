//! The concrete syntax tree that `apollo_parser` builds for a schema, held as the list of its
//! elements in preorder, and the typed accessors of that tree.
use vstd::prelude::*;
use apollo_parser::ast::AstNode;
use crate::text::{string_is, chars_of, is_ws, char_is_ws, has_char, contains_char};

verus! {

/// One element of the syntax tree: a node or a token, with its kind (as the parser names
/// it), its text, and how many nodes `ancestors` counts for it (a node counts itself).
pub struct SyntaxElementData {
    pub kind: String,
    pub text: String,
    pub is_node: bool,
    pub ancestors: usize,
}

/// View of `SyntaxElementData`.
pub struct SyntaxElementV {
    pub kind: Seq<char>,
    pub text: Seq<char>,
    pub is_node: bool,
    pub ancestors: usize,
}

impl DeepView for SyntaxElementData {
    type V = SyntaxElementV;

    open spec fn deep_view(&self) -> SyntaxElementV {
        SyntaxElementV {
            kind: self.kind@,
            text: self.text@,
            is_node: self.is_node,
            ancestors: self.ancestors,
        }
    }
}

/// What the parser gives for a text: its error messages, and the elements of the tree of
/// the document in preorder (the document node first).
pub struct SyntaxDump {
    pub errors: Vec<String>,
    pub elements: Vec<SyntaxElementData>,
}

/// View of `SyntaxDump`.
pub struct SyntaxDumpV {
    pub errors: Seq<Seq<char>>,
    pub elements: Seq<SyntaxElementV>,
}

impl DeepView for SyntaxDump {
    type V = SyntaxDumpV;

    open spec fn deep_view(&self) -> SyntaxDumpV {
        SyntaxDumpV { errors: self.errors.deep_view(), elements: self.elements.deep_view() }
    }
}

/// What `apollo_parser` gives for a text: its errors and its syntax tree in preorder.
pub uninterp spec fn graphql_syntax(text: Seq<char>) -> SyntaxDumpV;

/// A character that can start a GraphQL name: an ASCII letter or `_`.
pub open spec fn is_name_start(c: char) -> bool {
    ('a' <= c && c <= 'z') || ('A' <= c && c <= 'Z') || c == '_'
}

/// The nearest character before position `j` that is not whitespace or `,`.
pub open spec fn prev_significant(t: Seq<char>, j: int) -> Option<char>
    decreases j,
{
    if j <= 0 || j > t.len() {
        None
    } else if is_ws(t[j - 1]) || t[j - 1] == ',' {
        prev_significant(t, j - 1)
    } else {
        Some(t[j - 1])
    }
}

/// The `[` at `i` is followed at once by another `[` or by the start of a name, or it opens
/// a default value: in a text without `#`, the nearest character before it that is not
/// whitespace or `,` is `=`.
pub open spec fn bracket_ok(t: Seq<char>, i: int) -> bool {
    ||| i + 1 < t.len() && (t[i + 1] == '[' || is_name_start(t[i + 1]))
    ||| !has_char(t, '#') && prev_significant(t, i) == Some('=')
}

/// Every `[` of the text is `bracket_ok`: no list type of the text has a `[` that the
/// parser cannot take.
pub open spec fn brackets_open_names(t: Seq<char>) -> bool {
    forall|i: int| 0 <= i < t.len() && #[trigger] t[i] == '[' ==> bracket_ok(t, i)
}

/// Executable `prev_significant`.
fn find_prev_significant(t: &[char], j: usize) -> (r: Option<char>)
    requires
        j <= t@.len(),
    ensures
        r == prev_significant(t@, j as int),
{
    let mut k = j;
    while k > 0
        invariant
            k <= j <= t@.len(),
            prev_significant(t@, k as int) == prev_significant(t@, j as int),
        decreases k,
    {
        let c = t[k - 1];
        if !(char_is_ws(c) || c == ',') {
            return Some(c);
        }
        k = k - 1;
    }
    None
}

/// Whether every `[` of the text is `bracket_ok` (`brackets_open_names`).
pub fn check_brackets(text: &str) -> (r: bool)
    ensures
        r == brackets_open_names(text@),
{
    let t = chars_of(text);
    let no_hash = !contains_char(t.as_slice(), '#');
    let mut i: usize = 0;
    while i < t.len()
        invariant
            i <= t@.len(),
            t@ == text@,
            no_hash == !has_char(t@, '#'),
            forall|j: int| 0 <= j < i && #[trigger] t@[j] == '[' ==> bracket_ok(t@, j),
        decreases t.len() - i,
    {
        if t[i] == '[' {
            let mut ok = false;
            if i + 1 < t.len() {
                let c = t[i + 1];
                ok = c == '[' || ('a' <= c && c <= 'z') || ('A' <= c && c <= 'Z') || c == '_';
            }
            if !ok && no_hash {
                ok = find_prev_significant(t.as_slice(), i) == Some('=');
            }
            if !ok {
                return false;
            }
        }
        i = i + 1;
    }
    true
}

/// Parses `text` with `apollo_parser::Parser` and lists the error messages and, in preorder,
/// the elements of the document's tree, each with its kind (`Debug` of the parser's
/// `SyntaxKind`), text, whether it is a node, and the count of `ancestors`.
/// The contract says only that the result is the one the parser gives for `text`, as named
/// by `graphql_syntax`.
/// `Parser::parse` panics where a list type's `[` is followed by anything but another `[`
/// or a name (whitespace, `]`, the end of the text: `grammar/ty.rs`, which pops the next
/// token whatever it is). A type starts after `:` and the ignored tokens that follow it
/// (whitespace, commas, comments), and a nested list type starts right after `[`; so a `[`
/// that `=` precedes across whitespace and commas, in a text without `#` (no comment), opens
/// a value, not a type. The `requires` leaves out every text with a `[` that is neither
/// followed by `[` or a name nor opens such a value. What is left unsaid: the parser follows nested lists, values and
/// selections by recursion, and a text nested deeply enough to exhaust the thread's stack
/// is not ruled out.
#[verifier::external_body]
pub(crate) fn parse_graphql(text: &str) -> (r: SyntaxDump)
    requires
        brackets_open_names(text@),
    ensures
        r.deep_view() == graphql_syntax(text@),
{
    let tree = apollo_parser::Parser::new(text).parse();
    let errors = tree.errors().map(|e| e.message().to_string()).collect();
    let mut elements = Vec::new();
    for el in tree.document().syntax().descendants_with_tokens() {
        elements.push(SyntaxElementData {
            kind: format!("{:?}", el.kind()),
            text: el.to_string(),
            is_node: el.as_node().is_some(),
            ancestors: el.ancestors().count(),
        });
    }
    SyntaxDump { errors, elements }
}

/// The depth of an element: the number of nodes strictly above it.
pub open spec fn depth(e: SyntaxElementV) -> int {
    if e.is_node {
        e.ancestors - 1
    } else {
        e.ancestors as int
    }
}

/// The end of the subtree of element `i`: the first later element that is not deeper.
pub open spec fn subtree_end_from(es: Seq<SyntaxElementV>, i: int, k: int) -> int
    decreases es.len() - k,
{
    if k < 0 || k >= es.len() {
        es.len() as int
    } else if depth(es[k]) <= depth(es[i]) {
        k
    } else {
        subtree_end_from(es, i, k + 1)
    }
}

/// The end of the subtree of element `i`.
pub open spec fn subtree_end(es: Seq<SyntaxElementV>, i: int) -> int {
    subtree_end_from(es, i, i + 1)
}

/// Element `j` is a child of element `i`.
pub open spec fn is_child(es: Seq<SyntaxElementV>, i: int, j: int) -> bool {
    0 <= i < j < subtree_end(es, i) && j < es.len() && depth(es[j]) == depth(es[i]) + 1
}

/// Kinds that a query asks for: a single kind, or one of the kinds that `Type`, `Selection`
/// or `Definition` of the parser's typed tree cast from.
#[derive(Clone, Copy, PartialEq, Eq, Debug)]
pub enum KindQuery {
    Kind(&'static str),
    AnyType,
    AnySelection,
    AnyDefinition,
}

/// Kinds that `Definition` casts from.
pub open spec fn is_definition_kind(k: Seq<char>) -> bool {
    ||| k == "OPERATION_DEFINITION"@
    ||| k == "FRAGMENT_DEFINITION"@
    ||| k == "DIRECTIVE_DEFINITION"@
    ||| k == "SCHEMA_DEFINITION"@
    ||| k == "SCALAR_TYPE_DEFINITION"@
    ||| k == "OBJECT_TYPE_DEFINITION"@
    ||| k == "INTERFACE_TYPE_DEFINITION"@
    ||| k == "UNION_TYPE_DEFINITION"@
    ||| k == "ENUM_TYPE_DEFINITION"@
    ||| k == "INPUT_OBJECT_TYPE_DEFINITION"@
    ||| k == "SCHEMA_EXTENSION"@
    ||| k == "SCALAR_TYPE_EXTENSION"@
    ||| k == "OBJECT_TYPE_EXTENSION"@
    ||| k == "INTERFACE_TYPE_EXTENSION"@
    ||| k == "UNION_TYPE_EXTENSION"@
    ||| k == "ENUM_TYPE_EXTENSION"@
    ||| k == "INPUT_OBJECT_TYPE_EXTENSION"@
}

/// Whether kind `k` answers query `q`.
pub open spec fn kind_matches(q: KindQuery, k: Seq<char>) -> bool {
    match q {
        KindQuery::Kind(s) => k == s@,
        KindQuery::AnyType => k == "NAMED_TYPE"@ || k == "LIST_TYPE"@ || k == "NON_NULL_TYPE"@,
        KindQuery::AnySelection => k == "FIELD"@ || k == "FRAGMENT_SPREAD"@ || k
            == "INLINE_FRAGMENT"@,
        KindQuery::AnyDefinition => is_definition_kind(k),
    }
}

fn kind_answers(q: KindQuery, k: &String) -> (r: bool)
    ensures
        r == kind_matches(q, k@),
{
    match q {
        KindQuery::Kind(s) => string_is(k, s),
        KindQuery::AnyType => string_is(k, "NAMED_TYPE") || string_is(k, "LIST_TYPE")
            || string_is(k, "NON_NULL_TYPE"),
        KindQuery::AnySelection => string_is(k, "FIELD") || string_is(k, "FRAGMENT_SPREAD")
            || string_is(k, "INLINE_FRAGMENT"),
        KindQuery::AnyDefinition => string_is(k, "OPERATION_DEFINITION") || string_is(
            k,
            "FRAGMENT_DEFINITION",
        ) || string_is(k, "DIRECTIVE_DEFINITION") || string_is(k, "SCHEMA_DEFINITION")
            || string_is(k, "SCALAR_TYPE_DEFINITION") || string_is(k, "OBJECT_TYPE_DEFINITION")
            || string_is(k, "INTERFACE_TYPE_DEFINITION") || string_is(k, "UNION_TYPE_DEFINITION")
            || string_is(k, "ENUM_TYPE_DEFINITION") || string_is(
            k,
            "INPUT_OBJECT_TYPE_DEFINITION",
        ) || string_is(k, "SCHEMA_EXTENSION") || string_is(k, "SCALAR_TYPE_EXTENSION")
            || string_is(k, "OBJECT_TYPE_EXTENSION") || string_is(k, "INTERFACE_TYPE_EXTENSION")
            || string_is(k, "UNION_TYPE_EXTENSION") || string_is(k, "ENUM_TYPE_EXTENSION")
            || string_is(k, "INPUT_OBJECT_TYPE_EXTENSION"),
    }
}

/// Element `j` is a child of `i` that is a node (`want_node`) or token of a kind that
/// answers `q`.
pub open spec fn is_child_of_kind(
    es: Seq<SyntaxElementV>,
    i: int,
    j: int,
    q: KindQuery,
    want_node: bool,
) -> bool {
    is_child(es, i, j) && es[j].is_node == want_node && kind_matches(q, es[j].kind)
}

/// The children of `i` from position `k` on that are nodes or tokens of a kind answering `q`,
/// in order.
pub open spec fn children_from(
    es: Seq<SyntaxElementV>,
    i: int,
    k: int,
    q: KindQuery,
    want_node: bool,
) -> Seq<int>
    decreases es.len() - k,
{
    if k < 0 || k >= es.len() || k >= subtree_end(es, i) {
        Seq::empty()
    } else if is_child_of_kind(es, i, k, q, want_node) {
        seq![k] + children_from(es, i, k + 1, q, want_node)
    } else {
        children_from(es, i, k + 1, q, want_node)
    }
}

/// The child nodes of `i` whose kind answers `q`, in order (what `support::children` gives).
pub open spec fn child_nodes(es: Seq<SyntaxElementV>, i: int, q: KindQuery) -> Seq<int> {
    children_from(es, i, i + 1, q, true)
}

/// The first child node of `i` whose kind answers `q` (what `support::child` gives).
pub open spec fn first_child_node(es: Seq<SyntaxElementV>, i: int, q: KindQuery) -> Option<int> {
    if child_nodes(es, i, q).len() > 0 {
        Some(child_nodes(es, i, q)[0])
    } else {
        None
    }
}

/// The first child token of `i` of kind `k` (what `support::token` gives).
pub open spec fn first_child_token(es: Seq<SyntaxElementV>, i: int, k: &'static str) -> Option<int> {
    let c = children_from(es, i, i + 1, KindQuery::Kind(k), false);
    if c.len() > 0 {
        Some(c[0])
    } else {
        None
    }
}

/// The text of the first child of node `i` when that child is a token (what `Name::text`
/// gives; `None` where that method would panic).
pub open spec fn first_token_text(es: Seq<SyntaxElementV>, i: int) -> Option<Seq<char>> {
    if is_child(es, i, i + 1) && !es[i + 1].is_node {
        Some(es[i + 1].text)
    } else {
        None
    }
}

/// The list of elements of a dump, as the accessors below use it.
pub open spec fn elements_view(es: &Vec<SyntaxElementData>) -> Seq<SyntaxElementV> {
    es.deep_view()
}

proof fn lemma_subtree_end_bounds(es: Seq<SyntaxElementV>, i: int, k: int)
    requires
        0 <= k,
    ensures
        k <= es.len() ==> k <= subtree_end_from(es, i, k) <= es.len(),
        k > es.len() ==> subtree_end_from(es, i, k) == es.len(),
    decreases es.len() - k,
{
    if 0 <= k < es.len() && depth(es[k]) > depth(es[i]) {
        lemma_subtree_end_bounds(es, i, k + 1);
    }
}

fn depth_exec(e: &SyntaxElementData) -> (r: i128)
    ensures
        r as int == depth(e.deep_view()),
{
    if e.is_node {
        if e.ancestors > 0 {
            (e.ancestors - 1) as i128
        } else {
            -1
        }
    } else {
        e.ancestors as i128
    }
}

/// Executable `subtree_end`.
pub fn subtree_end_exec(es: &Vec<SyntaxElementData>, i: usize) -> (r: usize)
    requires
        i < es@.len(),
    ensures
        r as int == subtree_end(elements_view(es), i as int),
        i < r <= es@.len(),
{
    let ghost g = elements_view(es);
    let di = depth_exec(&es[i]);
    let n = es.len();
    let mut k = i + 1;
    proof {
        lemma_subtree_end_bounds(g, i as int, k as int);
    }
    while k < es.len()
        invariant
            i < k <= es@.len(),
            g == elements_view(es),
            di as int == depth(g[i as int]),
            subtree_end_from(g, i as int, k as int) == subtree_end(g, i as int),
        decreases es.len() - k,
    {
        assert(g[k as int] == es@[k as int].deep_view());
        if depth_exec(&es[k]) <= di {
            return k;
        }
        k = k + 1;
    }
    k
}


/// Positions given by machine integers that stand for the positions `g`.
pub open spec fn indices_match(v: Seq<usize>, g: Seq<int>) -> bool {
    v.len() == g.len() && forall|k: int| 0 <= k < v.len() ==> v[k] as int == #[trigger] g[k]
}

/// Executable `children_from` from the first child on.
pub fn children_exec(es: &Vec<SyntaxElementData>, i: usize, q: KindQuery, want_node: bool) -> (r: Vec<usize>)
    requires
        i < es@.len(),
    ensures
        indices_match(r@, children_from(elements_view(es), i as int, i + 1, q, want_node)),
        forall|k: int| 0 <= k < r@.len() ==> i < #[trigger] r@[k] < es@.len(),
{
    let ghost g = elements_view(es);
    let end = subtree_end_exec(es, i);
    let di = depth_exec(&es[i]);
    let mut r: Vec<usize> = Vec::new();
    let ghost mut done: Seq<int> = Seq::empty();
    let mut k = i + 1;
    while k < end
        invariant
            i < k <= end,
            end <= es@.len(),
            end as int == subtree_end(g, i as int),
            g == elements_view(es),
            di as int == depth(g[i as int]),
            done + children_from(g, i as int, k as int, q, want_node) == children_from(g, i as int, i + 1, q, want_node),
            indices_match(r@, done),
            forall|m: int| 0 <= m < r@.len() ==> i < #[trigger] r@[m] < es@.len(),
        decreases end - k,
    {
        assert(g[k as int] == es@[k as int].deep_view());
        let e = &es[k];
        if e.is_node == want_node && depth_exec(e) == di + 1 && kind_answers(q, &e.kind) {
            proof {
                done = done.push(k as int);
            }
            r.push(k);
            assert(done + children_from(g, i as int, k + 1, q, want_node) =~= children_from(g, i as int, i + 1, q, want_node));
        }
        k = k + 1;
    }
    assert(done =~= children_from(g, i as int, i + 1, q, want_node));
    r
}

/// Executable `first_child_node`.
pub fn first_child_node_exec(es: &Vec<SyntaxElementData>, i: usize, q: KindQuery) -> (r: Option<usize>)
    requires
        i < es@.len(),
    ensures
        opt_index(r) == first_child_node(elements_view(es), i as int, q),
        r matches Some(j) ==> i < j < es@.len(),
{
    let c = children_exec(es, i, q, true);
    if c.len() > 0 {
        Some(c[0])
    } else {
        None
    }
}

/// Executable `first_child_token`.
pub fn first_child_token_exec(es: &Vec<SyntaxElementData>, i: usize, k: &'static str) -> (r: Option<usize>)
    requires
        i < es@.len(),
    ensures
        opt_index(r) == first_child_token(elements_view(es), i as int, k),
        r matches Some(j) ==> i < j < es@.len(),
{
    let c = children_exec(es, i, KindQuery::Kind(k), false);
    if c.len() > 0 {
        Some(c[0])
    } else {
        None
    }
}

/// Executable `first_token_text`.
pub fn first_token_text_exec(es: &Vec<SyntaxElementData>, i: usize) -> (r: Option<&String>)
    requires
        i < es@.len(),
    ensures
        match r {
            Some(t) => first_token_text(elements_view(es), i as int) == Some(t@),
            None => first_token_text(elements_view(es), i as int) is None,
        },
{
    let ghost g = elements_view(es);
    let end = subtree_end_exec(es, i);
    if i + 1 < end && !es[i + 1].is_node && depth_exec(&es[i + 1]) == depth_exec(&es[i]) + 1 {
        assert(g[i + 1] == es@[i + 1].deep_view());
        Some(&es[i + 1].text)
    } else {
        None
    }
}

/// An optional machine position as a mathematical integer.
pub open spec fn opt_index(o: Option<usize>) -> Option<int> {
    match o {
        Some(j) => Some(j as int),
        None => None,
    }
}

} // verus!
