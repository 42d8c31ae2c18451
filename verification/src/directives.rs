//! Directives applied in a schema: their names and the `parameter: value` pairs of their
//! arguments, read from the text that follows the name.
use vstd::prelude::*;
use crate::text::{chars_of, string_of, replaced, replace_text, CharClass, run_end, lemma_run_end, in_class};
use crate::patterns::{
    Pattern,
    all_matches,
    remove_all,
    first_match_text,
    find_all_matches,
    remove_all_matches,
    find_first_match_text,
    slice_chars,
    match_at,
    first_match,
    lemma_match_at_bounds,
};
use crate::types::{
    Config,
    DirectiveArgumentValues,
    DirectiveArgumentValuesV,
    DirectiveData,
    DirectiveDataV,
};

verus! {

/// Position `pos` lies strictly inside one of the spans.
pub open spec fn inside_any(pos: int, spans: Seq<(int, int)>) -> bool {
    exists|k: int| 0 <= k < spans.len() && spans[k].0 < pos && pos < spans[k].1
}

/// The spans whose start lies inside none of `outer`.
pub open spec fn spans_outside(spans: Seq<(int, int)>, outer: Seq<(int, int)>) -> Seq<(int, int)>
    decreases spans.len(),
{
    if spans.len() == 0 {
        spans
    } else if inside_any(spans.last().0, outer) {
        spans_outside(spans.drop_last(), outer)
    } else {
        spans_outside(spans.drop_last(), outer).push(spans.last())
    }
}

/// The smallest start in `spans` after `end`, or `dflt` when none is smaller than it.
pub open spec fn next_start_after(spans: Seq<(int, int)>, end: int, dflt: int) -> int
    decreases spans.len(),
{
    if spans.len() == 0 {
        dflt
    } else {
        let m = next_start_after(spans.drop_last(), end, dflt);
        if spans.last().0 > end && spans.last().0 < m {
            spans.last().0
        } else {
            m
        }
    }
}

/// The text of block strings in directive arguments.
pub open spec fn block_strings(data: Seq<char>) -> Seq<(int, int)> {
    all_matches(Pattern::BlockString, data)
}

/// The one-line strings that do not start inside a block string.
pub open spec fn quoted_strings(data: Seq<char>) -> Seq<(int, int)> {
    spans_outside(all_matches(Pattern::StringLiteral, data), block_strings(data))
}

/// The argument names that do not start inside a string.
pub open spec fn argument_names(data: Seq<char>) -> Seq<(int, int)> {
    spans_outside(
        spans_outside(all_matches(Pattern::FieldName, data), block_strings(data)),
        quoted_strings(data),
    )
}

/// The value read from the text between an argument name and the next argument name:
/// everything after the first `:` and whitespace, or `""` when there is none.
pub open spec fn argument_value(raw: Seq<char>) -> Seq<char> {
    match first_match_text(Pattern::ArgumentValue, raw) {
        Some(t) => t,
        None => seq!['"', '"'],
    }
}

/// The pair read for the name match `m` of the argument text `data`.
pub open spec fn argument_pair(data: Seq<char>, m: (int, int)) -> DirectiveArgumentValuesV {
    DirectiveArgumentValuesV {
        parameter: data.subrange(m.0, m.1),
        value: argument_value(
            data.subrange(m.1, next_start_after(argument_names(data), m.1, data.len() as int)),
        ),
    }
}

/// The argument text of a directive with the parentheses taken out.
pub open spec fn directive_argument_text(to_parse: Seq<char>) -> Seq<char> {
    remove_all(Pattern::Parentheses, to_parse)
}

/// The `parameter: value` pairs read from a directive's argument text: one for each word
/// that whitespace or `:` follows and that is not inside a string, its value running up to
/// the next such word.
pub open spec fn directive_pairs(to_parse: Seq<char>) -> Seq<DirectiveArgumentValuesV> {
    let data = directive_argument_text(to_parse);
    argument_names(data).map_values(|m: (int, int)| argument_pair(data, m))
}

/// `directive_pairs`, or `None` when there are none.
pub open spec fn directive_data_view(to_parse: Seq<char>) -> Option<Seq<DirectiveArgumentValuesV>> {
    if directive_pairs(to_parse).len() > 0 {
        Some(directive_pairs(to_parse))
    } else {
        None
    }
}

fn inside_any_exec(pos: usize, spans: &Vec<(usize, usize)>, ghost_spans: Ghost<Seq<(int, int)>>) -> (r: bool)
    requires
        spans@.len() == ghost_spans@.len(),
        forall|k: int| 0 <= k < spans@.len() ==> (#[trigger] spans@[k]).0 as int == ghost_spans@[k].0 && spans@[k].1 as int == ghost_spans@[k].1,
    ensures
        r == inside_any(pos as int, ghost_spans@),
{
    let mut k: usize = 0;
    while k < spans.len()
        invariant
            k <= spans@.len(),
            spans@.len() == ghost_spans@.len(),
            forall|j: int| 0 <= j < spans@.len() ==> (#[trigger] spans@[j]).0 as int == ghost_spans@[j].0 && spans@[j].1 as int == ghost_spans@[j].1,
            forall|j: int| 0 <= j < k ==> !(ghost_spans@[j].0 < pos && pos < ghost_spans@[j].1),
        decreases spans.len() - k,
    {
        if spans[k].0 < pos && pos < spans[k].1 {
            assert(ghost_spans@[k as int].0 < pos && pos < ghost_spans@[k as int].1);
            return true;
        }
        k = k + 1;
    }
    false
}

/// Spans given by machine positions that stand for the spans `g`.
pub open spec fn spans_match(v: Seq<(usize, usize)>, g: Seq<(int, int)>) -> bool {
    &&& v.len() == g.len()
    &&& forall|k: int| 0 <= k < v.len() ==> (#[trigger] v[k]).0 as int == g[k].0 && v[k].1 as int == g[k].1
}

fn keep_outside(spans: &Vec<(usize, usize)>, gs: Ghost<Seq<(int, int)>>, outer: &Vec<(usize, usize)>, go: Ghost<Seq<(int, int)>>, lim: usize) -> (r: Vec<(usize, usize)>)
    requires
        spans_match(spans@, gs@),
        spans_match(outer@, go@),
        forall|k: int| 0 <= k < spans@.len() ==> (#[trigger] spans@[k]).0 < spans@[k].1 <= lim,
    ensures
        spans_match(r@, spans_outside(gs@, go@)),
        forall|k: int| 0 <= k < r@.len() ==> (#[trigger] r@[k]).0 < r@[k].1 <= lim,
{
    let mut r: Vec<(usize, usize)> = Vec::new();
    let mut i: usize = 0;
    while i < spans.len()
        invariant
            i <= spans@.len(),
            spans_match(spans@, gs@),
            spans_match(outer@, go@),
            spans_match(r@, spans_outside(gs@.take(i as int), go@)),
            forall|k: int| 0 <= k < spans@.len() ==> (#[trigger] spans@[k]).0 < spans@[k].1 <= lim,
            forall|k: int| 0 <= k < r@.len() ==> (#[trigger] r@[k]).0 < r@[k].1 <= lim,
        decreases spans.len() - i,
    {
        assert(gs@.take(i + 1).drop_last() =~= gs@.take(i as int));
        let inside = inside_any_exec(spans[i].0, outer, go);
        if !inside {
            r.push(spans[i]);
        }
        i = i + 1;
        assert(spans_match(r@, spans_outside(gs@.take(i as int), go@)));
    }
    assert(gs@.take(spans@.len() as int) =~= gs@);
    r
}

pub(crate) fn matches_of(p: Pattern, s: &[char]) -> (r: Vec<(usize, usize)>)
    ensures
        spans_match(r@, all_matches(p, s@)),
        forall|k: int| 0 <= k < r@.len() ==> (#[trigger] r@[k]).0 < r@[k].1 <= s@.len(),
{
    find_all_matches(p, s)
}

fn next_start_exec(spans: &Vec<(usize, usize)>, gs: Ghost<Seq<(int, int)>>, end: usize, dflt: usize) -> (r: usize)
    requires
        spans_match(spans@, gs@),
    ensures
        r as int == next_start_after(gs@, end as int, dflt as int),
        end < r || r == dflt,
        r <= dflt,
{
    let mut next = dflt;
    let mut i: usize = 0;
    while i < spans.len()
        invariant
            i <= spans@.len(),
            spans_match(spans@, gs@),
            next as int == next_start_after(gs@.take(i as int), end as int, dflt as int),
            end < next || next == dflt,
            next <= dflt,
        decreases spans.len() - i,
    {
        assert(gs@.take(i + 1).drop_last() =~= gs@.take(i as int));
        if spans[i].0 > end && spans[i].0 < next {
            next = spans[i].0;
        }
        i = i + 1;
    }
    assert(gs@.take(spans@.len() as int) =~= gs@);
    next
}

/// Reads the `parameter: value` pairs of a directive's argument text; `None` when there are
/// none.
pub fn parse_directive_data(to_parse: String, _config: &Config) -> (r: Option<Vec<DirectiveArgumentValues>>)
    ensures
        r.deep_view() == directive_data_view(to_parse@),
{
    let src = chars_of(to_parse.as_str());
    let data = remove_all_matches(Pattern::Parentheses, src.as_slice());
    let ghost gd = data@;
    let names_all = matches_of(Pattern::FieldName, data.as_slice());
    let blocks = matches_of(Pattern::BlockString, data.as_slice());
    let quoted_all = matches_of(Pattern::StringLiteral, data.as_slice());
    let quoted = keep_outside(&quoted_all, Ghost(all_matches(Pattern::StringLiteral, gd)), &blocks, Ghost(block_strings(gd)), data.len());
    let names1 = keep_outside(&names_all, Ghost(all_matches(Pattern::FieldName, gd)), &blocks, Ghost(block_strings(gd)), data.len());
    let names = keep_outside(&names1, Ghost(spans_outside(all_matches(Pattern::FieldName, gd), block_strings(gd))), &quoted, Ghost(quoted_strings(gd)), data.len());
    let ghost pairs = directive_pairs(to_parse@);
    let mut values: Vec<DirectiveArgumentValues> = Vec::new();
    let mut i: usize = 0;
    let empty_value: Vec<char> = vec!['"', '"'];
    while i < names.len()
        invariant
            i <= names@.len(),
            gd == data@,
            gd == directive_argument_text(to_parse@),
            empty_value@ == seq!['"', '"'],
            forall|k: int| 0 <= k < names@.len() ==> (#[trigger] names@[k]).0 < names@[k].1 <= gd.len(),
            spans_match(names@, argument_names(gd)),
            pairs == directive_pairs(to_parse@),
            pairs.len() == names@.len(),
            values@.len() == i,
            forall|k: int| 0 <= k < i ==> (#[trigger] values@[k]).deep_view() == pairs[k],
        decreases names.len() - i,
    {
        let (a, e) = names[i];
        let next = next_start_exec(&names, Ghost(argument_names(gd)), e, data.len());
        let parameter = slice_chars(data.as_slice(), a, e);
        let raw = slice_chars(data.as_slice(), e, next);
        let value = match find_first_match_text(Pattern::ArgumentValue, raw.as_slice()) {
            Some(t) => string_of(t.as_slice()),
            None => string_of(empty_value.as_slice()),
        };
        let pair = DirectiveArgumentValues { parameter: string_of(parameter.as_slice()), value };
        assert(pair.deep_view() == pairs[i as int]);
        values.push(pair);
        i = i + 1;
    }
    assert(values.deep_view() =~= pairs);
    if values.len() > 0 {
        Some(values)
    } else {
        None
    }
}


/// The name of a directive match: its `@name` with the `@` taken out.
pub open spec fn at_name(t: Seq<char>) -> Seq<char> {
    replaced(t, seq!['@'], Seq::empty())
}

/// A directive written with arguments, read from its match `m` in `raw`.
pub open spec fn directive_with_arguments(raw: Seq<char>, m: (int, int)) -> DirectiveDataV {
    let d = raw.subrange(m.0, m.1);
    DirectiveDataV {
        name: at_name(first_match_text(Pattern::DirectiveName, d).unwrap()),
        values: directive_data_view(remove_all(Pattern::DirectiveName, d)),
    }
}

/// A directive written without arguments, read from its match `m` in `rest`.
pub open spec fn directive_without_arguments(rest: Seq<char>, m: (int, int)) -> DirectiveDataV {
    DirectiveDataV { name: at_name(rest.subrange(m.0, m.1)), values: None }
}

/// The directives written in `raw`: first those with arguments, in order, then, in the text
/// that is left, those without.
pub open spec fn directives_in(raw: Seq<char>) -> Seq<DirectiveDataV> {
    let rest = remove_all(Pattern::DirectiveWithArguments, raw);
    all_matches(Pattern::DirectiveWithArguments, raw).map_values(
        |m: (int, int)| directive_with_arguments(raw, m),
    ) + all_matches(Pattern::DirectiveName, rest).map_values(
        |m: (int, int)| directive_without_arguments(rest, m),
    )
}

/// The directives of an optional directives text; `None` when there is no text or no
/// directive in it.
pub open spec fn directive_instance_view(to_parse: Option<Seq<char>>) -> Option<Seq<DirectiveDataV>> {
    match to_parse {
        Some(raw) => if directives_in(raw).len() > 0 {
            Some(directives_in(raw))
        } else {
            None
        },
        None => None,
    }
}

/// A match of a directive with arguments starts with a directive name.
pub(crate) proof fn lemma_directive_match_has_name(s: Seq<char>, a: int, e: int)
    requires
        match_at(Pattern::DirectiveWithArguments, s, a) == Some(e),
    ensures
        first_match(Pattern::DirectiveName, s.subrange(a, e)) is Some,
{
    lemma_match_at_bounds(Pattern::DirectiveWithArguments, s, a);
    lemma_run_end(s, a + 1, CharClass::Word);
    let w = run_end(s, a + 1, CharClass::Word);
    lemma_run_end(s, w, CharClass::Ws);
    let x = run_end(s, w, CharClass::Ws);
    lemma_run_end(s, x, CharClass::OpenParen);
    let b = run_end(s, x, CharClass::OpenParen);
    lemma_run_end(s, b, CharClass::DirectiveArg);
    let c = run_end(s, b, CharClass::DirectiveArg);
    lemma_run_end(s, c, CharClass::CloseParen);
    let d = s.subrange(a, e);
    assert(in_class(CharClass::Word, s[a + 1]));
    assert(d[1] == s[a + 1]);
    lemma_run_end(d, 2, CharClass::Word);
    assert(run_end(d, 1, CharClass::Word) > 1);
    assert(match_at(Pattern::DirectiveName, d, 0) is Some);
}

fn name_without_at(t: &[char]) -> (r: String)
    ensures
        r@ == at_name(t@),
{
    let at: Vec<char> = vec!['@'];
    let none: Vec<char> = Vec::new();
    assert(none@ =~= Seq::<char>::empty());
    assert(at@ =~= seq!['@']);
    let v = replace_text(t, at.as_slice(), none.as_slice());
    string_of(v.as_slice())
}

/// Reads the directives applied in a directives text (`@name` or `@name(arguments)`);
/// `None` when there is no text or no directive in it.
pub fn parse_directive_instance(to_parse: Option<&str>, config: &Config) -> (r: Option<Vec<DirectiveData>>)
    ensures
        r.deep_view() == directive_instance_view(match to_parse { Some(t) => Some(t@), None => None }),
{
    let text = match to_parse {
        Some(t) => t,
        None => {
            return None;
        },
    };
    let raw = chars_of(text);
    let ghost gr = raw@;
    let ghost all = directives_in(gr);
    let with_args = matches_of(Pattern::DirectiveWithArguments, raw.as_slice());
    let mut out: Vec<DirectiveData> = Vec::new();
    let mut i: usize = 0;
    while i < with_args.len()
        invariant
            i <= with_args@.len(),
            gr == raw@,
            all == directives_in(gr),
            spans_match(with_args@, all_matches(Pattern::DirectiveWithArguments, gr)),
            forall|k: int| 0 <= k < with_args@.len() ==> (#[trigger] with_args@[k]).0 < with_args@[k].1 <= gr.len(),
            out@.len() == i,
            forall|k: int| 0 <= k < i ==> (#[trigger] out@[k]).deep_view() == all[k],
        decreases with_args.len() - i,
    {
        let (a, e) = with_args[i];
        let d = slice_chars(raw.as_slice(), a, e);
        proof {
            crate::patterns::lemma_all_matches_are_matches(Pattern::DirectiveWithArguments, gr, i as int);
            lemma_directive_match_has_name(gr, a as int, e as int);
        }
        let name_at = find_first_match_text(Pattern::DirectiveName, d.as_slice());
        let name_at = name_at.unwrap();
        let name = name_without_at(name_at.as_slice());
        let data = remove_all_matches(Pattern::DirectiveName, d.as_slice());
        let values = parse_directive_data(string_of(data.as_slice()), config);
        let dd = DirectiveData { name, values };
        assert(dd.deep_view() == all[i as int]);
        out.push(dd);
        i = i + 1;
    }
    let rest = remove_all_matches(Pattern::DirectiveWithArguments, raw.as_slice());
    let plain = matches_of(Pattern::DirectiveName, rest.as_slice());
    let n = with_args.len();
    let mut j: usize = 0;
    while j < plain.len()
        invariant
            j <= plain@.len(),
            n == with_args@.len(),
            n == all_matches(Pattern::DirectiveWithArguments, gr).len(),
            gr == raw@,
            rest@ == remove_all(Pattern::DirectiveWithArguments, gr),
            all == directives_in(gr),
            spans_match(plain@, all_matches(Pattern::DirectiveName, rest@)),
            forall|k: int| 0 <= k < plain@.len() ==> (#[trigger] plain@[k]).0 < plain@[k].1 <= rest@.len(),
            out@.len() == n + j,
            forall|k: int| 0 <= k < n + j ==> (#[trigger] out@[k]).deep_view() == all[k],
        decreases plain.len() - j,
    {
        let (a, e) = plain[j];
        let t = slice_chars(rest.as_slice(), a, e);
        let dd = DirectiveData { name: name_without_at(t.as_slice()), values: None };
        assert(dd.deep_view() == all[n + j]);
        out.push(dd);
        j = j + 1;
    }
    assert(out.deep_view() =~= all);
    if out.len() > 0 {
        Some(out)
    } else {
        None
    }
}

} // verus!
