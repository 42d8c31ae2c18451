//! Selection sets: the nested field names of a fragment, read line by line.
use vstd::prelude::*;
use crate::text::{chars_of, string_of, split_lines, lines, has_char, contains_char};
use crate::patterns::{Pattern, first_match_text, find_first_match_text};
use crate::types::{Selection, SelectionV, Config, selection_view};

verus! {

/// The views of a sequence of selections.
pub open spec fn selections_view(v: Seq<Selection>) -> Seq<SelectionV> {
    Seq::new(v.len(), |i: int| selection_view(v[i]))
}

/// The name on a line: the first non-blank character together with the word after it.
pub open spec fn line_name(line: Seq<char>) -> Option<Seq<char>> {
    first_match_text(Pattern::FirstWord, line)
}

/// Whether the field named on line `idx - 1` has nested selections: the first line after it
/// that holds a brace or a name is a line with `{` and no name.
pub open spec fn is_parent_from(ls: Seq<Seq<char>>, idx: int) -> bool
    decreases ls.len() - idx,
{
    if idx < 0 || idx >= ls.len() {
        false
    } else if has_char(ls[idx], '{') {
        line_name(ls[idx]) is None
    } else if has_char(ls[idx], '}') {
        false
    } else if line_name(ls[idx]) is Some {
        false
    } else {
        is_parent_from(ls, idx + 1)
    }
}

/// The selections nested under the line `sp`, and the line where they close.
pub open spec fn nested_selections(ls: Seq<Seq<char>>, sp: int) -> (Seq<SelectionV>, int)
    decreases ls.len() - sp, 1int,
{
    if sp < 0 || sp + 1 >= ls.len() {
        (Seq::empty(), sp)
    } else {
        nested_loop(ls, sp + 1, sp, false, Seq::empty())
    }
}

/// The scan of lines `idx..` inside a selection set: `sp` is the last line already read,
/// `on_next` says that a `{` alone on a line announced that the next name is a parent.
pub open spec fn nested_loop(
    ls: Seq<Seq<char>>,
    idx: int,
    sp: int,
    on_next: bool,
    acc: Seq<SelectionV>,
) -> (Seq<SelectionV>, int)
    decreases ls.len() - idx, 2int,
{
    if idx < 0 || idx >= ls.len() {
        (acc, sp)
    } else if idx <= sp {
        nested_loop(ls, idx + 1, sp, on_next, acc)
    } else {
        let line = ls[idx];
        match line_name(line) {
            Some(name) => if has_char(line, '{') {
                let (sub, sp2) = nested_selections(ls, idx);
                nested_loop(ls, idx + 1, sp2, on_next, acc.push(SelectionV::Parent(name, sub)))
            } else if has_char(line, '}') {
                (acc.push(SelectionV::Leaf(name)), idx)
            } else if on_next || is_parent_from(ls, idx + 1) {
                let (sub, sp2) = nested_selections(ls, idx);
                nested_loop(ls, idx + 1, sp2, false, acc.push(SelectionV::Parent(name, sub)))
            } else {
                nested_loop(ls, idx + 1, sp, on_next, acc.push(SelectionV::Leaf(name)))
            },
            None => if has_char(line, '{') {
                nested_loop(ls, idx + 1, sp, true, acc)
            } else if has_char(line, '}') {
                (acc, idx)
            } else {
                nested_loop(ls, idx + 1, sp, on_next, acc)
            },
        }
    }
}

/// The scan of the lines of a whole selection set: like `nested_loop`, but line 0 is read
/// when it holds a name, and a closing brace does not end the scan.
pub open spec fn top_loop(
    ls: Seq<Seq<char>>,
    idx: int,
    sp: int,
    on_next: bool,
    acc: Seq<SelectionV>,
) -> Seq<SelectionV>
    decreases ls.len() - idx, 3int,
{
    if idx < 0 || idx >= ls.len() {
        acc
    } else if idx == 0 && line_name(ls[0]) is None {
        top_loop(ls, 1, sp, on_next, acc)
    } else if !(idx > sp || idx == 0) {
        top_loop(ls, idx + 1, sp, on_next, acc)
    } else {
        let line = ls[idx];
        match line_name(line) {
            Some(name) => if has_char(line, '{') {
                let (sub, sp2) = nested_selections(ls, idx);
                top_loop(ls, idx + 1, sp2, on_next, acc.push(SelectionV::Parent(name, sub)))
            } else if has_char(line, '}') {
                top_loop(ls, idx + 1, sp, on_next, acc.push(SelectionV::Leaf(name)))
            } else if on_next || is_parent_from(ls, idx + 1) {
                let (sub, sp2) = nested_selections(ls, idx);
                top_loop(ls, idx + 1, sp2, false, acc.push(SelectionV::Parent(name, sub)))
            } else {
                top_loop(ls, idx + 1, sp, on_next, acc.push(SelectionV::Leaf(name)))
            },
            None => if has_char(line, '{') {
                top_loop(ls, idx + 1, sp, true, acc)
            } else {
                top_loop(ls, idx + 1, sp, on_next, acc)
            },
        }
    }
}

/// The selections of a selection set written as `text`.
pub open spec fn selection_set_view(text: Seq<char>) -> Seq<SelectionV> {
    top_loop(lines(text), 0, 0, false, Seq::empty())
}

proof fn lemma_selections_view_push(v: Seq<Selection>, x: Selection)
    ensures
        selections_view(v.push(x)) == selections_view(v).push(selection_view(x)),
{
    assert(selections_view(v.push(x)) =~= selections_view(v).push(selection_view(x)));
}

proof fn lemma_parent_view(name: String, sub: Vec<Selection>)
    ensures
        selection_view(Selection { name, selections: Some(sub) }) == SelectionV::Parent(
            name@,
            selections_view(sub@),
        ),
{
    let s = Selection { name, selections: Some(sub) };
    assert(selection_view(s) is Parent);
    if let SelectionV::Parent(nm, q2) = selection_view(s) {
        assert(q2 =~= selections_view(sub@));
    }
}

fn line_is_parent(ls: &Vec<Vec<char>>, idx: usize) -> (r: bool)
    requires
        idx <= ls@.len(),
    ensures
        r == is_parent_from(ls@.map_values(|l: Vec<char>| l@), idx as int),
{
    let ghost gl = ls@.map_values(|l: Vec<char>| l@);
    let mut k = idx;
    while k < ls.len()
        invariant
            idx <= k <= ls@.len(),
            gl == ls@.map_values(|l: Vec<char>| l@),
            is_parent_from(gl, k as int) == is_parent_from(gl, idx as int),
        decreases ls.len() - k,
    {
        let line = &ls[k];
        assert(gl[k as int] == line@);
        let name = find_first_match_text(Pattern::FirstWord, line.as_slice());
        if contains_char(line.as_slice(), '{') {
            return name.is_none();
        } else if contains_char(line.as_slice(), '}') {
            return false;
        } else if name.is_some() {
            return false;
        }
        k = k + 1;
    }
    false
}

fn nested_from_lines(ls: &Vec<Vec<char>>, sp: usize) -> (r: (Vec<Selection>, usize))
    ensures
        selections_view(r.0@) == nested_selections(ls@.map_values(|l: Vec<char>| l@), sp as int).0,
        r.1 as int == nested_selections(ls@.map_values(|l: Vec<char>| l@), sp as int).1,
    decreases ls@.len() - sp, 1int,
{
    let ghost gl = ls@.map_values(|l: Vec<char>| l@);
    if sp >= ls.len() || ls.len() - sp < 2 {
        let r: Vec<Selection> = Vec::new();
        assert(selections_view(r@) =~= Seq::empty());
        return (r, sp);
    }
    let mut acc: Vec<Selection> = Vec::new();
    let mut cur = sp;
    let mut on_next = false;
    let mut idx = sp + 1;
    assert(selections_view(acc@) =~= Seq::empty());
    while idx < ls.len()
        invariant
            sp < idx <= ls@.len(),
            gl == ls@.map_values(|l: Vec<char>| l@),
            nested_loop(gl, idx as int, cur as int, on_next, selections_view(acc@))
                == nested_selections(gl, sp as int),
        decreases ls@.len() - idx,
    {
        if idx <= cur {
            idx = idx + 1;
            continue;
        }
        let line = &ls[idx];
        assert(gl[idx as int] == line@);
        let name = find_first_match_text(Pattern::FirstWord, line.as_slice());
        let open = contains_char(line.as_slice(), '{');
        let close = contains_char(line.as_slice(), '}');
        match name {
            Some(n) => {
                if open {
                    let (sub, sp2) = nested_from_lines(ls, idx);
                    let sel = Selection { name: string_of(n.as_slice()), selections: Some(sub) };
                    proof {
                        lemma_parent_view(sel.name, sub);
                        lemma_selections_view_push(acc@, sel);
                    }
                    acc.push(sel);
                    cur = sp2;
                    idx = idx + 1;
                } else if close {
                    let sel = Selection { name: string_of(n.as_slice()), selections: None };
                    proof {
                        lemma_selections_view_push(acc@, sel);
                    }
                    acc.push(sel);
                    return (acc, idx);
                } else if on_next || line_is_parent(ls, idx + 1) {
                    let (sub, sp2) = nested_from_lines(ls, idx);
                    let sel = Selection { name: string_of(n.as_slice()), selections: Some(sub) };
                    proof {
                        lemma_parent_view(sel.name, sub);
                        lemma_selections_view_push(acc@, sel);
                    }
                    acc.push(sel);
                    on_next = false;
                    cur = sp2;
                    idx = idx + 1;
                } else {
                    let sel = Selection { name: string_of(n.as_slice()), selections: None };
                    proof {
                        lemma_selections_view_push(acc@, sel);
                    }
                    acc.push(sel);
                    idx = idx + 1;
                }
            },
            None => {
                if open {
                    on_next = true;
                    idx = idx + 1;
                } else if close {
                    return (acc, idx);
                } else {
                    idx = idx + 1;
                }
            },
        }
    }
    (acc, cur)
}


fn text_lines(text: &str) -> (r: Vec<Vec<char>>)
    ensures
        r@.map_values(|l: Vec<char>| l@) == lines(text@),
{
    let cs = chars_of(text);
    let r = split_lines(cs.as_slice());
    assert(r@.map_values(|l: Vec<char>| l@) =~= lines(text@));
    r
}

/// Whether the field on line `current_index` of `raw_string` has nested selections: the
/// first later line with a brace or a name is a `{` with no name.
pub fn is_parent(raw_string: &str, current_index: usize) -> (r: bool)
    ensures
        r == is_parent_from(lines(raw_string@), current_index + 1),
{
    let ls = text_lines(raw_string);
    if current_index >= ls.len() {
        return false;
    }
    line_is_parent(&ls, current_index + 1)
}

/// Reads the selections nested under line `*stopping_point` of `raw_string`, up to the line
/// that closes them, and leaves in `*stopping_point` the last line read.
pub fn recurse_selection(raw_string: &str, stopping_point: &mut usize) -> (r: Vec<Selection>)
    ensures
        selections_view(r@) == nested_selections(lines(raw_string@), *old(stopping_point) as int).0,
        *final(stopping_point) as int == nested_selections(
            lines(raw_string@),
            *old(stopping_point) as int,
        ).1,
{
    let ls = text_lines(raw_string);
    let (r, sp) = nested_from_lines(&ls, *stopping_point);
    *stopping_point = sp;
    r
}

/// Reads the selections of a selection set, given as its text: a line `name {`, or a name
/// followed by a line `{`, opens nested selections; other names are leaves.
pub fn parse_selection_set(selection_set: &str, _config: &Config) -> (r: Vec<Selection>)
    ensures
        selections_view(r@) == selection_set_view(selection_set@),
{
    let ls = text_lines(selection_set);
    let ghost gl = ls@.map_values(|l: Vec<char>| l@);
    let mut acc: Vec<Selection> = Vec::new();
    let mut cur: usize = 0;
    let mut on_next = false;
    let mut idx: usize = 0;
    assert(selections_view(acc@) =~= Seq::empty());
    while idx < ls.len()
        invariant
            idx <= ls@.len(),
            gl == ls@.map_values(|l: Vec<char>| l@),
            gl == lines(selection_set@),
            top_loop(gl, idx as int, cur as int, on_next, selections_view(acc@))
                == selection_set_view(selection_set@),
        decreases ls@.len() - idx,
    {
        let line = &ls[idx];
        assert(gl[idx as int] == line@);
        let name = find_first_match_text(Pattern::FirstWord, line.as_slice());
        if idx == 0 && name.is_none() {
            idx = idx + 1;
            continue;
        }
        if !(idx > cur || idx == 0) {
            idx = idx + 1;
            continue;
        }
        let open = contains_char(line.as_slice(), '{');
        let close = contains_char(line.as_slice(), '}');
        match name {
            Some(n) => {
                if open || (!close && (on_next || line_is_parent(&ls, idx + 1))) {
                    let (sub, sp2) = nested_from_lines(&ls, idx);
                    let sel = Selection { name: string_of(n.as_slice()), selections: Some(sub) };
                    proof {
                        lemma_parent_view(sel.name, sub);
                        lemma_selections_view_push(acc@, sel);
                    }
                    acc.push(sel);
                    if !open {
                        on_next = false;
                    }
                    cur = sp2;
                } else {
                    let sel = Selection { name: string_of(n.as_slice()), selections: None };
                    proof {
                        lemma_selections_view_push(acc@, sel);
                    }
                    acc.push(sel);
                }
            },
            None => {
                if open {
                    on_next = true;
                }
            },
        }
        idx = idx + 1;
    }
    acc
}

} // verus!
