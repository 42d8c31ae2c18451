//! The values of an enum, with the descriptions and directives attached to each, read from
//! the text of the block that lists them.
use vstd::prelude::*;
use crate::text::{chars_of, string_of, has_text, contains_text, replaced, replace_text, lines, split_lines, first_occurrence_from, find_text_from, lemma_first_occurrence};
use crate::patterns::{
    Pattern,
    all_matches,
    match_at,
    remove_all,
    first_match_text,
    find_all_matches,
    remove_all_matches,
    find_first_match_text,
    slice_chars,
    lemma_all_matches_are_matches,
};
use crate::types::{Config, DirectiveData, DirectiveDataV, EnumValueData, EnumValueDataV};
use crate::directives::{at_name, directive_data_view, parse_directive_data, spans_match, matches_of};

verus! {

/// The number of bytes of the UTF-8 encoding of `c`.
pub open spec fn utf8_width(c: char) -> int {
    let u = c as u32;
    if u < 0x80 {
        1
    } else if u < 0x800 {
        2
    } else if u < 0x10000 {
        3
    } else {
        4
    }
}

/// The byte offset, in the UTF-8 encoding of `s`, of character position `k`.
pub open spec fn byte_offset(s: Seq<char>, k: int) -> int
    decreases k,
{
    if k <= 0 || k > s.len() {
        0
    } else {
        byte_offset(s, k - 1) + utf8_width(s[k - 1])
    }
}

/// The character position of `s` whose byte offset is `b`, if `b` falls on a character
/// boundary within `s` (searching from position `k`).
pub open spec fn char_at_byte_from(s: Seq<char>, b: int, k: int) -> Option<int>
    decreases s.len() + 1 - k,
{
    if k < 0 || k > s.len() {
        None
    } else if byte_offset(s, k) == b {
        Some(k)
    } else {
        char_at_byte_from(s, b, k + 1)
    }
}

/// What std `str::get(b..)` gives for the text `s` and byte offset `b`.
pub open spec fn suffix_at_byte(s: Seq<char>, b: int) -> Option<Seq<char>> {
    match char_at_byte_from(s, b, 0) {
        Some(k) => if 0 <= k <= s.len() {
            Some(s.subrange(k, s.len() as int))
        } else {
            None
        },
        None => None,
    }
}

fn utf8_width_exec(c: char) -> (r: u128)
    ensures
        r as int == utf8_width(c),
{
    let u = c as u32;
    if u < 0x80 {
        1
    } else if u < 0x800 {
        2
    } else if u < 0x10000 {
        3
    } else {
        4
    }
}

proof fn lemma_byte_offset_bounds(s: Seq<char>, k: int)
    requires
        0 <= k <= s.len(),
    ensures
        k <= byte_offset(s, k) <= 4 * k,
    decreases k,
{
    if k > 0 {
        lemma_byte_offset_bounds(s, k - 1);
    }
}

/// Executable `byte_offset`.
fn byte_offset_exec(s: &[char], k: usize) -> (r: u128)
    requires
        k <= s@.len(),
    ensures
        r as int == byte_offset(s@, k as int),
{
    let mut b: u128 = 0;
    let mut j: usize = 0;
    while j < k
        invariant
            j <= k,
            k <= s@.len(),
            k <= usize::MAX,
            b as int == byte_offset(s@, j as int),
        decreases k - j,
    {
        proof {
            lemma_byte_offset_bounds(s@, j as int);
        }
        b = b + utf8_width_exec(s[j]);
        j = j + 1;
    }
    b
}

/// Executable `suffix_at_byte`.
fn suffix_at_byte_exec(s: &[char], b: u128) -> (r: Option<Vec<char>>)
    ensures
        r matches Some(t) ==> suffix_at_byte(s@, b as int) == Some(t@),
        r is None ==> suffix_at_byte(s@, b as int) is None,
{
    let mut off: u128 = 0;
    let mut k: usize = 0;
    let n = s.len();
    while k <= n
        invariant
            k <= s@.len() + 1,
            n == s@.len(),
            k <= s@.len() ==> off as int == byte_offset(s@, k as int),
            char_at_byte_from(s@, b as int, k as int) == char_at_byte_from(s@, b as int, 0),
        decreases s@.len() + 1 - k,
    {
        if off == b {
            return Some(slice_chars(s, k, s.len()));
        }
        if k == s.len() {
            assert(char_at_byte_from(s@, b as int, k + 1) is None);
            return None;
        }
        proof {
            lemma_byte_offset_bounds(s@, k as int);
        }
        off = off + utf8_width_exec(s[k]);
        k = k + 1;
    }
    None
}

/// What the reader keeps for one enum value while it reads the block: the value, its
/// description (empty when none) and its directives as (name, argument text) pairs.
pub struct TempV {
    pub value: Seq<char>,
    pub description: Seq<char>,
    pub directives: Seq<(Seq<char>, Seq<char>)>,
}

/// The first position of the entry for `k` at or after `j`.
pub open spec fn key_index_from(s: Seq<TempV>, k: Seq<char>, j: int) -> Option<int>
    decreases s.len() - j,
{
    if j < 0 || j >= s.len() {
        None
    } else if s[j].value == k {
        Some(j)
    } else {
        key_index_from(s, k, j + 1)
    }
}

/// The position of the entry for `k`.
pub open spec fn key_index(s: Seq<TempV>, k: Seq<char>) -> Option<int> {
    key_index_from(s, k, 0)
}

/// A fresh entry for value `v`.
pub open spec fn fresh(v: Seq<char>) -> TempV {
    TempV { value: v, description: Seq::empty(), directives: Seq::empty() }
}

/// The entries with a fresh entry for `v`, in place of the old one if there was one.
pub open spec fn insert_fresh(s: Seq<TempV>, v: Seq<char>) -> Seq<TempV> {
    match key_index(s, v) {
        Some(j) => s.update(j, fresh(v)),
        None => s.push(fresh(v)),
    }
}

/// The entries for the first `n` value matches `ms` in `src`.
pub open spec fn value_entries(src: Seq<char>, ms: Seq<(int, int)>, n: int) -> Seq<TempV>
    decreases n,
{
    if n <= 0 || n > ms.len() {
        Seq::empty()
    } else {
        insert_fresh(value_entries(src, ms, n - 1), src.subrange(ms[n - 1].0, ms[n - 1].1))
    }
}


/// The executable entry for one enum value.
pub struct TempValue {
    pub value: Vec<char>,
    pub description: Vec<char>,
    pub directives: Vec<(Vec<char>, Vec<char>)>,
}

/// View of a directive pair.
pub open spec fn pair_view(p: (Vec<char>, Vec<char>)) -> (Seq<char>, Seq<char>) {
    (p.0@, p.1@)
}

/// View of an entry.
pub open spec fn temp_view(t: TempValue) -> TempV {
    TempV {
        value: t.value@,
        description: t.description@,
        directives: t.directives@.map_values(|p: (Vec<char>, Vec<char>)| pair_view(p)),
    }
}

/// View of the entries.
pub open spec fn state_view(v: Seq<TempValue>) -> Seq<TempV> {
    v.map_values(|t: TempValue| temp_view(t))
}

fn copy_chars(v: &Vec<char>) -> (r: Vec<char>)
    ensures
        r@ == v@,
{
    let r = slice_chars(v.as_slice(), 0, v.len());
    assert(v@.subrange(0, v@.len() as int) =~= v@);
    r
}

fn key_index_exec(s: &Vec<TempValue>, k: &[char]) -> (r: Option<usize>)
    ensures
        match r {
            Some(j) => key_index(state_view(s@), k@) == Some(j as int),
            None => key_index(state_view(s@), k@) is None,
        },
        r matches Some(j) ==> j < s@.len(),
{
    let ghost g = state_view(s@);
    let mut j: usize = 0;
    while j < s.len()
        invariant
            j <= s@.len(),
            g == state_view(s@),
            key_index_from(g, k@, j as int) == key_index(g, k@),
        decreases s.len() - j,
    {
        assert(g[j as int] == temp_view(s@[j as int]));
        if crate::text::chars_equal(s[j].value.as_slice(), k) {
            return Some(j);
        }
        j = j + 1;
    }
    None
}

fn insert_fresh_exec(s: &mut Vec<TempValue>, v: Vec<char>)
    ensures
        state_view(final(s)@) == insert_fresh(state_view(old(s)@), v@),
{
    let ghost before = state_view(s@);
    let t = TempValue { value: copy_chars(&v), description: Vec::new(), directives: Vec::new() };
    assert(temp_view(t).directives =~= Seq::empty());
    assert(temp_view(t).description =~= Seq::empty());
    assert(temp_view(t) == fresh(v@));
    match key_index_exec(s, v.as_slice()) {
        Some(j) => {
            s.set(j, t);
            assert(state_view(s@) =~= before.update(j as int, fresh(v@)));
        },
        None => {
            s.push(t);
            assert(state_view(s@) =~= before.push(fresh(v@)));
        },
    }
}

/// The entries after the value matches of `src` are read.
fn value_entries_exec(src: &[char], ms: &Vec<(usize, usize)>, gms: Ghost<Seq<(int, int)>>) -> (r: Vec<TempValue>)
    requires
        spans_match(ms@, gms@),
        forall|k: int| 0 <= k < ms@.len() ==> (#[trigger] ms@[k]).0 < ms@[k].1 <= src@.len(),
    ensures
        state_view(r@) == value_entries(src@, gms@, gms@.len() as int),
{
    let mut s: Vec<TempValue> = Vec::new();
    let mut n: usize = 0;
    assert(state_view(s@) =~= Seq::empty());
    while n < ms.len()
        invariant
            n <= ms@.len(),
            spans_match(ms@, gms@),
            forall|k: int| 0 <= k < ms@.len() ==> (#[trigger] ms@[k]).0 < ms@[k].1 <= src@.len(),
            state_view(s@) == value_entries(src@, gms@, n as int),
        decreases ms.len() - n,
    {
        let (a, e) = ms[n];
        let v = slice_chars(src, a, e);
        insert_fresh_exec(&mut s, v);
        n = n + 1;
    }
    s
}

/// The description read from a match `m` of a description in `t`: its text without the
/// quotes and whitespace at its ends.
pub open spec fn description_text(t: Seq<char>, m: (int, int)) -> Seq<char> {
    remove_all(Pattern::DescriptionQuotes, t.subrange(m.0, m.1))
}

/// The entries with the description of the entry for `key` set (and its directives
/// cleared); `None` when there is no key or no entry for it (where reading panics).
pub open spec fn describe(s: Option<Seq<TempV>>, key: Option<Seq<char>>, desc: Seq<char>) -> Option<Seq<TempV>> {
    match (s, key) {
        (Some(s), Some(k)) => match key_index(s, k) {
            Some(j) => Some(s.update(j, TempV { value: s[j].value, description: desc, directives: Seq::empty() })),
            None => None,
        },
        _ => None,
    }
}

/// The entries after the first `n` block-string descriptions `ms` of `vwd` are attached, each
/// to the first word after it.
pub open spec fn block_phase(s0: Seq<TempV>, vwd: Seq<char>, ms: Seq<(int, int)>, n: int) -> Option<Seq<TempV>>
    decreases n,
{
    if n <= 0 || n > ms.len() {
        Some(s0)
    } else {
        describe(
            block_phase(s0, vwd, ms, n - 1),
            first_match_text(Pattern::FirstWord, vwd.subrange(ms[n - 1].1, vwd.len() as int)),
            description_text(vwd, ms[n - 1]),
        )
    }
}

/// The text that the first word after a one-line description is looked for in: the text
/// `vwd` from the byte offset in `w` where the description ends.
pub open spec fn quoted_key(vwd: Seq<char>, w: Seq<char>, m: (int, int)) -> Option<Seq<char>> {
    match suffix_at_byte(vwd, byte_offset(w, m.1)) {
        Some(sfx) => first_match_text(Pattern::FirstWord, sfx),
        None => None,
    }
}

/// The entries after the first `n` one-line descriptions `ms` of `w` are attached.
pub open spec fn quoted_phase(s0: Option<Seq<TempV>>, vwd: Seq<char>, w: Seq<char>, ms: Seq<(int, int)>, n: int) -> Option<Seq<TempV>>
    decreases n,
{
    if n <= 0 || n > ms.len() {
        s0
    } else {
        describe(quoted_phase(s0, vwd, w, ms, n - 1), quoted_key(vwd, w, ms[n - 1]), description_text(w, ms[n - 1]))
    }
}

proof fn lemma_block_phase_none(s0: Seq<TempV>, vwd: Seq<char>, ms: Seq<(int, int)>, n: int, m: int)
    requires
        0 <= n <= m <= ms.len(),
        block_phase(s0, vwd, ms, n) is None,
    ensures
        block_phase(s0, vwd, ms, m) is None,
    decreases m - n,
{
    if n < m {
        lemma_block_phase_none(s0, vwd, ms, n, m - 1);
    }
}

proof fn lemma_quoted_phase_none(s0: Option<Seq<TempV>>, vwd: Seq<char>, w: Seq<char>, ms: Seq<(int, int)>, n: int, m: int)
    requires
        0 <= n <= m <= ms.len(),
        quoted_phase(s0, vwd, w, ms, n) is None,
    ensures
        quoted_phase(s0, vwd, w, ms, m) is None,
    decreases m - n,
{
    if n < m {
        lemma_quoted_phase_none(s0, vwd, w, ms, n, m - 1);
    }
}

/// The view of an optional text.
pub open spec fn opt_chars(o: Option<Vec<char>>) -> Option<Seq<char>> {
    match o {
        Some(k) => Some(k@),
        None => None,
    }
}

fn describe_exec(s: &mut Vec<TempValue>, key: Option<Vec<char>>, desc: Vec<char>) -> (ok: bool)
    ensures
        ok ==> describe(Some(state_view(old(s)@)), opt_chars(key), desc@) == Some(state_view(final(s)@)),
        !ok ==> describe(Some(state_view(old(s)@)), opt_chars(key), desc@) is None,
{
    let ghost before = state_view(s@);
    match key {
        Some(k) => match key_index_exec(s, k.as_slice()) {
            Some(j) => {
                assert(before[j as int] == temp_view(s@[j as int]));
                let value = copy_chars(&s[j].value);
                let t = TempValue { value, description: desc, directives: Vec::new() };
                assert(temp_view(t).directives =~= Seq::empty());
                s.set(j, t);
                assert(state_view(s@) =~= before.update(j as int, TempV { value: before[j as int].value, description: desc@, directives: Seq::empty() }));
                true
            },
            None => false,
        },
        None => false,
    }
}


/// `raw` with each of the first `n` descriptions taken out, one after the other.
pub open spec fn strip_descriptions(raw: Seq<char>, descs: Seq<Seq<char>>, n: int) -> Seq<char>
    decreases n,
{
    if n <= 0 || n > descs.len() {
        raw
    } else {
        replaced(strip_descriptions(raw, descs, n - 1), descs[n - 1], Seq::empty())
    }
}

/// A line with the directives taken out: with arguments and names (`with_args`), or names.
pub open spec fn line_without_directives(line: Seq<char>, with_args: bool) -> Seq<char> {
    if with_args {
        remove_all(Pattern::DirectiveName, remove_all(Pattern::DirectiveWithArguments, line))
    } else {
        remove_all(Pattern::DirectiveName, line)
    }
}

/// The first entry, from `j` on, whose value occurs in `t`.
pub open spec fn first_key_in(s: Seq<TempV>, t: Seq<char>, j: int) -> Option<int>
    decreases s.len() - j,
{
    if j < 0 || j >= s.len() {
        None
    } else if has_text(t, s[j].value) {
        Some(j)
    } else {
        first_key_in(s, t, j + 1)
    }
}

/// The entries with a directive added to entry `j`.
pub open spec fn push_directive(s: Seq<TempV>, j: int, entry: (Seq<char>, Seq<char>)) -> Seq<TempV> {
    s.update(j, TempV { value: s[j].value, description: s[j].description, directives: s[j].directives.push(entry) })
}

/// One of the matches `ms` of a line, placed at `p`, starts at `start`.
pub open spec fn starts_at(ms: Seq<(int, int)>, p: int, start: int) -> bool {
    exists|k: int| 0 <= k < ms.len() && p + ms[k].0 == start
}

/// What reading one line does for a directive named `nwa` (with its `@`) that starts at
/// `start` of `v`: when the line holds the name, and the first place where the line occurs
/// in `v` puts one of its directive names at `start`, the directive goes to the first
/// entry whose value occurs in the line without its directives.
pub open spec fn line_step(
    st: (Option<Seq<TempV>>, bool),
    v: Seq<char>,
    line: Seq<char>,
    nwa: Seq<char>,
    start: int,
    entry: (Seq<char>, Seq<char>),
    with_args: bool,
) -> (Option<Seq<TempV>>, bool) {
    match st.0 {
        None => st,
        Some(s) => if !has_text(line, nwa) {
            st
        } else {
            match first_occurrence_from(v, line, 0) {
                None => (None, st.1),
                Some(p) => if starts_at(all_matches(Pattern::DirectiveName, line), p, start) {
                    match first_key_in(s, line_without_directives(line, with_args), 0) {
                        Some(j) => (Some(push_directive(s, j, entry)), true),
                        None => st,
                    }
                } else {
                    st
                },
            }
        },
    }
}

/// The first `n` lines read for one directive.
pub open spec fn lines_phase(
    st0: (Option<Seq<TempV>>, bool),
    v: Seq<char>,
    ls: Seq<Seq<char>>,
    n: int,
    nwa: Seq<char>,
    start: int,
    entry: (Seq<char>, Seq<char>),
    with_args: bool,
) -> (Option<Seq<TempV>>, bool)
    decreases n,
{
    if n <= 0 || n > ls.len() {
        st0
    } else {
        line_step(lines_phase(st0, v, ls, n - 1, nwa, start, entry, with_args), v, ls[n - 1], nwa, start, entry, with_args)
    }
}

/// The text after a directive where the value it belongs to is looked for when no line
/// gave it one.
pub open spec fn fallback_text(v: Seq<char>, end: int, with_args: bool) -> Seq<char> {
    line_without_directives(v.subrange(end, v.len() as int), with_args)
}

/// The name (with `@`) of the directive match `m` of `v`.
pub open spec fn directive_name_with_at(v: Seq<char>, m: (int, int), with_args: bool) -> Seq<char> {
    if with_args {
        first_match_text(Pattern::DirectiveName, v.subrange(m.0, m.1)).unwrap()
    } else {
        v.subrange(m.0, m.1)
    }
}

/// The (name, argument text) pair of the directive match `m` of `v`.
pub open spec fn directive_entry(v: Seq<char>, m: (int, int), with_args: bool) -> (Seq<char>, Seq<char>) {
    let nwa = directive_name_with_at(v, m, with_args);
    (at_name(nwa), if with_args { replaced(v.subrange(m.0, m.1), nwa, Seq::empty()) } else { Seq::empty() })
}

/// Attaching the directive match `m` of `v`: to the value on its line, or else to the first
/// word after it; `None` where reading panics.
pub open spec fn directive_step(s: Option<Seq<TempV>>, v: Seq<char>, m: (int, int), with_args: bool) -> Option<Seq<TempV>> {
    let nwa = directive_name_with_at(v, m, with_args);
    let entry = directive_entry(v, m, with_args);
    let st = lines_phase((s, false), v, lines(v), lines(v).len() as int, nwa, m.0, entry, with_args);
    if st.1 {
        st.0
    } else {
        match st.0 {
            None => None,
            Some(s1) => match first_match_text(Pattern::FirstWord, fallback_text(v, m.1, with_args)) {
                None => None,
                Some(k) => match key_index(s1, k) {
                    None => None,
                    Some(j) => Some(push_directive(s1, j, entry)),
                },
            },
        }
    }
}

/// The first `n` directive matches `ms` of `v` attached.
pub open spec fn directives_phase(s0: Option<Seq<TempV>>, v: Seq<char>, ms: Seq<(int, int)>, n: int, with_args: bool) -> Option<Seq<TempV>>
    decreases n,
{
    if n <= 0 || n > ms.len() {
        s0
    } else {
        directive_step(directives_phase(s0, v, ms, n - 1, with_args), v, ms[n - 1], with_args)
    }
}

/// The block text without its directives.
pub open spec fn without_directives(raw: Seq<char>) -> Seq<char> {
    remove_all(Pattern::DirectiveName, remove_all(Pattern::DirectiveWithArguments, raw))
}

/// The descriptions read from the block, in the order they are read.
pub open spec fn descriptions_read(raw: Seq<char>) -> Seq<Seq<char>> {
    let vwd = without_directives(raw);
    let w = remove_all(Pattern::BlockString, vwd);
    all_matches(Pattern::BlockString, vwd).map_values(|m: (int, int)| description_text(vwd, m))
        + all_matches(Pattern::QuotedDescription, w).map_values(|m: (int, int)| description_text(w, m))
}

/// The entries read from an enum values block; `None` where reading panics.
pub open spec fn enum_values_state(raw: Seq<char>) -> Option<Seq<TempV>> {
    let vwd = without_directives(raw);
    let raw_values = remove_all(Pattern::QuotedDescription, remove_all(Pattern::BlockString, vwd));
    let vms = all_matches(Pattern::FirstWord, raw_values);
    let s1 = value_entries(raw_values, vms, vms.len() as int);
    let bms = all_matches(Pattern::BlockString, vwd);
    let s2 = block_phase(s1, vwd, bms, bms.len() as int);
    let w = remove_all(Pattern::BlockString, vwd);
    let qms = all_matches(Pattern::QuotedDescription, w);
    let s3 = quoted_phase(s2, vwd, w, qms, qms.len() as int);
    let descs = descriptions_read(raw);
    let v = strip_descriptions(raw, descs, descs.len() as int);
    let dms = all_matches(Pattern::DirectiveWithArguments, v);
    let s4 = directives_phase(s3, v, dms, dms.len() as int, true);
    let v2 = remove_all(Pattern::DirectiveWithArguments, v);
    let nms = all_matches(Pattern::DirectiveName, v2);
    directives_phase(s4, v2, nms, nms.len() as int, false)
}

/// The enum value read from an entry.
pub open spec fn enum_value_view(t: TempV) -> EnumValueDataV {
    EnumValueDataV {
        value: t.value,
        description: if t.description.len() == 0 { None } else { Some(t.description) },
        directives: if t.directives.len() == 0 {
            None
        } else {
            Some(t.directives.map_values(|p: (Seq<char>, Seq<char>)| DirectiveDataV { name: p.0, values: directive_data_view(p.1) }))
        },
    }
}

/// The values read from an enum values block, in the order they first appear; `None` where
/// reading panics.
pub open spec fn enum_values_view(raw: Seq<char>) -> Option<Seq<EnumValueDataV>> {
    match enum_values_state(raw) {
        Some(s) => Some(s.map_values(|t: TempV| enum_value_view(t))),
        None => None,
    }
}


/// The descriptions read from the matches `ms` of `t`, appended to `out`.
fn push_descriptions(t: &[char], ms: &Vec<(usize, usize)>, gms: Ghost<Seq<(int, int)>>, out: &mut Vec<Vec<char>>)
    requires
        spans_match(ms@, gms@),
        forall|k: int| 0 <= k < ms@.len() ==> (#[trigger] ms@[k]).0 < ms@[k].1 <= t@.len(),
    ensures
        final(out)@.len() == old(out)@.len() + gms@.len(),
        forall|k: int| 0 <= k < old(out)@.len() ==> (#[trigger] final(out)@[k])@ == old(out)@[k]@,
        forall|k: int|
            old(out)@.len() <= k < final(out)@.len() ==> (#[trigger] final(out)@[k])@ == description_text(
                t@,
                gms@[k - old(out)@.len()],
            ),
{
    let ghost o = out@;
    let mut n: usize = 0;
    while n < ms.len()
        invariant
            n <= ms@.len(),
            spans_match(ms@, gms@),
            forall|k: int| 0 <= k < ms@.len() ==> (#[trigger] ms@[k]).0 < ms@[k].1 <= t@.len(),
            out@.len() == o.len() + n,
            forall|k: int| 0 <= k < o.len() ==> (#[trigger] out@[k])@ == o[k]@,
            forall|k: int| o.len() <= k < out@.len() ==> (#[trigger] out@[k])@ == description_text(t@, gms@[k - o.len()]),
        decreases ms.len() - n,
    {
        let (a, e) = ms[n];
        let piece = slice_chars(t, a, e);
        let d = remove_all_matches(Pattern::DescriptionQuotes, piece.as_slice());
        out.push(d);
        n = n + 1;
    }
}

/// Executable `block_phase` over all the matches; `false` where reading panics.
fn block_phase_exec(s: &mut Vec<TempValue>, vwd: &[char], ms: &Vec<(usize, usize)>, gms: Ghost<Seq<(int, int)>>) -> (ok: bool)
    requires
        spans_match(ms@, gms@),
        forall|k: int| 0 <= k < ms@.len() ==> (#[trigger] ms@[k]).0 < ms@[k].1 <= vwd@.len(),
    ensures
        ok ==> block_phase(state_view(old(s)@), vwd@, gms@, gms@.len() as int) == Some(state_view(final(s)@)),
        !ok ==> block_phase(state_view(old(s)@), vwd@, gms@, gms@.len() as int) is None,
{
    let ghost s0 = state_view(s@);
    let mut n: usize = 0;
    while n < ms.len()
        invariant
            n <= ms@.len(),
            spans_match(ms@, gms@),
            forall|k: int| 0 <= k < ms@.len() ==> (#[trigger] ms@[k]).0 < ms@[k].1 <= vwd@.len(),
            s0 == state_view(old(s)@),
            block_phase(s0, vwd@, gms@, n as int) == Some(state_view(s@)),
        decreases ms.len() - n,
    {
        let (a, e) = ms[n];
        let piece = slice_chars(vwd, a, e);
        let d = remove_all_matches(Pattern::DescriptionQuotes, piece.as_slice());
        let rest = slice_chars(vwd, e, vwd.len());
        let key = find_first_match_text(Pattern::FirstWord, rest.as_slice());
        let ghost gkey = opt_chars(key);
        assert(gkey == first_match_text(Pattern::FirstWord, vwd@.subrange(gms@[n as int].1, vwd@.len() as int)));
        assert(d@ == description_text(vwd@, gms@[n as int]));
        let ghost prev = state_view(s@);
        let ok = describe_exec(s, key, d);
        assert(block_phase(s0, vwd@, gms@, n + 1) == describe(Some(prev), gkey, d@));
        if !ok {
            proof {
                lemma_block_phase_none(s0, vwd@, gms@, n + 1, gms@.len() as int);
            }
            return false;
        }
        n = n + 1;
    }
    true
}

/// Executable `quoted_phase` over all the matches; `false` where reading panics.
fn quoted_phase_exec(s: &mut Vec<TempValue>, vwd: &[char], w: &[char], ms: &Vec<(usize, usize)>, gms: Ghost<Seq<(int, int)>>) -> (ok: bool)
    requires
        spans_match(ms@, gms@),
        forall|k: int| 0 <= k < ms@.len() ==> (#[trigger] ms@[k]).0 < ms@[k].1 <= w@.len(),
    ensures
        ok ==> quoted_phase(Some(state_view(old(s)@)), vwd@, w@, gms@, gms@.len() as int) == Some(state_view(final(s)@)),
        !ok ==> quoted_phase(Some(state_view(old(s)@)), vwd@, w@, gms@, gms@.len() as int) is None,
{
    let ghost s0 = state_view(s@);
    let mut n: usize = 0;
    while n < ms.len()
        invariant
            n <= ms@.len(),
            spans_match(ms@, gms@),
            forall|k: int| 0 <= k < ms@.len() ==> (#[trigger] ms@[k]).0 < ms@[k].1 <= w@.len(),
            s0 == state_view(old(s)@),
            quoted_phase(Some(s0), vwd@, w@, gms@, n as int) == Some(state_view(s@)),
        decreases ms.len() - n,
    {
        let (a, e) = ms[n];
        let piece = slice_chars(w, a, e);
        let d = remove_all_matches(Pattern::DescriptionQuotes, piece.as_slice());
        let b = byte_offset_exec(w, e);
        let key = match suffix_at_byte_exec(vwd, b) {
            Some(sfx) => find_first_match_text(Pattern::FirstWord, sfx.as_slice()),
            None => None,
        };
        let ghost gkey = opt_chars(key);
        assert(gkey == quoted_key(vwd@, w@, gms@[n as int]));
        assert(d@ == description_text(w@, gms@[n as int]));
        let ghost prev = state_view(s@);
        let ok = describe_exec(s, key, d);
        assert(quoted_phase(Some(s0), vwd@, w@, gms@, n + 1) == describe(Some(prev), gkey, d@));
        if !ok {
            proof {
                lemma_quoted_phase_none(Some(s0), vwd@, w@, gms@, n + 1, gms@.len() as int);
            }
            return false;
        }
        n = n + 1;
    }
    true
}

/// Executable `strip_descriptions` over all the descriptions.
fn strip_descriptions_exec(raw: &[char], descs: &Vec<Vec<char>>, gd: Ghost<Seq<Seq<char>>>) -> (r: Vec<char>)
    requires
        descs@.len() == gd@.len(),
        forall|k: int| 0 <= k < descs@.len() ==> (#[trigger] descs@[k])@ == gd@[k],
    ensures
        r@ == strip_descriptions(raw@, gd@, gd@.len() as int),
{
    let mut v = slice_chars(raw, 0, raw.len());
    assert(raw@.subrange(0, raw@.len() as int) =~= raw@);
    let none: Vec<char> = Vec::new();
    assert(none@ =~= Seq::<char>::empty());
    let mut k: usize = 0;
    while k < descs.len()
        invariant
            k <= descs@.len(),
            descs@.len() == gd@.len(),
            forall|j: int| 0 <= j < descs@.len() ==> (#[trigger] descs@[j])@ == gd@[j],
            none@ == Seq::<char>::empty(),
            v@ == strip_descriptions(raw@, gd@, k as int),
        decreases descs.len() - k,
    {
        v = replace_text(v.as_slice(), descs[k].as_slice(), none.as_slice());
        k = k + 1;
    }
    v
}


fn push_directive_exec(s: &mut Vec<TempValue>, j: usize, entry: (Vec<char>, Vec<char>))
    requires
        j < old(s)@.len(),
    ensures
        state_view(final(s)@) == push_directive(state_view(old(s)@), j as int, pair_view(entry)),
{
    let ghost before = state_view(s@);
    let ghost pv = pair_view(entry);
    let ghost t0 = s@[j as int];
    assert(before[j as int] == temp_view(t0));
    let t = &mut s[j];
    t.directives.push(entry);
    assert(temp_view(s@[j as int]).directives =~= before[j as int].directives.push(pv));
    assert(state_view(s@) =~= push_directive(before, j as int, pv));
}

fn first_key_in_exec(s: &Vec<TempValue>, t: &[char]) -> (r: Option<usize>)
    ensures
        match r {
            Some(j) => first_key_in(state_view(s@), t@, 0) == Some(j as int) && j < s@.len(),
            None => first_key_in(state_view(s@), t@, 0) is None,
        },
{
    let ghost g = state_view(s@);
    let mut j: usize = 0;
    while j < s.len()
        invariant
            j <= s@.len(),
            g == state_view(s@),
            first_key_in(g, t@, j as int) == first_key_in(g, t@, 0),
        decreases s.len() - j,
    {
        assert(g[j as int] == temp_view(s@[j as int]));
        if contains_text(t, s[j].value.as_slice()) {
            return Some(j);
        }
        j = j + 1;
    }
    None
}

fn copy_pair(p: &(Vec<char>, Vec<char>)) -> (r: (Vec<char>, Vec<char>))
    ensures
        pair_view(r) == pair_view(*p),
{
    (copy_chars(&p.0), copy_chars(&p.1))
}

/// Executable `line_without_directives`.
fn line_without_directives_exec(line: &[char], with_args: bool) -> (r: Vec<char>)
    ensures
        r@ == line_without_directives(line@, with_args),
{
    if with_args {
        let a = remove_all_matches(Pattern::DirectiveWithArguments, line);
        remove_all_matches(Pattern::DirectiveName, a.as_slice())
    } else {
        remove_all_matches(Pattern::DirectiveName, line)
    }
}

/// Executable `line_step`; `false` where reading panics.
fn line_step_exec(
    s: &mut Vec<TempValue>,
    found: &mut bool,
    v: &[char],
    line: &[char],
    nwa: &[char],
    start: usize,
    entry: &(Vec<char>, Vec<char>),
    with_args: bool,
) -> (ok: bool)
    ensures
        line_step((Some(state_view(old(s)@)), *old(found)), v@, line@, nwa@, start as int, pair_view(*entry), with_args)
            == (if ok { Some(state_view(final(s)@)) } else { None::<Seq<TempV>> }, *final(found)),
{
    if !contains_text(line, nwa) {
        return true;
    }
    let at = find_text_from(v, line, 0);
    proof {
        lemma_first_occurrence(v@, line@, 0);
    }
    match at {
        None => false,
        Some(p) => {
            let lms = find_all_matches(Pattern::DirectiveName, line);
            let ghost gl = all_matches(Pattern::DirectiveName, line@);
            let mut hit = false;
            let mut i: usize = 0;
            while i < lms.len()
                invariant
                    i <= lms@.len(),
                    p + line@.len() <= v@.len(),
                    lms@.len() == gl.len(),
                    forall|k: int| 0 <= k < lms@.len() ==> (#[trigger] lms@[k]).0 as int == gl[k].0 && lms@[k].1 as int == gl[k].1,
                    forall|k: int| 0 <= k < lms@.len() ==> (#[trigger] lms@[k]).0 < lms@[k].1 <= line@.len(),
                    hit ==> starts_at(gl, p as int, start as int),
                    !hit ==> forall|k: int| 0 <= k < i ==> p + (#[trigger] gl[k]).0 != start,
                ensures
                    hit ==> starts_at(gl, p as int, start as int),
                    !hit ==> forall|k: int| 0 <= k < gl.len() ==> p + (#[trigger] gl[k]).0 != start,
                decreases lms.len() - i,
            {
                if lms[i].0 <= start && start - lms[i].0 == p {
                    hit = true;
                    break;
                }
                i = i + 1;
            }
            if !hit {
                return true;
            }
            let lwd = line_without_directives_exec(line, with_args);
            match first_key_in_exec(s, lwd.as_slice()) {
                Some(j) => {
                    push_directive_exec(s, j, copy_pair(entry));
                    *found = true;
                    true
                },
                None => true,
            }
        },
    }
}

proof fn lemma_lines_phase_none(
    st0: (Option<Seq<TempV>>, bool),
    v: Seq<char>,
    ls: Seq<Seq<char>>,
    n: int,
    m: int,
    nwa: Seq<char>,
    start: int,
    entry: (Seq<char>, Seq<char>),
    with_args: bool,
)
    requires
        0 <= n <= m <= ls.len(),
        lines_phase(st0, v, ls, n, nwa, start, entry, with_args).0 is None,
    ensures
        lines_phase(st0, v, ls, m, nwa, start, entry, with_args).0 is None,
    decreases m - n,
{
    if n < m {
        lemma_lines_phase_none(st0, v, ls, n, m - 1, nwa, start, entry, with_args);
    }
}


/// Executable `directive_step`; `false` where reading panics.
fn directive_step_exec(s: &mut Vec<TempValue>, v: &[char], ls: &Vec<Vec<char>>, a: usize, e: usize, with_args: bool) -> (ok: bool)
    requires
        ls@.len() == lines(v@).len(),
        forall|k: int| 0 <= k < ls@.len() ==> (#[trigger] ls@[k])@ == lines(v@)[k],
        a < e <= v@.len(),
        with_args ==> match_at(Pattern::DirectiveWithArguments, v@, a as int) == Some(e as int),
    ensures
        ok ==> directive_step(Some(state_view(old(s)@)), v@, (a as int, e as int), with_args) == Some(state_view(final(s)@)),
        !ok ==> directive_step(Some(state_view(old(s)@)), v@, (a as int, e as int), with_args) is None,
{
    let ghost m = (a as int, e as int);
    let piece = slice_chars(v, a, e);
    let nwa: Vec<char> = if with_args {
        proof {
            crate::directives::lemma_directive_match_has_name(v@, a as int, e as int);
        }
        let found = find_first_match_text(Pattern::DirectiveName, piece.as_slice());
        found.unwrap()
    } else {
        copy_chars(&piece)
    };
    assert(nwa@ == directive_name_with_at(v@, m, with_args));
    let at: Vec<char> = vec!['@'];
    let none: Vec<char> = Vec::new();
    assert(none@ =~= Seq::<char>::empty());
    assert(at@ =~= seq!['@']);
    let name = replace_text(nwa.as_slice(), at.as_slice(), none.as_slice());
    let data = if with_args {
        replace_text(piece.as_slice(), nwa.as_slice(), none.as_slice())
    } else {
        Vec::new()
    };
    let entry = (name, data);
    assert(pair_view(entry) == directive_entry(v@, m, with_args));
    let ghost s0 = state_view(s@);
    let ghost gentry = pair_view(entry);
    let ghost nw = nwa@;
    let mut found = false;
    let mut k: usize = 0;
    while k < ls.len()
        invariant
            k <= ls@.len(),
            ls@.len() == lines(v@).len(),
            forall|j: int| 0 <= j < ls@.len() ==> (#[trigger] ls@[j])@ == lines(v@)[j],
            nw == nwa@,
            gentry == pair_view(entry),
            m == (a as int, e as int),
            nw == directive_name_with_at(v@, m, with_args),
            gentry == directive_entry(v@, m, with_args),
            s0 == state_view(old(s)@),
            lines_phase((Some(s0), false), v@, lines(v@), k as int, nw, a as int, gentry, with_args) == (Some(state_view(s@)), found),
        decreases ls.len() - k,
    {
        let ok = line_step_exec(s, &mut found, v, ls[k].as_slice(), nwa.as_slice(), a, &entry, with_args);
        if !ok {
            proof {
                lemma_lines_phase_none((Some(s0), false), v@, lines(v@), k + 1, lines(v@).len() as int, nw, a as int, gentry, with_args);
            }
            return false;
        }
        k = k + 1;
    }
    if found {
        return true;
    }
    let rest = slice_chars(v, e, v.len());
    let t = line_without_directives_exec(rest.as_slice(), with_args);
    match find_first_match_text(Pattern::FirstWord, t.as_slice()) {
        None => false,
        Some(key) => match key_index_exec(s, key.as_slice()) {
            None => false,
            Some(j) => {
                push_directive_exec(s, j, entry);
                true
            },
        },
    }
}

proof fn lemma_directives_phase_none(s0: Option<Seq<TempV>>, v: Seq<char>, ms: Seq<(int, int)>, n: int, m: int, with_args: bool)
    requires
        0 <= n <= m <= ms.len(),
        directives_phase(s0, v, ms, n, with_args) is None,
    ensures
        directives_phase(s0, v, ms, m, with_args) is None,
    decreases m - n,
{
    if n < m {
        lemma_directives_phase_none(s0, v, ms, n, m - 1, with_args);
        let mm = ms[m - 1];
        let nwa = directive_name_with_at(v, mm, with_args);
        let entry = directive_entry(v, mm, with_args);
        lemma_lines_phase_from_none(false, v, lines(v), lines(v).len() as int, nwa, mm.0, entry, with_args);
    }
}

pub(crate) proof fn lemma_lines_phase_from_none(
    b: bool,
    v: Seq<char>,
    ls: Seq<Seq<char>>,
    n: int,
    nwa: Seq<char>,
    start: int,
    entry: (Seq<char>, Seq<char>),
    with_args: bool,
)
    ensures
        lines_phase((None, b), v, ls, n, nwa, start, entry, with_args) == (None::<Seq<TempV>>, b),
    decreases n,
{
    if n > 0 && n <= ls.len() {
        lemma_lines_phase_from_none(b, v, ls, n - 1, nwa, start, entry, with_args);
    }
}

/// Executable `directives_phase` over all the directive matches of `v`; `false` where
/// reading panics.
fn directives_phase_exec(s: &mut Vec<TempValue>, v: &[char], with_args: bool) -> (ok: bool)
    ensures
        ok ==> directives_phase(
            Some(state_view(old(s)@)),
            v@,
            all_matches(if with_args { Pattern::DirectiveWithArguments } else { Pattern::DirectiveName }, v@),
            all_matches(if with_args { Pattern::DirectiveWithArguments } else { Pattern::DirectiveName }, v@).len() as int,
            with_args,
        ) == Some(state_view(final(s)@)),
        !ok ==> directives_phase(
            Some(state_view(old(s)@)),
            v@,
            all_matches(if with_args { Pattern::DirectiveWithArguments } else { Pattern::DirectiveName }, v@),
            all_matches(if with_args { Pattern::DirectiveWithArguments } else { Pattern::DirectiveName }, v@).len() as int,
            with_args,
        ) is None,
{
    let pat = if with_args { Pattern::DirectiveWithArguments } else { Pattern::DirectiveName };
    let ghost gms = all_matches(pat, v@);
    let ms = matches_of(pat, v);
    let ls = split_lines(v);
    let ghost s0 = state_view(s@);
    let mut n: usize = 0;
    while n < ms.len()
        invariant
            n <= ms@.len(),
            gms == all_matches(pat, v@),
            pat == (if with_args { Pattern::DirectiveWithArguments } else { Pattern::DirectiveName }),
            spans_match(ms@, gms),
            forall|k: int| 0 <= k < ms@.len() ==> (#[trigger] ms@[k]).0 < ms@[k].1 <= v@.len(),
            ls@.len() == lines(v@).len(),
            forall|k: int| 0 <= k < ls@.len() ==> (#[trigger] ls@[k])@ == lines(v@)[k],
            s0 == state_view(old(s)@),
            directives_phase(Some(s0), v@, gms, n as int, with_args) == Some(state_view(s@)),
        decreases ms.len() - n,
    {
        let (a, e) = ms[n];
        proof {
            crate::patterns::lemma_all_matches_are_matches(pat, v@, n as int);
        }
        let ghost prev = state_view(s@);
        let ok = directive_step_exec(s, v, &ls, a, e, with_args);
        assert(directives_phase(Some(s0), v@, gms, n + 1, with_args) == directive_step(Some(prev), v@, gms[n as int], with_args));
        if !ok {
            proof {
                lemma_directives_phase_none(Some(s0), v@, gms, n + 1, gms.len() as int, with_args);
            }
            return false;
        }
        n = n + 1;
    }
    true
}


/// Once a phase of reading has failed, the whole reading fails.
pub(crate) proof fn lemma_state_none(raw: Seq<char>, phase: int)
    requires
        ({
            let vwd = without_directives(raw);
            let raw_values = remove_all(Pattern::QuotedDescription, remove_all(Pattern::BlockString, vwd));
            let vms = all_matches(Pattern::FirstWord, raw_values);
            let s1 = value_entries(raw_values, vms, vms.len() as int);
            let bms = all_matches(Pattern::BlockString, vwd);
            let s2 = block_phase(s1, vwd, bms, bms.len() as int);
            let w = remove_all(Pattern::BlockString, vwd);
            let qms = all_matches(Pattern::QuotedDescription, w);
            let s3 = quoted_phase(s2, vwd, w, qms, qms.len() as int);
            let descs = descriptions_read(raw);
            let v = strip_descriptions(raw, descs, descs.len() as int);
            let dms = all_matches(Pattern::DirectiveWithArguments, v);
            let s4 = directives_phase(s3, v, dms, dms.len() as int, true);
            (phase == 2 && s2 is None) || (phase == 3 && s3 is None) || (phase == 4 && s4 is None)
        }),
    ensures
        enum_values_state(raw) is None,
{
    let vwd = without_directives(raw);
    let raw_values = remove_all(Pattern::QuotedDescription, remove_all(Pattern::BlockString, vwd));
    let vms = all_matches(Pattern::FirstWord, raw_values);
    let s1 = value_entries(raw_values, vms, vms.len() as int);
    let bms = all_matches(Pattern::BlockString, vwd);
    let s2 = block_phase(s1, vwd, bms, bms.len() as int);
    let w = remove_all(Pattern::BlockString, vwd);
    let qms = all_matches(Pattern::QuotedDescription, w);
    let s3 = quoted_phase(s2, vwd, w, qms, qms.len() as int);
    let descs = descriptions_read(raw);
    let v = strip_descriptions(raw, descs, descs.len() as int);
    let dms = all_matches(Pattern::DirectiveWithArguments, v);
    let s4 = directives_phase(s3, v, dms, dms.len() as int, true);
    let v2 = remove_all(Pattern::DirectiveWithArguments, v);
    let nms = all_matches(Pattern::DirectiveName, v2);
    if phase == 2 {
        lemma_quoted_phase_none(s2, vwd, w, qms, 0, qms.len() as int);
    }
    if phase <= 3 {
        lemma_directives_phase_none(s3, v, dms, 0, dms.len() as int, true);
    }
    lemma_directives_phase_none(s4, v2, nms, 0, nms.len() as int, false);
}

/// The enum value read from an entry.
fn enum_value_of(t: &TempValue, config: &Config) -> (r: EnumValueData)
    ensures
        r.deep_view() == enum_value_view(temp_view(*t)),
{
    let description = if t.description.len() == 0 {
        None
    } else {
        Some(string_of(t.description.as_slice()))
    };
    let ghost gt = temp_view(*t);
    let directives = if t.directives.len() == 0 {
        None
    } else {
        let mut out: Vec<DirectiveData> = Vec::new();
        let mut k: usize = 0;
        while k < t.directives.len()
            invariant
                k <= t.directives@.len(),
                gt == temp_view(*t),
                out@.len() == k,
                forall|j: int|
                    0 <= j < k ==> (#[trigger] out@[j]).deep_view() == (DirectiveDataV {
                        name: gt.directives[j].0,
                        values: directive_data_view(gt.directives[j].1),
                    }),
            decreases t.directives.len() - k,
        {
            let name = string_of(t.directives[k].0.as_slice());
            let values = parse_directive_data(string_of(t.directives[k].1.as_slice()), config);
            out.push(DirectiveData { name, values });
            k = k + 1;
        }
        assert(out.deep_view() =~= gt.directives.map_values(
            |p: (Seq<char>, Seq<char>)| DirectiveDataV { name: p.0, values: directive_data_view(p.1) },
        ));
        Some(out)
    };
    EnumValueData { value: string_of(t.value.as_slice()), description, directives }
}

/// Reads the values of an enum from the text of the block that lists them (`{ ... }`): each
/// word that is not part of a description or a directive is a value, in the order it first
/// appears; a description goes to the first word after it, and a directive to the value on
/// its line, or else to the first value after it. `None` where a description or a directive
/// belongs to no value.
pub fn parse_enum_values(value: &str, config: &Config) -> (r: Option<Vec<EnumValueData>>)
    ensures
        r.deep_view() == enum_values_view(value@),
{
    let raw = chars_of(value);
    let a = remove_all_matches(Pattern::DirectiveWithArguments, raw.as_slice());
    let vwd = remove_all_matches(Pattern::DirectiveName, a.as_slice());
    let w = remove_all_matches(Pattern::BlockString, vwd.as_slice());
    let raw_values = remove_all_matches(Pattern::QuotedDescription, w.as_slice());
    let vms = matches_of(Pattern::FirstWord, raw_values.as_slice());
    let mut s = value_entries_exec(raw_values.as_slice(), &vms, Ghost(all_matches(Pattern::FirstWord, raw_values@)));
    let bms = matches_of(Pattern::BlockString, vwd.as_slice());
    if !block_phase_exec(&mut s, vwd.as_slice(), &bms, Ghost(all_matches(Pattern::BlockString, vwd@))) {
        proof {
            lemma_state_none(raw@, 2);
        }
        return None;
    }
    let qms = matches_of(Pattern::QuotedDescription, w.as_slice());
    if !quoted_phase_exec(&mut s, vwd.as_slice(), w.as_slice(), &qms, Ghost(all_matches(Pattern::QuotedDescription, w@))) {
        proof {
            lemma_state_none(raw@, 3);
        }
        return None;
    }
    let mut descs: Vec<Vec<char>> = Vec::new();
    push_descriptions(vwd.as_slice(), &bms, Ghost(all_matches(Pattern::BlockString, vwd@)), &mut descs);
    push_descriptions(w.as_slice(), &qms, Ghost(all_matches(Pattern::QuotedDescription, w@)), &mut descs);
    let ghost gd = descriptions_read(raw@);
    assert(descs@.len() == gd.len());
    assert forall|k: int| 0 <= k < descs@.len() implies (#[trigger] descs@[k])@ == gd[k] by {
        let nb = all_matches(Pattern::BlockString, vwd@).len();
        if k < nb {
            assert(gd[k] == description_text(vwd@, all_matches(Pattern::BlockString, vwd@)[k]));
        } else {
            assert(gd[k] == description_text(w@, all_matches(Pattern::QuotedDescription, w@)[k - nb]));
        }
    }
    let v = strip_descriptions_exec(raw.as_slice(), &descs, Ghost(gd));
    if !directives_phase_exec(&mut s, v.as_slice(), true) {
        proof {
            lemma_state_none(raw@, 4);
        }
        return None;
    }
    let v2 = remove_all_matches(Pattern::DirectiveWithArguments, v.as_slice());
    if !directives_phase_exec(&mut s, v2.as_slice(), false) {
        return None;
    }
    let ghost gs = state_view(s@);
    let mut out: Vec<EnumValueData> = Vec::new();
    let mut k: usize = 0;
    while k < s.len()
        invariant
            k <= s@.len(),
            gs == state_view(s@),
            out@.len() == k,
            forall|j: int| 0 <= j < k ==> (#[trigger] out@[j]).deep_view() == enum_value_view(gs[j]),
        decreases s.len() - k,
    {
        let d = enum_value_of(&s[k], config);
        out.push(d);
        k = k + 1;
    }
    assert(out.deep_view() =~= gs.map_values(|t: TempV| enum_value_view(t)));
    Some(out)
}

} // verus!
