//! Character classes and small operations on character sequences.
use vstd::prelude::*;

verus! {

/// The characters that the class `\s` of the regex crate holds (Unicode `White_Space`).
pub open spec fn is_ws(c: char) -> bool {
    let u = c as u32;
    ||| (0x09 <= u && u <= 0x0d)
    ||| u == 0x20
    ||| u == 0x85
    ||| u == 0xa0
    ||| u == 0x1680
    ||| (0x2000 <= u && u <= 0x200a)
    ||| u == 0x2028
    ||| u == 0x2029
    ||| u == 0x202f
    ||| u == 0x205f
    ||| u == 0x3000
}

/// Executable test of `is_ws`.
pub fn char_is_ws(c: char) -> (r: bool)
    ensures
        r == is_ws(c),
{
    let u = c as u32;
    (0x09 <= u && u <= 0x0d) || u == 0x20 || u == 0x85 || u == 0xa0 || u == 0x1680 || (0x2000
        <= u && u <= 0x200a) || u == 0x2028 || u == 0x2029 || u == 0x202f || u == 0x205f || u
        == 0x3000
}

/// Whether the regex engine counts `c` in its class `\w`; consulted for characters
/// outside ASCII only.
pub uninterp spec fn regex_word_class(c: char) -> bool;

/// Asks `fancy_regex` whether the one-character text `c` matches `\w`.
/// The contract says only that the answer is the engine's, as named by `regex_word_class`.
#[verifier::external_body]
fn regex_is_word_char(c: char) -> (r: bool)
    ensures
        r == regex_word_class(c),
{
    let mut buf = [0u8;4];
    match fancy_regex::Regex::new(r"\w") {
        Ok(re) => re.is_match(c.encode_utf8(&mut buf)).unwrap_or(false),
        Err(_) => false,
    }
}

/// The ASCII members of `\w`: letters, digits and `_`.
pub open spec fn is_ascii_word(c: char) -> bool {
    ('a' <= c && c <= 'z') || ('A' <= c && c <= 'Z') || ('0' <= c && c <= '9') || c == '_'
}

/// The class `\w`: ASCII word characters, and beyond ASCII what the regex engine says.
pub open spec fn is_word(c: char) -> bool {
    if (c as u32) < 0x80 {
        is_ascii_word(c)
    } else {
        regex_word_class(c)
    }
}

/// Executable test of `is_word`.
pub fn char_is_word(c: char) -> (r: bool)
    ensures
        r == is_word(c),
{
    if (c as u32) < 0x80 {
        ('a' <= c && c <= 'z') || ('A' <= c && c <= 'Z') || ('0' <= c && c <= '9') || c == '_'
    } else {
        regex_is_word_char(c)
    }
}

/// The character classes that the schema reader scans runs of.
#[derive(Clone, Copy, PartialEq, Eq, Debug)]
pub enum CharClass {
    /// `\s`
    Ws,
    /// `\w`
    Word,
    /// `[\w\[\]!]`: the characters of a written type
    TypeChar,
    /// `!`
    Bang,
    /// `]`
    CloseBracket,
    /// `[\[\]!]`
    BracketOrBang,
    /// `"`
    Quote,
    /// `(`
    OpenParen,
    /// `)`
    CloseParen,
    /// `[()]`
    Paren,
    /// `[^()]`: what may stand inside the parentheses of a directive
    DirectiveArg,
    /// `[\w+\s]`: what may stand inside a one-line quoted description
    QuotedText,
    /// any character but `\n`
    NotNewline,
    /// any character but `"` and `\n`
    StringChar,
}

/// Membership of a character in a class.
pub open spec fn in_class(k: CharClass, c: char) -> bool {
    match k {
        CharClass::Ws => is_ws(c),
        CharClass::Word => is_word(c),
        CharClass::TypeChar => is_word(c) || c == '[' || c == ']' || c == '!',
        CharClass::Bang => c == '!',
        CharClass::CloseBracket => c == ']',
        CharClass::BracketOrBang => c == '[' || c == ']' || c == '!',
        CharClass::Quote => c == '"',
        CharClass::OpenParen => c == '(',
        CharClass::CloseParen => c == ')',
        CharClass::Paren => c == '(' || c == ')',
        CharClass::DirectiveArg => c != '(' && c != ')',
        CharClass::QuotedText => is_word(c) || c == '+' || is_ws(c),
        CharClass::NotNewline => c != '\n',
        CharClass::StringChar => c != '"' && c != '\n',
    }
}

/// Executable membership test.
pub fn char_in_class(k: CharClass, c: char) -> (r: bool)
    ensures
        r == in_class(k, c),
{
    match k {
        CharClass::Ws => char_is_ws(c),
        CharClass::Word => char_is_word(c),
        CharClass::TypeChar => c == '[' || c == ']' || c == '!' || char_is_word(c),
        CharClass::Bang => c == '!',
        CharClass::CloseBracket => c == ']',
        CharClass::BracketOrBang => c == '[' || c == ']' || c == '!',
        CharClass::Quote => c == '"',
        CharClass::OpenParen => c == '(',
        CharClass::CloseParen => c == ')',
        CharClass::Paren => c == '(' || c == ')',
        CharClass::DirectiveArg => c != '(' && c != ')',
        CharClass::QuotedText => c == '+' || char_is_ws(c) || char_is_word(c),
        CharClass::NotNewline => c != '\n',
        CharClass::StringChar => c != '"' && c != '\n',
    }
}

/// The end of the longest run of class `k` that starts at `i`.
pub open spec fn run_end(s: Seq<char>, i: int, k: CharClass) -> int
    decreases s.len() - i,
{
    if 0 <= i < s.len() && in_class(k, s[i]) {
        run_end(s, i + 1, k)
    } else {
        i
    }
}

/// Bounds of `run_end`, and that the run is made of class members and stops at a non-member.
pub proof fn lemma_run_end(s: Seq<char>, i: int, k: CharClass)
    requires
        0 <= i <= s.len(),
    ensures
        i <= run_end(s, i, k) <= s.len(),
        forall|j: int| i <= j < run_end(s, i, k) ==> in_class(k, #[trigger] s[j]),
        run_end(s, i, k) < s.len() ==> !in_class(k, s[run_end(s, i, k)]),
    decreases s.len() - i,
{
    if i < s.len() && in_class(k, s[i]) {
        lemma_run_end(s, i + 1, k);
    }
}

/// Executable `run_end`.
pub fn find_run_end(s: &[char], i: usize, k: CharClass) -> (r: usize)
    requires
        i <= s@.len(),
    ensures
        r == run_end(s@, i as int, k),
{
    let mut j = i;
    while j < s.len() && char_in_class(k, s[j])
        invariant
            i <= j <= s@.len(),
            run_end(s@, j as int, k) == run_end(s@, i as int, k),
        decreases s.len() - j,
    {
        j = j + 1;
    }
    j
}

/// The sequence of characters of a string slice.
pub fn chars_of(s: &str) -> (r: Vec<char>)
    ensures
        r@ == s@,
{
    let mut r: Vec<char> = Vec::new();
    for c in it: s.chars()
        invariant
            r@ == it.seq().take(it.index() as int),
    {
        r.push(c);
    }
    r
}

/// Appends one character to a `String` (std `String::push`).
#[verifier::external_body]
fn push_char(s: &mut String, c: char)
    ensures
        final(s)@ == old(s)@.push(c),
{
    s.push(c);
}

/// The string made of the given characters.
pub fn string_of(v: &[char]) -> (r: String)
    ensures
        r@ == v@,
{
    let mut r = String::new();
    let mut i: usize = 0;
    while i < v.len()
        invariant
            i <= v@.len(),
            r@ == v@.take(i as int),
        decreases v.len() - i,
    {
        push_char(&mut r, v[i]);
        i = i + 1;
        assert(v@.take(i as int) =~= v@.take(i - 1).push(v@[i - 1]));
    }
    assert(v@.take(v@.len() as int) =~= v@);
    r
}

/// Whether `c` occurs in `s`.
pub open spec fn has_char(s: Seq<char>, c: char) -> bool {
    exists|i: int| 0 <= i < s.len() && s[i] == c
}

/// Executable `has_char`.
pub fn contains_char(s: &[char], c: char) -> (r: bool)
    ensures
        r == has_char(s@, c),
{
    let mut i: usize = 0;
    while i < s.len()
        invariant
            i <= s@.len(),
            forall|j: int| 0 <= j < i ==> s@[j] != c,
        decreases s.len() - i,
    {
        if s[i] == c {
            return true;
        }
        i = i + 1;
    }
    false
}

/// Whether `t` occurs in `s` starting at `i`.
pub open spec fn occurs_at(s: Seq<char>, t: Seq<char>, i: int) -> bool {
    0 <= i && i + t.len() <= s.len() && s.subrange(i, i + t.len()) == t
}

/// Executable `occurs_at`.
pub fn text_occurs_at(s: &[char], t: &[char], i: usize) -> (r: bool)
    ensures
        r == occurs_at(s@, t@, i as int),
{
    if i > s.len() || t.len() > s.len() - i {
        return false;
    }
    let mut j: usize = 0;
    while j < t.len()
        invariant
            i + t@.len() <= s@.len(),
            i <= s.len(),
            t.len() <= s.len() - i,
            j <= t@.len(),
            forall|k: int| 0 <= k < j ==> s@[i + k] == t@[k],
        decreases t.len() - j,
    {
        if s[i + j] != t[j] {
            assert(s@.subrange(i as int, i + t@.len())[j as int] != t@[j as int]);
            return false;
        }
        j = j + 1;
    }
    assert(s@.subrange(i as int, i + t@.len()) =~= t@);
    true
}

/// Whether `t` occurs anywhere in `s` (std `str::contains` with a string pattern).
pub open spec fn has_text(s: Seq<char>, t: Seq<char>) -> bool {
    exists|i: int| occurs_at(s, t, i)
}

/// The first position at or after `from` where `t` occurs in `s`.
pub open spec fn first_occurrence_from(s: Seq<char>, t: Seq<char>, from: int) -> Option<int>
    decreases s.len() + 1 - from,
{
    if from < 0 || from > s.len() {
        None
    } else if occurs_at(s, t, from) {
        Some(from)
    } else {
        first_occurrence_from(s, t, from + 1)
    }
}

/// `first_occurrence_from` finds a real occurrence, the first one.
pub proof fn lemma_first_occurrence(s: Seq<char>, t: Seq<char>, from: int)
    requires
        0 <= from,
    ensures
        first_occurrence_from(s, t, from) matches Some(p) ==> from <= p && occurs_at(s, t, p)
            && forall|q: int| from <= q < p ==> !occurs_at(s, t, q),
        first_occurrence_from(s, t, from) is None ==> forall|q: int|
            from <= q ==> !occurs_at(s, t, q),
    decreases s.len() + 1 - from,
{
    if from <= s.len() && !occurs_at(s, t, from) {
        lemma_first_occurrence(s, t, from + 1);
    }
}

/// Executable `first_occurrence_from`.
pub fn find_text_from(s: &[char], t: &[char], from: usize) -> (r: Option<usize>)
    ensures
        r matches Some(p) ==> first_occurrence_from(s@, t@, from as int) == Some(p as int),
        r is None ==> first_occurrence_from(s@, t@, from as int) is None,
{
    if from > s.len() {
        return None;
    }
    let mut i = from;
    while i < s.len()
        invariant
            from <= i <= s@.len(),
            first_occurrence_from(s@, t@, i as int) == first_occurrence_from(
                s@,
                t@,
                from as int,
            ),
        decreases s.len() - i,
    {
        if text_occurs_at(s, t, i) {
            return Some(i);
        }
        i = i + 1;
    }
    if text_occurs_at(s, t, i) {
        Some(i)
    } else {
        assert(first_occurrence_from(s@, t@, i + 1) is None);
        None
    }
}

/// Executable `has_text`.
pub fn contains_text(s: &[char], t: &[char]) -> (r: bool)
    ensures
        r == has_text(s@, t@),
{
    let r = find_text_from(s, t, 0);
    proof {
        lemma_first_occurrence(s@, t@, 0);
    }
    r.is_some()
}

/// Whether `s` ends with `t`.
pub open spec fn ends_with(s: Seq<char>, t: Seq<char>) -> bool {
    t.len() <= s.len() && occurs_at(s, t, s.len() - t.len())
}

/// Executable `ends_with`.
pub fn text_ends_with(s: &[char], t: &[char]) -> (r: bool)
    ensures
        r == ends_with(s@, t@),
{
    if t.len() > s.len() {
        false
    } else {
        text_occurs_at(s, t, s.len() - t.len())
    }
}

/// `s` with every occurrence of `t` (scanned left to right, not overlapping) replaced by `u`,
/// scanning from `from` (std `str::replace`); an empty `t` leaves the text as it is.
pub open spec fn replaced_from(s: Seq<char>, t: Seq<char>, u: Seq<char>, from: int) -> Seq<char>
    decreases s.len() + 1 - from,
{
    if from < 0 || from > s.len() {
        Seq::empty()
    } else if t.len() == 0 {
        s.subrange(from, s.len() as int)
    } else {
        match first_occurrence_from(s, t, from) {
            Some(p) => if from <= p && p + t.len() <= s.len() {
                s.subrange(from, p) + u + replaced_from(s, t, u, p + t.len())
            } else {
                Seq::empty()
            },
            None => s.subrange(from, s.len() as int),
        }
    }
}

/// Every occurrence of `t` in `s` replaced by `u`.
pub open spec fn replaced(s: Seq<char>, t: Seq<char>, u: Seq<char>) -> Seq<char> {
    replaced_from(s, t, u, 0)
}

/// Executable `replaced`.
pub fn replace_text(s: &[char], t: &[char], u: &[char]) -> (r: Vec<char>)
    ensures
        r@ == replaced(s@, t@, u@),
{
    if t.len() == 0 {
        let mut r: Vec<char> = Vec::new();
        let mut i: usize = 0;
        while i < s.len()
            invariant
                i <= s@.len(),
                r@ == s@.take(i as int),
            decreases s.len() - i,
        {
            r.push(s[i]);
            i = i + 1;
            assert(r@ =~= s@.take(i as int));
        }
        assert(s@.subrange(0, s@.len() as int) =~= s@.take(i as int));
        return r;
    }
    let mut r: Vec<char> = Vec::new();
    let mut from: usize = 0;
    while from <= s.len()
        invariant
            t@.len() > 0,
            from <= s@.len() + 1,
            from <= s@.len() ==> r@ + replaced_from(s@, t@, u@, from as int) == replaced(
                s@,
                t@,
                u@,
            ),
            from > s@.len() ==> r@ == replaced(s@, t@, u@),
        decreases s.len() + 1 - from,
    {
        let found = find_text_from(s, t, from);
        proof {
            lemma_first_occurrence(s@, t@, from as int);
        }
        match found {
            Some(p) => {
                let ghost before = r@;
                let mut k = from;
                while k < p
                    invariant
                        from <= k <= p,
                        p <= s@.len(),
                        r@ == before + s@.subrange(from as int, k as int),
                    decreases p - k,
                {
                    r.push(s[k]);
                    k = k + 1;
                    assert(r@ =~= before + s@.subrange(from as int, k as int));
                }
                let mut m: usize = 0;
                while m < u.len()
                    invariant
                        m <= u@.len(),
                        r@ == before + s@.subrange(from as int, p as int) + u@.take(m as int),
                    decreases u.len() - m,
                {
                    r.push(u[m]);
                    m = m + 1;
                    assert(r@ =~= before + s@.subrange(from as int, p as int) + u@.take(
                        m as int,
                    ));
                }
                assert(u@.take(u@.len() as int) =~= u@);
                assert(r@ + replaced_from(s@, t@, u@, p + t@.len()) =~= before + replaced_from(
                    s@,
                    t@,
                    u@,
                    from as int,
                ));
                from = p + t.len();
            },
            None => {
                let ghost before = r@;
                let mut k = from;
                while k < s.len()
                    invariant
                        from <= k <= s@.len(),
                        r@ == before + s@.subrange(from as int, k as int),
                    decreases s.len() - k,
                {
                    r.push(s[k]);
                    k = k + 1;
                    assert(r@ =~= before + s@.subrange(from as int, k as int));
                }
                return r;
            },
        }
    }
    r
}

} // verus!

verus! {

/// The line that ends at `p` (a `\n` at `p`, or the end of the text), starting at `i`, without
/// a `\r` just before the `\n`.
pub open spec fn line_body(s: Seq<char>, i: int, p: int) -> Seq<char> {
    if p < s.len() && p > i && s[p - 1] == '\r' {
        s.subrange(i, p - 1)
    } else {
        s.subrange(i, p)
    }
}

/// The lines of `s` from position `i` on, as std `str::lines` yields them: split at `\n`,
/// a `\r` before a `\n` dropped, and no empty last line after a final `\n`.
pub open spec fn lines_from(s: Seq<char>, i: int) -> Seq<Seq<char>>
    decreases s.len() - i,
{
    if i < 0 || i >= s.len() {
        Seq::empty()
    } else {
        match first_occurrence_from(s, seq!['\n'], i) {
            Some(p) => if i <= p < s.len() {
                seq![line_body(s, i, p)] + lines_from(s, p + 1)
            } else {
                Seq::empty()
            },
            None => seq![s.subrange(i, s.len() as int)],
        }
    }
}

/// The lines of `s`.
pub open spec fn lines(s: Seq<char>) -> Seq<Seq<char>> {
    lines_from(s, 0)
}

/// Executable `lines`.
pub fn split_lines(s: &[char]) -> (r: Vec<Vec<char>>)
    ensures
        r@.len() == lines(s@).len(),
        forall|k: int| 0 <= k < r@.len() ==> #[trigger] r@[k]@ == lines(s@)[k],
{
    let mut r: Vec<Vec<char>> = Vec::new();
    let mut i: usize = 0;
    let nl: Vec<char> = vec!['\n'];
    let ghost mut done: Seq<Seq<char>> = Seq::empty();
    while i < s.len()
        invariant
            i <= s@.len(),
            nl@ == seq!['\n'],
            done + lines_from(s@, i as int) == lines(s@),
            r@.len() == done.len(),
            forall|k: int| 0 <= k < r@.len() ==> #[trigger] r@[k]@ == done[k],
        decreases s.len() - i,
    {
        let found = find_text_from(s, nl.as_slice(), i);
        proof {
            lemma_first_occurrence(s@, nl@, i as int);
        }
        match found {
            Some(p) => {
                let end = if p > i && s[p - 1] == '\r' {
                    p - 1
                } else {
                    p
                };
                let mut line: Vec<char> = Vec::new();
                let mut k = i;
                while k < end
                    invariant
                        i <= k <= end,
                        end <= s@.len(),
                        line@ == s@.subrange(i as int, k as int),
                    decreases end - k,
                {
                    line.push(s[k]);
                    k = k + 1;
                    assert(line@ =~= s@.subrange(i as int, k as int));
                }
                assert(line@ == line_body(s@, i as int, p as int));
                proof {
                    done = done.push(line@);
                }
                r.push(line);
                assert(done + lines_from(s@, p + 1) =~= lines(s@));
                i = p + 1;
            },
            None => {
                let mut line: Vec<char> = Vec::new();
                let mut k = i;
                while k < s.len()
                    invariant
                        i <= k <= s@.len(),
                        line@ == s@.subrange(i as int, k as int),
                    decreases s.len() - k,
                {
                    line.push(s[k]);
                    k = k + 1;
                    assert(line@ =~= s@.subrange(i as int, k as int));
                }
                proof {
                    done = done.push(line@);
                }
                r.push(line);
                assert(done =~= lines(s@));
                return r;
            },
        }
    }
    assert(done =~= lines(s@));
    r
}


/// Whether two character sequences are equal.
pub fn chars_equal(a: &[char], b: &[char]) -> (r: bool)
    ensures
        r == (a@ == b@),
{
    if a.len() != b.len() {
        return false;
    }
    let mut i: usize = 0;
    while i < a.len()
        invariant
            i <= a@.len(),
            a@.len() == b@.len(),
            forall|j: int| 0 <= j < i ==> a@[j] == b@[j],
        decreases a.len() - i,
    {
        if a[i] != b[i] {
            return false;
        }
        i = i + 1;
    }
    assert(a@ =~= b@);
    true
}

/// Whether a string holds exactly the text `lit`.
pub fn string_is(s: &String, lit: &str) -> (r: bool)
    ensures
        r == (s@ == lit@),
{
    let a = chars_of(s.as_str());
    let b = chars_of(lit);
    chars_equal(a.as_slice(), b.as_slice())
}

/// Whether two strings hold the same text.
pub fn strings_equal(a: &String, b: &String) -> (r: bool)
    ensures
        r == (a@ == b@),
{
    let x = chars_of(a.as_str());
    let y = chars_of(b.as_str());
    chars_equal(x.as_slice(), y.as_slice())
}

} // verus!
