//! The text patterns of the schema reader, each given by where a match that starts at a
//! position ends, with leftmost-first scanning, finding all matches, and replacing them.
use vstd::prelude::*;
use crate::text::{CharClass, in_class, is_ws, is_word, run_end, lemma_run_end, find_run_end, char_is_ws, char_is_word};

verus! {

/// The patterns that the reader looks for in schema text. Each names the regular
/// expression whose leftmost-first matches it stands for.
#[derive(Clone, Copy, PartialEq, Eq, Debug)]
pub enum Pattern {
    /// `\w+`
    Words,
    /// `(?m)([^:]|^\s+)#.*$`: a comment, with the character before it
    Comment,
    /// `["]{3,}[\s\S]*?["]{3,}`: a block string
    BlockString,
    /// `(\r\n)+`
    CarriageReturnNewLine,
    /// `([\s\S]*[#]+[^\n]+)`: everything up to the end of the last comment
    CommentsBeforeType,
    /// `[\w\[\]!]+`: a written type
    CompleteType,
    /// `[!]+`
    Exclamations,
    /// `(])+`
    ClosingBrackets,
    /// `[\[\]!]+`
    BracketsAndExclamation,
    /// `(^\s*["]+[\s\r\n]*)|(\s*["]+[\s\r\n]*$)`: the quotes around a description
    DescriptionQuotes,
    /// `(@{1}\w+\s*[(]+[^()]+[)]+)`: a directive with arguments
    DirectiveWithArguments,
    /// `@\w+`
    DirectiveName,
    /// `\s+`
    Whitespace,
    /// `(\s*(on)+\s+)+`
    OnWord,
    /// `[^\s][\w]+|\w`: a name, a lone word character included
    FirstWord,
    /// `(?<=\s)["][\w+\s+]+["](?:\s)`: a one-line quoted description
    QuotedDescription,
    /// `[)()]+`
    Parentheses,
    /// `\w+(?=[\s\r\n:])`: an argument name
    FieldName,
    /// `(?<=:\s)["\[\]\s\S]+`: an argument value
    ArgumentValue,
    /// `"[^"\n]*"`: a string written on one line
    StringLiteral,
}

/// A match of class `k` starting at `i`: the longest run.
pub open spec fn class_run_at(s: Seq<char>, i: int, k: CharClass) -> Option<int> {
    if 0 <= i < s.len() && in_class(k, s[i]) {
        Some(run_end(s, i, k))
    } else {
        None
    }
}

/// The end of the line that contains position `j` (the next `\n`, or the end of the text).
pub open spec fn line_end(s: Seq<char>, j: int) -> int {
    run_end(s, j, CharClass::NotNewline)
}

/// Position `i` starts a line.
pub open spec fn at_line_start(s: Seq<char>, i: int) -> bool {
    i == 0 || (0 < i <= s.len() && s[i - 1] == '\n')
}

/// `Comment` at `i`: a character other than `:` followed by `#`, or a whitespace run at a line
/// start followed by `#`; the match runs to the end of that line.
pub open spec fn comment_at(s: Seq<char>, i: int) -> Option<int> {
    if 0 <= i && i + 1 < s.len() && s[i] != ':' && s[i + 1] == '#' {
        Some(line_end(s, i + 2))
    } else if 0 <= i < s.len() && at_line_start(s, i) && is_ws(s[i]) && run_end(
        s,
        i,
        CharClass::Ws,
    ) < s.len() && s[run_end(s, i, CharClass::Ws)] == '#' {
        Some(line_end(s, run_end(s, i, CharClass::Ws) + 1))
    } else {
        None
    }
}

/// The end of the run of `\r\n` pairs that starts at `i`.
pub open spec fn crlf_end(s: Seq<char>, i: int) -> int
    decreases s.len() - i,
{
    if 0 <= i && i + 1 < s.len() && s[i] == '\r' && s[i + 1] == '\n' {
        crlf_end(s, i + 2)
    } else {
        i
    }
}

/// Three quotes stand at `j`.
pub open spec fn triple_quote_at(s: Seq<char>, j: int) -> bool {
    0 <= j && j + 2 < s.len() && s[j] == '"' && s[j + 1] == '"' && s[j + 2] == '"'
}

/// The first position at or after `j` where three quotes stand.
pub open spec fn first_triple_from(s: Seq<char>, j: int) -> Option<int>
    decreases s.len() - j,
{
    if j < 0 || j + 2 >= s.len() {
        None
    } else if triple_quote_at(s, j) {
        Some(j)
    } else {
        first_triple_from(s, j + 1)
    }
}

/// `BlockString` at `i`: at least three quotes, then the shortest text up to three quotes,
/// then all quotes that follow; a run of six or more quotes with no closing quotes after it
/// matches by itself.
pub open spec fn block_string_at(s: Seq<char>, i: int) -> Option<int> {
    let m = run_end(s, i, CharClass::Quote) - i;
    if 0 <= i < s.len() && m >= 3 {
        match first_triple_from(s, i + m) {
            Some(j) => Some(run_end(s, j, CharClass::Quote)),
            None => if m >= 6 {
                Some(i + m)
            } else {
                None
            },
        }
    } else {
        None
    }
}

/// The last position `k` with a `#` that a character other than `\n` follows.
pub open spec fn last_hash_before(s: Seq<char>, j: int) -> Option<int>
    decreases j,
{
    if j <= 0 || j > s.len() {
        None
    } else if j < s.len() && s[j - 1] == '#' && s[j] != '\n' {
        Some(j - 1)
    } else {
        last_hash_before(s, j - 1)
    }
}

/// `CommentsBeforeType` at `i`: from `i` to the end of the line of the last `#` that has a
/// character other than `\n` after it, when that `#` is at or after `i`.
pub open spec fn comments_before_type_at(s: Seq<char>, i: int) -> Option<int> {
    match last_hash_before(s, s.len() as int) {
        Some(k) => if 0 <= i <= k {
            Some(line_end(s, k + 1))
        } else {
            None
        },
        None => None,
    }
}

/// `DescriptionQuotes` at `i`: at the start, whitespace, quotes and whitespace; anywhere,
/// whitespace, quotes and whitespace that reach the end of the text.
pub open spec fn description_quotes_at(s: Seq<char>, i: int) -> Option<int> {
    let a = run_end(s, i, CharClass::Ws);
    let b = run_end(s, a, CharClass::Quote);
    if i == 0 && a < s.len() && s[a] == '"' {
        Some(run_end(s, b, CharClass::Ws))
    } else if 0 <= i < s.len() && a < s.len() && s[a] == '"' && run_end(s, b, CharClass::Ws)
        == s.len() {
        Some(s.len() as int)
    } else {
        None
    }
}

/// `DirectiveWithArguments` at `i`: `@`, a name, whitespace, `(`s, argument text, `)`s.
pub open spec fn directive_with_arguments_at(s: Seq<char>, i: int) -> Option<int> {
    let w = run_end(s, i + 1, CharClass::Word);
    let a = run_end(s, w, CharClass::Ws);
    let b = run_end(s, a, CharClass::OpenParen);
    let c = run_end(s, b, CharClass::DirectiveArg);
    if 0 <= i < s.len() && s[i] == '@' && w > i + 1 && a < s.len() && s[a] == '(' && c > b
        && c < s.len() && s[c] == ')' {
        Some(run_end(s, c, CharClass::CloseParen))
    } else {
        None
    }
}

/// `DirectiveName` at `i`: `@` and a name.
pub open spec fn directive_name_at(s: Seq<char>, i: int) -> Option<int> {
    if 0 <= i < s.len() && s[i] == '@' && run_end(s, i + 1, CharClass::Word) > i + 1 {
        Some(run_end(s, i + 1, CharClass::Word))
    } else {
        None
    }
}

/// The end of the repetitions of `on` that start at `a`.
pub open spec fn on_end(s: Seq<char>, a: int) -> int
    decreases s.len() - a,
{
    if 0 <= a && a + 1 < s.len() && s[a] == 'o' && s[a + 1] == 'n' {
        on_end(s, a + 2)
    } else {
        a
    }
}

/// One group `\s*(on)+\s+` at `i`.
pub open spec fn on_group_at(s: Seq<char>, i: int) -> Option<int> {
    let a = run_end(s, i, CharClass::Ws);
    let k = on_end(s, a);
    if 0 <= i < s.len() && k > a && k < s.len() && is_ws(s[k]) {
        Some(run_end(s, k, CharClass::Ws))
    } else {
        None
    }
}

/// The end of the groups `\s*(on)+\s+` that follow one another from `e`.
pub open spec fn on_groups_end(s: Seq<char>, e: int) -> int
    decreases s.len() - e,
{
    match on_group_at(s, e) {
        Some(e2) => if e < e2 <= s.len() {
            on_groups_end(s, e2)
        } else {
            e
        },
        None => e,
    }
}

/// `OnWord` at `i`: one or more groups `\s*(on)+\s+`.
pub open spec fn on_word_at(s: Seq<char>, i: int) -> Option<int> {
    match on_group_at(s, i) {
        Some(e) => Some(on_groups_end(s, e)),
        None => None,
    }
}

/// `FirstWord` at `i`: a character that is not whitespace, then a run of word characters.
pub open spec fn first_word_at(s: Seq<char>, i: int) -> Option<int> {
    if 0 <= i && i + 1 < s.len() && !is_ws(s[i]) && is_word(s[i + 1]) {
        Some(run_end(s, i + 1, CharClass::Word))
    } else if 0 <= i < s.len() && is_word(s[i]) {
        Some(i + 1)
    } else {
        None
    }
}

/// `QuotedDescription` at `i`: after whitespace, a quote, quoted text, a quote, whitespace.
pub open spec fn quoted_description_at(s: Seq<char>, i: int) -> Option<int> {
    let r = run_end(s, i + 1, CharClass::QuotedText);
    if 1 <= i < s.len() && is_ws(s[i - 1]) && s[i] == '"' && r > i + 1 && r + 1 < s.len()
        && s[r] == '"' && is_ws(s[r + 1]) {
        Some(r + 2)
    } else {
        None
    }
}

/// `FieldName` at `i`: a run of word characters that whitespace or `:` follows.
pub open spec fn field_name_at(s: Seq<char>, i: int) -> Option<int> {
    let r = run_end(s, i, CharClass::Word);
    if 0 <= i < s.len() && is_word(s[i]) && r < s.len() && (is_ws(s[r]) || s[r] == ':') {
        Some(r)
    } else {
        None
    }
}

/// `ArgumentValue` at `i`: everything after `:` and one whitespace character.
/// `StringLiteral` at `i`: a quote, characters other than quotes and line breaks, a quote.
pub open spec fn string_literal_at(s: Seq<char>, i: int) -> Option<int> {
    let r = run_end(s, i + 1, CharClass::StringChar);
    if 0 <= i < s.len() && s[i] == '"' && r < s.len() && s[r] == '"' {
        Some(r + 1)
    } else {
        None
    }
}

pub open spec fn argument_value_at(s: Seq<char>, i: int) -> Option<int> {
    if 2 <= i < s.len() && s[i - 2] == ':' && is_ws(s[i - 1]) {
        Some(s.len() as int)
    } else {
        None
    }
}

/// Where a match of `p` that starts at `i` ends, if one starts there.
pub open spec fn match_at(p: Pattern, s: Seq<char>, i: int) -> Option<int> {
    match p {
        Pattern::Words => class_run_at(s, i, CharClass::Word),
        Pattern::Comment => comment_at(s, i),
        Pattern::BlockString => block_string_at(s, i),
        Pattern::CarriageReturnNewLine => if 0 <= i && i + 1 < s.len() && s[i] == '\r' && s[i
            + 1] == '\n' {
            Some(crlf_end(s, i))
        } else {
            None
        },
        Pattern::CommentsBeforeType => comments_before_type_at(s, i),
        Pattern::CompleteType => class_run_at(s, i, CharClass::TypeChar),
        Pattern::Exclamations => class_run_at(s, i, CharClass::Bang),
        Pattern::ClosingBrackets => class_run_at(s, i, CharClass::CloseBracket),
        Pattern::BracketsAndExclamation => class_run_at(s, i, CharClass::BracketOrBang),
        Pattern::DescriptionQuotes => description_quotes_at(s, i),
        Pattern::DirectiveWithArguments => directive_with_arguments_at(s, i),
        Pattern::DirectiveName => directive_name_at(s, i),
        Pattern::Whitespace => class_run_at(s, i, CharClass::Ws),
        Pattern::OnWord => on_word_at(s, i),
        Pattern::FirstWord => first_word_at(s, i),
        Pattern::QuotedDescription => quoted_description_at(s, i),
        Pattern::Parentheses => class_run_at(s, i, CharClass::Paren),
        Pattern::FieldName => field_name_at(s, i),
        Pattern::ArgumentValue => argument_value_at(s, i),
        Pattern::StringLiteral => string_literal_at(s, i),
    }
}

/// The leftmost match of `p` that starts at or after `i`, as (start, end).
pub open spec fn first_match_from(p: Pattern, s: Seq<char>, i: int) -> Option<(int, int)>
    decreases s.len() - i,
{
    if i < 0 || i >= s.len() {
        None
    } else {
        match match_at(p, s, i) {
            Some(e) => Some((i, e)),
            None => first_match_from(p, s, i + 1),
        }
    }
}

/// The leftmost match of `p` in `s` (what `captures` and `find` give).
pub open spec fn first_match(p: Pattern, s: Seq<char>) -> Option<(int, int)> {
    first_match_from(p, s, 0)
}

/// The successive matches of `p` from `i` on (what `find_iter` yields).
pub open spec fn matches_from(p: Pattern, s: Seq<char>, i: int) -> Seq<(int, int)>
    decreases s.len() - i,
{
    match first_match_from(p, s, i) {
        Some((a, e)) => if i <= a < e <= s.len() {
            seq![(a, e)] + matches_from(p, s, e)
        } else {
            Seq::empty()
        },
        None => Seq::empty(),
    }
}

/// All matches of `p` in `s`.
pub open spec fn all_matches(p: Pattern, s: Seq<char>) -> Seq<(int, int)> {
    matches_from(p, s, 0)
}

/// `s` from `i` on with every match of `p` replaced by `rep` (what `replace_all` gives).
pub open spec fn replace_all_from(p: Pattern, s: Seq<char>, i: int, rep: Seq<char>) -> Seq<
    char,
>
    decreases s.len() - i,
{
    if i < 0 || i > s.len() {
        Seq::empty()
    } else {
        match first_match_from(p, s, i) {
            Some((a, e)) => if i <= a < e <= s.len() {
                s.subrange(i, a) + rep + replace_all_from(p, s, e, rep)
            } else {
                Seq::empty()
            },
            None => s.subrange(i, s.len() as int),
        }
    }
}

/// `s` with every match of `p` replaced by `rep`.
pub open spec fn replace_all(p: Pattern, s: Seq<char>, rep: Seq<char>) -> Seq<char> {
    replace_all_from(p, s, 0, rep)
}

/// `s` with every match of `p` removed.
pub open spec fn remove_all(p: Pattern, s: Seq<char>) -> Seq<char> {
    replace_all(p, s, Seq::empty())
}

/// The text of the first match of `p`, if any.
pub open spec fn first_match_text(p: Pattern, s: Seq<char>) -> Option<Seq<char>> {
    match first_match(p, s) {
        Some((a, e)) => Some(s.subrange(a, e)),
        None => None,
    }
}

} // verus!

verus! {

/// An optional position as a mathematical integer.
pub open spec fn opt_int(o: Option<usize>) -> Option<int> {
    match o {
        Some(e) => Some(e as int),
        None => None,
    }
}

/// A match ends after it starts and within the text.
pub proof fn lemma_match_at_bounds(p: Pattern, s: Seq<char>, i: int)
    ensures
        match_at(p, s, i) matches Some(e) ==> 0 <= i < e <= s.len(),
{
    if 0 <= i <= s.len() {
        lemma_run_end(s, i, CharClass::Word);
        lemma_run_end(s, i, CharClass::Ws);
        lemma_run_end(s, i, CharClass::Quote);
        lemma_run_end(s, i, CharClass::TypeChar);
        lemma_run_end(s, i, CharClass::Bang);
        lemma_run_end(s, i, CharClass::CloseBracket);
        lemma_run_end(s, i, CharClass::BracketOrBang);
        lemma_run_end(s, i, CharClass::Paren);
    }
    match p {
        Pattern::Comment => {
            if 0 <= i && i + 1 < s.len() && s[i] != ':' && s[i + 1] == '#' {
                lemma_run_end(s, i + 2, CharClass::NotNewline);
            } else if 0 <= i < s.len() {
                let r = run_end(s, i, CharClass::Ws);
                if r < s.len() {
                    lemma_run_end(s, r + 1, CharClass::NotNewline);
                }
            }
        },
        Pattern::BlockString => {
            if 0 <= i < s.len() {
                let m = run_end(s, i, CharClass::Quote) - i;
                lemma_first_triple(s, i + m);
                if let Some(j) = first_triple_from(s, i + m) {
                    lemma_run_end(s, j, CharClass::Quote);
                }
            }
        },
        Pattern::CarriageReturnNewLine => {
            lemma_crlf_end(s, i + 2);
        },
        Pattern::CommentsBeforeType => {
            lemma_last_hash(s, s.len() as int);
            if let Some(k) = last_hash_before(s, s.len() as int) {
                lemma_run_end(s, k + 1, CharClass::NotNewline);
            }
        },
        Pattern::DescriptionQuotes => {
            if 0 <= i < s.len() {
                let a = run_end(s, i, CharClass::Ws);
                if a < s.len() {
                    lemma_run_end(s, a, CharClass::Quote);
                    let b = run_end(s, a, CharClass::Quote);
                    lemma_run_end(s, b, CharClass::Ws);
                }
            }
        },
        Pattern::DirectiveWithArguments => {
            if 0 <= i < s.len() && s[i] == '@' {
                lemma_run_end(s, i + 1, CharClass::Word);
                let w = run_end(s, i + 1, CharClass::Word);
                lemma_run_end(s, w, CharClass::Ws);
                let a = run_end(s, w, CharClass::Ws);
                lemma_run_end(s, a, CharClass::OpenParen);
                let b = run_end(s, a, CharClass::OpenParen);
                lemma_run_end(s, b, CharClass::DirectiveArg);
                let c = run_end(s, b, CharClass::DirectiveArg);
                lemma_run_end(s, c, CharClass::CloseParen);
            }
        },
        Pattern::DirectiveName => {
            if 0 <= i < s.len() {
                lemma_run_end(s, i + 1, CharClass::Word);
            }
        },
        Pattern::OnWord => {
            lemma_on_group(s, i);
            if let Some(e) = on_group_at(s, i) {
                lemma_on_groups_end(s, e);
            }
        },
        Pattern::FirstWord => {
            if 0 <= i && i + 1 < s.len() {
                lemma_run_end(s, i + 1, CharClass::Word);
            }
        },
        Pattern::QuotedDescription => {
            if 1 <= i < s.len() {
                lemma_run_end(s, i + 1, CharClass::QuotedText);
            }
        },
        Pattern::StringLiteral => {
            if 0 <= i < s.len() {
                lemma_run_end(s, i + 1, CharClass::StringChar);
            }
        },
        _ => {},
    }
}

/// Bounds of `crlf_end`.
pub proof fn lemma_crlf_end(s: Seq<char>, i: int)
    ensures
        0 <= i <= s.len() ==> i <= crlf_end(s, i) <= s.len(),
    decreases s.len() - i,
{
    if 0 <= i && i + 1 < s.len() && s[i] == '\r' && s[i + 1] == '\n' {
        lemma_crlf_end(s, i + 2);
    }
}

/// `first_triple_from` finds three quotes at or after `j`.
pub proof fn lemma_first_triple(s: Seq<char>, j: int)
    ensures
        first_triple_from(s, j) matches Some(k) ==> j <= k && triple_quote_at(s, k),
    decreases s.len() - j,
{
    if j >= 0 && j + 2 < s.len() && !triple_quote_at(s, j) {
        lemma_first_triple(s, j + 1);
    }
}

/// `last_hash_before` finds a `#` before `j` followed by a character.
pub proof fn lemma_last_hash(s: Seq<char>, j: int)
    ensures
        last_hash_before(s, j) matches Some(k) ==> 0 <= k < j && k + 1 < s.len() && s[k]
            == '#',
    decreases j,
{
    if j > 0 && j <= s.len() && !(j < s.len() && s[j - 1] == '#' && s[j] != '\n') {
        lemma_last_hash(s, j - 1);
    }
}

/// Bounds of `on_end`.
pub proof fn lemma_on_end(s: Seq<char>, a: int)
    ensures
        0 <= a <= s.len() ==> a <= on_end(s, a) <= s.len(),
    decreases s.len() - a,
{
    if 0 <= a && a + 1 < s.len() && s[a] == 'o' && s[a + 1] == 'n' {
        lemma_on_end(s, a + 2);
    }
}

/// Bounds of one `on` group.
pub proof fn lemma_on_group(s: Seq<char>, i: int)
    ensures
        on_group_at(s, i) matches Some(e) ==> 0 <= i < e <= s.len(),
{
    if 0 <= i < s.len() {
        lemma_run_end(s, i, CharClass::Ws);
        let a = run_end(s, i, CharClass::Ws);
        lemma_on_end(s, a);
        let k = on_end(s, a);
        if k < s.len() {
            lemma_run_end(s, k, CharClass::Ws);
        }
    }
}

/// Bounds of the `on` groups.
pub proof fn lemma_on_groups_end(s: Seq<char>, e: int)
    ensures
        0 <= e <= s.len() ==> e <= on_groups_end(s, e) <= s.len(),
    decreases s.len() - e,
{
    if let Some(e2) = on_group_at(s, e) {
        if e < e2 <= s.len() {
            lemma_on_groups_end(s, e2);
        }
    }
}

fn find_line_end(s: &[char], j: usize) -> (r: usize)
    requires
        j <= s@.len(),
    ensures
        r == line_end(s@, j as int),
{
    find_run_end(s, j, CharClass::NotNewline)
}

fn find_crlf_end(s: &[char], i: usize) -> (r: usize)
    requires
        i <= s@.len(),
    ensures
        r == crlf_end(s@, i as int),
{
    let mut j = i;
    while s.len() - j > 1 && s[j] == '\r' && s[j + 1] == '\n'
        invariant
            i <= j <= s@.len(),
            crlf_end(s@, j as int) == crlf_end(s@, i as int),
        decreases s.len() - j,
    {
        j = j + 2;
    }
    j
}

fn find_first_triple(s: &[char], j: usize) -> (r: Option<usize>)
    ensures
        opt_int(r) == first_triple_from(s@, j as int),
{
    let mut k = j;
    while k < s.len() && s.len() - k > 2
        invariant
            j <= k,
            first_triple_from(s@, k as int) == first_triple_from(s@, j as int),
        decreases s.len() - k,
    {
        if s[k] == '"' && s[k + 1] == '"' && s[k + 2] == '"' {
            return Some(k);
        }
        k = k + 1;
    }
    None
}

fn find_last_hash(s: &[char]) -> (r: Option<usize>)
    ensures
        opt_int(r) == last_hash_before(s@, s@.len() as int),
{
    let mut j = s.len();
    while j > 0
        invariant
            j <= s@.len(),
            last_hash_before(s@, j as int) == last_hash_before(s@, s@.len() as int),
        decreases j,
    {
        if j < s.len() && s[j - 1] == '#' && s[j] != '\n' {
            return Some(j - 1);
        }
        j = j - 1;
    }
    None
}

fn find_on_end(s: &[char], a: usize) -> (r: usize)
    requires
        a <= s@.len(),
    ensures
        r == on_end(s@, a as int),
{
    let mut k = a;
    while s.len() - k > 1 && s[k] == 'o' && s[k + 1] == 'n'
        invariant
            a <= k <= s@.len(),
            on_end(s@, k as int) == on_end(s@, a as int),
        decreases s.len() - k,
    {
        k = k + 2;
    }
    k
}

fn find_on_group(s: &[char], i: usize) -> (r: Option<usize>)
    ensures
        opt_int(r) == on_group_at(s@, i as int),
{
    if i >= s.len() {
        return None;
    }
    let a = find_run_end(s, i, CharClass::Ws);
    proof {
        lemma_run_end(s@, i as int, CharClass::Ws);
    }
    let k = find_on_end(s, a);
    proof {
        lemma_on_end(s@, a as int);
    }
    if k > a && k < s.len() && char_is_ws(s[k]) {
        Some(find_run_end(s, k, CharClass::Ws))
    } else {
        None
    }
}

fn find_on_groups_end(s: &[char], e: usize) -> (r: usize)
    requires
        e <= s@.len(),
    ensures
        r == on_groups_end(s@, e as int),
{
    let mut cur = e;
    loop
        invariant
            e <= cur <= s@.len(),
            on_groups_end(s@, cur as int) == on_groups_end(s@, e as int),
        decreases s.len() - cur,
    {
        proof {
            lemma_on_group(s@, cur as int);
        }
        match find_on_group(s, cur) {
            Some(e2) => {
                cur = e2;
            },
            None => {
                return cur;
            },
        }
    }
}

fn find_class_run_at(s: &[char], i: usize, k: CharClass) -> (r: Option<usize>)
    ensures
        opt_int(r) == class_run_at(s@, i as int, k),
{
    if i < s.len() && char_in_class_at(s, i, k) {
        Some(find_run_end(s, i, k))
    } else {
        None
    }
}

fn char_in_class_at(s: &[char], i: usize, k: CharClass) -> (r: bool)
    requires
        i < s@.len(),
    ensures
        r == in_class(k, s@[i as int]),
{
    crate::text::char_in_class(k, s[i])
}

/// Executable `match_at`.
pub fn find_match_at(p: Pattern, s: &[char], i: usize) -> (r: Option<usize>)
    ensures
        opt_int(r) == match_at(p, s@, i as int),
{
    if i >= s.len() {
        proof {
            lemma_match_at_bounds(p, s@, i as int);
        }
        return None;
    }
    proof {
        lemma_run_end(s@, i as int, CharClass::Ws);
        lemma_run_end(s@, i as int, CharClass::Quote);
    }
    match p {
        Pattern::Words => find_class_run_at(s, i, CharClass::Word),
        Pattern::Comment => {
            if i + 1 < s.len() && s[i] != ':' && s[i + 1] == '#' {
                Some(find_line_end(s, i + 2))
            } else if (i == 0 || s[i - 1] == '\n') && char_is_ws(s[i]) {
                let r = find_run_end(s, i, CharClass::Ws);
                if r < s.len() && s[r] == '#' {
                    Some(find_line_end(s, r + 1))
                } else {
                    None
                }
            } else {
                None
            }
        },
        Pattern::BlockString => {
            let q = find_run_end(s, i, CharClass::Quote);
            if q - i >= 3 {
                match find_first_triple(s, q) {
                    Some(j) => {
                        proof {
                            lemma_first_triple(s@, q as int);
                        }
                        Some(find_run_end(s, j, CharClass::Quote))
                    },
                    None => if q - i >= 6 {
                        Some(q)
                    } else {
                        None
                    },
                }
            } else {
                None
            }
        },
        Pattern::CarriageReturnNewLine => {
            if i + 1 < s.len() && s[i] == '\r' && s[i + 1] == '\n' {
                Some(find_crlf_end(s, i))
            } else {
                None
            }
        },
        Pattern::CommentsBeforeType => {
            proof {
                lemma_last_hash(s@, s@.len() as int);
            }
            match find_last_hash(s) {
                Some(k) => if i <= k {
                    Some(find_line_end(s, k + 1))
                } else {
                    None
                },
                None => None,
            }
        },
        Pattern::CompleteType => find_class_run_at(s, i, CharClass::TypeChar),
        Pattern::Exclamations => find_class_run_at(s, i, CharClass::Bang),
        Pattern::ClosingBrackets => find_class_run_at(s, i, CharClass::CloseBracket),
        Pattern::BracketsAndExclamation => find_class_run_at(s, i, CharClass::BracketOrBang),
        Pattern::DescriptionQuotes => {
            let a = find_run_end(s, i, CharClass::Ws);
            if a < s.len() && s[a] == '"' {
                let b = find_run_end(s, a, CharClass::Quote);
                proof {
                    lemma_run_end(s@, a as int, CharClass::Quote);
                }
                let c = find_run_end(s, b, CharClass::Ws);
                if i == 0 {
                    Some(c)
                } else if c == s.len() {
                    Some(c)
                } else {
                    None
                }
            } else {
                None
            }
        },
        Pattern::DirectiveWithArguments => {
            if s[i] != '@' {
                return None;
            }
            let w = find_run_end(s, i + 1, CharClass::Word);
            proof {
                lemma_run_end(s@, i + 1, CharClass::Word);
            }
            let a = find_run_end(s, w, CharClass::Ws);
            proof {
                lemma_run_end(s@, w as int, CharClass::Ws);
            }
            let b = find_run_end(s, a, CharClass::OpenParen);
            proof {
                lemma_run_end(s@, a as int, CharClass::OpenParen);
            }
            let c = find_run_end(s, b, CharClass::DirectiveArg);
            proof {
                lemma_run_end(s@, b as int, CharClass::DirectiveArg);
            }
            if w > i + 1 && a < s.len() && s[a] == '(' && c > b && c < s.len() && s[c] == ')' {
                Some(find_run_end(s, c, CharClass::CloseParen))
            } else {
                None
            }
        },
        Pattern::DirectiveName => {
            if s[i] == '@' {
                let w = find_run_end(s, i + 1, CharClass::Word);
                if w > i + 1 {
                    Some(w)
                } else {
                    None
                }
            } else {
                None
            }
        },
        Pattern::Whitespace => find_class_run_at(s, i, CharClass::Ws),
        Pattern::OnWord => {
            proof {
                lemma_on_group(s@, i as int);
            }
            match find_on_group(s, i) {
                Some(e) => Some(find_on_groups_end(s, e)),
                None => None,
            }
        },
        Pattern::FirstWord => {
            if i + 1 < s.len() && !char_is_ws(s[i]) && char_is_word(s[i + 1]) {
                Some(find_run_end(s, i + 1, CharClass::Word))
            } else if i < s.len() && char_is_word(s[i]) {
                Some(i + 1)
            } else {
                None
            }
        },
        Pattern::QuotedDescription => {
            if i >= 1 && char_is_ws(s[i - 1]) && s[i] == '"' {
                let r = find_run_end(s, i + 1, CharClass::QuotedText);
                proof {
                    lemma_run_end(s@, i + 1, CharClass::QuotedText);
                }
                if r > i + 1 && r < s.len() - 1 && s[r] == '"' && char_is_ws(s[r + 1]) {
                    Some(r + 2)
                } else {
                    None
                }
            } else {
                None
            }
        },
        Pattern::Parentheses => find_class_run_at(s, i, CharClass::Paren),
        Pattern::FieldName => {
            if char_is_word(s[i]) {
                let r = find_run_end(s, i, CharClass::Word);
                proof {
                    lemma_run_end(s@, i as int, CharClass::Word);
                }
                if r < s.len() && (char_is_ws(s[r]) || s[r] == ':') {
                    Some(r)
                } else {
                    None
                }
            } else {
                None
            }
        },
        Pattern::ArgumentValue => {
            if i >= 2 && s[i - 2] == ':' && char_is_ws(s[i - 1]) {
                Some(s.len())
            } else {
                None
            }
        },
        Pattern::StringLiteral => {
            if s[i] == '"' {
                let r = find_run_end(s, i + 1, CharClass::StringChar);
                proof {
                    lemma_run_end(s@, i + 1, CharClass::StringChar);
                }
                if r < s.len() && s[r] == '"' {
                    Some(r + 1)
                } else {
                    None
                }
            } else {
                None
            }
        },
    }
}

/// Executable `first_match_from`.
pub fn find_first_match_from(p: Pattern, s: &[char], i: usize) -> (r: Option<(usize, usize)>)
    ensures
        r matches Some((a, e)) ==> first_match_from(p, s@, i as int) == Some(
            (a as int, e as int),
        ) && i <= a < e <= s@.len(),
        r is None ==> first_match_from(p, s@, i as int) is None,
{
    let mut k = i;
    while k < s.len()
        invariant
            i <= k,
            first_match_from(p, s@, k as int) == first_match_from(p, s@, i as int),
        decreases s.len() - k,
    {
        proof {
            lemma_match_at_bounds(p, s@, k as int);
        }
        match find_match_at(p, s, k) {
            Some(e) => {
                return Some((k, e));
            },
            None => {},
        }
        k = k + 1;
    }
    None
}

/// Executable `first_match`.
pub fn find_first_match(p: Pattern, s: &[char]) -> (r: Option<(usize, usize)>)
    ensures
        r matches Some((a, e)) ==> first_match(p, s@) == Some((a as int, e as int)) && a < e
            <= s@.len(),
        r is None ==> first_match(p, s@) is None,
{
    find_first_match_from(p, s, 0)
}

/// The characters of `s` from `a` to `e`.
pub fn slice_chars(s: &[char], a: usize, e: usize) -> (r: Vec<char>)
    requires
        a <= e <= s@.len(),
    ensures
        r@ == s@.subrange(a as int, e as int),
{
    let mut r: Vec<char> = Vec::new();
    let mut k = a;
    while k < e
        invariant
            a <= k <= e,
            e <= s@.len(),
            r@ == s@.subrange(a as int, k as int),
        decreases e - k,
    {
        r.push(s[k]);
        k = k + 1;
        assert(r@ =~= s@.subrange(a as int, k as int));
    }
    r
}

/// Executable `first_match_text`.
pub fn find_first_match_text(p: Pattern, s: &[char]) -> (r: Option<Vec<char>>)
    ensures
        r matches Some(t) ==> first_match_text(p, s@) == Some(t@),
        r is None ==> first_match_text(p, s@) is None,
{
    match find_first_match(p, s) {
        Some((a, e)) => Some(slice_chars(s, a, e)),
        None => None,
    }
}

/// Executable `all_matches`.
pub fn find_all_matches(p: Pattern, s: &[char]) -> (r: Vec<(usize, usize)>)
    ensures
        r@.len() == all_matches(p, s@).len(),
        forall|k: int|
            0 <= k < r@.len() ==> (#[trigger] r@[k]).0 as int == all_matches(p, s@)[k].0 && r@[k].1
                as int == all_matches(p, s@)[k].1,
        forall|k: int| 0 <= k < r@.len() ==> (#[trigger] r@[k]).0 < r@[k].1 <= s@.len(),
{
    let mut r: Vec<(usize, usize)> = Vec::new();
    let mut i: usize = 0;
    let ghost mut done: Seq<(int, int)> = Seq::empty();
    loop
        invariant
            i <= s@.len(),
            done + matches_from(p, s@, i as int) == all_matches(p, s@),
            r@.len() == done.len(),
            forall|k: int|
                0 <= k < r@.len() ==> (#[trigger] r@[k]).0 as int == done[k].0 && r@[k].1 as int
                    == done[k].1,
            forall|k: int| 0 <= k < r@.len() ==> (#[trigger] r@[k]).0 < r@[k].1 <= s@.len(),
        decreases s.len() - i,
    {
        match find_first_match_from(p, s, i) {
            Some((a, e)) => {
                proof {
                    done = done.push((a as int, e as int));
                }
                r.push((a, e));
                assert(done + matches_from(p, s@, e as int) =~= all_matches(p, s@));
                i = e;
            },
            None => {
                assert(done =~= all_matches(p, s@));
                return r;
            },
        }
    }
}

/// Executable `replace_all`.
pub fn replace_all_matches(p: Pattern, s: &[char], rep: &[char]) -> (r: Vec<char>)
    ensures
        r@ == replace_all(p, s@, rep@),
{
    let mut r: Vec<char> = Vec::new();
    let mut i: usize = 0;
    loop
        invariant
            i <= s@.len(),
            r@ + replace_all_from(p, s@, i as int, rep@) == replace_all(p, s@, rep@),
        decreases s.len() - i,
    {
        match find_first_match_from(p, s, i) {
            Some((a, e)) => {
                let ghost before = r@;
                let gap = slice_chars(s, i, a);
                let mut k: usize = 0;
                while k < gap.len()
                    invariant
                        k <= gap@.len(),
                        r@ == before + gap@.take(k as int),
                    decreases gap.len() - k,
                {
                    r.push(gap[k]);
                    k = k + 1;
                    assert(r@ =~= before + gap@.take(k as int));
                }
                let mut m: usize = 0;
                while m < rep.len()
                    invariant
                        m <= rep@.len(),
                        r@ == before + gap@ + rep@.take(m as int),
                    decreases rep.len() - m,
                {
                    r.push(rep[m]);
                    m = m + 1;
                    assert(r@ =~= before + gap@ + rep@.take(m as int));
                }
                assert(gap@.take(gap@.len() as int) =~= gap@);
                assert(rep@.take(rep@.len() as int) =~= rep@);
                assert(r@ + replace_all_from(p, s@, e as int, rep@) =~= before
                    + replace_all_from(p, s@, i as int, rep@));
                i = e;
            },
            None => {
                let ghost before = r@;
                let rest = slice_chars(s, i, s.len());
                let mut k: usize = 0;
                while k < rest.len()
                    invariant
                        k <= rest@.len(),
                        r@ == before + rest@.take(k as int),
                    decreases rest.len() - k,
                {
                    r.push(rest[k]);
                    k = k + 1;
                    assert(r@ =~= before + rest@.take(k as int));
                }
                assert(rest@.take(rest@.len() as int) =~= rest@);
                return r;
            },
        }
    }
}

/// Executable `remove_all`.
pub fn remove_all_matches(p: Pattern, s: &[char]) -> (r: Vec<char>)
    ensures
        r@ == remove_all(p, s@),
{
    let empty: Vec<char> = Vec::new();
    assert(empty@ =~= Seq::<char>::empty());
    replace_all_matches(p, s, empty.as_slice())
}


/// Each listed match is a match of the pattern where it starts.
pub proof fn lemma_all_matches_are_matches(p: Pattern, s: Seq<char>, k: int)
    requires
        0 <= k < all_matches(p, s).len(),
    ensures
        match_at(p, s, all_matches(p, s)[k].0) == Some(all_matches(p, s)[k].1),
{
    lemma_matches_from_are_matches(p, s, 0, k);
}

proof fn lemma_first_match_from_is_match(p: Pattern, s: Seq<char>, i: int)
    ensures
        first_match_from(p, s, i) matches Some((a, e)) ==> match_at(p, s, a) == Some(e) && i <= a,
    decreases s.len() - i,
{
    if 0 <= i < s.len() && match_at(p, s, i) is None {
        lemma_first_match_from_is_match(p, s, i + 1);
    }
}

proof fn lemma_matches_from_are_matches(p: Pattern, s: Seq<char>, i: int, k: int)
    requires
        0 <= k < matches_from(p, s, i).len(),
    ensures
        match_at(p, s, matches_from(p, s, i)[k].0) == Some(matches_from(p, s, i)[k].1),
    decreases s.len() - i,
{
    lemma_first_match_from_is_match(p, s, i);
    if let Some((a, e)) = first_match_from(p, s, i) {
        if i <= a < e <= s.len() && k > 0 {
            lemma_matches_from_are_matches(p, s, e, k - 1);
        }
    }
}

} // verus!
