//! The messages that the reader reports, each led by the package's name.
use vstd::prelude::*;
use crate::text::{chars_of, string_of, replaced, replace_text};

verus! {

/// The package's name as a program.
pub const PACKAGE_NAME: &'static str = "wasm-graphql-parser";

/// The package's name as messages show it.
pub const PRETTY_PACKAGE_NAME: &'static str = "WASM GraphQL Parser";

/// Writes the reader's messages; the program around the library prints them.
pub struct Logger;

/// The text of a message: the package's name, `": "`, and `info` with each `{}}` in it
/// replaced by `to_add` when there is one.
pub open spec fn logger_message(info: Seq<char>, to_add: Option<Seq<char>>) -> Seq<char> {
    PRETTY_PACKAGE_NAME@ + ": "@ + match to_add {
        Some(a) => replaced(info, "{}}"@, a),
        None => info,
    }
}

fn append_chars(v: &mut Vec<char>, t: &[char])
    ensures
        final(v)@ == old(v)@ + t@,
{
    let ghost start = v@;
    let mut k: usize = 0;
    while k < t.len()
        invariant
            k <= t@.len(),
            v@ == start + t@.take(k as int),
        decreases t.len() - k,
    {
        v.push(t[k]);
        k = k + 1;
        assert(v@ =~= start + t@.take(k as int));
    }
    assert(t@.take(t@.len() as int) =~= t@);
}

impl Logger {
    /// The text of a message about `info`, with `to_add` put where `info` holds `{}}`.
    pub fn message(info: &str, to_add: Option<&str>) -> (r: String)
        ensures
            r@ == logger_message(info@, match to_add { Some(a) => Some(a@), None => None }),
    {
        let mut v = chars_of(PRETTY_PACKAGE_NAME);
        let sep = chars_of(": ");
        append_chars(&mut v, sep.as_slice());
        let body = chars_of(info);
        match to_add {
            Some(a) => {
                let pat = chars_of("{}}");
                let add = chars_of(a);
                let t = replace_text(body.as_slice(), pat.as_slice(), add.as_slice());
                append_chars(&mut v, t.as_slice());
            },
            None => {
                append_chars(&mut v, body.as_slice());
            },
        }
        string_of(v.as_slice())
    }
}

} // verus!
