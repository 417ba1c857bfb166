//! What comes back from an external command, and how it is read.

use vstd::prelude::*;
use vstd::utf8::{decode_utf8, valid_utf8};

use crate::text::{
    opt_text, texts, trim_text, trimmed, trimming_takes_exactly_the_white_space, white, white_around,
};

verus! {

/// How a command that could be run ended.
#[derive(Clone, Debug)]
pub struct CommandOutput {
    /// Whether it exited with status 0.
    pub success: bool,
    /// Everything it wrote to its standard output.
    pub stdout: Vec<u8>,
}

/// What a successful command wrote; nothing when it failed or could not be run.
pub open spec fn output_bytes(out: Option<CommandOutput>) -> Option<Seq<u8>> {
    match out {
        Some(o) => if o.success {
            Some(o.stdout@)
        } else {
            None
        },
        None => None,
    }
}

/// The bytes of an optional buffer.
pub open spec fn opt_bytes(b: Option<Vec<u8>>) -> Option<Seq<u8>> {
    match b {
        Some(b) => Some(b@),
        None => None,
    }
}

/// What a successful command wrote; nothing when it failed or could not be run.
pub fn stdout_of(out: Option<CommandOutput>) -> (r: Option<Vec<u8>>)
    ensures
        opt_bytes(r) == output_bytes(out),
{
    match out {
        Some(o) => if o.success {
            Some(o.stdout)
        } else {
            None
        },
        None => None,
    }
}

/// The single word that a command answered with: its output as strict UTF-8, without
/// the white space at either end, unless nothing is left.
pub open spec fn answer(bytes: Seq<u8>) -> Option<Seq<char>> {
    if valid_utf8(bytes) && trimmed(decode_utf8(bytes)).len() > 0 {
        Some(trimmed(decode_utf8(bytes)))
    } else {
        None
    }
}

/// The single word that a command answered with, if its output holds one.
pub fn answer_of(bytes: Vec<u8>) -> (r: Option<String>)
    ensures
        opt_text(r) == answer(bytes@),
{
    let ghost b = bytes@;
    match strict_text(bytes) {
        None => None,
        Some(text) => {
            let word = trim_text(text.as_str());
            if word.as_str().is_empty() {
                None
            } else {
                Some(word)
            }
        },
    }
}

/// `String::from_utf8`: the decoding of the bytes when they are valid UTF-8, and an
/// error otherwise.
#[verifier::external_body]
fn strict_text(bytes: Vec<u8>) -> (r: Option<String>)
    ensures
        opt_text(r) == (if valid_utf8(bytes@) {
            Some(decode_utf8(bytes@))
        } else {
            None
        }),
{
    String::from_utf8(bytes).ok()
}

/// The arguments of `git`, run in `dir`: `-C dir` and then `rest`.
pub open spec fn git_in(dir: Seq<char>, rest: Seq<Seq<char>>) -> Seq<Seq<char>> {
    seq!["-C"@, dir] + rest
}

/// Append a copy of each word.
pub fn push_words(args: &mut Vec<String>, words: &[&str])
    ensures
        texts(final(args)@) == texts(old(args)@) + words@.map_values(|w: &str| w@),
{
    let ghost start = texts(args@);
    let ghost all = words@.map_values(|w: &str| w@);
    let mut i: usize = 0;
    assert(start + all.take(0) =~= start);
    while i < words.len()
        invariant
            i <= words@.len(),
            all == words@.map_values(|w: &str| w@),
            texts(args@) == start + all.take(i as int),
        decreases words@.len() - i,
    {
        let ghost before = args@;
        args.push(words[i].to_owned());
        proof {
            assert(texts(args@) =~= texts(before).push(all[i as int]));
            assert(start + all.take(i + 1) =~= (start + all.take(i as int)).push(all[i as int]));
        }
        i += 1;
    }
    assert(all.take(i as int) =~= all);
}

/// A command answers with what it wrote as UTF-8, between the white space at either end; it
/// gives no answer exactly when that is not valid, or when it is all white space.
pub proof fn an_answer_is_what_stands_between_the_white_space(bytes: Seq<u8>)
    ensures
        answer(bytes) matches Some(word) ==> valid_utf8(bytes) && exists|from: int, to: int| #[trigger]
            white_around(decode_utf8(bytes), from, to) && from < to && word == decode_utf8(bytes).subrange(from, to),
        answer(bytes) is None <==> !valid_utf8(bytes) || forall|i: int|
            0 <= i < decode_utf8(bytes).len() ==> white(#[trigger] decode_utf8(bytes)[i]),
{
    let s = decode_utf8(bytes);
    trimming_takes_exactly_the_white_space(s);
    let (from, to) = choose|from: int, to: int| #[trigger]
        white_around(s, from, to) && trimmed(s) == s.subrange(from, to);
    if from < to {
        assert(!white(s[from]));
    }
}

} // verus!
