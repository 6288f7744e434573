//! The pieces of compact JSON text that the ledger's packets are made of.

use vstd::prelude::*;
use crate::schema::strs;
use crate::util::{append_chars, append_str, dec, decimal, digit_char};

verus! {

/// The escape of one character inside a JSON string: quote, backslash and
/// the control characters below U+0020 are escaped, all else is kept.
pub open spec fn escape_char(c: char) -> Seq<char> {
    let u = c as u32;
    if c == '"' {
        seq!['\\', '"']
    } else if c == '\\' {
        seq!['\\', '\\']
    } else if u == 0x08 {
        seq!['\\', 'b']
    } else if u == 0x0C {
        seq!['\\', 'f']
    } else if c == '\n' {
        seq!['\\', 'n']
    } else if c == '\r' {
        seq!['\\', 'r']
    } else if c == '\t' {
        seq!['\\', 't']
    } else if u < 0x20 {
        seq!['\\', 'u', '0', '0', digit_char((u / 16) as nat), digit_char((u % 16) as nat)]
    } else {
        seq![c]
    }
}

/// The characters of `s`, each escaped.
pub open spec fn escaped(s: Seq<char>) -> Seq<char>
    decreases s.len(),
{
    if s.len() == 0 {
        Seq::empty()
    } else {
        escaped(s.drop_last()) + escape_char(s.last())
    }
}

/// `s` as a JSON string.
pub open spec fn json_string(s: Seq<char>) -> Seq<char> {
    seq!['"'] + escaped(s) + seq!['"']
}

/// A boolean in JSON.
pub open spec fn json_bool(b: bool) -> Seq<char> {
    if b {
        "true"@
    } else {
        "false"@
    }
}

/// The JSON strings of `v`, separated by commas.
pub open spec fn joined_strings(v: Seq<Seq<char>>) -> Seq<char>
    decreases v.len(),
{
    if v.len() == 0 {
        Seq::empty()
    } else if v.len() == 1 {
        json_string(v[0])
    } else {
        joined_strings(v.drop_last()) + ","@ + json_string(v.last())
    }
}

/// A list of strings in JSON.
pub open spec fn json_strings(v: Seq<Seq<char>>) -> Seq<char> {
    "["@ + joined_strings(v) + "]"@
}

/// `s` as a JSON string (`serde_json::to_string` on a `str`).
///
/// Trusted: serde_json writes a string as a quote, its characters with `"`,
/// `\` and the control characters below U+0020 escaped (`\b`, `\f`, `\n`,
/// `\r`, `\t`, else `\u00` and two lower-case hex digits), and a quote; it
/// never fails on a `str`.
#[verifier::external_body]
fn quoted(s: &str) -> (r: String)
    ensures
        r@ == json_string(s@),
{
    match serde_json::to_string(s) {
        Ok(t) => t,
        Err(_) => String::new(),
    }
}

/// Appends `s` as a JSON string.
pub fn push_string(out: &mut Vec<char>, s: &str)
    ensures
        final(out)@ == old(out)@ + json_string(s@),
{
    let q = quoted(s);
    append_str(out, q.as_str());
}

/// Appends an unsigned integer in JSON.
pub fn push_uint(out: &mut Vec<char>, n: u64)
    ensures
        final(out)@ == old(out)@ + dec(n as nat),
{
    let d = decimal(n);
    append_chars(out, &d);
}

/// Appends a boolean in JSON.
pub fn push_bool(out: &mut Vec<char>, b: bool)
    ensures
        final(out)@ == old(out)@ + json_bool(b),
{
    if b {
        append_str(out, "true");
    } else {
        append_str(out, "false");
    }
}

/// Appends a list of strings in JSON.
pub fn push_strings(out: &mut Vec<char>, v: &Vec<String>)
    ensures
        final(out)@ == old(out)@ + json_strings(strs(v@)),
{
    let ghost texts = strs(v@);
    let ghost start = out@;
    append_str(out, "[");
    let mut i: usize = 0;
    while i < v.len()
        invariant
            i <= v.len(),
            texts == strs(v@),
            out@ == start + "["@ + joined_strings(texts.subrange(0, i as int)),
        decreases v.len() - i,
    {
        let ghost before = out@;
        if i > 0 {
            append_str(out, ",");
        }
        push_string(out, v[i].as_str());
        proof {
            let pre = texts.subrange(0, i as int);
            let post = texts.subrange(0, i + 1);
            assert(post.drop_last() == pre);
            assert(post.last() == v@[i as int]@);
            if i == 0 {
                assert(pre =~= Seq::<Seq<char>>::empty());
                assert(joined_strings(pre) =~= Seq::<char>::empty());
                assert(before == start + "["@);
            }
        }
        i = i + 1;
    }
    assert(texts.subrange(0, v@.len() as int) == texts);
    append_str(out, "]");
}

} // verus!
