//! Command-line values: the parsers of `--hasher`, `--cap-from` and
//! `--cap-round`, and the lines the revert commands print.
//!
//! Values are matched case-insensitively (ASCII) after trimming
//! whitespace.
use vstd::prelude::*;
use crate::model::{CapFrom, CapRound};
use crate::text::{chars_eq, chars_of, dec, push_dec, push_str, string_of, trim, trim_vec};

verus! {

/// The hasher to put into hash-map and hash-set constructors.
#[derive(Debug, Clone, Copy, PartialEq, Eq)]
pub enum HasherChoice {
    /// Keep the constructor's hasher (`none` on the command line).
    Unchanged,
    /// `FxBuildHasher`.
    Fx,
    /// `ahash::RandomState`.
    AHash,
    /// `foldhash::fast::RandomState`.
    FoldHash,
}

/// `char::to_ascii_lowercase`.
pub open spec fn lower_char(c: char) -> char {
    if 'A' <= c && c <= 'Z' {
        ((c as u32) + 32) as char
    } else {
        c
    }
}

/// `str::to_ascii_lowercase`.
pub open spec fn ascii_lower(s: Seq<char>) -> Seq<char> {
    Seq::new(s.len(), |i: int| lower_char(s[i]))
}

/// A command-line value as it is matched: trimmed, ASCII lowercase.
pub open spec fn normalized(s: Seq<char>) -> Seq<char> {
    ascii_lower(trim(s))
}

fn lower_char_exec(c: char) -> (r: char)
    ensures
        r == lower_char(c),
{
    if 'A' <= c && c <= 'Z' {
        let b: u8 = (c as u8) + 32;
        b as char
    } else {
        c
    }
}

/// The normalized characters of a command-line value.
fn normalize(s: &str) -> (r: Vec<char>)
    ensures
        r@ == normalized(s@),
{
    let v = chars_of(s);
    let t = trim_vec(&v);
    let mut out: Vec<char> = Vec::new();
    let mut i: usize = 0;
    while i < t.len()
        invariant
            i <= t@.len(),
            t@ == trim(s@),
            out@ == ascii_lower(t@).take(i as int),
        decreases t.len() - i,
    {
        out.push(lower_char_exec(t[i]));
        i = i + 1;
        assert(out@ =~= ascii_lower(t@).take(i as int));
    }
    assert(ascii_lower(t@).take(i as int) =~= ascii_lower(t@));
    out
}

/// The normalized characters of a text: trimmed, ASCII lowercase.
pub fn normalize_text(s: &str) -> (r: Vec<char>)
    ensures
        r@ == normalized(s@),
{
    normalize(s)
}

/// Whether normalized value `v` is the word `w`.
fn is_word(v: &Vec<char>, w: &str) -> (r: bool)
    ensures
        r == (v@ == w@),
{
    chars_eq(v, &chars_of(w))
}

/// What `--hasher` accepts: `none` (also empty), `fx`, `ahash`,
/// `foldhash`; anything else is refused with the normalized value.
pub open spec fn hasher_spec(n: Seq<char>) -> Result<HasherChoice, Seq<char>> {
    if n == "none"@ || n == ""@ {
        Ok(HasherChoice::Unchanged)
    } else if n == "fx"@ {
        Ok(HasherChoice::Fx)
    } else if n == "ahash"@ {
        Ok(HasherChoice::AHash)
    } else if n == "foldhash"@ {
        Ok(HasherChoice::FoldHash)
    } else {
        Err(n)
    }
}

/// The view of a parse result whose error is the rejected value.
pub open spec fn result_view<T>(r: Result<T, String>) -> Result<T, Seq<char>> {
    match r {
        Ok(v) => Ok(v),
        Err(e) => Err(e@),
    }
}

/// Parse a `--hasher` value.
pub fn parse_hasher(s: &str) -> (r: Result<HasherChoice, String>)
    ensures
        result_view(r) == hasher_spec(normalized(s@)),
{
    let n = normalize(s);
    if is_word(&n, "none") || is_word(&n, "") {
        Ok(HasherChoice::Unchanged)
    } else if is_word(&n, "fx") {
        Ok(HasherChoice::Fx)
    } else if is_word(&n, "ahash") {
        Ok(HasherChoice::AHash)
    } else if is_word(&n, "foldhash") {
        Ok(HasherChoice::FoldHash)
    } else {
        Err(string_of(&n))
    }
}

/// What `--cap-from` accepts: `max`, `mean`, `median`, `p95`, `p99`.
pub open spec fn cap_from_spec(n: Seq<char>) -> Result<CapFrom, Seq<char>> {
    if n == "max"@ {
        Ok(CapFrom::Max)
    } else if n == "mean"@ {
        Ok(CapFrom::Mean)
    } else if n == "median"@ {
        Ok(CapFrom::Median)
    } else if n == "p95"@ {
        Ok(CapFrom::P95)
    } else if n == "p99"@ {
        Ok(CapFrom::P99)
    } else {
        Err(n)
    }
}

/// Parse a `--cap-from` value.
pub fn parse_cap_from(s: &str) -> (r: Result<CapFrom, String>)
    ensures
        result_view(r) == cap_from_spec(normalized(s@)),
{
    let n = normalize(s);
    if is_word(&n, "max") {
        Ok(CapFrom::Max)
    } else if is_word(&n, "mean") {
        Ok(CapFrom::Mean)
    } else if is_word(&n, "median") {
        Ok(CapFrom::Median)
    } else if is_word(&n, "p95") {
        Ok(CapFrom::P95)
    } else if is_word(&n, "p99") {
        Ok(CapFrom::P99)
    } else {
        Err(string_of(&n))
    }
}

/// What `--cap-round` accepts: `pow2`, `to8`, `exact`.
pub open spec fn cap_round_spec(n: Seq<char>) -> Result<CapRound, Seq<char>> {
    if n == "pow2"@ {
        Ok(CapRound::Pow2)
    } else if n == "to8"@ {
        Ok(CapRound::To8)
    } else if n == "exact"@ {
        Ok(CapRound::Exact)
    } else {
        Err(n)
    }
}

/// Parse a `--cap-round` value.
pub fn parse_cap_round(s: &str) -> (r: Result<CapRound, String>)
    ensures
        result_view(r) == cap_round_spec(normalized(s@)),
{
    let n = normalize(s);
    if is_word(&n, "pow2") {
        Ok(CapRound::Pow2)
    } else if is_word(&n, "to8") {
        Ok(CapRound::To8)
    } else if is_word(&n, "exact") {
        Ok(CapRound::Exact)
    } else {
        Err(string_of(&n))
    }
}

/// `reverted N file(s) from PATH`.
pub open spec fn reverted_text(n: nat, path: Seq<char>) -> Seq<char> {
    "reverted "@ + dec(n) + " file"@ + (if n == 1 {
        ""@
    } else {
        "s"@
    }) + " from "@ + path
}

/// The line `undo` prints after restoring `n` files from manifest `path`.
pub fn reverted_line(n: usize, path: &str) -> (r: String)
    ensures
        r@ == reverted_text(n as nat, path@),
{
    let mut out: Vec<char> = Vec::new();
    push_str(&mut out, "reverted ");
    push_dec(&mut out, n as u64);
    push_str(&mut out, " file");
    if n != 1 {
        push_str(&mut out, "s");
    } else {
        push_str(&mut out, "");
    }
    push_str(&mut out, " from ");
    push_str(&mut out, path);
    string_of(&out)
}

} // verus!
