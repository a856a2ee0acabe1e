//! The version expression language: a boolean grammar over Debian
//! versions with comparison operators, `&&`/`||`, parentheses and a
//! `sha256sum(<hex>)` content predicate.  An infix expression is tokenized,
//! shunted to postfix, and evaluated against a version under test.

use vstd::prelude::*;

verus! {

use core::cmp::Ordering;
use vstd::string::StringSliceAdditionalSpecFns;
use crate::errors::AprilError;
use crate::version::spec_is_digit;
use crate::version::spec_is_alpha;
use crate::version::spec_digit_run;
use vstd::slice::slice_subrange;
use vstd::slice::slice_to_vec;

/// One token of a version expression.
#[derive(Debug, Clone, PartialEq)]
pub enum VersionToken {
    Eq,
    EqEq,
    NotEq,
    GtEq,
    LtEq,
    Gt,
    Lt,
    Or,
    And,
    LParen,
    RParen,
    /// A `sha256sum(<hex>)` predicate, carrying the hex argument.
    Sha256Sum(Vec<u8>),
    /// A bare run of hex digits; never a valid operand on its own.
    Hexadecimal(Vec<u8>),
    /// A version literal.
    VersionNumber(Vec<u8>),
    /// Stands for the version under test in postfix output.
    Placeholder,
}

/// The mathematical shape of a token: payloads as byte sequences.
pub enum SpecVersionToken {
    Eq,
    EqEq,
    NotEq,
    GtEq,
    LtEq,
    Gt,
    Lt,
    Or,
    And,
    LParen,
    RParen,
    Sha256Sum(Seq<u8>),
    Hexadecimal(Seq<u8>),
    VersionNumber(Seq<u8>),
    Placeholder,
}

impl View for VersionToken {
    type V = SpecVersionToken;

    open spec fn view(&self) -> SpecVersionToken {
        match self {
            VersionToken::Eq => SpecVersionToken::Eq,
            VersionToken::EqEq => SpecVersionToken::EqEq,
            VersionToken::NotEq => SpecVersionToken::NotEq,
            VersionToken::GtEq => SpecVersionToken::GtEq,
            VersionToken::LtEq => SpecVersionToken::LtEq,
            VersionToken::Gt => SpecVersionToken::Gt,
            VersionToken::Lt => SpecVersionToken::Lt,
            VersionToken::Or => SpecVersionToken::Or,
            VersionToken::And => SpecVersionToken::And,
            VersionToken::LParen => SpecVersionToken::LParen,
            VersionToken::RParen => SpecVersionToken::RParen,
            VersionToken::Sha256Sum(h) => SpecVersionToken::Sha256Sum(h@),
            VersionToken::Hexadecimal(h) => SpecVersionToken::Hexadecimal(h@),
            VersionToken::VersionNumber(v) => SpecVersionToken::VersionNumber(v@),
            VersionToken::Placeholder => SpecVersionToken::Placeholder,
        }
    }
}

/// Comparison operators and boolean connectives are operators.
pub open spec fn spec_is_op(t: SpecVersionToken) -> bool {
    match t {
        SpecVersionToken::Eq
        | SpecVersionToken::EqEq
        | SpecVersionToken::NotEq
        | SpecVersionToken::GtEq
        | SpecVersionToken::LtEq
        | SpecVersionToken::Gt
        | SpecVersionToken::Lt
        | SpecVersionToken::Or
        | SpecVersionToken::And => true,
        _ => false,
    }
}

/// The unary comparison operators.
pub open spec fn spec_is_cmp_op(t: SpecVersionToken) -> bool {
    match t {
        SpecVersionToken::Eq
        | SpecVersionToken::EqEq
        | SpecVersionToken::NotEq
        | SpecVersionToken::GtEq
        | SpecVersionToken::LtEq
        | SpecVersionToken::Gt
        | SpecVersionToken::Lt => true,
        _ => false,
    }
}

/// Comparisons and the hash predicate bind tighter than `&&`/`||`; all
/// other tokens rank 0.
pub open spec fn spec_precedence(t: SpecVersionToken) -> int {
    match t {
        SpecVersionToken::Eq
        | SpecVersionToken::EqEq
        | SpecVersionToken::GtEq
        | SpecVersionToken::LtEq
        | SpecVersionToken::Gt
        | SpecVersionToken::Lt
        | SpecVersionToken::Sha256Sum(_)
        | SpecVersionToken::NotEq => 10,
        SpecVersionToken::Or | SpecVersionToken::And => 1,
        _ => 0,
    }
}

impl VersionToken {
    /// Whether the token is an operator (comparison or connective).
    pub fn is_op(&self) -> (r: bool)
        ensures
            r == spec_is_op(self@),
    {
        match self {
            VersionToken::Eq
            | VersionToken::EqEq
            | VersionToken::NotEq
            | VersionToken::GtEq
            | VersionToken::LtEq
            | VersionToken::Gt
            | VersionToken::Lt
            | VersionToken::Or
            | VersionToken::And => true,
            _ => false,
        }
    }

    /// Whether the token is a unary comparison operator.
    pub fn is_cmp_op(&self) -> (r: bool)
        ensures
            r == spec_is_cmp_op(self@),
    {
        match self {
            VersionToken::Eq
            | VersionToken::EqEq
            | VersionToken::NotEq
            | VersionToken::GtEq
            | VersionToken::LtEq
            | VersionToken::Gt
            | VersionToken::Lt => true,
            _ => false,
        }
    }

    /// The binding strength of the token; 0 for anything that is not an
    /// operator or hash predicate.
    pub fn precedence(&self) -> (r: u8)
        ensures
            r as int == spec_precedence(self@),
    {
        match self {
            VersionToken::Eq
            | VersionToken::EqEq
            | VersionToken::GtEq
            | VersionToken::LtEq
            | VersionToken::Gt
            | VersionToken::Lt
            | VersionToken::Sha256Sum(_)
            | VersionToken::NotEq => 10,
            VersionToken::Or | VersionToken::And => 1,
            _ => 0,
        }
    }
}

// ---------------------------------------------------------------------
// Lexing
// ---------------------------------------------------------------------
/// The whitespace the tokenizer skips: space, tab, newline, form feed.
pub open spec fn spec_is_ws(c: u8) -> bool {
    c == 0x20 || c == 0x09 || c == 0x0a || c == 0x0c
}

pub open spec fn spec_is_hex_digit(c: u8) -> bool {
    spec_is_digit(c) || (0x61 <= c && c <= 0x66) || (0x41 <= c && c <= 0x46)
}

/// A byte allowed inside the body of a version literal.
pub open spec fn spec_is_ver_body(c: u8) -> bool {
    spec_is_digit(c) || spec_is_alpha(c) || c == 0x2e || c == 0x2b || c == 0x2d || c == 0x7e
}

pub open spec fn spec_ws_run(s: Seq<u8>) -> nat
    decreases s.len(),
{
    if s.len() > 0 && spec_is_ws(s[0]) {
        1 + spec_ws_run(s.skip(1))
    } else {
        0
    }
}

pub open spec fn spec_hex_run(s: Seq<u8>) -> nat
    decreases s.len(),
{
    if s.len() > 0 && spec_is_hex_digit(s[0]) {
        1 + spec_hex_run(s.skip(1))
    } else {
        0
    }
}

pub open spec fn spec_ver_body_run(s: Seq<u8>) -> nat
    decreases s.len(),
{
    if s.len() > 0 && spec_is_ver_body(s[0]) {
        1 + spec_ver_body_run(s.skip(1))
    } else {
        0
    }
}

/// The length of the version literal starting the string, or 0 if none
/// starts here.  A literal is an optional all-digit epoch followed by `:`,
/// then a digit, then any run of version body bytes.
pub open spec fn spec_ver_len(s: Seq<u8>) -> nat {
    let d = spec_digit_run(s);
    if d >= 1 && d + 1 < s.len() && s[d as int] == 0x3a && spec_is_digit(s[d as int + 1]) {
        d + 2 + spec_ver_body_run(s.skip(d as int + 2))
    } else if s.len() > 0 && spec_is_digit(s[0]) {
        1 + spec_ver_body_run(s.skip(1))
    } else {
        0
    }
}

/// The string begins with the keyword `sha256sum`.
pub open spec fn spec_starts_sha(s: Seq<u8>) -> bool {
    s.len() >= 9 && s[0] == 0x73 && s[1] == 0x68 && s[2] == 0x61 && s[3] == 0x32 && s[4] == 0x35
        && s[5] == 0x36 && s[6] == 0x73 && s[7] == 0x75 && s[8] == 0x6d
}

proof fn lemma_ws_run_le(s: Seq<u8>)
    ensures
        spec_ws_run(s) <= s.len(),
    decreases s.len(),
{
    if s.len() > 0 && spec_is_ws(s[0]) {
        lemma_ws_run_le(s.skip(1));
    }
}

proof fn lemma_hex_run_le(s: Seq<u8>)
    ensures
        spec_hex_run(s) <= s.len(),
    decreases s.len(),
{
    if s.len() > 0 && spec_is_hex_digit(s[0]) {
        lemma_hex_run_le(s.skip(1));
    }
}

proof fn lemma_ver_body_run_le(s: Seq<u8>)
    ensures
        spec_ver_body_run(s) <= s.len(),
    decreases s.len(),
{
    if s.len() > 0 && spec_is_ver_body(s[0]) {
        lemma_ver_body_run_le(s.skip(1));
    }
}

proof fn lemma_digit_run_le(s: Seq<u8>)
    ensures
        spec_digit_run(s) <= s.len(),
    decreases s.len(),
{
    if s.len() > 0 && spec_is_digit(s[0]) {
        lemma_digit_run_le(s.skip(1));
    }
}

/// The token starting at the head of the string (which must not start with
/// whitespace) and the number of bytes it spans, or nothing when no token
/// matches.  The longest match wins; on a tie between a hex run and a
/// version literal the hex run wins.
pub open spec fn spec_next_token(s: Seq<u8>) -> Option<(SpecVersionToken, int)>
    decreases s.len(),
        via spec_next_token_decreases
{
    if s.len() == 0 {
        None
    } else {
        let c = s[0];
        if c == 0x3d {  // '='
            if s.len() >= 2 && s[1] == 0x3d {
                Some((SpecVersionToken::EqEq, 2))
            } else {
                Some((SpecVersionToken::Eq, 1))
            }
        } else if c == 0x21 {  // '!'
            if s.len() >= 2 && s[1] == 0x3d {
                Some((SpecVersionToken::NotEq, 2))
            } else {
                None
            }
        } else if c == 0x3e {  // '>'
            if s.len() >= 2 && s[1] == 0x3d {
                Some((SpecVersionToken::GtEq, 2))
            } else {
                Some((SpecVersionToken::Gt, 1))
            }
        } else if c == 0x3c {  // '<'
            if s.len() >= 2 && s[1] == 0x3d {
                Some((SpecVersionToken::LtEq, 2))
            } else {
                Some((SpecVersionToken::Lt, 1))
            }
        } else if c == 0x7c {  // '|'
            if s.len() >= 2 && s[1] == 0x7c {
                Some((SpecVersionToken::Or, 2))
            } else {
                None
            }
        } else if c == 0x26 {  // '&'
            if s.len() >= 2 && s[1] == 0x26 {
                Some((SpecVersionToken::And, 2))
            } else {
                None
            }
        } else if c == 0x28 {  // '('
            Some((SpecVersionToken::LParen, 1))
        } else if c == 0x29 {  // ')'
            Some((SpecVersionToken::RParen, 1))
        } else if spec_starts_sha(s) {
            // The keyword must be followed, tokens in between lexed as
            // usual, by `(`, a hex run, and `)`.
            let t = s.skip(9);
            let w1 = spec_ws_run(t);
            if t.len() > w1 && t[w1 as int] == 0x28 {
                let u = t.skip(w1 as int + 1);
                let w2 = spec_ws_run(u);
                let u2 = u.skip(w2 as int);
                match spec_next_token(u2) {
                    Some((SpecVersionToken::Hexadecimal(h), hl)) => {
                        let v = u2.skip(hl);
                        let w3 = spec_ws_run(v);
                        if v.len() > w3 && v[w3 as int] == 0x29 {
                            Some(
                                (
                                    SpecVersionToken::Sha256Sum(h),
                                    9 + w1 + 1 + w2 + hl + w3 + 1,
                                ),
                            )
                        } else {
                            None
                        }
                    },
                    _ => None,
                }
            } else {
                None
            }
        } else if spec_is_hex_digit(c) {
            let h = spec_hex_run(s);
            let v = spec_ver_len(s);
            if v > h {
                Some((SpecVersionToken::VersionNumber(s.take(v as int)), v as int))
            } else {
                Some((SpecVersionToken::Hexadecimal(s.take(h as int)), h as int))
            }
        } else {
            None
        }
    }
}

#[via_fn]
proof fn spec_next_token_decreases(s: Seq<u8>) {
    if s.len() > 0 && spec_starts_sha(s) {
        let t = s.skip(9);
        let w1 = spec_ws_run(t);
        lemma_ws_run_le(t);
        if t.len() > w1 && t[w1 as int] == 0x28 {
            let u = t.skip(w1 as int + 1);
            let w2 = spec_ws_run(u);
            lemma_ws_run_le(u);
        }
    }
}

/// A token span never runs past the string, and always spans at least one
/// byte.
proof fn lemma_next_token_len(s: Seq<u8>)
    ensures
        match spec_next_token(s) {
            Some((t, l)) => 1 <= l <= s.len(),
            None => true,
        },
    decreases s.len(),
{
    if s.len() > 0 {
        let c = s[0];
        if spec_starts_sha(s) && !(c == 0x3d || c == 0x21 || c == 0x3e || c == 0x3c || c == 0x7c
            || c == 0x26 || c == 0x28 || c == 0x29) {
            let t = s.skip(9);
            let w1 = spec_ws_run(t);
            lemma_ws_run_le(t);
            if t.len() > w1 && t[w1 as int] == 0x28 {
                let u = t.skip(w1 as int + 1);
                let w2 = spec_ws_run(u);
                lemma_ws_run_le(u);
                let u2 = u.skip(w2 as int);
                lemma_next_token_len(u2);
                match spec_next_token(u2) {
                    Some((SpecVersionToken::Hexadecimal(h), hl)) => {
                        let v = u2.skip(hl);
                        let w3 = spec_ws_run(v);
                        lemma_ws_run_le(v);
                    },
                    _ => {},
                }
            }
        } else if spec_is_hex_digit(c) && !(c == 0x3d || c == 0x21 || c == 0x3e || c == 0x3c || c
            == 0x7c || c == 0x26 || c == 0x28 || c == 0x29 || spec_starts_sha(s)) {
            lemma_hex_run_le(s);
            let d = spec_digit_run(s);
            lemma_digit_run_le(s);
            if d >= 1 && d + 1 < s.len() && s[d as int] == 0x3a && spec_is_digit(s[d as int + 1]) {
                lemma_ver_body_run_le(s.skip(d as int + 2));
            } else if spec_is_digit(s[0]) {
                lemma_ver_body_run_le(s.skip(1));
            }
        }
    }
}

/// The token sequence of a whole expression: whitespace separated, each
/// token the longest match at its position; `None` on any byte no token
/// can start with.
pub open spec fn spec_lex(s: Seq<u8>) -> Option<Seq<SpecVersionToken>>
    decreases s.len(),
{
    if s.len() == 0 {
        Some(Seq::empty())
    } else if spec_is_ws(s[0]) {
        spec_lex(s.skip(1))
    } else {
        match spec_next_token(s) {
            None => None,
            Some((t, l)) => if 1 <= l <= s.len() {
                match spec_lex(s.skip(l)) {
                    None => None,
                    Some(rest) => Some(seq![t] + rest),
                }
            } else {
                None
            },
        }
    }
}

// ---------------------------------------------------------------------
// Exec lexing
// ---------------------------------------------------------------------
fn scan_ws(s: &[u8], start: usize) -> (r: usize)
    requires
        start <= s@.len(),
    ensures
        start <= r <= s@.len(),
        r - start == spec_ws_run(s@.skip(start as int)),
        r < s@.len() ==> !spec_is_ws(s@[r as int]),
    {
    let mut k = start;
    while k < s.len() && (s[k] == 0x20 || s[k] == 0x09 || s[k] == 0x0a || s[k] == 0x0c)
        invariant
            start <= k <= s@.len(),
            spec_ws_run(s@.skip(start as int)) == (k - start) + spec_ws_run(s@.skip(k as int)),
        decreases s@.len() - k,
    {
        proof {
            assert(s@.skip(k as int).skip(1) =~= s@.skip(k as int + 1));
        }
        k = k + 1;
    }
    k
}

fn scan_hex(s: &[u8], start: usize) -> (r: usize)
    requires
        start <= s@.len(),
    ensures
        start <= r <= s@.len(),
        r - start == spec_hex_run(s@.skip(start as int)),
    {
    let mut k = start;
    while k < s.len() && ((0x30 <= s[k] && s[k] <= 0x39) || (0x61 <= s[k] && s[k] <= 0x66) || (0x41
        <= s[k] && s[k] <= 0x46))
        invariant
            start <= k <= s@.len(),
            spec_hex_run(s@.skip(start as int)) == (k - start) + spec_hex_run(s@.skip(k as int)),
        decreases s@.len() - k,
    {
        proof {
            assert(s@.skip(k as int).skip(1) =~= s@.skip(k as int + 1));
        }
        k = k + 1;
    }
    k
}

fn scan_ver_body(s: &[u8], start: usize) -> (r: usize)
    requires
        start <= s@.len(),
    ensures
        start <= r <= s@.len(),
        r - start == spec_ver_body_run(s@.skip(start as int)),
    {
    let mut k = start;
    while k < s.len() && ((0x30 <= s[k] && s[k] <= 0x39) || (0x41 <= s[k] && s[k] <= 0x5a) || (0x61
        <= s[k] && s[k] <= 0x7a) || s[k] == 0x2e || s[k] == 0x2b || s[k] == 0x2d || s[k] == 0x7e)
        invariant
            start <= k <= s@.len(),
            spec_ver_body_run(s@.skip(start as int)) == (k - start) + spec_ver_body_run(
                s@.skip(k as int),
            ),
        decreases s@.len() - k,
    {
        proof {
            assert(s@.skip(k as int).skip(1) =~= s@.skip(k as int + 1));
        }
        k = k + 1;
    }
    k
}

fn scan_digits(s: &[u8], start: usize) -> (r: usize)
    requires
        start <= s@.len(),
    ensures
        start <= r <= s@.len(),
        r - start == spec_digit_run(s@.skip(start as int)),
    {
    let mut k = start;
    while k < s.len() && (0x30 <= s[k] && s[k] <= 0x39)
        invariant
            start <= k <= s@.len(),
            spec_digit_run(s@.skip(start as int)) == (k - start) + spec_digit_run(
                s@.skip(k as int),
            ),
        decreases s@.len() - k,
    {
        proof {
            assert(s@.skip(k as int).skip(1) =~= s@.skip(k as int + 1));
        }
        k = k + 1;
    }
    k
}

/// Length of the version literal starting at `start`, or 0.
fn scan_ver_len(s: &[u8], start: usize) -> (r: usize)
    requires
        start <= s@.len(),
    ensures
        r == spec_ver_len(s@.skip(start as int)),
        start + r <= s@.len(),
    {
    let ghost tail = s@.skip(start as int);
    let d_end = scan_digits(s, start);
    let ghost d = spec_digit_run(tail);
    if d_end > start && d_end < s.len() && d_end + 1 < s.len() && s[d_end] == 0x3a && (0x30 <= s[
        d_end + 1] && s[d_end + 1] <= 0x39) {
        proof {
            assert(tail[(d_end - start) as int] == s@[d_end as int]);
            assert(tail[(d_end - start) + 1] == s@[d_end as int + 1]);
            assert(tail.skip((d_end - start) + 2) =~= s@.skip(d_end as int + 2));
        }
        let b_end = scan_ver_body(s, d_end + 2);
        b_end - start
    } else {
        proof {
            if d >= 1 && d + 1 < tail.len() {
                assert(tail[d as int] == s@[d_end as int]);
                assert(tail[d as int + 1] == s@[d_end as int + 1]);
            }
        }
        if start < s.len() && (0x30 <= s[start] && s[start] <= 0x39) {
            proof {
                assert(tail.skip(1) =~= s@.skip(start as int + 1));
            }
            let b_end = scan_ver_body(s, start + 1);
            b_end - start
        } else {
            0
        }
    }
}

/// Whether the bytes at `start` spell the keyword `sha256sum`.
fn starts_sha(s: &[u8], start: usize) -> (r: bool)
    requires
        start <= s@.len(),
    ensures
        r == spec_starts_sha(s@.skip(start as int)),
    {
    if s.len() - start < 9 {
        return false;
    }
    let r = s[start] == 0x73 && s[start + 1] == 0x68 && s[start + 2] == 0x61 && s[start + 3]
        == 0x32 && s[start + 4] == 0x35 && s[start + 5] == 0x36 && s[start + 6] == 0x73 && s[start
        + 7] == 0x75 && s[start + 8] == 0x6d;
    proof {
        let tail = s@.skip(start as int);
        assert(tail[0] == s@[start as int]);
        assert(tail[1] == s@[start as int + 1]);
        assert(tail[2] == s@[start as int + 2]);
        assert(tail[3] == s@[start as int + 3]);
        assert(tail[4] == s@[start as int + 4]);
        assert(tail[5] == s@[start as int + 5]);
        assert(tail[6] == s@[start as int + 6]);
        assert(tail[7] == s@[start as int + 7]);
        assert(tail[8] == s@[start as int + 8]);
    }
    r
}

/// Read the token starting at `start`; `Err(())` when no token matches
/// there.
#[verifier::rlimit(60)]
fn next_token_at(s: &[u8], start: usize) -> (r: Result<(VersionToken, usize), ()>)
    requires
        start < s@.len(),
        !spec_is_ws(s@[start as int]),
    ensures
        match r {
            Ok((t, l)) => {
                &&& spec_next_token(s@.skip(start as int)) == Some((t@, l as int))
                &&& 1 <= l
                &&& start + l <= s@.len()
            },
            Err(()) => spec_next_token(s@.skip(start as int)) is None,
        },
    decreases s@.len() - start,
{
    let ghost tail = s@.skip(start as int);
    proof {
        assert(tail[0] == s@[start as int]);
        if tail.len() >= 2 {
            assert(tail[1] == s@[start as int + 1]);
        }
        lemma_next_token_len(tail);
    }
    let c = s[start];
    if c == 0x3d {
        if start + 1 < s.len() && s[start + 1] == 0x3d {
            Ok((VersionToken::EqEq, 2))
        } else {
            Ok((VersionToken::Eq, 1))
        }
    } else if c == 0x21 {
        if start + 1 < s.len() && s[start + 1] == 0x3d {
            Ok((VersionToken::NotEq, 2))
        } else {
            Err(())
        }
    } else if c == 0x3e {
        if start + 1 < s.len() && s[start + 1] == 0x3d {
            Ok((VersionToken::GtEq, 2))
        } else {
            Ok((VersionToken::Gt, 1))
        }
    } else if c == 0x3c {
        if start + 1 < s.len() && s[start + 1] == 0x3d {
            Ok((VersionToken::LtEq, 2))
        } else {
            Ok((VersionToken::Lt, 1))
        }
    } else if c == 0x7c {
        if start + 1 < s.len() && s[start + 1] == 0x7c {
            Ok((VersionToken::Or, 2))
        } else {
            Err(())
        }
    } else if c == 0x26 {
        if start + 1 < s.len() && s[start + 1] == 0x26 {
            Ok((VersionToken::And, 2))
        } else {
            Err(())
        }
    } else if c == 0x28 {
        Ok((VersionToken::LParen, 1))
    } else if c == 0x29 {
        Ok((VersionToken::RParen, 1))
    } else if starts_sha(s, start) {
        let ghost t_seq = s@.skip(start as int + 9);
        proof {
            assert(tail.skip(9) =~= t_seq);
        }
        let p1 = scan_ws(s, start + 9);
        let ghost w1 = spec_ws_run(t_seq);
        if !(p1 < s.len() && s[p1] == 0x28) {
            proof {
                assert(t_seq.len() > w1 ==> t_seq[w1 as int] == s@[p1 as int]);
            }
            return Err(());
        }
        proof {
            assert(t_seq[w1 as int] == s@[p1 as int]);
            assert(t_seq.skip(w1 as int + 1) =~= s@.skip(p1 as int + 1));
        }
        let ghost u_seq = s@.skip(p1 as int + 1);
        let p2 = scan_ws(s, p1 + 1);
        let ghost w2 = spec_ws_run(u_seq);
        proof {
            assert(u_seq.skip(w2 as int) =~= s@.skip(p2 as int));
        }
        if p2 >= s.len() {
            proof {
                assert(s@.skip(p2 as int).len() == 0);
                assert(spec_next_token(s@.skip(p2 as int)) is None);
            }
            return Err(());
        }
        match next_token_at(s, p2) {
            Ok((VersionToken::Hexadecimal(h), hl)) => {
                let ghost u2 = s@.skip(p2 as int);
                proof {
                    assert(u2.skip(hl as int) =~= s@.skip(p2 as int + hl));
                }
                let p3 = scan_ws(s, p2 + hl);
                let ghost v_seq = s@.skip(p2 as int + hl);
                let ghost w3 = spec_ws_run(v_seq);
                if p3 < s.len() && s[p3] == 0x29 {
                    proof {
                        assert(v_seq[w3 as int] == s@[p3 as int]);
                    }
                    Ok((VersionToken::Sha256Sum(h), p3 + 1 - start))
                } else {
                    proof {
                        assert(v_seq.len() > w3 ==> v_seq[w3 as int] == s@[p3 as int]);
                    }
                    Err(())
                }
            },
            Ok((other, _)) => {
                proof {
                    assert(!(other@ is Hexadecimal));
                }
                Err(())
            },
            Err(()) => Err(()),
        }
    } else if (0x30 <= c && c <= 0x39) || (0x61 <= c && c <= 0x66) || (0x41 <= c && c <= 0x46) {
        let h_end = scan_hex(s, start);
        let v_len = scan_ver_len(s, start);
        let h_len = h_end - start;
        if v_len > h_len {
            let tok = slice_to_vec(slice_subrange(s, start, start + v_len));
            proof {
                assert(tail.take(v_len as int) =~= s@.subrange(
                    start as int,
                    start as int + v_len,
                ));
            }
            Ok((VersionToken::VersionNumber(tok), v_len))
        } else {
            let tok = slice_to_vec(slice_subrange(s, start, h_end));
            proof {
                assert(tail.take(h_len as int) =~= s@.subrange(start as int, h_end as int));
            }
            Ok((VersionToken::Hexadecimal(tok), h_len))
        }
    } else {
        Err(())
    }
}

/// Tokenize a whole expression.
pub fn tokenize_version_expr(input: &[u8]) -> (r: Result<Vec<VersionToken>, AprilError>)
    ensures
        match r {
            Ok(toks) => spec_lex(input@) == Some(
                toks@.map_values(|t: VersionToken| t@),
            ),
            Err(e) => {
                &&& spec_lex(input@) is None
                &&& e is InvalidExpression
            },
        },
{
    let n = input.len();
    let mut i: usize = 0;
    let mut toks: Vec<VersionToken> = Vec::new();
    proof {
        assert(input@.skip(0) =~= input@);
    }
    while i < n
        invariant
            n == input@.len(),
            i <= n,
            (spec_lex(input@.skip(i as int)) is Some) ==> spec_lex(input@) == Some(
                toks@.map_values(|t: VersionToken| t@) + spec_lex(input@.skip(i as int)).unwrap(),
            ),
            (spec_lex(input@.skip(i as int)) is None) ==> spec_lex(input@) is None,
        decreases n - i,
    {
        let c = input[i];
        if c == 0x20 || c == 0x09 || c == 0x0a || c == 0x0c {
            proof {
                assert(input@.skip(i as int).skip(1) =~= input@.skip(i as int + 1));
            }
            i = i + 1;
        } else {
            match next_token_at(input, i) {
                Ok((t, l)) => {
                    proof {
                        assert(input@.skip(i as int).skip(l as int) =~= input@.skip(
                            i as int + l,
                        ));
                        assert(toks@.push(t).map_values(|x: VersionToken| x@) =~= toks@.map_values(
                            |x: VersionToken| x@,
                        ).push(t@));
                        if spec_lex(input@.skip(i as int + l)) is Some {
                            assert(toks@.map_values(|x: VersionToken| x@) + (seq![t@] + spec_lex(
                                input@.skip(i as int + l),
                            ).unwrap()) =~= toks@.map_values(|x: VersionToken| x@).push(t@)
                                + spec_lex(input@.skip(i as int + l)).unwrap());
                        }
                    }
                    toks.push(t);
                    i = i + l;
                },
                Err(()) => {
                    return Err(AprilError::InvalidExpression(i as u64));
                },
            }
        }
    }
    proof {
        assert(input@.skip(n as int).len() == 0);
        assert(spec_lex(input@.skip(n as int)) == Some(Seq::<SpecVersionToken>::empty()));
        assert(toks@.map_values(|t: VersionToken| t@) + Seq::<SpecVersionToken>::empty()
            =~= toks@.map_values(|t: VersionToken| t@));
    }
    Ok(toks)
}

// ---------------------------------------------------------------------
// Parsing: infix to postfix
// ---------------------------------------------------------------------
/// What shunting an expression to postfix can end in.
pub enum SpecParseOutcome {
    /// The postfix token sequence.
    Done(Seq<SpecVersionToken>),
    /// A bare hex run stood where an operand may not.
    HexOperand,
    /// An operand stood where an operator was expected.
    MisplacedOperand,
    /// A `(` was never closed.
    Unmatched,
}

/// Pop operators of precedence at least `p` from the operator stack onto
/// the output, stopping at a `(`.
pub open spec fn spec_pop_ge(
    out: Seq<SpecVersionToken>,
    ops: Seq<SpecVersionToken>,
    p: int,
) -> (Seq<SpecVersionToken>, Seq<SpecVersionToken>)
    decreases ops.len(),
{
    if ops.len() == 0 {
        (out, ops)
    } else if ops.last() is LParen {
        (out, ops)
    } else if spec_precedence(ops.last()) >= p {
        spec_pop_ge(out.push(ops.last()), ops.drop_last(), p)
    } else {
        (out, ops)
    }
}

/// Pop operators onto the output until a `(` is popped and discarded; with
/// no `(` on the stack, everything is popped.
pub open spec fn spec_pop_until_paren(
    out: Seq<SpecVersionToken>,
    ops: Seq<SpecVersionToken>,
) -> (Seq<SpecVersionToken>, Seq<SpecVersionToken>)
    decreases ops.len(),
{
    if ops.len() == 0 {
        (out, ops)
    } else if ops.last() is LParen {
        (out, ops.drop_last())
    } else {
        spec_pop_until_paren(out.push(ops.last()), ops.drop_last())
    }
}

/// Drain the operator stack at the end of the expression; a leftover `(`
/// is an unmatched parenthesis.
pub open spec fn spec_drain(
    out: Seq<SpecVersionToken>,
    ops: Seq<SpecVersionToken>,
) -> SpecParseOutcome
    decreases ops.len(),
{
    if ops.len() == 0 {
        SpecParseOutcome::Done(out)
    } else if ops.last() is LParen {
        SpecParseOutcome::Unmatched
    } else {
        spec_drain(out.push(ops.last()), ops.drop_last())
    }
}

/// One pass of the shunting algorithm from token `i` on, given the output
/// and operator stacks and whether the previous token was an operator.
/// Each comparison operator first emits a placeholder for the version
/// under test; operators of equal precedence associate left to right.
pub open spec fn spec_shunt(
    toks: Seq<SpecVersionToken>,
    i: int,
    out: Seq<SpecVersionToken>,
    ops: Seq<SpecVersionToken>,
    prev_op: bool,
) -> SpecParseOutcome
    decreases toks.len() - i,
        when 0 <= i <= toks.len()
{
    if i >= toks.len() {
        spec_drain(out, ops)
    } else {
        let t = toks[i];
        let out0 = if spec_is_cmp_op(t) {
            out.push(SpecVersionToken::Placeholder)
        } else {
            out
        };
        if spec_is_op(t) {
            let popped = spec_pop_ge(out0, ops, spec_precedence(t));
            spec_shunt(toks, i + 1, popped.0, popped.1.push(t), true)
        } else if t is LParen {
            spec_shunt(toks, i + 1, out0, ops.push(t), false)
        } else if t is RParen {
            let popped = spec_pop_until_paren(out0, ops);
            spec_shunt(toks, i + 1, popped.0, popped.1, false)
        } else if t is Hexadecimal {
            SpecParseOutcome::HexOperand
        } else {
            if !prev_op {
                SpecParseOutcome::MisplacedOperand
            } else {
                spec_shunt(toks, i + 1, out0.push(t), ops, false)
            }
        }
    }
}

/// The postfix form of a token sequence, or the parse error it ends in.
pub open spec fn spec_parse_tokens(toks: Seq<SpecVersionToken>) -> SpecParseOutcome {
    spec_shunt(toks, 0, Seq::empty(), Seq::empty(), false)
}

fn clone_token(t: &VersionToken) -> (r: VersionToken)
    ensures
        r@ == t@,
{
    match t {
        VersionToken::Eq => VersionToken::Eq,
        VersionToken::EqEq => VersionToken::EqEq,
        VersionToken::NotEq => VersionToken::NotEq,
        VersionToken::GtEq => VersionToken::GtEq,
        VersionToken::LtEq => VersionToken::LtEq,
        VersionToken::Gt => VersionToken::Gt,
        VersionToken::Lt => VersionToken::Lt,
        VersionToken::Or => VersionToken::Or,
        VersionToken::And => VersionToken::And,
        VersionToken::LParen => VersionToken::LParen,
        VersionToken::RParen => VersionToken::RParen,
        VersionToken::Sha256Sum(h) => VersionToken::Sha256Sum(slice_to_vec(h.as_slice())),
        VersionToken::Hexadecimal(h) => VersionToken::Hexadecimal(slice_to_vec(h.as_slice())),
        VersionToken::VersionNumber(v) => VersionToken::VersionNumber(slice_to_vec(v.as_slice())),
        VersionToken::Placeholder => VersionToken::Placeholder,
    }
}

/// Tokenize an expression and shunt it to postfix.
pub fn parse_version_expr(input: &str) -> (r: Result<Vec<VersionToken>, AprilError>)
    ensures
        match spec_lex(input.spec_bytes()) {
            None => r matches Err(AprilError::InvalidExpression(_)),
            Some(toks) => match spec_parse_tokens(toks) {
                SpecParseOutcome::Done(rpn) => r matches Ok(v) && v@.map_values(
                    |t: VersionToken| t@,
                ) == rpn,
                SpecParseOutcome::HexOperand => r matches Err(AprilError::InvalidExpression(_)),
                SpecParseOutcome::MisplacedOperand => r matches Err(
                    AprilError::UnexpectedOperand(_),
                ),
                SpecParseOutcome::Unmatched => r == Err::<Vec<VersionToken>, _>(
                    AprilError::UnmatchedParen,
                ),
            },
        },
{
    let toks = match tokenize_version_expr(input.as_bytes()) {
        Ok(t) => t,
        Err(e) => {
            return Err(e);
        },
    };
    let ghost tseq = toks@.map_values(|t: VersionToken| t@);
    let mut out: Vec<VersionToken> = Vec::new();
    let mut ops: Vec<VersionToken> = Vec::new();
    let mut prev_op: bool = false;
    let mut i: usize = 0;
    proof {
        assert(out@.map_values(|t: VersionToken| t@) =~= Seq::<SpecVersionToken>::empty());
        assert(ops@.map_values(|t: VersionToken| t@) =~= Seq::<SpecVersionToken>::empty());
    }
    while i < toks.len()
        invariant
            i <= toks@.len(),
            tseq == toks@.map_values(|t: VersionToken| t@),
            spec_lex(input.spec_bytes()) == Some(tseq),
            spec_shunt(
                tseq,
                i as int,
                out@.map_values(|t: VersionToken| t@),
                ops@.map_values(|t: VersionToken| t@),
                prev_op,
            ) == spec_parse_tokens(tseq),
        decreases toks@.len() - i,
    {
        let ghost out_view = out@.map_values(|t: VersionToken| t@);
        let ghost ops_view = ops@.map_values(|t: VersionToken| t@);
        let ghost t_view = tseq[i as int];
        proof {
            assert(toks@.map_values(|t: VersionToken| t@)[i as int] == toks@[i as int]@);
        }
        if toks[i].is_cmp_op() {
            out.push(VersionToken::Placeholder);
            proof {
                assert(out@.map_values(|t: VersionToken| t@) =~= out_view.push(
                    SpecVersionToken::Placeholder,
                ));
            }
        }
        let ghost out0_view = out@.map_values(|t: VersionToken| t@);
        if toks[i].is_op() {
            let prec = toks[i].precedence();
            loop
                invariant
                    spec_pop_ge(out0_view, ops_view, prec as int) == spec_pop_ge(
                        out@.map_values(|t: VersionToken| t@),
                        ops@.map_values(|t: VersionToken| t@),
                        prec as int,
                    ),
                ensures
                    (
                        out@.map_values(|t: VersionToken| t@),
                        ops@.map_values(|t: VersionToken| t@),
                    ) == spec_pop_ge(out0_view, ops_view, prec as int),
                decreases ops@.len(),
            {
                if ops.len() == 0 {
                    break ;
                }
                let ghost cur_ops = ops@.map_values(|t: VersionToken| t@);
                let ghost cur_out = out@.map_values(|t: VersionToken| t@);
                proof {
                    assert(cur_ops.last() == ops@.last()@);
                }
                if matches!(ops[ops.len() - 1], VersionToken::LParen) {
                    break ;
                }
                let tp = ops[ops.len() - 1].precedence();
                if tp >= prec {
                    let popped = match ops.pop() {
                        Some(x) => x,
                        None => VersionToken::Eq,
                    };
                    out.push(popped);
                    proof {
                        assert(ops@.map_values(|t: VersionToken| t@) =~= cur_ops.drop_last());
                        assert(out@.map_values(|t: VersionToken| t@) =~= cur_out.push(
                            cur_ops.last(),
                        ));
                    }
                } else {
                    break ;
                }
            }
            ops.push(clone_token(&toks[i]));
            proof {
                assert(ops@.map_values(|t: VersionToken| t@) =~= spec_pop_ge(
                    out0_view,
                    ops_view,
                    spec_precedence(t_view),
                ).1.push(t_view));
            }
            prev_op = true;
        } else if matches!(&toks[i], VersionToken::LParen) {
            ops.push(VersionToken::LParen);
            proof {
                assert(ops@.map_values(|t: VersionToken| t@) =~= ops_view.push(
                    SpecVersionToken::LParen,
                ));
            }
            prev_op = false;
        } else if matches!(&toks[i], VersionToken::RParen) {
            loop
                invariant_except_break
                    spec_pop_until_paren(out0_view, ops_view) == spec_pop_until_paren(
                        out@.map_values(|t: VersionToken| t@),
                        ops@.map_values(|t: VersionToken| t@),
                    ),
                ensures
                    (
                        out@.map_values(|t: VersionToken| t@),
                        ops@.map_values(|t: VersionToken| t@),
                    ) == spec_pop_until_paren(out0_view, ops_view),
                decreases ops@.len(),
            {
                if ops.len() == 0 {
                    break ;
                }
                let ghost cur_ops = ops@.map_values(|t: VersionToken| t@);
                let ghost cur_out = out@.map_values(|t: VersionToken| t@);
                proof {
                    assert(cur_ops.last() == ops@.last()@);
                }
                let popped = match ops.pop() {
                    Some(x) => x,
                    None => VersionToken::Eq,
                };
                proof {
                    assert(ops@.map_values(|t: VersionToken| t@) =~= cur_ops.drop_last());
                }
                if matches!(popped, VersionToken::LParen) {
                    break ;
                }
                out.push(popped);
                proof {
                    assert(out@.map_values(|t: VersionToken| t@) =~= cur_out.push(
                        cur_ops.last(),
                    ));
                }
            }
            prev_op = false;
        } else if matches!(&toks[i], VersionToken::Hexadecimal(_)) {
            return Err(AprilError::InvalidExpression(i as u64));
        } else {
            if !prev_op {
                return Err(AprilError::UnexpectedOperand(i as u64));
            }
            out.push(clone_token(&toks[i]));
            proof {
                assert(out@.map_values(|t: VersionToken| t@) =~= out0_view.push(t_view));
            }
            prev_op = false;
        }
        i = i + 1;
    }
    // Drain what operators remain; a leftover `(` is an error.
    let ghost out_d = out@.map_values(|t: VersionToken| t@);
    let ghost ops_d = ops@.map_values(|t: VersionToken| t@);
    loop
        invariant
            spec_lex(input.spec_bytes()) == Some(tseq),
            spec_drain(out_d, ops_d) == spec_parse_tokens(tseq),
            spec_drain(out_d, ops_d) == spec_drain(
                out@.map_values(|t: VersionToken| t@),
                ops@.map_values(|t: VersionToken| t@),
            ),
        ensures
            ops@.len() == 0,
            SpecParseOutcome::Done(out@.map_values(|t: VersionToken| t@)) == spec_drain(
                out_d,
                ops_d,
            ),
        decreases ops@.len(),
    {
        if ops.len() == 0 {
            break ;
        }
        let ghost cur_ops = ops@.map_values(|t: VersionToken| t@);
        let ghost cur_out = out@.map_values(|t: VersionToken| t@);
        proof {
            assert(cur_ops.last() == ops@.last()@);
        }
        if matches!(ops[ops.len() - 1], VersionToken::LParen) {
            return Err(AprilError::UnmatchedParen);
        }
        let popped = match ops.pop() {
            Some(x) => x,
            None => VersionToken::Eq,
        };
        out.push(popped);
        proof {
            assert(ops@.map_values(|t: VersionToken| t@) =~= cur_ops.drop_last());
            assert(out@.map_values(|t: VersionToken| t@) =~= cur_out.push(cur_ops.last()));
        }
    }
    Ok(out)
}

// ---------------------------------------------------------------------
// Evaluation
// ---------------------------------------------------------------------
/// What a comparison operator asks of the ordering between the version
/// under test and the literal.
pub open spec fn spec_cmp_result(t: SpecVersionToken, ord: Ordering) -> bool {
    match t {
        SpecVersionToken::Eq | SpecVersionToken::EqEq => ord == Ordering::Equal,
        SpecVersionToken::NotEq => ord != Ordering::Equal,
        SpecVersionToken::GtEq => ord != Ordering::Less,
        SpecVersionToken::LtEq => ord != Ordering::Greater,
        SpecVersionToken::Gt => ord == Ordering::Greater,
        SpecVersionToken::Lt => ord == Ordering::Less,
        _ => false,
    }
}

/// A value on the evaluation stack: a boolean or a version string.
pub enum SpecEvalVal {
    B(bool),
    V(Seq<u8>),
}

/// What evaluating a postfix expression can end in.
pub enum SpecEvalOutcome {
    /// The boolean the expression evaluates to.
    Val(bool),
    /// A hash predicate was hit with no digest supplied.
    NoDigest,
    /// The token sequence is not a postfix boolean expression.
    Malformed,
    /// A comparison operand is not a parseable Debian version.
    BadVersion,
}

/// Evaluate a postfix token sequence from position `i` on, against the
/// version under test and an optional content digest (a hex string,
/// compared to hash arguments without regard to letter case).
pub open spec fn spec_eval_rpn(
    toks: Seq<SpecVersionToken>,
    i: int,
    st: Seq<SpecEvalVal>,
    ver: Seq<u8>,
    digest: Option<Seq<u8>>,
) -> SpecEvalOutcome
    decreases toks.len() - i,
        when 0 <= i <= toks.len()
{
    if i >= toks.len() {
        if st.len() == 1 {
            match st[0] {
                SpecEvalVal::B(b) => SpecEvalOutcome::Val(b),
                _ => SpecEvalOutcome::Malformed,
            }
        } else {
            SpecEvalOutcome::Malformed
        }
    } else {
        match toks[i] {
            SpecVersionToken::Placeholder => spec_eval_rpn(
                toks,
                i + 1,
                st.push(SpecEvalVal::V(ver)),
                ver,
                digest,
            ),
            SpecVersionToken::VersionNumber(v) => spec_eval_rpn(
                toks,
                i + 1,
                st.push(SpecEvalVal::V(v)),
                ver,
                digest,
            ),
            SpecVersionToken::Sha256Sum(h) => match digest {
                None => SpecEvalOutcome::NoDigest,
                Some(d) => spec_eval_rpn(
                    toks,
                    i + 1,
                    st.push(
                        SpecEvalVal::B(
                            crate::strutil::spec_lower_bytes(d) == crate::strutil::spec_lower_bytes(
                                h,
                            ),
                        ),
                    ),
                    ver,
                    digest,
                ),
            },
            SpecVersionToken::Or | SpecVersionToken::And => {
                if st.len() >= 2 {
                    match (st[st.len() - 2], st[st.len() - 1]) {
                        (SpecEvalVal::B(x), SpecEvalVal::B(y)) => {
                            let res = if toks[i] is Or {
                                x || y
                            } else {
                                x && y
                            };
                            spec_eval_rpn(
                                toks,
                                i + 1,
                                st.drop_last().drop_last().push(SpecEvalVal::B(res)),
                                ver,
                                digest,
                            )
                        },
                        _ => SpecEvalOutcome::Malformed,
                    }
                } else {
                    SpecEvalOutcome::Malformed
                }
            },
            t => {
                if spec_is_cmp_op(t) {
                    if st.len() >= 2 {
                        match (st[st.len() - 2], st[st.len() - 1]) {
                            (SpecEvalVal::V(lhs), SpecEvalVal::V(rhs)) => {
                                if crate::version::spec_deb_parse_ok(lhs)
                                    && crate::version::spec_deb_parse_ok(rhs) {
                                    spec_eval_rpn(
                                        toks,
                                        i + 1,
                                        st.drop_last().drop_last().push(
                                            SpecEvalVal::B(
                                                spec_cmp_result(
                                                    t,
                                                    crate::version::spec_deb_string_cmp(lhs, rhs),
                                                ),
                                            ),
                                        ),
                                        ver,
                                        digest,
                                    )
                                } else {
                                    SpecEvalOutcome::BadVersion
                                }
                            },
                            _ => SpecEvalOutcome::Malformed,
                        }
                    } else {
                        SpecEvalOutcome::Malformed
                    }
                } else {
                    SpecEvalOutcome::Malformed
                }
            },
        }
    }
}

/// A value on the exec evaluation stack.
pub enum EvalValue {
    B(bool),
    V(Vec<u8>),
}

impl View for EvalValue {
    type V = SpecEvalVal;

    open spec fn view(&self) -> SpecEvalVal {
        match self {
            EvalValue::B(b) => SpecEvalVal::B(*b),
            EvalValue::V(v) => SpecEvalVal::V(v@),
        }
    }
}

fn bytes_eq(a: &[u8], b: &[u8]) -> (r: bool)
    ensures
        r == (a@ == b@),
{
    if a.len() != b.len() {
        return false;
    }
    let mut i: usize = 0;
    while i < a.len()
        invariant
            a@.len() == b@.len(),
            i <= a@.len(),
            forall|k: int| 0 <= k < i ==> a@[k] == b@[k],
        decreases a@.len() - i,
    {
        if a[i] != b[i] {
            return false;
        }
        i = i + 1;
    }
    proof {
        assert(a@ =~= b@);
    }
    true
}

fn cmp_op_result(t: &VersionToken, ord: Ordering) -> (r: bool)
    requires
        spec_is_cmp_op(t@),
    ensures
        r == spec_cmp_result(t@, ord),
{
    match t {
        VersionToken::Eq | VersionToken::EqEq => matches!(ord, Ordering::Equal),
        VersionToken::NotEq => !matches!(ord, Ordering::Equal),
        VersionToken::GtEq => !matches!(ord, Ordering::Less),
        VersionToken::LtEq => !matches!(ord, Ordering::Greater),
        VersionToken::Gt => matches!(ord, Ordering::Greater),
        _ => matches!(ord, Ordering::Less),
    }
}

/// Evaluate a postfix token sequence against the version under test and
/// an optional content digest (a hex string; compared to `sha256sum`
/// arguments without regard to letter case).
pub fn evaluate_version_expr(
    tokens: &Vec<VersionToken>,
    version: &[u8],
    digest: Option<&[u8]>,
) -> (r: Result<bool, AprilError>)
    ensures
        ({
            let sd = match digest {
                Some(d) => Some(d@),
                None => None::<Seq<u8>>,
            };
            match spec_eval_rpn(
                tokens@.map_values(|t: VersionToken| t@),
                0,
                Seq::empty(),
                version@,
                sd,
            ) {
                SpecEvalOutcome::Val(b) => r == Ok::<bool, AprilError>(b),
                SpecEvalOutcome::NoDigest => r == Err::<bool, AprilError>(
                    AprilError::MissingDigest,
                ),
                SpecEvalOutcome::Malformed => r == Err::<bool, AprilError>(
                    AprilError::MalformedExpression,
                ),
                SpecEvalOutcome::BadVersion => r == Err::<bool, AprilError>(
                    AprilError::InvalidVersionOperand,
                ),
            }
        }),
{
    let ghost tseq = tokens@.map_values(|t: VersionToken| t@);
    let ghost sd = match digest {
        Some(d) => Some(d@),
        None => None::<Seq<u8>>,
    };
    let mut st: Vec<EvalValue> = Vec::new();
    let mut i: usize = 0;
    proof {
        assert(st@.map_values(|v: EvalValue| v@) =~= Seq::<SpecEvalVal>::empty());
    }
    while i < tokens.len()
        invariant
            i <= tokens@.len(),
            tseq == tokens@.map_values(|t: VersionToken| t@),
            sd == match digest {
                Some(d) => Some(d@),
                None => None::<Seq<u8>>,
            },
            spec_eval_rpn(tseq, i as int, st@.map_values(|v: EvalValue| v@), version@, sd)
                == spec_eval_rpn(tseq, 0, Seq::empty(), version@, sd),
        decreases tokens@.len() - i,
    {
        let ghost st_view = st@.map_values(|v: EvalValue| v@);
        proof {
            assert(tseq[i as int] == tokens@[i as int]@);
        }
        match &tokens[i] {
            VersionToken::Placeholder => {
                st.push(EvalValue::V(slice_to_vec(version)));
                proof {
                    assert(st@.map_values(|v: EvalValue| v@) =~= st_view.push(
                        SpecEvalVal::V(version@),
                    ));
                }
            },
            VersionToken::VersionNumber(v) => {
                st.push(EvalValue::V(slice_to_vec(v.as_slice())));
                proof {
                    assert(st@.map_values(|x: EvalValue| x@) =~= st_view.push(
                        SpecEvalVal::V(v@),
                    ));
                }
            },
            VersionToken::Sha256Sum(h) => {
                match digest {
                    None => {
                        return Err(AprilError::MissingDigest);
                    },
                    Some(d) => {
                        let ld = crate::strutil::lower_bytes(d);
                        let lh = crate::strutil::lower_bytes(h.as_slice());
                        let b = bytes_eq(ld.as_slice(), lh.as_slice());
                        st.push(EvalValue::B(b));
                        proof {
                            assert(st@.map_values(|x: EvalValue| x@) =~= st_view.push(
                                SpecEvalVal::B(b),
                            ));
                        }
                    },
                }
            },
            VersionToken::Or => {
                let y = match st.pop() {
                    Some(EvalValue::B(x)) => x,
                    _ => {
                        return Err(AprilError::MalformedExpression);
                    },
                };
                let x = match st.pop() {
                    Some(EvalValue::B(x)) => x,
                    _ => {
                        return Err(AprilError::MalformedExpression);
                    },
                };
                st.push(EvalValue::B(x || y));
                proof {
                    assert(st@.map_values(|v: EvalValue| v@) =~= st_view.drop_last().drop_last()
                        .push(SpecEvalVal::B(x || y)));
                }
            },
            VersionToken::And => {
                let y = match st.pop() {
                    Some(EvalValue::B(x)) => x,
                    _ => {
                        return Err(AprilError::MalformedExpression);
                    },
                };
                let x = match st.pop() {
                    Some(EvalValue::B(x)) => x,
                    _ => {
                        return Err(AprilError::MalformedExpression);
                    },
                };
                st.push(EvalValue::B(x && y));
                proof {
                    assert(st@.map_values(|v: EvalValue| v@) =~= st_view.drop_last().drop_last()
                        .push(SpecEvalVal::B(x && y)));
                }
            },
            VersionToken::Eq
            | VersionToken::EqEq
            | VersionToken::NotEq
            | VersionToken::GtEq
            | VersionToken::LtEq
            | VersionToken::Gt
            | VersionToken::Lt => {
                let rhs = match st.pop() {
                    Some(EvalValue::V(v)) => v,
                    _ => {
                        return Err(AprilError::MalformedExpression);
                    },
                };
                let lhs = match st.pop() {
                    Some(EvalValue::V(v)) => v,
                    _ => {
                        return Err(AprilError::MalformedExpression);
                    },
                };
                let pl = match crate::version::DebVersion::parse_bytes(lhs.as_slice()) {
                    Some(p) => p,
                    None => {
                        return Err(AprilError::InvalidVersionOperand);
                    },
                };
                let pr = match crate::version::DebVersion::parse_bytes(rhs.as_slice()) {
                    Some(p) => p,
                    None => {
                        return Err(AprilError::InvalidVersionOperand);
                    },
                };
                let ord = crate::version::deb_cmp(&pl, &pr);
                proof {
                    assert(ord == crate::version::spec_deb_string_cmp(lhs@, rhs@));
                }
                let b = cmp_op_result(&tokens[i], ord);
                st.push(EvalValue::B(b));
                proof {
                    assert(st@.map_values(|v: EvalValue| v@) =~= st_view.drop_last().drop_last()
                        .push(SpecEvalVal::B(b)));
                }
            },
            _ => {
                return Err(AprilError::MalformedExpression);
            },
        }
        i = i + 1;
    }
    if st.len() == 1 {
        let b = match &st[0] {
            EvalValue::B(b) => Some(*b),
            _ => None,
        };
        proof {
            assert(st@.map_values(|v: EvalValue| v@)[0] == st@[0]@);
        }
        match b {
            Some(b) => Ok(b),
            None => Err(AprilError::MalformedExpression),
        }
    } else {
        Err(AprilError::MalformedExpression)
    }
}

/// Parse a version expression and decide whether the given version
/// satisfies it.  No content digest is supplied here, so an expression
/// with a `sha256sum` predicate that is actually evaluated yields an
/// error.
pub fn check_version_compatibility(required_version_expr: &str, version_to_check: &str) -> (r:
    Result<bool, AprilError>)
    ensures
        match spec_lex(required_version_expr.spec_bytes()) {
            None => r matches Err(AprilError::InvalidExpression(_)),
            Some(toks) => match spec_parse_tokens(toks) {
                SpecParseOutcome::Done(rpn) => match spec_eval_rpn(
                    rpn,
                    0,
                    Seq::empty(),
                    version_to_check.spec_bytes(),
                    None,
                ) {
                    SpecEvalOutcome::Val(b) => r == Ok::<bool, AprilError>(b),
                    SpecEvalOutcome::NoDigest => r == Err::<bool, AprilError>(
                        AprilError::MissingDigest,
                    ),
                    SpecEvalOutcome::Malformed => r == Err::<bool, AprilError>(
                        AprilError::MalformedExpression,
                    ),
                    SpecEvalOutcome::BadVersion => r == Err::<bool, AprilError>(
                        AprilError::InvalidVersionOperand,
                    ),
                },
                SpecParseOutcome::HexOperand => r matches Err(AprilError::InvalidExpression(_)),
                SpecParseOutcome::MisplacedOperand => r matches Err(
                    AprilError::UnexpectedOperand(_),
                ),
                SpecParseOutcome::Unmatched => r == Err::<bool, AprilError>(
                    AprilError::UnmatchedParen,
                ),
            },
        },
{
    let toks = match parse_version_expr(required_version_expr) {
        Ok(t) => t,
        Err(e) => {
            return Err(e);
        },
    };
    evaluate_version_expr(&toks, version_to_check.as_bytes(), None)
}

} // verus!
