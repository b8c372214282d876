use vstd::prelude::*;
use proc_macro2::{LexError, TokenStream};

verus! {

/// Whether `c` is an octal digit.
pub open spec fn is_octal_digit(c: char) -> bool {
    c == '0' || c == '1' || c == '2' || c == '3' || c == '4' || c == '5' || c == '6' || c == '7'
}

/// The lower-case hexadecimal digit for `d < 16`.
pub open spec fn hex_digit(d: nat) -> char {
    if d < 10 {
        digit(d)
    } else if d == 10 { 'a' }
    else if d == 11 { 'b' }
    else if d == 12 { 'c' }
    else if d == 13 { 'd' }
    else if d == 14 { 'e' }
    else { 'f' }
}

/// `n` in lower-case hexadecimal, without leading zeros.
pub open spec fn hex(n: nat) -> Seq<char>
    decreases n,
{
    if n < 16 {
        seq![hex_digit(n)]
    } else {
        hex(n / 16) + seq![hex_digit(n % 16)]
    }
}

/// Whether `c` is an ASCII control character (below the space, or DEL).
pub open spec fn is_ascii_control(c: char) -> bool {
    (c as u32) < 0x20 || (c as u32) == 0x7f
}

/// How character `c`, followed by `next` (none at the end), is written inside
/// a Rust string literal, the way proc_macro2 writes a string literal outside a
/// procedural macro for ASCII characters: NUL as `\0`, or as `\x00` before an
/// octal digit; tab, line feed, carriage return, double quote and backslash
/// by their escapes; other control characters as `\u{..}` in hexadecimal. Every
/// other character, the single quote among them, stands as it is.
pub open spec fn escaped_char(c: char, next: Option<char>) -> Seq<char> {
    if c == '\0' {
        if next matches Some(n) && is_octal_digit(n) {
            seq!['\\', 'x', '0', '0']
        } else {
            seq!['\\', '0']
        }
    } else if c == '\t' {
        seq!['\\', 't']
    } else if c == '\n' {
        seq!['\\', 'n']
    } else if c == '\r' {
        seq!['\\', 'r']
    } else if c == '"' {
        seq!['\\', '"']
    } else if c == '\\' {
        seq!['\\', '\\']
    } else if is_ascii_control(c) {
        seq!['\\', 'u', '{'] + hex(c as u32 as nat) + seq!['}']
    } else {
        seq![c]
    }
}

/// The character after position `i` of `s`, none at the end.
pub open spec fn next_char(s: Seq<char>, i: int) -> Option<char> {
    if i + 1 < s.len() {
        Some(s[i + 1])
    } else {
        None
    }
}

/// The first `n` characters of `s`, each written as inside a string literal.
pub open spec fn escaped_upto(s: Seq<char>, n: int) -> Seq<char>
    decreases n,
{
    if n <= 0 || n > s.len() {
        Seq::empty()
    } else {
        escaped_upto(s, n - 1) + escaped_char(s[n - 1], next_char(s, n - 1))
    }
}

/// The characters of `s`, each written as inside a string literal.
pub open spec fn escaped(s: Seq<char>) -> Seq<char> {
    escaped_upto(s, s.len() as int)
}

/// The Rust string literal whose value is `s`.
pub open spec fn quoted(s: Seq<char>) -> Seq<char> {
    seq!['"'] + escaped(s) + seq!['"']
}

fn hex_digit_text(d: u32) -> (r: &'static str)
    requires
        d < 16,
    ensures
        r@ == seq![hex_digit(d as nat)],
{
    proof {
        reveal_strlit("0");
        reveal_strlit("1");
        reveal_strlit("2");
        reveal_strlit("3");
        reveal_strlit("4");
        reveal_strlit("5");
        reveal_strlit("6");
        reveal_strlit("7");
        reveal_strlit("8");
        reveal_strlit("9");
        reveal_strlit("a");
        reveal_strlit("b");
        reveal_strlit("c");
        reveal_strlit("d");
        reveal_strlit("e");
        reveal_strlit("f");
    }
    if d == 0 { "0" }
    else if d == 1 { "1" }
    else if d == 2 { "2" }
    else if d == 3 { "3" }
    else if d == 4 { "4" }
    else if d == 5 { "5" }
    else if d == 6 { "6" }
    else if d == 7 { "7" }
    else if d == 8 { "8" }
    else if d == 9 { "9" }
    else if d == 10 { "a" }
    else if d == 11 { "b" }
    else if d == 12 { "c" }
    else if d == 13 { "d" }
    else if d == 14 { "e" }
    else { "f" }
}

fn is_octal_char(c: char) -> (r: bool)
    ensures
        r == is_octal_digit(c),
{
    c == '0' || c == '1' || c == '2' || c == '3' || c == '4' || c == '5' || c == '6' || c == '7'
}

/// Appends `escaped_char(c, next)`; `one` is `c` as text.
fn push_escaped(r: &mut String, c: char, one: &str, next: Option<char>)
    requires
        one@ == seq![c],
    ensures
        final(r)@ == old(r)@ + escaped_char(c, next),
{
    let ghost before = r@;
    if c == '\0' {
        let octal = match next {
            Some(n) => is_octal_char(n),
            None => false,
        };
        if octal {
            r.append("\\x00");
            proof {
                reveal_strlit("\\x00");
            }
        } else {
            r.append("\\0");
            proof {
                reveal_strlit("\\0");
            }
        }
    } else if c == '\t' {
        r.append("\\t");
        proof {
            reveal_strlit("\\t");
        }
    } else if c == '\n' {
        r.append("\\n");
        proof {
            reveal_strlit("\\n");
        }
    } else if c == '\r' {
        r.append("\\r");
        proof {
            reveal_strlit("\\r");
        }
    } else if c == '"' {
        r.append("\\\"");
        proof {
            reveal_strlit("\\\"");
        }
    } else if c == '\\' {
        r.append("\\\\");
        proof {
            reveal_strlit("\\\\");
        }
    } else {
        let v: u32 = c as u32;
        if v < 0x20 || v == 0x7f {
            r.append("\\u{");
            proof {
                reveal_strlit("\\u{");
            }
            let ghost mid = r@;
            if v < 16 {
                r.append(hex_digit_text(v));
                assert(hex(v as nat) == seq![hex_digit(v as nat)]);
            } else {
                r.append(hex_digit_text(v / 16));
                r.append(hex_digit_text(v % 16));
                assert(v as nat / 16 < 16);
                assert(hex((v as nat) / 16) == seq![hex_digit((v as nat) / 16)]);
                assert(hex(v as nat) == hex((v as nat) / 16) + seq![hex_digit((v as nat) % 16)]);
            }
            assert(r@ =~= mid + hex(v as nat));
            r.append("}");
            proof {
                reveal_strlit("}");
            }
        } else {
            r.append(one);
        }
    }
    assert(r@ =~= before + escaped_char(c, next));
}

/// Writes `s` as a Rust string literal, the way generated code names a variable or
/// a message.
pub fn string_literal(s: &str) -> (r: String)
    ensures
        r@ == quoted(s@),
{
    let mut r = String::new();
    r.append("\"");
    proof {
        reveal_strlit("\"");
    }
    let n = s.unicode_len();
    let mut i: usize = 0;
    while i < n
        invariant
            n == s@.len(),
            0 <= i <= n,
            r@ == seq!['"'] + escaped_upto(s@, i as int),
        decreases n - i,
    {
        let c = s.get_char(i);
        let next = if i + 1 < n {
            Some(s.get_char(i + 1))
        } else {
            None
        };
        assert(next == next_char(s@, i as int));
        let one = s.substring_char(i, i + 1);
        assert(one@ =~= seq![c]);
        push_escaped(&mut r, c, one, next);
        i = i + 1;
    }
    r.append("\"");
    r
}

/// The digit character for `d < 10`.
pub open spec fn digit(d: nat) -> char {
    if d == 0 { '0' }
    else if d == 1 { '1' }
    else if d == 2 { '2' }
    else if d == 3 { '3' }
    else if d == 4 { '4' }
    else if d == 5 { '5' }
    else if d == 6 { '6' }
    else if d == 7 { '7' }
    else if d == 8 { '8' }
    else { '9' }
}

/// `n` written in decimal, without leading zeros.
pub open spec fn decimal(n: nat) -> Seq<char>
    decreases n,
{
    if n < 10 {
        seq![digit(n)]
    } else {
        decimal(n / 10) + seq![digit(n % 10)]
    }
}

fn digit_text(d: usize) -> (r: &'static str)
    requires
        d < 10,
    ensures
        r@ == seq![digit(d as nat)],
{
    let r = if d == 0 { "0" }
        else if d == 1 { "1" }
        else if d == 2 { "2" }
        else if d == 3 { "3" }
        else if d == 4 { "4" }
        else if d == 5 { "5" }
        else if d == 6 { "6" }
        else if d == 7 { "7" }
        else if d == 8 { "8" }
        else { "9" };
    proof {
        reveal_strlit("0");
        reveal_strlit("1");
        reveal_strlit("2");
        reveal_strlit("3");
        reveal_strlit("4");
        reveal_strlit("5");
        reveal_strlit("6");
        reveal_strlit("7");
        reveal_strlit("8");
        reveal_strlit("9");
    }
    r
}

/// Writes `n` in decimal.
pub fn decimal_text(n: usize) -> (r: String)
    ensures
        r@ == decimal(n as nat),
    decreases n,
{
    if n < 10 {
        let mut r = String::new();
        r.append(digit_text(n));
        r
    } else {
        let mut r = decimal_text(n / 10);
        r.append(digit_text(n % 10));
        r
    }
}

/// Whether proc_macro2's own lexer (the one it uses outside procedural macros)
/// breaks `src` into tokens.
pub uninterp spec fn lexes(src: Seq<char>) -> bool;

#[verifier::external_type_specification]
#[verifier::external_body]
pub struct ExTokenStream(TokenStream);

#[verifier::external_type_specification]
#[verifier::external_body]
pub struct ExLexError(LexError);

/// Calls `<proc_macro2::TokenStream as FromStr>::from_str`. Trusted to give `Ok`
/// only on texts that proc_macro2's own lexer accepts, which `lexes` names: inside
/// a procedural macro the compiler's lexer is asked too, after that one, and may
/// still refuse. Nothing is said of when the call fails, nor of the tokens it
/// returns; proc_macro2's documentation also reserves a panic in place of an
/// error on some malformed text, which no `requires` here rules out.
#[verifier::external_body]
fn lex(src: &str) -> (r: Result<TokenStream, LexError>)
    ensures
        r is Ok ==> lexes(src@),
{
    src.parse::<TokenStream>()
}

/// The generated code could not be broken into tokens.
#[derive(Debug)]
pub struct CodeError;

/// Turns generated source text into the token stream that a build script hands
/// on, or `CodeError` where the text does not lex. Whether it lexes rests on
/// proc_macro2 and on the process (inside a procedural macro the compiler's lexer
/// decides too), so only this is promised: tokens come back only for text that
/// proc_macro2's own lexer accepts.
pub fn into_token_stream(code: &str) -> (r: Result<TokenStream, CodeError>)
    ensures
        r is Ok ==> lexes(code@),
{
    match lex(code) {
        Ok(tokens) => Ok(tokens),
        Err(_) => Err(CodeError),
    }
}

} // verus!
