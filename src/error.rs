//! Diagnostics: syntax and runtime errors and the text they are reported as.

use crate::token::{Token, TokenType};
use vstd::prelude::*;

verus! {

/// A syntax error: what was expected, and the token where it was not found.
#[derive(Debug)]
pub struct ParseError {
    pub msg: String,
    pub token: Token,
}

/// A runtime error: what went wrong, and the token of the operation that failed.
#[derive(Debug)]
pub struct RuntimeError {
    pub msg: String,
    pub token: Token,
}

/// The mathematical model of a syntax error.
pub struct ParseFault {
    pub msg: Seq<char>,
    pub token: Token,
}

impl View for ParseError {
    type V = ParseFault;

    open spec fn view(&self) -> ParseFault {
        ParseFault { msg: self.msg@, token: self.token }
    }
}

/// The mathematical model of a runtime error.
pub struct RuntimeFault {
    pub msg: Seq<char>,
    pub token: Token,
}

impl View for RuntimeError {
    type V = RuntimeFault;

    open spec fn view(&self) -> RuntimeFault {
        RuntimeFault { msg: self.msg@, token: self.token }
    }
}

/// The decimal digit of a number below ten.
pub open spec fn digit_char(d: nat) -> char {
    (d + '0' as nat) as char
}

/// The decimal text of a natural number, without leading zeros.
pub open spec fn decimal(n: nat) -> Seq<char>
    decreases n,
{
    if n < 10 {
        seq![digit_char(n)]
    } else {
        decimal(n / 10).push(digit_char(n % 10))
    }
}

/// Where a diagnostic points: `" at end"` for the end of input, else the lexeme quoted.
pub open spec fn location_text(token: Token) -> Seq<char> {
    if token.ttype == TokenType::Eof {
        " at end"@
    } else {
        " at '"@ + token.lexeme@ + "'"@
    }
}

/// The shape of every diagnostic: `[line <n>] Error<location>: <message>`.
pub open spec fn report_text(line: nat, loc: Seq<char>, message: Seq<char>) -> Seq<char> {
    "[line "@ + decimal(line) + "] Error"@ + loc + ": "@ + message
}

/// Relies on `String::push`: the character is appended.
#[verifier::external_body]
fn push_char(s: &mut String, c: char)
    ensures
        final(s)@ == old(s)@.push(c),
{
    s.push(c)
}

/// The decimal text of `n`.
pub fn decimal_text(n: usize) -> (r: String)
    ensures
        r@ == decimal(n as nat),
    decreases n,
{
    let d: usize = n % 10;
    let c = ((d as u8) + 48u8) as char;
    if n < 10 {
        let mut s = String::new();
        push_char(&mut s, c);
        assert(s@ =~= seq![digit_char(n as nat)]);
        s
    } else {
        let mut s = decimal_text(n / 10);
        push_char(&mut s, c);
        s
    }
}

/// The diagnostic text for `message` on `line`, at `loc`.
pub fn report(line: usize, loc: String, message: String) -> (r: String)
    ensures
        r@ == report_text(line as nat, loc@, message@),
{
    let mut s = String::from_str("[line ");
    let n = decimal_text(line);
    s.append(n.as_str());
    s.append("] Error");
    s.append(loc.as_str());
    s.append(": ");
    s.append(message.as_str());
    s
}

/// The diagnostic text for a message that points at a line only.
pub fn error(line: usize, message: String) -> (r: String)
    ensures
        r@ == report_text(line as nat, Seq::empty(), message@),
{
    report(line, String::new(), message)
}

/// The location part of a diagnostic about `token`.
fn location(token: &Token) -> (r: String)
    ensures
        r@ == location_text(*token),
{
    if token.ttype == TokenType::Eof {
        String::from_str(" at end")
    } else {
        let mut s = String::from_str(" at '");
        s.append(token.lexeme.as_str());
        s.append("'");
        s
    }
}

impl ParseError {
    pub fn new(msg: String, token: Token) -> (r: ParseError)
        ensures
            r.msg == msg,
            r.token == token,
    {
        ParseError { msg, token }
    }

    /// The diagnostic text of this error.
    pub fn to_string(&self) -> (r: String)
        ensures
            r@ == report_text(self.token.line as nat, location_text(self.token), self.msg@),
    {
        report(self.token.line, location(&self.token), self.msg.clone())
    }
}

impl RuntimeError {
    pub fn new(msg: String, token: Token) -> (r: RuntimeError)
        ensures
            r.msg == msg,
            r.token == token,
    {
        RuntimeError { msg, token }
    }

    /// The diagnostic text of this error.
    pub fn to_string(&self) -> (r: String)
        ensures
            r@ == report_text(self.token.line as nat, location_text(self.token), self.msg@),
    {
        report(self.token.line, location(&self.token), self.msg.clone())
    }
}

} // verus!
