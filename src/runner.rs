//! One run of a program: scan, parse, then execute what parsed.

use crate::error::{location_text, report_text, ParseError, ParseFault};
use crate::interpreter::{run_program, Interpreter};
use crate::parser::{p_program, Parser};
use crate::scanner::{scan, text_views, token_views, Scanner};
use crate::stmt::{views_of, Stmt};
use crate::token::Token;
use vstd::prelude::*;

verus! {

/// The diagnostic text of a syntax error.
pub open spec fn fault_text(f: ParseFault) -> Seq<char> {
    report_text(f.token.line as nat, location_text(f.token), f.msg)
}

/// Runs the program `src` against the interpreter's global scope, which
/// keeps its bindings for the next run. Returns the diagnostics of the
/// lexical and then the syntax errors; the statements that parsed run even
/// where there are some, and the interpreter records what they output.
pub fn run(interpreter: &mut Interpreter, src: String) -> (r: Vec<String>)
    requires
        old(interpreter).wf(),
        src@.len() < usize::MAX,
    ensures
        final(interpreter).wf(),
        final(interpreter).limit() == old(interpreter).limit(),
        exists|toks: Seq<Token>, prog: Seq<Stmt>|
            #![trigger token_views(toks), views_of(prog)]
            {
                let (stmts, errs) = p_program(toks, 0, Seq::empty(), Seq::empty());
                &&& token_views(toks) == scan(src@).0
                &&& views_of(prog) == stmts
                &&& (final(interpreter).frames(), final(interpreter).log()) == run_program(
                    prog,
                    0,
                    old(interpreter).frames(),
                    old(interpreter).log(),
                    old(interpreter).limit(),
                )
                &&& text_views(r@) == scan(src@).1 + errs.map_values(|f: ParseFault| fault_text(f))
            },
{
    let mut scanner = Scanner::new(src);
    let ghost text = scanner.text();
    let tokens = scanner.scan_tokens();
    let ghost toks = tokens@;
    proof {
        assert(token_views(toks).last() == toks.last()@);
    }
    let mut parser = Parser::new(tokens.as_slice());
    let statements = parser.parse();
    let ghost prog = statements@;
    let mut diagnostics: Vec<String> = Vec::new();
    let lexical = scanner.errors();
    let mut i: usize = 0;
    while i < lexical.len()
        invariant
            i <= lexical@.len(),
            text_views(diagnostics@) == text_views(lexical@).subrange(0, i as int),
        decreases lexical@.len() - i,
    {
        let ghost before = diagnostics@;
        let copy = lexical[i].clone();
        diagnostics.push(copy);
        i = i + 1;
        proof {
            assert(text_views(diagnostics@) =~= text_views(before).push(copy@));
            assert(text_views(lexical@).subrange(0, i as int) =~= text_views(lexical@).subrange(
                0,
                i - 1,
            ).push(lexical@[i - 1]@));
        }
    }
    let syntax = parser.errors();
    let ghost errs = syntax@.map_values(|e: ParseError| e@);
    let ghost base = text_views(diagnostics@);
    let mut j: usize = 0;
    while j < syntax.len()
        invariant
            j <= syntax@.len(),
            errs == syntax@.map_values(|e: ParseError| e@),
            text_views(diagnostics@) == base + errs.subrange(0, j as int).map_values(
                |f: ParseFault| fault_text(f),
            ),
        decreases syntax@.len() - j,
    {
        let ghost before = diagnostics@;
        let line = syntax[j].to_string();
        diagnostics.push(line);
        j = j + 1;
        proof {
            assert(text_views(diagnostics@) =~= text_views(before).push(line@));
            assert(errs.subrange(0, j as int).map_values(|f: ParseFault| fault_text(f)) =~= errs.subrange(
                0,
                j - 1,
            ).map_values(|f: ParseFault| fault_text(f)).push(fault_text(errs[j - 1])));
            assert(text_views(diagnostics@) =~= base + errs.subrange(0, j as int).map_values(
                |f: ParseFault| fault_text(f),
            ));
        }
    }
    proof {
        assert(text_views(lexical@).subrange(0, lexical@.len() as int) =~= text_views(lexical@));
        assert(errs.subrange(0, errs.len() as int) =~= errs);
    }
    interpreter.interpret(statements);
    diagnostics
}

} // verus!
