//! The process-scoped error sink: two independent flags and the rendered
//! diagnostic lines, shared by scanner, parser and evaluator and consumed by
//! the driver to pick an exit code.
use vstd::prelude::*;

use crate::interpreter::interpret_m;
use crate::interpreter::stmts_view;
use crate::interpreter::Interpreter;
use crate::interpreter::RuntimeError;
use crate::interpreter::Stmt;
use crate::parser::spec_program;
use crate::parser::Parser;
use crate::scanner::lemma_scan_model_wf;
use crate::scanner::scan_model;
use crate::scanner::Scanner;
use crate::text::dec_rep;
use crate::text::usize_to_string;
use crate::token::strs_view;
use crate::token::Token;
use crate::token::TokenM;
use crate::token::TokenType;

verus! {

/// The diagnostic line for a lexical or syntax error:
/// `[line <N>] Error<where>: <message>`.
pub open spec fn render_report(line: int, where_: Seq<char>, msg: Seq<char>) -> Seq<char> {
    "[line "@ + dec_rep(line as nat) + "] Error"@ + where_ + ": "@ + msg
}

/// The diagnostic line for a syntax error at a given token: located `at end`
/// for the end-of-input token, `at '<lexeme>'` otherwise.
pub open spec fn render_error_at(t: TokenM, msg: Seq<char>) -> Seq<char> {
    if t.kind == TokenType::Eof {
        render_report(t.line, " at end"@, msg)
    } else {
        render_report(t.line, " at '"@ + t.lexeme + "'"@, msg)
    }
}

/// The diagnostic line for a runtime error: `<message>\n[line <N> ]`.
pub open spec fn render_runtime(msg: Seq<char>, line: int) -> Seq<char> {
    msg + "\n[line "@ + dec_rep(line as nat) + " ]"@
}

/// How a stage leaves the sink: the given diagnostics are appended, the
/// syntax-error flag is set exactly when one was reported, and the
/// runtime-error flag is untouched.
pub open spec fn sink_after(pre: LoxM, post: LoxM, diags: Seq<Seq<char>>) -> bool {
    &&& post.diags == pre.diags + diags
    &&& post.had_error == (pre.had_error || diags.len() > 0)
    &&& post.had_runtime_error == pre.had_runtime_error
}

/// Model of the error sink: the two flags and the rendered diagnostics.
pub struct LoxM {
    pub had_error: bool,
    pub had_runtime_error: bool,
    pub diags: Seq<Seq<char>>,
}

/// The error sink. Each stage reports errors here; the driver reads the
/// flags, prints the diagnostics, and resets between runs.
pub struct Lox {
    pub had_error: bool,
    pub had_runtime_error: bool,
    pub diags: Vec<String>,
}

impl View for Lox {
    type V = LoxM;

    open spec fn view(&self) -> LoxM {
        LoxM {
            had_error: self.had_error,
            had_runtime_error: self.had_runtime_error,
            diags: strs_view(self.diags@),
        }
    }
}

impl Lox {
    /// A fresh sink: no error seen, no diagnostics recorded.
    pub fn new() -> (r: Self)
        ensures
            r@ == (LoxM { had_error: false, had_runtime_error: false, diags: Seq::empty() }),
    {
        let r = Lox { had_error: false, had_runtime_error: false, diags: Vec::new() };
        proof {
            assert(strs_view(r.diags@) =~= Seq::<Seq<char>>::empty());
        }
        r
    }

    fn report(&mut self, line: usize, where_: &str, message: &str)
        ensures
            final(self)@.diags == old(self)@.diags.push(
                render_report(line as int, where_@, message@),
            ),
            final(self)@.had_error,
            final(self)@.had_runtime_error == old(self)@.had_runtime_error,
    {
        let mut s = String::from_str("[line ");
        let n = usize_to_string(line);
        s.append(n.as_str());
        s.append("] Error");
        s.append(where_);
        s.append(": ");
        s.append(message);
        proof {
            assert(s@ =~= render_report(line as int, where_@, message@));
        }
        self.diags.push(s);
        self.had_error = true;
        proof {
            crate::token::lemma_strs_view_push(old(self).diags@, s);
        }
    }

    /// Record a lexical error at a line.
    pub fn error(&mut self, line: usize, message: &str)
        ensures
            final(self)@.diags == old(self)@.diags.push(
                render_report(line as int, Seq::empty(), message@),
            ),
            final(self)@.had_error,
            final(self)@.had_runtime_error == old(self)@.had_runtime_error,
    {
        proof {
            reveal_strlit("");
            assert(""@ =~= Seq::<char>::empty());
        }
        self.report(line, "", message);
    }

    /// Record a syntax error at a token.
    pub fn error_at(&mut self, token: &Token, message: &str)
        ensures
            final(self)@.diags == old(self)@.diags.push(render_error_at(token@, message@)),
            final(self)@.had_error,
            final(self)@.had_runtime_error == old(self)@.had_runtime_error,
    {
        if token.kind == TokenType::Eof {
            self.report(token.line, " at end", message);
        } else {
            let mut w = String::from_str(" at '");
            w.append(token.lexeme.as_str());
            w.append("'");
            proof {
                assert(w@ =~= " at '"@ + token@.lexeme + "'"@);
            }
            self.report(token.line, w.as_str(), message);
        }
    }

    /// Record a runtime error, attributed to its operator token's line.
    pub fn runtime_error(&mut self, error: RuntimeError)
        ensures
            final(self)@.diags == old(self)@.diags.push(
                render_runtime(error@.message, error@.token.line),
            ),
            final(self)@.had_runtime_error,
            final(self)@.had_error == old(self)@.had_error,
    {
        let mut s = error.message;
        s.append("\n[line ");
        let n = usize_to_string(error.token.line);
        s.append(n.as_str());
        s.append(" ]");
        proof {
            assert(s@ =~= render_runtime(error@.message, error@.token.line));
        }
        self.diags.push(s);
        self.had_runtime_error = true;
        proof {
            crate::token::lemma_strs_view_push(old(self).diags@, s);
        }
    }

    /// Reset the syntax-error flag; the driver calls this between runs.
    pub fn clear_error(&mut self)
        ensures
            final(self)@ == (LoxM {
                had_error: false,
                had_runtime_error: old(self)@.had_runtime_error,
                diags: old(self)@.diags,
            }),
    {
        self.had_error = false;
    }

    /// The diagnostics recorded so far, in order of occurrence.
    pub fn diagnostics(&self) -> (r: &Vec<String>)
        ensures
            strs_view(r@) == self@.diags,
    {
        &self.diags
    }

    /// Run one complete unit of source text through the pipeline:
    /// scan, parse, and — only if no syntax error has been recorded —
    /// evaluate. Returns the lines the program printed; every diagnostic is
    /// recorded in the sink.
    pub fn run(&mut self, source: &str) -> (out: Vec<String>)
        requires
            source@.len() < usize::MAX,
        ensures
            ({
                let m = run_model(source@, old(self).had_error, old(self).had_runtime_error);
                &&& strs_view(out@) == m.outputs
                &&& final(self)@.diags == old(self)@.diags + m.diags
                &&& final(self)@.had_error == m.had_error
                &&& final(self)@.had_runtime_error == m.had_runtime_error
            }),
    {
        let ghost src = source@;
        let ghost m = run_model(src, old(self).had_error, old(self).had_runtime_error);
        let mut scanner = Scanner::new(source);
        let tokens = scanner.scan_tokens(self);
        proof {
            lemma_scan_model_wf(src);
        }
        let mut parser = Parser::new(tokens);
        let statements: Vec<Stmt> = parser.parse(self);
        let ghost sc = scan_model(src);
        let ghost pr = spec_program(sc.toks, 0);
        if self.had_error {
            let out: Vec<String> = Vec::new();
            proof {
                assert(strs_view(out@) =~= Seq::<Seq<char>>::empty());
                assert(old(self)@.diags + sc.diags + pr.diags =~= old(self)@.diags + (sc.diags
                    + pr.diags));
            }
            return out;
        }
        let mut interpreter = Interpreter::new();
        let out = interpreter.interpret(self, &statements);
        proof {
            let im = interpret_m(stmts_view(statements@));
            assert(old(self)@.diags + sc.diags + pr.diags + im.diags =~= old(self)@.diags + (
            sc.diags + pr.diags + im.diags));
        }
        out
    }

    /// Remove and return the recorded diagnostics, leaving the flags as they
    /// are; the driver prints them after a run.
    pub fn take_diagnostics(&mut self) -> (r: Vec<String>)
        ensures
            strs_view(r@) == old(self)@.diags,
            final(self)@ == (LoxM {
                had_error: old(self)@.had_error,
                had_runtime_error: old(self)@.had_runtime_error,
                diags: Seq::empty(),
            }),
    {
        let mut out: Vec<String> = Vec::new();
        core::mem::swap(&mut out, &mut self.diags);
        proof {
            assert(strs_view(Seq::<String>::empty()) =~= Seq::<Seq<char>>::empty());
        }
        out
    }
}

} // verus!

verus! {

/// What one run of the pipeline yields, as a function of the source text
/// and of the sink's flags before the run: the printed lines, the
/// diagnostics appended, and the flags after.
pub struct RunOut {
    pub outputs: Seq<Seq<char>>,
    pub diags: Seq<Seq<char>>,
    pub had_error: bool,
    pub had_runtime_error: bool,
}

pub open spec fn run_model(src: Seq<char>, old_he: bool, old_re: bool) -> RunOut {
    let sc = scan_model(src);
    let pr = spec_program(sc.toks, 0);
    let he = old_he || sc.diags.len() > 0 || pr.diags.len() > 0;
    if he {
        RunOut {
            outputs: Seq::empty(),
            diags: sc.diags + pr.diags,
            had_error: true,
            had_runtime_error: old_re,
        }
    } else {
        let im = interpret_m(pr.stmts);
        RunOut {
            outputs: im.outputs,
            diags: sc.diags + pr.diags + im.diags,
            had_error: false,
            had_runtime_error: old_re || im.diags.len() > 0,
        }
    }
}

/// Law: re-running the same source text through scan, parse and evaluate,
/// each time from a freshly cleared error sink, produces identical printed
/// output and identical error reports both times — the pipeline is a
/// function of the source text alone, with no hidden carry-over.
pub proof fn lemma_rerun_identical(src: Seq<char>, first: RunOut, second: RunOut)
    requires
        first == run_model(src, false, false),
        second == run_model(src, false, false),
    ensures
        first.outputs == second.outputs,
        first.diags == second.diags,
        first.had_error == second.had_error,
        first.had_runtime_error == second.had_runtime_error,
{
}

} // verus!
