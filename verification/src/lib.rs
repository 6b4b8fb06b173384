//! SGA programming language: lexer, parser, semantic analysis, gradual
//! type checking, bytecode generation and bytecode verification.
//!
//! The pipeline from source text to a verified compiled program is
//! `compile_source`: text -> tokens -> AST -> (refusal of `IMPORT`, which
//! needs a file context) -> semantic analysis -> type checking -> bytecode.
use vstd::prelude::*;

pub mod text;
pub mod sga_alphabet;
pub mod lexer;
pub mod lexer_laws;
pub mod ast;
pub mod parser;
pub mod parser_laws;
pub mod runtime;
pub mod runtime_laws;
pub mod semantic;
pub mod semantic_laws;
pub mod typechecker;
pub mod typechecker_laws;
pub mod codegen;
pub mod codegen_laws;
pub mod module_resolver;
pub mod module_resolver_laws;
pub mod json;
pub mod json_laws;
pub mod translit;
pub mod stdlib;
pub mod stdlib_laws;
pub mod env;
pub mod env_laws;

use ast::{Stmt, StmtV, stmts_view};
use codegen::spec_compile;
use lexer::{lex_error_text, spec_tokenize, tokens_view, Lexer};
use lexer::token::Token;
use parser::{parse_error_text, spec_parse_program, Parser};
use runtime::{CompiledProgram, ProgramV, program_view};
use semantic::{initial_sem, spec_analyze, Analyzer};
use text::push_str;
use typechecker::{initial_ty, spec_typecheck, Typechecker};

verus! {

/// An error of the pipeline, by stage, with the text shown to the user.
#[derive(Debug)]
pub enum SgaError {
    Lex(String),
    Parse(String),
    Import(String),
    Semantic(String),
    Type(String),
    Runtime(String),
}

/// The value of a pipeline error.
pub enum SgaErrV {
    Lex(Seq<char>),
    Parse(Seq<char>),
    Import(Seq<char>),
    Semantic(Seq<char>),
    Type(Seq<char>),
    Runtime(Seq<char>),
}

impl View for SgaError {
    type V = SgaErrV;

    open spec fn view(&self) -> SgaErrV {
        match self {
            SgaError::Lex(s) => SgaErrV::Lex(s@),
            SgaError::Parse(s) => SgaErrV::Parse(s@),
            SgaError::Import(s) => SgaErrV::Import(s@),
            SgaError::Semantic(s) => SgaErrV::Semantic(s@),
            SgaError::Type(s) => SgaErrV::Type(s@),
            SgaError::Runtime(s) => SgaErrV::Runtime(s@),
        }
    }
}

/// The text of a pipeline error.
pub open spec fn sga_error_text(e: SgaErrV) -> Seq<char> {
    match e {
        SgaErrV::Lex(s) => s,
        SgaErrV::Parse(s) => s,
        SgaErrV::Import(s) => s,
        SgaErrV::Semantic(s) => s,
        SgaErrV::Type(s) => s,
        SgaErrV::Runtime(s) => s,
    }
}

impl SgaError {
    /// The error as it is shown to the user.
    pub fn describe(&self) -> (r: String)
        ensures
            r@ == sga_error_text(self@),
    {
        let mut m = String::new();
        match self {
            SgaError::Lex(s) | SgaError::Parse(s) | SgaError::Import(s) | SgaError::Semantic(s) | SgaError::Type(s)
            | SgaError::Runtime(s) => push_str(&mut m, s.as_str()),
        }
        m
    }
}

/// The path of the first top-level `IMPORT` of a program.
pub open spec fn first_import(v: Seq<StmtV>) -> Option<Seq<char>>
    decreases v.len(),
{
    if v.len() == 0 {
        None
    } else {
        match first_import(v.drop_last()) {
            Some(p) => Some(p),
            None => match v.last() {
                StmtV::Import(p) => Some(p),
                _ => None,
            },
        }
    }
}

/// The message for an `IMPORT` in a program that has no file to resolve it
/// against.
pub open spec fn msg_no_file_context(path: Seq<char>) -> Seq<char> {
    "IMPORT \""@ + path
        + "\" использован в run_source(), у которого нет файлового контекста для резолвинга путей; используйте run_source_file()"@
}

/// Refuses the first top-level `IMPORT`: a program given as text has no
/// file context against which to resolve its path. (`IMPORT` is accepted
/// only at the top level.)
pub fn reject_imports(program: &Vec<Stmt>) -> (r: Result<(), SgaError>)
    ensures
        match first_import(stmts_view(program@)) {
            Some(p) => r matches Err(SgaError::Import(m)) && m@ == msg_no_file_context(p),
            None => r is Ok,
        },
{
    let ghost v = stmts_view(program@);
    proof { ast::lemma_stmts_view_index(program@); }
    let mut i: usize = 0;
    assert(v.take(0) =~= Seq::<StmtV>::empty());
    while i < program.len()
        invariant
            i <= program.len(),
            v == stmts_view(program@),
            v.len() == program.len(),
            forall|j: int| 0 <= j < program.len() ==> #[trigger] v[j] == ast::stmt_view(program@[j]),
            first_import(v.take(i as int)).is_none(),
        decreases program.len() - i,
    {
        assert(v.take(i + 1).drop_last() =~= v.take(i as int));
        assert(v.take(i + 1).last() == ast::stmt_view(program@[i as int]));
        match &program[i] {
            Stmt::Import(path) => {
                proof { lemma_first_import_prefix(v, i + 1); }
                let mut m = String::new();
                push_str(&mut m, "IMPORT \"");
                push_str(&mut m, path.as_str());
                push_str(
                    &mut m,
                    "\" использован в run_source(), у которого нет файлового контекста для резолвинга путей; используйте run_source_file()",
                );
                return Err(SgaError::Import(m));
            },
            _ => {},
        }
        i = i + 1;
    }
    assert(v.take(program.len() as int) =~= v);
    Ok(())
}

/// An `IMPORT` in a prefix is the first `IMPORT` of the whole program.
pub proof fn lemma_first_import_prefix(v: Seq<StmtV>, k: int)
    requires
        0 <= k <= v.len(),
        first_import(v.take(k)) is Some,
    ensures
        first_import(v) == first_import(v.take(k)),
    decreases v.len(),
{
    if k == v.len() {
        assert(v.take(k) =~= v);
    } else {
        assert(v.drop_last().take(k) =~= v.take(k));
        lemma_first_import_prefix(v.drop_last(), k);
    }
}

/// The outcome of the checks and the compilation of a parsed program.
pub open spec fn spec_check_program(v: Seq<StmtV>) -> Result<ProgramV, SgaErrV> {
    match spec_analyze(initial_sem(), v) {
        Err(m) => Err(SgaErrV::Semantic("ошибка семантики: "@ + m)),
        Ok(_) => match spec_typecheck(initial_ty(), v) {
            Err(m) => Err(SgaErrV::Type("ошибка типов: "@ + m)),
            Ok(_) => Ok(spec_compile(v)),
        },
    }
}

/// The outcome of the pipeline for a parsed program given as text.
pub open spec fn spec_after_parse(v: Seq<StmtV>) -> Result<ProgramV, SgaErrV> {
    match first_import(v) {
        Some(p) => Err(SgaErrV::Import(msg_no_file_context(p))),
        None => spec_check_program(v),
    }
}

/// The value of a pipeline result.
pub open spec fn compiled_res(r: Result<CompiledProgram, SgaError>) -> Result<ProgramV, SgaErrV> {
    match r {
        Ok(p) => Ok(program_view(p)),
        Err(e) => Err(e@),
    }
}

/// Source text to AST: the lexer, then the parser.
pub fn parse_source(source: &str) -> (r: Result<Vec<Stmt>, SgaError>)
    requires
        source@.len() < usize::MAX,
    ensures
        match spec_tokenize(source@) {
            Err(e) => r matches Err(SgaError::Lex(m)) && m@ == lex_error_text(e),
            Ok(tv) => exists|toks: Seq<Token>|
                #![trigger tokens_view(toks)]
                tokens_view(toks) == tv && match spec_parse_program(toks) {
                    Err(pe) => r matches Err(SgaError::Parse(m)) && m@ == parse_error_text(pe),
                    Ok(v) => r matches Ok(p) && stmts_view(p@) == v,
                },
        },
{
    let lx = Lexer::new(source);
    let tokens = match lx.tokenize() {
        Ok(t) => t,
        Err(e) => return Err(SgaError::Lex(e.describe())),
    };
    proof {
        lexer::lemma_tokenize_ends_with_eof(source@);
        assert(tokens_view(tokens@).last() == tokens@.last()@);
    }
    let ghost toks = tokens@;
    let mut p = Parser::new(tokens);
    let r = match p.parse_program() {
        Ok(prog) => Ok(prog),
        Err(e) => Err(SgaError::Parse(e.describe())),
    };
    assert(tokens_view(toks) == tokens_view(toks));
    r
}

/// The checks and the compilation of a parsed program: semantic analysis,
/// then type checking, then code generation.
pub fn check_program(program: &Vec<Stmt>) -> (r: Result<CompiledProgram, SgaError>)
    ensures
        compiled_res(r) == spec_check_program(stmts_view(program@)),
        r matches Ok(p) ==> runtime::spec_verify_program(program_view(p)) is Ok,
{
    let mut an = Analyzer::new();
    match an.analyze(program.as_slice()) {
        Err(e) => return Err(SgaError::Semantic(e.describe())),
        Ok(_) => {},
    }
    let mut tc = Typechecker::new();
    match tc.analyze(program.as_slice()) {
        Err(e) => return Err(SgaError::Type(e.describe())),
        Ok(_) => {},
    }
    Ok(codegen::compile(program))
}

/// The whole pipeline for a program given as text: parsing, refusal of
/// `IMPORT`, semantic analysis, type checking and code generation. The
/// compiled program passes the bytecode verifier.
pub fn compile_source(source: &str) -> (r: Result<CompiledProgram, SgaError>)
    requires
        source@.len() < usize::MAX,
    ensures
        match spec_tokenize(source@) {
            Err(e) => compiled_res(r) == Err::<ProgramV, SgaErrV>(SgaErrV::Lex(lex_error_text(e))),
            Ok(tv) => exists|toks: Seq<Token>|
                #![trigger tokens_view(toks)]
                tokens_view(toks) == tv && match spec_parse_program(toks) {
                    Err(pe) => compiled_res(r) == Err::<ProgramV, SgaErrV>(SgaErrV::Parse(parse_error_text(pe))),
                    Ok(v) => compiled_res(r) == spec_after_parse(v),
                },
        },
        r matches Ok(p) ==> runtime::spec_verify_program(program_view(p)) is Ok,
{
    let program = match parse_source(source) {
        Ok(p) => p,
        Err(e) => return Err(e),
    };
    match reject_imports(&program) {
        Err(e) => return Err(e),
        Ok(_) => {},
    }
    check_program(&program)
}

/// The program that `sga init` puts in a new project: it binds a greeting
/// and prints it.
pub fn encode_hello_world() -> (r: String)
    ensures
        r@ == sga_alphabet::spec_encode_word("LET"@) + " message = \"Hello, SGA!\";\n"@
            + sga_alphabet::spec_encode_word("PRINT"@) + "(message);\n"@,
{
    let mut r = sga_alphabet::encode_word("LET");
    push_str(&mut r, " message = \"Hello, SGA!\";\n");
    let p = sga_alphabet::encode_word("PRINT");
    push_str(&mut r, p.as_str());
    push_str(&mut r, "(message);\n");
    r
}

} // verus!
