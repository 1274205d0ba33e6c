//! From source text to the result of the program: tokens, tree, diagnostics, run.
use crate::agreement::lemma_program_never_malformed;
use crate::analyzer::{analyze, diagnostics_view, spec_analyze, Diagnostic, DiagnosticView};
use crate::evaluator::{run_program, RuntimeError, RuntimeErrorView, Runtime, Value};
use crate::grammar::{program, Parsed};
use crate::lexer::{tokens_of, Lexer};
use crate::mtree::{Ast, MTree};
use crate::parser::{error_at, ParseError, ParseErrorView, Parser};
use crate::printer::{lemma_parse_print_parse, lemma_round_trip, program_tokens, write_program};
use crate::shape::{is_program, lemma_program_shape};
use crate::tokens::{tokens_view, TCodeView, TLoc, Token, TokenView};
use vstd::prelude::*;

verus! {

/// A fatal error, with the stage that it ended.
#[derive(Debug)]
pub enum Fatal {
    /// The source text is no program.
    Parse(ParseError),
    /// The run of the program failed.
    Evaluation(RuntimeError),
}

/// What a `Fatal` stands for.
pub ghost enum FatalView {
    Parse(ParseErrorView),
    Evaluation(RuntimeErrorView),
}

impl View for Fatal {
    type V = FatalView;

    open spec fn view(&self) -> FatalView {
        match self {
            Fatal::Parse(e) => FatalView::Parse(e@),
            Fatal::Evaluation(e) => FatalView::Evaluation(e@),
        }
    }
}

impl Fatal {
    /// The message that reports the error to a reader.
    pub fn message(&self) -> (s: String)
        ensures
            s@ == match self@ {
                FatalView::Parse(e) => e.message(),
                FatalView::Evaluation(e) => e.message(),
            },
    {
        match self {
            Fatal::Parse(e) => e.message(),
            Fatal::Evaluation(e) => e.message(),
        }
    }
}

/// What the execution of a source text has yielded: the diagnostics of the analyzer, the
/// values printed, and the value of `main` or the error that ended the execution.
#[derive(Debug)]
pub struct Execution {
    pub diagnostics: Vec<Diagnostic>,
    pub output: Vec<Value>,
    pub result: Result<Value, Fatal>,
}

/// What an `Execution` stands for.
pub ghost struct ExecutionView {
    pub diagnostics: Seq<DiagnosticView>,
    pub output: Seq<Value>,
    pub result: Result<Value, FatalView>,
}

impl View for Execution {
    type V = ExecutionView;

    open spec fn view(&self) -> ExecutionView {
        ExecutionView {
            diagnostics: diagnostics_view(self.diagnostics@),
            output: self.output@,
            result: match self.result {
                Ok(v) => Ok(v),
                Err(e) => Err(e@),
            },
        }
    }
}

/// The tree that a source text writes, or the error that its parse ends with.
pub open spec fn parse_of(source: Seq<char>) -> Result<Ast, ParseErrorView> {
    let tokens = tokens_of(source);
    match program(token_codes(tokens), 0) {
        Parsed::Done { value, used } => Ok(value),
        Parsed::Failed(f) => Err(error_at(tokens, f)),
    }
}

/// The codes of a sequence of tokens.
pub open spec fn token_codes(tokens: Seq<TokenView>) -> Seq<crate::tokens::TCodeView> {
    tokens.map_values(|t: TokenView| t.code)
}

/// The execution of a source text with a budget of `fuel` calls and loop repetitions. A
/// text that is no program is not executed. The diagnostics of the analyzer do not keep a
/// program from running.
pub open spec fn execution_of(source: Seq<char>, fuel: nat) -> ExecutionView {
    match parse_of(source) {
        Ok(tree) => {
            let run = run_program(tree, Seq::empty(), Seq::empty(), fuel);
            ExecutionView {
                diagnostics: spec_analyze(tree),
                output: run.output,
                result: match run.result {
                    Ok(v) => Ok(v),
                    Err(e) => Err(FatalView::Evaluation(e)),
                },
            }
        },
        Err(e) => ExecutionView {
            diagnostics: Seq::empty(),
            output: Seq::empty(),
            result: Err(FatalView::Parse(e)),
        },
    }
}

/// `r` is what parsing `source` returns: the tree that the text writes, or the error that
/// its parse ends with.
pub open spec fn is_parse_of(r: Result<MTree, ParseError>, source: Seq<char>) -> bool {
    match r {
        Ok(tree) => parse_of(source) == Ok::<Ast, ParseErrorView>(tree@),
        Err(e) => parse_of(source) == Err::<Ast, ParseErrorView>(e@),
    }
}

/// The shape of the tree is determined by the text: two parses of one source text return
/// structurally equal trees, or fail with equal errors.
pub proof fn lemma_parse_deterministic(
    source: Seq<char>,
    first: Result<MTree, ParseError>,
    second: Result<MTree, ParseError>,
)
    requires
        is_parse_of(first, source),
        is_parse_of(second, source),
    ensures
        match (first, second) {
            (Ok(a), Ok(b)) => a@ == b@,
            (Err(a), Err(b)) => a@ == b@,
            _ => false,
        },
{
}

/// The tokens of a source text, up to and with the end of input.
pub fn tokenize_source(source: &str) -> (tokens: Vec<Token>)
    requires
        source@.len() < usize::MAX,
    ensures
        tokens_view(tokens@) == tokens_of(source@),
{
    let mut lexer = Lexer::new(source);
    lexer.tokenize()
}

/// Parses a source text. A tree that it returns has the shape of a program.
pub fn parse_source(source: &str) -> (r: Result<MTree, ParseError>)
    requires
        source@.len() < usize::MAX,
    ensures
        is_parse_of(r, source@),
        r matches Ok(tree) ==> is_program(tree@),
{
    let lexer = Lexer::new(source);
    let mut parser = Parser::new(lexer);
    assert(parser.codes() =~= token_codes(tokens_of(source@)));
    proof {
        lemma_program_shape(parser.codes(), 0);
    }
    parser.parse()
}

/// The tokens that write a tree as a program, ended by the end of input.
pub open spec fn written(tree: Ast) -> Seq<TCodeView> {
    program_tokens(tree) + seq![TCodeView::EOI]
}

/// Round trip: the tree of a source text, written as tokens and parsed again, is that
/// tree.
pub proof fn lemma_source_round_trip(source: Seq<char>)
    ensures
        parse_of(source) matches Ok(tree) ==> program(written(tree), 0) == (Parsed::Done {
            value: tree,
            used: program_tokens(tree).len(),
        }),
{
    lemma_parse_print_parse(token_codes(tokens_of(source)), 0);
}

/// Writes a tree as tokens and parses the tokens. For a tree that has the shape of a
/// program, and so for every tree that a parse has returned, the result is that tree
/// again. The tokens written have no location, and an error has none either.
pub fn reparse(tree: &MTree) -> (r: Result<MTree, ParseError>)
    ensures
        match program(written(tree@), 0) {
            Parsed::Done { value, used } => (r matches Ok(again) && again@ == value),
            Parsed::Failed(f) => (r matches Err(e) && e@.expected == f.expected && e@.found
                == crate::grammar::tok(written(tree@), f.at) && e@.loc == TLoc::spec_empty()),
        },
        is_program(tree@) ==> (r matches Ok(again) && again@ == tree@),
{
    let tokens = write_program(tree);
    assert(tokens@.last().code@ == crate::tokens::codes_of(tokens@).last());
    let mut parser = Parser::from_tokens(tokens);
    assert(parser.views().map_values(|t: TokenView| t.code) =~= parser.codes());
    proof {
        if is_program(tree@) {
            lemma_round_trip(tree@);
        }
    }
    parser.parse()
}

/// Executes a source text: parses it, analyzes the tree, and runs the program whatever the
/// analyzer has found. The run of a text that parses does not fail for the shape of its
/// tree.
pub fn execute(source: &str, fuel: u64) -> (done: Execution)
    requires
        source@.len() < usize::MAX,
    ensures
        done@ == execution_of(source@, fuel as nat),
        !(done@.result matches Err(FatalView::Evaluation(RuntimeErrorView::Malformed))),
{
    match parse_source(source) {
        Ok(tree) => {
            let diagnostics = analyze(&tree);
            let mut runtime = Runtime::new();
            assert(runtime.table() =~= Seq::empty());
            assert(runtime.output@ =~= Seq::empty());
            proof {
                lemma_program_never_malformed(tree@, Seq::empty(), Seq::empty(), fuel as nat);
            }
            let result = match runtime.run_program(&tree, fuel) {
                Ok(v) => Ok(v),
                Err(e) => Err(Fatal::Evaluation(e)),
            };
            let Runtime { functions: _, output } = runtime;
            Execution { diagnostics, output, result }
        },
        Err(e) => {
            let done = Execution {
                diagnostics: Vec::new(),
                output: Vec::new(),
                result: Err(Fatal::Parse(e)),
            };
            assert(done@.diagnostics =~= Seq::empty());
            done
        },
    }
}

} // verus!
