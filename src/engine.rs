//! The boundary with the tree-sitter engine: the Go grammar, compiled
//! queries, and running a query over one file.

use vstd::prelude::*;
use vstd::string::*;
use crate::matcher::{file_entries, reports, Capture, FileError};

verus! {

#[verifier::external_type_specification]
#[verifier::external_body]
pub struct ExLanguageError(tree_sitter::LanguageError);

#[verifier::external_type_specification]
#[verifier::external_body]
pub struct ExParser(tree_sitter::Parser);

#[verifier::external_type_specification]
#[verifier::external_body]
pub struct ExQuery(tree_sitter::Query);

#[verifier::external_type_specification]
#[verifier::external_body]
pub struct ExQueryError(tree_sitter::QueryError);

/// Whether query source compiles for the Go grammar.
pub uninterp spec fn go_query_compiles(source: Seq<char>) -> bool;

/// Relies on tree_sitter::Parser::new: a parser with no language assigned.
#[verifier::external_body]
fn new_parser() -> tree_sitter::Parser {
    tree_sitter::Parser::new()
}

/// Relies on tree_sitter::Parser::set_language with tree_sitter_go::language:
/// the Go grammar is of language version 14, within the 13 to 14 that the
/// engine accepts, so the assignment succeeds.
#[verifier::external_body]
fn assign_go_language(p: &mut tree_sitter::Parser) -> (r: Result<(), tree_sitter::LanguageError>)
    ensures
        r is Ok,
{
    p.set_language(tree_sitter_go::language())
}

/// Relies on tree_sitter::Query::new with tree_sitter_go::language: compiles
/// query source for the Go grammar, or reports why it is not a valid query.
/// On an error that names a node type, field or capture, the engine cuts the
/// name out of the source up to the next character that cannot continue a
/// name, and panics when none follows; a source ending in a line break always
/// has one.
#[verifier::external_body]
fn new_go_query(source: &str) -> (r: Result<tree_sitter::Query, tree_sitter::QueryError>)
    requires
        source@.len() > 0,
        source@.last() == '\n',
    ensures
        r is Ok <==> go_query_compiles(source@),
{
    tree_sitter::Query::new(tree_sitter_go::language(), source)
}

/// Relies on tree_sitter::Query::capture_index_for_name: the position of a
/// capture name among the query's capture names.
#[verifier::external_body]
fn capture_index(q: &tree_sitter::Query, name: &str) -> Option<u32> {
    q.capture_index_for_name(name)
}

/// Relies on the `Display` impl of tree_sitter::QueryError: where in the
/// query source compilation failed, and why.
#[verifier::external_body]
fn query_error_text(e: &tree_sitter::QueryError) -> String {
    format!("{}", e)
}

/// Relies on tree_sitter::Parser::parse and tree_sitter::QueryCursor::matches
/// over the root node of the tree just parsed from `src`: each match found,
/// as its captures with their index, node identity (tree_sitter::Node::id)
/// and byte range. Parsing gives no tree only without a language, after a
/// timeout or on cancellation; a `GoParser` has the Go grammar and sets
/// neither of the others.
#[verifier::external_body]
fn parse_and_match(p: &mut GoParser, q: &tree_sitter::Query, src: &str) -> (r: Option<
    Vec<Vec<Capture>>,
>)
    ensures
        r is Some,
{
    let tree = p.parser.parse(src, None)?;
    let mut cursor = tree_sitter::QueryCursor::new();
    Some(cursor.matches(q, tree.root_node(), src.as_bytes()).map(
        |m| m.captures.iter().map(
            |c| Capture { index: c.index, node: c.node.id(), start: c.node.start_byte(), end: c.node.end_byte() },
        ).collect(),
    ).collect())
}

/// The query source compiled for a user pattern: the pattern with a capture
/// named `full_pattern_cli_capture` on its outermost node, and a line break.
pub open spec fn full_pattern(pattern: Seq<char>) -> Seq<char> {
    pattern + " @full_pattern_cli_capture\n"@
}

/// Builds the query source for a user pattern.
pub fn full_pattern_text(pattern: &str) -> (r: String)
    ensures
        r@ == full_pattern(pattern@),
{
    let mut r = String::from_str(pattern);
    r.append(" @full_pattern_cli_capture\n");
    r
}
/// A user pattern compiled for the Go grammar, with the index of the capture
/// on the outermost node of each match.
pub struct CompiledQuery {
    pub query: tree_sitter::Query,
    pub source: String,
    pub root: u32,
}

/// Why a pattern could not be compiled.
pub enum CompileError {
    /// The engine refused the query source, with its explanation.
    Invalid { message: String },
    /// The compiled query has no root capture.
    NoRootCapture,
}

impl CompileError {
    /// The explanation shown for this error.
    pub fn message(&self) -> (r: String)
        ensures
            self matches CompileError::Invalid { message } ==> r@ == message@,
            self is NoRootCapture ==> r@ == "the pattern has no outermost node to capture"@,
    {
        match self {
            CompileError::Invalid { message } => message.clone(),
            CompileError::NoRootCapture => String::from_str(
                "the pattern has no outermost node to capture",
            ),
        }
    }
}

/// Compiles a user pattern for the Go grammar. It fails with `Invalid`
/// exactly when the engine refuses `full_pattern(pattern)`; a source that
/// compiles can still lack the root capture, as when the pattern ends in a
/// comment that runs over the appended capture.
pub fn compile(pattern: &str) -> (r: Result<CompiledQuery, CompileError>)
    ensures
        (r matches Err(CompileError::Invalid { .. })) <==> !go_query_compiles(full_pattern(pattern@)),
        (r matches Err(CompileError::NoRootCapture)) ==> go_query_compiles(full_pattern(pattern@)),
        r matches Ok(q) ==> go_query_compiles(full_pattern(pattern@)) && q.source@ == full_pattern(
            pattern@,
        ),
{
    let source = full_pattern_text(pattern);
    proof {
        reveal_strlit(" @full_pattern_cli_capture\n");
    }
    match new_go_query(source.as_str()) {
        Err(e) => Err(CompileError::Invalid { message: query_error_text(&e) }),
        Ok(query) => match capture_index(&query, "full_pattern_cli_capture") {
            None => Err(CompileError::NoRootCapture),
            Some(root) => Ok(CompiledQuery { query, source, root }),
        },
    }
}

/// The Go grammar could not be assigned to a parser.
pub struct GrammarError;

/// A parser for Go sources; each worker owns one and reuses it across the
/// files that it processes. It always has the Go grammar assigned.
pub struct GoParser {
    parser: tree_sitter::Parser,
}

impl GoParser {
    /// A parser with the Go grammar assigned; the grammar's version is one
    /// that the engine accepts, so this succeeds.
    pub fn new() -> (r: Result<GoParser, GrammarError>)
        ensures
            r is Ok,
    {
        let mut parser = new_parser();
        match assign_go_language(&mut parser) {
            Ok(()) => Ok(GoParser { parser }),
            Err(_) => Err(GrammarError),
        }
    }

    /// Parses the Go text `src` of the file `path`, runs the query over it,
    /// and formats one entry per node reported. The engine decides which
    /// matches it finds; whatever it found, the result is what `reports`
    /// says of those matches.
    pub fn match_file(&mut self, q: &CompiledQuery, path: &str, src: &str) -> (r: Result<
        Vec<String>,
        FileError,
    >)
        ensures
            exists|ms: Seq<Vec<Capture>>| reports(path@, src@, q.root, ms, r),
    {
        let ms = parse_and_match(self, &q.query, src).unwrap();
        let r = file_entries(path, src, q.root, &ms);
        assert(reports(path@, src@, q.root, ms@, r));
        r
    }
}

} // verus!
