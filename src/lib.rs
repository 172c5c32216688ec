use vstd::prelude::*;

pub mod ast;
pub mod lexer;
pub mod midigen;
pub mod parser;
pub mod semantic;
pub mod soundgen;
mod text;

use crate::ast::{decls_view, TopLevel};
use crate::lexer::{lex, tokenize};
use crate::midigen::{
    song_file_name, song_result_file, tables_of, GenerationError, MidiGen, SongFile, TablesV,
};
use crate::parser::{decls_from, ParseError, Parser};
use crate::semantic::{has_duplicate, sections_ok, songs_ok, Semantic, SemanticError};

verus! {

/// Why a source text does not compile, by stage.
#[derive(Clone, Debug)]
pub enum CompileError {
    Parse(ParseError),
    Semantic(SemanticError),
    Generation(GenerationError),
}

/// Whether compilation stopped at validation.
pub open spec fn rejected(r: Result<Vec<SongFile>, CompileError>) -> bool {
    r matches Err(CompileError::Semantic(_))
}

/// `r` is what generating every song of `tables` gives: all files, in
/// declaration order, or the first song's failure.
pub open spec fn generated(tables: TablesV, r: Result<Vec<SongFile>, CompileError>) -> bool {
    match r {
        Ok(v) => {
            &&& v@.len() == tables.songs.len()
            &&& forall|k: int|
                0 <= k < v@.len() ==> #[trigger] v@[k].file_name@ == song_file_name(tables.songs[k].name)
                    && Ok::<Seq<u8>, GenerationError>(v@[k].bytes@) == song_result_file(tables, k)
        },
        Err(CompileError::Generation(e)) => exists|k: int|
            0 <= k < tables.songs.len() && #[trigger] song_result_file(tables, k) == Err::<Seq<u8>, GenerationError>(e)
                && forall|j: int| 0 <= j < k ==> song_result_file(tables, j) is Ok,
        Err(_) => false,
    }
}

/// Compiles a source text: tokens, declarations, validation, then one file per song.
/// Nothing is generated unless the declarations pass validation.
pub fn compile(source: &str) -> (r: Result<Vec<SongFile>, CompileError>)
    ensures
        match decls_from(lex(source@), 0) {
            Err(e) => r == Err::<Vec<SongFile>, CompileError>(CompileError::Parse(e)),
            Ok(ds) => {
                &&& (has_duplicate(ds) || !sections_ok(ds) || !songs_ok(ds)) <==> rejected(r)
                &&& !rejected(r) ==> generated(tables_of(ds), r)
            },
        },
{
    let tokens = tokenize(source);
    let mut parser = Parser::new(tokens);
    let ast: Vec<TopLevel> = match parser.parse() {
        Ok(ast) => ast,
        Err(e) => {
            return Err(CompileError::Parse(e));
        },
    };
    let ghost ast_view = ast@;
    let generator = MidiGen::new(ast.as_slice());
    let mut semantic = match Semantic::new(ast) {
        Ok(s) => s,
        Err(e) => {
            return Err(CompileError::Semantic(e));
        },
    };
    match semantic.analyze() {
        Ok(()) => {},
        Err(e) => {
            return Err(CompileError::Semantic(e));
        },
    }
    assert(generator@ == tables_of(decls_view(ast_view)));
    match generator.generate() {
        Ok(files) => Ok(files),
        Err(e) => Err(CompileError::Generation(e)),
    }
}

} // verus!
