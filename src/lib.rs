pub mod arithmetic_operation;
pub mod ast;
pub mod command_ast;
pub mod comparison_operation;
pub mod compiler;
pub mod evaluater;
pub mod logical_operation;
pub mod round_trip;
pub mod runtime;
pub mod scoreboard;
pub mod serialiser;
pub mod syntax_analyser;
pub mod text;
pub mod tokeniser;
pub mod types;

use vstd::prelude::*;
use crate::compiler::{CompileError, Compiler};
use crate::scoreboard::is_lower_id;
use crate::serialiser::MCFunction;
use crate::syntax_analyser::SyntaxAnalyser;
use crate::text::texts;
use crate::tokeniser::{Token, tokenize};
use crate::types::{Type, BLOCK_ID_LEN};

verus! {

/// Compiles a source text: its tokens are read as one block, which becomes the root function
/// under the namespace `MCPP`. Returns every function generated for nested blocks, in the order
/// they were finished, followed by the root function.
pub fn compile(input: &str) -> (r: Result<Vec<MCFunction>, CompileError>)
    ensures
        r is Ok ==> r->Ok_0@.len() >= 1
            && r->Ok_0@.last().path@.len() == 0
            && is_lower_id(r->Ok_0@.last().name@, BLOCK_ID_LEN as nat)
            && r->Ok_0@.last().returning_type == Type::NoneType,
{
    let mut inside: Vec<Token> = Vec::new();
    inside.push(Token::LBrace);
    let mut body = tokenize(input.to_string());
    inside.append(&mut body);
    inside.push(Token::RBrace);
    let mut analyser = SyntaxAnalyser::new(inside);
    let mut compiler = Compiler::new("MCPP");
    let block = match analyser.get_block() {
        Ok(o) => o,
        Err(e) => return Err(CompileError::ASyntaxErrorOccured(e)),
    };
    let root = match block.mcfunctionate(&mut compiler) {
        Ok(f) => f,
        Err(e) => return Err(e),
    };
    assert(texts(root.path@).len() == 0);
    let mut out = compiler.compiled;
    out.push(root);
    Ok(out)
}

} // verus!
