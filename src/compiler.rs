//! The compile session and its errors.
use vstd::prelude::*;
use crate::ast::SyntaxError;
use crate::command_ast::{CmdView, CommandAST, cmds_view, extend_commands};
use crate::evaluater::Oper;
use crate::serialiser::{IToken, ITokView, MCFunction};
use crate::scoreboard::{Scoreboard, ScoreboardView};
use crate::command_ast::target_of;
use crate::command_ast::{FormulaConstructer, frees_of, boards_view};
use crate::text::{texts, copy_texts};
use crate::syntax_analyser::SyntaxAnalyser;
use crate::tokeniser::tokenize;
use crate::command_ast::lines_render;
use crate::tokeniser::Token;
use crate::types::{Type, type_label};
use crate::ast::syntax_message;
use crate::tokeniser::{token_text, TokView};
use crate::serialiser::itoken_text;
use crate::text::push_text;

verus! {

/// Why a compile failed.
#[derive(Debug)]
pub enum CompileError {
    ASyntaxErrorOccured(SyntaxError),
    InvalidTokenInAFormula(Token),
    EmptyFormulaGiven,
    UndefinedIdentifierReferenced(String),
    UnknownTypeSpecialised(Token),
    LHSDoesntSatisfyValidFormat,
    InvalidRHS(IToken),
    TheTokenIsntValue(IToken),
    InvalidFormulaStructure(String),
    UnsupportedLiteralType(IToken),
    UndefinedOperation(Type, Oper, Type),
    UnbalancedParentheses,
    TheTypeOfAIndentifierWontBeConfirmed(String),
}

/// What a compile error is: its variant and what it carries, with tokens and texts as views.
pub enum ErrView {
    ASyntaxErrorOccured(SyntaxError),
    InvalidTokenInAFormula(TokView),
    EmptyFormulaGiven,
    UndefinedIdentifierReferenced(Seq<char>),
    UnknownTypeSpecialised(TokView),
    LHSDoesntSatisfyValidFormat,
    InvalidRHS(ITokView),
    TheTokenIsntValue(ITokView),
    InvalidFormulaStructure(Seq<char>),
    UnsupportedLiteralType(ITokView),
    UndefinedOperation(Type, Oper, Type),
    UnbalancedParentheses,
    TheTypeOfAIndentifierWontBeConfirmed(Seq<char>),
}

impl View for CompileError {
    type V = ErrView;

    open spec fn view(&self) -> ErrView {
        match self {
            CompileError::ASyntaxErrorOccured(e) => ErrView::ASyntaxErrorOccured(*e),
            CompileError::InvalidTokenInAFormula(t) => ErrView::InvalidTokenInAFormula(t@),
            CompileError::EmptyFormulaGiven => ErrView::EmptyFormulaGiven,
            CompileError::UndefinedIdentifierReferenced(s) => ErrView::UndefinedIdentifierReferenced(s@),
            CompileError::UnknownTypeSpecialised(t) => ErrView::UnknownTypeSpecialised(t@),
            CompileError::LHSDoesntSatisfyValidFormat => ErrView::LHSDoesntSatisfyValidFormat,
            CompileError::InvalidRHS(t) => ErrView::InvalidRHS(t@),
            CompileError::TheTokenIsntValue(t) => ErrView::TheTokenIsntValue(t@),
            CompileError::InvalidFormulaStructure(s) => ErrView::InvalidFormulaStructure(s@),
            CompileError::UnsupportedLiteralType(t) => ErrView::UnsupportedLiteralType(t@),
            CompileError::UndefinedOperation(l, o, r) => ErrView::UndefinedOperation(*l, *o, *r),
            CompileError::UnbalancedParentheses => ErrView::UnbalancedParentheses,
            CompileError::TheTypeOfAIndentifierWontBeConfirmed(s) => ErrView::TheTypeOfAIndentifierWontBeConfirmed(s@),
        }
    }
}

/// A compile error as a message.
pub open spec fn compile_message(e: CompileError) -> Seq<char> {
    match e {
        CompileError::ASyntaxErrorOccured(a) => syntax_message(a),
        CompileError::InvalidTokenInAFormula(t) => "An invalid token, "@ + token_text(t) + " exists in the formula."@,
        CompileError::EmptyFormulaGiven => "An empty formula was given."@,
        CompileError::UndefinedIdentifierReferenced(id) => "A identifer, "@ + id@ + " was referenced but undefined."@,
        CompileError::UnknownTypeSpecialised(t) => "A token, "@ + token_text(t) + " isn't valid as type specifier."@,
        CompileError::LHSDoesntSatisfyValidFormat => "The left hand side doesn't satisfy the valid format."@,
        CompileError::InvalidRHS(t) => "The rhs, "@ + itoken_text(t) + " can't be assined onto the lhs."@,
        CompileError::TheTokenIsntValue(t) => "The token, "@ + itoken_text(t) + " isn't value."@,
        CompileError::InvalidFormulaStructure(s) => s@,
        CompileError::UnsupportedLiteralType(t) => "The token, "@ + itoken_text(t) + " isn't supported as a literal type."@,
        CompileError::UndefinedOperation(l, o, h) => "An unsupported calcation occured, "@ + type_label(l) + " "@
            + o.text() + " "@ + type_label(h),
        CompileError::UnbalancedParentheses => "The number of opening and closing parentheses does not match."@,
        CompileError::TheTypeOfAIndentifierWontBeConfirmed(t) => "The type of an identifer, "@ + t@
            + " won't be confirmed at the time of compiling."@,
    }
}

impl CompileError {
    /// The error as a message.
    pub fn message(&self) -> (r: String)
        ensures
            r@ == compile_message(*self),
    {
        let mut s = String::new();
        match self {
            CompileError::ASyntaxErrorOccured(a) => {
                push_text(&mut s, a.message().as_str());
            },
            CompileError::InvalidTokenInAFormula(t) => {
                push_text(&mut s, "An invalid token, ");
                push_text(&mut s, t.text().as_str());
                push_text(&mut s, " exists in the formula.");
            },
            CompileError::EmptyFormulaGiven => push_text(&mut s, "An empty formula was given."),
            CompileError::UndefinedIdentifierReferenced(id) => {
                push_text(&mut s, "A identifer, ");
                push_text(&mut s, id.as_str());
                push_text(&mut s, " was referenced but undefined.");
            },
            CompileError::UnknownTypeSpecialised(t) => {
                push_text(&mut s, "A token, ");
                push_text(&mut s, t.text().as_str());
                push_text(&mut s, " isn't valid as type specifier.");
            },
            CompileError::LHSDoesntSatisfyValidFormat => push_text(&mut s, "The left hand side doesn't satisfy the valid format."),
            CompileError::InvalidRHS(t) => {
                push_text(&mut s, "The rhs, ");
                push_text(&mut s, t.text().as_str());
                push_text(&mut s, " can't be assined onto the lhs.");
            },
            CompileError::TheTokenIsntValue(t) => {
                push_text(&mut s, "The token, ");
                push_text(&mut s, t.text().as_str());
                push_text(&mut s, " isn't value.");
            },
            CompileError::InvalidFormulaStructure(m) => push_text(&mut s, m.as_str()),
            CompileError::UnsupportedLiteralType(t) => {
                push_text(&mut s, "The token, ");
                push_text(&mut s, t.text().as_str());
                push_text(&mut s, " isn't supported as a literal type.");
            },
            CompileError::UndefinedOperation(l, o, h) => {
                push_text(&mut s, "An unsupported calcation occured, ");
                push_text(&mut s, l.name());
                push_text(&mut s, " ");
                push_text(&mut s, o.to_str());
                push_text(&mut s, " ");
                push_text(&mut s, h.name());
            },
            CompileError::UnbalancedParentheses => push_text(&mut s, "The number of opening and closing parentheses does not match."),
            CompileError::TheTypeOfAIndentifierWontBeConfirmed(t) => {
                push_text(&mut s, "The type of an identifer, ");
                push_text(&mut s, t.as_str());
                push_text(&mut s, " won't be confirmed at the time of compiling.");
            },
        }
        assert(s@ =~= compile_message(*self));
        s
    }
}

/// The result of a lowering, with errors as their views.
pub open spec fn outcome<T>(r: Result<T, CompileError>) -> Result<T, ErrView> {
    match r {
        Ok(v) => Ok(v),
        Err(e) => Err(e@),
    }
}

/// The commands of a lowering and its errors, as their views.
pub open spec fn lowered(r: Result<Vec<CommandAST>, CompileError>) -> Result<Seq<CmdView>, ErrView> {
    match r {
        Ok(v) => Ok(cmds_view(v@)),
        Err(e) => Err(e@),
    }
}

/// A compile session: the namespace of the emitted functions, the functions generated so far,
/// the live variables in declaration order, the callable functions, and the current block path.
pub struct Compiler {
    pub namespace: String,
    pub compiled: Vec<MCFunction>,
    pub variables: Vec<Scoreboard>,
    pub functions: Vec<MCFunction>,
    pub scope: Vec<String>,
}

/// The first variable named `name`.
pub open spec fn lookup(vars: Seq<ScoreboardView>, name: Seq<char>) -> Option<ScoreboardView>
    decreases vars.len(),
{
    if vars.len() == 0 {
        None
    } else if vars[0].name == name {
        Some(vars[0])
    } else {
        lookup(vars.skip(1), name)
    }
}

impl Compiler {
    pub open spec fn vars(&self) -> Seq<ScoreboardView> {
        boards_view(self.variables@)
    }

    /// No live variable lies deeper than the current block, and the live variables are in
    /// order of depth (an inner block's variables come after its enclosing blocks').
    pub open spec fn wf(&self) -> bool {
        &&& forall|k: int| 0 <= k < self.variables@.len() ==> (#[trigger] self.variables@[k]).scope@.len() <= self.scope@.len()
        &&& forall|i: int, j: int| 0 <= i <= j < self.variables@.len()
            ==> (#[trigger] self.variables@[i]).scope@.len() <= (#[trigger] self.variables@[j]).scope@.len()
    }

    /// A fresh session for the namespace.
    pub fn new(namespace: &str) -> (r: Compiler)
        ensures
            r.namespace@ == namespace@,
            r.compiled@.len() == 0,
            r.variables@.len() == 0,
            r.functions@.len() == 0,
            r.scope@.len() == 0,
            r.wf(),
    {
        Compiler {
            namespace: namespace.to_string(),
            compiled: Vec::new(),
            variables: Vec::new(),
            functions: Vec::new(),
            scope: Vec::new(),
        }
    }

    /// The position of the first live variable named `name`.
    pub fn get_score_index(&self, name: &String) -> (r: Option<usize>)
        ensures
            match r {
                Some(i) => i < self.variables@.len() && lookup(self.vars(), name@) == Some(self.vars()[i as int]),
                None => lookup(self.vars(), name@) is None,
            },
    {
        let mut i: usize = 0;
        assert(self.vars().skip(0) =~= self.vars());
        while i < self.variables.len()
            invariant
                0 <= i <= self.variables@.len(),
                lookup(self.vars(), name@) == lookup(self.vars().skip(i as int), name@),
            decreases self.variables@.len() - i,
        {
            let ghost rest = self.vars().skip(i as int);
            assert(rest[0] == self.vars()[i as int]);
            if self.variables[i].name == *name {
                return Some(i);
            }
            assert(rest.skip(1) =~= self.vars().skip(i + 1));
            i = i + 1;
        }
        None
    }

    /// The first live variable named `name`.
    pub fn get_score(&self, name: &String) -> (r: Option<&Scoreboard>)
        ensures
            match r {
                Some(b) => lookup(self.vars(), name@) == Some(b@),
                None => lookup(self.vars(), name@) is None,
            },
    {
        match self.get_score_index(name) {
            Some(i) => Some(&self.variables[i]),
            None => None,
        }
    }

    /// The first callable function named `name`.
    pub fn get_func(&self, name: &String) -> (r: Option<&MCFunction>)
        ensures
            match r {
                Some(f) => f.name@ == name@ && exists|k: int| 0 <= k < self.functions@.len() && #[trigger] self.functions@[k] == *f,
                None => forall|k: int| 0 <= k < self.functions@.len() ==> #[trigger] self.functions@[k].name@ != name@,
            },
    {
        let mut i: usize = 0;
        while i < self.functions.len()
            invariant
                0 <= i <= self.functions@.len(),
                forall|k: int| 0 <= k < i ==> #[trigger] self.functions@[k].name@ != name@,
            decreases self.functions@.len() - i,
        {
            if self.functions[i].name == *name {
                return Some(&self.functions[i]);
            }
            i = i + 1;
        }
        None
    }

    /// Compiles a source block (braces included) in this session and returns the text of its
    /// function's body.
    pub fn evaluate(self, target: String) -> (r: Result<String, CompileError>)
        requires
            self.wf(),
        ensures
            r is Ok ==> exists|cmds: Seq<CmdView>| #[trigger] lines_render(cmds, r->Ok_0@),
    {
        let mut compiler = self;
        let mut analyser = SyntaxAnalyser::new(tokenize(target));
        let codeblock = match analyser.get_block() {
            Ok(o) => o,
            Err(e) => return Err(CompileError::ASyntaxErrorOccured(e)),
        };
        match codeblock.mcfunctionate(&mut compiler) {
            Ok(f) => {
                let text = f.inside;
                assert(exists|cmds: Seq<CmdView>| #[trigger] lines_render(cmds, text@));
                let r: Result<String, CompileError> = Ok(text);
                assert(r->Ok_0@ == text@);
                r
            },
            Err(e) => Err(e),
        }
    }

    /// Ends the current block: removes, from the back, every variable declared at least as deep
    /// as the current block, and returns their resets in removal order.
    pub fn leave_current_scope(&mut self) -> (r: Vec<CommandAST>)
        requires
            old(self).wf(),
        ensures
            forall|k: int| 0 <= k < final(self).variables@.len() ==> (#[trigger] final(self).variables@[k]).scope@.len() < old(self).scope@.len(),
            final(self).scope@ == old(self).scope@,
            final(self).namespace@ == old(self).namespace@,
            final(self).compiled@ == old(self).compiled@,
            final(self).functions@ == old(self).functions@,
            final(self).variables@.len() <= old(self).variables@.len(),
            final(self).variables@ == old(self).variables@.take(final(self).variables@.len() as int),
            forall|k: int| final(self).variables@.len() <= k < old(self).variables@.len()
                ==> (#[trigger] old(self).variables@[k]).scope@.len() >= old(self).scope@.len(),
            final(self).variables@.len() > 0 ==> final(self).variables@.last().scope@.len() < old(self).scope@.len(),
            cmds_view(r@) == frees_of(boards_view(old(self).variables@.skip(final(self).variables@.len() as int))).reverse(),
    {
        let ghost start = self.variables@;
        let mut res: Vec<CommandAST> = Vec::new();
        let depth = self.scope.len();
        let ghost vars0 = self.variables@;
        loop
            invariant_except_break
                self.scope@ == old(self).scope@,
                self.namespace@ == old(self).namespace@,
                self.compiled@ == old(self).compiled@,
                self.functions@ == old(self).functions@,
                depth == self.scope@.len(),
                vars0 == old(self).variables@,
                self.variables@.len() <= vars0.len(),
                self.variables@ == vars0.take(self.variables@.len() as int),
                forall|k: int| self.variables@.len() <= k < vars0.len() ==> (#[trigger] vars0[k]).scope@.len() >= depth,
                cmds_view(res@) == frees_of(boards_view(vars0.skip(self.variables@.len() as int))).reverse(),
            ensures
                self.scope@ == old(self).scope@,
                self.namespace@ == old(self).namespace@,
                self.compiled@ == old(self).compiled@,
                self.functions@ == old(self).functions@,
                self.variables@.len() <= vars0.len(),
                self.variables@ == vars0.take(self.variables@.len() as int),
                forall|k: int| self.variables@.len() <= k < vars0.len() ==> (#[trigger] vars0[k]).scope@.len() >= depth,
                self.variables@.len() > 0 ==> self.variables@.last().scope@.len() < depth,
                cmds_view(res@) == frees_of(boards_view(vars0.skip(self.variables@.len() as int))).reverse(),
            decreases self.variables@.len(),
        {
            let n = self.variables.len();
            if n == 0 {
                break;
            }
            if self.variables[n - 1].scope.len() < depth {
                break;
            }
            let v = self.variables.pop().unwrap();
            let ghost before = res@;
            let fr = v.free();
            extend_commands(&mut res, fr);
            proof {
                let m = self.variables@.len() as int;
                assert(self.variables@ =~= vars0.take(m));
                assert(vars0[m] == v);
                let tail_new = frees_of(boards_view(vars0.skip(m)));
                let tail_old = frees_of(boards_view(vars0.skip(m + 1)));
                assert(tail_new =~= seq![CmdView::Free { target: target_of(v@) }] + tail_old);
                assert(tail_new.reverse() =~= tail_old.reverse() + seq![CmdView::Free { target: target_of(v@) }]);
            }
        }
        proof {
            let m = self.variables@.len() as int;
            if m > 0 {
                assert forall|k: int| 0 <= k < m implies (#[trigger] self.variables@[k]).scope@.len() < old(self).scope@.len() by {
                    assert(self.variables@[k] == start[k]);
                    assert(self.variables@.last() == start[m - 1]);
                    assert(start[k].scope@.len() <= start[m - 1].scope@.len());
                }
            }
        }
        res
    }
}

} // verus!
