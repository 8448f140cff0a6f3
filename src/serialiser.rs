//! Lowering of formulas and statements into commands and generated functions.
use vstd::prelude::*;
use crate::ast::{Tuple, FToken, RPNFormula, AST, CodeBlock, IfSyntax, WhileSyntax, VariableDefinement, Assignment};
use crate::evaluater::Oper;
use crate::command_ast::{CmdView, CondView, CommandAST, ExecuteConstructer, Serialise, writes, written_before, boards_view, FormulaConstructer, cmds_view, copy_commands, extend_commands, target_of, frees_of, lines_render, cmd_renders, chain_text, nl};
use crate::comparison_operation::Comparison;
use crate::comparison_operation::const_compare_cmds;
use crate::compiler::{CompileError, Compiler, ErrView, outcome, lowered, lookup};
use crate::evaluater::{result_type, oper_spec};
use crate::scoreboard::{get_type_adjusted_temp, is_adjust_temp};
use crate::scoreboard::{Scoreboard, ScoreboardView, assign_spec, compatible, literal_value, const_board, scratch_board, temp_path, temp_scope, is_scratch, is_lower_id, mcname, get_calc_result_temp, get_const, generate_random_id};
use crate::text::{texts, join, copy_texts, push_char, push_text, push_int, int_text, text_eq};
use crate::tokeniser::{Token, token_text};
use crate::types::{TEMP_ID_LEN, BLOCK_ID_LEN};
use crate::types::Type;

verus! {

/// A formula token with identifiers resolved.
#[derive(Debug)]
pub enum IToken {
    Int(i32),
    /// A float literal, held as its value times 1000, truncated.
    Flt(i64),
    Bln(bool),
    Scr(Scoreboard),
    Str(String),
    Fnc(MCFunction, Tuple),
    Mcr(String, Tuple),
    Oper(Oper),
    LParen,
    RParen,
}

/// What a resolved token is: literals and operators as themselves, a cell as its view, a call
/// by its name and result type, a macro call by its name.
pub enum ITokView {
    Int(i32),
    Flt(i64),
    Bln(bool),
    Scr(ScoreboardView),
    Str(Seq<char>),
    Fnc(Seq<char>, Type),
    Mcr(Seq<char>),
    Oper(Oper),
    LParen,
    RParen,
}

impl View for IToken {
    type V = ITokView;

    open spec fn view(&self) -> ITokView {
        match self {
            IToken::Int(i) => ITokView::Int(*i),
            IToken::Flt(f) => ITokView::Flt(*f),
            IToken::Bln(b) => ITokView::Bln(*b),
            IToken::Scr(s) => ITokView::Scr(s@),
            IToken::Str(s) => ITokView::Str(s@),
            IToken::Fnc(f, _) => ITokView::Fnc(f.name@, f.returning_type),
            IToken::Mcr(m, _) => ITokView::Mcr(m@),
            IToken::Oper(o) => ITokView::Oper(*o),
            IToken::LParen => ITokView::LParen,
            IToken::RParen => ITokView::RParen,
        }
    }
}

/// A resolved token as text: cells by their player name, calls by name.
pub open spec fn itoken_text(t: IToken) -> Seq<char> {
    match t {
        IToken::Int(i) => int_text(i as int),
        IToken::Flt(m) => token_text(Token::Flt(m)),
        IToken::Bln(b) => if b { "true"@ } else { "false"@ },
        IToken::Scr(s) => mcname(s@),
        IToken::Str(s) => s@,
        IToken::Fnc(f, _) => f.name@ + "(...)"@,
        IToken::Mcr(m, _) => m@ + "!(...)"@,
        IToken::Oper(o) => o.text(),
        IToken::LParen => "("@,
        IToken::RParen => ")"@,
    }
}

impl IToken {
    /// The token as text.
    pub fn text(&self) -> (r: String)
        ensures
            r@ == itoken_text(*self),
    {
        let mut s = String::new();
        match self {
            IToken::Int(i) => push_int(&mut s, *i as i64),
            IToken::Flt(m) => push_text(&mut s, Token::Flt(*m).text().as_str()),
            IToken::Bln(b) => push_text(&mut s, if *b { "true" } else { "false" }),
            IToken::Scr(b) => push_text(&mut s, b.get_mcname().as_str()),
            IToken::Str(t) => push_text(&mut s, t.as_str()),
            IToken::Fnc(f, _) => {
                push_text(&mut s, f.name.as_str());
                push_text(&mut s, "(...)");
            },
            IToken::Mcr(m, _) => {
                push_text(&mut s, m.as_str());
                push_text(&mut s, "!(...)");
            },
            IToken::Oper(o) => push_text(&mut s, o.to_str()),
            IToken::LParen => push_text(&mut s, "("),
            IToken::RParen => push_text(&mut s, ")"),
        }
        assert(s@ =~= itoken_text(*self));
        s
    }
}

/// A generated function: its name and path, its body, and what a call site emits around the call.
#[derive(Debug, Clone)]
pub struct MCFunction {
    pub name: String,
    pub inside: String,
    pub path: Vec<String>,
    pub callment_prefix: String,
    pub preprocess: String,
    pub postprocess: String,
    pub returning_type: Type,
}

impl IToken {
    /// A copy of the token in which the arguments of a call are left out.
    pub fn without_arguments(&self) -> (r: IToken)
        ensures
            !(self is Fnc || self is Mcr || self is Scr || self is Str) ==> r == *self,
            self is Scr ==> r is Scr && r->Scr_0@ == self->Scr_0@,
            self is Fnc ==> r is Fnc && r->Fnc_0.returning_type == self->Fnc_0.returning_type,
            self is Mcr ==> r is Mcr,
            self is Str ==> r is Str,
            r@ == self@,
    {
        match self {
            IToken::Int(i) => IToken::Int(*i),
            IToken::Flt(f) => IToken::Flt(*f),
            IToken::Bln(b) => IToken::Bln(*b),
            IToken::Scr(s) => IToken::Scr(s.clone()),
            IToken::Str(s) => IToken::Str(s.clone()),
            IToken::Fnc(f, _) => IToken::Fnc(f.copied(), Tuple { inside: Vec::new() }),
            IToken::Mcr(m, _) => IToken::Mcr(m.clone(), Tuple { inside: Vec::new() }),
            IToken::Oper(o) => IToken::Oper(*o),
            IToken::LParen => IToken::LParen,
            IToken::RParen => IToken::RParen,
        }
    }
}

impl MCFunction {
    /// A copy of the function record.
    pub fn copied(&self) -> (r: MCFunction)
        ensures
            r.name@ == self.name@,
            r.inside@ == self.inside@,
            texts(r.path@) == texts(self.path@),
            r.callment_prefix@ == self.callment_prefix@,
            r.preprocess@ == self.preprocess@,
            r.postprocess@ == self.postprocess@,
            r.returning_type == self.returning_type,
    {
        MCFunction {
            name: self.name.clone(),
            inside: self.inside.clone(),
            path: copy_texts(&self.path),
            callment_prefix: self.callment_prefix.clone(),
            preprocess: self.preprocess.clone(),
            postprocess: self.postprocess.clone(),
            returning_type: self.returning_type,
        }
    }
}

/// Values of a formula: literals, cells and calls.
pub open spec fn is_value_token(t: IToken) -> bool {
    t is Int || t is Flt || t is Bln || t is Scr || t is Fnc || t is Mcr
}

/// The type of a value token; a macro call has none.
pub open spec fn token_type(t: IToken) -> Option<Type> {
    match t {
        IToken::Int(_) => Some(Type::Int),
        IToken::Flt(_) => Some(Type::Float),
        IToken::Bln(_) => Some(Type::Bool),
        IToken::Scr(s) => Some(s@.datatype),
        IToken::Fnc(f, _) => Some(f.returning_type),
        IToken::Str(_) => Some(Type::Str),
        _ => None,
    }
}

/// One step of type inference over a reverse Polish formula: a value pushes its type, an
/// operator replaces the two topmost types with its result type.
pub open spec fn type_step(st: Seq<Type>, t: IToken) -> Result<Seq<Type>, ErrView> {
    if is_value_token(t) {
        match token_type(t) {
            Some(ty) => Ok(st.push(ty)),
            None => Err(ErrView::UnsupportedLiteralType(t@)),
        }
    } else if t is Oper {
        if st.len() < 2 {
            Err(ErrView::InvalidFormulaStructure(not_enough_operands()))
        } else {
            match result_type(t->Oper_0, st[st.len() - 2], st[st.len() - 1]) {
                Some(ty) => Ok(st.take(st.len() - 2).push(ty)),
                None => Err(ErrView::UndefinedOperation(st[st.len() - 2], t->Oper_0, st[st.len() - 1])),
            }
        }
    } else if t is Str {
        Err(ErrView::UnsupportedLiteralType(t@))
    } else {
        Err(ErrView::UnbalancedParentheses)
    }
}

/// The message of a formula whose operator lacks operands.
pub open spec fn not_enough_operands() -> Seq<char> {
    "Not enough operands for operator"@
}

/// The stack of types after reading the tokens, or the first error.
pub open spec fn type_stack(ts: Seq<IToken>) -> Result<Seq<Type>, ErrView>
    decreases ts.len(),
{
    if ts.len() == 0 {
        Ok(Seq::empty())
    } else {
        match type_stack(ts.drop_last()) {
            Ok(st) => type_step(st, ts.last()),
            Err(e) => Err(e),
        }
    }
}

/// The type of a reverse Polish formula: the one type left on the stack.
pub open spec fn guess_spec(ts: Seq<IToken>) -> Result<Type, ErrView> {
    match type_stack(ts) {
        Ok(st) => if st.len() == 1 { Ok(st[0]) } else { Err(ErrView::UnbalancedParentheses) },
        Err(e) => Err(e),
    }
}

/// The end of a boolean normalisation: `value != 0` as 1 or 0 into `store_to`, then resets.
pub open spec fn to_be_tail(value: ScoreboardView, store_to: ScoreboardView) -> Seq<CmdView> {
    const_compare_cmds(value, "!="@, 0) + seq![
        CmdView::AssignScore { left: target_of(store_to), right: target_of(value) },
        CmdView::Free { target: target_of(value) },
    ] + frees_of(seq![const_board(0)])
}

/// `s` ends with `t`.
pub open spec fn ends_with<A>(s: Seq<A>, t: Seq<A>) -> bool {
    s.len() >= t.len() && s.skip(s.len() - t.len()) == t
}

/// A reverse Polish formula with its identifiers resolved.
#[derive(Debug)]
pub struct CalcReserv {
    pub tokens: Vec<IToken>,
}

/// An entry of the evaluation stack: a token of the formula, or a result cell.
enum Operand {
    Token(usize),
    Cell(Scoreboard),
}

impl CalcReserv {
    spec fn operand_type(&self, o: Operand) -> Type {
        match o {
            Operand::Token(i) => token_type(self.tokens@[i as int])->Some_0,
            Operand::Cell(s) => s@.datatype,
        }
    }

    spec fn operand_ok(&self, o: Operand, n: int) -> bool {
        match o {
            Operand::Token(i) => i < n && is_value_token(self.tokens@[i as int]) && token_type(self.tokens@[i as int]) is Some,
            Operand::Cell(_) => true,
        }
    }

    spec fn value_match(&self, o: Operand, t: IToken) -> bool {
        match o {
            Operand::Token(i) => t == self.tokens@[i as int],
            Operand::Cell(s) => t is Scr && t->Scr_0@ == s@,
        }
    }

    spec fn stack_types(&self, st: Seq<Operand>) -> Seq<Type> {
        st.map_values(|o: Operand| self.operand_type(o))
    }

    fn operand_token(&self, o: &Operand) -> (r: IToken)
        requires
            self.operand_ok(*o, self.tokens@.len() as int),
        ensures
            is_value_token(r),
            token_type(r) == Some(self.operand_type(*o)),
            o is Cell ==> r is Scr && r->Scr_0@ == o->Cell_0@,
            o is Token ==> (self.tokens@[o->Token_0 as int] is Int || self.tokens@[o->Token_0 as int] is Flt
                || self.tokens@[o->Token_0 as int] is Bln) ==> r == self.tokens@[o->Token_0 as int],
            o is Token ==> self.tokens@[o->Token_0 as int] is Scr ==> r is Scr && r->Scr_0@ == self.tokens@[o->Token_0 as int]->Scr_0@,
            forall|t: IToken| #[trigger] self.value_match(*o, t) ==> same_value(r, t),
    {
        match o {
            Operand::Token(i) => self.tokens[*i].without_arguments(),
            Operand::Cell(s) => IToken::Scr(s.clone()),
        }
    }

    /// The type of the formula's value, inferred without emitting anything.
    pub fn guess_type(&self) -> (r: Result<Type, CompileError>)
        ensures
            outcome(r) == guess_spec(self.tokens@),
    {
        let mut stack: Vec<Type> = Vec::new();
        let n = self.tokens.len();
        let mut i: usize = 0;
        while i < n
            invariant
                n == self.tokens@.len(),
                0 <= i <= n,
                type_stack(self.tokens@.take(i as int)) == Ok::<Seq<Type>, ErrView>(stack@),
            decreases n - i,
        {
            assert(self.tokens@.take(i + 1).drop_last() =~= self.tokens@.take(i as int));
            assert(self.tokens@.take(i + 1).last() == self.tokens@[i as int]);
            let token = &self.tokens[i];
            match token {
                IToken::Int(_) => stack.push(Type::Int),
                IToken::Flt(_) => stack.push(Type::Float),
                IToken::Bln(_) => stack.push(Type::Bool),
                IToken::Scr(s) => stack.push(s.datatype),
                IToken::Fnc(f, _) => stack.push(f.returning_type),
                IToken::Mcr(_, _) | IToken::Str(_) => {
                    proof {
                                lemma_type_stack_err(self.tokens@, i + 1);
                    }
                    return Err(CompileError::UnsupportedLiteralType(token.without_arguments()));
                },
                IToken::Oper(operator) => {
                    if stack.len() < 2 {
                        proof {
                            lemma_type_stack_err(self.tokens@, i + 1);
                        }
                        return Err(CompileError::InvalidFormulaStructure("Not enough operands for operator".to_string()));
                    }
                    let ghost st = stack@;
                    let rhs = stack.pop().unwrap();
                    let lhs = stack.pop().unwrap();
                    assert(stack@ =~= st.take(st.len() - 2));
                    match operator.get_type(&lhs, &rhs) {
                        Some(t) => stack.push(t),
                        None => {
                            proof {
                                lemma_type_stack_err(self.tokens@, i + 1);
                            }
                            return Err(CompileError::UndefinedOperation(lhs, *operator, rhs));
                        },
                    }
                },
                IToken::LParen | IToken::RParen => {
                    proof {
                        lemma_type_stack_err(self.tokens@, i + 1);
                    }
                    return Err(CompileError::UnbalancedParentheses);
                },
            }
            i = i + 1;
        }
        assert(self.tokens@.take(n as int) =~= self.tokens@);
        if stack.len() == 1 {
            Ok(stack[0])
        } else {
            Err(CompileError::UnbalancedParentheses)
        }
    }
}

/// A fresh `CALC_RESULT_` cell, of any type.
pub open spec fn is_result_temp(b: ScoreboardView) -> bool {
    is_scratch(b, "CALC_RESULT_"@, TEMP_ID_LEN as nat, temp_scope(), b.datatype)
}

impl CalcReserv {
    fn operand_type_of(&self, o: &Operand) -> (r: Type)
        requires
            self.operand_ok(*o, self.tokens@.len() as int),
        ensures
            r == self.operand_type(*o),
    {
        match o {
            Operand::Token(i) => match &self.tokens[*i] {
                IToken::Int(_) => Type::Int,
                IToken::Flt(_) => Type::Float,
                IToken::Bln(_) => Type::Bool,
                IToken::Scr(s) => s.datatype,
                IToken::Fnc(f, _) => f.returning_type,
                _ => Type::NoneType,
            },
            Operand::Cell(s) => s.datatype,
        }
    }

    /// Lowers the formula into `store_to`, the `j`-th operator storing its result into the cell
    /// named by `results[j]` and converting types through `adjusts[j]`: see `lower_spec`.
    #[verifier::rlimit(100)]
    pub fn serialise_via(&self, store_to: &Scoreboard, results: &Vec<Scoreboard>, adjusts: &Vec<Scoreboard>) -> (r: Result<Vec<CommandAST>, CompileError>)
        requires
            results@.len() >= op_count(self.tokens@),
            adjusts@.len() >= op_count(self.tokens@),
        ensures
            lowered(r) == lower_spec(self.tokens@, store_to@, results@, boards_view(adjusts@)),
            r is Ok ==> guess_spec(self.tokens@) is Ok && compatible(store_to@.datatype, guess_spec(self.tokens@)->Ok_0),
            guess_spec(self.tokens@) is Err ==> r is Err,
            r is Ok ==> exists|body: Seq<CmdView>|
                cmds_view(r->Ok_0@) == body + frees_of(boards_view(results@).take(op_count(self.tokens@) as int))
                    && forall|k: int| 0 <= k < op_count(self.tokens@) ==> written_before(body, target_of(#[trigger] results@[k]@), body.len() as int),
    {
        let ghost adj = boards_view(adjusts@);
        let ghost mut sstack: Seq<IToken> = Seq::empty();
        let mut commands: Vec<CommandAST> = Vec::new();
        let mut stack: Vec<Operand> = Vec::new();
        let mut temps: Vec<Scoreboard> = Vec::new();
        let n = self.tokens.len();
        let mut i: usize = 0;
        assert(self.tokens@.take(0) =~= Seq::<IToken>::empty());
        assert(self.stack_types(stack@) =~= Seq::<Type>::empty());
        assert(cmds_view(commands@) =~= Seq::<CmdView>::empty());
        while i < n
            invariant
                n == self.tokens@.len(),
                0 <= i <= n,
                type_stack(self.tokens@.take(i as int)) == Ok::<Seq<Type>, ErrView>(self.stack_types(stack@)),
                forall|k: int| 0 <= k < stack@.len() ==> self.operand_ok(#[trigger] stack@[k], n as int),
                results@.len() >= op_count(self.tokens@),
                adjusts@.len() >= op_count(self.tokens@),
                adj == boards_view(adjusts@),
                temps@.len() == op_count(self.tokens@.take(i as int)),
                lower_fold(self.tokens@.take(i as int), results@, adj) == Ok::<(Seq<CmdView>, Seq<IToken>, nat), ErrView>((cmds_view(commands@), sstack, temps@.len() as nat)),
                sstack.len() == stack@.len(),
                forall|k: int| 0 <= k < stack@.len() ==> self.value_match(#[trigger] stack@[k], sstack[k]),
                forall|k: int| 0 <= k < temps@.len() ==> target_of(#[trigger] temps@[k]@) == target_of(results@[k]@),
                forall|k: int| 0 <= k < temps@.len() ==> written_before(
                    cmds_view(commands@),
                    target_of(#[trigger] temps@[k]@),
                    cmds_view(commands@).len() as int,
                ),
            decreases n - i,
        {
            assert(self.tokens@.take(i + 1).drop_last() =~= self.tokens@.take(i as int));
            assert(self.tokens@.take(i + 1).last() == self.tokens@[i as int]);
            let ghost st = stack@;
            match &self.tokens[i] {
                IToken::Int(_) | IToken::Flt(_) | IToken::Bln(_) | IToken::Scr(_) | IToken::Fnc(_, _) => {
                    stack.push(Operand::Token(i));
                    assert(self.stack_types(stack@) =~= self.stack_types(st).push(self.operand_type(Operand::Token(i))));
                    proof {
                        let ghost old_s = sstack;
                        sstack = sstack.push(self.tokens@[i as int]);
                        assert forall|k: int| 0 <= k < stack@.len() implies self.value_match(#[trigger] stack@[k], sstack[k]) by {
                            if k < st.len() {
                                assert(stack@[k] == st[k]);
                                assert(sstack[k] == old_s[k]);
                            }
                        }
                        lemma_op_count_step(self.tokens@, i as int);
                    }
                },
                IToken::Mcr(_, _) | IToken::Str(_) => {
                    proof {
                        lemma_type_stack_err(self.tokens@, i + 1);
                        lemma_lower_fold_err(self.tokens@, i + 1, results@, adj, store_to@);
                    }
                    return Err(CompileError::UnsupportedLiteralType(self.tokens[i].without_arguments()));
                },
                IToken::LParen | IToken::RParen => {
                    proof {
                        lemma_type_stack_err(self.tokens@, i + 1);
                        lemma_lower_fold_err(self.tokens@, i + 1, results@, adj, store_to@);
                    }
                    return Err(CompileError::UnbalancedParentheses);
                },
                IToken::Oper(operator) => {
                    if stack.len() < 2 {
                        proof {
                            lemma_type_stack_err(self.tokens@, i + 1);
                        lemma_lower_fold_err(self.tokens@, i + 1, results@, adj, store_to@);
                        }
                        return Err(CompileError::InvalidFormulaStructure("Not enough operands for operator".to_string()));
                    }
                    let rhs = stack.pop().unwrap();
                    let lhs = stack.pop().unwrap();
                    assert(stack@ =~= st.take(st.len() - 2));
                    assert(self.stack_types(stack@) =~= self.stack_types(st).take(st.len() - 2));
                    assert(self.operand_ok(st[st.len() - 1], n as int));
                    assert(self.operand_ok(st[st.len() - 2], n as int));
                    let rt = self.operand_type_of(&rhs);
                    let lt = self.operand_type_of(&lhs);
                    let ty = match operator.get_type(&lt, &rt) {
                        Some(t) => t,
                        None => {
                            proof {
                                lemma_type_stack_err(self.tokens@, i + 1);
                        lemma_lower_fold_err(self.tokens@, i + 1, results@, adj, store_to@);
                            }
                            return Err(CompileError::UndefinedOperation(lt, *operator, rt));
                        },
                    };
                    proof {
                        lemma_op_count_step(self.tokens@, i as int);
                        lemma_op_count_prefix(self.tokens@, i + 1);
                    }
                    let j = temps.len();
                    let mut rc = results[j].clone();
                    rc.datatype = lt;
                    let lhs_token = self.operand_token(&lhs);
                    let rhs_token = self.operand_token(&rhs);
                    let ghost slhs = sstack[sstack.len() - 2];
                    let ghost srhs = sstack[sstack.len() - 1];
                    proof {
                        assert(self.value_match(st[st.len() - 2], slhs));
                        assert(self.value_match(st[st.len() - 1], srhs));
                        lemma_same_value(lhs_token, slhs, rc@, *operator, adj[j as int]);
                        lemma_same_value(rhs_token, srhs, rc@, *operator, adj[j as int]);
                        assert(rc@ == retyped(results@[j as int], lt)@);
                    }
                    let ghost c0 = cmds_view(commands@);
                    match rc.assign(&lhs_token) {
                        Ok(a) => {
                            proof {
                                lemma_assign_writes(rc@, lhs_token);
                            }
                            extend_commands(&mut commands, a);
                        },
                        Err(e) => {
                            proof {
                                lemma_lower_fold_err(self.tokens@, i + 1, results@, adj, store_to@);
                            }
                            return Err(e);
                        },
                    }
                    proof {
                        assert(cmds_view(commands@)[c0.len() as int] == assign_spec(rc@, lhs_token)->Ok_0[0]);
                        assert(writes(cmds_view(commands@)[c0.len() as int], target_of(rc@)));
                        assert(cmds_view(commands@).take(c0.len() as int) =~= c0);
                        lemma_written_extend(c0, cmds_view(commands@), boards_view(temps@));
                    }
                    let ghost c1 = cmds_view(commands@);
                    match operator.calc_via(&rc, &rhs_token, &adjusts[j]) {
                        Ok(c) => extend_commands(&mut commands, c),
                        Err(e) => {
                            proof {
                                lemma_lower_fold_err(self.tokens@, i + 1, results@, adj, store_to@);
                            }
                            return Err(e);
                        },
                    }
                    proof {
                        assert(cmds_view(commands@).take(c1.len() as int) =~= c1);
                        let cells = boards_view(temps@).push(rc@);
                        assert forall|k: int| 0 <= k < cells.len() implies written_before(c1, target_of(#[trigger] cells[k]), c1.len() as int) by {
                            if k < temps@.len() {
                                assert(cells[k] == boards_view(temps@)[k]);
                            } else {
                                assert(writes(c1[c0.len() as int], target_of(cells[k])));
                            }
                        }
                        lemma_written_extend(c1, cmds_view(commands@), cells);
                        assert(cmds_view(commands@)[c0.len() as int] == c1[c0.len() as int]);
                    }
                    let ghost before_temps = temps@;
                    rc.datatype = ty;
                    temps.push(rc.clone());
                    proof {
                        assert forall|k: int| 0 <= k < temps@.len() implies written_before(
                            cmds_view(commands@),
                            target_of(#[trigger] temps@[k]@),
                            cmds_view(commands@).len() as int,
                        ) by {
                            if k < before_temps.len() {
                                assert(temps@[k] == before_temps[k]);
                                assert(boards_view(temps@)[k] == temps@[k]@);
                            } else {
                                assert(target_of(temps@[k]@) == target_of(rc@));
                                assert(writes(cmds_view(commands@)[c0.len() as int], target_of(temps@[k]@)));
                            }
                        }
                    }
                    let ghost st2 = stack@;
                    let ghost rcv = rc@;
                    stack.push(Operand::Cell(rc));
                    assert(self.stack_types(stack@) =~= self.stack_types(st2).push(ty));
                    proof {
                        let old_s = sstack;
                        sstack = old_s.take(old_s.len() - 2).push(IToken::Scr(retyped(results@[j as int], ty)));
                        assert(rcv == retyped(results@[j as int], ty)@);
                        assert forall|k: int| 0 <= k < stack@.len() implies self.value_match(#[trigger] stack@[k], sstack[k]) by {
                            if k < st2.len() {
                                assert(stack@[k] == st[k]);
                                assert(sstack[k] == old_s[k]);
                            }
                        }
                        assert forall|k: int| 0 <= k < temps@.len() implies target_of(#[trigger] temps@[k]@) == target_of(results@[k]@) by {
                            if k < before_temps.len() {
                                assert(temps@[k] == before_temps[k]);
                            }
                        }
                        assert(cmds_view(commands@) =~= c0 + assign_spec(retyped(results@[j as int], lt)@, slhs)->Ok_0
                            + oper_spec(*operator, retyped(results@[j as int], lt)@, srhs, adj[j as int])->Ok_0);
                    }
                },
            }
            i = i + 1;
        }
        assert(self.tokens@.take(n as int) =~= self.tokens@);
        if stack.len() != 1 {
            return Err(CompileError::UnbalancedParentheses);
        }
        assert(self.operand_ok(stack@[0], n as int));
        let top = stack.pop().unwrap();
        let top_token = self.operand_token(&top);
        proof {
            assert(self.value_match(stack@.push(top)[0], sstack[0]));
            lemma_same_value(top_token, sstack[0], store_to@, Oper::Logical(crate::logical_operation::Logical::And), store_to@);
        }
        let ghost c2 = cmds_view(commands@);
        match store_to.assign(&top_token) {
            Ok(a) => extend_commands(&mut commands, a),
            Err(e) => return Err(e),
        }
        proof {
            assert(cmds_view(commands@).take(c2.len() as int) =~= c2);
            assert forall|k: int| 0 <= k < temps@.len() implies written_before(c2, target_of(#[trigger] boards_view(temps@)[k]), c2.len() as int) by {
                assert(boards_view(temps@)[k] == temps@[k]@);
            }
            lemma_written_extend(c2, cmds_view(commands@), boards_view(temps@));
        }
        let ghost body = cmds_view(commands@);
        let ghost cells = boards_view(temps@);
        let mut j: usize = 0;
        while j < temps.len()
            invariant
                0 <= j <= temps@.len(),
                cells == boards_view(temps@),
                cmds_view(commands@) == body + frees_of(cells.take(j as int)),
            decreases temps@.len() - j,
        {
            let fr = temps[j].free();
            extend_commands(&mut commands, fr);
            assert(frees_of(cells.take(j + 1)) =~= frees_of(cells.take(j as int)) + frees_of(seq![cells[j as int]]));
            assert(cmds_view(commands@) =~= body + frees_of(cells.take(j + 1)));
            j = j + 1;
        }
        proof {
            assert(cells.take(j as int) =~= cells);
            let m = op_count(self.tokens@) as int;
            assert(temps@.len() == m);
            assert(frees_of(cells) =~= frees_of(boards_view(results@).take(m))) by {
                assert forall|k: int| 0 <= k < m implies frees_of(cells)[k] == frees_of(boards_view(results@).take(m))[k] by {
                    assert(cells[k] == temps@[k]@);
                    assert(target_of(temps@[k]@) == target_of(results@[k]@));
                }
            }
            assert forall|k: int| 0 <= k < m implies written_before(body, target_of(#[trigger] results@[k]@), body.len() as int) by {
                assert(target_of(temps@[k]@) == target_of(results@[k]@));
                assert(boards_view(temps@)[k] == temps@[k]@);
            }
        }
        Ok(commands)
    }

    /// Lowers the formula into `store_to`: each operator's result goes to a fresh
    /// `CALC_RESULT_` cell typed by the operator's result type, the final value is copied into
    /// `store_to`, and the result cells are reset in the order they were made.
    pub fn serialise(&self, store_to: &Scoreboard) -> (r: Result<Vec<CommandAST>, CompileError>)
        ensures
            exists|results: Seq<Scoreboard>, adjusts: Seq<ScoreboardView>|
                (forall|k: int| 0 <= k < results.len() ==> is_result_temp(#[trigger] results[k]@))
                    && (forall|k: int| 0 <= k < adjusts.len() ==> is_adjust_temp(#[trigger] adjusts[k]))
                    && results.len() == op_count(self.tokens@) && adjusts.len() == op_count(self.tokens@)
                    && lowered(r) == #[trigger] lower_spec(self.tokens@, store_to@, results, adjusts),
            lowers(self.tokens@, store_to@.datatype) ==> r is Ok,
            r is Ok ==> guess_spec(self.tokens@) is Ok && compatible(store_to@.datatype, guess_spec(self.tokens@)->Ok_0),
            guess_spec(self.tokens@) is Err ==> r is Err,
            r is Ok ==> exists|body: Seq<CmdView>, results: Seq<ScoreboardView>|
                cmds_view(r->Ok_0@) == body + frees_of(results)
                    && forall|k: int| 0 <= k < results.len() ==> is_result_temp(#[trigger] results[k])
                        && written_before(body, target_of(results[k]), body.len() as int),
    {
        let count = self.count_operators();
        let mut results: Vec<Scoreboard> = Vec::new();
        let mut adjusts: Vec<Scoreboard> = Vec::new();
        let mut k: usize = 0;
        while k < count
            invariant
                k <= count,
                results@.len() == k,
                adjusts@.len() == k,
                forall|m: int| 0 <= m < k ==> is_result_temp(#[trigger] results@[m]@),
                forall|m: int| 0 <= m < k ==> is_adjust_temp(#[trigger] boards_view(adjusts@)[m]),
            decreases count - k,
        {
            results.push(get_calc_result_temp(Type::Int));
            let a = get_type_adjusted_temp(Type::Int);
            assert(is_adjust_temp(a@));
            let ghost before = adjusts@;
            adjusts.push(a);
            assert forall|m: int| 0 <= m < k + 1 implies is_adjust_temp(#[trigger] boards_view(adjusts@)[m]) by {
                if m < k {
                    assert(adjusts@[m] == before[m]);
                    assert(boards_view(before)[m] == before[m]@);
                }
            }
            k = k + 1;
        }
        let r = self.serialise_via(store_to, &results, &adjusts);
        proof {
            let m = op_count(self.tokens@) as int;
            if r is Ok {
                let body = choose|body: Seq<CmdView>|
                    cmds_view(r->Ok_0@) == body + frees_of(boards_view(results@).take(m))
                        && forall|k: int| 0 <= k < m ==> written_before(body, target_of(#[trigger] results@[k]@), body.len() as int);
                let cells = boards_view(results@).take(m);
                assert forall|k: int| 0 <= k < cells.len() implies is_result_temp(#[trigger] cells[k])
                    && written_before(body, target_of(cells[k]), body.len() as int) by {
                    assert(cells[k] == results@[k]@);
                }
            }
            assert(lowered(r) == lower_spec(self.tokens@, store_to@, results@, boards_view(adjusts@)));
            if lowers(self.tokens@, store_to@.datatype) {
                assert(lower_spec(self.tokens@, store_to@, results@, boards_view(adjusts@)) is Ok);
            }
        }
        r
    }

    fn count_operators(&self) -> (r: usize)
        ensures
            r == op_count(self.tokens@),
    {
        let mut c: usize = 0;
        let mut i: usize = 0;
        assert(self.tokens@.take(0) =~= Seq::<IToken>::empty());
        while i < self.tokens.len()
            invariant
                0 <= i <= self.tokens@.len(),
                c == op_count(self.tokens@.take(i as int)),
                c <= i,
            decreases self.tokens@.len() - i,
        {
            proof {
                lemma_op_count_step(self.tokens@, i as int);
            }
            if let IToken::Oper(_) = &self.tokens[i] {
                c = c + 1;
            }
            i = i + 1;
        }
        assert(self.tokens@.take(i as int) =~= self.tokens@);
        c
    }

    /// Lowers the formula into a fresh `TO_BE_` cell, then stores into `store_to` whether
    /// that value is non-zero, as 1 or 0.
    pub fn to_be(&self, store_to: &Scoreboard) -> (r: Result<Vec<CommandAST>, CompileError>)
        ensures
            exists|value: ScoreboardView, results: Seq<Scoreboard>, adjusts: Seq<ScoreboardView>|
                is_scratch(value, "TO_BE_"@, BLOCK_ID_LEN as nat, temp_scope(), value.datatype)
                    && (guess_spec(self.tokens@) is Ok ==> value.datatype == guess_spec(self.tokens@)->Ok_0)
                    && (forall|k: int| 0 <= k < results.len() ==> is_result_temp(#[trigger] results[k]@))
                    && (forall|k: int| 0 <= k < adjusts.len() ==> is_adjust_temp(#[trigger] adjusts[k]))
                    && lowered(r) == #[trigger] to_be_spec(self.tokens@, value, store_to@, results, adjusts),
            guess_spec(self.tokens@) is Ok && lowers(self.tokens@, guess_spec(self.tokens@)->Ok_0) ==> r is Ok,
            guess_spec(self.tokens@) is Err ==> r is Err,
            r is Ok ==> exists|value: ScoreboardView|
                is_scratch(value, "TO_BE_"@, BLOCK_ID_LEN as nat, temp_scope(), value.datatype)
                    && ends_with(cmds_view(r->Ok_0@), #[trigger] to_be_tail(value, store_to@)),
    {
        let g = self.guess_type();
        let ty = match g {
            Ok(t) => t,
            Err(_) => Type::Int,
        };
        let evaluated = scratch_board("TO_BE_", BLOCK_ID_LEN, &temp_path(), ty);
        if let Err(e) = g {
            proof {
                assert(lowered(Err::<Vec<CommandAST>, CompileError>(e)) == to_be_spec(self.tokens@, evaluated@, store_to@, Seq::empty(), Seq::empty()));
            }
            return Err(e);
        }
        let s = self.serialise(&evaluated);
        let ghost (results, adjusts) = choose|results: Seq<Scoreboard>, adjusts: Seq<ScoreboardView>|
            (forall|k: int| 0 <= k < results.len() ==> is_result_temp(#[trigger] results[k]@))
                && (forall|k: int| 0 <= k < adjusts.len() ==> is_adjust_temp(#[trigger] adjusts[k]))
                && results.len() == op_count(self.tokens@) && adjusts.len() == op_count(self.tokens@)
                && lowered(s) == #[trigger] lower_spec(self.tokens@, evaluated@, results, adjusts);
        let mut result = match s {
            Ok(v) => v,
            Err(e) => {
                proof {
                    assert(lowered(Err::<Vec<CommandAST>, CompileError>(e)) == to_be_spec(self.tokens@, evaluated@, store_to@, results, adjusts));
                }
                return Err(e);
            },
        };
        let ghost body = cmds_view(result@);
        let mut f = FormulaConstructer::new();
        let tail = f.boolify_num_comparison(&evaluated, "!=".to_string(), 0).assign_score(store_to, &evaluated)
            .free(&evaluated).build();
        assert(cmds_view(tail@) =~= to_be_tail(evaluated@, store_to@));
        extend_commands(&mut result, tail);
        assert(cmds_view(result@) == body + to_be_tail(evaluated@, store_to@));
        assert(cmds_view(result@).skip(body.len() as int) =~= to_be_tail(evaluated@, store_to@));
        assert(lowered(Ok::<Vec<CommandAST>, CompileError>(result)) == to_be_spec(self.tokens@, evaluated@, store_to@, results, adjusts));
        Ok(result)
    }
}

/// The formula lowers without error into any cell of type `dt`, whatever result and conversion
/// cells are drawn.
pub open spec fn lowers(ts: Seq<IToken>, dt: Type) -> bool {
    forall|store: ScoreboardView, results: Seq<Scoreboard>, adjusts: Seq<ScoreboardView>|
        store.datatype == dt && results.len() >= op_count(ts) && adjusts.len() >= op_count(ts)
            ==> (#[trigger] lower_spec(ts, store, results, adjusts)) is Ok
}

/// A formula normalised into `store_to` through the cell `value`: type inference first, then
/// the formula lowered into `value`, then `to_be_tail`.
pub open spec fn to_be_spec(
    ts: Seq<IToken>,
    value: ScoreboardView,
    store_to: ScoreboardView,
    results: Seq<Scoreboard>,
    adjusts: Seq<ScoreboardView>,
) -> Result<Seq<CmdView>, ErrView> {
    match guess_spec(ts) {
        Err(e) => Err(e),
        Ok(_) => match lower_spec(ts, value, results, adjusts) {
            Err(e) => Err(e),
            Ok(c) => Ok(c + to_be_tail(value, store_to)),
        },
    }
}

/// The number of operators in a formula.
pub open spec fn op_count(ts: Seq<IToken>) -> nat
    decreases ts.len(),
{
    if ts.len() == 0 {
        0
    } else {
        op_count(ts.drop_last()) + if ts.last() is Oper { 1nat } else { 0nat }
    }
}

proof fn lemma_op_count_step(ts: Seq<IToken>, i: int)
    requires
        0 <= i < ts.len(),
    ensures
        op_count(ts.take(i + 1)) == op_count(ts.take(i)) + if ts[i] is Oper { 1nat } else { 0nat },
{
    assert(ts.take(i + 1).drop_last() =~= ts.take(i));
}

proof fn lemma_op_count_prefix(ts: Seq<IToken>, k: int)
    requires
        0 <= k <= ts.len(),
    ensures
        op_count(ts.take(k)) <= op_count(ts),
    decreases ts.len() - k,
{
    if k < ts.len() {
        lemma_op_count_step(ts, k);
        lemma_op_count_prefix(ts, k + 1);
    } else {
        assert(ts.take(k) =~= ts);
    }
}

/// A cell with the name and scope of `b` and the type `t`.
pub open spec fn retyped(b: Scoreboard, t: Type) -> Scoreboard {
    Scoreboard { name: b.name, scope: b.scope, datatype: t }
}

/// One step of lowering a reverse Polish formula. The state is the commands so far, the stack
/// of values (a result is a cell), and how many operators were lowered. An operator takes the
/// `j`-th result cell typed as its left operand, copies the left operand into it, applies
/// itself with the right operand through the `j`-th conversion cell, and leaves the cell,
/// typed by its result type, on the stack.
pub open spec fn lower_step(
    st: Result<(Seq<CmdView>, Seq<IToken>, nat), ErrView>,
    t: IToken,
    results: Seq<Scoreboard>,
    adjusts: Seq<ScoreboardView>,
) -> Result<(Seq<CmdView>, Seq<IToken>, nat), ErrView> {
    match st {
        Err(e) => Err(e),
        Ok((cmds, stack, j)) => if is_value_token(t) {
            if token_type(t) is Some {
                Ok((cmds, stack.push(t), j))
            } else {
                Err(ErrView::UnsupportedLiteralType(t@))
            }
        } else if t is Oper {
            if stack.len() < 2 {
                Err(ErrView::InvalidFormulaStructure(not_enough_operands()))
            } else {
                let lhs = stack[stack.len() - 2];
                let rhs = stack[stack.len() - 1];
                let lt = token_type(lhs)->Some_0;
                match result_type(t->Oper_0, lt, token_type(rhs)->Some_0) {
                    None => Err(ErrView::UndefinedOperation(lt, t->Oper_0, token_type(rhs)->Some_0)),
                    Some(ty) => {
                        let rc = retyped(results[j as int], lt)@;
                        match assign_spec(rc, lhs) {
                            Err(e) => Err(e),
                            Ok(a) => match oper_spec(t->Oper_0, rc, rhs, adjusts[j as int]) {
                                Err(e) => Err(e),
                                Ok(c) => Ok((
                                    cmds + a + c,
                                    stack.take(stack.len() - 2).push(IToken::Scr(retyped(results[j as int], ty))),
                                    j + 1,
                                )),
                            },
                        }
                    },
                }
            }
        } else if t is Str {
            Err(ErrView::UnsupportedLiteralType(t@))
        } else {
            Err(ErrView::UnbalancedParentheses)
        },
    }
}

pub open spec fn lower_fold(ts: Seq<IToken>, results: Seq<Scoreboard>, adjusts: Seq<ScoreboardView>) -> Result<(Seq<CmdView>, Seq<IToken>, nat), ErrView>
    decreases ts.len(),
{
    if ts.len() == 0 {
        Ok((Seq::empty(), Seq::empty(), 0))
    } else {
        lower_step(lower_fold(ts.drop_last(), results, adjusts), ts.last(), results, adjusts)
    }
}

/// The commands that lower a reverse Polish formula into `store_to`: the operators' commands,
/// the copy of the one remaining value into `store_to`, and the resets of the result cells.
pub open spec fn lower_spec(ts: Seq<IToken>, store_to: ScoreboardView, results: Seq<Scoreboard>, adjusts: Seq<ScoreboardView>) -> Result<Seq<CmdView>, ErrView> {
    match lower_fold(ts, results, adjusts) {
        Err(e) => Err(e),
        Ok((cmds, stack, j)) => if stack.len() != 1 {
            Err(ErrView::UnbalancedParentheses)
        } else {
            match assign_spec(store_to, stack[0]) {
                Err(e) => Err(e),
                Ok(a) => Ok(cmds + a + frees_of(boards_view(results).take(j as int))),
            }
        },
    }
}

proof fn lemma_lower_fold_err(ts: Seq<IToken>, k: int, results: Seq<Scoreboard>, adjusts: Seq<ScoreboardView>, store_to: ScoreboardView)
    requires
        0 <= k <= ts.len(),
        lower_fold(ts.take(k), results, adjusts) is Err,
    ensures
        lower_spec(ts, store_to, results, adjusts) == Err::<Seq<CmdView>, ErrView>(lower_fold(ts.take(k), results, adjusts)->Err_0),
    decreases ts.len() - k,
{
    if k == ts.len() {
        assert(ts.take(k) =~= ts);
    } else {
        assert(ts.take(k + 1).drop_last() =~= ts.take(k));
        lemma_lower_fold_err(ts, k + 1, results, adjusts, store_to);
    }
}

/// Two value tokens with the same view, which lower alike.
pub open spec fn same_value(a: IToken, b: IToken) -> bool {
    a@ == b@ && (a is Int || a is Flt || a is Bln || a is Scr || a is Fnc)
}

proof fn lemma_same_value(a: IToken, b: IToken, l: ScoreboardView, op: Oper, ta: ScoreboardView)
    requires
        same_value(a, b),
    ensures
        assign_spec(l, a) == assign_spec(l, b),
        oper_spec(op, l, a, ta) == oper_spec(op, l, b, ta),
        token_type(a) == token_type(b),
        is_value_token(a) && is_value_token(b),
{
}

/// The first command of a copy stores into its target.
proof fn lemma_assign_writes(lhs: ScoreboardView, rhs: IToken)
    requires
        assign_spec(lhs, rhs) is Ok,
    ensures
        assign_spec(lhs, rhs)->Ok_0.len() > 0,
        writes(assign_spec(lhs, rhs)->Ok_0[0], target_of(lhs)),
{
}

/// Appending commands keeps every earlier write.
proof fn lemma_written_extend(a: Seq<CmdView>, b: Seq<CmdView>, cells: Seq<ScoreboardView>)
    requires
        b.len() >= a.len(),
        b.take(a.len() as int) == a,
        forall|k: int| 0 <= k < cells.len() ==> written_before(a, target_of(#[trigger] cells[k]), a.len() as int),
    ensures
        forall|k: int| 0 <= k < cells.len() ==> written_before(b, target_of(#[trigger] cells[k]), b.len() as int),
{
    assert forall|k: int| 0 <= k < cells.len() implies written_before(b, target_of(#[trigger] cells[k]), b.len() as int) by {
        let t = target_of(cells[k]);
        let i = choose|i: int| 0 <= i < a.len() && #[trigger] writes(a[i], t);
        assert(b[i] == b.take(a.len() as int)[i]);
    }
}

/// Once type inference fails on a prefix, it fails on the whole formula with the same error.
pub proof fn lemma_type_stack_err(ts: Seq<IToken>, k: int)
    requires
        0 <= k <= ts.len(),
        type_stack(ts.take(k)) is Err,
    ensures
        type_stack(ts) == type_stack(ts.take(k)),
        guess_spec(ts) == Err::<Type, ErrView>(type_stack(ts.take(k))->Err_0),
    decreases ts.len() - k,
{
    if k == ts.len() {
        assert(ts.take(k) =~= ts);
    } else {
        assert(ts.take(k + 1).drop_last() =~= ts.take(k));
        lemma_type_stack_err(ts, k + 1);
    }
}

/// The names that a formula token uses refer to a live variable or a callable function.
pub open spec fn names_known(ft: FToken, vars: Seq<ScoreboardView>, funcs: Seq<MCFunction>) -> bool {
    &&& (ft is Scr ==> lookup(vars, ft->Scr_0@) is Some)
    &&& (ft is Fnc ==> exists|k: int| 0 <= k < funcs.len() && #[trigger] funcs[k].name@ == ft->Fnc_0@)
}

/// Every name in the formula is known.
pub open spec fn resolvable(fts: Seq<FToken>, vars: Seq<ScoreboardView>, funcs: Seq<MCFunction>) -> bool {
    forall|i: int| 0 <= i < fts.len() ==> names_known(#[trigger] fts[i], vars, funcs)
}

/// The resolved formula lowers without error into a cell of type `dt`.
pub open spec fn formula_lowers_into(fts: Seq<FToken>, vars: Seq<ScoreboardView>, dt: Type) -> bool {
    forall|toks: Seq<IToken>| #[trigger] resolves_all(fts, toks, vars) ==> lowers(toks, dt)
}

/// The resolved formula has a type and lowers without error into a cell of that type.
pub open spec fn formula_lowers(fts: Seq<FToken>, vars: Seq<ScoreboardView>) -> bool {
    forall|toks: Seq<IToken>| #[trigger] resolves_all(fts, toks, vars)
        ==> guess_spec(toks) is Ok && lowers(toks, guess_spec(toks)->Ok_0)
}

/// A formula that is a `native!(...)` call alone.
pub open spec fn is_native(fts: Seq<FToken>) -> bool {
    fts.len() == 1 && fts[0] is Mcr && fts[0]->Mcr_0@ == "native"@
}

/// Every token of a formula resolved, in order.
pub open spec fn resolves_all(fts: Seq<FToken>, its: Seq<IToken>, vars: Seq<ScoreboardView>) -> bool {
    fts.len() == its.len() && forall|i: int| 0 <= i < fts.len() ==> resolves(#[trigger] fts[i], its[i], vars)
}

/// A formula token resolved against the live variables: literals and operators stay as they
/// are, a name becomes the first variable of that name.
pub open spec fn resolves(ft: FToken, it: IToken, vars: Seq<ScoreboardView>) -> bool {
    match ft {
        FToken::Int(i) => it == IToken::Int(i),
        FToken::Flt(f) => it == IToken::Flt(f),
        FToken::Bln(b) => it == IToken::Bln(b),
        FToken::Oper(o) => it == IToken::Oper(o),
        FToken::LParen => it is LParen,
        FToken::RParen => it is RParen,
        FToken::Scr(name) => it is Scr && lookup(vars, name@) == Some(it->Scr_0@),
        FToken::Str(s) => it is Str && it->Str_0@ == s@,
        FToken::Fnc(name, _) => it is Fnc && it->Fnc_0.name@ == name@,
        FToken::Mcr(name, _) => it is Mcr && it->Mcr_0@ == name@,
    }
}

impl FToken {
    /// Resolves the token against the session's variables and functions.
    pub fn i_tokenize(&self, compiler: &Compiler) -> (r: Result<IToken, CompileError>)
        ensures
            r is Ok ==> resolves(*self, r->Ok_0, compiler.vars()),
            self is Scr ==> (r is Err <==> lookup(compiler.vars(), self->Scr_0@) is None),
            !(self is Scr || self is Fnc) ==> r is Ok,
            self is Fnc ==> (r is Err <==> forall|k: int| 0 <= k < compiler.functions@.len()
                ==> #[trigger] compiler.functions@[k].name@ != self->Fnc_0@),
            r is Err ==> r->Err_0@ == ErrView::UndefinedIdentifierReferenced(
                if self is Scr { self->Scr_0@ } else { self->Fnc_0@ },
            ),
    {
        match self {
            FToken::Int(i) => Ok(IToken::Int(*i)),
            FToken::Flt(f) => Ok(IToken::Flt(*f)),
            FToken::Bln(b) => Ok(IToken::Bln(*b)),
            FToken::Str(s) => Ok(IToken::Str(s.clone())),
            FToken::Scr(s) => match compiler.get_score(s) {
                Some(b) => Ok(IToken::Scr(b.clone())),
                None => Err(CompileError::UndefinedIdentifierReferenced(s.clone())),
            },
            FToken::Fnc(f, _) => match compiler.get_func(f) {
                Some(func) => Ok(IToken::Fnc(func.copied(), Tuple { inside: Vec::new() })),
                None => Err(CompileError::UndefinedIdentifierReferenced(f.clone())),
            },
            FToken::Mcr(m, _) => Ok(IToken::Mcr(m.clone(), Tuple { inside: Vec::new() })),
            FToken::Oper(o) => Ok(IToken::Oper(*o)),
            FToken::LParen => Ok(IToken::LParen),
            FToken::RParen => Ok(IToken::RParen),
        }
    }
}

impl RPNFormula {
    /// Resolves every token of the formula.
    pub fn to_calc_reserv(&self, compiler: &Compiler) -> (r: Result<CalcReserv, CompileError>)
        ensures
            r is Ok ==> r->Ok_0.tokens@.len() == self.formula_tokens@.len() && forall|i: int|
                0 <= i < self.formula_tokens@.len() ==> resolves(
                    #[trigger] self.formula_tokens@[i],
                    r->Ok_0.tokens@[i],
                    compiler.vars(),
                ),
            r is Err ==> r->Err_0 is UndefinedIdentifierReferenced,
            resolvable(self.formula_tokens@, compiler.vars(), compiler.functions@) ==> r is Ok,
    {
        let mut out: Vec<IToken> = Vec::new();
        let mut i: usize = 0;
        while i < self.formula_tokens.len()
            invariant
                0 <= i <= self.formula_tokens@.len(),
                out@.len() == i,
                forall|k: int| 0 <= k < i ==> resolves(#[trigger] self.formula_tokens@[k], out@[k], compiler.vars()),
            decreases self.formula_tokens@.len() - i,
        {
            match self.formula_tokens[i].i_tokenize(compiler) {
                Ok(t) => out.push(t),
                Err(e) => return Err(e),
            }
            i = i + 1;
        }
        Ok(CalcReserv { tokens: out })
    }
}

/// Renders commands one per line.
pub fn c_ast_to_string(c_ast: &Vec<CommandAST>) -> (r: String)
    ensures
        lines_render(cmds_view(c_ast@), r@),
{
    let mut s = String::new();
    let ghost mut lines: Seq<Seq<char>> = Seq::empty();
    let n = c_ast.len();
    let mut i: usize = 0;
    while i < n
        invariant
            n == c_ast@.len(),
            0 <= i <= n,
            lines.len() == i,
            forall|k: int| 0 <= k < i ==> cmd_renders(cmds_view(c_ast@)[k], #[trigger] lines[k]),
            s@ == join(lines, nl()),
        decreases n - i,
    {
        let line = c_ast[i].serialise();
        if i > 0 {
            push_char(&mut s, '\n');
        }
        push_text(&mut s, line.as_str());
        proof {
            let old_lines = lines;
            lines = lines.push(line@);
            assert(lines.drop_last() =~= old_lines);
            assert(cmds_view(c_ast@)[i as int] == c_ast@[i as int]@);
            assert forall|k: int| 0 <= k < i + 1 implies cmd_renders(cmds_view(c_ast@)[k], #[trigger] lines[k]) by {
                if k < i {
                    assert(lines[k] == old_lines[k]);
                }
            }
            if i == 0 {
                assert(s@ =~= join(lines, nl()));
            } else {
                assert(s@ =~= join(lines, nl()));
            }
        }
        i = i + 1;
    }
    assert(lines.len() == cmds_view(c_ast@).len());
    s
}

/// `/<segment>` for each segment of the path.
pub open spec fn slashed(path: Seq<Seq<char>>) -> Seq<char>
    decreases path.len(),
{
    if path.len() == 0 {
        Seq::empty()
    } else {
        slashed(path.drop_last()) + seq!['/'] + path.last()
    }
}

/// How a function is referred to: `<namespace>/<path...>/<name>`.
pub open spec fn function_ref_text(namespace: Seq<char>, path: Seq<Seq<char>>, name: Seq<char>) -> Seq<char> {
    namespace + slashed(path) + seq!['/'] + name
}

/// The lines a call site emits: the preprocess, the conditional call, then the postprocess.
pub open spec fn call_text(f: MCFunction, namespace: Seq<char>) -> Seq<char> {
    (if f.preprocess@.len() > 0 { f.preprocess@ + nl() } else { Seq::empty() }) + f.callment_prefix@
        + "function "@ + function_ref_text(namespace, texts(f.path@), f.name@)
        + (if f.postprocess@.len() > 0 { nl() + f.postprocess@ } else { Seq::empty() })
}

impl MCFunction {
    /// Appends `<namespace>/<path...>/<name>`.
    pub fn push_function_ref(&self, s: &mut String, namespace: &String)
        ensures
            final(s)@ == old(s)@ + function_ref_text(namespace@, texts(self.path@), self.name@),
    {
        push_text(s, namespace.as_str());
        let ghost start = s@;
        let mut i: usize = 0;
        while i < self.path.len()
            invariant
                0 <= i <= self.path@.len(),
                s@ == start + slashed(texts(self.path@).take(i as int)),
            decreases self.path@.len() - i,
        {
            push_char(s, '/');
            push_text(s, self.path[i].as_str());
            assert(texts(self.path@).take(i + 1).drop_last() =~= texts(self.path@).take(i as int));
            assert(s@ =~= start + slashed(texts(self.path@).take(i + 1)));
            i = i + 1;
        }
        assert(texts(self.path@).take(i as int) =~= texts(self.path@));
        push_char(s, '/');
        push_text(s, self.name.as_str());
        assert(s@ =~= old(s)@ + function_ref_text(namespace@, texts(self.path@), self.name@));
    }

    /// The call site of this function.
    pub fn call(&self, compiler: &Compiler) -> (r: String)
        ensures
            r@ == call_text(*self, compiler.namespace@),
    {
        let mut s = String::new();
        if !self.preprocess.as_str().is_empty() {
            push_text(&mut s, self.preprocess.as_str());
            push_char(&mut s, '\n');
        }
        push_text(&mut s, self.callment_prefix.as_str());
        push_text(&mut s, "function ");
        self.push_function_ref(&mut s, &compiler.namespace);
        if !self.postprocess.as_str().is_empty() {
            push_char(&mut s, '\n');
            push_text(&mut s, self.postprocess.as_str());
        }
        assert(s@ =~= call_text(*self, compiler.namespace@));
        s
    }
}

/// A `let` lowers without error: it has a declared type or an initialiser; the initialiser's
/// names are known, it has a type when none is declared, and it lowers into the variable.
pub open spec fn let_ok(l: VariableDefinement, vars: Seq<ScoreboardView>, funcs: Seq<MCFunction>) -> bool {
    match l.initialise {
        None => l.datatype is Some,
        Some(a) => resolvable(a.rhs.formula_tokens@, vars, funcs) && match l.datatype {
            Some(d) => formula_lowers_into(a.rhs.formula_tokens@, vars, d),
            None => formula_lowers(a.rhs.formula_tokens@, vars),
        },
    }
}

/// A type that a `let` can give its variable: the declared one, or the type of a resolution of
/// its initialiser. Other statements declare nothing (their placeholder type is `Int`).
pub open spec fn declared_type(a: AST, vars: Seq<ScoreboardView>, t: Type) -> bool {
    match a {
        AST::LetStatement(l) => match l.datatype {
            Some(d) => t == d,
            None => l.initialise is Some && exists|toks: Seq<IToken>|
                #[trigger] resolves_all(l.initialise->Some_0.rhs.formula_tokens@, toks, vars)
                    && guess_spec(toks) == Ok::<Type, ErrView>(t),
        },
        _ => t == Type::Int,
    }
}

/// The live variables after a statement of the block at `scope`: a `let` adds its variable.
pub open spec fn next_vars(a: AST, vars: Seq<ScoreboardView>, scope: Seq<Seq<char>>, t: Type) -> Seq<ScoreboardView> {
    match a {
        AST::LetStatement(l) => vars.push(ScoreboardView { name: l.identifier@, scope, datatype: t }),
        _ => vars,
    }
}

/// `native!(...)` with one string argument.
pub open spec fn native_ok(f: RPNFormula) -> bool {
    let args = f.formula_tokens@[0]->Mcr_1;
    args.inside@.len() == 1 && args.inside@[0].formula_tokens@.len() > 0 && args.inside@[0].formula_tokens@[0] is Str
}

/// A block, `if` or `while`.
pub open spec fn is_compound(a: AST) -> bool {
    a is CodeBlock || a is IfSyntax || a is WhileSyntax
}

/// The block of a block, `if` or `while` statement.
pub open spec fn inner_block(a: AST) -> CodeBlock
    recommends
        is_compound(a),
{
    match a {
        AST::CodeBlock(b) => b,
        AST::IfSyntax(i) => i.block,
        AST::WhileSyntax(w) => w.block,
        _ => arbitrary(),
    }
}

/// A statement other than a block, `if` or `while` lowers without error given the live
/// variables and the callable functions.
pub open spec fn simple_ok(a: AST, vars: Seq<ScoreboardView>, funcs: Seq<MCFunction>) -> bool {
    match a {
        AST::Formula(f) => if is_native(f.formula_tokens@) {
            native_ok(f)
        } else {
            resolvable(f.formula_tokens@, vars, funcs) && formula_lowers(f.formula_tokens@, vars)
        },
        AST::Assignment(x) => lookup(vars, x.lhs@) is Some && resolvable(x.rhs.formula_tokens@, vars, funcs)
            && formula_lowers_into(x.rhs.formula_tokens@, vars, lookup(vars, x.lhs@)->Some_0.datatype),
        AST::LetStatement(l) => let_ok(l, vars, funcs),
        _ => false,
    }
}

/// The condition of an `if` or `while` resolves, has a type, and lowers into a cell of it.
pub open spec fn condition_ok(a: AST, vars: Seq<ScoreboardView>, funcs: Seq<MCFunction>) -> bool {
    match a {
        AST::IfSyntax(i) => resolvable(i.condition.formula_tokens@, vars, funcs) && formula_lowers(i.condition.formula_tokens@, vars),
        AST::WhileSyntax(w) => resolvable(w.condition.formula_tokens@, vars, funcs) && formula_lowers(w.condition.formula_tokens@, vars),
        _ => true,
    }
}

/// The statements lower without error, each in the variables that the ones before it leave;
/// the block of a block, `if` or `while` statement must lower whatever its random name.
pub open spec fn stmts_ok(stmts: Seq<AST>, vars: Seq<ScoreboardView>, scope: Seq<Seq<char>>, funcs: Seq<MCFunction>) -> bool
    decreases stmts,
{
    if stmts.len() == 0 {
        true
    } else {
        let a = stmts[0];
        (if is_compound(a) {
            condition_ok(a, vars, funcs) && forall|name: Seq<char>|
                stmts_ok(inner_block(a).inside@, vars, #[trigger] scope.push(name), funcs)
        } else {
            simple_ok(a, vars, funcs)
        }) && forall|t: Type| #[trigger] declared_type(a, vars, t)
            ==> stmts_ok(stmts.subrange(1, stmts.len() as int), next_vars(a, vars, scope, t), scope, funcs)
    }
}

/// A block opened inside the block at `scope` lowers without error, whatever its random name.
pub open spec fn block_lowers(b: CodeBlock, vars: Seq<ScoreboardView>, scope: Seq<Seq<char>>, funcs: Seq<MCFunction>) -> bool {
    forall|name: Seq<char>| stmts_ok(b.inside@, vars, #[trigger] scope.push(name), funcs)
}

/// A statement of the block at `scope` lowers without error: a simple statement by
/// `simple_ok`; a block, `if` or `while` when its block lowers and its condition (if any) is
/// fine.
pub open spec fn stmt_ok(a: AST, vars: Seq<ScoreboardView>, scope: Seq<Seq<char>>, funcs: Seq<MCFunction>) -> bool {
    if is_compound(a) {
        block_lowers(inner_block(a), vars, scope, funcs) && condition_ok(a, vars, funcs)
    } else {
        simple_ok(a, vars, funcs)
    }
}

/// What lowering a statement keeps of the session: the block path and namespace stay, the live
/// variables only grow, and those added were declared in the current block.
pub open spec fn keeps_session(old: Compiler, new: Compiler) -> bool {
    &&& new.scope@ == old.scope@
    &&& new.namespace@ == old.namespace@
    &&& new.functions@ == old.functions@
    &&& new.variables@.len() >= old.variables@.len()
    &&& new.variables@.take(old.variables@.len() as int) == old.variables@
    &&& forall|k: int| old.variables@.len() <= k < new.variables@.len()
        ==> (#[trigger] new.variables@[k]).scope@.len() == new.scope@.len()
    &&& new.wf()
}

/// What lowering a block into a function keeps of the session, and the shape of the function:
/// a 32-letter name, the enclosing block path, and the live variables as they were on entry.
pub open spec fn block_post(old: Compiler, new: Compiler, f: MCFunction) -> bool {
    &&& new.scope@ == old.scope@
    &&& new.namespace@ == old.namespace@
    &&& new.functions@ == old.functions@
    &&& new.variables@ == old.variables@
    &&& new.wf()
    &&& texts(f.path@) == texts(old.scope@)
    &&& is_lower_id(f.name@, BLOCK_ID_LEN as nat)
    &&& f.returning_type == Type::NoneType
}

/// A condition normalised into `flag` (see `to_be_tail`), then the constant 0 set for the test.
pub open spec fn condition_setup(value: ScoreboardView, flag: ScoreboardView) -> Seq<CmdView> {
    to_be_tail(value, flag).push(CmdView::AssignNum { left: target_of(const_board(0)), value: 0 })
}

/// `text` renders commands that end by normalising a condition into `flag`.
pub open spec fn evaluates_into(text: Seq<char>, flag: ScoreboardView) -> bool {
    exists|cmds: Seq<CmdView>, value: ScoreboardView|
        lines_render(cmds, text) && #[trigger] ends_with(cmds, condition_setup(value, flag))
}

proof fn lemma_setup_rendered(tb: Seq<CmdView>, x: CmdView, value: ScoreboardView, flag: ScoreboardView, text: Seq<char>)
    requires
        ends_with(tb, to_be_tail(value, flag)),
        x == (CmdView::AssignNum { left: target_of(const_board(0)), value: 0 }),
        lines_render(tb.push(x), text),
    ensures
        evaluates_into(text, flag),
{
    let cmds = tb.push(x);
    let t = condition_setup(value, flag);
    assert(cmds.skip(cmds.len() - t.len()) =~= t);
    assert(ends_with(cmds, t));
}

/// The `execute` chain that runs a call when `flag` is not 0.
pub open spec fn when_set(flag: ScoreboardView) -> Seq<char> {
    chain_text(seq![CondView { is_unless: true, left: target_of(flag), comparison: "!="@, right: target_of(const_board(0)) }])
}

proof fn lemma_keeps_session(old: Compiler, new: Compiler)
    requires
        new.scope@ == old.scope@,
        new.namespace@ == old.namespace@,
        new.functions@ == old.functions@,
        new.variables@ == old.variables@,
        new.wf(),
    ensures
        keeps_session(old, new),
{
    assert(new.variables@.take(old.variables@.len() as int) =~= old.variables@);
}

impl AST {
    /// Lowers a statement to the commands that stand for it in the enclosing block; a nested
    /// block becomes a generated function and a single call line.
    pub fn serialise(&self, compiler: &mut Compiler) -> (r: Result<Vec<CommandAST>, CompileError>)
        requires
            old(compiler).wf(),
        ensures
            r is Ok ==> keeps_session(*old(compiler), *final(compiler)),
            stmt_ok(*self, old(compiler).vars(), texts(old(compiler).scope@), old(compiler).functions@) ==> r is Ok,
            r is Ok ==> exists|t: Type| declared_type(*self, old(compiler).vars(), t)
                && final(compiler).vars() == #[trigger] next_vars(*self, old(compiler).vars(), texts(old(compiler).scope@), t),
        decreases self,
    {
        match self {
            AST::CodeBlock(b) => {
                proof {
                    if stmt_ok(*self, old(compiler).vars(), texts(old(compiler).scope@), old(compiler).functions@) {
                        assert(block_lowers(*b, compiler.vars(), texts(compiler.scope@), compiler.functions@));
                    }
                }
                let f = match b.mcfunctionate(compiler) {
                    Ok(f) => f,
                    Err(e) => return Err(e),
                };
                let callment = f.call(compiler);
                compiler.compiled.push(f);
                proof {
                    lemma_keeps_session(*old(compiler), *compiler);
                    assert(declared_type(*self, old(compiler).vars(), Type::Int));
                    assert(compiler.vars() == next_vars(*self, old(compiler).vars(), texts(old(compiler).scope@), Type::Int));
                }
                Ok(vec![CommandAST::Native(callment)])
            },
            AST::IfSyntax(i) => {
                proof {
                    if stmt_ok(*self, old(compiler).vars(), texts(old(compiler).scope@), old(compiler).functions@) {
                        assert(block_lowers(i.block, compiler.vars(), texts(compiler.scope@), compiler.functions@));
                        assert(resolvable(i.condition.formula_tokens@, compiler.vars(), compiler.functions@));
                        assert(formula_lowers(i.condition.formula_tokens@, compiler.vars()));
                    }
                }
                let f = match i.mcfunctionate(compiler) {
                    Ok(f) => f,
                    Err(e) => return Err(e),
                };
                let callment = f.call(compiler);
                compiler.compiled.push(f);
                proof {
                    lemma_keeps_session(*old(compiler), *compiler);
                    assert(declared_type(*self, old(compiler).vars(), Type::Int));
                    assert(compiler.vars() == next_vars(*self, old(compiler).vars(), texts(old(compiler).scope@), Type::Int));
                }
                Ok(vec![CommandAST::Native(callment)])
            },
            AST::WhileSyntax(w) => {
                proof {
                    if stmt_ok(*self, old(compiler).vars(), texts(old(compiler).scope@), old(compiler).functions@) {
                        assert(block_lowers(w.block, compiler.vars(), texts(compiler.scope@), compiler.functions@));
                        assert(resolvable(w.condition.formula_tokens@, compiler.vars(), compiler.functions@));
                        assert(formula_lowers(w.condition.formula_tokens@, compiler.vars()));
                    }
                }
                let f = match w.mcfunctionate(compiler) {
                    Ok(f) => f,
                    Err(e) => return Err(e),
                };
                let callment = f.call(compiler);
                compiler.compiled.push(f);
                proof {
                    lemma_keeps_session(*old(compiler), *compiler);
                    assert(declared_type(*self, old(compiler).vars(), Type::Int));
                    assert(compiler.vars() == next_vars(*self, old(compiler).vars(), texts(old(compiler).scope@), Type::Int));
                }
                Ok(vec![CommandAST::Native(callment)])
            },
            AST::Assignment(a) => {
                let r = a.serialise(compiler);
                proof {
                    lemma_keeps_session(*old(compiler), *compiler);
                    assert(declared_type(*self, old(compiler).vars(), Type::Int));
                    assert(compiler.vars() == next_vars(*self, old(compiler).vars(), texts(old(compiler).scope@), Type::Int));
                }
                r
            },
            AST::Formula(f) => {
                let r = f.serialise(compiler);
                proof {
                    lemma_keeps_session(*old(compiler), *compiler);
                    assert(declared_type(*self, old(compiler).vars(), Type::Int));
                    assert(compiler.vars() == next_vars(*self, old(compiler).vars(), texts(old(compiler).scope@), Type::Int));
                }
                r
            },
            AST::LetStatement(l) => {
                let r = l.serialise(compiler);
                proof {
                    assert(*self == AST::LetStatement(*l));
                }
                r
            },
        }
    }
}

impl CodeBlock {
    /// Lowers the block into a generated function under the current block path: its statements
    /// in order, then the resets of the variables it declared.
    pub fn mcfunctionate(&self, compiler: &mut Compiler) -> (r: Result<MCFunction, CompileError>)
        requires
            old(compiler).wf(),
        ensures
            r is Ok ==> block_post(*old(compiler), *final(compiler), r->Ok_0),
            r is Ok ==> r->Ok_0.callment_prefix@.len() == 0 && r->Ok_0.preprocess@.len() == 0
                && r->Ok_0.postprocess@.len() == 0,
            r is Ok ==> exists|cmds: Seq<CmdView>| #[trigger] lines_render(cmds, r->Ok_0.inside@),
            block_lowers(*self, old(compiler).vars(), texts(old(compiler).scope@), old(compiler).functions@)
                ==> r is Ok,
            r is Ok ==> exists|cmds: Seq<CmdView>, declared: Seq<ScoreboardView>|
                lines_render(cmds, r->Ok_0.inside@) && #[trigger] ends_with(cmds, frees_of(declared).reverse())
                    && forall|k: int| 0 <= k < declared.len() ==> (#[trigger] declared[k]).scope.len() == old(compiler).scope@.len() + 1,
        decreases self,
    {
        let name = generate_random_id(BLOCK_ID_LEN);
        let path = copy_texts(&compiler.scope);
        let ghost entry_scope = compiler.scope@;
        let ghost entry_vars = compiler.variables@;
        let ghost entry_ns = compiler.namespace@;
        let seg = name.clone();
        let ghost hyp = block_lowers(*self, old(compiler).vars(), texts(old(compiler).scope@), old(compiler).functions@);
        compiler.scope.push(seg);
        proof {
            assert(texts(compiler.scope@) =~= texts(entry_scope).push(seg@));
            if hyp {
                assert(stmts_ok(self.inside@, compiler.vars(), texts(entry_scope).push(seg@), compiler.functions@));
                assert(self.inside@.subrange(0, self.inside@.len() as int) =~= self.inside@);
            }
        }
        let mut serialised: Vec<CommandAST> = Vec::new();
        let mut i: usize = 0;
        while i < self.inside.len()
            invariant
                0 <= i <= self.inside@.len(),
                compiler.scope@ == entry_scope.push(seg),
                compiler.namespace@ == entry_ns,
                compiler.functions@ == old(compiler).functions@,
                hyp == block_lowers(*self, old(compiler).vars(), texts(old(compiler).scope@), old(compiler).functions@),
                hyp ==> stmts_ok(self.inside@.subrange(i as int, self.inside@.len() as int), compiler.vars(), texts(compiler.scope@), compiler.functions@),
                compiler.variables@.len() >= entry_vars.len(),
                compiler.variables@.take(entry_vars.len() as int) == entry_vars,
                forall|k: int| 0 <= k < entry_vars.len() ==> (#[trigger] entry_vars[k]).scope@.len() <= entry_scope.len(),
                forall|k: int| entry_vars.len() <= k < compiler.variables@.len()
                    ==> (#[trigger] compiler.variables@[k]).scope@.len() == compiler.scope@.len(),
                compiler.wf(),
            decreases self.inside@.len() - i,
        {
            let ghost before = compiler.variables@;
            let ghost vars0 = compiler.vars();
            let ghost a = self.inside@[i as int];
            proof {
                if hyp {
                    let rest = self.inside@.subrange(i as int, self.inside@.len() as int);
                    assert(rest[0] == a);
                    assert(stmts_ok(rest, vars0, texts(compiler.scope@), compiler.functions@));
                    assert(stmt_ok(a, vars0, texts(compiler.scope@), compiler.functions@));
                }
            }
            match self.inside[i].serialise(compiler) {
                Ok(c) => extend_commands(&mut serialised, c),
                Err(e) => return Err(e),
            }
            proof {
                if hyp {
                    let t = choose|t: Type| declared_type(a, vars0, t)
                        && compiler.vars() == #[trigger] next_vars(a, vars0, texts(compiler.scope@), t);
                    let rest = self.inside@.subrange(i as int, self.inside@.len() as int);
                    assert(rest[0] == a);
                    assert(rest.subrange(1, rest.len() as int) =~= self.inside@.subrange(i + 1, self.inside@.len() as int));
                    assert(stmts_ok(self.inside@.subrange(i + 1, self.inside@.len() as int), compiler.vars(), texts(compiler.scope@), compiler.functions@));
                }
            }
            proof {
                assert forall|k: int| 0 <= k < entry_vars.len() implies compiler.variables@[k] == entry_vars[k] by {
                    assert(compiler.variables@.take(before.len() as int)[k] == before[k]);
                    assert(before.take(entry_vars.len() as int)[k] == entry_vars[k]);
                }
                assert(compiler.variables@.take(entry_vars.len() as int) =~= entry_vars);
                assert forall|k: int| entry_vars.len() <= k < compiler.variables@.len()
                    implies (#[trigger] compiler.variables@[k]).scope@.len() == compiler.scope@.len() by {
                    if k < before.len() {
                        assert(compiler.variables@.take(before.len() as int)[k] == before[k]);
                    }
                }
            }
            i = i + 1;
        }
        let ghost inner = compiler.variables@;
        let frees = compiler.leave_current_scope();
        proof {
            let m = compiler.variables@.len() as int;
            let e = entry_vars.len() as int;
            if m < e {
                assert(inner[m] == entry_vars[m]);
            }
            if m > e {
                assert(compiler.variables@.last() == inner[m - 1]);
            }
            assert(m == e);
            assert(compiler.variables@ =~= entry_vars);
        }
        let ghost body = cmds_view(serialised@);
        let ghost declared = boards_view(inner.skip(entry_vars.len() as int));
        extend_commands(&mut serialised, frees);
        proof {
            let tail = frees_of(declared).reverse();
            assert(cmds_view(serialised@) == body + tail);
            assert(cmds_view(serialised@).skip(body.len() as int) =~= tail);
            assert forall|k: int| 0 <= k < declared.len() implies (#[trigger] declared[k]).scope.len() == entry_scope.len() + 1 by {
                assert(declared[k] == inner[k + entry_vars.len()]@);
                assert(texts(inner[k + entry_vars.len()].scope@).len() == inner[k + entry_vars.len()].scope@.len());
            }
        }
        compiler.scope.pop();
        assert(compiler.scope@ =~= entry_scope);
        let inside = c_ast_to_string(&serialised);
        let ghost cmds = cmds_view(serialised@);
        assert(ends_with(cmds, frees_of(declared).reverse()));
        let f = MCFunction {
            name,
            inside,
            path,
            callment_prefix: String::new(),
            preprocess: String::new(),
            postprocess: String::new(),
            returning_type: Type::NoneType,
        };
        assert(lines_render(cmds, f.inside@));
        Ok(f)
    }
}

impl IfSyntax {
    /// Lowers `if`: the block's function, called when the condition, normalised to 0 or 1 in a
    /// fresh `IF_CONDITION_` cell, is not 0; the call site evaluates the condition first and
    /// resets the cells after.
    pub fn mcfunctionate(&self, compiler: &mut Compiler) -> (r: Result<MCFunction, CompileError>)
        requires
            old(compiler).wf(),
        ensures
            r is Ok ==> block_post(*old(compiler), *final(compiler), r->Ok_0),
            r is Ok ==> exists|flag: ScoreboardView|
                is_scratch(flag, "IF_CONDITION_"@, BLOCK_ID_LEN as nat, temp_scope(), flag.datatype)
                    && r->Ok_0.callment_prefix@ == #[trigger] when_set(flag)
                    && evaluates_into(r->Ok_0.preprocess@, flag)
                    && evaluates_condition(r->Ok_0.preprocess@, self.condition.formula_tokens@, old(compiler).vars(), flag)
                    && lines_render(seq![CmdView::Free { target: target_of(flag) }, CmdView::Free { target: target_of(const_board(0)) }], r->Ok_0.postprocess@),
            block_lowers(self.block, old(compiler).vars(), texts(old(compiler).scope@), old(compiler).functions@)
                && resolvable(self.condition.formula_tokens@, old(compiler).vars(), old(compiler).functions@)
                && formula_lowers(self.condition.formula_tokens@, old(compiler).vars()) ==> r is Ok,
        decreases self,
    {
        let mut mcfunction = match self.block.mcfunctionate(compiler) {
            Ok(f) => f,
            Err(e) => return Err(e),
        };
        let condition = match self.condition.to_calc_reserv(compiler) {
            Ok(c) => c,
            Err(e) => return Err(e),
        };
        proof {
            assert(resolves_all(self.condition.formula_tokens@, condition.tokens@, compiler.vars()));
        }
        let ty = match condition.guess_type() {
            Ok(t) => t,
            Err(e) => return Err(e),
        };
        let is_true = scratch_board("IF_CONDITION_", BLOCK_ID_LEN, &temp_path(), ty);
        let zero_const = get_const(0);
        let tbr = condition.to_be(&is_true);
        let ghost (value, results, adjusts) = choose|value: ScoreboardView, results: Seq<Scoreboard>, adjusts: Seq<ScoreboardView>|
            is_scratch(value, "TO_BE_"@, BLOCK_ID_LEN as nat, temp_scope(), value.datatype)
                && (guess_spec(condition.tokens@) is Ok ==> value.datatype == guess_spec(condition.tokens@)->Ok_0)
                && (forall|k: int| 0 <= k < results.len() ==> is_result_temp(#[trigger] results[k]@))
                && (forall|k: int| 0 <= k < adjusts.len() ==> is_adjust_temp(#[trigger] adjusts[k]))
                && lowered(tbr) == #[trigger] to_be_spec(condition.tokens@, value, is_true@, results, adjusts);
        let mut preprocess = match tbr {
            Ok(c) => c,
            Err(e) => return Err(e),
        };
        let ghost tb = cmds_view(preprocess@);
        let mut f = FormulaConstructer::new();
        let set_zero = f.assign_num(&zero_const, 0).build();
        assert(cmds_view(set_zero@) =~= seq![CmdView::AssignNum { left: target_of(const_board(0)), value: 0 }]);
        extend_commands(&mut preprocess, set_zero);
        mcfunction.preprocess = c_ast_to_string(&preprocess);
        proof {
            let value = choose|value: ScoreboardView|
                is_scratch(value, "TO_BE_"@, BLOCK_ID_LEN as nat, temp_scope(), value.datatype)
                    && #[trigger] ends_with(tb, to_be_tail(value, is_true@));
            assert(cmds_view(preprocess@) =~= tb.push(CmdView::AssignNum { left: target_of(const_board(0)), value: 0 }));
            lemma_setup_rendered(tb, CmdView::AssignNum { left: target_of(const_board(0)), value: 0 }, value, is_true@, mcfunction.preprocess@);
        }
        proof {
            assert(cmds_view(preprocess@) == condition_cmds(condition.tokens@, value, is_true@, results, adjusts));
            assert(lines_render(condition_cmds(condition.tokens@, value, is_true@, results, adjusts), mcfunction.preprocess@));
            assert(evaluates_condition(mcfunction.preprocess@, self.condition.formula_tokens@, old(compiler).vars(), is_true@));
        }
        mcfunction.callment_prefix = ExecuteConstructer::new().compare(&is_true, &Comparison::Neq, &zero_const).build();
        let mut g = FormulaConstructer::new();
        let frees = g.free(&is_true).free(&zero_const).build();
        assert(cmds_view(frees@) =~= seq![CmdView::Free { target: target_of(is_true@) }, CmdView::Free { target: target_of(const_board(0)) }]);
        mcfunction.postprocess = c_ast_to_string(&frees);
        assert(mcfunction.callment_prefix@ =~= when_set(is_true@));
        Ok(mcfunction)
    }
}

/// The condition normalised into `flag` through a `TO_BE_` cell (see `to_be_spec`), then the
/// constant 0 set for the test.
pub open spec fn condition_cmds(toks: Seq<IToken>, value: ScoreboardView, flag: ScoreboardView, results: Seq<Scoreboard>, adjusts: Seq<ScoreboardView>) -> Seq<CmdView> {
    to_be_spec(toks, value, flag, results, adjusts)->Ok_0.push(CmdView::AssignNum { left: target_of(const_board(0)), value: 0 })
}

/// `text` renders the condition `fts`, resolved in `vars`, normalised into `flag`.
pub open spec fn evaluates_condition(text: Seq<char>, fts: Seq<FToken>, vars: Seq<ScoreboardView>, flag: ScoreboardView) -> bool {
    exists|toks: Seq<IToken>, value: ScoreboardView, results: Seq<Scoreboard>, adjusts: Seq<ScoreboardView>|
        resolves_all(fts, toks, vars) && is_scratch(value, "TO_BE_"@, BLOCK_ID_LEN as nat, temp_scope(), value.datatype)
            && to_be_spec(toks, value, flag, results, adjusts) is Ok
            && lines_render(#[trigger] condition_cmds(toks, value, flag, results, adjusts), text)
}

/// The postprocess of a loop renders its own condition `fts` normalised into `flag`, the call of
/// the function itself when the flag is set, then the resets of the flag and of the constant 0.
pub open spec fn reevaluates(f: MCFunction, namespace: Seq<char>, fts: Seq<FToken>, vars: Seq<ScoreboardView>, flag: ScoreboardView) -> bool {
    exists|toks: Seq<IToken>, value: ScoreboardView, results: Seq<Scoreboard>, adjusts: Seq<ScoreboardView>|
        resolves_all(fts, toks, vars) && is_scratch(value, "TO_BE_"@, BLOCK_ID_LEN as nat, temp_scope(), value.datatype)
            && to_be_spec(toks, value, flag, results, adjusts) is Ok
            && lines_render(#[trigger] condition_cmds(toks, value, flag, results, adjusts) + seq![
                self_call(f, namespace),
                CmdView::Free { target: target_of(flag) },
                CmdView::Free { target: target_of(const_board(0)) },
            ], f.postprocess@)
}

/// The postprocess of a loop: the condition normalised into `flag` again, the call of the
/// function itself when the flag is set, then resets of the flag and of the constant 0.
pub open spec fn loops_back(f: MCFunction, namespace: Seq<char>, flag: ScoreboardView) -> bool {
    exists|cmds: Seq<CmdView>, value: ScoreboardView|
        lines_render(cmds, f.postprocess@) && cmds.len() >= 3
            && #[trigger] ends_with(cmds.take(cmds.len() - 3), condition_setup(value, flag))
            && cmds[cmds.len() - 3] == self_call(f, namespace)
            && cmds.skip(cmds.len() - 2) == seq![
                CmdView::Free { target: target_of(flag) },
                CmdView::Free { target: target_of(const_board(0)) },
            ]
}

/// The line by which a function calls itself when its condition holds.
pub open spec fn self_call(f: MCFunction, namespace: Seq<char>) -> CmdView {
    CmdView::Native { text: f.callment_prefix@ + "function "@ + function_ref_text(namespace, texts(f.path@), f.name@) }
}

impl WhileSyntax {
    /// Lowers `while`: like `if`, with a fresh `WHILE_CONDITION_` cell; the postprocess
    /// evaluates the condition again and, when it holds, calls the block's own function.
    pub fn mcfunctionate(&self, compiler: &mut Compiler) -> (r: Result<MCFunction, CompileError>)
        requires
            old(compiler).wf(),
        ensures
            r is Ok ==> block_post(*old(compiler), *final(compiler), r->Ok_0),
            r is Ok ==> exists|flag: ScoreboardView|
                is_scratch(flag, "WHILE_CONDITION_"@, BLOCK_ID_LEN as nat, temp_scope(), Type::Bool)
                    && r->Ok_0.callment_prefix@ == #[trigger] when_set(flag)
                    && evaluates_into(r->Ok_0.preprocess@, flag)
                    && evaluates_condition(r->Ok_0.preprocess@, self.condition.formula_tokens@, old(compiler).vars(), flag)
                    && loops_back(r->Ok_0, final(compiler).namespace@, flag)
                    && reevaluates(r->Ok_0, final(compiler).namespace@, self.condition.formula_tokens@, old(compiler).vars(), flag),
            block_lowers(self.block, old(compiler).vars(), texts(old(compiler).scope@), old(compiler).functions@)
                && resolvable(self.condition.formula_tokens@, old(compiler).vars(), old(compiler).functions@)
                && formula_lowers(self.condition.formula_tokens@, old(compiler).vars()) ==> r is Ok,
        decreases self,
    {
        let mut codeblock = match self.block.mcfunctionate(compiler) {
            Ok(f) => f,
            Err(e) => return Err(e),
        };
        let condition = match self.condition.to_calc_reserv(compiler) {
            Ok(c) => c,
            Err(e) => return Err(e),
        };
        proof {
            assert(resolves_all(self.condition.formula_tokens@, condition.tokens@, compiler.vars()));
        }
        let is_true = scratch_board("WHILE_CONDITION_", BLOCK_ID_LEN, &temp_path(), Type::Bool);
        let zero_const = get_const(0);
        let tbr = condition.to_be(&is_true);
        let ghost (value2, results, adjusts) = choose|value: ScoreboardView, results: Seq<Scoreboard>, adjusts: Seq<ScoreboardView>|
            is_scratch(value, "TO_BE_"@, BLOCK_ID_LEN as nat, temp_scope(), value.datatype)
                && (guess_spec(condition.tokens@) is Ok ==> value.datatype == guess_spec(condition.tokens@)->Ok_0)
                && (forall|k: int| 0 <= k < results.len() ==> is_result_temp(#[trigger] results[k]@))
                && (forall|k: int| 0 <= k < adjusts.len() ==> is_adjust_temp(#[trigger] adjusts[k]))
                && lowered(tbr) == #[trigger] to_be_spec(condition.tokens@, value, is_true@, results, adjusts);
        let mut eval = match tbr {
            Ok(c) => c,
            Err(e) => return Err(e),
        };
        let ghost tb = cmds_view(eval@);
        let mut f = FormulaConstructer::new();
        let set_zero = f.assign_num(&zero_const, 0).build();
        assert(cmds_view(set_zero@) =~= seq![CmdView::AssignNum { left: target_of(const_board(0)), value: 0 }]);
        extend_commands(&mut eval, set_zero);
        assert(cmds_view(eval@) =~= tb.push(CmdView::AssignNum { left: target_of(const_board(0)), value: 0 }));
        let prefix = ExecuteConstructer::new().compare(&is_true, &Comparison::Neq, &zero_const).build();
        assert(prefix@ =~= when_set(is_true@));
        let mut again = copy_commands(&eval);
        let mut line = prefix.clone();
        push_text(&mut line, "function ");
        codeblock.push_function_ref(&mut line, &compiler.namespace);
        let ghost line_text = line@;
        let ghost before = cmds_view(again@);
        again.push(CommandAST::Native(line));
        assert(cmds_view(again@)[before.len() as int] == CmdView::Native { text: line_text });
        let mut g = FormulaConstructer::new();
        let resets = g.free(&is_true).free(&zero_const).build();
        assert(cmds_view(resets@) =~= seq![
            CmdView::Free { target: target_of(is_true@) },
            CmdView::Free { target: target_of(const_board(0)) },
        ]);
        extend_commands(&mut again, resets);
        codeblock.preprocess = c_ast_to_string(&eval);
        let ghost value = choose|value: ScoreboardView|
            is_scratch(value, "TO_BE_"@, BLOCK_ID_LEN as nat, temp_scope(), value.datatype)
                && #[trigger] ends_with(tb, to_be_tail(value, is_true@));
        proof {
            lemma_setup_rendered(tb, CmdView::AssignNum { left: target_of(const_board(0)), value: 0 }, value, is_true@, codeblock.preprocess@);
        }
        codeblock.callment_prefix = prefix;
        codeblock.postprocess = c_ast_to_string(&again);
        proof {
            let cmds = cmds_view(again@);
            assert(cmds.len() == before.len() + 3);
            assert(cmds[cmds.len() - 3] == cmds_view(again@)[before.len() as int]);
            assert(cmds[cmds.len() - 3] == self_call(codeblock, compiler.namespace@));
            assert(lines_render(cmds, codeblock.postprocess@));
            assert(cmds.take(cmds.len() - 3) =~= before);
            let setup = condition_setup(value, is_true@);
            assert(before.skip(before.len() - setup.len()) =~= setup) by {
                assert(before == tb.push(CmdView::AssignNum { left: target_of(const_board(0)), value: 0 }));
                assert(tb.skip(tb.len() - to_be_tail(value, is_true@).len()) == to_be_tail(value, is_true@));
                assert forall|i: int| 0 <= i < setup.len() implies before.skip(before.len() - setup.len())[i] == setup[i] by {
                    if i < setup.len() - 1 {
                        assert(tb.skip(tb.len() - to_be_tail(value, is_true@).len())[i] == to_be_tail(value, is_true@)[i]);
                    }
                }
            }
            assert(ends_with(cmds.take(cmds.len() - 3), setup));
            assert(cmds.skip(cmds.len() - 2) =~= seq![
                CmdView::Free { target: target_of(is_true@) },
                CmdView::Free { target: target_of(const_board(0)) },
            ]);
            assert(loops_back(codeblock, compiler.namespace@, is_true@));
            let cc = condition_cmds(condition.tokens@, value2, is_true@, results, adjusts);
            assert(before == cc);
            assert(cmds =~= cc + seq![
                self_call(codeblock, compiler.namespace@),
                CmdView::Free { target: target_of(is_true@) },
                CmdView::Free { target: target_of(const_board(0)) },
            ]);
            assert(reevaluates(codeblock, compiler.namespace@, self.condition.formula_tokens@, old(compiler).vars(), is_true@));
            assert(lines_render(cc, codeblock.preprocess@));
            assert(evaluates_condition(codeblock.preprocess@, self.condition.formula_tokens@, old(compiler).vars(), is_true@));
        }
        Ok(codeblock)
    }
}

impl VariableDefinement {
    /// Lowers `let`: declares a variable of the given type, or of the initialiser's type, in the
    /// current block, and copies the initialiser into it.
    pub fn serialise(&self, compiler: &mut Compiler) -> (r: Result<Vec<CommandAST>, CompileError>)
        requires
            old(compiler).wf(),
        ensures
            r is Ok ==> keeps_session(*old(compiler), *final(compiler)),
            r is Ok ==> final(compiler).variables@.len() == old(compiler).variables@.len() + 1
                && final(compiler).variables@.last().name@ == self.identifier@
                && texts(final(compiler).variables@.last().scope@) == texts(old(compiler).scope@),
            r is Ok && self.datatype is Some ==> final(compiler).variables@.last().datatype == self.datatype->Some_0,
            r is Ok && self.datatype is None ==> self.initialise is Some,
            r is Ok && self.initialise is Some ==> exists|toks: Seq<IToken>, results: Seq<Scoreboard>, adjusts: Seq<ScoreboardView>|
                resolves_all(self.initialise->Some_0.rhs.formula_tokens@, toks, old(compiler).vars())
                    && lowered(r) == #[trigger] lower_spec(toks, final(compiler).vars().last(), results, adjusts),
            r is Ok && self.initialise is None ==> r->Ok_0@.len() == 0,
            self.datatype is None && self.initialise is None ==> r is Err
                && r->Err_0@ == ErrView::TheTypeOfAIndentifierWontBeConfirmed(self.identifier@),
            self.datatype is Some && self.initialise is None ==> r is Ok,
            let_ok(*self, old(compiler).vars(), old(compiler).functions@) ==> r is Ok,
            r is Ok ==> exists|t: Type| declared_type(AST::LetStatement(*self), old(compiler).vars(), t)
                && final(compiler).vars() == #[trigger] next_vars(AST::LetStatement(*self), old(compiler).vars(), texts(old(compiler).scope@), t),
            self.datatype is Some && self.initialise is Some
                && resolvable(self.initialise->Some_0.rhs.formula_tokens@, old(compiler).vars(), old(compiler).functions@)
                && formula_lowers_into(self.initialise->Some_0.rhs.formula_tokens@, old(compiler).vars(), self.datatype->Some_0)
                ==> r is Ok,
            self.datatype is None && self.initialise is Some
                && resolvable(self.initialise->Some_0.rhs.formula_tokens@, old(compiler).vars(), old(compiler).functions@)
                && formula_lowers(self.initialise->Some_0.rhs.formula_tokens@, old(compiler).vars())
                ==> r is Ok,
    {
        let reserv = match &self.initialise {
            Some(a) => match a.rhs.to_calc_reserv(compiler) {
                Ok(c) => {
                    proof {
                        assert(resolves_all(a.rhs.formula_tokens@, c.tokens@, compiler.vars()));
                    }
                    Some(c)
                },
                Err(e) => return Err(e),
            },
            None => None,
        };
        let datatype = match self.datatype {
            Some(t) => t,
            None => match &reserv {
                Some(c) => match c.guess_type() {
                    Ok(t) => t,
                    Err(e) => return Err(e),
                },
                None => return Err(CompileError::TheTypeOfAIndentifierWontBeConfirmed(self.identifier.clone())),
            },
        };
        let score = Scoreboard { name: self.identifier.clone(), scope: copy_texts(&compiler.scope), datatype };
        let cast = match &reserv {
            Some(c) => match c.serialise(&score) {
                Ok(v) => v,
                Err(e) => return Err(e),
            },
            None => Vec::new(),
        };
        let ghost before = compiler.variables@;
        let ghost sv = score@;
        assert(texts(score.scope@).len() == score.scope@.len());
        assert(texts(compiler.scope@).len() == compiler.scope@.len());
        compiler.variables.push(score);
        assert(compiler.variables@.take(before.len() as int) =~= before);
        assert forall|k: int| 0 <= k < compiler.variables@.len() implies (#[trigger] compiler.variables@[k]).scope@.len()
            <= compiler.scope@.len() by {
            if k < before.len() {
                assert(compiler.variables@[k] == before[k]);
            }
        }
        assert forall|a: int, b: int| 0 <= a <= b < compiler.variables@.len() implies (#[trigger] compiler.variables@[a]).scope@.len()
            <= (#[trigger] compiler.variables@[b]).scope@.len() by {
            assert(compiler.variables@[a] == if a < before.len() { before[a] } else { compiler.variables@[a] });
            if b < before.len() {
                assert(compiler.variables@[b] == before[b]);
                assert(compiler.variables@[a] == before[a]);
            }
        }
        assert(compiler.vars().last() == sv);
        proof {
            assert(compiler.vars() =~= old(compiler).vars().push(sv));
            let t = sv.datatype;
            if self.datatype is None {
                let c = reserv->Some_0;
                assert(resolves_all(self.initialise->Some_0.rhs.formula_tokens@, c.tokens@, old(compiler).vars()));
                assert(declared_type(AST::LetStatement(*self), old(compiler).vars(), t));
            }
            assert(compiler.vars() == next_vars(AST::LetStatement(*self), old(compiler).vars(), texts(old(compiler).scope@), t));
        }
        Ok(cast)
    }
}

impl Assignment {
    /// Lowers `name = formula;` into the first live variable of that name.
    pub fn serialise(&self, compiler: &mut Compiler) -> (r: Result<Vec<CommandAST>, CompileError>)
        requires
            old(compiler).wf(),
        ensures
            *final(compiler) == *old(compiler),
            lookup(old(compiler).vars(), self.lhs@) is None ==> r is Err && r->Err_0 is UndefinedIdentifierReferenced,
            r is Ok ==> lookup(old(compiler).vars(), self.lhs@) is Some && exists|toks: Seq<IToken>, results: Seq<Scoreboard>, adjusts: Seq<ScoreboardView>|
                resolves_all(self.rhs.formula_tokens@, toks, old(compiler).vars())
                    && lowered(r) == #[trigger] lower_spec(toks, lookup(old(compiler).vars(), self.lhs@)->Some_0, results, adjusts),
            lookup(old(compiler).vars(), self.lhs@) is Some && resolvable(self.rhs.formula_tokens@, old(compiler).vars(), old(compiler).functions@)
                && formula_lowers_into(self.rhs.formula_tokens@, old(compiler).vars(), lookup(old(compiler).vars(), self.lhs@)->Some_0.datatype)
                ==> r is Ok,
    {
        let store_to = match compiler.get_score(&self.lhs) {
            Some(s) => s,
            None => return Err(CompileError::UndefinedIdentifierReferenced(self.lhs.clone())),
        };
        let c = match self.rhs.to_calc_reserv(compiler) {
            Ok(c) => c,
            Err(e) => return Err(e),
        };
        let r = c.serialise(store_to);
        proof {
            assert(resolves_all(self.rhs.formula_tokens@, c.tokens@, compiler.vars()));
            let (results, adjusts) = choose|results: Seq<Scoreboard>, adjusts: Seq<ScoreboardView>|
                (forall|k: int| 0 <= k < results.len() ==> is_result_temp(#[trigger] results[k]@))
                    && (forall|k: int| 0 <= k < adjusts.len() ==> is_adjust_temp(#[trigger] adjusts[k]))
                    && lowered(r) == #[trigger] lower_spec(c.tokens@, store_to@, results, adjusts);
            assert(store_to@ == lookup(compiler.vars(), self.lhs@)->Some_0);
            assert(lowered(r) == lower_spec(c.tokens@, lookup(compiler.vars(), self.lhs@)->Some_0, results, adjusts));
        }
        r
    }
}

impl RPNFormula {
    /// Lowers a formula statement: `native!("...")` stands for its raw line; any other formula's
    /// value goes to a fresh `CALC_RESULT_` cell, which is reset right after.
    pub fn serialise(&self, compiler: &mut Compiler) -> (r: Result<Vec<CommandAST>, CompileError>)
        requires
            old(compiler).wf(),
        ensures
            *final(compiler) == *old(compiler),
            is_native(self.formula_tokens@) ==> {
                let args = self.formula_tokens@[0]->Mcr_1;
                &&& (r is Ok <==> (args.inside@.len() == 1 && args.inside@[0].formula_tokens@.len() > 0
                    && args.inside@[0].formula_tokens@[0] is Str))
                &&& (r is Ok ==> cmds_view(r->Ok_0@) == seq![CmdView::Native { text: args.inside@[0].formula_tokens@[0]->Str_0@ }])
                &&& (r is Err ==> r->Err_0 is ASyntaxErrorOccured)
            },
            !is_native(self.formula_tokens@) && resolvable(self.formula_tokens@, old(compiler).vars(), old(compiler).functions@)
                && formula_lowers(self.formula_tokens@, old(compiler).vars()) ==> r is Ok,
            !is_native(self.formula_tokens@) && r is Ok ==> exists|toks: Seq<IToken>, store: ScoreboardView, results: Seq<Scoreboard>, adjusts: Seq<ScoreboardView>|
                resolves_all(self.formula_tokens@, toks, old(compiler).vars()) && is_result_temp(store)
                    && guess_spec(toks) == Ok::<Type, ErrView>(store.datatype)
                    && #[trigger] lower_spec(toks, store, results, adjusts) is Ok
                    && cmds_view(r->Ok_0@) == lower_spec(toks, store, results, adjusts)->Ok_0.push(CmdView::Free { target: target_of(store) }),
    {
        proof {
            reveal_strlit("native");
        }
        if self.formula_tokens.len() == 1 {
            if let FToken::Mcr(name, args) = &self.formula_tokens[0] {
                if text_eq(name, "native") {
                    return match solve_native(args) {
                        Ok(c) => Ok(vec![c]),
                        Err(e) => Err(CompileError::ASyntaxErrorOccured(e)),
                    };
                }
            }
        }
        let c = match self.to_calc_reserv(compiler) {
            Ok(c) => c,
            Err(e) => return Err(e),
        };
        proof {
            assert(resolves_all(self.formula_tokens@, c.tokens@, compiler.vars()));
        }
        let ty = match c.guess_type() {
            Ok(t) => t,
            Err(e) => return Err(e),
        };
        let store_to = get_calc_result_temp(ty);
        let sr = c.serialise(&store_to);
        proof {
            assert(resolves_all(self.formula_tokens@, c.tokens@, compiler.vars()));
        }
        let ghost (results, adjusts) = choose|results: Seq<Scoreboard>, adjusts: Seq<ScoreboardView>|
            (forall|k: int| 0 <= k < results.len() ==> is_result_temp(#[trigger] results[k]@))
                && (forall|k: int| 0 <= k < adjusts.len() ==> is_adjust_temp(#[trigger] adjusts[k]))
                && results.len() == op_count(c.tokens@) && adjusts.len() == op_count(c.tokens@)
                && lowered(sr) == #[trigger] lower_spec(c.tokens@, store_to@, results, adjusts);
        let mut v = match sr {
            Ok(v) => v,
            Err(e) => return Err(e),
        };
        let ghost body = cmds_view(v@);
        extend_commands(&mut v, store_to.free());
        proof {
            assert(cmds_view(v@) =~= body.push(CmdView::Free { target: target_of(store_to@) }));
            assert(is_result_temp(store_to@));
            assert(lower_spec(c.tokens@, store_to@, results, adjusts) is Ok);
        }
        Ok(v)
    }
}

/// `native!("...")`: the one string argument becomes a raw command line.
pub fn solve_native(arg: &Tuple) -> (r: Result<CommandAST, crate::ast::SyntaxError>)
    ensures
        r is Ok <==> (arg.inside@.len() == 1 && arg.inside@[0].formula_tokens@.len() > 0
            && arg.inside@[0].formula_tokens@[0] is Str),
        r is Ok ==> r->Ok_0@ == (CmdView::Native { text: arg.inside@[0].formula_tokens@[0]->Str_0@ }),
        r is Err ==> r->Err_0 is ArgumentCountMismatch,
{
    if arg.inside.len() == 1 {
        let inside = &arg.inside[0];
        if inside.formula_tokens.len() > 0 {
            if let FToken::Str(s) = &inside.formula_tokens[0] {
                return Ok(CommandAST::Native(s.clone()));
            }
        }
    }
    Err(crate::ast::SyntaxError::ArgumentCountMismatch)
}

} // verus!
