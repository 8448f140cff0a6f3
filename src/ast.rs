//! The syntax tree of the language.
use vstd::prelude::*;
use crate::evaluater::Oper;
use crate::tokeniser::Token;
use crate::types::{Type, type_label};
use crate::tokeniser::token_text;
use crate::text::push_text;

verus! {

/// A formula token before identifiers are resolved.
#[derive(Debug)]
pub enum FToken {
    Int(i32),
    /// A float literal, held as its value times 1000, truncated.
    Flt(i64),
    Bln(bool),
    Scr(String),
    Fnc(String, Tuple),
    Mcr(String, Tuple),
    Str(String),
    Oper(Oper),
    LParen,
    RParen,
}

impl FToken {
    pub open spec fn spec_is_value(&self) -> bool {
        self is Int || self is Flt || self is Bln || self is Scr || self is Fnc || self is Mcr
    }

    /// Literals, identifiers and calls.
    pub fn is_value(&self) -> (r: bool)
        ensures
            r == self.spec_is_value(),
    {
        match self {
            FToken::Int(_) | FToken::Flt(_) | FToken::Bln(_) | FToken::Scr(_) | FToken::Fnc(_, _) | FToken::Mcr(_, _) => true,
            _ => false,
        }
    }

    /// Operators.
    pub fn is_operator(&self) -> (r: bool)
        ensures
            r == (self is Oper),
    {
        match self {
            FToken::Oper(_) => true,
            _ => false,
        }
    }
}

/// What the syntax analyser and the formula converter reject.
#[derive(Debug, Clone)]
pub enum SyntaxError {
    ExpectedAToken(String),
    EmptyFormula,
    InvalidFormAs(String),
    UndefinedOperationFound(Type, Oper, Type),
    NotEnoughOperand,
    OperatorAtInvalidPosition(Oper),
    UnbalancedBraces,
    UnbalancedParentheses,
    TokenEndsUnexpectedly,
    ALineMustntStartWith(Token),
    InvalidTokenInAFormula(Token),
    ArgumentCountMismatch,
}

/// A syntax error as a message.
pub open spec fn syntax_message(e: SyntaxError) -> Seq<char> {
    match e {
        SyntaxError::ExpectedAToken(t) => "A token, "@ + t@ + " is expected."@,
        SyntaxError::EmptyFormula => "Empty formula was given."@,
        SyntaxError::InvalidFormAs(t) => "The given tokens have an invalid form as "@ + t@,
        SyntaxError::UndefinedOperationFound(l, o, r) => "An undefined operation, "@ + type_label(l) + " "@ + o.text()
            + " "@ + type_label(r) + " occured."@,
        SyntaxError::NotEnoughOperand => "Not enough operand. Add a operand or remove the last operator."@,
        SyntaxError::OperatorAtInvalidPosition(o) => "An operator, "@ + o.text() + " is in invalid position."@,
        SyntaxError::UnbalancedBraces => "Unbalanced braces found. Please make sure that it's closed."@,
        SyntaxError::UnbalancedParentheses => "Unbalanced parentheses found. Please make sure that it's closed."@,
        SyntaxError::TokenEndsUnexpectedly => "Token was ended unexpectedly. This syntax perhaps expects more tokens."@,
        SyntaxError::ALineMustntStartWith(t) => "A line mustn't starts with a token, "@ + token_text(t) + "."@,
        SyntaxError::InvalidTokenInAFormula(t) => "The token, "@ + token_text(t)
            + " doesn't constract formulas. It mustn't be in a formula."@,
        SyntaxError::ArgumentCountMismatch => "The function was given fewer or too many arguments."@,
    }
}

impl SyntaxError {
    /// The error as a message.
    pub fn message(&self) -> (r: String)
        ensures
            r@ == syntax_message(*self),
    {
        let mut s = String::new();
        match self {
            SyntaxError::ExpectedAToken(t) => {
                push_text(&mut s, "A token, ");
                push_text(&mut s, t.as_str());
                push_text(&mut s, " is expected.");
            },
            SyntaxError::EmptyFormula => push_text(&mut s, "Empty formula was given."),
            SyntaxError::InvalidFormAs(t) => {
                push_text(&mut s, "The given tokens have an invalid form as ");
                push_text(&mut s, t.as_str());
            },
            SyntaxError::UndefinedOperationFound(l, o, r) => {
                push_text(&mut s, "An undefined operation, ");
                push_text(&mut s, l.name());
                push_text(&mut s, " ");
                push_text(&mut s, o.to_str());
                push_text(&mut s, " ");
                push_text(&mut s, r.name());
                push_text(&mut s, " occured.");
            },
            SyntaxError::NotEnoughOperand => push_text(&mut s, "Not enough operand. Add a operand or remove the last operator."),
            SyntaxError::OperatorAtInvalidPosition(o) => {
                push_text(&mut s, "An operator, ");
                push_text(&mut s, o.to_str());
                push_text(&mut s, " is in invalid position.");
            },
            SyntaxError::UnbalancedBraces => push_text(&mut s, "Unbalanced braces found. Please make sure that it's closed."),
            SyntaxError::UnbalancedParentheses => push_text(&mut s, "Unbalanced parentheses found. Please make sure that it's closed."),
            SyntaxError::TokenEndsUnexpectedly => push_text(&mut s, "Token was ended unexpectedly. This syntax perhaps expects more tokens."),
            SyntaxError::ALineMustntStartWith(t) => {
                push_text(&mut s, "A line mustn't starts with a token, ");
                push_text(&mut s, t.text().as_str());
                push_text(&mut s, ".");
            },
            SyntaxError::InvalidTokenInAFormula(t) => {
                push_text(&mut s, "The token, ");
                push_text(&mut s, t.text().as_str());
                push_text(&mut s, " doesn't constract formulas. It mustn't be in a formula.");
            },
            SyntaxError::ArgumentCountMismatch => push_text(&mut s, "The function was given fewer or too many arguments."),
        }
        assert(s@ =~= syntax_message(*self));
        s
    }
}

/// A statement.
#[derive(Debug)]
pub enum AST {
    Formula(RPNFormula),
    CodeBlock(CodeBlock),
    IfSyntax(IfSyntax),
    WhileSyntax(WhileSyntax),
    LetStatement(VariableDefinement),
    Assignment(Assignment),
}

/// A formula in infix order.
#[derive(Debug)]
pub struct Formula {
    pub formula_tokens: Vec<FToken>,
}

/// A formula in reverse Polish order.
#[derive(Debug)]
pub struct RPNFormula {
    pub formula_tokens: Vec<FToken>,
}

/// A block of statements.
#[derive(Debug)]
pub struct CodeBlock {
    pub inside: Vec<AST>,
}

/// `if <condition> { ... }`.
#[derive(Debug)]
pub struct IfSyntax {
    pub condition: RPNFormula,
    pub block: CodeBlock,
}

/// `while <condition> { ... }`.
#[derive(Debug)]
pub struct WhileSyntax {
    pub condition: RPNFormula,
    pub block: CodeBlock,
}

/// `let <identifier> (: <type>)? (= <formula>)?`.
#[derive(Debug)]
pub struct VariableDefinement {
    pub identifier: String,
    pub datatype: Option<Type>,
    pub initialise: Option<Assignment>,
}

/// `<identifier> = <formula>;`.
#[derive(Debug)]
pub struct Assignment {
    pub lhs: String,
    pub rhs: RPNFormula,
}

/// A parameter of a function declaration.
#[derive(Debug, Clone)]
pub struct Arguments {
    pub name: String,
    pub datatype: Type,
}

/// A function declaration; the language has no lowering for it.
#[derive(Debug)]
pub struct FunctionDefinement {
    pub func_name: String,
    pub datatype: Type,
    pub arguments: Vec<Arguments>,
    pub block: CodeBlock,
}

/// The parenthesised arguments of a call.
#[derive(Debug)]
pub struct Tuple {
    pub inside: Vec<Formula>,
}

/// The number of `(` minus the number of `)`.
pub open spec fn depth(ts: Seq<FToken>) -> int
    decreases ts.len(),
{
    if ts.len() == 0 {
        0
    } else {
        depth(ts.drop_last()) + if ts.last() is LParen { 1int } else if ts.last() is RParen { -1int } else { 0int }
    }
}

/// Every `)` closes an earlier `(`, and every `(` is closed.
pub open spec fn balanced(ts: Seq<FToken>) -> bool {
    &&& forall|k: int| 0 <= k <= ts.len() ==> depth(#[trigger] ts.take(k)) >= 0
    &&& depth(ts) == 0
}

/// The number of `(` on a stack.
pub open spec fn lparens(s: Seq<FToken>) -> int
    decreases s.len(),
{
    if s.len() == 0 {
        0
    } else {
        lparens(s.drop_last()) + if s.last() is LParen { 1int } else { 0int }
    }
}

/// Moves operators of priority strictly greater than `p` from the top of the stack to the output.
pub open spec fn pop_higher(q: Seq<FToken>, s: Seq<FToken>, p: u32) -> (Seq<FToken>, Seq<FToken>)
    decreases s.len(),
{
    if s.len() > 0 && s.last() is Oper && s.last()->Oper_0.priority() > p {
        pop_higher(q.push(s.last()), s.drop_last(), p)
    } else {
        (q, s)
    }
}

/// Moves the stack to the output down to the nearest `(`, which is dropped; `None` without one.
pub open spec fn pop_to_paren(q: Seq<FToken>, s: Seq<FToken>) -> Option<(Seq<FToken>, Seq<FToken>)>
    decreases s.len(),
{
    if s.len() == 0 {
        None
    } else if s.last() is LParen {
        Some((q, s.drop_last()))
    } else {
        pop_to_paren(q.push(s.last()), s.drop_last())
    }
}

/// One step of the conversion: values go to the output; an operator first moves the stacked
/// operators that bind strictly tighter; `(` is stacked; `)` unwinds to its `(`.
pub open spec fn rpn_step(qs: Option<(Seq<FToken>, Seq<FToken>)>, t: FToken) -> Option<(Seq<FToken>, Seq<FToken>)> {
    match qs {
        None => None,
        Some((q, s)) => if t is Oper {
            let (q2, s2) = pop_higher(q, s, t->Oper_0.priority());
            Some((q2, s2.push(t)))
        } else if t is LParen {
            Some((q, s.push(t)))
        } else if t is RParen {
            pop_to_paren(q, s)
        } else {
            Some((q.push(t), s))
        },
    }
}

/// The output and the stack after reading the tokens.
pub open spec fn rpn_state(ts: Seq<FToken>) -> Option<(Seq<FToken>, Seq<FToken>)>
    decreases ts.len(),
{
    if ts.len() == 0 {
        Some((Seq::empty(), Seq::empty()))
    } else {
        rpn_step(rpn_state(ts.drop_last()), ts.last())
    }
}

/// The reverse Polish form: the output followed by the stack from its top down.
pub open spec fn rpn_spec(ts: Seq<FToken>) -> Seq<FToken> {
    let (q, s) = rpn_state(ts)->Some_0;
    q + s.reverse()
}

proof fn lemma_pop_higher_lparens(q: Seq<FToken>, s: Seq<FToken>, p: u32)
    ensures
        lparens(pop_higher(q, s, p).1) == lparens(s),
    decreases s.len(),
{
    if s.len() > 0 && s.last() is Oper && s.last()->Oper_0.priority() > p {
        lemma_pop_higher_lparens(q.push(s.last()), s.drop_last(), p);
    }
}

proof fn lemma_pop_to_paren_lparens(q: Seq<FToken>, s: Seq<FToken>)
    ensures
        pop_to_paren(q, s) is Some <==> lparens(s) > 0,
        pop_to_paren(q, s) is Some ==> lparens(pop_to_paren(q, s)->Some_0.1) == lparens(s) - 1,
    decreases s.len(),
{
    if s.len() > 0 && !(s.last() is LParen) {
        lemma_pop_to_paren_lparens(q.push(s.last()), s.drop_last());
    }
    if s.len() > 0 {
        assert(lparens(s) == lparens(s.drop_last()) + if s.last() is LParen { 1int } else { 0int });
        lemma_lparens_nonneg(s.drop_last());
    }
}

proof fn lemma_lparens_nonneg(s: Seq<FToken>)
    ensures
        lparens(s) >= 0,
    decreases s.len(),
{
    if s.len() > 0 {
        lemma_lparens_nonneg(s.drop_last());
    }
}

/// The conversion succeeds on a prefix exactly when no `)` in it is unmatched, and then the
/// stack holds one `(` per open parenthesis.
proof fn lemma_rpn_state_depth(ts: Seq<FToken>)
    ensures
        rpn_state(ts) is Some <==> forall|k: int| 0 <= k <= ts.len() ==> depth(#[trigger] ts.take(k)) >= 0,
        rpn_state(ts) is Some ==> lparens(rpn_state(ts)->Some_0.1) == depth(ts),
    decreases ts.len(),
{
    assert(ts.take(ts.len() as int) =~= ts);
    if ts.len() > 0 {
        let init = ts.drop_last();
        lemma_rpn_state_depth(init);
        assert forall|k: int| 0 <= k <= init.len() implies #[trigger] init.take(k) == ts.take(k) by {
            assert(init.take(k) =~= ts.take(k));
        }
        assert(depth(ts) == depth(init) + if ts.last() is LParen { 1int } else if ts.last() is RParen { -1int } else { 0int });
        assert(init.take(init.len() as int) =~= init);
        match rpn_state(init) {
            Some((q, s)) => {
                let t = ts.last();
                if t is Oper {
                    lemma_pop_higher_lparens(q, s, t->Oper_0.priority());
                    let s2 = pop_higher(q, s, t->Oper_0.priority()).1;
                    assert(s2.push(t).drop_last() =~= s2);
                } else if t is LParen {
                    assert(s.push(t).drop_last() =~= s);
                } else if t is RParen {
                    lemma_pop_to_paren_lparens(q, s);
                } else {
                }
                if rpn_state(ts) is Some {
                    assert forall|k: int| 0 <= k <= ts.len() implies depth(#[trigger] ts.take(k)) >= 0 by {
                        if k < ts.len() {
                            assert(init.take(k) == ts.take(k));
                        }
                    }
                }
                lemma_lparens_nonneg(s);
            },
            None => {
                let k0 = choose|k: int| 0 <= k <= init.len() && depth(#[trigger] init.take(k)) < 0;
                assert(init.take(k0) == ts.take(k0));
            },
        }
    }
}

/// Shunting-yard terminates normally exactly when the parentheses balance: a formula whose
/// parentheses balance converts, and one whose parentheses do not is rejected.
pub proof fn lemma_rpn_balanced(ts: Seq<FToken>)
    ensures
        (rpn_state(ts) is Some && lparens(rpn_state(ts)->Some_0.1) == 0) <==> balanced(ts),
{
    lemma_rpn_state_depth(ts);
}

impl Formula {
    /// Converts the formula to reverse Polish order.
    pub fn to_rpn(self) -> (r: Result<RPNFormula, SyntaxError>)
        ensures
            self.formula_tokens@.len() == 0 ==> r is Err && r->Err_0 is EmptyFormula,
            self.formula_tokens@.len() > 0 ==> (r is Ok <==> balanced(self.formula_tokens@)),
            self.formula_tokens@.len() > 0 && !balanced(self.formula_tokens@) ==> r is Err && r->Err_0 is UnbalancedParentheses,
            r is Ok ==> r->Ok_0.formula_tokens@ == rpn_spec(self.formula_tokens@),
    {
        let ghost ts = self.formula_tokens@;
        if self.formula_tokens.len() == 0 {
            return Err(SyntaxError::EmptyFormula);
        }
        let mut input = self.formula_tokens;
        let mut queue: Vec<FToken> = Vec::new();
        let mut stack: Vec<FToken> = Vec::new();
        let mut open: usize = 0;
        let n = input.len();
        assert(ts.take(0) =~= Seq::<FToken>::empty());
        while input.len() > 0
            invariant
                n == ts.len(),
                n > 0,
                ts == self.formula_tokens@,
                input@.len() <= n,
                input@ == ts.skip(n - input@.len()),
                rpn_state(ts.take(n - input@.len())) == Some((queue@, stack@)),
                open as int == lparens(stack@),
                open <= n - input@.len(),
            decreases input@.len(),
        {
            let ghost i = n - input@.len();
            proof {
                lemma_rpn_state_depth(ts.take(i));
            }
            assert(ts.take(i + 1).drop_last() =~= ts.take(i));
            assert(input@[0] == ts[i]);
            let t = input.remove(0);
            assert(input@ =~= ts.skip(n - input@.len()));
            assert(ts.take(i + 1).last() == t);
            if t.is_operator() {
                let p = match &t {
                    FToken::Oper(o) => o.get_priority(),
                    _ => 0,
                };
                loop
                    invariant
                        pop_higher(queue@, stack@, p) == pop_higher(
                            rpn_state(ts.take(i))->Some_0.0,
                            rpn_state(ts.take(i))->Some_0.1,
                            p,
                        ),
                        open as int == lparens(stack@),
                        lparens(stack@) == lparens(rpn_state(ts.take(i))->Some_0.1),
                    ensures
                        !(stack@.len() > 0 && stack@.last() is Oper && stack@.last()->Oper_0.priority() > p),
                    decreases stack@.len(),
                {
                    let higher = match stack.last() {
                        Some(FToken::Oper(o)) => o.get_priority() > p,
                        _ => false,
                    };
                    if !higher {
                        break;
                    }
                    let ghost s0 = stack@;
                    let top = stack.pop().unwrap();
                    assert(s0.drop_last() =~= stack@);
                    assert(lparens(s0) == lparens(stack@) + if top is LParen { 1int } else { 0int });
                    queue.push(top);
                }
                let ghost before = stack@;
                assert(pop_higher(queue@, stack@, p) == (queue@, stack@));
                stack.push(t);
                assert(stack@.drop_last() =~= before);
                assert(lparens(stack@) == lparens(before));
                assert(rpn_state(ts.take(i + 1)) == Some((queue@, stack@)));
            } else {
                match t {
                    FToken::LParen => {
                        let ghost before = stack@;
                        stack.push(t);
                        open = open + 1;
                        assert(stack@.drop_last() =~= before);
                        assert(rpn_state(ts.take(i + 1)) == Some((queue@, stack@)));
                    },
                    FToken::RParen => {
                        if open == 0 {
                            proof {
                                lemma_pop_to_paren_lparens(queue@, stack@);
                                lemma_rpn_state_depth(ts.take(i + 1));
                                assert(ts.take(i + 1).take(i + 1) =~= ts.take(i + 1));
                                assert(ts.take(i + 1) == ts.take(i + 1));
                                assert(depth(ts.take(i + 1)) < 0);
                                assert(!balanced(ts));
                            }
                            return Err(SyntaxError::UnbalancedParentheses);
                        }
                        proof {
                            lemma_pop_to_paren_lparens(queue@, stack@);
                        }
                        loop
                            invariant_except_break
                                pop_to_paren(queue@, stack@) == pop_to_paren(
                                    rpn_state(ts.take(i))->Some_0.0,
                                    rpn_state(ts.take(i))->Some_0.1,
                                ),
                                pop_to_paren(queue@, stack@) is Some,
                            ensures
                                Some((queue@, stack@)) == pop_to_paren(
                                    rpn_state(ts.take(i))->Some_0.0,
                                    rpn_state(ts.take(i))->Some_0.1,
                                ),
                            decreases stack@.len(),
                        {
                            let ghost s0 = stack@;
                            let top = stack.pop().unwrap();
                            assert(s0.drop_last() =~= stack@);
                            match top {
                                FToken::LParen => break,
                                _ => queue.push(top),
                            }
                        }
                        proof {
                            lemma_pop_to_paren_lparens(rpn_state(ts.take(i))->Some_0.0, rpn_state(ts.take(i))->Some_0.1);
                        }
                        open = open - 1;
                        assert(rpn_state(ts.take(i + 1)) == Some((queue@, stack@)));
                    },
                    _ => {
                        queue.push(t);
                        assert(rpn_state(ts.take(i + 1)) == Some((queue@, stack@)));
                    },
                }
            }
        }
        assert(ts.take(n as int) =~= ts);
        proof {
            lemma_rpn_balanced(ts);
            lemma_rpn_state_depth(ts);
        }
        if open > 0 {
            return Err(SyntaxError::UnbalancedParentheses);
        }
        let ghost q0 = queue@;
        let ghost s0 = stack@;
        while stack.len() > 0
            invariant
                queue@ + stack@.reverse() == q0 + s0.reverse(),
            decreases stack@.len(),
        {
            let ghost sb = stack@;
            let top = stack.pop().unwrap();
            queue.push(top);
            assert(sb.reverse() =~= seq![top] + stack@.reverse());
            assert(queue@ + stack@.reverse() =~= q0 + s0.reverse());
        }
        assert(stack@.reverse() =~= Seq::<FToken>::empty());
        assert(queue@ =~= q0 + s0.reverse());
        Ok(RPNFormula { formula_tokens: queue })
    }
}

} // verus!
