//! The three operator families behind one type.
use vstd::prelude::*;
use crate::arithmetic_operation::{Arithmetic, arith_type, arith_spec};
use crate::command_ast::{CmdView, CommandAST};
use crate::comparison_operation::{cmp_type, cmp_spec};
use crate::compiler::{CompileError, ErrView, lowered};
use crate::logical_operation::{logic_type, logic_spec};
use crate::scoreboard::{Scoreboard, ScoreboardView, get_type_adjusted_temp, is_adjust_temp};
use crate::serialiser::IToken;
use crate::types::Type;
use crate::comparison_operation::Comparison;
use crate::logical_operation::Logical;

verus! {

/// An operator of a formula.
#[derive(Debug, Clone, Copy, PartialEq, Eq, Structural)]
pub enum Oper {
    Arithmetic(Arithmetic),
    Logical(Logical),
    Comparison(Comparison),
}

impl Oper {
    pub open spec fn priority(&self) -> u32 {
        match self {
            Oper::Arithmetic(o) => o.priority(),
            Oper::Comparison(_) => 0,
            Oper::Logical(o) => o.priority(),
        }
    }

    pub open spec fn text(&self) -> Seq<char> {
        match self {
            Oper::Arithmetic(o) => o.text(),
            Oper::Comparison(o) => o.text(),
            Oper::Logical(o) => o.text(),
        }
    }

    /// The binding priority: higher binds tighter.
    pub fn get_priority(&self) -> (r: u32)
        ensures
            r == self.priority(),
    {
        match self {
            Oper::Arithmetic(o) => o.get_priority(),
            Oper::Comparison(o) => o.get_priority(),
            Oper::Logical(o) => o.get_priority(),
        }
    }

    /// The operator's spelling.
    pub fn to_str(&self) -> (r: &'static str)
        ensures
            r@ == self.text(),
    {
        match self {
            Oper::Arithmetic(o) => o.to_str(),
            Oper::Comparison(o) => o.to_str(),
            Oper::Logical(o) => o.to_str(),
        }
    }
}

/// The result type of `left <op> right`, if the operation is defined.
pub open spec fn result_type(op: Oper, left: Type, right: Type) -> Option<Type> {
    match op {
        Oper::Arithmetic(a) => arith_type(a, left, right),
        Oper::Comparison(_) => cmp_type(left, right),
        Oper::Logical(l) => logic_type(l, left, right),
    }
}

/// The commands for `left <op> right`, stored into `left`; `ta` is the conversion scratch cell.
pub open spec fn oper_spec(op: Oper, l: ScoreboardView, right: IToken, ta: ScoreboardView) -> Result<Seq<CmdView>, ErrView> {
    match op {
        Oper::Arithmetic(a) => arith_spec(a, l, right, ta),
        Oper::Comparison(c) => cmp_spec(c, l, right, ta),
        Oper::Logical(g) => logic_spec(g, l, right),
    }
}

impl Oper {
    /// The result type of `left <self> right`, if the operation is defined.
    pub fn get_type(&self, left: &Type, right: &Type) -> (r: Option<Type>)
        ensures
            r == result_type(*self, *left, *right),
    {
        match self {
            Oper::Arithmetic(o) => o.get_type(left, right),
            Oper::Comparison(o) => o.get_type(left, right),
            Oper::Logical(o) => o.get_type(left, right),
        }
    }

    /// The commands for `left <self> right`, with `adjust` as the scratch cell of type conversions.
    pub fn calc_via(&self, left: &Scoreboard, right: &IToken, adjust: &Scoreboard) -> (r: Result<Vec<CommandAST>, CompileError>)
        ensures
            lowered(r) == oper_spec(*self, left@, *right, adjust@),
    {
        match self {
            Oper::Arithmetic(o) => o.calc_via(left, right, adjust),
            Oper::Comparison(o) => o.calc_via(left, right, adjust),
            Oper::Logical(o) => o.calc(left, right),
        }
    }

    /// The commands for `left <self> right`, the result stored into `left`.
    pub fn calc(&self, left: &Scoreboard, right: &IToken) -> (r: Result<Vec<CommandAST>, CompileError>)
        ensures
            exists|ta: ScoreboardView| is_adjust_temp(ta) && lowered(r) == #[trigger] oper_spec(*self, left@, *right, ta),
    {
        let dt = match right {
            IToken::Flt(_) => Type::Float,
            _ => match self {
                Oper::Comparison(_) => Type::Float,
                _ => Type::Int,
            },
        };
        let adjust = get_type_adjusted_temp(dt);
        assert(is_adjust_temp(adjust@));
        let r = match self {
            Oper::Arithmetic(o) => o.calc_via(left, right, &adjust),
            Oper::Comparison(o) => o.calc_via(left, right, &adjust),
            Oper::Logical(o) => o.calc(left, right),
        };
        assert(lowered(r) == oper_spec(*self, left@, *right, adjust@));
        r
    }
}

} // verus!
