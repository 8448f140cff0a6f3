//! Logical operators and their lowering.
use vstd::prelude::*;
use crate::command_ast::{CmdView, CommandAST, FormulaConstructer, target_of, frees_of, cmds_view, boolify_cmd};
use crate::compiler::{CompileError, ErrView, lowered};
use crate::evaluater::Oper;
use crate::scoreboard::{Scoreboard, ScoreboardView, const_board};
use crate::serialiser::IToken;
use crate::types::Type;

verus! {

/// The logical operators `& | !`; `!` is reserved and has no lowering.
#[derive(Debug, Clone, Copy, PartialEq, Eq, Structural)]
pub enum Logical {
    And,
    Or,
    Not,
}

impl Logical {
    pub open spec fn priority(&self) -> u32 {
        match self {
            Logical::And | Logical::Or => 1,
            Logical::Not => 0,
        }
    }

    pub open spec fn text(&self) -> Seq<char> {
        match self {
            Logical::And => "&"@,
            Logical::Or => "|"@,
            Logical::Not => "!"@,
        }
    }

    /// `& |` bind tighter than comparisons and looser than arithmetic.
    pub fn get_priority(&self) -> (r: u32)
        ensures
            r == self.priority(),
    {
        match self {
            Logical::And | Logical::Or => 1,
            Logical::Not => 0,
        }
    }

    /// The operator's spelling.
    pub fn to_str(&self) -> (r: &'static str)
        ensures
            r@ == self.text(),
    {
        match self {
            Logical::And => "&",
            Logical::Or => "|",
            Logical::Not => "!",
        }
    }
}

/// `& |` take and give `Bool`; `!` has no lowering.
pub open spec fn logic_type(op: Logical, left: Type, right: Type) -> Option<Type> {
    if op != Logical::Not && left == Type::Bool && right == Type::Bool {
        Some(Type::Bool)
    } else {
        None
    }
}

/// `left <op> right` on two boolean cells: `&` multiplies, `|` adds and clamps back to 1.
pub open spec fn logic_score_spec(op: Logical, l: ScoreboardView, r: ScoreboardView) -> Result<Seq<CmdView>, ErrView> {
    let lt = target_of(l);
    let rt = target_of(r);
    if l.datatype == Type::Bool && r.datatype == Type::Bool {
        match op {
            Logical::And => Ok(seq![CmdView::Calc { left: lt, op: "*="@, right: rt }]),
            Logical::Or => Ok(seq![
                CmdView::Calc { left: lt, op: "+="@, right: rt },
                CmdView::AssignNum { left: target_of(const_board(0)), value: 0 },
                boolify_cmd(lt, true, "=="@, target_of(const_board(0))),
            ] + frees_of(seq![const_board(0)])),
            Logical::Not => Err(ErrView::UndefinedOperation(l.datatype, Oper::Logical(op), r.datatype)),
        }
    } else {
        Err(ErrView::UndefinedOperation(l.datatype, Oper::Logical(op), r.datatype))
    }
}

/// `left <op> b` for a boolean literal: the literal decides without reading `left`.
pub open spec fn logic_bool_spec(op: Logical, l: ScoreboardView, b: bool) -> Result<Seq<CmdView>, ErrView> {
    let lt = target_of(l);
    if l.datatype != Type::Bool {
        Err(ErrView::UndefinedOperation(l.datatype, Oper::Logical(op), Type::Bool))
    } else {
        match op {
            Logical::And => if b { Ok(Seq::empty()) } else { Ok(seq![CmdView::AssignNum { left: lt, value: 0 }]) },
            Logical::Or => if b { Ok(seq![CmdView::AssignNum { left: lt, value: 1 }]) } else { Ok(Seq::empty()) },
            Logical::Not => Err(ErrView::UndefinedOperation(l.datatype, Oper::Logical(op), Type::Bool)),
        }
    }
}

/// `left <op> right`, stored back into `left`.
pub open spec fn logic_spec(op: Logical, l: ScoreboardView, right: IToken) -> Result<Seq<CmdView>, ErrView> {
    match right {
        IToken::Scr(s) => logic_score_spec(op, l, s@),
        IToken::Bln(b) => logic_bool_spec(op, l, b),
        IToken::Int(_) => Err(ErrView::UndefinedOperation(l.datatype, Oper::Logical(op), Type::Int)),
        IToken::Flt(_) => Err(ErrView::UndefinedOperation(l.datatype, Oper::Logical(op), Type::Float)),
        _ => Err(ErrView::TheTokenIsntValue(right@)),
    }
}

impl Logical {
    /// `Bool` for `& |` on booleans.
    pub fn get_type(&self, left: &Type, right: &Type) -> (r: Option<Type>)
        ensures
            r == logic_type(*self, *left, *right),
    {
        match (self, left, right) {
            (Logical::Not, _, _) => None,
            (_, Type::Bool, Type::Bool) => Some(Type::Bool),
            _ => None,
        }
    }

    /// The commands for `left <self> right`, the result stored back into `left`.
    pub fn calc(&self, left: &Scoreboard, right: &IToken) -> (r: Result<Vec<CommandAST>, CompileError>)
        ensures
            lowered(r) == logic_spec(*self, left@, *right),
    {
        match right {
            IToken::Scr(s) => self.logicalc_score(left, s),
            IToken::Bln(b) => self.logicalc_bool(left, *b),
            IToken::Int(_) => Err(CompileError::UndefinedOperation(left.datatype, Oper::Logical(*self), Type::Int)),
            IToken::Flt(_) => Err(CompileError::UndefinedOperation(left.datatype, Oper::Logical(*self), Type::Float)),
            _ => Err(CompileError::TheTokenIsntValue(right.without_arguments())),
        }
    }

    fn logicalc_score(&self, left: &Scoreboard, right: &Scoreboard) -> (r: Result<Vec<CommandAST>, CompileError>)
        ensures
            lowered(r) == logic_score_spec(*self, left@, right@),
    {
        let mut f = FormulaConstructer::new();
        let ghost spec = logic_score_spec(*self, left@, right@);
        let undefined = CompileError::UndefinedOperation(left.datatype, Oper::Logical(*self), right.datatype);
        match (left.datatype, right.datatype) {
            (Type::Bool, Type::Bool) => match self {
                Logical::And => {
                    let v = f.calc_score(left, "*=".to_string(), right).build();
                    assert(cmds_view(v@) =~= spec->Ok_0);
                    Ok(v)
                },
                Logical::Or => {
                    let v = f.calc_score(left, "+=".to_string(), right).validate_bool(left).build();
                    assert(cmds_view(v@) =~= spec->Ok_0);
                    Ok(v)
                },
                Logical::Not => Err(undefined),
            },
            _ => Err(undefined),
        }
    }

    fn logicalc_bool(&self, left: &Scoreboard, right: bool) -> (r: Result<Vec<CommandAST>, CompileError>)
        ensures
            lowered(r) == logic_bool_spec(*self, left@, right),
    {
        let mut f = FormulaConstructer::new();
        let ghost spec = logic_bool_spec(*self, left@, right);
        let undefined = CompileError::UndefinedOperation(left.datatype, Oper::Logical(*self), Type::Bool);
        match left.datatype {
            Type::Bool => match self {
                Logical::And => if right {
                    let v: Vec<CommandAST> = Vec::new();
                    assert(cmds_view(v@) =~= spec->Ok_0);
                    Ok(v)
                } else {
                    let v = f.assign_num(left, 0).build();
                    assert(cmds_view(v@) =~= spec->Ok_0);
                    Ok(v)
                },
                Logical::Or => if right {
                    let v = f.assign_num(left, 1).build();
                    assert(cmds_view(v@) =~= spec->Ok_0);
                    Ok(v)
                } else {
                    let v: Vec<CommandAST> = Vec::new();
                    assert(cmds_view(v@) =~= spec->Ok_0);
                    Ok(v)
                },
                Logical::Not => Err(undefined),
            },
            _ => Err(undefined),
        }
    }
}

} // verus!
