//! What the emitted commands do to the runtime's score cells, and the laws that follow.
use vstd::prelude::*;
use crate::command_ast::{CmdView, CondView, TargetView, target_of, cmd_renders, is_flag_temp, boolify_text};
use crate::comparison_operation::const_compare_cmds;
use crate::scoreboard::{ScoreboardView, assign_spec, literal_value, const_board, mcname};
use crate::serialiser::{IToken, to_be_tail, ends_with, condition_setup};
use crate::types::{Type, wrap_i32, trunc_div};

verus! {

/// The runtime's cells: player name to value. A cell that was never set or was reset is absent.
pub type Scores = Map<Seq<char>, int>;

/// `a <cmp> b` for a comparison as the language spells it.
pub open spec fn compares(a: int, cmp: Seq<char>, b: int) -> bool {
    if cmp == "<"@ {
        a < b
    } else if cmp == "<="@ {
        a <= b
    } else if cmp == ">"@ {
        a > b
    } else if cmp == ">="@ {
        a >= b
    } else {
        a == b
    }
}

/// Whether a condition of an `execute` chain passes: an `if` needs both cells set and the
/// comparison to hold; `unless` (and `!=`, which renders as `unless ... =`) is its negation.
pub open spec fn cond_holds(s: Scores, c: CondView) -> bool {
    let l = c.left.player;
    let r = c.right.player;
    let both = s.contains_key(l) && s.contains_key(r);
    if c.comparison == "!="@ {
        !(both && s[l] == s[r])
    } else if c.is_unless {
        !(both && compares(s[l], c.comparison, s[r]))
    } else {
        both && compares(s[l], c.comparison, s[r])
    }
}

/// Every condition of the chain passes.
pub open spec fn chain_holds(s: Scores, conds: Seq<CondView>) -> bool {
    forall|i: int| 0 <= i < conds.len() ==> cond_holds(s, #[trigger] conds[i])
}

/// A cell's value, 0 when unset.
pub open spec fn value_or_zero(s: Scores, p: Seq<char>) -> int {
    if s.contains_key(p) { s[p] } else { 0 }
}

/// The in-place operation `a <op> b` of `scoreboard players operation`.
pub open spec fn apply_op(op: Seq<char>, a: int, b: int) -> int {
    if op == "+="@ {
        wrap_i32(a + b)
    } else if op == "-="@ {
        wrap_i32(a - b)
    } else if op == "*="@ {
        wrap_i32(a * b)
    } else if op == "/="@ {
        if b == 0 { a } else { wrap_i32(a / b) }
    } else if op == "%="@ {
        if b == 0 { a } else { a % b }
    } else if op == "<"@ {
        if b < a { b } else { a }
    } else if op == ">"@ {
        if b > a { b } else { a }
    } else {
        b
    }
}

/// The effect of one command. A boolean normalisation stores 1 or 0; a native line is opaque
/// and left out of the model.
pub open spec fn exec_cmd(s: Scores, c: CmdView) -> Scores {
    match c {
        CmdView::Calc { left, op, right } => if s.contains_key(left.player) && s.contains_key(right.player) {
            if op == "><"@ {
                s.insert(left.player, s[right.player]).insert(right.player, s[left.player])
            } else {
                s.insert(left.player, apply_op(op, s[left.player], s[right.player]))
            }
        } else {
            s
        },
        CmdView::AddRem { left, add_rem, amount } => {
            let v = value_or_zero(s, left.player);
            s.insert(left.player, wrap_i32(if add_rem == "add"@ { v + amount } else { v - amount }))
        },
        CmdView::AssignScore { left, right } => if s.contains_key(right.player) {
            s.insert(left.player, s[right.player])
        } else {
            s
        },
        CmdView::AssignNum { left, value } => s.insert(left.player, value as int),
        CmdView::Boolify { contain_to, conditions } => s.insert(
            contain_to.player,
            if chain_holds(s, conditions) { 1int } else { 0int },
        ),
        CmdView::Free { target } => s.remove(target.player),
        CmdView::Native { .. } => s,
    }
}

/// The effect of a list of commands run in order.
pub open spec fn exec_cmds(s: Scores, cmds: Seq<CmdView>) -> Scores
    decreases cmds.len(),
{
    if cmds.len() == 0 {
        s
    } else {
        exec_cmd(exec_cmds(s, cmds.drop_last()), cmds.last())
    }
}

proof fn lemma_exec_append(s: Scores, a: Seq<CmdView>, b: Seq<CmdView>)
    ensures
        exec_cmds(s, a + b) == exec_cmds(exec_cmds(s, a), b),
    decreases b.len(),
{
    if b.len() == 0 {
        assert(a + b =~= a);
    } else {
        assert((a + b).drop_last() =~= a + b.drop_last());
        lemma_exec_append(s, a, b.drop_last());
    }
}

/// The four lines of a boolean normalisation through the scratch cell `temp`, run from `s`: set
/// `temp` to 0; when the chain passes, set `temp` to 1; copy `temp` into `contain_to`; reset
/// `temp`.
pub open spec fn run_boolify_lines(s: Scores, contain_to: TargetView, conds: Seq<CondView>, temp: TargetView) -> Scores {
    let s1 = s.insert(temp.player, 0);
    let s2 = if chain_holds(s1, conds) { s1.insert(temp.player, 1) } else { s1 };
    let s3 = s2.insert(contain_to.player, s2[temp.player]);
    s3.remove(temp.player)
}

/// Whatever the cells held before, a boolean normalisation through a scratch cell other than
/// its target leaves the target holding 0 or 1 (1 exactly when the chain passed) and the
/// scratch cell gone.
pub proof fn lemma_boolify_lines_binary(s: Scores, contain_to: TargetView, conds: Seq<CondView>, temp: TargetView)
    requires
        temp.player != contain_to.player,
    ensures
        run_boolify_lines(s, contain_to, conds, temp).contains_key(contain_to.player),
        run_boolify_lines(s, contain_to, conds, temp)[contain_to.player] == 0
            || run_boolify_lines(s, contain_to, conds, temp)[contain_to.player] == 1,
        run_boolify_lines(s, contain_to, conds, temp)[contain_to.player] == 1
            <==> chain_holds(s.insert(temp.player, 0), conds),
        !run_boolify_lines(s, contain_to, conds, temp).contains_key(temp.player),
{
}

/// Every rendering of a boolean normalisation is the four lines through a fresh `CALC_TEMP_`
/// cell other than the target, so running it leaves the target at 0 or 1.
pub proof fn lemma_boolify_rendering_binary(s: Scores, contain_to: TargetView, conds: Seq<CondView>, out: Seq<char>)
    requires
        cmd_renders(CmdView::Boolify { contain_to, conditions: conds }, out),
    ensures
        exists|t: TargetView|
            is_flag_temp(t) && t.player != contain_to.player && out == #[trigger] boolify_text(contain_to, conds, t)
                && (run_boolify_lines(s, contain_to, conds, t)[contain_to.player] == 0
                    || run_boolify_lines(s, contain_to, conds, t)[contain_to.player] == 1),
{
    let t = choose|t: TargetView| is_flag_temp(t) && t.player != contain_to.player && out == #[trigger] boolify_text(contain_to, conds, t);
    lemma_boolify_lines_binary(s, contain_to, conds, t);
}

/// After a formula is normalised into `store_to` (whatever commands came before the
/// normalisation), `store_to` holds 0 or 1.
pub proof fn lemma_to_be_binary(s: Scores, cmds: Seq<CmdView>, value: ScoreboardView, store_to: ScoreboardView)
    requires
        ends_with(cmds, to_be_tail(value, store_to)),
        mcname(store_to) != mcname(value),
        mcname(store_to) != mcname(const_board(0)),
    ensures
        exec_cmds(s, cmds).contains_key(mcname(store_to)),
        exec_cmds(s, cmds)[mcname(store_to)] == 0 || exec_cmds(s, cmds)[mcname(store_to)] == 1,
{
    let tail = to_be_tail(value, store_to);
    let head = cmds.take(cmds.len() - tail.len());
    assert(cmds =~= head + tail);
    lemma_exec_append(s, head, tail);
    let s0 = exec_cmds(s, head);
    let p = mcname(store_to);
    let pv = mcname(value);
    let pc = mcname(const_board(0));
    assert(tail.take(1).drop_last() =~= tail.take(0));
    assert(tail.take(2).drop_last() =~= tail.take(1));
    assert(tail.take(3).drop_last() =~= tail.take(2));
    assert(tail.take(4).drop_last() =~= tail.take(3));
    assert(tail.take(5).drop_last() =~= tail.take(4));
    assert(tail.take(0) =~= Seq::<CmdView>::empty());
    assert(tail.take(5) =~= tail);
    let s1 = exec_cmds(s0, tail.take(1));
    let s2 = exec_cmds(s0, tail.take(2));
    let s3 = exec_cmds(s0, tail.take(3));
    let s4 = exec_cmds(s0, tail.take(4));
    let s5 = exec_cmds(s0, tail.take(5));
    assert(tail[1] is Boolify && tail[1]->Boolify_contain_to.player == pv);
    assert(tail[2] == CmdView::AssignScore { left: target_of(store_to), right: target_of(value) });
    assert(tail[3] == CmdView::Free { target: target_of(value) });
    assert(tail[4] == CmdView::Free { target: target_of(const_board(0)) });
    assert(s2 == exec_cmd(s1, tail[1]));
    assert(s3 == exec_cmd(s2, tail[2]));
    assert(s4 == exec_cmd(s3, tail[3]));
    assert(s5 == exec_cmd(s4, tail[4]));
    assert(s2.contains_key(pv) && (s2[pv] == 0 || s2[pv] == 1));
    assert(s3.contains_key(p) && s3[p] == s2[pv]);
    assert(s4.contains_key(p) && s4[p] == s3[p]);
    assert(s5.contains_key(p) && s5[p] == s4[p]);
}

/// What an `if` or `while` call site runs first leaves its flag at 0 or 1 and the constant cell
/// of 0 at 0, so the `unless flag = 0` test that guards the call reads the condition.
pub proof fn lemma_condition_setup_binary(s: Scores, cmds: Seq<CmdView>, value: ScoreboardView, flag: ScoreboardView)
    requires
        ends_with(cmds, condition_setup(value, flag)),
        mcname(flag) != mcname(value),
        mcname(flag) != mcname(const_board(0)),
    ensures
        exec_cmds(s, cmds).contains_key(mcname(flag)),
        exec_cmds(s, cmds)[mcname(flag)] == 0 || exec_cmds(s, cmds)[mcname(flag)] == 1,
        exec_cmds(s, cmds)[mcname(const_board(0))] == 0,
{
    let setup = condition_setup(value, flag);
    let init = cmds.drop_last();
    assert(init.skip(init.len() - to_be_tail(value, flag).len()) =~= to_be_tail(value, flag)) by {
        assert(cmds.skip(cmds.len() - setup.len()) == setup);
        assert forall|i: int| 0 <= i < to_be_tail(value, flag).len() implies
            init.skip(init.len() - to_be_tail(value, flag).len())[i] == to_be_tail(value, flag)[i] by {
            assert(setup[i] == to_be_tail(value, flag)[i]);
            assert(cmds.skip(cmds.len() - setup.len())[i] == setup[i]);
        }
    }
    lemma_to_be_binary(s, init, value, flag);
    assert(cmds.last() == setup.last());
}

/// Copying a literal into a cell stores the literal's fixed-point value: an integer as itself
/// (times 1000 in a float cell), a float `f` as `trunc(f * 1000)` (as `trunc(f)` in an integer
/// cell), a boolean as 1 or 0. Reading a float cell back divides by 1000, which gives an integer
/// literal back exactly when the product fitted in `i32`.
pub proof fn lemma_literal_round_trip(s: Scores, lhs: ScoreboardView, lit: IToken)
    requires
        assign_spec(lhs, lit) is Ok,
        lit is Int || lit is Flt || lit is Bln,
    ensures
        literal_value(lhs.datatype, lit) is Some,
        exec_cmds(s, assign_spec(lhs, lit)->Ok_0)[mcname(lhs)] == literal_value(lhs.datatype, lit)->Some_0,
        lit is Int && lhs.datatype == Type::Int ==> exec_cmds(s, assign_spec(lhs, lit)->Ok_0)[mcname(lhs)] == lit->Int_0 as int,
        lit is Int && lhs.datatype == Type::Float && i32::MIN <= lit->Int_0 as int * 1000 <= i32::MAX
            ==> trunc_div(exec_cmds(s, assign_spec(lhs, lit)->Ok_0)[mcname(lhs)], 1000) == lit->Int_0 as int,
{
    let cmds = assign_spec(lhs, lit)->Ok_0;
    assert(cmds.drop_last() =~= Seq::<CmdView>::empty());
    let v = literal_value(lhs.datatype, lit)->Some_0;
    assert(i32::MIN <= v <= i32::MAX) by {
        if lit is Int && lhs.datatype == Type::Float {
            assert(wrap_i32(lit->Int_0 as int * 1000) == v);
        }
    }
    if lit is Int && lhs.datatype == Type::Float && i32::MIN <= lit->Int_0 as int * 1000 <= i32::MAX {
        let i = lit->Int_0 as int;
        assert(wrap_i32(i * 1000) == i * 1000) by {
            assert((i * 1000) % 0x1_0000_0000int == if i >= 0 { i * 1000 } else { i * 1000 + 0x1_0000_0000int });
        }
        assert(trunc_div(i * 1000, 1000) == i) by (nonlinear_arith);
    }
}

} // verus!
