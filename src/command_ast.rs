//! The emitted commands, their rendering as text, and the builder that assembles them.
use vstd::prelude::*;
use crate::comparison_operation::Comparison;
use crate::scoreboard::{Scoreboard, ScoreboardView, mcname, get_const, const_board, is_scratch, temp_scope, temp_path, is_lower_id, generate_random_id};
use crate::text::{join, int_text, push_char, push_text, push_int};
use crate::types::{Type, NAMESPACE, FLOAT_MAGNIFICATION, TEMP_ID_LEN};

verus! {

/// A cell as the runtime addresses it: a player name and an objective.
#[derive(Debug)]
pub struct ScoreTarget {
    pub player: String,
    pub objective: String,
}

pub struct TargetView {
    pub player: Seq<char>,
    pub objective: Seq<char>,
}

impl View for ScoreTarget {
    type V = TargetView;

    open spec fn view(&self) -> TargetView {
        TargetView { player: self.player@, objective: self.objective@ }
    }
}

/// The objective string of every cell.
pub open spec fn objective() -> Seq<char> {
    "MCPP.var"@
}

/// How the runtime addresses a score cell.
pub open spec fn target_of(b: ScoreboardView) -> TargetView {
    TargetView { player: mcname(b), objective: objective() }
}

impl Clone for ScoreTarget {
    fn clone(&self) -> (r: Self)
        ensures
            r@ == self@,
    {
        ScoreTarget { player: self.player.clone(), objective: self.objective.clone() }
    }
}

impl ScoreTarget {
    /// The address of a score cell.
    pub fn of(sb: &Scoreboard) -> (r: ScoreTarget)
        ensures
            r@ == target_of(sb@),
    {
        ScoreTarget { player: sb.get_mcname(), objective: NAMESPACE.to_string() }
    }
}

/// One condition of an `execute` chain.
pub struct CondView {
    pub is_unless: bool,
    pub left: TargetView,
    pub comparison: Seq<char>,
    pub right: TargetView,
}

/// What a command is.
pub enum CmdView {
    Calc { left: TargetView, op: Seq<char>, right: TargetView },
    AddRem { left: TargetView, add_rem: Seq<char>, amount: i32 },
    AssignScore { left: TargetView, right: TargetView },
    AssignNum { left: TargetView, value: i32 },
    Boolify { contain_to: TargetView, conditions: Seq<CondView> },
    Free { target: TargetView },
    Native { text: Seq<char> },
}

pub open spec fn sp() -> Seq<char> {
    seq![' ']
}

pub open spec fn nl() -> Seq<char> {
    seq!['\n']
}

pub open spec fn pair_text(t: TargetView) -> Seq<char> {
    t.player + sp() + t.objective
}

pub open spec fn calc_text(l: TargetView, op: Seq<char>, r: TargetView) -> Seq<char> {
    "scoreboard players operation "@ + pair_text(l) + sp() + op + sp() + pair_text(r)
}

pub open spec fn add_rem_text(l: TargetView, add_rem: Seq<char>, n: int) -> Seq<char> {
    "scoreboard players "@ + add_rem + sp() + l.player + sp() + objective() + sp() + int_text(n)
}

pub open spec fn assign_score_text(l: TargetView, r: TargetView) -> Seq<char> {
    "scoreboard players operation "@ + pair_text(l) + " = "@ + pair_text(r)
}

pub open spec fn assign_num_text(l: TargetView, n: int) -> Seq<char> {
    "scoreboard players set "@ + l.player + sp() + objective() + sp() + int_text(n)
}

pub open spec fn free_text(t: TargetView) -> Seq<char> {
    "scoreboard players reset "@ + pair_text(t)
}

/// The runtime spells equality `=`; the other comparisons keep their spelling.
pub open spec fn runtime_comparison(c: Seq<char>) -> Seq<char> {
    if c == "=="@ {
        "="@
    } else {
        c
    }
}

/// A condition as text; `!=` becomes `unless score ... = ...`.
pub open spec fn condition_text(c: CondView) -> Seq<char> {
    if c.comparison == "!="@ {
        "unless score "@ + pair_text(c.left) + " = "@ + pair_text(c.right)
    } else {
        (if c.is_unless {
            "unless"@
        } else {
            "if"@
        }) + " score "@ + pair_text(c.left) + sp() + runtime_comparison(c.comparison) + sp()
            + pair_text(c.right)
    }
}

pub open spec fn conditions_texts(conds: Seq<CondView>) -> Seq<Seq<char>> {
    conds.map_values(|c: CondView| condition_text(c))
}

/// An `execute` chain as text, ending with `run ` and a trailing space.
pub open spec fn chain_text(conds: Seq<CondView>) -> Seq<char> {
    "execute "@ + join(conditions_texts(conds), sp()) + " run "@
}

/// The four lines of a boolean normalisation through the scratch cell `temp`.
pub open spec fn boolify_text(contain_to: TargetView, conds: Seq<CondView>, temp: TargetView) -> Seq<char> {
    assign_num_text(temp, 0) + nl() + chain_text(conds) + assign_num_text(temp, 1) + nl()
        + assign_score_text(contain_to, temp) + nl() + free_text(temp)
}

/// `t` addresses a fresh `CALC_TEMP_` cell.
pub open spec fn is_flag_temp(t: TargetView) -> bool {
    exists|b: ScoreboardView|
        is_scratch(b, "CALC_TEMP_"@, TEMP_ID_LEN as nat, temp_scope(), Type::Bool) && #[trigger] target_of(b) == t
}

/// `out` is a rendering of the command `c`.
pub open spec fn cmd_renders(c: CmdView, out: Seq<char>) -> bool {
    match c {
        CmdView::Calc { left, op, right } => out == calc_text(left, op, right),
        CmdView::AddRem { left, add_rem, amount } => out == add_rem_text(left, add_rem, amount as int),
        CmdView::AssignScore { left, right } => out == assign_score_text(left, right),
        CmdView::AssignNum { left, value } => out == assign_num_text(left, value as int),
        CmdView::Boolify { contain_to, conditions } => exists|t: TargetView|
            is_flag_temp(t) && t.player != contain_to.player && out == #[trigger] boolify_text(contain_to, conditions, t),
        CmdView::Free { target } => out == free_text(target),
        CmdView::Native { text } => out == text,
    }
}

/// `out` is a rendering of the commands, one per line.
pub open spec fn lines_render(cmds: Seq<CmdView>, out: Seq<char>) -> bool {
    exists|lines: Seq<Seq<char>>|
        lines.len() == cmds.len() && (forall|i: int| 0 <= i < cmds.len() ==> cmd_renders(cmds[i], #[trigger] lines[i]))
            && out == join(lines, nl())
}

/// Renders a value as one command line (several lines for a boolean normalisation).
pub trait Serialise {
    spec fn renders(&self, out: Seq<char>) -> bool;

    fn serialise(&self) -> (r: String)
        ensures
            self.renders(r@),
    ;
}

/// `scoreboard players operation <left> <operator> <right>`.
#[derive(Debug)]
pub struct CalcScore {
    pub left: ScoreTarget,
    pub operator: String,
    pub right: ScoreTarget,
}

impl Serialise for CalcScore {
    open spec fn renders(&self, out: Seq<char>) -> bool {
        out == calc_text(self.left@, self.operator@, self.right@)
    }

    fn serialise(&self) -> (r: String) {
        let mut s = String::new();
        push_text(&mut s, "scoreboard players operation ");
        push_target(&mut s, &self.left);
        push_char(&mut s, ' ');
        push_text(&mut s, self.operator.as_str());
        push_char(&mut s, ' ');
        push_target(&mut s, &self.right);
        assert(s@ =~= calc_text(self.left@, self.operator@, self.right@));
        s
    }
}

/// `scoreboard players add|remove <left> <right>`.
#[derive(Debug)]
pub struct AddRemNum {
    pub left: ScoreTarget,
    pub add_rem: String,
    pub right: i32,
}

impl Serialise for AddRemNum {
    open spec fn renders(&self, out: Seq<char>) -> bool {
        out == add_rem_text(self.left@, self.add_rem@, self.right as int)
    }

    fn serialise(&self) -> (r: String) {
        let mut s = String::new();
        push_text(&mut s, "scoreboard players ");
        push_text(&mut s, self.add_rem.as_str());
        push_char(&mut s, ' ');
        push_text(&mut s, self.left.player.as_str());
        push_char(&mut s, ' ');
        push_text(&mut s, NAMESPACE);
        push_char(&mut s, ' ');
        push_int(&mut s, self.right as i64);
        assert(s@ =~= add_rem_text(self.left@, self.add_rem@, self.right as int));
        s
    }
}

/// `scoreboard players operation <left> = <right>`.
#[derive(Debug)]
pub struct AssignScore {
    pub left: ScoreTarget,
    pub right: ScoreTarget,
}

impl Serialise for AssignScore {
    open spec fn renders(&self, out: Seq<char>) -> bool {
        out == assign_score_text(self.left@, self.right@)
    }

    fn serialise(&self) -> (r: String) {
        let mut s = String::new();
        push_text(&mut s, "scoreboard players operation ");
        push_target(&mut s, &self.left);
        push_text(&mut s, " = ");
        push_target(&mut s, &self.right);
        assert(s@ =~= assign_score_text(self.left@, self.right@));
        s
    }
}

/// `scoreboard players set <left> <right>`.
#[derive(Debug)]
pub struct AssignNum {
    pub left: ScoreTarget,
    pub right: i32,
}

impl Serialise for AssignNum {
    open spec fn renders(&self, out: Seq<char>) -> bool {
        out == assign_num_text(self.left@, self.right as int)
    }

    fn serialise(&self) -> (r: String) {
        let mut s = String::new();
        push_text(&mut s, "scoreboard players set ");
        push_text(&mut s, self.left.player.as_str());
        push_char(&mut s, ' ');
        push_text(&mut s, NAMESPACE);
        push_char(&mut s, ' ');
        push_int(&mut s, self.right as i64);
        assert(s@ =~= assign_num_text(self.left@, self.right as int));
        s
    }
}

/// Stores into `contain_to` 1 when the chain's conditions hold and 0 otherwise.
#[derive(Debug)]
pub struct BoolifyCondition {
    pub contain_to: ScoreTarget,
    pub execute: ExecuteConstructer,
}

impl Serialise for BoolifyCondition {
    open spec fn renders(&self, out: Seq<char>) -> bool {
        exists|t: TargetView|
            is_flag_temp(t) && t.player != self.contain_to@.player && out == #[trigger] boolify_text(self.contain_to@, self.execute@, t)
    }

    fn serialise(&self) -> (r: String) {
        let t = flag_temp_for(&self.contain_to);
        let mut s = String::new();
        push_text(&mut s, "scoreboard players set ");
        push_text(&mut s, t.player.as_str());
        push_char(&mut s, ' ');
        push_text(&mut s, NAMESPACE);
        push_text(&mut s, " 0");
        push_char(&mut s, '\n');
        self.execute.push_chain(&mut s);
        push_text(&mut s, "scoreboard players set ");
        push_text(&mut s, t.player.as_str());
        push_char(&mut s, ' ');
        push_text(&mut s, NAMESPACE);
        push_text(&mut s, " 1");
        push_char(&mut s, '\n');
        push_text(&mut s, "scoreboard players operation ");
        push_target(&mut s, &self.contain_to);
        push_text(&mut s, " = ");
        push_target(&mut s, &t);
        push_char(&mut s, '\n');
        push_text(&mut s, "scoreboard players reset ");
        push_target(&mut s, &t);
        proof {
            reveal_strlit(" 0");
            reveal_strlit(" 1");
            assert(int_text(0) =~= seq!['0']);
            assert(int_text(1) =~= seq!['1']);
            assert(s@ =~= boolify_text(self.contain_to@, self.execute@, t@));
        }
        s
    }
}

/// A fresh `CALC_TEMP_` cell for normalising into `contain_to`, never `contain_to` itself: when
/// the random id happens to name `contain_to`, its last letter is changed.
fn flag_temp_for(contain_to: &ScoreTarget) -> (t: ScoreTarget)
    ensures
        is_flag_temp(t@),
        t@.player != contain_to@.player,
{
    let id = generate_random_id(TEMP_ID_LEN);
    let b = flag_board(&id);
    let t = ScoreTarget::of(&b);
    if t.player == contain_to.player {
        let id2 = change_last(&id);
        let b2 = flag_board(&id2);
        let t2 = ScoreTarget::of(&b2);
        proof {
            reveal_strlit("CALC_TEMP_");
            let pre = seq!['#'] + join(temp_scope(), seq!['.']) + seq!['.'];
            assert(mcname(b@) == pre + b@.name);
            assert(mcname(b2@) == pre + b2@.name);
            let k = pre.len() as int + 25;
            assert((pre + b@.name)[k] == b@.name[25]);
            assert((pre + b2@.name)[k] == b2@.name[25]);
            assert(b@.name[25] == id@[15]);
            assert(b2@.name[25] == id2@[15]);
            assert(mcname(b@)[k] != mcname(b2@)[k]);
        }
        t2
    } else {
        t
    }
}

/// The `CALC_TEMP_` cell with the given id.
fn flag_board(id: &String) -> (b: Scoreboard)
    requires
        is_lower_id(id@, TEMP_ID_LEN as nat),
    ensures
        is_scratch(b@, "CALC_TEMP_"@, TEMP_ID_LEN as nat, temp_scope(), Type::Bool),
        b@.name == "CALC_TEMP_"@ + id@,
{
    let mut name = String::new();
    push_text(&mut name, "CALC_TEMP_");
    push_text(&mut name, id.as_str());
    assert(name@.take(("CALC_TEMP_"@).len() as int) =~= "CALC_TEMP_"@);
    assert(name@.skip(("CALC_TEMP_"@).len() as int) =~= id@);
    Scoreboard { name, scope: temp_path(), datatype: Type::Bool }
}

/// The id with its last letter changed to another letter.
fn change_last(id: &String) -> (r: String)
    requires
        is_lower_id(id@, TEMP_ID_LEN as nat),
    ensures
        is_lower_id(r@, TEMP_ID_LEN as nat),
        r@.take(15) == id@.take(15),
        r@[15] != id@[15],
{
    let s = id.as_str();
    let mut r = String::new();
    let mut i: usize = 0;
    while i < 15
        invariant
            s@ == id@,
            is_lower_id(id@, TEMP_ID_LEN as nat),
            i <= 15,
            r@ == id@.take(i as int),
        decreases 15 - i,
    {
        push_char(&mut r, s.get_char(i));
        assert(r@ =~= id@.take(i + 1));
        i = i + 1;
    }
    let last = s.get_char(15);
    let c = if last == 'a' { 'b' } else { 'a' };
    push_char(&mut r, c);
    assert(r@.take(15) =~= id@.take(15));
    r
}

/// `scoreboard players reset <target>`.
#[derive(Debug)]
pub struct Free {
    pub target: ScoreTarget,
}

impl Serialise for Free {
    open spec fn renders(&self, out: Seq<char>) -> bool {
        out == free_text(self.target@)
    }

    fn serialise(&self) -> (r: String) {
        let mut s = String::new();
        push_text(&mut s, "scoreboard players reset ");
        push_target(&mut s, &self.target);
        assert(s@ =~= free_text(self.target@));
        s
    }
}

fn push_target(s: &mut String, t: &ScoreTarget)
    ensures
        final(s)@ == old(s)@ + pair_text(t@),
{
    push_text(s, t.player.as_str());
    push_char(s, ' ');
    push_text(s, t.objective.as_str());
    assert(s@ =~= old(s)@ + pair_text(t@));
}


/// One comparison of an `execute` chain.
#[derive(Debug)]
pub struct ComparisonAST {
    pub is_unless: bool,
    pub left: ScoreTarget,
    pub comparison: String,
    pub right: ScoreTarget,
}

impl View for ComparisonAST {
    type V = CondView;

    open spec fn view(&self) -> CondView {
        CondView { is_unless: self.is_unless, left: self.left@, comparison: self.comparison@, right: self.right@ }
    }
}

impl Clone for ComparisonAST {
    fn clone(&self) -> (r: Self)
        ensures
            r@ == self@,
    {
        ComparisonAST {
            is_unless: self.is_unless,
            left: self.left.clone(),
            comparison: self.comparison.clone(),
            right: self.right.clone(),
        }
    }
}

impl Serialise for ComparisonAST {
    open spec fn renders(&self, out: Seq<char>) -> bool {
        out == condition_text(self@)
    }

    fn serialise(&self) -> (r: String) {
        let mut s = String::new();
        let neq = "!=".to_string();
        let eq = "==".to_string();
        if self.comparison == neq {
            push_text(&mut s, "unless score ");
            push_target(&mut s, &self.left);
            push_text(&mut s, " = ");
            push_target(&mut s, &self.right);
        } else {
            if self.is_unless {
                push_text(&mut s, "unless");
            } else {
                push_text(&mut s, "if");
            }
            push_text(&mut s, " score ");
            push_target(&mut s, &self.left);
            push_char(&mut s, ' ');
            if self.comparison == eq {
                push_text(&mut s, "=");
            } else {
                push_text(&mut s, self.comparison.as_str());
            }
            push_char(&mut s, ' ');
            push_target(&mut s, &self.right);
        }
        assert(s@ =~= condition_text(self@));
        s
    }
}

/// A condition of an `execute` chain.
#[derive(Debug)]
pub enum ConditionAST {
    Comparison(ComparisonAST),
}

impl View for ConditionAST {
    type V = CondView;

    open spec fn view(&self) -> CondView {
        match self {
            ConditionAST::Comparison(c) => c@,
        }
    }
}

impl Clone for ConditionAST {
    fn clone(&self) -> (r: Self)
        ensures
            r@ == self@,
    {
        match self {
            ConditionAST::Comparison(c) => ConditionAST::Comparison(c.clone()),
        }
    }
}

impl Serialise for ConditionAST {
    open spec fn renders(&self, out: Seq<char>) -> bool {
        out == condition_text(self@)
    }

    fn serialise(&self) -> (r: String) {
        match self {
            ConditionAST::Comparison(c) => c.serialise(),
        }
    }
}

pub open spec fn conds_view(v: Seq<ConditionAST>) -> Seq<CondView> {
    v.map_values(|c: ConditionAST| c@)
}

/// An `execute ... run ` chain of conditions.
#[derive(Debug)]
pub struct ExecuteConstructer {
    pub conditions: Vec<ConditionAST>,
}

impl View for ExecuteConstructer {
    type V = Seq<CondView>;

    open spec fn view(&self) -> Seq<CondView> {
        conds_view(self.conditions@)
    }
}

impl Clone for ExecuteConstructer {
    fn clone(&self) -> (r: Self)
        ensures
            r@ == self@,
    {
        let mut v: Vec<ConditionAST> = Vec::new();
        let mut i: usize = 0;
        while i < self.conditions.len()
            invariant
                0 <= i <= self.conditions@.len(),
                v@.len() == i,
                conds_view(v@) == conds_view(self.conditions@).take(i as int),
            decreases self.conditions@.len() - i,
        {
            let c = self.conditions[i].clone();
            let ghost before = v@;
            v.push(c);
            assert forall|k: int| 0 <= k < i + 1 implies #[trigger] conds_view(v@)[k]
                == conds_view(self.conditions@)[k] by {
                if k < i {
                    assert(v@[k] == before[k]);
                    assert(conds_view(before)[k] == conds_view(self.conditions@).take(i as int)[k]);
                }
            }
            assert(conds_view(v@) =~= conds_view(self.conditions@).take(i + 1));
            i = i + 1;
        }
        assert(conds_view(self.conditions@).take(i as int) =~= conds_view(self.conditions@));
        ExecuteConstructer { conditions: v }
    }
}

impl ExecuteConstructer {
    /// An empty chain.
    pub fn new() -> (r: Self)
        ensures
            r@ == Seq::<CondView>::empty(),
    {
        let r = ExecuteConstructer { conditions: Vec::new() };
        assert(r@ =~= Seq::<CondView>::empty());
        r
    }

    /// Adds the condition `lhs <operator> rhs`; `!=` is kept as an `unless` condition.
    pub fn compare(self, lhs: &Scoreboard, operator: &Comparison, rhs: &Scoreboard) -> (r: Self)
        ensures
            r@ == self@.push(CondView {
                is_unless: *operator == Comparison::Neq,
                left: target_of(lhs@),
                comparison: operator.text(),
                right: target_of(rhs@),
            }),
    {
        let is_unless = match operator {
            Comparison::Neq => true,
            _ => false,
        };
        let ast = ComparisonAST {
            is_unless,
            left: ScoreTarget::of(lhs),
            comparison: operator.to_str().to_string(),
            right: ScoreTarget::of(rhs),
        };
        let mut conditions = self.conditions;
        conditions.push(ConditionAST::Comparison(ast));
        let r = ExecuteConstructer { conditions };
        assert(r@ =~= self@.push(ast@));
        r
    }

    /// Appends the chain as text.
    pub fn push_chain(&self, s: &mut String)
        ensures
            final(s)@ == old(s)@ + chain_text(self@),
    {
        let ghost start = s@;
        push_text(s, "execute ");
        let n = self.conditions.len();
        let mut i: usize = 0;
        while i < n
            invariant
                n == self.conditions@.len(),
                0 <= i <= n,
                s@ == start + "execute "@ + join(conditions_texts(self@).take(i as int), sp()),
            decreases n - i,
        {
            proof {
                lemma_join_take(conditions_texts(self@), sp(), i as int);
            }
            if i > 0 {
                push_char(s, ' ');
            }
            let t = self.conditions[i].serialise();
            push_text(s, t.as_str());
            assert(s@ =~= start + "execute "@ + join(conditions_texts(self@).take(i + 1), sp()));
            i = i + 1;
        }
        assert(conditions_texts(self@).take(n as int) =~= conditions_texts(self@));
        push_text(s, " run ");
        assert(s@ =~= start + chain_text(self@));
    }

    /// The chain as text: `execute <conditions> run `.
    pub fn build(self) -> (r: String)
        ensures
            r@ == chain_text(self@),
    {
        let mut s = String::new();
        self.push_chain(&mut s);
        assert(s@ =~= chain_text(self@));
        s
    }
}

proof fn lemma_join_take(segs: Seq<Seq<char>>, sep: Seq<char>, i: int)
    requires
        0 <= i < segs.len(),
    ensures
        join(segs.take(i + 1), sep) == if i == 0 {
            segs[0]
        } else {
            join(segs.take(i), sep) + sep + segs[i]
        },
{
    assert(segs.take(i + 1).drop_last() =~= segs.take(i));
}

/// A command of the runtime.
#[derive(Debug)]
pub enum CommandAST {
    CalcScore(CalcScore),
    AddRemNum(AddRemNum),
    AssignScore(AssignScore),
    AssignNum(AssignNum),
    BoolifyCondition(BoolifyCondition),
    Free(Free),
    Native(String),
}

impl View for CommandAST {
    type V = CmdView;

    open spec fn view(&self) -> CmdView {
        match self {
            CommandAST::CalcScore(c) => CmdView::Calc { left: c.left@, op: c.operator@, right: c.right@ },
            CommandAST::AddRemNum(a) => CmdView::AddRem { left: a.left@, add_rem: a.add_rem@, amount: a.right },
            CommandAST::AssignScore(a) => CmdView::AssignScore { left: a.left@, right: a.right@ },
            CommandAST::AssignNum(a) => CmdView::AssignNum { left: a.left@, value: a.right },
            CommandAST::BoolifyCondition(b) => CmdView::Boolify { contain_to: b.contain_to@, conditions: b.execute@ },
            CommandAST::Free(f) => CmdView::Free { target: f.target@ },
            CommandAST::Native(s) => CmdView::Native { text: s@ },
        }
    }
}

impl Clone for CommandAST {
    fn clone(&self) -> (r: Self)
        ensures
            r@ == self@,
    {
        match self {
            CommandAST::CalcScore(c) => CommandAST::CalcScore(
                CalcScore { left: c.left.clone(), operator: c.operator.clone(), right: c.right.clone() },
            ),
            CommandAST::AddRemNum(a) => CommandAST::AddRemNum(
                AddRemNum { left: a.left.clone(), add_rem: a.add_rem.clone(), right: a.right },
            ),
            CommandAST::AssignScore(a) => CommandAST::AssignScore(
                AssignScore { left: a.left.clone(), right: a.right.clone() },
            ),
            CommandAST::AssignNum(a) => CommandAST::AssignNum(AssignNum { left: a.left.clone(), right: a.right }),
            CommandAST::BoolifyCondition(b) => CommandAST::BoolifyCondition(
                BoolifyCondition { contain_to: b.contain_to.clone(), execute: b.execute.clone() },
            ),
            CommandAST::Free(f) => CommandAST::Free(Free { target: f.target.clone() }),
            CommandAST::Native(s) => CommandAST::Native(s.clone()),
        }
    }
}

impl Serialise for CommandAST {
    open spec fn renders(&self, out: Seq<char>) -> bool {
        cmd_renders(self@, out)
    }

    fn serialise(&self) -> (r: String) {
        match self {
            CommandAST::AddRemNum(a) => a.serialise(),
            CommandAST::AssignNum(a) => a.serialise(),
            CommandAST::AssignScore(a) => a.serialise(),
            CommandAST::CalcScore(c) => c.serialise(),
            CommandAST::BoolifyCondition(b) => {
                let r = b.serialise();
                proof {
                    let t = choose|t: TargetView| is_flag_temp(t) && r@ == #[trigger] boolify_text(b.contain_to@, b.execute@, t);
                    assert(self@ == CmdView::Boolify { contain_to: b.contain_to@, conditions: b.execute@ });
                    assert(is_flag_temp(t) && r@ == boolify_text(
                        self@->Boolify_contain_to,
                        self@->Boolify_conditions,
                        t,
                    ));
                }
                r
            },
            CommandAST::Free(f) => f.serialise(),
            CommandAST::Native(s) => s.clone(),
        }
    }
}


pub open spec fn cmds_view(v: Seq<CommandAST>) -> Seq<CmdView> {
    v.map_values(|c: CommandAST| c@)
}

pub open spec fn boards_view(v: Seq<Scoreboard>) -> Seq<ScoreboardView> {
    v.map_values(|b: Scoreboard| b@)
}

/// The cell that the command stores into, if any.
pub open spec fn writes(c: CmdView, t: TargetView) -> bool {
    match c {
        CmdView::Calc { left, .. } => left == t,
        CmdView::AddRem { left, .. } => left == t,
        CmdView::AssignScore { left, .. } => left == t,
        CmdView::AssignNum { left, .. } => left == t,
        CmdView::Boolify { contain_to, .. } => contain_to == t,
        _ => false,
    }
}

/// Some command before position `j` stores into `t`.
pub open spec fn written_before(cmds: Seq<CmdView>, t: TargetView, j: int) -> bool {
    exists|i: int| 0 <= i < j && #[trigger] writes(cmds[i], t)
}

/// One `reset` per cell, in order.
pub open spec fn frees_of(boards: Seq<ScoreboardView>) -> Seq<CmdView> {
    boards.map_values(|b: ScoreboardView| CmdView::Free { target: target_of(b) })
}

/// A copy of a list of commands.
pub fn copy_commands(v: &Vec<CommandAST>) -> (r: Vec<CommandAST>)
    ensures
        cmds_view(r@) == cmds_view(v@),
{
    let mut r: Vec<CommandAST> = Vec::new();
    let mut i: usize = 0;
    while i < v.len()
        invariant
            0 <= i <= v@.len(),
            r@.len() == i,
            cmds_view(r@) == cmds_view(v@).take(i as int),
        decreases v@.len() - i,
    {
        let c = v[i].clone();
        let ghost before = r@;
        r.push(c);
        assert forall|k: int| 0 <= k < i + 1 implies #[trigger] cmds_view(r@)[k] == cmds_view(v@)[k] by {
            if k < i {
                assert(r@[k] == before[k]);
                assert(cmds_view(before)[k] == cmds_view(v@).take(i as int)[k]);
            }
        }
        assert(cmds_view(r@) =~= cmds_view(v@).take(i + 1));
        i = i + 1;
    }
    assert(cmds_view(v@).take(v@.len() as int) =~= cmds_view(v@));
    r
}

/// Appends the commands of `more` to `v`.
pub fn extend_commands(v: &mut Vec<CommandAST>, more: Vec<CommandAST>)
    ensures
        cmds_view(final(v)@) == cmds_view(old(v)@) + cmds_view(more@),
{
    let mut more = more;
    let ghost a = v@;
    let ghost b = more@;
    v.append(&mut more);
    assert(v@ == a + b);
    assert(cmds_view(v@) =~= cmds_view(a) + cmds_view(b));
}

/// Assembles a list of commands, and the constant cells to reset once the list is built.
pub struct FormulaConstructer {
    pub commands: Vec<CommandAST>,
    pub temp_scores: Vec<Scoreboard>,
}

impl FormulaConstructer {
    pub open spec fn cmds(&self) -> Seq<CmdView> {
        cmds_view(self.commands@)
    }

    pub open spec fn temps(&self) -> Seq<ScoreboardView> {
        boards_view(self.temp_scores@)
    }

    /// Each registered constant is set by some command before it is reset.
    pub open spec fn wf(&self) -> bool {
        forall|k: int| 0 <= k < self.temps().len() ==>
            written_before(self.cmds(), target_of(#[trigger] self.temps()[k]), self.cmds().len() as int)
    }

    /// An empty builder.
    pub fn new() -> (r: Self)
        ensures
            r.cmds() == Seq::<CmdView>::empty(),
            r.temps() == Seq::<ScoreboardView>::empty(),
            r.wf(),
    {
        let r = FormulaConstructer { commands: Vec::new(), temp_scores: Vec::new() };
        assert(r.cmds() =~= Seq::<CmdView>::empty());
        assert(r.temps() =~= Seq::<ScoreboardView>::empty());
        r
    }

    fn push_command(&mut self, c: CommandAST)
        requires
            old(self).wf(),
        ensures
            final(self).cmds() == old(self).cmds().push(c@),
            final(self).temps() == old(self).temps(),
            final(self).wf(),
    {
        let ghost before = self.cmds();
        self.commands.push(c);
        assert(self.cmds() =~= before.push(c@));
        assert forall|k: int| 0 <= k < self.temps().len() implies written_before(
            self.cmds(),
            target_of(#[trigger] self.temps()[k]),
            self.cmds().len() as int,
        ) by {
            let t = target_of(self.temps()[k]);
            assert(old(self).temps()[k] == self.temps()[k]);
            assert(written_before(before, t, before.len() as int));
            let i = choose|i: int| 0 <= i < before.len() && #[trigger] writes(before[i], t);
            assert(self.cmds()[i] == before[i]);
        }
    }

    fn register(&mut self, b: Scoreboard)
        requires
            old(self).wf(),
            written_before(old(self).cmds(), target_of(b@), old(self).cmds().len() as int),
        ensures
            final(self).cmds() == old(self).cmds(),
            final(self).temps() == old(self).temps().push(b@),
            final(self).wf(),
    {
        let ghost before = self.temps();
        self.temp_scores.push(b);
        assert(self.temps() =~= before.push(b@));
    }

    /// Appends `left <operator> right`.
    pub fn calc_score(&mut self, left: &Scoreboard, operator: String, right: &Scoreboard) -> (r: &mut Self)
        requires
            old(self).wf(),
        ensures
            *final(self) == *final(r),
            r.cmds() == old(self).cmds().push(CmdView::Calc { left: target_of(left@), op: operator@, right: target_of(right@) }),
            r.temps() == old(self).temps(),
            r.wf(),
    {
        let c = CommandAST::CalcScore(CalcScore { left: ScoreTarget::of(left), operator, right: ScoreTarget::of(right) });
        self.push_command(c);
        self
    }

    /// Sets the constant cell of `right`, then appends `left <operator> <that constant>`; the constant is reset at build time.
    pub fn calc_num(&mut self, left: &Scoreboard, operator: String, right: i32) -> (r: &mut Self)
        requires
            old(self).wf(),
        ensures
            *final(self) == *final(r),
            r.cmds() == old(self).cmds() + seq![
                CmdView::AssignNum { left: target_of(const_board(right as int)), value: right },
                CmdView::Calc { left: target_of(left@), op: operator@, right: target_of(const_board(right as int)) },
            ],
            r.temps() == old(self).temps().push(const_board(right as int)),
            r.wf(),
    {
        let ghost c0 = self.cmds();
        let constant = get_const(right);
        self.push_command(CommandAST::AssignNum(AssignNum { left: ScoreTarget::of(&constant), right }));
        assert(writes(self.cmds()[c0.len() as int], target_of(constant@)));
        let t = ScoreTarget::of(&constant);
        self.register(constant);
        let c = CommandAST::CalcScore(CalcScore { left: ScoreTarget::of(left), operator, right: t });
        self.push_command(c);
        assert(self.cmds() =~= c0 + seq![
            CmdView::AssignNum { left: target_of(const_board(right as int)), value: right },
            CmdView::Calc { left: target_of(left@), op: operator@, right: target_of(const_board(right as int)) },
        ]);
        self
    }

    /// Appends `add|remove left right`.
    pub fn add_rem_num(&mut self, left: &Scoreboard, add_rem: String, right: i32) -> (r: &mut Self)
        requires
            old(self).wf(),
        ensures
            *final(self) == *final(r),
            r.cmds() == old(self).cmds().push(CmdView::AddRem { left: target_of(left@), add_rem: add_rem@, amount: right }),
            r.temps() == old(self).temps(),
            r.wf(),
    {
        self.push_command(CommandAST::AddRemNum(AddRemNum { left: ScoreTarget::of(left), add_rem, right }));
        self
    }

    /// Appends `left = right`.
    pub fn assign_score(&mut self, left: &Scoreboard, right: &Scoreboard) -> (r: &mut Self)
        requires
            old(self).wf(),
        ensures
            *final(self) == *final(r),
            r.cmds() == old(self).cmds().push(CmdView::AssignScore { left: target_of(left@), right: target_of(right@) }),
            r.temps() == old(self).temps(),
            r.wf(),
    {
        self.push_command(CommandAST::AssignScore(AssignScore { left: ScoreTarget::of(left), right: ScoreTarget::of(right) }));
        self
    }

    /// Appends `set left right`.
    pub fn assign_num(&mut self, left: &Scoreboard, right: i32) -> (r: &mut Self)
        requires
            old(self).wf(),
        ensures
            *final(self) == *final(r),
            r.cmds() == old(self).cmds().push(CmdView::AssignNum { left: target_of(left@), value: right }),
            r.temps() == old(self).temps(),
            r.wf(),
    {
        self.push_command(CommandAST::AssignNum(AssignNum { left: ScoreTarget::of(left), right }));
        self
    }

    /// Divides the cell by the float magnification.
    pub fn intify(&mut self, target: &Scoreboard) -> (r: &mut Self)
        requires
            old(self).wf(),
        ensures
            *final(self) == *final(r),
            r.cmds() == old(self).cmds() + scale_cmds(target@, "/="@),
            r.temps() == old(self).temps().push(const_board(1000)),
            r.wf(),
    {
        self.calc_num(target, "/=".to_string(), FLOAT_MAGNIFICATION)
    }

    /// Multiplies the cell by the float magnification.
    pub fn fltify(&mut self, target: &Scoreboard) -> (r: &mut Self)
        requires
            old(self).wf(),
        ensures
            *final(self) == *final(r),
            r.cmds() == old(self).cmds() + scale_cmds(target@, "*="@),
            r.temps() == old(self).temps().push(const_board(1000)),
            r.wf(),
    {
        self.calc_num(target, "*=".to_string(), FLOAT_MAGNIFICATION)
    }

    /// Stores into `left` whether `left <comparison> right` holds, as 1 or 0.
    pub fn boolify_score_comparison(&mut self, left: &Scoreboard, comparison: String, right: &Scoreboard) -> (r: &mut Self)
        requires
            old(self).wf(),
        ensures
            *final(self) == *final(r),
            r.cmds() == old(self).cmds().push(boolify_cmd(target_of(left@), false, comparison@, target_of(right@))),
            r.temps() == old(self).temps(),
            r.wf(),
    {
        let mut conditions: Vec<ConditionAST> = Vec::new();
        conditions.push(ConditionAST::Comparison(ComparisonAST {
            is_unless: false,
            left: ScoreTarget::of(left),
            comparison,
            right: ScoreTarget::of(right),
        }));
        let c = CommandAST::BoolifyCondition(BoolifyCondition {
            contain_to: ScoreTarget::of(left),
            execute: ExecuteConstructer { conditions },
        });
        assert(c@->Boolify_conditions =~= seq![CondView { is_unless: false, left: target_of(left@), comparison: comparison@, right: target_of(right@) }]);
        self.push_command(c);
        self
    }

    /// Stores into `left` whether `left <comparison> right` holds for the constant `right`, as 1 or 0.
    pub fn boolify_num_comparison(&mut self, left: &Scoreboard, comparison: String, right: i32) -> (r: &mut Self)
        requires
            old(self).wf(),
        ensures
            *final(self) == *final(r),
            r.cmds() == old(self).cmds() + seq![
                CmdView::AssignNum { left: target_of(const_board(right as int)), value: right },
                boolify_cmd(target_of(left@), false, comparison@, target_of(const_board(right as int))),
            ],
            r.temps() == old(self).temps().push(const_board(right as int)),
            r.wf(),
    {
        let ghost c0 = self.cmds();
        let constant = get_const(right);
        self.push_command(CommandAST::AssignNum(AssignNum { left: ScoreTarget::of(&constant), right }));
        assert(writes(self.cmds()[c0.len() as int], target_of(constant@)));
        let mut conditions: Vec<ConditionAST> = Vec::new();
        conditions.push(ConditionAST::Comparison(ComparisonAST {
            is_unless: false,
            left: ScoreTarget::of(left),
            comparison,
            right: ScoreTarget::of(&constant),
        }));
        let c = CommandAST::BoolifyCondition(BoolifyCondition {
            contain_to: ScoreTarget::of(left),
            execute: ExecuteConstructer { conditions },
        });
        assert(c@->Boolify_conditions =~= seq![CondView { is_unless: false, left: target_of(left@), comparison: comparison@, right: target_of(constant@) }]);
        self.register(constant);
        self.push_command(c);
        assert(self.cmds() =~= c0 + seq![
            CmdView::AssignNum { left: target_of(const_board(right as int)), value: right },
            boolify_cmd(target_of(left@), false, comparison@, target_of(const_board(right as int))),
        ]);
        self
    }

    /// Re-clamps a truthy cell to 1: stores `unless target == 0` back into it.
    pub fn validate_bool(&mut self, target: &Scoreboard) -> (r: &mut Self)
        requires
            old(self).wf(),
        ensures
            *final(self) == *final(r),
            r.cmds() == old(self).cmds() + seq![
                CmdView::AssignNum { left: target_of(const_board(0)), value: 0 },
                boolify_cmd(target_of(target@), true, "=="@, target_of(const_board(0))),
            ],
            r.temps() == old(self).temps().push(const_board(0)),
            r.wf(),
    {
        let ghost c0 = self.cmds();
        let constant_0 = get_const(0);
        self.push_command(CommandAST::AssignNum(AssignNum { left: ScoreTarget::of(&constant_0), right: 0 }));
        assert(writes(self.cmds()[c0.len() as int], target_of(constant_0@)));
        let mut conditions: Vec<ConditionAST> = Vec::new();
        conditions.push(ConditionAST::Comparison(ComparisonAST {
            is_unless: true,
            left: ScoreTarget::of(target),
            comparison: "==".to_string(),
            right: ScoreTarget::of(&constant_0),
        }));
        let c = CommandAST::BoolifyCondition(BoolifyCondition {
            contain_to: ScoreTarget::of(target),
            execute: ExecuteConstructer { conditions },
        });
        assert(c@->Boolify_conditions =~= seq![CondView { is_unless: true, left: target_of(target@), comparison: "=="@, right: target_of(constant_0@) }]);
        self.register(constant_0);
        self.push_command(c);
        assert(self.cmds() =~= c0 + seq![
            CmdView::AssignNum { left: target_of(const_board(0)), value: 0 },
            boolify_cmd(target_of(target@), true, "=="@, target_of(const_board(0))),
        ]);
        self
    }

    /// Appends a reset of the cell.
    pub fn free(&mut self, target: &Scoreboard) -> (r: &mut Self)
        requires
            old(self).wf(),
        ensures
            *final(self) == *final(r),
            r.cmds() == old(self).cmds().push(CmdView::Free { target: target_of(target@) }),
            r.temps() == old(self).temps(),
            r.wf(),
    {
        self.push_command(CommandAST::Free(Free { target: ScoreTarget::of(target) }));
        self
    }

    /// The assembled commands followed by a reset of every registered constant.
    pub fn build(&self) -> (r: Vec<CommandAST>)
        requires
            self.wf(),
        ensures
            cmds_view(r@) == self.cmds() + frees_of(self.temps()),
    {
        let mut out = copy_commands(&self.commands);
        let mut i: usize = 0;
        while i < self.temp_scores.len()
            invariant
                0 <= i <= self.temp_scores@.len(),
                cmds_view(out@) == self.cmds() + frees_of(self.temps()).take(i as int),
            decreases self.temp_scores@.len() - i,
        {
            let ghost before = out@;
            out.push(CommandAST::Free(Free { target: ScoreTarget::of(&self.temp_scores[i]) }));
            assert(cmds_view(out@) =~= cmds_view(before).push(frees_of(self.temps())[i as int]));
            assert(frees_of(self.temps()).take(i + 1) =~= frees_of(self.temps()).take(i as int).push(frees_of(self.temps())[i as int]));
            i = i + 1;
        }
        assert(frees_of(self.temps()).take(i as int) =~= frees_of(self.temps()));
        out
    }
}

/// What a builder's `build` returns.
pub open spec fn built(f: FormulaConstructer) -> Seq<CmdView> {
    f.cmds() + frees_of(f.temps())
}

/// Every reset that a builder appends when it builds is of a constant cell that an earlier
/// command of the same list sets.
pub proof fn lemma_build_frees_written(f: FormulaConstructer)
    requires
        f.wf(),
    ensures
        forall|j: int| f.cmds().len() <= j < f.cmds().len() + f.temps().len() ==> (#[trigger] built(f)[j]) is Free
            && written_before(built(f), built(f)[j]->Free_target, j),
{
    let out = built(f);
    let n = f.cmds().len() as int;
    assert forall|j: int| n <= j < n + f.temps().len() implies (#[trigger] built(f)[j]) is Free
        && written_before(built(f), built(f)[j]->Free_target, j) by {
        let k = j - n;
        let t = target_of(f.temps()[k]);
        assert(out[j] == frees_of(f.temps())[k]);
        assert(written_before(f.cmds(), t, n));
        let i = choose|i: int| 0 <= i < n && #[trigger] writes(f.cmds()[i], t);
        assert(out[i] == f.cmds()[i]);
        assert(writes(out[i], t));
    }
}

/// `set <1000>` on the constant cell, then `target <op> <that constant>`.
pub open spec fn scale_cmds(target: ScoreboardView, op: Seq<char>) -> Seq<CmdView> {
    seq![
        CmdView::AssignNum { left: target_of(const_board(1000)), value: 1000 },
        CmdView::Calc { left: target_of(target), op, right: target_of(const_board(1000)) },
    ]
}

/// A boolean normalisation of one comparison into `contain_to`.
pub open spec fn boolify_cmd(contain_to: TargetView, is_unless: bool, comparison: Seq<char>, right: TargetView) -> CmdView {
    CmdView::Boolify {
        contain_to,
        conditions: seq![CondView { is_unless, left: contain_to, comparison, right }],
    }
}

} // verus!
