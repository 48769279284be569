//! The printed form of literals, constraints and chronicles, in which each
//! atom is written as the symbol table knows it.
use crate::planning::atom::AtomId;
use crate::planning::chronicle::{
    Condition, ConditionModel, Effect, EffectModel, Expression, ExpressionModel, Interval,
    PartialChronicle, PartialChronicleModel, Transition,
};
use crate::planning::expression_chronicle::{Chronicle, ChronicleModel};
use crate::planning::lit::{lemma_exp_model, Constraint, ConstraintModel, Lit, LitModel};
use crate::planning::sym_table::{SymTable, SymTableModel};
use vstd::prelude::*;

verus! {

/// What is printed for an atom that the table does not hold.
pub const UNKNOWN: &'static str = "?";

/// The printed form of the atom `id`: that of the atom that stands for its
/// class.
pub open spec fn sym_text(st: SymTableModel, id: AtomId) -> Seq<char> {
    if id < st.atoms.len() && id < st.repr.len() && st.repr[id as int] < st.atoms.len() {
        st.atoms[st.repr[id as int] as int].text()
    } else {
        UNKNOWN@
    }
}

/// The printed form of a literal: an atom as the table knows it, a
/// constraint in its own form, a sequence between brackets with a blank
/// between its items.
pub open spec fn lit_text(l: LitModel, st: SymTableModel) -> Seq<char>
    decreases l, 0nat,
{
    match l {
        LitModel::Atom(a) => sym_text(st, a),
        LitModel::Constraint(c) => constraint_text(*c, st),
        LitModel::Exp(v) => "("@ + lits_text(v, v.len(), st) + ")"@,
    }
}

/// The printed forms of the first `n` literals, with a blank between them.
pub open spec fn lits_text(v: Seq<LitModel>, n: nat, st: SymTableModel) -> Seq<char>
    decreases v, n,
{
    if n == 0 || n > v.len() {
        Seq::empty()
    } else if n == 1 {
        lit_text(v[0], st)
    } else {
        lits_text(v, (n - 1) as nat, st) + " "@ + lit_text(v[n - 1], st)
    }
}

/// Two printed forms around an operator, between brackets.
pub open spec fn infix(a: Seq<char>, op: Seq<char>, b: Seq<char>) -> Seq<char> {
    "("@ + a + " "@ + op + " "@ + b + ")"@
}

/// The printed form of a constraint.
pub open spec fn constraint_text(c: ConstraintModel, st: SymTableModel) -> Seq<char>
    decreases c, 0nat,
{
    match c {
        ConstraintModel::Eq(a, b) => infix(lit_text(a, st), "="@, lit_text(b, st)),
        ConstraintModel::Neg(a) => "(! "@ + lit_text(a, st) + ")"@,
        ConstraintModel::LT(a, b) => infix(lit_text(a, st), "<"@, lit_text(b, st)),
        ConstraintModel::And(a, b) => infix(lit_text(a, st), "&&"@, lit_text(b, st)),
        ConstraintModel::Or(a, b) => infix(lit_text(a, st), "||"@, lit_text(b, st)),
        ConstraintModel::LEq(a, b) => infix(lit_text(a, st), "<="@, lit_text(b, st)),
    }
}

/// The printed form of an interval: its two timepoints between square
/// brackets.
pub open spec fn interval_text(i: Interval, st: SymTableModel) -> Seq<char> {
    "["@ + sym_text(st, i.first()) + ","@ + sym_text(st, i.last()) + "]"@
}

/// The printed form of a condition: its interval, then its constraint.
pub open spec fn condition_text(c: ConditionModel, st: SymTableModel) -> Seq<char> {
    interval_text(c.interval, st) + " "@ + constraint_text(c.constraint, st)
}

/// The printed form of an effect: its interval, then the variable and the
/// value that it takes.
pub open spec fn effect_text(e: EffectModel, st: SymTableModel) -> Seq<char> {
    interval_text(e.interval, st) + " "@ + lit_text(e.variable, st) + " <- "@ + lit_text(
        e.value,
        st,
    )
}

/// The printed form of an expression: its interval, then its literal.
pub open spec fn expression_text(e: ExpressionModel, st: SymTableModel) -> Seq<char> {
    interval_text(e.interval, st) + " "@ + lit_text(e.lit, st)
}

/// The printed form of the atom `id`.
pub fn format_sym(id: &AtomId, st: &SymTable) -> (r: String)
    requires
        st.wf(),
    ensures
        r@ == sym_text(st@, *id),
{
    proof {
        st.lemma_wf();
    }
    match st.get_sym(id) {
        Some(a) => a.to_string(),
        None => String::from_str(UNKNOWN),
    }
}

/// Two printed forms around an operator, between brackets.
fn format_infix(a: String, op: &str, b: String) -> (r: String)
    ensures
        r@ == infix(a@, op@, b@),
{
    let mut r = String::from_str("(");
    r.append(a.as_str());
    r.append(" ");
    r.append(op);
    r.append(" ");
    r.append(b.as_str());
    r.append(")");
    r
}

impl Lit {
    /// The printed form of the literal.
    pub fn format_with_sym_table(&self, st: &SymTable) -> (r: String)
        requires
            st.wf(),
        ensures
            r@ == lit_text(self@, st@),
        decreases *self,
    {
        match self {
            Lit::Atom(a) => format_sym(a, st),
            Lit::Constraint(c) => {
                let inner: &Constraint = c;
                inner.format_with_sym_table(st)
            },
            Lit::Exp(v) => {
                proof {
                    lemma_exp_model(*v);
                }
                let ghost m = self@->Exp_0;
                let mut r = String::from_str("(");
                let mut i: usize = 0;
                assert(r@ =~= "("@ + lits_text(m, 0, st@));
                while i < v.len()
                    invariant
                        i <= v.len(),
                        st.wf(),
                        *self is Exp,
                        self->Exp_0 == *v,
                        m == crate::planning::lit::lit_models(v@),
                        r@ == "("@ + lits_text(m, i as nat, st@),
                    decreases v.len() - i,
                {
                    assert(decreases_to!(*self => self->Exp_0));
                    assert(m[i as int] == v@[i as int]@);
                    if i != 0 {
                        r.append(" ");
                    }
                    let item = v[i].format_with_sym_table(st);
                    r.append(item.as_str());
                    assert(r@ =~= "("@ + lits_text(m, (i + 1) as nat, st@));
                    i += 1;
                }
                r.append(")");
                r
            },
        }
    }
}

impl Constraint {
    /// The printed form of the constraint.
    pub fn format_with_sym_table(&self, st: &SymTable) -> (r: String)
        requires
            st.wf(),
        ensures
            r@ == constraint_text(self@, st@),
        decreases *self,
    {
        match self {
            Constraint::Eq(a, b) => format_infix(
                a.format_with_sym_table(st),
                "=",
                b.format_with_sym_table(st),
            ),
            Constraint::Neg(a) => {
                let mut r = String::from_str("(! ");
                r.append(a.format_with_sym_table(st).as_str());
                r.append(")");
                r
            },
            Constraint::LT(a, b) => format_infix(
                a.format_with_sym_table(st),
                "<",
                b.format_with_sym_table(st),
            ),
            Constraint::And(a, b) => format_infix(
                a.format_with_sym_table(st),
                "&&",
                b.format_with_sym_table(st),
            ),
            Constraint::Or(a, b) => format_infix(
                a.format_with_sym_table(st),
                "||",
                b.format_with_sym_table(st),
            ),
            Constraint::LEq(a, b) => format_infix(
                a.format_with_sym_table(st),
                "<=",
                b.format_with_sym_table(st),
            ),
        }
    }
}

impl Interval {
    /// The printed form of the interval.
    pub fn format_with_sym_table(&self, st: &SymTable) -> (r: String)
        requires
            st.wf(),
        ensures
            r@ == interval_text(*self, st@),
    {
        let mut r = String::from_str("[");
        r.append(format_sym(&self.start(), st).as_str());
        r.append(",");
        r.append(format_sym(&self.end(), st).as_str());
        r.append("]");
        r
    }
}

impl Condition {
    /// The printed form of the condition.
    pub fn format_with_sym_table(&self, st: &SymTable) -> (r: String)
        requires
            st.wf(),
        ensures
            r@ == condition_text(self@, st@),
    {
        let mut r = self.interval.format_with_sym_table(st);
        r.append(" ");
        r.append(self.constraint.format_with_sym_table(st).as_str());
        r
    }
}

impl Transition {
    /// The printed form of the transition: the variable and the value that
    /// it takes.
    pub fn format_with_sym_table(&self, st: &SymTable) -> (r: String)
        requires
            st.wf(),
        ensures
            r@ == lit_text(self.variable(), st@) + " <- "@ + lit_text(self.value(), st@),
    {
        let mut r = self.get_variable().format_with_sym_table(st);
        r.append(" <- ");
        r.append(self.get_value().format_with_sym_table(st).as_str());
        r
    }
}

impl Effect {
    /// The printed form of the effect.
    pub fn format_with_sym_table(&self, st: &SymTable) -> (r: String)
        requires
            st.wf(),
        ensures
            r@ == effect_text(self@, st@),
    {
        let mut r = self.interval.format_with_sym_table(st);
        r.append(" ");
        r.append(self.transition.format_with_sym_table(st).as_str());
        assert(r@ =~= effect_text(self@, st@));
        r
    }
}

impl Expression {
    /// The printed form of the expression.
    pub fn format_with_sym_table(&self, st: &SymTable) -> (r: String)
        requires
            st.wf(),
        ensures
            r@ == expression_text(self@, st@),
    {
        let mut r = self.interval.format_with_sym_table(st);
        r.append(" ");
        r.append(self.lit.format_with_sym_table(st).as_str());
        r
    }
}

/// The variables that are atoms below `n`, in the order of their
/// identifiers.
pub open spec fn listed(vars: Set<AtomId>, n: nat) -> Seq<AtomId>
    decreases n,
{
    if n == 0 {
        Seq::empty()
    } else if vars.contains((n - 1) as AtomId) {
        listed(vars, (n - 1) as nat).push((n - 1) as AtomId)
    } else {
        listed(vars, (n - 1) as nat)
    }
}

/// The printed forms of atoms.
pub open spec fn names_of(ids: Seq<AtomId>, st: SymTableModel) -> Seq<Seq<char>> {
    Seq::new(ids.len(), |i: int| sym_text(st, ids[i]))
}

/// The first `n` lines, each behind a tabulation and closed by a line feed.
pub open spec fn rows(lines: Seq<Seq<char>>, n: nat) -> Seq<char>
    decreases n,
{
    if n == 0 || n > lines.len() {
        Seq::empty()
    } else {
        rows(lines, (n - 1) as nat) + "\t"@ + lines[n - 1] + "\n"@
    }
}

/// The printed forms of constraints.
pub open spec fn constraint_lines(s: Seq<ConstraintModel>, st: SymTableModel) -> Seq<Seq<char>> {
    Seq::new(s.len(), |i: int| constraint_text(s[i], st))
}

/// The printed forms of conditions.
pub open spec fn condition_lines(s: Seq<ConditionModel>, st: SymTableModel) -> Seq<Seq<char>> {
    Seq::new(s.len(), |i: int| condition_text(s[i], st))
}

/// The printed forms of effects.
pub open spec fn effect_lines(s: Seq<EffectModel>, st: SymTableModel) -> Seq<Seq<char>> {
    Seq::new(s.len(), |i: int| effect_text(s[i], st))
}

/// The printed forms of expressions.
pub open spec fn expression_lines(s: Seq<ExpressionModel>, st: SymTableModel) -> Seq<Seq<char>> {
    Seq::new(s.len(), |i: int| expression_text(s[i], st))
}

/// A titled block of lines between curly brackets.
pub open spec fn block(title: Seq<char>, lines: Seq<Seq<char>>) -> Seq<char> {
    title + "{\n"@ + rows(lines, lines.len()) + "}\n"@
}

/// The line of the variables: those that are atoms of the table, in the
/// order of their identifiers, with a comma between them.
pub open spec fn variables_text(vars: Set<AtomId>, st: SymTableModel) -> Seq<char> {
    let names = names_of(listed(vars, st.atoms.len()), st);
    "-variable(s): {"@ + crate::text::join_text(names, ","@, names.len()) + "}\n"@
}

/// The printed form of what a chronicle holds: its variables, then its
/// constraints, conditions, effects and subtasks, a block each.
pub open spec fn partial_text(p: PartialChronicleModel, st: SymTableModel) -> Seq<char> {
    variables_text(p.variables, st) + block(
        "-constraint(s): "@,
        constraint_lines(p.constraints, st),
    ) + block("-conditon(s): "@, condition_lines(p.conditions, st)) + block(
        "-effect(s): "@,
        effect_lines(p.effects, st),
    ) + block("-subtask(s): "@, expression_lines(p.subtasks, st))
}

/// The printed form of a chronicle: its name, its task, what it holds, and
/// the expression that it stands for, if it is known.
pub open spec fn chronicle_text(c: ChronicleModel, st: SymTableModel) -> Seq<char> {
    "-name: "@ + lit_text(c.name, st) + "\n-task: "@ + lit_text(c.task, st) + "\n"@
        + partial_text(c.partial, st) + match c.debug {
        Some(d) => "debug: "@ + d.text(),
        None => Seq::empty(),
    }
}

/// Closes a block: the title and the rows that were gathered.
fn close_block(title: &str, body: String) -> (r: String)
    ensures
        r@ == title@ + "{\n"@ + body@ + "}\n"@,
{
    let mut r = String::from_str(title);
    r.append("{\n");
    r.append(body.as_str());
    r.append("}\n");
    r
}

/// Adds a row to the rows that were gathered.
fn push_row(body: &mut String, line: String)
    ensures
        final(body)@ == old(body)@ + "\t"@ + line@ + "\n"@,
{
    body.append("\t");
    body.append(line.as_str());
    body.append("\n");
}

impl PartialChronicle {
    /// The line of the variables.
    fn format_variables(&self, st: &SymTable) -> (r: String)
        requires
            st.wf(),
        ensures
            r@ == variables_text(self@.variables, st@),
    {
        let ghost vars = self@.variables;
        let ghost mut ids: Seq<AtomId> = Seq::empty();
        let mut r = String::from_str("-variable(s): {");
        let mut listed_any = false;
        let n = st.n_atoms();
        let mut i: usize = 0;
        while i < n
            invariant
                i <= n,
                n == st@.atoms.len(),
                st.wf(),
                vars == self@.variables,
                ids == listed(vars, i as nat),
                listed_any == (ids.len() > 0),
                r@ == "-variable(s): {"@ + crate::text::join_text(
                    names_of(ids, st@),
                    ","@,
                    ids.len(),
                ),
            decreases n - i,
        {
            if self.has_var(&i) {
                let ghost before = names_of(ids, st@);
                if listed_any {
                    r.append(",");
                }
                r.append(format_sym(&i, st).as_str());
                listed_any = true;
                proof {
                    ids = ids.push(i);
                    let now = names_of(ids, st@);
                    assert(now =~= before.push(sym_text(st@, i)));
                    lemma_join_push(before, ","@, sym_text(st@, i));
                }
            }
            i += 1;
        }
        r.append("}\n");
        r
    }

    /// The printed form of what the chronicle holds.
    pub fn format_with_sym_table(&self, st: &SymTable) -> (r: String)
        requires
            st.wf(),
        ensures
            r@ == partial_text(self@, st@),
    {
        let mut r = self.format_variables(st);
        r.append(format_constraints(self.get_constraints(), st).as_str());
        r.append(format_conditions(self.get_conditions(), st).as_str());
        r.append(format_effects(self.get_effects(), st).as_str());
        r.append(format_subtasks(self.get_subtasks(), st).as_str());
        assert(r@ =~= partial_text(self@, st@));
        r
    }
}

/// Joining one text more adds the separator and the text, but for the first
/// text.
proof fn lemma_join_push(parts: Seq<Seq<char>>, sep: Seq<char>, last: Seq<char>)
    ensures
        crate::text::join_text(parts.push(last), sep, parts.len() + 1) == (if parts.len() == 0 {
            last
        } else {
            crate::text::join_text(parts, sep, parts.len()) + sep + last
        }),
{
    lemma_join_prefix(parts, parts.push(last), sep, parts.len());
}

/// The join of the first texts depends on those texts only.
proof fn lemma_join_prefix(a: Seq<Seq<char>>, b: Seq<Seq<char>>, sep: Seq<char>, n: nat)
    requires
        n <= a.len(),
        n <= b.len(),
        forall|i: int| 0 <= i < n ==> a[i] == b[i],
    ensures
        crate::text::join_text(a, sep, n) == crate::text::join_text(b, sep, n),
    decreases n,
{
    if n > 1 {
        lemma_join_prefix(a, b, sep, (n - 1) as nat);
    }
}

/// The block of the constraints.
fn format_constraints(v: &Vec<Constraint>, st: &SymTable) -> (r: String)
    requires
        st.wf(),
    ensures
        r@ == block(
            "-constraint(s): "@,
            constraint_lines(crate::planning::lit::constraint_models(v@), st@),
        ),
{
    let ghost lines = constraint_lines(crate::planning::lit::constraint_models(v@), st@);
    let mut body = String::new();
    let mut i: usize = 0;
    assert(body@ =~= rows(lines, 0));
    while i < v.len()
        invariant
            i <= v.len(),
            st.wf(),
            lines == constraint_lines(crate::planning::lit::constraint_models(v@), st@),
            body@ == rows(lines, i as nat),
        decreases v.len() - i,
    {
        push_row(&mut body, v[i].format_with_sym_table(st));
        i += 1;
    }
    close_block("-constraint(s): ", body)
}

/// The block of the conditions.
fn format_conditions(v: &Vec<Condition>, st: &SymTable) -> (r: String)
    requires
        st.wf(),
    ensures
        r@ == block(
            "-conditon(s): "@,
            condition_lines(crate::planning::chronicle::condition_models(v@), st@),
        ),
{
    let ghost lines = condition_lines(crate::planning::chronicle::condition_models(v@), st@);
    let mut body = String::new();
    let mut i: usize = 0;
    assert(body@ =~= rows(lines, 0));
    while i < v.len()
        invariant
            i <= v.len(),
            st.wf(),
            lines == condition_lines(crate::planning::chronicle::condition_models(v@), st@),
            body@ == rows(lines, i as nat),
        decreases v.len() - i,
    {
        push_row(&mut body, v[i].format_with_sym_table(st));
        i += 1;
    }
    close_block("-conditon(s): ", body)
}

/// The block of the effects.
fn format_effects(v: &Vec<Effect>, st: &SymTable) -> (r: String)
    requires
        st.wf(),
    ensures
        r@ == block(
            "-effect(s): "@,
            effect_lines(crate::planning::chronicle::effect_models(v@), st@),
        ),
{
    let ghost lines = effect_lines(crate::planning::chronicle::effect_models(v@), st@);
    let mut body = String::new();
    let mut i: usize = 0;
    assert(body@ =~= rows(lines, 0));
    while i < v.len()
        invariant
            i <= v.len(),
            st.wf(),
            lines == effect_lines(crate::planning::chronicle::effect_models(v@), st@),
            body@ == rows(lines, i as nat),
        decreases v.len() - i,
    {
        push_row(&mut body, v[i].format_with_sym_table(st));
        i += 1;
    }
    close_block("-effect(s): ", body)
}

/// The block of the subtasks.
fn format_subtasks(v: &Vec<Expression>, st: &SymTable) -> (r: String)
    requires
        st.wf(),
    ensures
        r@ == block(
            "-subtask(s): "@,
            expression_lines(crate::planning::chronicle::expression_models(v@), st@),
        ),
{
    let ghost lines = expression_lines(crate::planning::chronicle::expression_models(v@), st@);
    let mut body = String::new();
    let mut i: usize = 0;
    assert(body@ =~= rows(lines, 0));
    while i < v.len()
        invariant
            i <= v.len(),
            st.wf(),
            lines == expression_lines(crate::planning::chronicle::expression_models(v@), st@),
            body@ == rows(lines, i as nat),
        decreases v.len() - i,
    {
        push_row(&mut body, v[i].format_with_sym_table(st));
        i += 1;
    }
    close_block("-subtask(s): ", body)
}

impl Chronicle {
    /// The printed form of the chronicle.
    pub fn format_with_sym_table(&self, st: &SymTable) -> (r: String)
        requires
            st.wf(),
        ensures
            r@ == chronicle_text(self@, st@),
    {
        let mut r = String::from_str("-name: ");
        r.append(self.get_name().format_with_sym_table(st).as_str());
        r.append("\n-task: ");
        r.append(self.get_task().format_with_sym_table(st).as_str());
        r.append("\n");
        r.append(self.get_partial_chronicle().format_with_sym_table(st).as_str());
        match self.get_debug() {
            Some(d) => {
                r.append("debug: ");
                r.append(d.to_string().as_str());
            },
            None => {},
        }
        assert(r@ =~= chronicle_text(self@, st@));
        r
    }
}

} // verus!
