//! Surface, flat and normalised syntax trees, each with a spec-level model.
use vstd::prelude::*;

verus! {

/// Spec-level model of a literal.
pub enum LitV {
    Int(i64),
    Str(Seq<char>),
    Unit,
    Bool(bool),
}

/// A literal constant of the surface language.
#[derive(Debug, PartialEq)]
pub enum Literal {
    Int(i64),
    String(String),
    Unit,
    Bool(bool),
}

impl View for Literal {
    type V = LitV;

    open spec fn view(&self) -> LitV {
        match self {
            Literal::Int(i) => LitV::Int(*i),
            Literal::String(s) => LitV::Str(s@),
            Literal::Unit => LitV::Unit,
            Literal::Bool(b) => LitV::Bool(*b),
        }
    }
}

impl Literal {
    pub fn copy(&self) -> (r: Literal)
        ensures
            r@ == self@,
    {
        match self {
            Literal::Int(i) => Literal::Int(*i),
            Literal::String(s) => Literal::String(s.clone()),
            Literal::Unit => Literal::Unit,
            Literal::Bool(b) => Literal::Bool(*b),
        }
    }
}

/// Name of the sort a literal belongs to.
pub open spec fn literal_sort(lit: LitV) -> Seq<char> {
    match lit {
        LitV::Int(_) => "i64"@,
        LitV::Str(_) => "String"@,
        LitV::Unit => "Unit"@,
        LitV::Bool(_) => "bool"@,
    }
}

/// Canonical sort name of a literal.
pub fn literal_name(lit: &Literal) -> (r: String)
    ensures
        r@ == literal_sort(lit@),
{
    match lit {
        Literal::Int(_) => String::from_str("i64"),
        Literal::String(_) => String::from_str("String"),
        Literal::Unit => String::from_str("Unit"),
        Literal::Bool(_) => String::from_str("bool"),
    }
}

pub open spec fn syms(v: Seq<String>) -> Seq<Seq<char>> {
    v.map_values(|s: String| s@)
}

/// Copies a list of names.
pub fn copy_syms(v: &Vec<String>) -> (r: Vec<String>)
    ensures
        syms(r@) == syms(v@),
{
    let mut r: Vec<String> = Vec::new();
    let mut i: usize = 0;
    while i < v.len()
        invariant
            i <= v.len(),
            r@.len() == i,
            forall|j: int| 0 <= j < i ==> (#[trigger] r@[j])@ == v@[j]@,
        decreases v.len() - i,
    {
        r.push(v[i].clone());
        i += 1;
    }
    assert(syms(r@) =~= syms(v@));
    r
}

/// Spec-level model of an expression.
pub enum ExprV {
    Lit(LitV),
    Var(Seq<char>),
    Call(Seq<char>, Seq<ExprV>),
}

/// A surface expression: a literal, a variable or a call.
#[derive(Debug, PartialEq)]
pub enum Expr {
    Lit(Literal),
    Var(String),
    Call(String, Vec<Expr>),
}

pub open spec fn expr_view(e: Expr) -> ExprV
    decreases e,
{
    match e {
        Expr::Lit(l) => ExprV::Lit(l@),
        Expr::Var(v) => ExprV::Var(v@),
        Expr::Call(f, args) => ExprV::Call(
            f@,
            Seq::new(
                args.len() as nat,
                |i: int|
                    if 0 <= i < args.len() {
                        expr_view(args[i])
                    } else {
                        ExprV::Var(Seq::empty())
                    },
            ),
        ),
    }
}

impl View for Expr {
    type V = ExprV;

    open spec fn view(&self) -> ExprV {
        expr_view(*self)
    }
}

pub open spec fn exprs_view(v: Seq<Expr>) -> Seq<ExprV> {
    v.map_values(|e: Expr| e@)
}

pub proof fn lemma_call_view(f: String, args: Vec<Expr>)
    ensures
        Expr::Call(f, args)@ == ExprV::Call(f@, exprs_view(args@)),
{
    assert(expr_view(Expr::Call(f, args))->Call_1 =~= exprs_view(args@));
}

impl Expr {
    pub fn copy(&self) -> (r: Expr)
        ensures
            r@ == self@,
        decreases self@,
    {
        match self {
            Expr::Lit(l) => Expr::Lit(l.copy()),
            Expr::Var(v) => Expr::Var(v.clone()),
            Expr::Call(f, args) => {
                let mut out: Vec<Expr> = Vec::new();
                let mut i: usize = 0;
                while i < args.len()
                    invariant
                        *self == Expr::Call(*f, *args),
                        i <= args.len(),
                        out@.len() == i,
                        forall|j: int| 0 <= j < i ==> (#[trigger] out@[j])@ == args@[j]@,
                    decreases args.len() - i,
                {
                    assert(self@->Call_1[i as int] == args@[i as int]@);
                    out.push(args[i].copy());
                    i += 1;
                }
                let r = Expr::Call(f.clone(), out);
                proof {
                    lemma_call_view(*f, out);
                    lemma_call_view(*f, *args);
                    assert(exprs_view(out@) =~= exprs_view(args@));
                }
                r
            }
        }
    }
}

/// Copies a list of expressions.
pub fn copy_exprs(v: &Vec<Expr>) -> (r: Vec<Expr>)
    ensures
        exprs_view(r@) == exprs_view(v@),
{
    let mut r: Vec<Expr> = Vec::new();
    let mut i: usize = 0;
    while i < v.len()
        invariant
            i <= v.len(),
            r@.len() == i,
            forall|j: int| 0 <= j < i ==> (#[trigger] r@[j])@ == v@[j]@,
        decreases v.len() - i,
    {
        r.push(v[i].copy());
        i += 1;
    }
    assert(exprs_view(r@) =~= exprs_view(v@));
    r
}

/// Spec-level model of a fact.
pub enum FactV {
    Eq(Seq<ExprV>),
    Fact(ExprV),
}

/// A fact in a rule body: an equality between expressions, or a bare expression.
#[derive(Debug, PartialEq)]
pub enum Fact {
    Eq(Vec<Expr>),
    Fact(Expr),
}

impl View for Fact {
    type V = FactV;

    open spec fn view(&self) -> FactV {
        match self {
            Fact::Eq(es) => FactV::Eq(exprs_view(es@)),
            Fact::Fact(e) => FactV::Fact(e@),
        }
    }
}

pub open spec fn facts_view(v: Seq<Fact>) -> Seq<FactV> {
    v.map_values(|f: Fact| f@)
}

impl Fact {
    pub fn copy(&self) -> (r: Fact)
        ensures
            r@ == self@,
    {
        match self {
            Fact::Eq(es) => Fact::Eq(copy_exprs(es)),
            Fact::Fact(e) => Fact::Fact(e.copy()),
        }
    }
}

/// Copies a list of facts.
pub fn copy_facts(v: &Vec<Fact>) -> (r: Vec<Fact>)
    ensures
        facts_view(r@) == facts_view(v@),
{
    let mut r: Vec<Fact> = Vec::new();
    let mut i: usize = 0;
    while i < v.len()
        invariant
            i <= v.len(),
            r@.len() == i,
            forall|j: int| 0 <= j < i ==> (#[trigger] r@[j])@ == v@[j]@,
        decreases v.len() - i,
    {
        r.push(v[i].copy());
        i += 1;
    }
    assert(facts_view(r@) =~= facts_view(v@));
    r
}

/// Spec-level model of an action.
pub enum ActionV {
    Let(Seq<char>, ExprV),
    SetValue(Seq<char>, Seq<ExprV>, ExprV),
    Delete(Seq<char>, Seq<ExprV>),
    Union(ExprV, ExprV),
    Panic(Seq<char>),
    Expr(ExprV),
}

/// An action in a rule head or at the top level.
#[derive(Debug, PartialEq)]
pub enum Action {
    Let(String, Expr),
    SetValue(String, Vec<Expr>, Expr),
    Delete(String, Vec<Expr>),
    Union(Expr, Expr),
    Panic(String),
    Expr(Expr),
}

impl View for Action {
    type V = ActionV;

    open spec fn view(&self) -> ActionV {
        match self {
            Action::Let(v, e) => ActionV::Let(v@, e@),
            Action::SetValue(f, args, e) => ActionV::SetValue(f@, exprs_view(args@), e@),
            Action::Delete(f, args) => ActionV::Delete(f@, exprs_view(args@)),
            Action::Union(a, b) => ActionV::Union(a@, b@),
            Action::Panic(m) => ActionV::Panic(m@),
            Action::Expr(e) => ActionV::Expr(e@),
        }
    }
}

pub open spec fn actions_view(v: Seq<Action>) -> Seq<ActionV> {
    v.map_values(|a: Action| a@)
}

/// Spec-level model of a rule.
pub struct RuleV {
    pub body: Seq<FactV>,
    pub head: Seq<ActionV>,
}

/// A surface rule: when every fact of `body` matches, run `head`.
#[derive(Debug, PartialEq)]
pub struct Rule {
    pub body: Vec<Fact>,
    pub head: Vec<Action>,
}

impl View for Rule {
    type V = RuleV;

    open spec fn view(&self) -> RuleV {
        RuleV { body: facts_view(self.body@), head: actions_view(self.head@) }
    }
}

/// Spec-level model of a rewrite.
pub struct RewriteV {
    pub lhs: ExprV,
    pub rhs: ExprV,
    pub conditions: Seq<FactV>,
}

/// A rewrite `lhs => rhs` guarded by `conditions`.
#[derive(Debug, PartialEq)]
pub struct Rewrite {
    pub lhs: Expr,
    pub rhs: Expr,
    pub conditions: Vec<Fact>,
}

impl View for Rewrite {
    type V = RewriteV;

    open spec fn view(&self) -> RewriteV {
        RewriteV { lhs: self.lhs@, rhs: self.rhs@, conditions: facts_view(self.conditions@) }
    }
}

/// Spec-level model of a datatype variant.
pub struct VariantV {
    pub name: Seq<char>,
    pub types: Seq<Seq<char>>,
    pub cost: Option<u64>,
}

/// One constructor of a datatype.
#[derive(Debug, PartialEq)]
pub struct Variant {
    pub name: String,
    pub types: Vec<String>,
    pub cost: Option<u64>,
}

impl View for Variant {
    type V = VariantV;

    open spec fn view(&self) -> VariantV {
        VariantV { name: self.name@, types: syms(self.types@), cost: self.cost }
    }
}

pub open spec fn variants_view(v: Seq<Variant>) -> Seq<VariantV> {
    v.map_values(|x: Variant| x@)
}

/// Spec-level model of a schema.
pub struct SchemaV {
    pub input: Seq<Seq<char>>,
    pub output: Seq<char>,
}

/// Input sorts and output sort of a function.
#[derive(Debug, PartialEq)]
pub struct Schema {
    pub input: Vec<String>,
    pub output: String,
}

impl View for Schema {
    type V = SchemaV;

    open spec fn view(&self) -> SchemaV {
        SchemaV { input: syms(self.input@), output: self.output@ }
    }
}

/// Spec-level model of a function declaration.
pub struct FunctionDeclV {
    pub name: Seq<char>,
    pub schema: SchemaV,
    pub merge: Option<ExprV>,
    pub merge_action: Seq<ActionV>,
    pub default: Option<ExprV>,
    pub cost: Option<u64>,
}

/// A function (table) declaration; `merge` names the variables `old` and `new`.
#[derive(Debug, PartialEq)]
pub struct FunctionDecl {
    pub name: String,
    pub schema: Schema,
    pub merge: Option<Expr>,
    pub merge_action: Vec<Action>,
    pub default: Option<Expr>,
    pub cost: Option<u64>,
}

pub open spec fn opt_expr_view(e: Option<Expr>) -> Option<ExprV> {
    match e {
        Some(x) => Some(x@),
        None => None,
    }
}

impl View for FunctionDecl {
    type V = FunctionDeclV;

    open spec fn view(&self) -> FunctionDeclV {
        FunctionDeclV {
            name: self.name@,
            schema: self.schema@,
            merge: opt_expr_view(self.merge),
            merge_action: actions_view(self.merge_action@),
            default: opt_expr_view(self.default),
            cost: self.cost,
        }
    }
}

/// Spec-level model of a flat expression.
pub enum SSAExprV {
    Lit(LitV),
    Call(Seq<char>, Seq<Seq<char>>),
}

/// Right-hand side of a single assignment: a literal, or a call on variables.
#[derive(Debug, PartialEq)]
pub enum SSAExpr {
    Lit(Literal),
    Call(String, Vec<String>),
}

impl View for SSAExpr {
    type V = SSAExprV;

    open spec fn view(&self) -> SSAExprV {
        match self {
            SSAExpr::Lit(l) => SSAExprV::Lit(l@),
            SSAExpr::Call(f, args) => SSAExprV::Call(f@, syms(args@)),
        }
    }
}

/// Spec-level model of a flat fact.
pub enum SSAFactV {
    Assign(Seq<char>, SSAExprV),
    ConstrainEq(Seq<char>, Seq<char>),
}

/// A flat fact: a single assignment, or an equality between bound variables.
#[derive(Debug, PartialEq)]
pub enum SSAFact {
    Assign(String, SSAExpr),
    ConstrainEq(String, String),
}

impl View for SSAFact {
    type V = SSAFactV;

    open spec fn view(&self) -> SSAFactV {
        match self {
            SSAFact::Assign(v, e) => SSAFactV::Assign(v@, e@),
            SSAFact::ConstrainEq(a, b) => SSAFactV::ConstrainEq(a@, b@),
        }
    }
}

pub open spec fn ssa_facts_view(v: Seq<SSAFact>) -> Seq<SSAFactV> {
    v.map_values(|f: SSAFact| f@)
}

/// Spec-level model of a flat action.
pub enum SSAActionV {
    Let(Seq<char>, SSAExprV),
    LetVar(Seq<char>, Seq<char>),
    SetValue(Seq<char>, Seq<Seq<char>>, Seq<char>),
    Delete(Seq<char>, Seq<Seq<char>>),
    Union(Seq<char>, Seq<char>),
    Panic(Seq<char>),
}

/// A flat action over variables.
#[derive(Debug, PartialEq)]
pub enum SSAAction {
    Let(String, SSAExpr),
    LetVar(String, String),
    SetValue(String, Vec<String>, String),
    Delete(String, Vec<String>),
    Union(String, String),
    Panic(String),
}

impl View for SSAAction {
    type V = SSAActionV;

    open spec fn view(&self) -> SSAActionV {
        match self {
            SSAAction::Let(v, e) => SSAActionV::Let(v@, e@),
            SSAAction::LetVar(a, b) => SSAActionV::LetVar(a@, b@),
            SSAAction::SetValue(f, args, r) => SSAActionV::SetValue(f@, syms(args@), r@),
            SSAAction::Delete(f, args) => SSAActionV::Delete(f@, syms(args@)),
            SSAAction::Union(a, b) => SSAActionV::Union(a@, b@),
            SSAAction::Panic(m) => SSAActionV::Panic(m@),
        }
    }
}

pub open spec fn ssa_actions_view(v: Seq<SSAAction>) -> Seq<SSAActionV> {
    v.map_values(|a: SSAAction| a@)
}

/// Spec-level model of a flattened rule.
pub struct FlatRuleV {
    pub body: Seq<SSAFactV>,
    pub head: Seq<SSAActionV>,
}

/// A rule in single-assignment form.
#[derive(Debug, PartialEq)]
pub struct FlatRule {
    pub body: Vec<SSAFact>,
    pub head: Vec<SSAAction>,
}

impl View for FlatRule {
    type V = FlatRuleV;

    open spec fn view(&self) -> FlatRuleV {
        FlatRuleV { body: ssa_facts_view(self.body@), head: ssa_actions_view(self.head@) }
    }
}

/// Spec-level model of a run request.
pub struct RunConfigV {
    pub ruleset: Seq<char>,
    pub limit: u64,
    pub until: Option<Seq<FactV>>,
}

/// Run `ruleset` for at most `limit` iterations, or until the facts `until` hold.
#[derive(Debug, PartialEq)]
pub struct RunConfig {
    pub ruleset: String,
    pub limit: u64,
    pub until: Option<Vec<Fact>>,
}

pub open spec fn opt_facts_view(v: Option<Vec<Fact>>) -> Option<Seq<FactV>> {
    match v {
        Some(x) => Some(facts_view(x@)),
        None => None,
    }
}

impl View for RunConfig {
    type V = RunConfigV;

    open spec fn view(&self) -> RunConfigV {
        RunConfigV { ruleset: self.ruleset@, limit: self.limit, until: opt_facts_view(self.until) }
    }
}

/// Spec-level model of a command.
pub enum CommandV {
    Datatype { name: Seq<char>, variants: Seq<VariantV> },
    Sort(Seq<char>),
    Function(FunctionDeclV),
    Declare(Seq<char>, Seq<char>),
    Rule(Seq<char>, RuleV),
    FlatRule(Seq<char>, FlatRuleV),
    Rewrite(Seq<char>, RewriteV),
    BiRewrite(Seq<char>, RewriteV),
    Include(Seq<char>),
    Run(RunConfigV),
    Push(u64),
    Pop(u64),
    Action(ActionV),
    Check(Seq<FactV>),
    SetOption(Seq<char>, ExprV),
}

/// A top-level command of a program.
#[derive(Debug, PartialEq)]
pub enum Command {
    Datatype { name: String, variants: Vec<Variant> },
    Sort(String),
    Function(FunctionDecl),
    Declare(String, String),
    Rule(String, Rule),
    FlatRule(String, FlatRule),
    Rewrite(String, Rewrite),
    BiRewrite(String, Rewrite),
    Include(String),
    Run(RunConfig),
    Push(u64),
    Pop(u64),
    Action(Action),
    Check(Vec<Fact>),
    SetOption(String, Expr),
}

impl View for Command {
    type V = CommandV;

    open spec fn view(&self) -> CommandV {
        match self {
            Command::Datatype { name, variants } => CommandV::Datatype {
                name: name@,
                variants: variants_view(variants@),
            },
            Command::Sort(n) => CommandV::Sort(n@),
            Command::Function(d) => CommandV::Function(d@),
            Command::Declare(n, s) => CommandV::Declare(n@, s@),
            Command::Rule(rs, r) => CommandV::Rule(rs@, r@),
            Command::FlatRule(rs, r) => CommandV::FlatRule(rs@, r@),
            Command::Rewrite(rs, r) => CommandV::Rewrite(rs@, r@),
            Command::BiRewrite(rs, r) => CommandV::BiRewrite(rs@, r@),
            Command::Include(p) => CommandV::Include(p@),
            Command::Run(c) => CommandV::Run(c@),
            Command::Push(n) => CommandV::Push(*n),
            Command::Pop(n) => CommandV::Pop(*n),
            Command::Action(a) => CommandV::Action(a@),
            Command::Check(fs) => CommandV::Check(facts_view(fs@)),
            Command::SetOption(n, e) => CommandV::SetOption(n@, e@),
        }
    }
}

pub open spec fn commands_view(v: Seq<Command>) -> Seq<CommandV> {
    v.map_values(|c: Command| c@)
}

// ---------------------------------------------------------------------------
// Normalised forms, as the type checker hands them on.
/// Spec-level model of a normalised call.
pub enum NormExprV {
    Call(Seq<char>, Seq<Seq<char>>),
}

/// A call of a function on variables.
#[derive(Debug, PartialEq)]
pub enum NormExpr {
    Call(String, Vec<String>),
}

impl View for NormExpr {
    type V = NormExprV;

    open spec fn view(&self) -> NormExprV {
        match self {
            NormExpr::Call(f, args) => NormExprV::Call(f@, syms(args@)),
        }
    }
}

impl NormExpr {
    pub fn copy(&self) -> (r: NormExpr)
        ensures
            r@ == self@,
    {
        match self {
            NormExpr::Call(f, args) => NormExpr::Call(f.clone(), copy_syms(args)),
        }
    }
}

/// Spec-level model of a normalised fact.
pub enum NormFactV {
    Assign(Seq<char>, NormExprV),
    AssignLit(Seq<char>, LitV),
    ConstrainEq(Seq<char>, Seq<char>),
}

/// A normalised fact: each variable is bound at most once, apart from constraints.
#[derive(Debug, PartialEq)]
pub enum NormFact {
    Assign(String, NormExpr),
    AssignLit(String, Literal),
    ConstrainEq(String, String),
}

impl View for NormFact {
    type V = NormFactV;

    open spec fn view(&self) -> NormFactV {
        match self {
            NormFact::Assign(v, e) => NormFactV::Assign(v@, e@),
            NormFact::AssignLit(v, l) => NormFactV::AssignLit(v@, l@),
            NormFact::ConstrainEq(a, b) => NormFactV::ConstrainEq(a@, b@),
        }
    }
}

pub open spec fn norm_facts_view(v: Seq<NormFact>) -> Seq<NormFactV> {
    v.map_values(|f: NormFact| f@)
}

/// Spec-level model of a normalised action.
pub enum NormActionV {
    Let(Seq<char>, NormExprV),
    LetVar(Seq<char>, Seq<char>),
    LetLit(Seq<char>, LitV),
    SetValue(NormExprV, Seq<char>),
    Delete(NormExprV),
    Union(Seq<char>, Seq<char>),
    Panic(Seq<char>),
}

/// A normalised action over variables.
#[derive(Debug, PartialEq)]
pub enum NormAction {
    Let(String, NormExpr),
    LetVar(String, String),
    LetLit(String, Literal),
    SetValue(NormExpr, String),
    Delete(NormExpr),
    Union(String, String),
    Panic(String),
}

impl View for NormAction {
    type V = NormActionV;

    open spec fn view(&self) -> NormActionV {
        match self {
            NormAction::Let(v, e) => NormActionV::Let(v@, e@),
            NormAction::LetVar(a, b) => NormActionV::LetVar(a@, b@),
            NormAction::LetLit(v, l) => NormActionV::LetLit(v@, l@),
            NormAction::SetValue(e, v) => NormActionV::SetValue(e@, v@),
            NormAction::Delete(e) => NormActionV::Delete(e@),
            NormAction::Union(a, b) => NormActionV::Union(a@, b@),
            NormAction::Panic(m) => NormActionV::Panic(m@),
        }
    }
}

pub open spec fn norm_actions_view(v: Seq<NormAction>) -> Seq<NormActionV> {
    v.map_values(|a: NormAction| a@)
}

/// A rule in normalised form.
#[derive(Debug, PartialEq)]
pub struct NormRule {
    pub body: Vec<NormFact>,
    pub head: Vec<NormAction>,
}

/// A normalised run request.
#[derive(Debug, PartialEq)]
pub struct NormRunConfig {
    pub ruleset: String,
    pub limit: u64,
    pub until: Option<Vec<NormFact>>,
}

/// A normalised command.
#[derive(Debug, PartialEq)]
pub enum NCommand {
    Sort(String),
    Function(FunctionDecl),
    Declare(String, String),
    NormRule { ruleset: String, name: String, rule: NormRule },
    Run(NormRunConfig),
    NormAction(NormAction),
    Check(Vec<NormFact>),
    Push(u64),
    Pop(u64),
    Other(Command),
}

} // verus!
