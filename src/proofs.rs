//! Proof instrumentation: rewrites a normalised program so that, when run, it also
//! records a term and a proof for every value it derives.
use vstd::prelude::*;
use crate::ast::{
    copy_syms, exprs_view, lemma_call_view, literal_name, literal_sort, syms, Action, ActionV,
    Command, CommandV, Expr, ExprV, Fact, FactV, FunctionDecl, FunctionDeclV, Literal, LitV,
    NCommand, NormAction, NormActionV, NormExpr, NormExprV, NormFact, NormFactV, NormRule,
    NormRunConfig, Rule, RunConfig, Schema, SchemaV, actions_view, facts_view, norm_facts_view,
    norm_actions_view,
};
use crate::desugar::contains_sym;
use crate::fresh::{decimal, decimal_string};

verus! {

// ---------------------------------------------------------------------------
// Strings.
fn concat3(a: &str, b: &str, c: &str) -> (r: String)
    ensures
        r@ == a@ + b@ + c@,
{
    let mut s = String::from_str(a);
    s.append(b);
    s.append(c);
    s
}

/// `parts` joined with `sep` between neighbours.
pub open spec fn join(parts: Seq<Seq<char>>, sep: Seq<char>) -> Seq<char>
    decreases parts.len(),
{
    if parts.len() == 0 {
        seq![]
    } else if parts.len() == 1 {
        parts[0]
    } else {
        join(parts.drop_last(), sep) + sep + parts.last()
    }
}

fn join_strings(parts: &Vec<String>, sep: &str) -> (r: String)
    ensures
        r@ == join(syms(parts@), sep@),
{
    let mut r = String::new();
    let mut i: usize = 0;
    while i < parts.len()
        invariant
            i <= parts@.len(),
            r@ == join(syms(parts@.subrange(0, i as int)), sep@),
        decreases parts.len() - i,
    {
        if i > 0 {
            r.append(sep);
        }
        r.append(parts[i].as_str());
        proof {
            let a = syms(parts@.subrange(0, i + 1));
            assert(a.drop_last() =~= syms(parts@.subrange(0, i as int)));
            if i == 0 {
                assert(join(syms(parts@.subrange(0, 0)), sep@) =~= seq![]);
                assert(r@ =~= a[0]);
            }
        }
        i += 1;
    }
    assert(parts@.subrange(0, i as int) =~= parts@);
    r
}

// ---------------------------------------------------------------------------
// Reserved names.
/// Name of the term-mirror function of primitive sort `name`.
pub open spec fn ast_prim_name(name: Seq<char>) -> Seq<char> {
    "Ast"@ + name + "__"@
}

/// Name of the representative function of primitive sort `name`.
pub open spec fn rep_prim_name(name: Seq<char>) -> Seq<char> {
    "Rep"@ + name + "__"@
}

/// Name of the term-mirror function of `f` at input sorts `sorts`.
pub open spec fn ast_name(f: Seq<char>, sorts: Seq<Seq<char>>) -> Seq<char> {
    "Ast"@ + f + "_"@ + join(sorts, "_"@) + "__"@
}

/// Name of the representative function of `f` at input sorts `sorts`.
pub open spec fn rep_name(f: Seq<char>, sorts: Seq<Seq<char>>) -> Seq<char> {
    "Rep"@ + f + "_"@ + join(sorts, "_"@) + "__"@
}

/// Name of the `k`-th fresh name of an instrumentation.
pub open spec fn proof_fresh(k: nat) -> Seq<char> {
    "prf"@ + decimal(k) + "__"@
}

fn make_ast_version_prim(name: &String) -> (r: String)
    ensures
        r@ == ast_prim_name(name@),
{
    concat3("Ast", name.as_str(), "__")
}

fn make_rep_version_prim(name: &String) -> (r: String)
    ensures
        r@ == rep_prim_name(name@),
{
    concat3("Rep", name.as_str(), "__")
}

fn mirror_name(prefix: &str, f: &String, sorts: &Vec<String>) -> (r: String)
    ensures
        r@ == prefix@ + f@ + "_"@ + join(syms(sorts@), "_"@) + "__"@,
{
    let mut s = String::from_str(prefix);
    s.append(f.as_str());
    s.append("_");
    let j = join_strings(sorts, "_");
    s.append(j.as_str());
    s.append("__");
    s
}

// ---------------------------------------------------------------------------
// The type checker's answers.
/// Input and output sorts of a function, and whether it is a primitive.
#[derive(Debug, PartialEq)]
pub struct FuncSig {
    pub name: String,
    pub input: Vec<String>,
    pub output: String,
    pub primitive: bool,
}

/// The signatures the type checker assigned to the functions a program calls.
#[derive(Debug, PartialEq)]
pub struct Signatures {
    pub funcs: Vec<FuncSig>,
}

/// The first signature recorded for `name`.
pub open spec fn lookup_sig(funcs: Seq<FuncSig>, name: Seq<char>) -> Option<FuncSig>
    decreases funcs.len(),
{
    if funcs.len() == 0 {
        None
    } else if funcs[0].name@ == name {
        Some(funcs[0])
    } else {
        lookup_sig(funcs.drop_first(), name)
    }
}

impl Signatures {
    pub fn find(&self, name: &String) -> (r: Option<usize>)
        ensures
            match r {
                Some(i) => i < self.funcs@.len() && lookup_sig(self.funcs@, name@) == Some(
                    self.funcs@[i as int],
                ),
                None => lookup_sig(self.funcs@, name@) is None,
            },
    {
        let mut i: usize = 0;
        assert(self.funcs@.subrange(0, self.funcs@.len() as int) =~= self.funcs@);
        while i < self.funcs.len()
            invariant
                i <= self.funcs@.len(),
                lookup_sig(self.funcs@, name@) == lookup_sig(
                    self.funcs@.subrange(i as int, self.funcs@.len() as int),
                    name@,
                ),
            decreases self.funcs.len() - i,
        {
            let ghost rest = self.funcs@.subrange(i as int, self.funcs@.len() as int);
            if self.funcs[i].name == *name {
                assert(rest[0] == self.funcs@[i as int]);
                return Some(i);
            }
            assert(rest.drop_first() =~= self.funcs@.subrange(i + 1, self.funcs@.len() as int));
            i += 1;
        }
        None
    }
}

/// Why a program could not be instrumented.
#[derive(Debug, PartialEq)]
pub enum ProofError {
    /// The type checker recorded no signature for this function.
    UnknownFunction(String),
    /// Neither side of a constraint has a representative term.
    Unconstrained(String, String),
    /// A variable is used before it has a term or a proof.
    UnboundVariable(String),
    /// A fresh-name counter or an argument index does not fit its integer type.
    Overflow,
}

/// Input sorts of the call `e`.
pub open spec fn call_sorts(sigs: Seq<FuncSig>, e: NormExprV) -> Option<Seq<Seq<char>>> {
    match e {
        NormExprV::Call(f, _) => match lookup_sig(sigs, f) {
            Some(s) => Some(syms(s.input@)),
            None => None,
        },
    }
}

fn input_sorts(sigs: &Signatures, expr: &NormExpr) -> (r: Result<usize, ProofError>)
    ensures
        match r {
            Ok(i) => i < sigs.funcs@.len() && {
                let NormExprV::Call(f, _) = expr@;
                lookup_sig(sigs.funcs@, f) == Some(sigs.funcs@[i as int])
            },
            Err(e) => call_sorts(sigs.funcs@, expr@) is None && e is UnknownFunction,
        },
{
    let NormExpr::Call(f, _) = expr;
    match sigs.find(f) {
        Some(i) => Ok(i),
        None => Err(ProofError::UnknownFunction(f.clone())),
    }
}

fn make_ast_version(sigs: &Signatures, expr: &NormExpr) -> (r: Result<String, ProofError>)
    ensures
        match call_sorts(sigs.funcs@, expr@) {
            Some(sorts) => r is Ok && r->Ok_0@ == ast_name(expr@->Call_0, sorts),
            None => r is Err && r->Err_0 is UnknownFunction,
        },
{
    let i = input_sorts(sigs, expr)?;
    let NormExpr::Call(f, _) = expr;
    Ok(mirror_name("Ast", f, &sigs.funcs[i].input))
}

fn make_rep_version(sigs: &Signatures, expr: &NormExpr) -> (r: Result<String, ProofError>)
    ensures
        match call_sorts(sigs.funcs@, expr@) {
            Some(sorts) => r is Ok && r->Ok_0@ == rep_name(expr@->Call_0, sorts),
            None => r is Err && r->Err_0 is UnknownFunction,
        },
{
    let i = input_sorts(sigs, expr)?;
    let NormExpr::Call(f, _) = expr;
    Ok(mirror_name("Rep", f, &sigs.funcs[i].input))
}

// ---------------------------------------------------------------------------
// Maps from names to names.
/// The map that a list of bindings denotes: a later binding of a name wins.
pub open spec fn bindings_map(s: Seq<(Seq<char>, Seq<char>)>) -> Map<Seq<char>, Seq<char>>
    decreases s.len(),
{
    if s.len() == 0 {
        Map::empty()
    } else {
        bindings_map(s.drop_last()).insert(s.last().0, s.last().1)
    }
}

pub open spec fn bindings_view(s: Seq<(String, String)>) -> Seq<(Seq<char>, Seq<char>)> {
    s.map_values(|p: (String, String)| (p.0@, p.1@))
}

proof fn lemma_bindings_tail(s: Seq<(Seq<char>, Seq<char>)>, m: int, k: Seq<char>)
    requires
        0 <= m <= s.len(),
        forall|j: int| m <= j < s.len() ==> (#[trigger] s[j]).0 != k,
    ensures
        bindings_map(s).contains_key(k) == bindings_map(s.subrange(0, m)).contains_key(k),
        bindings_map(s).contains_key(k) ==> bindings_map(s)[k] == bindings_map(s.subrange(0, m))[k],
    decreases s.len() - m,
{
    if m < s.len() {
        let p = s.drop_last();
        assert(p.subrange(0, m) =~= s.subrange(0, m));
        lemma_bindings_tail(p, m, k);
    } else {
        assert(s.subrange(0, m) =~= s);
    }
}

/// A finite map from names to names.
pub struct SymMap {
    pub entries: Vec<(String, String)>,
}

impl View for SymMap {
    type V = Map<Seq<char>, Seq<char>>;

    open spec fn view(&self) -> Map<Seq<char>, Seq<char>> {
        bindings_map(bindings_view(self.entries@))
    }
}

impl SymMap {
    pub fn new() -> (r: SymMap)
        ensures
            r@ == Map::<Seq<char>, Seq<char>>::empty(),
    {
        let r = SymMap { entries: Vec::new() };
        assert(bindings_view(r.entries@) =~= seq![]);
        r
    }

    pub fn insert(&mut self, k: String, v: String)
        ensures
            final(self)@ == old(self)@.insert(k@, v@),
    {
        let ghost before = self.entries@;
        self.entries.push((k, v));
        assert(bindings_view(self.entries@).drop_last() =~= bindings_view(before));
    }

    pub fn get(&self, k: &String) -> (r: Option<String>)
        ensures
            match r {
                Some(v) => self@.contains_key(k@) && self@[k@] == v@,
                None => !self@.contains_key(k@),
            },
    {
        let ghost s = bindings_view(self.entries@);
        let mut i: usize = self.entries.len();
        while i > 0
            invariant
                s == bindings_view(self.entries@),
                i <= self.entries@.len(),
                forall|j: int| i <= j < s.len() ==> (#[trigger] s[j]).0 != k@,
            decreases i,
        {
            if self.entries[i - 1].0 == *k {
                proof {
                    lemma_bindings_tail(s, i as int, k@);
                    assert(s.subrange(0, i as int).drop_last() =~= s.subrange(0, i - 1));
                }
                return Some(self.entries[i - 1].1.clone());
            }
            i -= 1;
        }
        proof {
            lemma_bindings_tail(s, 0, k@);
        }
        None
    }
}

// ---------------------------------------------------------------------------
// State of an instrumentation.
/// Terms and proofs of the variables of one rule.
pub struct ProofInfo {
    pub var_term: SymMap,
    pub var_proof: SymMap,
}

/// State threaded through the instrumentation of a whole program.
pub struct ProofState {
    pub counter: u64,
    pub global_var_ast: SymMap,
    pub global_var_proof: SymMap,
    pub ast_funcs_created: Vec<String>,
    pub sigs: Signatures,
}

impl ProofState {
    pub fn new(sigs: Signatures) -> (r: ProofState)
        ensures
            r.counter == 0,
            r.global_var_ast@ == Map::<Seq<char>, Seq<char>>::empty(),
            r.global_var_proof@ == Map::<Seq<char>, Seq<char>>::empty(),
            r.ast_funcs_created@.len() == 0,
            r.sigs == sigs,
    {
        ProofState {
            counter: 0,
            global_var_ast: SymMap::new(),
            global_var_proof: SymMap::new(),
            ast_funcs_created: Vec::new(),
            sigs,
        }
    }

    /// The next fresh name `prf{k}__`.
    pub fn get_fresh(&mut self) -> (r: Result<String, ProofError>)
        ensures
            final(self).global_var_ast == old(self).global_var_ast,
            final(self).global_var_proof == old(self).global_var_proof,
            final(self).ast_funcs_created == old(self).ast_funcs_created,
            final(self).sigs == old(self).sigs,
            old(self).counter < u64::MAX ==> {
                &&& r is Ok
                &&& final(self).counter == old(self).counter + 1
                &&& r->Ok_0@ == proof_fresh(final(self).counter as nat)
            },
            old(self).counter == u64::MAX ==> r is Err && r->Err_0 is Overflow,
    {
        if self.counter == u64::MAX {
            return Err(ProofError::Overflow);
        }
        self.counter = self.counter + 1;
        let d = decimal_string(self.counter);
        Ok(concat3("prf", d.as_str(), "__"))
    }
}

/// The term bound to `v` in the rule, else in the program.
pub open spec fn var_term_spec(st: ProofState, info: ProofInfo, v: Seq<char>) -> Option<Seq<char>> {
    term_in(info.var_term@, st.global_var_ast@, v)
}

fn get_var_term_option(var: &String, state: &ProofState, info: &ProofInfo) -> (r: Option<String>)
    ensures
        match r {
            Some(t) => var_term_spec(*state, *info, var@) == Some(t@),
            None => var_term_spec(*state, *info, var@) is None,
        },
{
    match info.var_term.get(var) {
        Some(t) => Some(t),
        None => state.global_var_ast.get(var),
    }
}

fn get_var_term(var: &String, state: &ProofState, info: &ProofInfo) -> (r: Result<String, ProofError>)
    ensures
        match var_term_spec(*state, *info, var@) {
            Some(t) => r is Ok && r->Ok_0@ == t,
            None => r is Err && r->Err_0 is UnboundVariable,
        },
{
    match get_var_term_option(var, state, info) {
        Some(t) => Ok(t),
        None => Err(ProofError::UnboundVariable(var.clone())),
    }
}

// ---------------------------------------------------------------------------
// Expression builders.
fn call_expr(f: String, args: Vec<Expr>) -> (r: Expr)
    ensures
        r@ == ExprV::Call(f@, exprs_view(args@)),
{
    proof {
        lemma_call_view(f, args);
    }
    Expr::Call(f, args)
}

fn one_expr(a: Expr) -> (r: Vec<Expr>)
    ensures
        exprs_view(r@) == seq![a@],
{
    let mut r: Vec<Expr> = Vec::new();
    r.push(a);
    assert(exprs_view(r@) =~= seq![a@]);
    r
}

fn two_exprs(a: Expr, b: Expr) -> (r: Vec<Expr>)
    ensures
        exprs_view(r@) == seq![a@, b@],
{
    let mut r: Vec<Expr> = Vec::new();
    r.push(a);
    r.push(b);
    assert(exprs_view(r@) =~= seq![a@, b@]);
    r
}

fn two_syms(a: String, b: String) -> (r: Vec<String>)
    ensures
        syms(r@) == seq![a@, b@],
{
    let mut r: Vec<String> = Vec::new();
    r.push(a);
    r.push(b);
    assert(syms(r@) =~= seq![a@, b@]);
    r
}

/// A table declaration with no merge, no default and no cost.
pub open spec fn plain_decl(name: Seq<char>, input: Seq<Seq<char>>, output: Seq<char>) -> FunctionDeclV {
    FunctionDeclV {
        name,
        schema: SchemaV { input, output },
        merge: None,
        merge_action: seq![],
        default: None,
        cost: None,
    }
}

fn plain_function(name: String, input: Vec<String>, output: String) -> (r: FunctionDecl)
    ensures
        r@ == plain_decl(name@, syms(input@), output@),
{
    let r = FunctionDecl {
        name,
        schema: Schema { input, output },
        merge: None,
        merge_action: Vec::new(),
        default: None,
        cost: None,
    };
    assert(actions_view(r.merge_action@) =~= seq![]);
    r
}

// ---------------------------------------------------------------------------
// Declarations for primitive sorts.
/// One mirror table per primitive sort, mapping its values to `output`.
pub open spec fn prim_decls(sorts: Seq<Seq<char>>, ast: bool) -> Seq<CommandV> {
    sorts.map_values(
        |s: Seq<char>|
            if ast {
                CommandV::Function(plain_decl(ast_prim_name(s), seq![s], "Ast__"@))
            } else {
                CommandV::Function(plain_decl(rep_prim_name(s), seq![s], "TrmPrf__"@))
            },
    )
}

fn prim_sort_decls(sorts: &Vec<String>, ast: bool) -> (r: Vec<Command>)
    ensures
        crate::ast::commands_view(r@) == prim_decls(syms(sorts@), ast),
{
    let mut r: Vec<Command> = Vec::new();
    let mut i: usize = 0;
    while i < sorts.len()
        invariant
            i <= sorts@.len(),
            r@.len() == i,
            forall|j: int| 0 <= j < i ==> (#[trigger] r@[j])@ == prim_decls(syms(sorts@), ast)[j],
        decreases sorts.len() - i,
    {
        let name = if ast {
            make_ast_version_prim(&sorts[i])
        } else {
            make_rep_version_prim(&sorts[i])
        };
        let mut input: Vec<String> = Vec::new();
        input.push(sorts[i].clone());
        assert(syms(input@) =~= seq![sorts@[i as int]@]);
        let output = if ast {
            String::from_str("Ast__")
        } else {
            String::from_str("TrmPrf__")
        };
        r.push(Command::Function(plain_function(name, input, output)));
        i += 1;
    }
    assert(crate::ast::commands_view(r@) =~= prim_decls(syms(sorts@), ast));
    r
}

fn make_ast_primitives_sorts(sorts: &Vec<String>) -> (r: Vec<Command>)
    ensures
        crate::ast::commands_view(r@) == prim_decls(syms(sorts@), true),
{
    prim_sort_decls(sorts, true)
}

fn make_rep_primitive_sorts(sorts: &Vec<String>) -> (r: Vec<Command>)
    ensures
        crate::ast::commands_view(r@) == prim_decls(syms(sorts@), false),
{
    prim_sort_decls(sorts, false)
}

/// Term mirrors, then representative tables, for the primitive sorts.
fn setup_primitives(sorts: &Vec<String>) -> (r: Vec<Command>)
    ensures
        crate::ast::commands_view(r@) == prim_decls(syms(sorts@), true) + prim_decls(syms(sorts@), false),
{
    let mut r = make_ast_primitives_sorts(sorts);
    let mut reps = make_rep_primitive_sorts(sorts);
    let ghost a = r@;
    let ghost b = reps@;
    r.append(&mut reps);
    assert(crate::ast::commands_view(r@) =~= crate::ast::commands_view(a) + crate::ast::commands_view(b));
    r
}

fn make_ast_function(sigs: &Signatures, expr: &NormExpr) -> (r: Result<FunctionDecl, ProofError>)
    ensures
        match call_sorts(sigs.funcs@, expr@) {
            Some(sorts) => r is Ok && r->Ok_0@ == plain_decl(
                ast_name(expr@->Call_0, sorts),
                Seq::new(expr@->Call_1.len(), |i: int| "Ast__"@),
                "Ast__"@,
            ),
            None => r is Err && r->Err_0 is UnknownFunction,
        },
{
    let name = make_ast_version(sigs, expr)?;
    let NormExpr::Call(_, args) = expr;
    let mut input: Vec<String> = Vec::new();
    let mut i: usize = 0;
    while i < args.len()
        invariant
            i <= args@.len(),
            input@.len() == i,
            forall|j: int| 0 <= j < i ==> (#[trigger] input@[j])@ == "Ast__"@,
        decreases args.len() - i,
    {
        input.push(String::from_str("Ast__"));
        i += 1;
    }
    assert(syms(input@) =~= Seq::new(expr@->Call_1.len(), |i: int| "Ast__"@));
    Ok(plain_function(name, input, String::from_str("Ast__")))
}

// ---------------------------------------------------------------------------
// Merging representatives.
/// `prefix{i}__`.
pub open spec fn indexed_name(prefix: Seq<char>, i: nat) -> Seq<char> {
    prefix + decimal(i) + "__"@
}

fn indexed(prefix: &str, i: u64) -> (r: String)
    ensures
        r@ == indexed_name(prefix@, i as nat),
{
    let d = decimal_string(i);
    concat3(prefix, d.as_str(), "__")
}

pub open spec fn evar(v: Seq<char>) -> ExprV {
    ExprV::Var(v)
}

/// The list of pairwise child equalities from argument `i` on.
pub open spec fn congr_list(n: nat, i: nat) -> ExprV
    decreases n - i,
{
    if i >= n {
        evar("Null__"@)
    } else {
        ExprV::Call(
            "Cons__"@,
            seq![
                ExprV::Call(
                    "DemandEq__"@,
                    seq![evar(indexed_name("c1_"@, i)), evar(indexed_name("c2_"@, i))],
                ),
                congr_list(n, i + 1),
            ],
        )
    }
}

/// The child extractions for arguments `0..n`.
pub open spec fn child_lets(t1: Seq<char>, t2: Seq<char>, n: nat) -> Seq<ActionV>
    decreases n,
{
    if n == 0 {
        seq![]
    } else {
        let i = (n - 1) as nat;
        child_lets(t1, t2, i).push(
            ActionV::Let(
                indexed_name("c1_"@, i),
                ExprV::Call("GetChild__"@, seq![evar(t1), ExprV::Lit(LitV::Int(i as i64))]),
            ),
        ).push(
            ActionV::Let(
                indexed_name("c2_"@, i),
                ExprV::Call("GetChild__"@, seq![evar(t2), ExprV::Lit(LitV::Int(i as i64))]),
            ),
        )
    }
}

/// Merge actions of a representative table with `n` inputs: when two representatives
/// meet, demand their children equal and record congruence in both directions.
pub open spec fn merge_action_spec(t1: Seq<char>, t2: Seq<char>, old_prf: Seq<char>, n: nat) -> Seq<ActionV> {
    seq![
        ActionV::Let(t1, ExprV::Call("TrmOf__"@, seq![evar("old"@)])),
        ActionV::Let(t2, ExprV::Call("TrmOf__"@, seq![evar("new"@)])),
        ActionV::Let(old_prf, ExprV::Call("PrfOf__"@, seq![evar("old"@)])),
    ] + child_lets(t1, t2, n) + seq![
        ActionV::Let("congr_prf__"@, ExprV::Call("Congruence__"@, seq![evar(old_prf), congr_list(n, 0)])),
        ActionV::SetValue("EqGraph__"@, seq![evar(t1), evar(t2)], evar("congr_prf__"@)),
        ActionV::SetValue(
            "EqGraph__"@,
            seq![evar(t2), evar(t1)],
            ExprV::Call("Flip__"@, seq![evar("congr_prf__"@)]),
        ),
    ]
}

/// The merge actions of a representative table with `n` inputs, over three fresh names.
pub fn merge_action(state: &mut ProofState, n: usize) -> (r: Result<Vec<Action>, ProofError>)
    requires
        n <= i64::MAX,
    ensures
        final(state).global_var_ast == old(state).global_var_ast,
        final(state).global_var_proof == old(state).global_var_proof,
        final(state).ast_funcs_created == old(state).ast_funcs_created,
        final(state).sigs == old(state).sigs,
        old(state).counter + 3 <= u64::MAX ==> r is Ok && final(state).counter == old(state).counter + 3
            && actions_view(r->Ok_0@) == merge_action_spec(
            proof_fresh((old(state).counter + 1) as nat),
            proof_fresh((old(state).counter + 2) as nat),
            proof_fresh((old(state).counter + 3) as nat),
            n as nat,
        ),
{
    // the list of child equalities, built from the last argument inwards
    let mut congr = Expr::Var(String::from_str("Null__"));
    let mut i: usize = n;
    while i > 0
        invariant
            i <= n,
            n <= i64::MAX,
            congr@ == congr_list(n as nat, i as nat),
        decreases i,
    {
        i -= 1;
        let demand = call_expr(
            String::from_str("DemandEq__"),
            two_exprs(Expr::Var(indexed("c1_", i as u64)), Expr::Var(indexed("c2_", i as u64))),
        );
        congr = call_expr(String::from_str("Cons__"), two_exprs(demand, congr));
    }
    let t1 = state.get_fresh()?;
    let t2 = state.get_fresh()?;
    let old_prf = state.get_fresh()?;
    let mut r: Vec<Action> = Vec::new();
    r.push(Action::Let(t1.clone(), call_expr(String::from_str("TrmOf__"), one_expr(Expr::Var(String::from_str("old"))))));
    r.push(Action::Let(t2.clone(), call_expr(String::from_str("TrmOf__"), one_expr(Expr::Var(String::from_str("new"))))));
    r.push(Action::Let(old_prf.clone(), call_expr(String::from_str("PrfOf__"), one_expr(Expr::Var(String::from_str("old"))))));
    let ghost head3 = actions_view(r@);
    assert(head3 =~= seq![
        ActionV::Let(t1@, ExprV::Call("TrmOf__"@, seq![evar("old"@)])),
        ActionV::Let(t2@, ExprV::Call("TrmOf__"@, seq![evar("new"@)])),
        ActionV::Let(old_prf@, ExprV::Call("PrfOf__"@, seq![evar("old"@)])),
    ]);
    assert(head3 + child_lets(t1@, t2@, 0) =~= head3);
    let mut j: usize = 0;
    while j < n
        invariant
            j <= n,
            n <= i64::MAX,
            actions_view(r@) == head3 + child_lets(t1@, t2@, j as nat),
        decreases n - j,
    {
        let ghost before = r@;
        r.push(Action::Let(
            indexed("c1_", j as u64),
            call_expr(String::from_str("GetChild__"), two_exprs(Expr::Var(t1.clone()), Expr::Lit(Literal::Int(j as i64)))),
        ));
        r.push(Action::Let(
            indexed("c2_", j as u64),
            call_expr(String::from_str("GetChild__"), two_exprs(Expr::Var(t2.clone()), Expr::Lit(Literal::Int(j as i64)))),
        ));
        assert(actions_view(r@) =~= actions_view(before).push(r@[r@.len() - 2]@).push(r@[r@.len() - 1]@));
        j += 1;
    }
    let ghost mid = r@;
    r.push(Action::Let(
        String::from_str("congr_prf__"),
        call_expr(String::from_str("Congruence__"), two_exprs(Expr::Var(old_prf.clone()), congr)),
    ));
    r.push(Action::SetValue(
        String::from_str("EqGraph__"),
        two_exprs(Expr::Var(t1.clone()), Expr::Var(t2.clone())),
        Expr::Var(String::from_str("congr_prf__")),
    ));
    r.push(Action::SetValue(
        String::from_str("EqGraph__"),
        two_exprs(Expr::Var(t2), Expr::Var(t1)),
        call_expr(String::from_str("Flip__"), one_expr(Expr::Var(String::from_str("congr_prf__")))),
    ));
    assert(actions_view(r@) =~= actions_view(mid).push(r@[r@.len() - 3]@).push(r@[r@.len() - 2]@).push(
        r@[r@.len() - 1]@,
    ));
    assert(actions_view(r@) =~= merge_action_spec(t1@, t2@, old_prf@, n as nat));
    Ok(r)
}

fn make_rep_function(state: &mut ProofState, expr: &NormExpr) -> (r: Result<FunctionDecl, ProofError>)
    ensures
        final(state).global_var_ast == old(state).global_var_ast,
        final(state).global_var_proof == old(state).global_var_proof,
        final(state).ast_funcs_created == old(state).ast_funcs_created,
        final(state).sigs == old(state).sigs,
        call_sorts(old(state).sigs.funcs@, expr@) is None ==> r is Err && r->Err_0 is UnknownFunction,
        r is Ok ==> ({
            let sorts = call_sorts(old(state).sigs.funcs@, expr@)->Some_0;
            &&& call_sorts(old(state).sigs.funcs@, expr@) is Some
            &&& r->Ok_0@ == FunctionDeclV {
                name: rep_name(expr@->Call_0, sorts),
                schema: SchemaV { input: sorts, output: "TrmPrf__"@ },
                merge: Some(evar("old"@)),
                merge_action: merge_action_spec(
                    proof_fresh((old(state).counter + 1) as nat),
                    proof_fresh((old(state).counter + 2) as nat),
                    proof_fresh((old(state).counter + 3) as nat),
                    sorts.len(),
                ),
                default: None,
                cost: None,
            }
        }),
        call_sorts(old(state).sigs.funcs@, expr@) is Some && old(state).counter + 3 <= u64::MAX && call_sorts(
            old(state).sigs.funcs@,
            expr@,
        )->Some_0.len() <= i64::MAX ==> r is Ok,
        r is Ok ==> old(state).counter + 3 <= u64::MAX && final(state).counter == old(state).counter + 3
            && call_sorts(old(state).sigs.funcs@, expr@)->Some_0.len() <= i64::MAX,
{
    let i = input_sorts(&state.sigs, expr)?;
    let name = make_rep_version(&state.sigs, expr)?;
    let input = copy_syms(&state.sigs.funcs[i].input);
    let n = input.len();
    if n as u64 > 0x7fff_ffff_ffff_ffff {
        return Err(ProofError::Overflow);
    }
    let ghost c0 = state.counter;
    if state.counter > u64::MAX - 3 {
        return Err(ProofError::Overflow);
    }
    let merge_action = merge_action(state, n)?;
    Ok(FunctionDecl {
        name,
        schema: Schema { input, output: String::from_str("TrmPrf__") },
        merge: Some(Expr::Var(String::from_str("old"))),
        merge_action,
        default: None,
        cost: None,
    })
}

/// The rule that records the children of every term of the mirror function `ast`.
pub open spec fn getchild_rule_spec(ast: Seq<char>, n: nat) -> CommandV {
    CommandV::Rule(
        "proofrules__"@,
        crate::ast::RuleV {
            body: seq![
                FactV::Eq(
                    seq![
                        evar("ast__"@),
                        ExprV::Call(ast, Seq::new(n, |i: int| evar(indexed_name("c"@, i as nat)))),
                    ],
                ),
            ],
            head: Seq::new(
                n,
                |i: int|
                    ActionV::SetValue(
                        "GetChild__"@,
                        seq![evar("ast__"@), ExprV::Lit(LitV::Int(i as i64))],
                        evar(indexed_name("c"@, i as nat)),
                    ),
            ),
        },
    )
}

fn make_getchild_rule(sigs: &Signatures, expr: &NormExpr) -> (r: Result<Command, ProofError>)
    ensures
        match call_sorts(sigs.funcs@, expr@) {
            Some(sorts) => expr@->Call_1.len() <= i64::MAX ==> r is Ok && r->Ok_0@ == getchild_rule_spec(
                ast_name(expr@->Call_0, sorts),
                expr@->Call_1.len(),
            ),
            None => r is Err && r->Err_0 is UnknownFunction,
        },
{
    let ast = make_ast_version(sigs, expr)?;
    let NormExpr::Call(_, args) = expr;
    let n = args.len();
    if n as u64 > 0x7fff_ffff_ffff_ffff {
        return Err(ProofError::Overflow);
    }
    let mut children: Vec<Expr> = Vec::new();
    let mut head: Vec<Action> = Vec::new();
    let mut i: usize = 0;
    while i < n
        invariant
            n == args@.len(),
            n <= i64::MAX,
            i <= n,
            children@.len() == i,
            head@.len() == i,
            forall|j: int| 0 <= j < i ==> (#[trigger] children@[j])@ == evar(indexed_name("c"@, j as nat)),
            forall|j: int|
                0 <= j < i ==> (#[trigger] head@[j])@ == ActionV::SetValue(
                    "GetChild__"@,
                    seq![evar("ast__"@), ExprV::Lit(LitV::Int(j as i64))],
                    evar(indexed_name("c"@, j as nat)),
                ),
        decreases n - i,
    {
        children.push(Expr::Var(indexed("c", i as u64)));
        head.push(Action::SetValue(
            String::from_str("GetChild__"),
            two_exprs(Expr::Var(String::from_str("ast__")), Expr::Lit(Literal::Int(i as i64))),
            Expr::Var(indexed("c", i as u64)),
        ));
        i += 1;
    }
    let call = call_expr(ast, children);
    let mut body: Vec<Fact> = Vec::new();
    body.push(Fact::Eq(two_exprs(Expr::Var(String::from_str("ast__")), call)));
    let rule = Rule { body, head };
    let r = Command::Rule(String::from_str("proofrules__"), rule);
    proof {
        let want = getchild_rule_spec(ast@, n as nat);
        assert(exprs_view(children@) =~= Seq::new(n as nat, |i: int| evar(indexed_name("c"@, i as nat))));
        assert(facts_view(rule.body@) =~= want->Rule_1.body);
        assert(actions_view(rule.head@) =~= want->Rule_1.head);
    }
    Ok(r)
}

// ---------------------------------------------------------------------------
// Normalised forms back to surface forms.
pub open spec fn norm_expr_to_expr(e: NormExprV) -> ExprV {
    match e {
        NormExprV::Call(f, args) => ExprV::Call(f, args.map_values(|v: Seq<char>| evar(v))),
    }
}

pub open spec fn norm_fact_to_fact(f: NormFactV) -> FactV {
    match f {
        NormFactV::Assign(v, e) => FactV::Eq(seq![evar(v), norm_expr_to_expr(e)]),
        NormFactV::AssignLit(v, l) => FactV::Eq(seq![evar(v), ExprV::Lit(l)]),
        NormFactV::ConstrainEq(a, b) => FactV::Eq(seq![evar(a), evar(b)]),
    }
}

pub open spec fn norm_action_to_action(a: NormActionV) -> ActionV {
    match a {
        NormActionV::Let(v, e) => ActionV::Let(v, norm_expr_to_expr(e)),
        NormActionV::LetVar(a, b) => ActionV::Let(a, evar(b)),
        NormActionV::LetLit(v, l) => ActionV::Let(v, ExprV::Lit(l)),
        NormActionV::SetValue(NormExprV::Call(f, args), v) => ActionV::SetValue(
            f,
            args.map_values(|x: Seq<char>| evar(x)),
            evar(v),
        ),
        NormActionV::Delete(NormExprV::Call(f, args)) => ActionV::Delete(
            f,
            args.map_values(|x: Seq<char>| evar(x)),
        ),
        NormActionV::Union(a, b) => ActionV::Union(evar(a), evar(b)),
        NormActionV::Panic(m) => ActionV::Panic(m),
    }
}

fn var_exprs(vs: &Vec<String>) -> (r: Vec<Expr>)
    ensures
        exprs_view(r@) == syms(vs@).map_values(|v: Seq<char>| evar(v)),
{
    let mut r: Vec<Expr> = Vec::new();
    let mut i: usize = 0;
    while i < vs.len()
        invariant
            i <= vs@.len(),
            r@.len() == i,
            forall|j: int| 0 <= j < i ==> (#[trigger] r@[j])@ == evar(vs@[j]@),
        decreases vs.len() - i,
    {
        r.push(Expr::Var(vs[i].clone()));
        i += 1;
    }
    assert(exprs_view(r@) =~= syms(vs@).map_values(|v: Seq<char>| evar(v)));
    r
}

fn norm_to_expr(e: &NormExpr) -> (r: Expr)
    ensures
        r@ == norm_expr_to_expr(e@),
{
    let NormExpr::Call(f, args) = e;
    call_expr(f.clone(), var_exprs(args))
}

impl NormFact {
    pub fn to_fact(&self) -> (r: Fact)
        ensures
            r@ == norm_fact_to_fact(self@),
    {
        match self {
            NormFact::Assign(v, e) => Fact::Eq(two_exprs(Expr::Var(v.clone()), norm_to_expr(e))),
            NormFact::AssignLit(v, l) => Fact::Eq(two_exprs(Expr::Var(v.clone()), Expr::Lit(l.copy()))),
            NormFact::ConstrainEq(a, b) => Fact::Eq(two_exprs(Expr::Var(a.clone()), Expr::Var(b.clone()))),
        }
    }
}

impl NormAction {
    pub fn to_action(&self) -> (r: Action)
        ensures
            r@ == norm_action_to_action(self@),
    {
        match self {
            NormAction::Let(v, e) => Action::Let(v.clone(), norm_to_expr(e)),
            NormAction::LetVar(a, b) => Action::Let(a.clone(), Expr::Var(b.clone())),
            NormAction::LetLit(v, l) => Action::Let(v.clone(), Expr::Lit(l.copy())),
            NormAction::SetValue(NormExpr::Call(f, args), v) => Action::SetValue(
                f.clone(),
                var_exprs(args),
                Expr::Var(v.clone()),
            ),
            NormAction::Delete(NormExpr::Call(f, args)) => Action::Delete(f.clone(), var_exprs(args)),
            NormAction::Union(a, b) => Action::Union(Expr::Var(a.clone()), Expr::Var(b.clone())),
            NormAction::Panic(m) => Action::Panic(m.clone()),
        }
    }
}

fn norm_facts_to_facts(fs: &Vec<NormFact>) -> (r: Vec<Fact>)
    ensures
        facts_view(r@) == norm_facts_view(fs@).map_values(|f: NormFactV| norm_fact_to_fact(f)),
{
    let mut r: Vec<Fact> = Vec::new();
    let mut i: usize = 0;
    while i < fs.len()
        invariant
            i <= fs@.len(),
            r@.len() == i,
            forall|j: int| 0 <= j < i ==> (#[trigger] r@[j])@ == norm_fact_to_fact(fs@[j]@),
        decreases fs.len() - i,
    {
        r.push(fs[i].to_fact());
        i += 1;
    }
    assert(facts_view(r@) =~= norm_facts_view(fs@).map_values(|f: NormFactV| norm_fact_to_fact(f)));
    r
}

// ---------------------------------------------------------------------------
// Running with proofs.
pub open spec fn proof_run() -> CommandV {
    CommandV::Run(crate::ast::RunConfigV { ruleset: "proofrules__"@, limit: 100, until: None })
}

pub open spec fn user_run(ruleset: Seq<char>, until: Option<Seq<NormFactV>>) -> CommandV {
    CommandV::Run(
        crate::ast::RunConfigV {
            ruleset,
            limit: 1,
            until: match until {
                Some(fs) => Some(fs.map_values(|f: NormFactV| norm_fact_to_fact(f))),
                None => None,
            },
        },
    )
}

pub open spec fn opt_norm_facts(u: Option<Vec<NormFact>>) -> Option<Seq<NormFactV>> {
    match u {
        Some(fs) => Some(norm_facts_view(fs@)),
        None => None,
    }
}

/// A run of `limit` iterations becomes, per iteration, a run of the proof rules to a
/// fixpoint bound and one iteration of the user's rules, then a final run of the proof rules.
fn make_runner(config: &NormRunConfig) -> (r: Vec<Command>)
    ensures
        r@.len() == 2 * config.limit + 1,
        forall|i: int|
            0 <= i < config.limit ==> (#[trigger] r@[2 * i])@ == proof_run() && r@[2 * i + 1]@
                == user_run(config.ruleset@, opt_norm_facts(config.until)),
        r@[2 * config.limit as int]@ == proof_run(),
        forall|k: int| 0 <= k < r@.len() ==> (#[trigger] r@[k])@ is Run,
        crate::ast::commands_view(r@) == runner_seq(*config),
{
    let mut res: Vec<Command> = Vec::new();
    let mut i: u64 = 0;
    while i < config.limit
        invariant
            i <= config.limit,
            res@.len() == 2 * i,
            forall|j: int|
                0 <= j < i ==> (#[trigger] res@[2 * j])@ == proof_run() && res@[2 * j + 1]@
                    == user_run(config.ruleset@, opt_norm_facts(config.until)),
            forall|k: int| 0 <= k < res@.len() ==> (#[trigger] res@[k])@ is Run,
        decreases config.limit - i,
    {
        let ghost before = res@;
        res.push(Command::Run(RunConfig { ruleset: String::from_str("proofrules__"), limit: 100, until: None }));
        let until = match &config.until {
            Some(fs) => Some(norm_facts_to_facts(fs)),
            None => None,
        };
        res.push(Command::Run(RunConfig { ruleset: config.ruleset.clone(), limit: 1, until }));
        proof {
            assert forall|j: int| 0 <= j < i + 1 implies (#[trigger] res@[2 * j])@ == proof_run()
                && res@[2 * j + 1]@ == user_run(config.ruleset@, opt_norm_facts(config.until)) by {
                if j < i {
                    assert(res@[2 * j] == before[2 * j] && res@[2 * j + 1] == before[2 * j + 1]);
                }
            }
            assert forall|k: int| 0 <= k < res@.len() implies (#[trigger] res@[k])@ is Run by {
                if k < before.len() {
                    assert(res@[k] == before[k]);
                }
            }
        }
        i += 1;
    }
    res.push(Command::Run(RunConfig { ruleset: String::from_str("proofrules__"), limit: 100, until: None }));
    proof {
        let want = runner_seq(*config);
        let got = crate::ast::commands_view(res@);
        assert forall|k: int| 0 <= k < got.len() implies got[k] == want[k] by {
            if k < 2 * config.limit {
                let h = k / 2;
                assert(0 <= h < config.limit);
                if k % 2 == 0 {
                    assert(k == 2 * h);
                    assert(res@[2 * h]@ == proof_run());
                } else {
                    assert(k == 2 * h + 1);
                    assert(res@[2 * h]@ == proof_run() && res@[2 * h + 1]@ == user_run(config.ruleset@, opt_norm_facts(config.until)));
                }
            }
        }
        assert(res@.len() == 2 * config.limit + 1);
        assert(got.len() == want.len());
        assert(got =~= want);
    }
    res
}

/// Records `a = b` in both directions of the equality graph: `proof` for `a = b`, and its
/// flip, bound to `flipped`, for `b = a`.
pub open spec fn eqgraph_pair(a: Seq<char>, b: Seq<char>, proof: Seq<char>, flipped: Seq<char>) -> Seq<NormActionV> {
    seq![
        NormActionV::Let(flipped, NormExprV::Call("Flip__"@, seq![proof])),
        NormActionV::SetValue(NormExprV::Call("EqGraph__"@, seq![a, b]), proof),
        NormActionV::SetValue(NormExprV::Call("EqGraph__"@, seq![b, a]), flipped),
    ]
}

fn add_eqgraph_equality(a: String, b: String, proof: String, res: &mut Vec<NormAction>, state: &mut ProofState) -> (r: Result<(), ProofError>)
    ensures
        final(state).global_var_ast == old(state).global_var_ast,
        final(state).global_var_proof == old(state).global_var_proof,
        final(state).ast_funcs_created == old(state).ast_funcs_created,
        final(state).sigs == old(state).sigs,
        old(state).counter < u64::MAX <==> r is Ok,
        r is Ok ==> final(state).counter == old(state).counter + 1 && norm_actions_view(final(res)@)
            == norm_actions_view(old(res)@) + eqgraph_pair(
            a@,
            b@,
            proof@,
            proof_fresh((old(state).counter + 1) as nat),
        ),
{
    let flipped = state.get_fresh()?;
    let ghost before = res@;
    let mut one: Vec<String> = Vec::new();
    one.push(proof.clone());
    assert(syms(one@) =~= seq![proof@]);
    res.push(NormAction::Let(flipped.clone(), NormExpr::Call(String::from_str("Flip__"), one)));
    res.push(NormAction::SetValue(NormExpr::Call(String::from_str("EqGraph__"), two_syms(a.clone(), b.clone())), proof));
    res.push(NormAction::SetValue(NormExpr::Call(String::from_str("EqGraph__"), two_syms(b, a)), flipped.clone()));
    assert(norm_actions_view(res@) =~= norm_actions_view(before) + eqgraph_pair(a@, b@, proof@, flipped@));
    Ok(())
}

/// Name of the term that stands for the declared constant `name`.
pub open spec fn declared_term(name: Seq<char>) -> Seq<char> {
    "Ast"@ + name + "___"@
}

fn make_declare_proof(name: &String, state: &mut ProofState) -> (r: Result<Vec<Command>, ProofError>)
    ensures
        final(state).sigs == old(state).sigs,
        old(state).counter == u64::MAX ==> r is Err,
        final(state).ast_funcs_created == old(state).ast_funcs_created,
        old(state).counter < u64::MAX ==> {
            let p = proof_fresh((old(state).counter + 1) as nat);
            let t = declared_term(name@);
            &&& r is Ok
            &&& final(state).counter == old(state).counter + 1
            &&& final(state).global_var_ast@ == old(state).global_var_ast@.insert(name@, t)
            &&& final(state).global_var_proof@ == old(state).global_var_proof@.insert(name@, p)
            &&& crate::ast::commands_view(r->Ok_0@) == seq![
                CommandV::Declare(t, "Ast__"@),
                CommandV::Action(ActionV::Let(p, ExprV::Call("Original__"@, seq![evar(t)]))),
            ]
        },
{
    let term = concat3("Ast", name.as_str(), "___");
    let proof = state.get_fresh()?;
    state.global_var_ast.insert(name.clone(), term.clone());
    state.global_var_proof.insert(name.clone(), proof.clone());
    let mut r: Vec<Command> = Vec::new();
    r.push(Command::Declare(term.clone(), String::from_str("Ast__")));
    r.push(Command::Action(Action::Let(proof, call_expr(String::from_str("Original__"), one_expr(Expr::Var(term))))));
    assert(crate::ast::commands_view(r@) =~= seq![r@[0]@, r@[1]@]);
    Ok(r)
}

// ---------------------------------------------------------------------------
// Terms and representatives inside rules.
/// The terms of `args`, if each has one.
pub open spec fn args_terms(st: ProofState, info: ProofInfo, args: Seq<Seq<char>>) -> Option<Seq<Seq<char>>> {
    terms_in(info.var_term@, st.global_var_ast@, args)
}

fn terms_of(args: &Vec<String>, state: &ProofState, info: &ProofInfo) -> (r: Result<Vec<String>, ProofError>)
    ensures
        match args_terms(*state, *info, syms(args@)) {
            Some(ts) => r is Ok && syms(r->Ok_0@) == ts,
            None => r is Err && r->Err_0 is UnboundVariable,
        },
{
    let ghost a = syms(args@);
    let mut r: Vec<String> = Vec::new();
    let mut i: usize = 0;
    while i < args.len()
        invariant
            a == syms(args@),
            i <= args@.len(),
            r@.len() == i,
            forall|j: int| 0 <= j < i ==> var_term_spec(*state, *info, #[trigger] a[j]) == Some(r@[j]@),
        decreases args.len() - i,
    {
        match get_var_term(&args[i], state, info) {
            Ok(t) => r.push(t),
            Err(e) => {
                assert(var_term_spec(*state, *info, a[i as int]) is None);
                return Err(e);
            },
        }
        i += 1;
    }
    assert(syms(r@) =~= a.map_values(|x: Seq<char>| var_term_spec(*state, *info, x)->Some_0));
    Ok(r)
}

/// Whether every name of `args` has a term and the function of `e` a signature.
pub open spec fn expr_ready_m(sigs: Seq<FuncSig>, gast: Map<Seq<char>, Seq<char>>, term: Map<Seq<char>, Seq<char>>, e: NormExprV) -> bool {
    call_sorts(sigs, e) is Some && terms_in(term, gast, e->Call_1) is Some
}

pub open spec fn expr_ready(st: ProofState, info: ProofInfo, e: NormExprV) -> bool {
    expr_ready_m(st.sigs.funcs@, st.global_var_ast@, info.var_term@, e)
}

pub open spec fn ast_call_m(sigs: Seq<FuncSig>, gast: Map<Seq<char>, Seq<char>>, term: Map<Seq<char>, Seq<char>>, e: NormExprV) -> NormExprV {
    NormExprV::Call(ast_name(e->Call_0, call_sorts(sigs, e)->Some_0), terms_in(term, gast, e->Call_1)->Some_0)
}

pub open spec fn ast_call(st: ProofState, info: ProofInfo, e: NormExprV) -> NormExprV {
    ast_call_m(st.sigs.funcs@, st.global_var_ast@, info.var_term@, e)
}

fn make_expr_ast(state: &mut ProofState, info: &ProofInfo, expr: &NormExpr, res: &mut Vec<NormAction>) -> (r: Result<String, ProofError>)
    ensures
        final(state).global_var_ast == old(state).global_var_ast,
        final(state).global_var_proof == old(state).global_var_proof,
        final(state).ast_funcs_created == old(state).ast_funcs_created,
        final(state).sigs == old(state).sigs,
        r is Ok ==> expr_ready(*old(state), *info, expr@) && {
            let t = proof_fresh((old(state).counter + 1) as nat);
            &&& final(state).counter == old(state).counter + 1
            &&& r->Ok_0@ == t
            &&& norm_actions_view(final(res)@) == norm_actions_view(old(res)@).push(
                NormActionV::Let(t, ast_call(*old(state), *info, expr@)),
            )
        },
        expr_ready(*old(state), *info, expr@) && old(state).counter < u64::MAX ==> r is Ok,
{
    let name = make_ast_version(&state.sigs, expr)?;
    let NormExpr::Call(_, args) = expr;
    let terms = terms_of(args, state, info)?;
    let newterm = state.get_fresh()?;
    let ghost before = res@;
    res.push(NormAction::Let(newterm.clone(), NormExpr::Call(name, terms)));
    assert(norm_actions_view(res@) =~= norm_actions_view(before).push(res@.last()@));
    Ok(newterm)
}

/// Actions that make the term of a call derived by a rule and store it, with its proof,
/// as the call's representative.
pub open spec fn expr_rep_actions_m(
    sigs: Seq<FuncSig>,
    gast: Map<Seq<char>, Seq<char>>,
    term: Map<Seq<char>, Seq<char>>,
    e: NormExprV,
    rule_proof: Seq<char>,
    k: nat,
) -> Seq<NormActionV> {
    let t = proof_fresh(k + 1);
    let rt = proof_fresh(k + 2);
    let tp = proof_fresh(k + 3);
    seq![
        NormActionV::Let(t, ast_call_m(sigs, gast, term, e)),
        NormActionV::Let(rt, NormExprV::Call("RuleTerm__"@, seq![rule_proof, t])),
        NormActionV::Let(tp, NormExprV::Call("MakeTrmPrf__"@, seq![t, rt])),
        NormActionV::SetValue(
            NormExprV::Call(rep_name(e->Call_0, call_sorts(sigs, e)->Some_0), e->Call_1),
            tp,
        ),
    ]
}

pub open spec fn expr_rep_actions(
    st: ProofState,
    info: ProofInfo,
    e: NormExprV,
    rule_proof: Seq<char>,
    k: nat,
) -> Seq<NormActionV> {
    expr_rep_actions_m(st.sigs.funcs@, st.global_var_ast@, info.var_term@, e, rule_proof, k)
}

fn make_expr_rep(
    state: &mut ProofState,
    info: &ProofInfo,
    expr: &NormExpr,
    rule_proof: &String,
    res: &mut Vec<NormAction>,
) -> (r: Result<String, ProofError>)
    ensures
        final(state).global_var_ast == old(state).global_var_ast,
        final(state).global_var_proof == old(state).global_var_proof,
        final(state).ast_funcs_created == old(state).ast_funcs_created,
        final(state).sigs == old(state).sigs,
        r is Ok ==> expr_ready(*old(state), *info, expr@) && {
            &&& final(state).counter == old(state).counter + 3
            &&& r->Ok_0@ == proof_fresh((old(state).counter + 1) as nat)
            &&& norm_actions_view(final(res)@) == norm_actions_view(old(res)@) + expr_rep_actions(
                *old(state),
                *info,
                expr@,
                rule_proof@,
                old(state).counter as nat,
            )
        },
        expr_ready(*old(state), *info, expr@) && old(state).counter + 3 <= u64::MAX ==> r is Ok,
{
    let ghost st0 = *state;
    let ghost before = res@;
    let newterm = make_expr_ast(state, info, expr, res)?;
    let ghost mid = res@;
    let ruletrm = state.get_fresh()?;
    res.push(NormAction::Let(ruletrm.clone(), NormExpr::Call(String::from_str("RuleTerm__"), two_syms(rule_proof.clone(), newterm.clone()))));
    let trmprf = state.get_fresh()?;
    res.push(NormAction::Let(trmprf.clone(), NormExpr::Call(String::from_str("MakeTrmPrf__"), two_syms(newterm.clone(), ruletrm))));
    let rep = make_rep_version(&state.sigs, expr)?;
    let NormExpr::Call(_, args) = expr;
    res.push(NormAction::SetValue(NormExpr::Call(rep, copy_syms(args)), trmprf));
    proof {
        let n = res@.len();
        assert(norm_actions_view(res@) =~= norm_actions_view(mid).push(res@[n - 3]@).push(res@[n - 2]@).push(
            res@[n - 1]@,
        ));
        let want = expr_rep_actions(st0, *info, expr@, rule_proof@, st0.counter as nat);
        assert(res@[n - 3]@ == want[1]);
        assert(res@[n - 2]@ == want[2]);
        assert(res@[n - 1]@ == want[3]);
        assert(norm_actions_view(mid) == norm_actions_view(before).push(want[0]));
        assert(norm_actions_view(res@) =~= norm_actions_view(before) + want);
    }
    Ok(newterm)
}

/// What a head action adds to a rule firing's proof bookkeeping, with `rule_proof` the
/// firing's proof and `k` the counter: the new term map, the actions, and the counter after.
pub open spec fn action_proof_spec(
    sigs: Seq<FuncSig>,
    gast: Map<Seq<char>, Seq<char>>,
    term: Map<Seq<char>, Seq<char>>,
    rule_proof: Seq<char>,
    k: nat,
    a: NormActionV,
) -> Option<(Map<Seq<char>, Seq<char>>, Seq<NormActionV>, nat)> {
    match a {
        NormActionV::LetVar(x, y) => match term_in(term, gast, y) {
            Some(t) => Some((term.insert(x, t), seq![], k)),
            None => None,
        },
        NormActionV::Delete(_) | NormActionV::Panic(_) => Some((term, seq![], k)),
        NormActionV::Union(x, y) => if term_in(term, gast, x) is Some && term_in(term, gast, y) is Some
            && k < u64::MAX {
            Some((
                term,
                eqgraph_pair(term_in(term, gast, x)->Some_0, term_in(term, gast, y)->Some_0, rule_proof, proof_fresh(k + 1)),
                k + 1,
            ))
        } else {
            None
        },
        NormActionV::Let(v, e) => if expr_ready_m(sigs, gast, term, e) && k + 3 <= u64::MAX {
            Some((term.insert(v, proof_fresh(k + 1)), expr_rep_actions_m(sigs, gast, term, e, rule_proof, k), k + 3))
        } else {
            None
        },
        NormActionV::SetValue(e, v) => if term_in(term, gast, v) is Some && expr_ready_m(sigs, gast, term, e) && k + 4
            <= u64::MAX {
            Some((
                term,
                expr_rep_actions_m(sigs, gast, term, e, rule_proof, k) + eqgraph_pair(
                    proof_fresh(k + 1),
                    term_in(term, gast, v)->Some_0,
                    rule_proof,
                    proof_fresh(k + 4),
                ),
                k + 4,
            ))
        } else {
            None
        },
        NormActionV::LetLit(v, l) => if k + 3 <= u64::MAX {
            let t = proof_fresh(k + 1);
            let rt = proof_fresh(k + 2);
            let tp = proof_fresh(k + 3);
            Some((
                term.insert(v, t),
                seq![
                    NormActionV::Let(t, NormExprV::Call(ast_prim_name(literal_sort(l)), seq![v])),
                    NormActionV::Let(rt, NormExprV::Call("RuleTerm__"@, seq![rule_proof, t])),
                    NormActionV::Let(tp, NormExprV::Call("MakeTrmPrf__"@, seq![t, rt])),
                    NormActionV::SetValue(NormExprV::Call(rep_prim_name(literal_sort(l)), seq![v]), tp),
                ],
                k + 3,
            ))
        } else {
            None
        },
    }
}

fn add_action_proof(
    rule_proof: &String,
    info: &mut ProofInfo,
    action: &NormAction,
    res: &mut Vec<NormAction>,
    state: &mut ProofState,
) -> (r: Result<(), ProofError>)
    ensures
        final(state).global_var_ast == old(state).global_var_ast,
        final(state).global_var_proof == old(state).global_var_proof,
        final(state).ast_funcs_created == old(state).ast_funcs_created,
        final(state).sigs == old(state).sigs,
        final(info).var_proof == old(info).var_proof,
        match action_proof_spec(
            old(state).sigs.funcs@,
            old(state).global_var_ast@,
            old(info).var_term@,
            rule_proof@,
            old(state).counter as nat,
            action@,
        ) {
            Some((t, acts, k)) => r is Ok && final(info).var_term@ == t && norm_actions_view(final(res)@)
                == norm_actions_view(old(res)@) + acts && final(state).counter == k,
            None => r is Err,
        },
        r is Ok ==> match action@ {
            NormActionV::LetVar(a, b) => {
                &&& norm_actions_view(final(res)@) == norm_actions_view(old(res)@)
                &&& var_term_spec(*old(state), *old(info), b) is Some
                &&& final(info).var_term@ == old(info).var_term@.insert(
                    a,
                    var_term_spec(*old(state), *old(info), b)->Some_0,
                )
            },
            NormActionV::Delete(_) | NormActionV::Panic(_) => norm_actions_view(final(res)@)
                == norm_actions_view(old(res)@) && final(info).var_term == old(info).var_term,
            NormActionV::Union(a, b) => norm_actions_view(final(res)@) == norm_actions_view(old(res)@)
                + eqgraph_pair(
                var_term_spec(*old(state), *old(info), a)->Some_0,
                var_term_spec(*old(state), *old(info), b)->Some_0,
                rule_proof@,
                proof_fresh((old(state).counter + 1) as nat),
            ) && final(info).var_term == old(info).var_term,
            NormActionV::Let(v, e) => {
                &&& norm_actions_view(final(res)@) == norm_actions_view(old(res)@) + expr_rep_actions(
                    *old(state),
                    *old(info),
                    e,
                    rule_proof@,
                    old(state).counter as nat,
                )
                &&& final(info).var_term@ == old(info).var_term@.insert(
                    v,
                    proof_fresh((old(state).counter + 1) as nat),
                )
            },
            NormActionV::SetValue(e, v) => {
                &&& norm_actions_view(final(res)@) == norm_actions_view(old(res)@) + expr_rep_actions(
                    *old(state),
                    *old(info),
                    e,
                    rule_proof@,
                    old(state).counter as nat,
                ) + eqgraph_pair(
                    proof_fresh((old(state).counter + 1) as nat),
                    var_term_spec(*old(state), *old(info), v)->Some_0,
                    rule_proof@,
                    proof_fresh((old(state).counter + 4) as nat),
                )
                &&& final(info).var_term == old(info).var_term
            },
            NormActionV::LetLit(v, l) => {
                let t = proof_fresh((old(state).counter + 1) as nat);
                let rt = proof_fresh((old(state).counter + 2) as nat);
                let tp = proof_fresh((old(state).counter + 3) as nat);
                &&& norm_actions_view(final(res)@) == norm_actions_view(old(res)@) + seq![
                    NormActionV::Let(t, NormExprV::Call(ast_prim_name(literal_sort(l)), seq![v])),
                    NormActionV::Let(rt, NormExprV::Call("RuleTerm__"@, seq![rule_proof@, t])),
                    NormActionV::Let(tp, NormExprV::Call("MakeTrmPrf__"@, seq![t, rt])),
                    NormActionV::SetValue(NormExprV::Call(rep_prim_name(literal_sort(l)), seq![v]), tp),
                ]
                &&& final(info).var_term@ == old(info).var_term@.insert(v, t)
            },
        },
        match action@ {
            NormActionV::LetVar(_, b) => var_term_spec(*old(state), *old(info), b) is Some,
            NormActionV::Delete(_) | NormActionV::Panic(_) => true,
            NormActionV::Union(a, b) => var_term_spec(*old(state), *old(info), a) is Some
                && var_term_spec(*old(state), *old(info), b) is Some && old(state).counter < u64::MAX,
            NormActionV::Let(_, e) => expr_ready(*old(state), *old(info), e) && old(state).counter + 3
                <= u64::MAX,
            NormActionV::SetValue(e, v) => expr_ready(*old(state), *old(info), e) && old(state).counter
                + 4 <= u64::MAX && var_term_spec(*old(state), *old(info), v) is Some,
            NormActionV::LetLit(_, _) => old(state).counter + 3 <= u64::MAX,
        } ==> r is Ok,
{
    let ghost st0 = *state;
    let ghost info0 = *info;
    let ghost before = res@;
    match action {
        NormAction::LetVar(var1, var2) => {
            let t = get_var_term(var2, state, info)?;
            info.var_term.insert(var1.clone(), t);
        },
        NormAction::Delete(..) | NormAction::Panic(..) => {},
        NormAction::Union(var1, var2) => {
            let a = get_var_term(var1, state, info)?;
            let b = get_var_term(var2, state, info)?;
            add_eqgraph_equality(a, b, rule_proof.clone(), res, state)?;
        },
        NormAction::SetValue(expr, rhs) => {
            let rhs_term = get_var_term(rhs, state, info)?;
            let new_term = make_expr_rep(state, info, expr, rule_proof, res)?;
            add_eqgraph_equality(new_term, rhs_term, rule_proof.clone(), res, state)?;
        },
        NormAction::Let(lhs, expr) => {
            let ast = make_expr_rep(state, info, expr, rule_proof, res)?;
            info.var_term.insert(lhs.clone(), ast);
        },
        NormAction::LetLit(lhs, lit) => {
            let sort = literal_name(lit);
            let newterm = state.get_fresh()?;
            let mut one: Vec<String> = Vec::new();
            one.push(lhs.clone());
            res.push(NormAction::Let(newterm.clone(), NormExpr::Call(make_ast_version_prim(&sort), one)));
            info.var_term.insert(lhs.clone(), newterm.clone());
            let ruletrm = state.get_fresh()?;
            res.push(NormAction::Let(ruletrm.clone(), NormExpr::Call(String::from_str("RuleTerm__"), two_syms(rule_proof.clone(), newterm.clone()))));
            let trmprf = state.get_fresh()?;
            res.push(NormAction::Let(trmprf.clone(), NormExpr::Call(String::from_str("MakeTrmPrf__"), two_syms(newterm, ruletrm))));
            let mut one2: Vec<String> = Vec::new();
            one2.push(lhs.clone());
            res.push(NormAction::SetValue(NormExpr::Call(make_rep_version_prim(&sort), one2), trmprf));
            proof {
                assert(syms(one@) =~= seq![lhs@]);
                assert(syms(one2@) =~= seq![lhs@]);
                let want = seq![
                    res@[res@.len() - 4]@,
                    res@[res@.len() - 3]@,
                    res@[res@.len() - 2]@,
                    res@[res@.len() - 1]@,
                ];
                assert(norm_actions_view(res@) =~= norm_actions_view(before) + want);
            }
        },
    }
    Ok(())
}

// ---------------------------------------------------------------------------
// The proof of one rule firing.
/// The chain of premises over the first `n` body facts: the actions, the counter after
/// them, and the variable holding the chain so far.
pub open spec fn premise_chain_m(
    gast: Map<Seq<char>, Seq<char>>,
    term: Map<Seq<char>, Seq<char>>,
    proof: Map<Seq<char>, Seq<char>>,
    facts: Seq<NormFactV>,
    n: nat,
    k0: nat,
) -> (Seq<NormActionV>, nat, Seq<char>)
    decreases n,
{
    if n == 0 || n > facts.len() {
        let c = proof_fresh(k0 + 1);
        (seq![NormActionV::LetVar(c, "Null__"@)], k0 + 1, c)
    } else {
        let (acts, k, cur) = premise_chain_m(gast, term, proof, facts, (n - 1) as nat, k0);
        let f = proof_fresh(k + 1);
        match facts[n - 1] {
            NormFactV::ConstrainEq(a, b) => (
                acts.push(
                    NormActionV::Let(
                        f,
                        NormExprV::Call(
                            "DemandEq__"@,
                            seq![term_in(term, gast, a)->Some_0, term_in(term, gast, b)->Some_0],
                        ),
                    ),
                ),
                k + 1,
                cur,
            ),
            NormFactV::Assign(lhs, _) => (
                acts.push(NormActionV::Let(f, NormExprV::Call("Cons__"@, seq![proof[lhs], cur]))),
                k + 1,
                f,
            ),
            NormFactV::AssignLit(lhs, _) => (
                acts.push(NormActionV::Let(f, NormExprV::Call("Cons__"@, seq![proof[lhs], cur]))),
                k + 1,
                f,
            ),
        }
    }
}

pub open spec fn premise_chain(
    st: ProofState,
    info: ProofInfo,
    facts: Seq<NormFactV>,
    n: nat,
    k0: nat,
) -> (Seq<NormActionV>, nat, Seq<char>) {
    premise_chain_m(st.global_var_ast@, info.var_term@, info.var_proof@, facts, n, k0)
}

/// All actions that build the proof of a rule firing named `name`.
pub open spec fn rule_proof_actions_m(
    gast: Map<Seq<char>, Seq<char>>,
    term: Map<Seq<char>, Seq<char>>,
    proof: Map<Seq<char>, Seq<char>>,
    facts: Seq<NormFactV>,
    name: Seq<char>,
    k0: nat,
) -> Seq<NormActionV> {
    let (acts, k, cur) = premise_chain_m(gast, term, proof, facts, facts.len(), k0);
    let c = proof_fresh(k + 1);
    let rp = proof_fresh(k + 2);
    acts + seq![
        NormActionV::LetLit(c, LitV::Str(name)),
        NormActionV::Let(rp, NormExprV::Call("Rule__"@, seq![cur, c])),
    ]
}

pub open spec fn rule_proof_actions(
    st: ProofState,
    info: ProofInfo,
    facts: Seq<NormFactV>,
    name: Seq<char>,
) -> Seq<NormActionV> {
    rule_proof_actions_m(st.global_var_ast@, info.var_term@, info.var_proof@, facts, name, st.counter as nat)
}

/// When the proof of a rule firing can be built: every assigned variable has a proof,
/// both sides of every constraint have terms, and the counter has room.
pub open spec fn rule_proof_ok(
    gast: Map<Seq<char>, Seq<char>>,
    term: Map<Seq<char>, Seq<char>>,
    proof: Map<Seq<char>, Seq<char>>,
    fs: Seq<NormFactV>,
    k0: nat,
) -> bool {
    &&& k0 + fs.len() + 3 <= u64::MAX
    &&& forall|i: int| 0 <= i < fs.len() && (#[trigger] assigned(fs[i])) is Some ==> proof.contains_key(assigned(fs[i])->Some_0)
    &&& forall|i: int|
        0 <= i < fs.len() && (#[trigger] fs[i]) is ConstrainEq ==> term_in(term, gast, fs[i]->ConstrainEq_0) is Some
            && term_in(term, gast, fs[i]->ConstrainEq_1) is Some
}

pub proof fn lemma_premise_chain_counter(
    gast: Map<Seq<char>, Seq<char>>,
    term: Map<Seq<char>, Seq<char>>,
    proof: Map<Seq<char>, Seq<char>>,
    fs: Seq<NormFactV>,
    n: nat,
    k0: nat,
)
    requires
        n <= fs.len(),
    ensures
        premise_chain_m(gast, term, proof, fs, n, k0).1 == k0 + 1 + n,
    decreases n,
{
    if n > 0 {
        lemma_premise_chain_counter(gast, term, proof, fs, (n - 1) as nat, k0);
    }
}

fn add_rule_proof(
    rule_name: &String,
    info: &ProofInfo,
    facts: &Vec<NormFact>,
    res: &mut Vec<NormAction>,
    state: &mut ProofState,
) -> (r: Result<String, ProofError>)
    ensures
        final(state).global_var_ast == old(state).global_var_ast,
        final(state).global_var_proof == old(state).global_var_proof,
        final(state).ast_funcs_created == old(state).ast_funcs_created,
        final(state).sigs == old(state).sigs,
        r is Ok ==> {
            let (acts, k, cur) = premise_chain(
                *old(state),
                *info,
                norm_facts_view(facts@),
                facts@.len(),
                old(state).counter as nat,
            );
            &&& final(state).counter == k + 2
            &&& r->Ok_0@ == proof_fresh(k + 2)
            &&& norm_actions_view(final(res)@) == norm_actions_view(old(res)@) + rule_proof_actions(
                *old(state),
                *info,
                norm_facts_view(facts@),
                rule_name@,
            )
        },
        r is Ok <==> rule_proof_ok(
            old(state).global_var_ast@,
            info.var_term@,
            info.var_proof@,
            norm_facts_view(facts@),
            old(state).counter as nat,
        ),
{
    let ghost st0 = *state;
    let ghost fs = norm_facts_view(facts@);
    let ghost before = norm_actions_view(res@);
    let mut current = state.get_fresh()?;
    res.push(NormAction::LetVar(current.clone(), String::from_str("Null__")));
    assert(norm_actions_view(res@) =~= before + premise_chain(st0, *info, fs, 0, st0.counter as nat).0);
    let mut i: usize = 0;
    while i < facts.len()
        invariant
            fs == norm_facts_view(facts@),
            i <= facts@.len(),
            st0 == *old(state),
            state.global_var_ast == st0.global_var_ast,
            state.global_var_proof == st0.global_var_proof,
            state.ast_funcs_created == st0.ast_funcs_created,
            state.sigs == st0.sigs,
            state.counter == st0.counter + 1 + i,
            forall|j: int| 0 <= j < i && (#[trigger] assigned(fs[j])) is Some ==> info.var_proof@.contains_key(assigned(fs[j])->Some_0),
            forall|j: int|
                0 <= j < i && (#[trigger] fs[j]) is ConstrainEq ==> term_in(info.var_term@, st0.global_var_ast@, fs[j]->ConstrainEq_0) is Some
                    && term_in(info.var_term@, st0.global_var_ast@, fs[j]->ConstrainEq_1) is Some,
            ({
                let (acts, k, cur) = premise_chain(st0, *info, fs, i as nat, st0.counter as nat);
                &&& norm_actions_view(res@) == before + acts
                &&& state.counter == k
                &&& current@ == cur
            }),
        decreases facts.len() - i,
    {
        let ghost prev = norm_actions_view(res@);
        assert(fs[i as int] == facts@[i as int]@);
        let fresh = state.get_fresh()?;
        match &facts[i] {
            NormFact::Assign(lhs, _) | NormFact::AssignLit(lhs, _) => {
                assert(assigned(fs[i as int]) == Some(lhs@));
                let p = match info.var_proof.get(lhs) {
                    Some(p) => p,
                    None => {
                        return Err(ProofError::UnboundVariable(lhs.clone()));
                    },
                };
                res.push(NormAction::Let(fresh.clone(), NormExpr::Call(String::from_str("Cons__"), two_syms(p, current))));
                current = fresh;
            },
            NormFact::ConstrainEq(lhs, rhs) => {
                let a = get_var_term(lhs, state, info)?;
                let b = get_var_term(rhs, state, info)?;
                res.push(NormAction::Let(fresh, NormExpr::Call(String::from_str("DemandEq__"), two_syms(a, b))));
            },
        }
        proof {
            assert(fs[i as int] == facts@[i as int]@);
            assert(norm_actions_view(res@) =~= prev.push(res@.last()@));
        }
        i += 1;
    }
    let ghost mid = norm_actions_view(res@);
    let name_const = state.get_fresh()?;
    res.push(NormAction::LetLit(name_const.clone(), Literal::String(rule_name.clone())));
    let rule_proof = state.get_fresh()?;
    res.push(NormAction::Let(rule_proof.clone(), NormExpr::Call(String::from_str("Rule__"), two_syms(current, name_const))));
    proof {
        let n = res@.len();
        assert(norm_actions_view(res@) =~= mid.push(res@[n - 2]@).push(res@[n - 1]@));
        assert(norm_actions_view(res@) =~= before + rule_proof_actions(st0, *info, fs, rule_name@));
    }
    Ok(rule_proof)
}

// ---------------------------------------------------------------------------
// Instrumenting a rule.
/// The variable a body fact assigns, if any.
pub open spec fn assigned(f: NormFactV) -> Option<Seq<char>> {
    match f {
        NormFactV::Assign(v, _) => Some(v),
        NormFactV::AssignLit(v, _) => Some(v),
        NormFactV::ConstrainEq(_, _) => None,
    }
}

fn is_primitive(sigs: &Signatures, f: &String) -> (r: bool)
    ensures
        r == (lookup_sig(sigs.funcs@, f@) is Some && lookup_sig(sigs.funcs@, f@)->Some_0.primitive),
{
    match sigs.find(f) {
        Some(i) => sigs.funcs[i].primitive,
        None => false,
    }
}

fn eq_fact(a: Expr, b: Expr) -> (r: Fact)
    ensures
        r@ == FactV::Eq(seq![a@, b@]),
{
    Fact::Eq(two_exprs(a, b))
}

/// The term of `v`: bound in the rule, else in the program.
pub open spec fn term_in(term: Map<Seq<char>, Seq<char>>, gast: Map<Seq<char>, Seq<char>>, v: Seq<char>) -> Option<Seq<char>> {
    if term.contains_key(v) {
        Some(term[v])
    } else if gast.contains_key(v) {
        Some(gast[v])
    } else {
        None
    }
}

/// The terms of `args`, if each has one.
pub open spec fn terms_in(term: Map<Seq<char>, Seq<char>>, gast: Map<Seq<char>, Seq<char>>, args: Seq<Seq<char>>) -> Option<Seq<Seq<char>>> {
    if forall|i: int| 0 <= i < args.len() ==> term_in(term, gast, #[trigger] args[i]) is Some {
        Some(args.map_values(|a: Seq<char>| term_in(term, gast, a)->Some_0))
    } else {
        None
    }
}

/// What kind of error an instrumentation step stops with; an under-constrained
/// constraint names both of its sides.
pub enum ErrKind {
    UnknownFunction,
    Unconstrained(Seq<char>, Seq<char>),
    UnboundVariable,
    Overflow,
}

pub open spec fn err_kind(e: ProofError) -> ErrKind {
    match e {
        ProofError::UnknownFunction(_) => ErrKind::UnknownFunction,
        ProofError::Unconstrained(a, b) => ErrKind::Unconstrained(a@, b@),
        ProofError::UnboundVariable(_) => ErrKind::UnboundVariable,
        ProofError::Overflow => ErrKind::Overflow,
    }
}

/// State of the walk over a rule body.
pub struct FactsSt {
    pub next: nat,
    pub term: Map<Seq<char>, Seq<char>>,
    pub proof: Map<Seq<char>, Seq<char>>,
    pub facts: Seq<FactV>,
    pub acts: Seq<NormActionV>,
}

pub open spec fn is_prim(sigs: Seq<FuncSig>, f: Seq<char>) -> bool {
    lookup_sig(sigs, f) is Some && lookup_sig(sigs, f)->Some_0.primitive
}

/// The children of a user call's representative: for argument `i`, `const_i = i` and
/// `child_i = GetChild__(rep_trm, const_i)`, and `child_i` becomes the argument's term.
pub open spec fn child_facts(st: FactsSt, rep_trm: Seq<char>, args: Seq<Seq<char>>, base: nat, n: nat) -> FactsSt
    decreases n,
{
    if n == 0 {
        st
    } else {
        let p = child_facts(st, rep_trm, args, base, (n - 1) as nat);
        let i = (n - 1) as nat;
        let c = proof_fresh(base + 2 * i + 1);
        let k = proof_fresh(base + 2 * i + 2);
        FactsSt {
            next: p.next + 2,
            term: p.term.insert(args[i as int], c),
            proof: p.proof,
            facts: p.facts + seq![
                FactV::Eq(seq![evar(k), ExprV::Lit(LitV::Int(i as i64))]),
                FactV::Eq(seq![evar(c), ExprV::Call("GetChild__"@, seq![evar(rep_trm), evar(k)])]),
            ],
            acts: p.acts,
        }
    }
}

/// One body fact of the first walk.
pub open spec fn fact_step(sigs: Seq<FuncSig>, gast: Map<Seq<char>, Seq<char>>, st: FactsSt, f: NormFactV) -> Result<FactsSt, ErrKind> {
    match f {
        NormFactV::AssignLit(v, l) => if st.next + 2 > u64::MAX {
            Err(ErrKind::Overflow)
        } else {
            let t = proof_fresh(st.next + 1);
            let p = proof_fresh(st.next + 2);
            Ok(FactsSt {
                next: st.next + 2,
                term: st.term.insert(v, t),
                proof: st.proof.insert(v, p),
                facts: st.facts,
                acts: st.acts + seq![
                    NormActionV::Let(t, NormExprV::Call(ast_prim_name(literal_sort(l)), seq![v])),
                    NormActionV::Let(p, NormExprV::Call("ComputePrim__"@, seq![t])),
                ],
            })
        },
        NormFactV::Assign(v, NormExprV::Call(head, args)) => if is_prim(sigs, head) {
            if st.next + 2 > u64::MAX {
                Err(ErrKind::Overflow)
            } else if terms_in(st.term, gast, args) is None {
                Err(ErrKind::UnboundVariable)
            } else {
                let t = proof_fresh(st.next + 1);
                let p = proof_fresh(st.next + 2);
                let sorts = call_sorts(sigs, NormExprV::Call(head, args))->Some_0;
                Ok(FactsSt {
                    next: st.next + 2,
                    term: st.term.insert(v, t),
                    proof: st.proof.insert(v, p),
                    facts: st.facts,
                    acts: st.acts + seq![
                        NormActionV::Let(t, NormExprV::Call(ast_name(head, sorts), terms_in(st.term, gast, args)->Some_0)),
                        NormActionV::Let(p, NormExprV::Call("ComputePrim__"@, seq![t])),
                    ],
                })
            }
        } else {
            if args.len() > i64::MAX || st.next + 3 + 2 * args.len() > u64::MAX {
                Err(ErrKind::Overflow)
            } else if lookup_sig(sigs, head) is None {
                Err(ErrKind::UnknownFunction)
            } else {
                let rep = proof_fresh(st.next + 1);
                let rt = proof_fresh(st.next + 2);
                let rp = proof_fresh(st.next + 3);
                let sorts = call_sorts(sigs, NormExprV::Call(head, args))->Some_0;
                let s1 = FactsSt {
                    next: st.next + 3,
                    term: st.term.insert(v, rt),
                    proof: st.proof.insert(v, rp),
                    facts: st.facts + seq![
                        FactV::Eq(seq![evar(rep), ExprV::Call(rep_name(head, sorts), args.map_values(|x: Seq<char>| evar(x)))]),
                        FactV::Eq(seq![evar(rt), ExprV::Call("TrmOf__"@, seq![evar(rep)])]),
                        FactV::Eq(seq![evar(rp), ExprV::Call("PrfOf__"@, seq![evar(rep)])]),
                    ],
                    acts: st.acts,
                };
                Ok(child_facts(s1, rt, args, st.next + 3, args.len()))
            }
        },
        NormFactV::ConstrainEq(a, b) => match term_in(st.term, gast, b) {
            Some(t) => if term_in(st.term, gast, a) is None {
                Ok(FactsSt { term: st.term.insert(a, t), ..st })
            } else {
                Ok(st)
            },
            None => match term_in(st.term, gast, a) {
                Some(t) => Ok(FactsSt { term: st.term.insert(b, t), ..st }),
                None => Err(ErrKind::Unconstrained(a, b)),
            },
        },
    }
}

/// The first walk over the first `n` body facts.
pub open spec fn facts_walk(sigs: Seq<FuncSig>, gast: Map<Seq<char>, Seq<char>>, st: FactsSt, body: Seq<NormFactV>, n: nat) -> Result<FactsSt, ErrKind>
    decreases n,
{
    if n == 0 || n > body.len() {
        Ok(st)
    } else {
        match facts_walk(sigs, gast, st, body, (n - 1) as nat) {
            Ok(p) => fact_step(sigs, gast, p, body[n - 1]),
            Err(e) => Err(e),
        }
    }
}

/// The second walk over the first `n` body facts: each constraint gives its side without
/// a term the term of the other side.
pub open spec fn alias_walk(gast: Map<Seq<char>, Seq<char>>, st: FactsSt, body: Seq<NormFactV>, n: nat) -> Result<FactsSt, ErrKind>
    decreases n,
{
    if n == 0 || n > body.len() {
        Ok(st)
    } else {
        match alias_walk(gast, st, body, (n - 1) as nat) {
            Ok(p) => match body[n - 1] {
                NormFactV::ConstrainEq(a, b) => match term_in(p.term, gast, a) {
                    Some(t) => if term_in(p.term, gast, b) is None {
                        Ok(FactsSt { term: p.term.insert(b, t), ..p })
                    } else {
                        Ok(p)
                    },
                    None => match term_in(p.term, gast, b) {
                        Some(t) => Ok(FactsSt { term: p.term.insert(a, t), ..p }),
                        None => Err(ErrKind::Unconstrained(a, b)),
                    },
                },
                _ => Ok(p),
            },
            Err(e) => Err(e),
        }
    }
}

/// Instrumentation of a rule body: the first walk from the body's own facts, then the
/// second walk.
pub open spec fn instrument_facts_spec(sigs: Seq<FuncSig>, gast: Map<Seq<char>, Seq<char>>, next: nat, body: Seq<NormFactV>) -> Result<FactsSt, ErrKind> {
    let init = FactsSt {
        next,
        term: Map::empty(),
        proof: Map::empty(),
        facts: body.map_values(|f: NormFactV| norm_fact_to_fact(f)),
        acts: seq![],
    };
    match facts_walk(sigs, gast, init, body, body.len()) {
        Ok(w) => alias_walk(gast, w, body, body.len()),
        Err(e) => Err(e),
    }
}

proof fn lemma_child_prefix(st: FactsSt, rt: Seq<char>, args: Seq<Seq<char>>, base: nat, n: nat)
    ensures
        child_facts(st, rt, args, base, n).facts.len() >= st.facts.len(),
        child_facts(st, rt, args, base, n).facts.subrange(0, st.facts.len() as int) == st.facts,
    decreases n,
{
    if n == 0 {
        assert(st.facts.subrange(0, st.facts.len() as int) =~= st.facts);
    } else {
        lemma_child_prefix(st, rt, args, base, (n - 1) as nat);
        let p = child_facts(st, rt, args, base, (n - 1) as nat);
        let q = child_facts(st, rt, args, base, n);
        assert(q.facts.subrange(0, st.facts.len() as int) =~= p.facts.subrange(0, st.facts.len() as int));
    }
}

proof fn lemma_walk_prefix(sigs: Seq<FuncSig>, gast: Map<Seq<char>, Seq<char>>, st: FactsSt, body: Seq<NormFactV>, n: nat)
    requires
        facts_walk(sigs, gast, st, body, n) is Ok,
    ensures
        facts_walk(sigs, gast, st, body, n)->Ok_0.facts.len() >= st.facts.len(),
        facts_walk(sigs, gast, st, body, n)->Ok_0.facts.subrange(0, st.facts.len() as int) == st.facts,
    decreases n,
{
    if n == 0 || n > body.len() {
        assert(st.facts.subrange(0, st.facts.len() as int) =~= st.facts);
    } else {
        lemma_walk_prefix(sigs, gast, st, body, (n - 1) as nat);
        let p = facts_walk(sigs, gast, st, body, (n - 1) as nat)->Ok_0;
        let q = facts_walk(sigs, gast, st, body, n)->Ok_0;
        match body[n - 1] {
            NormFactV::Assign(v, NormExprV::Call(head, args)) => {
                if !is_prim(sigs, head) {
                    let rep = proof_fresh(p.next + 1);
                    let rt = proof_fresh(p.next + 2);
                    let rp = proof_fresh(p.next + 3);
                    let sorts = call_sorts(sigs, NormExprV::Call(head, args))->Some_0;
                    let s1 = FactsSt {
                        next: p.next + 3,
                        term: p.term.insert(v, rt),
                        proof: p.proof.insert(v, rp),
                        facts: p.facts + seq![
                            FactV::Eq(seq![evar(rep), ExprV::Call(rep_name(head, sorts), args.map_values(|x: Seq<char>| evar(x)))]),
                            FactV::Eq(seq![evar(rt), ExprV::Call("TrmOf__"@, seq![evar(rep)])]),
                            FactV::Eq(seq![evar(rp), ExprV::Call("PrfOf__"@, seq![evar(rep)])]),
                        ],
                        acts: p.acts,
                    };
                    lemma_child_prefix(s1, rt, args, p.next + 3, args.len());
                    assert(q.facts.subrange(0, p.facts.len() as int) =~= s1.facts.subrange(0, p.facts.len() as int));
                }
            },
            _ => {},
        }
        assert(q.facts.subrange(0, st.facts.len() as int) =~= q.facts.subrange(0, p.facts.len() as int).subrange(0, st.facts.len() as int));
    }
}

proof fn lemma_alias_facts(gast: Map<Seq<char>, Seq<char>>, st: FactsSt, body: Seq<NormFactV>, n: nat)
    requires
        alias_walk(gast, st, body, n) is Ok,
    ensures
        alias_walk(gast, st, body, n)->Ok_0.facts == st.facts,
        alias_walk(gast, st, body, n)->Ok_0.acts == st.acts,
        alias_walk(gast, st, body, n)->Ok_0.next == st.next,
    decreases n,
{
    if n > 0 && n <= body.len() {
        lemma_alias_facts(gast, st, body, (n - 1) as nat);
    }
}

proof fn lemma_walk_err(sigs: Seq<FuncSig>, gast: Map<Seq<char>, Seq<char>>, st: FactsSt, body: Seq<NormFactV>, i: nat, j: nat)
    requires
        i <= j <= body.len(),
        facts_walk(sigs, gast, st, body, i) is Err,
    ensures
        facts_walk(sigs, gast, st, body, j) == facts_walk(sigs, gast, st, body, i),
    decreases j,
{
    if i < j {
        lemma_walk_err(sigs, gast, st, body, i, (j - 1) as nat);
    }
}

proof fn lemma_alias_err(gast: Map<Seq<char>, Seq<char>>, st: FactsSt, body: Seq<NormFactV>, i: nat, j: nat)
    requires
        i <= j <= body.len(),
        alias_walk(gast, st, body, i) is Err,
    ensures
        alias_walk(gast, st, body, j) == alias_walk(gast, st, body, i),
    decreases j,
{
    if i < j {
        lemma_alias_err(gast, st, body, i, (j - 1) as nat);
    }
}

/// Gives each body variable a term and each assigned variable a proof. Terms of
/// primitive computations are built by actions appended to `actions`; representatives
/// of user functions are looked up by facts appended after the rule's own facts.
fn instrument_facts(
    body: &Vec<NormFact>,
    state: &mut ProofState,
    actions: &mut Vec<NormAction>,
) -> (r: Result<(ProofInfo, Vec<Fact>), ProofError>)
    ensures
        final(state).global_var_ast == old(state).global_var_ast,
        final(state).global_var_proof == old(state).global_var_proof,
        final(state).ast_funcs_created == old(state).ast_funcs_created,
        final(state).sigs == old(state).sigs,
        final(actions)@.len() >= old(actions)@.len(),
        final(actions)@.subrange(0, old(actions)@.len() as int) == old(actions)@,
        match instrument_facts_spec(
            old(state).sigs.funcs@,
            old(state).global_var_ast@,
            old(state).counter as nat,
            norm_facts_view(body@),
        ) {
            Ok(w) => r is Ok && {
                let (info, facts) = r->Ok_0;
                &&& info.var_term@ == w.term
                &&& info.var_proof@ == w.proof
                &&& facts_view(facts@) == w.facts
                &&& norm_actions_view(final(actions)@) == norm_actions_view(old(actions)@) + w.acts
                &&& final(state).counter == w.next
            },
            Err(e) => r is Err && err_kind(r->Err_0) == e,
        },
        r is Ok ==> facts_view(r->Ok_0.1@).len() >= body@.len() && facts_view(r->Ok_0.1@).subrange(
            0,
            body@.len() as int,
        ) == norm_facts_view(body@).map_values(|f: NormFactV| norm_fact_to_fact(f)),
{
    let ghost acts0 = actions@;
    let ghost st0 = *state;
    let ghost sigs = st0.sigs.funcs@;
    let ghost gast = st0.global_var_ast@;
    let ghost bv = norm_facts_view(body@);
    let mut info = ProofInfo { var_term: SymMap::new(), var_proof: SymMap::new() };
    let mut facts = norm_facts_to_facts(body);
    let ghost init = FactsSt {
        next: st0.counter as nat,
        term: Map::empty(),
        proof: Map::empty(),
        facts: bv.map_values(|f: NormFactV| norm_fact_to_fact(f)),
        acts: seq![],
    };
    assert(actions@.subrange(0, acts0.len() as int) =~= acts0);
    assert(norm_actions_view(actions@) =~= norm_actions_view(acts0) + seq![]);
    let mut i: usize = 0;
    while i < body.len()
        invariant
            i <= body@.len(),
            st0 == *old(state),
            sigs == st0.sigs.funcs@,
            gast == st0.global_var_ast@,
            bv == norm_facts_view(body@),
            state.global_var_ast == st0.global_var_ast,
            state.global_var_proof == st0.global_var_proof,
            state.ast_funcs_created == st0.ast_funcs_created,
            state.sigs == st0.sigs,
            acts0 == old(actions)@,
            actions@.len() >= acts0.len(),
            actions@.subrange(0, acts0.len() as int) == acts0,
            init.next == st0.counter as nat,
            init.term == Map::<Seq<char>, Seq<char>>::empty(),
            init.proof == Map::<Seq<char>, Seq<char>>::empty(),
            init.facts == bv.map_values(|f: NormFactV| norm_fact_to_fact(f)),
            init.acts == Seq::<NormActionV>::empty(),
            facts_walk(sigs, gast, init, bv, i as nat) is Ok,
            ({
                let w = facts_walk(sigs, gast, init, bv, i as nat)->Ok_0;
                &&& w.next == state.counter
                &&& w.term == info.var_term@
                &&& w.proof == info.var_proof@
                &&& w.facts == facts_view(facts@)
                &&& norm_actions_view(actions@) == norm_actions_view(acts0) + w.acts
            }),
        decreases body.len() - i,
    {
        let ghost w = facts_walk(sigs, gast, init, bv, i as nat)->Ok_0;
        let ghost acts_before = actions@;
        assert(bv[i as int] == body@[i as int]@);
        let ghost step = fact_step(sigs, gast, w, bv[i as int]);
        assert(facts_walk(sigs, gast, init, bv, (i + 1) as nat) == step);
        match &body[i] {
            NormFact::AssignLit(lhs, lit) => {
                if state.counter > u64::MAX - 2 {
                    proof { lemma_walk_err(sigs, gast, init, bv, (i + 1) as nat, bv.len()); }
                    return Err(ProofError::Overflow);
                }
                let sort = literal_name(lit);
                let rep_trm = state.get_fresh()?;
                let rep_prf = state.get_fresh()?;
                let mut one: Vec<String> = Vec::new();
                one.push(lhs.clone());
                actions.push(NormAction::Let(rep_trm.clone(), NormExpr::Call(make_ast_version_prim(&sort), one)));
                let mut one2: Vec<String> = Vec::new();
                one2.push(rep_trm.clone());
                actions.push(NormAction::Let(rep_prf.clone(), NormExpr::Call(String::from_str("ComputePrim__"), one2)));
                info.var_term.insert(lhs.clone(), rep_trm);
                info.var_proof.insert(lhs.clone(), rep_prf);
                proof {
                    assert(syms(one@) =~= seq![lhs@]);
                    assert(syms(one2@) =~= seq![rep_trm@]);
                    let n = actions@.len();
                    assert(norm_actions_view(actions@) =~= norm_actions_view(acts_before).push(actions@[n - 2]@).push(actions@[n - 1]@));
                    assert(norm_actions_view(actions@) =~= norm_actions_view(acts0) + step->Ok_0.acts);
                }
            },
            NormFact::Assign(lhs, NormExpr::Call(head, args)) => {
                if is_primitive(&state.sigs, head) {
                    if state.counter > u64::MAX - 2 {
                        proof { lemma_walk_err(sigs, gast, init, bv, (i + 1) as nat, bv.len()); }
                        return Err(ProofError::Overflow);
                    }
                    let call = NormExpr::Call(head.clone(), copy_syms(args));
                    let ast = match make_ast_version(&state.sigs, &call) {
                        Ok(a) => a,
                        Err(e) => {
                            return Err(e);
                        },
                    };
                    let terms = match terms_of(args, state, &info) {
                        Ok(t) => t,
                        Err(e) => {
                            proof { lemma_walk_err(sigs, gast, init, bv, (i + 1) as nat, bv.len()); }
                            return Err(e);
                        },
                    };
                    let rep_trm = state.get_fresh()?;
                    let rep_prf = state.get_fresh()?;
                    actions.push(NormAction::Let(rep_trm.clone(), NormExpr::Call(ast, terms)));
                    let mut one: Vec<String> = Vec::new();
                    one.push(rep_trm.clone());
                    actions.push(NormAction::Let(rep_prf.clone(), NormExpr::Call(String::from_str("ComputePrim__"), one)));
                    info.var_term.insert(lhs.clone(), rep_trm);
                    info.var_proof.insert(lhs.clone(), rep_prf);
                    proof {
                        assert(syms(one@) =~= seq![rep_trm@]);
                        let n = actions@.len();
                        assert(norm_actions_view(actions@) =~= norm_actions_view(acts_before).push(actions@[n - 2]@).push(actions@[n - 1]@));
                        assert(norm_actions_view(actions@) =~= norm_actions_view(acts0) + step->Ok_0.acts);
                    }
                } else {
                    let n = args.len();
                    if n as u64 > 0x7fff_ffff_ffff_ffff || state.counter > u64::MAX - 3 || (u64::MAX - 3 - state.counter) / 2 < n as u64 {
                        proof { lemma_walk_err(sigs, gast, init, bv, (i + 1) as nat, bv.len()); }
                        return Err(ProofError::Overflow);
                    }
                    let call = NormExpr::Call(head.clone(), copy_syms(args));
                    let rep_fn = match make_rep_version(&state.sigs, &call) {
                        Ok(f) => f,
                        Err(e) => {
                            proof { lemma_walk_err(sigs, gast, init, bv, (i + 1) as nat, bv.len()); }
                            return Err(e);
                        },
                    };
                    let rep = state.get_fresh()?;
                    let rep_trm = state.get_fresh()?;
                    let rep_prf = state.get_fresh()?;
                    let ghost base = state.counter as nat;
                    facts.push(eq_fact(Expr::Var(rep.clone()), call_expr(rep_fn, var_exprs(args))));
                    facts.push(eq_fact(Expr::Var(rep_trm.clone()), call_expr(String::from_str("TrmOf__"), one_expr(Expr::Var(rep.clone())))));
                    facts.push(eq_fact(Expr::Var(rep_prf.clone()), call_expr(String::from_str("PrfOf__"), one_expr(Expr::Var(rep)))));
                    info.var_term.insert(lhs.clone(), rep_trm.clone());
                    info.var_proof.insert(lhs.clone(), rep_prf.clone());
                    let ghost s1 = FactsSt {
                        next: w.next + 3,
                        term: w.term.insert(lhs@, rep_trm@),
                        proof: w.proof.insert(lhs@, rep_prf@),
                        facts: w.facts + seq![facts@[facts@.len() - 3]@, facts@[facts@.len() - 2]@, facts@[facts@.len() - 1]@],
                        acts: w.acts,
                    };
                    assert(facts_view(facts@) =~= s1.facts);
                    let ghost a = syms(args@);
                    let mut c: usize = 0;
                    while c < n
                        invariant
                            n == args@.len(),
                            a == syms(args@),
                            n <= i64::MAX,
                            c <= n,
                            base + 2 * n <= u64::MAX,
                            state.counter == base + 2 * c,
                            st0 == *old(state),
                            state.global_var_ast == st0.global_var_ast,
                            state.global_var_proof == st0.global_var_proof,
                            state.ast_funcs_created == st0.ast_funcs_created,
                            state.sigs == st0.sigs,
                            actions@ == acts_before,
                            ({
                                let cf = child_facts(s1, rep_trm@, a, base, c as nat);
                                &&& cf.next == state.counter
                                &&& cf.term == info.var_term@
                                &&& cf.proof == info.var_proof@
                                &&& cf.facts == facts_view(facts@)
                                &&& cf.acts == w.acts
                            }),
                        decreases n - c,
                    {
                        let child_trm = state.get_fresh()?;
                        let const_var = state.get_fresh()?;
                        let ghost fb = facts@;
                        facts.push(eq_fact(Expr::Var(const_var.clone()), Expr::Lit(Literal::Int(c as i64))));
                        facts.push(eq_fact(
                            Expr::Var(child_trm.clone()),
                            call_expr(String::from_str("GetChild__"), two_exprs(Expr::Var(rep_trm.clone()), Expr::Var(const_var))),
                        ));
                        info.var_term.insert(args[c].clone(), child_trm);
                        proof {
                            assert(a[c as int] == args@[c as int]@);
                            assert(facts_view(facts@) =~= facts_view(fb) + seq![facts@[facts@.len() - 2]@, facts@[facts@.len() - 1]@]);
                        }
                        c += 1;
                    }
                    proof {
                        assert(a.map_values(|x: Seq<char>| evar(x)) =~= syms(args@).map_values(|v: Seq<char>| evar(v)));
                    }
                }
            },
            NormFact::ConstrainEq(lhs, rhs) => {
                match get_var_term_option(rhs, state, &info) {
                    Some(term) => {
                        if get_var_term_option(lhs, state, &info).is_none() {
                            info.var_term.insert(lhs.clone(), term);
                        }
                    },
                    None => match get_var_term_option(lhs, state, &info) {
                        Some(term) => {
                            info.var_term.insert(rhs.clone(), term);
                        },
                        None => {
                            proof { lemma_walk_err(sigs, gast, init, bv, (i + 1) as nat, bv.len()); }
                            return Err(ProofError::Unconstrained(lhs.clone(), rhs.clone()));
                        },
                    },
                }
            },
        }
        proof {
            assert(actions@.subrange(0, acts0.len() as int) =~= acts_before.subrange(0, acts0.len() as int));
        }
        i += 1;
    }
    let ghost w1 = facts_walk(sigs, gast, init, bv, bv.len())->Ok_0;
    // fill in the terms of aliases
    let mut i: usize = 0;
    while i < body.len()
        invariant
            i <= body@.len(),
            st0 == *old(state),
            sigs == st0.sigs.funcs@,
            gast == st0.global_var_ast@,
            bv == norm_facts_view(body@),
            facts_walk(sigs, gast, init, bv, bv.len()) == Ok::<FactsSt, ErrKind>(w1),
            init.next == st0.counter as nat,
            init.term == Map::<Seq<char>, Seq<char>>::empty(),
            init.proof == Map::<Seq<char>, Seq<char>>::empty(),
            init.facts == bv.map_values(|f: NormFactV| norm_fact_to_fact(f)),
            init.acts == Seq::<NormActionV>::empty(),
            state.global_var_ast == st0.global_var_ast,
            state.global_var_proof == st0.global_var_proof,
            state.ast_funcs_created == st0.ast_funcs_created,
            state.sigs == st0.sigs,
            acts0 == old(actions)@,
            actions@.len() >= acts0.len(),
            actions@.subrange(0, acts0.len() as int) == acts0,
            alias_walk(gast, w1, bv, i as nat) is Ok,
            ({
                let w = alias_walk(gast, w1, bv, i as nat)->Ok_0;
                &&& w.next == state.counter
                &&& w.term == info.var_term@
                &&& w.proof == info.var_proof@
                &&& w.facts == facts_view(facts@)
                &&& norm_actions_view(actions@) == norm_actions_view(acts0) + w.acts
            }),
        decreases body.len() - i,
    {
        assert(bv[i as int] == body@[i as int]@);
        if let NormFact::ConstrainEq(lhs, rhs) = &body[i] {
            let lhs_term = get_var_term_option(lhs, state, &info);
            let rhs_term = get_var_term_option(rhs, state, &info);
            match lhs_term {
                Some(t) => {
                    if rhs_term.is_none() {
                        info.var_term.insert(rhs.clone(), t);
                    }
                },
                None => match rhs_term {
                    Some(t) => {
                        info.var_term.insert(lhs.clone(), t);
                    },
                    None => {
                        proof { lemma_alias_err(gast, w1, bv, (i + 1) as nat, bv.len()); }
                        return Err(ProofError::Unconstrained(lhs.clone(), rhs.clone()));
                    },
                },
            }
        }
        i += 1;
    }
    proof {
        lemma_walk_prefix(sigs, gast, init, bv, bv.len());
        lemma_alias_facts(gast, w1, bv, bv.len());
    }
    Ok((info, facts))
}

impl NormAction {
    pub fn copy(&self) -> (r: NormAction)
        ensures
            r@ == self@,
    {
        match self {
            NormAction::Let(v, e) => NormAction::Let(v.clone(), e.copy()),
            NormAction::LetVar(a, b) => NormAction::LetVar(a.clone(), b.clone()),
            NormAction::LetLit(v, l) => NormAction::LetLit(v.clone(), l.copy()),
            NormAction::SetValue(e, v) => NormAction::SetValue(e.copy(), v.clone()),
            NormAction::Delete(e) => NormAction::Delete(e.copy()),
            NormAction::Union(a, b) => NormAction::Union(a.clone(), b.clone()),
            NormAction::Panic(m) => NormAction::Panic(m.clone()),
        }
    }
}

fn norm_actions_to_actions(v: &Vec<NormAction>) -> (r: Vec<Action>)
    ensures
        actions_view(r@) == norm_actions_view(v@).map_values(|a: NormActionV| norm_action_to_action(a)),
{
    let mut r: Vec<Action> = Vec::new();
    let mut i: usize = 0;
    while i < v.len()
        invariant
            i <= v@.len(),
            r@.len() == i,
            forall|j: int| 0 <= j < i ==> (#[trigger] r@[j])@ == norm_action_to_action(v@[j]@),
        decreases v.len() - i,
    {
        r.push(v[i].to_action());
        i += 1;
    }
    assert(actions_view(r@) =~= norm_actions_view(v@).map_values(|a: NormActionV| norm_action_to_action(a)));
    r
}

/// The proof actions of the first `n` head actions of a rule firing.
pub open spec fn heads_proof(
    sigs: Seq<FuncSig>,
    gast: Map<Seq<char>, Seq<char>>,
    term: Map<Seq<char>, Seq<char>>,
    rule_proof: Seq<char>,
    k: nat,
    head: Seq<NormActionV>,
    n: nat,
) -> Option<(Map<Seq<char>, Seq<char>>, Seq<NormActionV>, nat)>
    decreases n,
{
    if n == 0 || n > head.len() {
        Some((term, seq![], k))
    } else {
        match heads_proof(sigs, gast, term, rule_proof, k, head, (n - 1) as nat) {
            None => None,
            Some((t, acts, k1)) => match action_proof_spec(sigs, gast, t, rule_proof, k1, head[n - 1]) {
                None => None,
                Some((t2, a2, k2)) => Some((t2, acts + a2, k2)),
            },
        }
    }
}

proof fn lemma_heads_none(
    sigs: Seq<FuncSig>,
    gast: Map<Seq<char>, Seq<char>>,
    term: Map<Seq<char>, Seq<char>>,
    rule_proof: Seq<char>,
    k: nat,
    head: Seq<NormActionV>,
    i: nat,
    j: nat,
)
    requires
        i <= j <= head.len(),
        heads_proof(sigs, gast, term, rule_proof, k, head, i) is None,
    ensures
        heads_proof(sigs, gast, term, rule_proof, k, head, j) is None,
    decreases j,
{
    if i < j {
        lemma_heads_none(sigs, gast, term, rule_proof, k, head, i, (j - 1) as nat);
    }
}

/// The instrumented form of a rule named `name` when the counter stands at `k0`: its body
/// is the body walk's facts; its head is the rule's own head, then the walk's actions, then
/// the actions building the firing's proof `Rule__(premises, name)`, then each head
/// action's proof actions. Also the counter after it.
#[verifier::opaque]
pub open spec fn instrument_rule_spec(
    sigs: Seq<FuncSig>,
    gast: Map<Seq<char>, Seq<char>>,
    k0: nat,
    body: Seq<NormFactV>,
    head: Seq<NormActionV>,
    name: Seq<char>,
) -> Option<(nat, crate::ast::RuleV)> {
    match instrument_facts_spec(sigs, gast, k0, body) {
        Err(_) => None,
        Ok(w) => if !rule_proof_ok(gast, w.term, w.proof, body, w.next) {
            None
        } else {
            let k = premise_chain_m(gast, w.term, w.proof, body, body.len(), w.next).1;
            match heads_proof(sigs, gast, w.term, proof_fresh(k + 2), k + 2, head, head.len()) {
                None => None,
                Some((t, hacts, k3)) => Some((
                    k3,
                    crate::ast::RuleV {
                        body: w.facts,
                        head: (head + w.acts + rule_proof_actions_m(gast, w.term, w.proof, body, name, w.next)
                            + hacts).map_values(|a: NormActionV| norm_action_to_action(a)),
                    },
                )),
            }
        },
    }
}

/// The head binds the rule's name as a string, the name its proof carries.
pub open spec fn names_rule(head: Seq<ActionV>, name: Seq<char>) -> bool {
    exists|k: int| 0 <= k < head.len() && #[trigger] head[k] is Let && head[k]->Let_1 == ExprV::Lit(LitV::Str(name))
}

/// The instrumented rule keeps the rule's own facts and actions first, in order, and
/// adds the term, representative and proof bookkeeping after them.
#[verifier::rlimit(60)]
fn instrument_rule(rule: &NormRule, rule_name: &String, state: &mut ProofState) -> (r: Result<Rule, ProofError>)
    ensures
        final(state).sigs == old(state).sigs,
        final(state).global_var_ast == old(state).global_var_ast,
        final(state).global_var_proof == old(state).global_var_proof,
        final(state).ast_funcs_created == old(state).ast_funcs_created,
        r is Ok ==> {
            let out = r->Ok_0@;
            &&& out.body.len() >= rule.body@.len()
            &&& out.body.subrange(0, rule.body@.len() as int) == norm_facts_view(rule.body@).map_values(
                |f: NormFactV| norm_fact_to_fact(f),
            )
            &&& out.head.len() >= rule.head@.len()
            &&& out.head.subrange(0, rule.head@.len() as int) == norm_actions_view(rule.head@).map_values(
                |a: NormActionV| norm_action_to_action(a),
            )
            &&& names_rule(out.head, rule_name@)
        },
        match instrument_rule_spec(
            old(state).sigs.funcs@,
            old(state).global_var_ast@,
            old(state).counter as nat,
            norm_facts_view(rule.body@),
            norm_actions_view(rule.head@),
            rule_name@,
        ) {
            Some((k, out)) => r is Ok && r->Ok_0@ == out && final(state).counter == k,
            None => r is Err,
        },
{
    proof {
        reveal(instrument_rule_spec);
    }
    let ghost sigs = state.sigs.funcs@;
    let ghost gast = state.global_var_ast@;
    let ghost bv = norm_facts_view(rule.body@);
    let ghost hv = norm_actions_view(rule.head@);
    let ghost k0 = state.counter as nat;
    let mut actions: Vec<NormAction> = Vec::new();
    let mut i: usize = 0;
    while i < rule.head.len()
        invariant
            i <= rule.head@.len(),
            actions@.len() == i,
            forall|j: int| 0 <= j < i ==> (#[trigger] actions@[j])@ == rule.head@[j]@,
        decreases rule.head.len() - i,
    {
        actions.push(rule.head[i].copy());
        i += 1;
    }
    let ghost own = norm_actions_view(actions@);
    assert(own =~= hv);
    let ghost n0 = actions@.len();
    let (mut info, facts) = instrument_facts(&rule.body, state, &mut actions)?;
    let ghost w = instrument_facts_spec(sigs, gast, k0, bv)->Ok_0;
    proof {
        assert(norm_actions_view(actions@).subrange(0, n0 as int) =~= own);
    }
    let ghost a1 = norm_actions_view(actions@);
    let ghost st_r = *state;
    let rule_proof = add_rule_proof(rule_name, &info, &rule.body, &mut actions, state)?;
    let ghost kc = premise_chain_m(gast, w.term, w.proof, bv, bv.len(), w.next).1;
    let ghost base = norm_actions_view(actions@);
    proof {
        lemma_premise_chain_counter(gast, w.term, w.proof, bv, bv.len(), w.next);
        assert(base == own + w.acts + rule_proof_actions_m(gast, w.term, w.proof, bv, rule_name@, w.next));
        assert(base + seq![] =~= base);
    }
    let ghost idx = actions@.len() - 2;
    let ghost named = NormActionV::LetLit(
        proof_fresh(premise_chain(st_r, info, norm_facts_view(rule.body@), rule.body@.len(), st_r.counter as nat).1 + 1),
        LitV::Str(rule_name@),
    );
    proof {
        assert(norm_actions_view(actions@).subrange(0, n0 as int) =~= a1.subrange(0, n0 as int));
        assert(norm_actions_view(actions@)[idx] == named);
    }
    let mut i: usize = 0;
    while i < rule.head.len()
        invariant
            i <= rule.head@.len(),
            n0 == own.len(),
            norm_actions_view(actions@).len() >= n0,
            norm_actions_view(actions@).subrange(0, n0 as int) == own,
            0 <= idx < norm_actions_view(actions@).len(),
            norm_actions_view(actions@)[idx] == named,
            named->LetLit_1 == LitV::Str(rule_name@),
            sigs == old(state).sigs.funcs@,
            gast == old(state).global_var_ast@,
            hv == norm_actions_view(rule.head@),
            bv == norm_facts_view(rule.body@),
            k0 == old(state).counter as nat,
            instrument_facts_spec(sigs, gast, k0, bv) == Ok::<FactsSt, ErrKind>(w),
            rule_proof_ok(gast, w.term, w.proof, bv, w.next),
            kc == premise_chain_m(gast, w.term, w.proof, bv, bv.len(), w.next).1,
            rule_proof@ == proof_fresh(kc + 2),
            heads_proof(sigs, gast, w.term, proof_fresh(kc + 2), kc + 2, hv, i as nat) is Some,
            ({
                let (t, hacts, k3) = heads_proof(sigs, gast, w.term, proof_fresh(kc + 2), kc + 2, hv, i as nat)->Some_0;
                &&& info.var_term@ == t
                &&& norm_actions_view(actions@) == base + hacts
                &&& state.counter == k3
            }),
            state.sigs == old(state).sigs,
            state.global_var_ast == old(state).global_var_ast,
            state.global_var_proof == old(state).global_var_proof,
            state.ast_funcs_created == old(state).ast_funcs_created,
        decreases rule.head.len() - i,
    {
        let ghost before = norm_actions_view(actions@);
        assert(hv[i as int] == rule.head@[i as int]@);
        let step = add_action_proof(&rule_proof, &mut info, &rule.head[i], &mut actions, state);
        if step.is_err() {
            proof {
                reveal(instrument_rule_spec);
                lemma_heads_none(sigs, gast, w.term, proof_fresh(kc + 2), kc + 2, hv, (i + 1) as nat, hv.len());
                assert(heads_proof(sigs, gast, w.term, proof_fresh(kc + 2), kc + 2, hv, hv.len()) is None);
            }
            return Err(step.unwrap_err());
        }
        proof {
            let prev = heads_proof(sigs, gast, w.term, proof_fresh(kc + 2), kc + 2, hv, i as nat)->Some_0;
            assert(norm_actions_view(actions@) =~= base + heads_proof(sigs, gast, w.term, proof_fresh(kc + 2), kc + 2, hv, (i + 1) as nat)->Some_0.1);
            assert(norm_actions_view(actions@).subrange(0, n0 as int) =~= before.subrange(0, n0 as int));
            assert(norm_actions_view(actions@)[idx] == before[idx]);
        }
        i += 1;
    }
    let head = norm_actions_to_actions(&actions);
    let r = Rule { head, body: facts };
    proof {
        assert(actions_view(r.head@)[idx] == ActionV::Let(named->LetLit_0, ExprV::Lit(LitV::Str(rule_name@))));
        assert(names_rule(r@.head, rule_name@));
        assert(actions_view(r.head@).subrange(0, rule.head@.len() as int) =~= norm_actions_view(rule.head@).map_values(
            |a: NormActionV| norm_action_to_action(a),
        )) by {
            assert forall|j: int| 0 <= j < rule.head@.len() implies actions_view(r.head@)[j]
                == norm_action_to_action(rule.head@[j]@) by {
                assert(norm_actions_view(actions@).subrange(0, n0 as int)[j] == own[j]);
            }
        }
    }
    Ok(r)
}

// ---------------------------------------------------------------------------
// Top-level actions.
/// The program-level terms of `args`, if each has one.
pub open spec fn global_terms(st: ProofState, args: Seq<Seq<char>>) -> Option<Seq<Seq<char>>> {
    if forall|i: int| 0 <= i < args.len() ==> st.global_var_ast@.contains_key(#[trigger] args[i]) {
        Some(args.map_values(|a: Seq<char>| st.global_var_ast@[a]))
    } else {
        None
    }
}

fn global_terms_of(args: &Vec<String>, state: &ProofState) -> (r: Result<Vec<Expr>, ProofError>)
    ensures
        match global_terms(*state, syms(args@)) {
            Some(ts) => r is Ok && exprs_view(r->Ok_0@) == ts.map_values(|t: Seq<char>| evar(t)),
            None => r is Err && r->Err_0 is UnboundVariable,
        },
{
    let ghost a = syms(args@);
    let mut r: Vec<Expr> = Vec::new();
    let mut i: usize = 0;
    while i < args.len()
        invariant
            a == syms(args@),
            i <= args@.len(),
            r@.len() == i,
            forall|j: int|
                0 <= j < i ==> state.global_var_ast@.contains_key(#[trigger] a[j]) && r@[j]@ == evar(
                    state.global_var_ast@[a[j]],
                ),
        decreases args.len() - i,
    {
        match state.global_var_ast.get(&args[i]) {
            Some(t) => r.push(Expr::Var(t)),
            None => {
                assert(!state.global_var_ast@.contains_key(a[i as int]));
                return Err(ProofError::UnboundVariable(args[i].clone()));
            },
        }
        i += 1;
    }
    assert(exprs_view(r@) =~= a.map_values(|x: Seq<char>| state.global_var_ast@[x]).map_values(
        |t: Seq<char>| evar(t),
    ));
    Ok(r)
}

/// `MakeTrmPrf__(t, Original__(t))`: the term `t`, given by the program itself.
pub open spec fn original_trmprf(t: Seq<char>) -> ExprV {
    ExprV::Call("MakeTrmPrf__"@, seq![evar(t), ExprV::Call("Original__"@, seq![evar(t)])])
}

fn original_trmprf_expr(t: &String) -> (r: Expr)
    ensures
        r@ == original_trmprf(t@),
{
    call_expr(
        String::from_str("MakeTrmPrf__"),
        two_exprs(Expr::Var(t.clone()), call_expr(String::from_str("Original__"), one_expr(Expr::Var(t.clone())))),
    )
}

/// The two commands that give the call `e` at the top level the term `t`, made of the
/// program-level terms of its arguments, and the representative `MakeTrmPrf__(t, Original__(t))`.
pub open spec fn rep_commands(t: Seq<char>, sigs: Seq<FuncSig>, e: NormExprV, gast: Map<Seq<char>, Seq<char>>) -> Seq<CommandV> {
    let NormExprV::Call(f, args) = e;
    let sorts = call_sorts(sigs, e)->Some_0;
    seq![
        CommandV::Action(ActionV::Let(t, ExprV::Call(ast_name(f, sorts), args.map_values(|x: Seq<char>| evar(gast[x]))))),
        CommandV::Action(ActionV::SetValue(rep_name(f, sorts), args.map_values(|x: Seq<char>| evar(x)), original_trmprf(t))),
    ]
}

fn make_rep_command(state: &mut ProofState, lhs: &String, expr: &NormExpr) -> (r: Result<Vec<Command>, ProofError>)
    ensures
        final(state).sigs == old(state).sigs,
        final(state).global_var_proof == old(state).global_var_proof,
        final(state).ast_funcs_created == old(state).ast_funcs_created,
        r is Ok ==> {
            let t = proof_fresh((old(state).counter + 1) as nat);
            let NormExprV::Call(f, args) = expr@;
            let sorts = call_sorts(old(state).sigs.funcs@, expr@)->Some_0;
            let terms = global_terms(*final(state), args)->Some_0;
            &&& final(state).counter == old(state).counter + 1
            &&& final(state).global_var_ast@ == old(state).global_var_ast@.insert(lhs@, t)
            &&& call_sorts(old(state).sigs.funcs@, expr@) is Some
            &&& global_terms(*final(state), args) is Some
            &&& crate::ast::commands_view(r->Ok_0@) == seq![
                CommandV::Action(ActionV::Let(t, ExprV::Call(ast_name(f, sorts), terms.map_values(|x: Seq<char>| evar(x))))),
                CommandV::Action(ActionV::SetValue(rep_name(f, sorts), args.map_values(|x: Seq<char>| evar(x)), original_trmprf(t))),
            ]
            &&& crate::ast::commands_view(r->Ok_0@) == rep_commands(t, old(state).sigs.funcs@, expr@, final(state).global_var_ast@)
        },
        ({
            let args = expr@->Call_1;
            &&& old(state).counter < u64::MAX
            &&& call_sorts(old(state).sigs.funcs@, expr@) is Some
            &&& forall|i: int|
                0 <= i < args.len() ==> #[trigger] args[i] == lhs@
                    || old(state).global_var_ast@.contains_key(args[i])
        }) ==> r is Ok,
{
    let ast_var = state.get_fresh()?;
    state.global_var_ast.insert(lhs.clone(), ast_var.clone());
    let ast = make_ast_version(&state.sigs, expr)?;
    let NormExpr::Call(_, args) = expr;
    let terms = global_terms_of(args, state)?;
    let rep = make_rep_version(&state.sigs, expr)?;
    let mut r: Vec<Command> = Vec::new();
    r.push(Command::Action(Action::Let(ast_var.clone(), call_expr(ast, terms))));
    r.push(Command::Action(Action::SetValue(rep, var_exprs(args), original_trmprf_expr(&ast_var))));
    assert(crate::ast::commands_view(r@) =~= seq![r@[0]@, r@[1]@]);
    proof {
        let a = syms(args@);
        let g = state.global_var_ast@;
        assert(a.map_values(|x: Seq<char>| g[x]).map_values(|x: Seq<char>| evar(x)) =~= a.map_values(
            |x: Seq<char>| evar(g[x]),
        ));
    }
    Ok(r)
}

/// A top-level equality `a = b` is recorded in both directions, the reverse one flipped.
pub open spec fn original_eq_pair(a: Seq<char>, b: Seq<char>) -> Seq<CommandV> {
    let p = ExprV::Call("OriginalEq__"@, seq![evar(a), evar(b)]);
    seq![
        CommandV::Action(ActionV::SetValue("EqGraph__"@, seq![evar(a), evar(b)], p)),
        CommandV::Action(ActionV::SetValue("EqGraph__"@, seq![evar(b), evar(a)], ExprV::Call("Flip__"@, seq![p]))),
    ]
}

fn original_eq_commands(a: &String, b: &String, out: &mut Vec<Command>)
    ensures
        crate::ast::commands_view(final(out)@) == crate::ast::commands_view(old(out)@) + original_eq_pair(a@, b@),
{
    let ghost before = out@;
    let stated = call_expr(String::from_str("OriginalEq__"), two_exprs(Expr::Var(a.clone()), Expr::Var(b.clone())));
    let stated_again = call_expr(String::from_str("OriginalEq__"), two_exprs(Expr::Var(a.clone()), Expr::Var(b.clone())));
    out.push(Command::Action(Action::SetValue(
        String::from_str("EqGraph__"),
        two_exprs(Expr::Var(a.clone()), Expr::Var(b.clone())),
        stated,
    )));
    out.push(Command::Action(Action::SetValue(
        String::from_str("EqGraph__"),
        two_exprs(Expr::Var(b.clone()), Expr::Var(a.clone())),
        call_expr(String::from_str("Flip__"), one_expr(stated_again)),
    )));
    assert(crate::ast::commands_view(out@) =~= crate::ast::commands_view(before) + original_eq_pair(a@, b@));
}

fn global_term(v: &String, state: &ProofState) -> (r: Result<String, ProofError>)
    ensures
        state.global_var_ast@.contains_key(v@) ==> r is Ok && r->Ok_0@ == state.global_var_ast@[v@],
        !state.global_var_ast@.contains_key(v@) ==> r is Err && r->Err_0 is UnboundVariable,
{
    match state.global_var_ast.get(v) {
        Some(t) => Ok(t),
        None => Err(ProofError::UnboundVariable(v.clone())),
    }
}

/// The commands that give a top-level action its terms and proofs, and the state after.
#[verifier::opaque]
pub open spec fn orig_action_spec(sigs: Seq<FuncSig>, m: PModel, a: NormActionV) -> Option<(PModel, Seq<CommandV>)> {
    let c = m.counter;
    match a {
        NormActionV::Let(v, e) => {
            let t = proof_fresh(c + 1);
            let g = m.gast.insert(v, t);
            if c < u64::MAX && call_sorts(sigs, e) is Some && (forall|i: int|
                0 <= i < e->Call_1.len() ==> g.contains_key(#[trigger] e->Call_1[i])) {
                Some((PModel { counter: c + 1, gast: g, ..m }, rep_commands(t, sigs, e, g)))
            } else {
                None
            }
        },
        NormActionV::LetVar(x, y) => if m.gast.contains_key(y) {
            Some((PModel { gast: m.gast.insert(x, m.gast[y]), ..m }, seq![]))
        } else {
            None
        },
        NormActionV::LetLit(v, l) => if c < u64::MAX {
            let t = proof_fresh(c + 1);
            Some((
                PModel { counter: c + 1, gast: m.gast.insert(v, t), ..m },
                seq![
                    CommandV::Action(ActionV::Let(t, ExprV::Call(ast_prim_name(literal_sort(l)), seq![ExprV::Lit(l)]))),
                    CommandV::Action(ActionV::SetValue(rep_prim_name(literal_sort(l)), seq![ExprV::Lit(l)], original_trmprf(t))),
                ],
            ))
        } else {
            None
        },
        NormActionV::SetValue(e, v) => {
            let key = proof_fresh(c + 1);
            let t = proof_fresh(c + 2);
            let g = m.gast.insert(key, t);
            if c + 2 <= u64::MAX && call_sorts(sigs, e) is Some && (forall|i: int|
                0 <= i < e->Call_1.len() ==> g.contains_key(#[trigger] e->Call_1[i])) && g.contains_key(v) {
                Some((PModel { counter: c + 2, gast: g, ..m }, rep_commands(t, sigs, e, g) + original_eq_pair(t, g[v])))
            } else {
                None
            }
        },
        NormActionV::Union(x, y) => if m.gast.contains_key(x) && m.gast.contains_key(y) {
            Some((m, original_eq_pair(m.gast[x], m.gast[y])))
        } else {
            None
        },
        NormActionV::Delete(_) | NormActionV::Panic(_) => Some((m, seq![])),
    }
}

/// Commands that give a top-level action its terms and proofs.
fn proof_original_action(action: &NormAction, state: &mut ProofState) -> (r: Result<Vec<Command>, ProofError>)
    ensures
        match orig_action_spec(old(state).sigs.funcs@, pmodel(*old(state)), action@) {
            Some((m, out)) => r is Ok && crate::ast::commands_view(r->Ok_0@) == out && pmodel(*final(state)) == m,
            None => r is Err,
        },
        final(state).sigs == old(state).sigs,
        final(state).global_var_proof == old(state).global_var_proof,
        final(state).ast_funcs_created == old(state).ast_funcs_created,
        r is Ok ==> match action@ {
            NormActionV::Union(a, b) => crate::ast::commands_view(r->Ok_0@) == original_eq_pair(
                old(state).global_var_ast@[a],
                old(state).global_var_ast@[b],
            ),
            NormActionV::LetVar(a, b) => r->Ok_0@.len() == 0 && final(state).global_var_ast@
                == old(state).global_var_ast@.insert(a, old(state).global_var_ast@[b]),
            NormActionV::Delete(_) | NormActionV::Panic(_) => r->Ok_0@.len() == 0,
            NormActionV::Let(v, e) => {
                let t = proof_fresh((old(state).counter + 1) as nat);
                &&& final(state).global_var_ast@ == old(state).global_var_ast@.insert(v, t)
                &&& crate::ast::commands_view(r->Ok_0@) == rep_commands(t, old(state).sigs.funcs@, e, final(state).global_var_ast@)
            },
            NormActionV::LetLit(v, l) => {
                let t = proof_fresh((old(state).counter + 1) as nat);
                &&& final(state).global_var_ast@ == old(state).global_var_ast@.insert(v, t)
                &&& crate::ast::commands_view(r->Ok_0@) == seq![
                    CommandV::Action(ActionV::Let(t, ExprV::Call(ast_prim_name(literal_sort(l)), seq![ExprV::Lit(l)]))),
                    CommandV::Action(ActionV::SetValue(rep_prim_name(literal_sort(l)), seq![ExprV::Lit(l)], original_trmprf(t))),
                ]
            },
            NormActionV::SetValue(e, v) => {
                let key = proof_fresh((old(state).counter + 1) as nat);
                let t = proof_fresh((old(state).counter + 2) as nat);
                &&& final(state).global_var_ast@ == old(state).global_var_ast@.insert(key, t)
                &&& crate::ast::commands_view(r->Ok_0@) == rep_commands(t, old(state).sigs.funcs@, e, final(state).global_var_ast@)
                    + original_eq_pair(t, final(state).global_var_ast@[v])
            },
        },
        match action@ {
            NormActionV::Let(v, e) => old(state).counter < u64::MAX && call_sorts(
                old(state).sigs.funcs@,
                e,
            ) is Some && forall|i: int|
                0 <= i < e->Call_1.len() ==> #[trigger] e->Call_1[i] == v
                    || old(state).global_var_ast@.contains_key(e->Call_1[i]),
            NormActionV::LetVar(_, b) => old(state).global_var_ast@.contains_key(b),
            NormActionV::LetLit(_, _) => old(state).counter < u64::MAX,
            NormActionV::SetValue(e, v) => old(state).counter + 2 <= u64::MAX && call_sorts(
                old(state).sigs.funcs@,
                e,
            ) is Some && (forall|i: int|
                0 <= i < e->Call_1.len() ==> old(state).global_var_ast@.contains_key(#[trigger] e->Call_1[i]))
                && old(state).global_var_ast@.contains_key(v),
            NormActionV::Union(a, b) => old(state).global_var_ast@.contains_key(a)
                && old(state).global_var_ast@.contains_key(b),
            NormActionV::Delete(_) | NormActionV::Panic(_) => true,
        } ==> r is Ok,
{
    proof {
        reveal(orig_action_spec);
    }
    let ghost st0 = *state;
    match action {
        NormAction::Let(lhs, expr) => {
            let r = make_rep_command(state, lhs, expr);
            proof {
                if r is Ok {
                    assert(r->Ok_0@.len() == crate::ast::commands_view(r->Ok_0@).len());
                }
            }
            r
        },
        NormAction::LetVar(var1, var2) => {
            let t = global_term(var2, state)?;
            state.global_var_ast.insert(var1.clone(), t);
            Ok(Vec::new())
        },
        NormAction::LetLit(lhs, lit) => {
            let sort = literal_name(lit);
            let ast_var = state.get_fresh()?;
            state.global_var_ast.insert(lhs.clone(), ast_var.clone());
            let mut r: Vec<Command> = Vec::new();
            r.push(Command::Action(Action::Let(
                ast_var.clone(),
                call_expr(make_ast_version_prim(&sort), one_expr(Expr::Lit(lit.copy()))),
            )));
            r.push(Command::Action(Action::SetValue(
                make_rep_version_prim(&sort),
                one_expr(Expr::Lit(lit.copy())),
                original_trmprf_expr(&ast_var),
            )));
            assert(crate::ast::commands_view(r@) =~= seq![r@[0]@, r@[1]@]);
            Ok(r)
        },
        NormAction::SetValue(expr, var) => {
            let fresh = state.get_fresh()?;
            let mut cmds = make_rep_command(state, &fresh, expr)?;
            let a = global_term(&fresh, state)?;
            let b = global_term(var, state)?;
            let ghost before = cmds@;
            original_eq_commands(&a, &b, &mut cmds);
            proof {
                assert(crate::ast::commands_view(cmds@).subrange(2, 4) =~= original_eq_pair(a@, b@));
                assert(cmds@.len() == crate::ast::commands_view(cmds@).len());
                assert(before.len() == crate::ast::commands_view(before).len());
            }
            Ok(cmds)
        },
        NormAction::Union(var1, var2) => {
            let a = global_term(var1, state)?;
            let b = global_term(var2, state)?;
            let mut r: Vec<Command> = Vec::new();
            original_eq_commands(&a, &b, &mut r);
            assert(crate::ast::commands_view(r@) =~= original_eq_pair(a@, b@));
            Ok(r)
        },
        NormAction::Delete(..) | NormAction::Panic(..) => Ok(Vec::new()),
    }
}

// ---------------------------------------------------------------------------
// Whole programs.
/// The calls that the assignments among `fs` make, in order.
pub open spec fn fact_calls(fs: Seq<NormFactV>) -> Seq<NormExprV>
    decreases fs.len(),
{
    if fs.len() == 0 {
        seq![]
    } else {
        fact_calls(fs.drop_last()) + match fs.last() {
            NormFactV::Assign(_, e) => seq![e],
            _ => seq![],
        }
    }
}

/// The call an action makes, if any.
pub open spec fn action_calls(a: NormActionV) -> Seq<NormExprV> {
    match a {
        NormActionV::Let(_, e) => seq![e],
        NormActionV::SetValue(e, _) => seq![e],
        NormActionV::Delete(e) => seq![e],
        _ => seq![],
    }
}

pub open spec fn actions_calls(acts: Seq<NormActionV>) -> Seq<NormExprV>
    decreases acts.len(),
{
    if acts.len() == 0 {
        seq![]
    } else {
        actions_calls(acts.drop_last()) + action_calls(acts.last())
    }
}

pub open spec fn norm_exprs_view(v: Seq<NormExpr>) -> Seq<NormExprV> {
    v.map_values(|e: NormExpr| e@)
}

fn push_fact_calls(facts: &Vec<NormFact>, out: &mut Vec<NormExpr>)
    ensures
        norm_exprs_view(final(out)@) == norm_exprs_view(old(out)@) + fact_calls(norm_facts_view(facts@)),
{
    let ghost start = norm_exprs_view(out@);
    let mut i: usize = 0;
    assert(fact_calls(norm_facts_view(facts@).subrange(0, 0)) =~= seq![]);
    assert(start + seq![] =~= start);
    while i < facts.len()
        invariant
            i <= facts@.len(),
            norm_exprs_view(out@) == start + fact_calls(norm_facts_view(facts@).subrange(0, i as int)),
        decreases facts.len() - i,
    {
        let ghost before = norm_exprs_view(out@);
        if let NormFact::Assign(_, e) = &facts[i] {
            out.push(e.copy());
        }
        proof {
            let a = norm_facts_view(facts@).subrange(0, i + 1);
            assert(a.drop_last() =~= norm_facts_view(facts@).subrange(0, i as int));
            assert(a.last() == facts@[i as int]@);
            assert(norm_exprs_view(out@) =~= before + match a.last() {
                NormFactV::Assign(_, e) => seq![e],
                _ => seq![],
            });
        }
        i += 1;
    }
    assert(norm_facts_view(facts@).subrange(0, i as int) =~= norm_facts_view(facts@));
}

fn push_action_call(a: &NormAction, out: &mut Vec<NormExpr>)
    ensures
        norm_exprs_view(final(out)@) == norm_exprs_view(old(out)@) + action_calls(a@),
{
    let ghost before = norm_exprs_view(out@);
    match a {
        NormAction::Let(_, e) | NormAction::SetValue(e, _) | NormAction::Delete(e) => out.push(e.copy()),
        _ => {},
    }
    assert(norm_exprs_view(out@) =~= before + action_calls(a@));
}

/// The calls a command makes, in order.
fn command_calls(command: &NCommand) -> (r: Vec<NormExpr>)
    ensures
        norm_exprs_view(r@) == cmd_calls(*command),
        norm_exprs_view(r@) == match command {
            NCommand::NormRule { rule, .. } => fact_calls(norm_facts_view(rule.body@)) + actions_calls(
                norm_actions_view(rule.head@),
            ),
            NCommand::NormAction(a) => action_calls(a@),
            NCommand::Check(facts) => fact_calls(norm_facts_view(facts@)),
            NCommand::Run(config) => match config.until {
                Some(facts) => fact_calls(norm_facts_view(facts@)),
                None => seq![],
            },
            _ => seq![],
        },
{
    let mut out: Vec<NormExpr> = Vec::new();
    assert(norm_exprs_view(out@) =~= seq![]);
    match command {
        NCommand::NormRule { rule, .. } => {
            push_fact_calls(&rule.body, &mut out);
            let ghost mid = norm_exprs_view(out@);
            let mut i: usize = 0;
            assert(actions_calls(norm_actions_view(rule.head@).subrange(0, 0)) =~= seq![]);
            assert(mid + seq![] =~= mid);
            while i < rule.head.len()
                invariant
                    i <= rule.head@.len(),
                    norm_exprs_view(out@) == mid + actions_calls(
                        norm_actions_view(rule.head@).subrange(0, i as int),
                    ),
                decreases rule.head.len() - i,
            {
                let ghost before = norm_exprs_view(out@);
                push_action_call(&rule.head[i], &mut out);
                proof {
                    let a = norm_actions_view(rule.head@).subrange(0, i + 1);
                    assert(a.drop_last() =~= norm_actions_view(rule.head@).subrange(0, i as int));
                    assert(a.last() == rule.head@[i as int]@);
                }
                i += 1;
            }
            assert(norm_actions_view(rule.head@).subrange(0, i as int) =~= norm_actions_view(rule.head@));
        },
        NCommand::NormAction(a) => push_action_call(a, &mut out),
        NCommand::Check(facts) => push_fact_calls(facts, &mut out),
        NCommand::Run(config) => {
            if let Some(facts) = &config.until {
                push_fact_calls(facts, &mut out);
            }
        },
        _ => {},
    }
    out
}

/// The part of the instrumenter's state that its output depends on.
pub struct PModel {
    pub counter: nat,
    pub gast: Map<Seq<char>, Seq<char>>,
    pub gproof: Map<Seq<char>, Seq<char>>,
    pub created: Seq<Seq<char>>,
}

pub open spec fn pmodel(st: ProofState) -> PModel {
    PModel {
        counter: st.counter as nat,
        gast: st.global_var_ast@,
        gproof: st.global_var_proof@,
        created: syms(st.ast_funcs_created@),
    }
}

/// The declarations of the mirrors of the function that `call` calls, the first time it
/// is seen: its term function, its representative table and its child rule.
#[verifier::opaque]
pub open spec fn mirrors_spec(sigs: Seq<FuncSig>, m: PModel, call: NormExprV) -> Option<(PModel, Seq<CommandV>)> {
    match call_sorts(sigs, call) {
        None => None,
        Some(sorts) => {
            let name = ast_name(call->Call_0, sorts);
            let n = call->Call_1.len();
            if m.created.to_set().contains(name) {
                Some((m, seq![]))
            } else if m.counter + 3 <= u64::MAX && sorts.len() <= i64::MAX && n <= i64::MAX {
                Some((
                    PModel { counter: m.counter + 3, created: m.created.push(name), ..m },
                    seq![
                        CommandV::Function(plain_decl(name, Seq::new(n, |i: int| "Ast__"@), "Ast__"@)),
                        CommandV::Function(
                            FunctionDeclV {
                                name: rep_name(call->Call_0, sorts),
                                schema: SchemaV { input: sorts, output: "TrmPrf__"@ },
                                merge: Some(evar("old"@)),
                                merge_action: merge_action_spec(
                                    proof_fresh(m.counter + 1),
                                    proof_fresh(m.counter + 2),
                                    proof_fresh(m.counter + 3),
                                    sorts.len(),
                                ),
                                default: None,
                                cost: None,
                            },
                        ),
                        getchild_rule_spec(name, n),
                    ],
                ))
            } else {
                None
            }
        },
    }
}

/// The commands that declare the mirrors of a function the first time a call of it is
/// seen: its term function, its representative table and its child rule.
fn function_mirrors(state: &mut ProofState, call: &NormExpr) -> (r: Result<Vec<Command>, ProofError>)
    ensures
        match mirrors_spec(old(state).sigs.funcs@, pmodel(*old(state)), call@) {
            Some((m, out)) => r is Ok && crate::ast::commands_view(r->Ok_0@) == out && pmodel(*final(state)) == m,
            None => r is Err,
        },
        final(state).sigs == old(state).sigs,
        final(state).global_var_ast == old(state).global_var_ast,
        final(state).global_var_proof == old(state).global_var_proof,
        call_sorts(old(state).sigs.funcs@, call@) is None ==> r is Err && r->Err_0 is UnknownFunction,
        r is Ok ==> {
            let sorts = call_sorts(old(state).sigs.funcs@, call@)->Some_0;
            let name = ast_name(call@->Call_0, sorts);
            &&& call_sorts(old(state).sigs.funcs@, call@) is Some
            &&& syms(old(state).ast_funcs_created@).to_set().contains(name) ==> r->Ok_0@.len() == 0
                && final(state).ast_funcs_created == old(state).ast_funcs_created
            &&& !syms(old(state).ast_funcs_created@).to_set().contains(name) ==> {
                &&& syms(final(state).ast_funcs_created@) == syms(old(state).ast_funcs_created@).push(name)
                &&& r->Ok_0@.len() == 3
                &&& r->Ok_0@[0]@ == CommandV::Function(
                    plain_decl(name, Seq::new(call@->Call_1.len(), |i: int| "Ast__"@), "Ast__"@),
                )
                &&& r->Ok_0@[1]@ == CommandV::Function(
                    FunctionDeclV {
                        name: rep_name(call@->Call_0, sorts),
                        schema: SchemaV { input: sorts, output: "TrmPrf__"@ },
                        merge: Some(evar("old"@)),
                        merge_action: merge_action_spec(
                            proof_fresh((old(state).counter + 1) as nat),
                            proof_fresh((old(state).counter + 2) as nat),
                            proof_fresh((old(state).counter + 3) as nat),
                            sorts.len(),
                        ),
                        default: None,
                        cost: None,
                    },
                )
                &&& r->Ok_0@[2]@ == getchild_rule_spec(name, call@->Call_1.len())
            }
        },
{
    proof {
        reveal(mirrors_spec);
    }
    let ast_name = make_ast_version(&state.sigs, call)?;
    let mut r: Vec<Command> = Vec::new();
    if !contains_sym(&state.ast_funcs_created, &ast_name) {
        let ghost created = state.ast_funcs_created@;
        state.ast_funcs_created.push(ast_name);
        assert(syms(state.ast_funcs_created@) =~= syms(created).push(ast_name@));
        r.push(Command::Function(make_ast_function(&state.sigs, call)?));
        r.push(Command::Function(make_rep_function(state, call)?));
        let NormExpr::Call(_, args) = call;
        if args.len() as u64 > 0x7fff_ffff_ffff_ffff {
            return Err(ProofError::Overflow);
        }
        r.push(make_getchild_rule(&state.sigs, call)?);
    }
    Ok(r)
}

fn append_commands(out: &mut Vec<Command>, more: Vec<Command>)
    ensures
        final(out)@.len() == old(out)@.len() + more@.len(),
        crate::ast::commands_view(final(out)@) == crate::ast::commands_view(old(out)@) + crate::ast::commands_view(more@),
{
    let ghost a = out@;
    let ghost b = more@;
    let mut more = more;
    out.append(&mut more);
    assert(crate::ast::commands_view(out@) =~= crate::ast::commands_view(a) + crate::ast::commands_view(b));
}

/// The calls a command makes, in order.
pub open spec fn cmd_calls(c: NCommand) -> Seq<NormExprV> {
    match c {
        NCommand::NormRule { rule, .. } => fact_calls(norm_facts_view(rule.body@)) + actions_calls(
            norm_actions_view(rule.head@),
        ),
        NCommand::NormAction(a) => action_calls(a@),
        NCommand::Check(facts) => fact_calls(norm_facts_view(facts@)),
        NCommand::Run(config) => match config.until {
            Some(facts) => fact_calls(norm_facts_view(facts@)),
            None => seq![],
        },
        _ => seq![],
    }
}

/// The runner of `config`: per iteration a run of the proof rules and one iteration of
/// the user's rules, then a final run of the proof rules.
pub open spec fn runner_seq(config: NormRunConfig) -> Seq<CommandV> {
    Seq::new(
        (2 * config.limit + 1) as nat,
        |k: int| if k % 2 == 0 { proof_run() } else { user_run(config.ruleset@, opt_norm_facts(config.until)) },
    )
}

/// What a command becomes, after the mirrors of its calls, and the state after it.
#[verifier::opaque]
pub open spec fn cmd_out(sigs: Seq<FuncSig>, m: PModel, c: NCommand) -> Option<(PModel, Seq<CommandV>)> {
    match c {
        NCommand::Push(n) => Some((m, seq![CommandV::Push(n)])),
        NCommand::Pop(n) => Some((m, seq![CommandV::Pop(n)])),
        NCommand::Sort(n) => Some((m, seq![CommandV::Sort(n@)])),
        NCommand::Function(d) => Some((m, seq![CommandV::Function(d@)])),
        NCommand::Declare(name, sort) => if m.counter < u64::MAX {
            let p = proof_fresh(m.counter + 1);
            let t = declared_term(name@);
            Some((
                PModel { counter: m.counter + 1, gast: m.gast.insert(name@, t), gproof: m.gproof.insert(name@, p), ..m },
                seq![
                    CommandV::Declare(t, "Ast__"@),
                    CommandV::Action(ActionV::Let(p, ExprV::Call("Original__"@, seq![evar(t)]))),
                    CommandV::Declare(name@, sort@),
                ],
            ))
        } else {
            None
        },
        NCommand::NormRule { ruleset, name, rule } => match instrument_rule_spec(
            sigs,
            m.gast,
            m.counter,
            norm_facts_view(rule.body@),
            norm_actions_view(rule.head@),
            name@,
        ) {
            Some((k, rv)) => Some((PModel { counter: k, ..m }, seq![CommandV::Rule(ruleset@, rv)])),
            None => None,
        },
        NCommand::Run(config) => Some((m, runner_seq(config))),
        NCommand::NormAction(a) => match orig_action_spec(sigs, m, a@) {
            Some((m2, extra)) => Some((m2, seq![CommandV::Action(norm_action_to_action(a@))] + extra)),
            None => None,
        },
        NCommand::Check(fs) => Some(
            (m, seq![CommandV::Check(norm_facts_view(fs@).map_values(|f: NormFactV| norm_fact_to_fact(f)))]),
        ),
        NCommand::Other(c) => Some((m, seq![c@])),
    }
}

/// The mirrors declared for the first `n` calls, in order.
pub open spec fn mirrors_fold(sigs: Seq<FuncSig>, m: PModel, calls: Seq<NormExprV>, n: nat) -> Option<(PModel, Seq<CommandV>)>
    decreases n,
{
    if n == 0 || n > calls.len() {
        Some((m, seq![]))
    } else {
        match mirrors_fold(sigs, m, calls, (n - 1) as nat) {
            None => None,
            Some((m1, out)) => match mirrors_spec(sigs, m1, calls[n - 1]) {
                None => None,
                Some((m2, more)) => Some((m2, out + more)),
            },
        }
    }
}

proof fn lemma_mirrors_none(sigs: Seq<FuncSig>, m: PModel, calls: Seq<NormExprV>, i: nat, j: nat)
    requires
        i <= j <= calls.len(),
        mirrors_fold(sigs, m, calls, i) is None,
    ensures
        mirrors_fold(sigs, m, calls, j) is None,
    decreases j,
{
    if i < j {
        lemma_mirrors_none(sigs, m, calls, i, (j - 1) as nat);
    }
}

/// The instrumenter's output so far: `before` holds what precedes the first push (once
/// there was one), `res` the rest.
pub struct PState {
    pub m: PModel,
    pub pushed: bool,
    pub before: Seq<CommandV>,
    pub res: Seq<CommandV>,
}

/// One command: the mirrors of its calls go before the first push once there was one;
/// the first push opens the part after it; then the command's own output.
#[verifier::opaque]
pub open spec fn prog_step(sigs: Seq<FuncSig>, ps: PState, c: NCommand) -> Option<PState> {
    let calls = cmd_calls(c);
    match mirrors_fold(sigs, ps.m, calls, calls.len()) {
        None => None,
        Some((m1, mir)) => {
            let ps1 = if ps.pushed {
                PState { m: m1, before: ps.before + mir, ..ps }
            } else {
                PState { m: m1, res: ps.res + mir, ..ps }
            };
            let ps2 = if c is Push && !ps1.pushed {
                PState { pushed: true, before: ps1.before + ps1.res, res: seq![], ..ps1 }
            } else {
                ps1
            };
            match cmd_out(sigs, ps2.m, c) {
                None => None,
                Some((m3, out)) => Some(PState { m: m3, res: ps2.res + out, ..ps2 }),
            }
        },
    }
}

pub open spec fn prog_fold(sigs: Seq<FuncSig>, ps: PState, prog: Seq<NCommand>, n: nat) -> Option<PState>
    decreases n,
{
    if n == 0 || n > prog.len() {
        Some(ps)
    } else {
        match prog_fold(sigs, ps, prog, (n - 1) as nat) {
            None => None,
            Some(p) => prog_step(sigs, p, prog[n - 1]),
        }
    }
}

proof fn lemma_prog_none(sigs: Seq<FuncSig>, ps: PState, prog: Seq<NCommand>, i: nat, j: nat)
    requires
        i <= j <= prog.len(),
        prog_fold(sigs, ps, prog, i) is None,
    ensures
        prog_fold(sigs, ps, prog, j) is None,
    decreases j,
{
    if i < j {
        lemma_prog_none(sigs, ps, prog, i, (j - 1) as nat);
    }
}

/// The instrumented program: the header, the primitive mirrors, then each command in turn.
pub open spec fn add_proofs_spec(
    sigs: Seq<FuncSig>,
    header: Seq<CommandV>,
    prim_sorts: Seq<Seq<char>>,
    prog: Seq<NCommand>,
) -> Option<Seq<CommandV>> {
    let init = PState {
        m: PModel { counter: 0, gast: Map::empty(), gproof: Map::empty(), created: seq![] },
        pushed: false,
        before: seq![],
        res: header + prim_decls(prim_sorts, true) + prim_decls(prim_sorts, false),
    };
    match prog_fold(sigs, init, prog, prog.len()) {
        Some(ps) => Some(ps.before + ps.res),
        None => None,
    }
}

/// Instruments one command: declares the mirrors of its calls (before the first push
/// once there was one), opens the part after the first push, and appends the command's
/// instrumented form. Returns whether a push has been seen.
#[verifier::rlimit(60)]
fn instrument_command(
    command: NCommand,
    state: &mut ProofState,
    pushed: bool,
    before: &mut Vec<Command>,
    res: &mut Vec<Command>,
) -> (r: Result<bool, ProofError>)
    ensures
        final(state).sigs == old(state).sigs,
        match prog_step(
            old(state).sigs.funcs@,
            PState {
                m: pmodel(*old(state)),
                pushed,
                before: crate::ast::commands_view(old(before)@),
                res: crate::ast::commands_view(old(res)@),
            },
            command,
        ) {
            Some(ps) => r == Ok::<bool, ProofError>(ps.pushed) && pmodel(*final(state)) == ps.m
                && crate::ast::commands_view(final(before)@) == ps.before && crate::ast::commands_view(final(res)@)
                == ps.res,
            None => r is Err,
        },
{
    proof {
        reveal(prog_step);
        reveal(cmd_out);
    }
    let ghost sg = state.sigs.funcs@;
    let ghost ps0 = PState {
        m: pmodel(*state),
        pushed,
        before: crate::ast::commands_view(before@),
        res: crate::ast::commands_view(res@),
    };
    let calls = command_calls(&command);
    let ghost callsv = norm_exprs_view(calls@);
    assert(ps0.before + Seq::<CommandV>::empty() =~= ps0.before);
    assert(ps0.res + Seq::<CommandV>::empty() =~= ps0.res);
    let mut c: usize = 0;
    while c < calls.len()
        invariant
            sg == state.sigs.funcs@,
            sg == old(state).sigs.funcs@,
            state.sigs == old(state).sigs,
            ps0 == (PState {
                m: pmodel(*old(state)),
                pushed,
                before: crate::ast::commands_view(old(before)@),
                res: crate::ast::commands_view(old(res)@),
            }),
            callsv == norm_exprs_view(calls@),
            callsv == cmd_calls(command),
            c <= calls@.len(),
            mirrors_fold(sg, ps0.m, callsv, c as nat) is Some,
            ({
                let (mm, mir) = mirrors_fold(sg, ps0.m, callsv, c as nat)->Some_0;
                &&& pmodel(*state) == mm
                &&& pushed ==> crate::ast::commands_view(before@) == ps0.before + mir && crate::ast::commands_view(res@)
                    == ps0.res
                &&& !pushed ==> crate::ast::commands_view(res@) == ps0.res + mir && crate::ast::commands_view(before@)
                    == ps0.before
            }),
        decreases calls.len() - c,
    {
        assert(callsv[c as int] == calls@[c as int]@);
        let ghost mprev = mirrors_fold(sg, ps0.m, callsv, c as nat)->Some_0;
        let mirrors = match function_mirrors(state, &calls[c]) {
            Ok(x) => x,
            Err(e) => {
                proof {
                    reveal(prog_step);
                    lemma_mirrors_none(sg, ps0.m, callsv, (c + 1) as nat, callsv.len());
                    assert(mirrors_fold(sg, ps0.m, callsv, callsv.len()) is None);
                    assert(cmd_calls(command).len() == callsv.len());
                }
                return Err(e);
            },
        };
        let ghost m = crate::ast::commands_view(mirrors@);
        if pushed {
            append_commands(before, mirrors);
            assert(ps0.before + mprev.1 + m =~= ps0.before + (mprev.1 + m));
        } else {
            append_commands(res, mirrors);
            assert(ps0.res + mprev.1 + m =~= ps0.res + (mprev.1 + m));
        }
        c += 1;
    }
    let mut pushed = pushed;
    if !pushed {
        if let NCommand::Push(_) = &command {
            pushed = true;
            let ghost b = crate::ast::commands_view(before@);
            let ghost rr = crate::ast::commands_view(res@);
            let mut moved: Vec<Command> = Vec::new();
            std::mem::swap(res, &mut moved);
            append_commands(before, moved);
            assert(crate::ast::commands_view(res@) =~= Seq::<CommandV>::empty());
        }
    }
    let ghost m0 = pmodel(*state);
    let ghost b2 = crate::ast::commands_view(before@);
    let ghost r2 = crate::ast::commands_view(res@);
    let mut out: Vec<Command> = Vec::new();
    match command {
        NCommand::Push(n) => out.push(Command::Push(n)),
        NCommand::Pop(n) => out.push(Command::Pop(n)),
        NCommand::Sort(name) => out.push(Command::Sort(name)),
        NCommand::Function(decl) => out.push(Command::Function(decl)),
        NCommand::Declare(name, sort) => {
            let decls = make_declare_proof(&name, state)?;
            append_commands(&mut out, decls);
            out.push(Command::Declare(name, sort));
        },
        NCommand::NormRule { ruleset, name, rule } => {
            let instrumented = instrument_rule(&rule, &name, state)?;
            out.push(Command::Rule(ruleset, instrumented));
        },
        NCommand::Run(config) => {
            let runs = make_runner(&config);
            append_commands(&mut out, runs);
        },
        NCommand::NormAction(action) => {
            out.push(Command::Action(action.to_action()));
            let extra = proof_original_action(&action, state)?;
            append_commands(&mut out, extra);
        },
        NCommand::Check(facts) => out.push(Command::Check(norm_facts_to_facts(&facts))),
        NCommand::Other(c) => out.push(c),
    }
    let ghost o = crate::ast::commands_view(out@);
    assert(cmd_out(sg, m0, command) == Some((pmodel(*state), o))) by {
        assert(o =~= cmd_out(sg, m0, command)->Some_0.1);
    }
    append_commands(res, out);
    Ok(pushed)
}

/// Instruments a program for proofs. The result starts with `header` (the fixed proof
/// preamble) and the mirrors of the primitive sorts `prim_sorts`, then each command in turn
/// as `prog_step` says: the mirrors of every function a command calls are declared once,
/// before the first `push` when there is one; each rule becomes its instrumented form, whose
/// proof `Rule__` carries the rule's name; each run becomes the runner commands; each
/// top-level action is followed by its proof commands. The result is surface syntax, to be
/// desugared and type-checked again.
pub fn add_proofs(
    program: Vec<NCommand>,
    header: Vec<Command>,
    prim_sorts: &Vec<String>,
    sigs: Signatures,
) -> (r: Result<Vec<Command>, ProofError>)
    ensures
        match add_proofs_spec(sigs.funcs@, crate::ast::commands_view(header@), syms(prim_sorts@), program@) {
            Some(out) => r is Ok && crate::ast::commands_view(r->Ok_0@) == out,
            None => r is Err,
        },
{
    let ghost sg = sigs.funcs@;
    let ghost prog0 = program@;
    let ghost init = PState {
        m: PModel { counter: 0, gast: Map::empty(), gproof: Map::empty(), created: seq![] },
        pushed: false,
        before: seq![],
        res: crate::ast::commands_view(header@) + prim_decls(syms(prim_sorts@), true) + prim_decls(syms(prim_sorts@), false),
    };
    let mut state = ProofState::new(sigs);
    let mut res: Vec<Command> = header;
    let prims = setup_primitives(prim_sorts);
    append_commands(&mut res, prims);
    let mut pushed = false;
    let mut before: Vec<Command> = Vec::new();
    let total: usize = program.len();
    let mut i: usize = 0;
    let mut rest = program;
    proof {
        assert(syms(state.ast_funcs_created@) =~= seq![]);
        assert(crate::ast::commands_view(before@) =~= seq![]);
        assert(crate::ast::commands_view(res@) =~= init.res);
    }
    while rest.len() > 0
        invariant
            prog0 == program@,
            prog0.len() == total as nat,
            i + rest@.len() == total as nat,
            forall|j: int| 0 <= j < rest@.len() ==> (#[trigger] rest@[j]) == prog0[i + j],
            sg == state.sigs.funcs@,
            sg == sigs.funcs@,
            init.m == (PModel { counter: 0, gast: Map::empty(), gproof: Map::empty(), created: seq![] }),
            init.pushed == false,
            init.before == Seq::<CommandV>::empty(),
            init.res == crate::ast::commands_view(header@) + prim_decls(syms(prim_sorts@), true) + prim_decls(syms(prim_sorts@), false),
            prog_fold(sg, init, prog0, i as nat) == Some(PState {
                m: pmodel(state),
                pushed,
                before: crate::ast::commands_view(before@),
                res: crate::ast::commands_view(res@),
            }),
        decreases rest@.len(),
    {
        let ghost rest_before = rest@;
        let command = rest.remove(0);
        assert(command == prog0[i as int]);
        assert forall|j: int| 0 <= j < rest@.len() implies (#[trigger] rest@[j]) == prog0[i + 1 + j] by {
            assert(rest@[j] == rest_before[j + 1]);
        }
        match instrument_command(command, &mut state, pushed, &mut before, &mut res) {
            Ok(p) => {
                pushed = p;
            },
            Err(e) => {
                proof {
                    assert(prog_fold(sg, init, prog0, (i + 1) as nat) is None);
                    lemma_prog_none(sg, init, prog0, (i + 1) as nat, prog0.len());
                }
                return Err(e);
            },
        }
        i += 1;
    }
    let ghost bv = crate::ast::commands_view(before@);
    let ghost rv = crate::ast::commands_view(res@);
    append_commands(&mut before, res);
    Ok(before)
}

/// Whether a program is to be instrumented: every program is.
pub fn should_add_proofs(program: &Vec<NCommand>) -> (r: bool)
    ensures
        r,
{
    true
}

/// In an instrumented rule the rule's name is bound as a string literal, and the next
/// action builds the firing's proof `Rule__(premises, name)` from that binding.
pub proof fn lemma_rule_name_reaches_proof(
    sigs: Seq<FuncSig>,
    gast: Map<Seq<char>, Seq<char>>,
    k0: nat,
    body: Seq<NormFactV>,
    head: Seq<NormActionV>,
    name: Seq<char>,
)
    requires
        instrument_rule_spec(sigs, gast, k0, body, head, name) is Some,
    ensures
        ({
            let out = instrument_rule_spec(sigs, gast, k0, body, head, name)->Some_0.1;
            exists|j: int|
                0 <= j && j + 1 < out.head.len() && (#[trigger] out.head[j]) is Let && out.head[j]->Let_1
                    == ExprV::Lit(LitV::Str(name)) && out.head[j + 1] is Let && out.head[j + 1]->Let_1 is Call
                    && out.head[j + 1]->Let_1->Call_0 == "Rule__"@ && out.head[j + 1]->Let_1->Call_1.len() == 2
                    && out.head[j + 1]->Let_1->Call_1[1] == evar(out.head[j]->Let_0)
        }),
{
    reveal(instrument_rule_spec);
    let w = instrument_facts_spec(sigs, gast, k0, body)->Ok_0;
    let (acts, k, cur) = premise_chain_m(gast, w.term, w.proof, body, body.len(), w.next);
    let c = proof_fresh(k + 1);
    let rp = proof_fresh(k + 2);
    let hacts = heads_proof(sigs, gast, w.term, proof_fresh(k + 2), k + 2, head, head.len())->Some_0.1;
    let rpa = rule_proof_actions_m(gast, w.term, w.proof, body, name, w.next);
    let all = head + w.acts + rpa + hacts;
    let j: int = (head.len() + w.acts.len() + acts.len()) as int;
    assert(all[j] == NormActionV::LetLit(c, LitV::Str(name)));
    assert(all[j + 1] == NormActionV::Let(rp, NormExprV::Call("Rule__"@, seq![cur, c])));
    let out = instrument_rule_spec(sigs, gast, k0, body, head, name)->Some_0.1;
    assert(out.head[j] == ActionV::Let(c, ExprV::Lit(LitV::Str(name))));
    assert(seq![cur, c].map_values(|x: Seq<char>| evar(x)) =~= seq![evar(cur), evar(c)]);
    assert(out.head[j + 1] == ActionV::Let(rp, ExprV::Call("Rule__"@, seq![evar(cur), evar(c)])));
}

} // verus!
