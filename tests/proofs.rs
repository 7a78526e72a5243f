use egglog::ast::{
    Action, Command, Expr, Fact, FunctionDecl, Literal, NCommand, NormAction, NormExpr, NormFact,
    NormRule, NormRunConfig, RunConfig, Schema,
};
use egglog::proofs::{add_proofs, should_add_proofs, FuncSig, ProofError, Signatures};

fn s(x: &str) -> String {
    x.to_string()
}

fn var(x: &str) -> Expr {
    Expr::Var(s(x))
}

fn call(f: &str, args: Vec<Expr>) -> Expr {
    Expr::Call(s(f), args)
}

fn sigs() -> Signatures {
    Signatures {
        funcs: vec![
            FuncSig { name: s("foo"), input: vec![s("i64")], output: s("i64"), primitive: false },
            FuncSig { name: s("+"), input: vec![s("i64"), s("i64")], output: s("i64"), primitive: true },
        ],
    }
}

fn foo_decl() -> FunctionDecl {
    FunctionDecl {
        name: s("foo"),
        schema: Schema { input: vec![s("i64")], output: s("i64") },
        merge: None,
        merge_action: vec![],
        default: None,
        cost: None,
    }
}

fn header() -> Vec<Command> {
    vec![Command::Sort(s("Ast__")), Command::Sort(s("TrmPrf__"))]
}

fn prefix_ok(out: &[Command]) {
    assert_eq!(out[0], Command::Sort(s("Ast__")));
    assert_eq!(out[1], Command::Sort(s("TrmPrf__")));
    match &out[2] {
        Command::Function(d) => {
            assert_eq!(d.name, "Asti64__");
            assert_eq!(d.schema, Schema { input: vec![s("i64")], output: s("Ast__") });
        }
        other => panic!("expected the term mirror of i64, got {:?}", other),
    }
    match &out[3] {
        Command::Function(d) => {
            assert_eq!(d.name, "Repi64__");
            assert_eq!(d.schema, Schema { input: vec![s("i64")], output: s("TrmPrf__") });
        }
        other => panic!("expected the representative of i64, got {:?}", other),
    }
}

#[test]
fn set_at_top_level_records_an_original_term() {
    let program = vec![
        NCommand::Function(foo_decl()),
        NCommand::NormAction(NormAction::LetLit(s("v1"), Literal::Int(1))),
        NCommand::NormAction(NormAction::LetLit(s("v2"), Literal::Int(2))),
        NCommand::NormAction(NormAction::SetValue(NormExpr::Call(s("foo"), vec![s("v1")]), s("v2"))),
        NCommand::Check(vec![
            NormFact::AssignLit(s("a"), Literal::Int(1)),
            NormFact::Assign(s("b"), NormExpr::Call(s("foo"), vec![s("a")])),
            NormFact::AssignLit(s("c"), Literal::Int(2)),
            NormFact::ConstrainEq(s("b"), s("c")),
        ]),
    ];
    let out = add_proofs(program, header(), &vec![s("i64")], sigs()).unwrap();
    prefix_ok(&out);
    assert_eq!(out[4], Command::Function(foo_decl()));
    let original = |t: &str| call("MakeTrmPrf__", vec![var(t), call("Original__", vec![var(t)])]);
    // the literal 1 gets its term prf1__
    assert!(out.contains(&Command::Action(Action::Let(s("prf1__"), call("Asti64__", vec![Expr::Lit(Literal::Int(1))])))));
    assert!(out.contains(&Command::Action(Action::SetValue(s("Repi64__"), vec![Expr::Lit(Literal::Int(1))], original("prf1__")))));
    // the mirrors of foo
    let rep = out.iter().find_map(|c| match c {
        Command::Function(d) if d.name == "Repfoo_i64__" => Some(d),
        _ => None,
    });
    let rep = rep.expect("representative table of foo");
    assert_eq!(rep.merge, Some(var("old")));
    assert_eq!(rep.schema, Schema { input: vec![s("i64")], output: s("TrmPrf__") });
    assert_eq!(rep.merge_action[0], Action::Let(s("prf3__"), call("TrmOf__", vec![var("old")])));
    assert_eq!(rep.merge_action.len(), 3 + 2 + 3);
    assert_eq!(
        rep.merge_action[rep.merge_action.len() - 1],
        Action::SetValue(s("EqGraph__"), vec![var("prf4__"), var("prf3__")], call("Flip__", vec![var("congr_prf__")]))
    );
    // foo(1) gets the term Astfoo_i64__(prf1__) and the proof Original__
    assert!(out.contains(&Command::Action(Action::Let(s("prf7__"), call("Astfoo_i64__", vec![var("prf1__")])))));
    assert!(out.contains(&Command::Action(Action::SetValue(s("Repfoo_i64__"), vec![var("v1")], original("prf7__")))));
    assert!(out.contains(&Command::Action(Action::SetValue(
        s("EqGraph__"),
        vec![var("prf7__"), var("prf2__")],
        call("OriginalEq__", vec![var("prf7__"), var("prf2__")])
    ))));
    assert!(out.contains(&Command::Action(Action::SetValue(
        s("EqGraph__"),
        vec![var("prf2__"), var("prf7__")],
        call("Flip__", vec![call("OriginalEq__", vec![var("prf7__"), var("prf2__")])])
    ))));
    // the user's own action and check are kept
    assert!(out.contains(&Command::Action(Action::SetValue(s("foo"), vec![var("v1")], var("v2")))));
    assert_eq!(
        out.last().unwrap(),
        &Command::Check(vec![
            Fact::Eq(vec![var("a"), Expr::Lit(Literal::Int(1))]),
            Fact::Eq(vec![var("b"), call("foo", vec![var("a")])]),
            Fact::Eq(vec![var("c"), Expr::Lit(Literal::Int(2))]),
            Fact::Eq(vec![var("b"), var("c")]),
        ])
    );
}

#[test]
fn rule_keeps_its_own_facts_and_actions_first() {
    let rule = NormRule {
        body: vec![NormFact::Assign(s("x"), NormExpr::Call(s("foo"), vec![s("y")]))],
        head: vec![NormAction::Union(s("x"), s("y"))],
    };
    let program = vec![NCommand::NormRule { ruleset: s("rs"), name: s("comm"), rule }];
    let out = add_proofs(program, header(), &vec![], sigs()).unwrap();
    let r = match out.last().unwrap() {
        Command::Rule(rs, r) => {
            assert_eq!(rs, "rs");
            r
        }
        other => panic!("expected a rule, got {:?}", other),
    };
    assert_eq!(r.body[0], Fact::Eq(vec![var("x"), call("foo", vec![var("y")])]));
    assert_eq!(r.head[0], Action::Union(var("x"), var("y")));
    // the representative of foo(y) is looked up in the body
    assert!(matches!(&r.body[1], Fact::Eq(es) if matches!(&es[1], Expr::Call(f, _) if f == "Repfoo_i64__")));
    // the rule's name is carried into its proof
    assert!(r.head.iter().any(|a| matches!(a, Action::Let(_, Expr::Lit(Literal::String(n))) if n == "comm")));
    // the union is recorded in both directions: the rule's proof, then its flip
    let n = r.head.len();
    match (&r.head[n - 3], &r.head[n - 2], &r.head[n - 1]) {
        (Action::Let(flipped, Expr::Call(flip, flip_args)), Action::SetValue(g1, a1, proof1), Action::SetValue(g2, a2, proof2)) => {
            assert_eq!(flip, "Flip__");
            assert_eq!(flip_args, &vec![proof1.clone_var()]);
            assert_eq!(g1, "EqGraph__");
            assert_eq!(g2, "EqGraph__");
            assert_eq!(a1[0], a2[1]);
            assert_eq!(a1[1], a2[0]);
            assert_eq!(proof2, &var(flipped));
        }
        other => panic!("expected a flip and two equality-graph writes, got {:?}", other),
    }
}

trait CloneVar {
    fn clone_var(&self) -> Expr;
}

impl CloneVar for Expr {
    fn clone_var(&self) -> Expr {
        match self {
            Expr::Var(v) => Expr::Var(v.clone()),
            other => panic!("expected a variable, got {:?}", other),
        }
    }
}

#[test]
fn constraint_without_terms_is_an_error() {
    let rule = NormRule { body: vec![NormFact::ConstrainEq(s("p"), s("q"))], head: vec![] };
    let program = vec![NCommand::NormRule { ruleset: s("rs"), name: s("r"), rule }];
    let r = add_proofs(program, header(), &vec![], sigs());
    assert_eq!(r, Err(ProofError::Unconstrained(s("p"), s("q"))));
}

#[test]
fn unknown_function_is_an_error() {
    let program = vec![NCommand::NormAction(NormAction::Let(s("v"), NormExpr::Call(s("bar"), vec![])))];
    let r = add_proofs(program, header(), &vec![], sigs());
    assert_eq!(r, Err(ProofError::UnknownFunction(s("bar"))));
}

#[test]
fn unbound_top_level_variable_is_an_error() {
    let program = vec![NCommand::NormAction(NormAction::Union(s("u"), s("w")))];
    let r = add_proofs(program, header(), &vec![], sigs());
    assert_eq!(r, Err(ProofError::UnboundVariable(s("u"))));
}

#[test]
fn run_interleaves_proof_rules() {
    let program = vec![NCommand::Run(NormRunConfig { ruleset: s("rs"), limit: 2, until: None })];
    let out = add_proofs(program, header(), &vec![], sigs()).unwrap();
    let proof_run = || Command::Run(RunConfig { ruleset: s("proofrules__"), limit: 100, until: None });
    let user_run = || Command::Run(RunConfig { ruleset: s("rs"), limit: 1, until: None });
    assert_eq!(out[2..], [proof_run(), user_run(), proof_run(), user_run(), proof_run()]);
}

#[test]
fn declare_binds_a_global_term() {
    let program = vec![NCommand::Declare(s("c"), s("S"))];
    let out = add_proofs(program, header(), &vec![], sigs()).unwrap();
    assert_eq!(
        out[2..],
        [
            Command::Declare(s("Astc___"), s("Ast__")),
            Command::Action(Action::Let(s("prf1__"), call("Original__", vec![var("Astc___")]))),
            Command::Declare(s("c"), s("S")),
        ]
    );
}

#[test]
fn mirrors_declared_after_push_go_before_it() {
    let program = vec![
        NCommand::Function(foo_decl()),
        NCommand::Push(1),
        NCommand::NormAction(NormAction::LetLit(s("one"), Literal::Int(1))),
        NCommand::NormAction(NormAction::Let(s("v"), NormExpr::Call(s("foo"), vec![s("one")]))),
    ];
    let out = add_proofs(program, header(), &vec![], sigs()).unwrap();
    let push_at = out.iter().position(|c| *c == Command::Push(1)).unwrap();
    let ast_at = out
        .iter()
        .position(|c| matches!(c, Command::Function(d) if d.name == "Astfoo_i64__"))
        .unwrap();
    assert!(ast_at < push_at);
    let getchild_at = out
        .iter()
        .position(|c| matches!(c, Command::Rule(rs, _) if rs == "proofrules__"))
        .unwrap();
    assert!(getchild_at < push_at);
    match &out[getchild_at] {
        Command::Rule(_, r) => {
            assert_eq!(r.body, vec![Fact::Eq(vec![var("ast__"), call("Astfoo_i64__", vec![var("c0__")])])]);
            assert_eq!(
                r.head,
                vec![Action::SetValue(s("GetChild__"), vec![var("ast__"), Expr::Lit(Literal::Int(0))], var("c0__"))]
            );
        }
        _ => unreachable!(),
    }
}

#[test]
fn primitive_calls_compute_their_proofs() {
    let rule = NormRule {
        body: vec![
            NormFact::AssignLit(s("a"), Literal::Int(1)),
            NormFact::AssignLit(s("b"), Literal::Int(2)),
            NormFact::Assign(s("c"), NormExpr::Call(s("+"), vec![s("a"), s("b")])),
        ],
        head: vec![],
    };
    let program = vec![NCommand::NormRule { ruleset: s("rs"), name: s("sum"), rule }];
    let out = add_proofs(program, header(), &vec![s("i64")], sigs()).unwrap();
    let r = match out.last().unwrap() {
        Command::Rule(_, r) => r,
        other => panic!("expected a rule, got {:?}", other),
    };
    assert_eq!(r.body.len(), 3);
    assert!(r.head.iter().any(|a| matches!(a, Action::Let(_, Expr::Call(f, args)) if f == "Ast+_i64_i64__" && args.len() == 2)));
    let computed = r.head.iter().filter(|a| matches!(a, Action::Let(_, Expr::Call(f, _)) if f == "ComputePrim__")).count();
    assert_eq!(computed, 3);
}

#[test]
fn every_program_gets_proofs() {
    assert!(should_add_proofs(&vec![]));
    assert!(should_add_proofs(&vec![NCommand::Push(1)]));
}

#[test]
fn plain_program_is_kept_after_the_preamble() {
    let program = vec![
        NCommand::Sort(s("S")),
        NCommand::Push(1),
        NCommand::Check(vec![NormFact::ConstrainEq(s("a"), s("b"))]),
        NCommand::Pop(1),
        NCommand::Other(Command::Sort(s("T"))),
    ];
    let out = add_proofs(program, header(), &vec![], sigs()).unwrap();
    assert_eq!(
        out,
        vec![
            Command::Sort(s("Ast__")),
            Command::Sort(s("TrmPrf__")),
            Command::Sort(s("S")),
            Command::Push(1),
            Command::Check(vec![Fact::Eq(vec![var("a"), var("b")])]),
            Command::Pop(1),
            Command::Sort(s("T")),
        ]
    );
}
