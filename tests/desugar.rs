use egglog::ast::{
    Action, Command, Expr, Fact, FlatRule, Literal, Rewrite, Rule, SSAAction, SSAExpr, SSAFact,
    Schema, Variant,
};
use egglog::desugar::{
    desugar_command, desugar_program, expr_size_checked, flatten_rule, program_desugarable_check,
    rule_flattenable_check, to_rules, DesugarError,
};

fn s(x: &str) -> String {
    x.to_string()
}

fn var(x: &str) -> Expr {
    Expr::Var(s(x))
}

fn call(f: &str, args: Vec<Expr>) -> Expr {
    Expr::Call(s(f), args)
}

fn names(xs: &[&str]) -> Vec<String> {
    xs.iter().map(|x| s(x)).collect()
}

fn assign(v: &str, f: &str, args: &[&str]) -> SSAFact {
    SSAFact::Assign(s(v), SSAExpr::Call(s(f), names(args)))
}

fn ceq(a: &str, b: &str) -> SSAFact {
    SSAFact::ConstrainEq(s(a), s(b))
}

fn add_rewrite() -> Rewrite {
    Rewrite {
        lhs: call("Add", vec![var("a"), var("b")]),
        rhs: call("Add", vec![var("b"), var("a")]),
        conditions: vec![],
    }
}

#[test]
fn datatype_desugars_to_sort_and_constructors() {
    let cmd = Command::Datatype {
        name: s("Expr"),
        variants: vec![
            Variant { name: s("Num"), types: names(&["i64"]), cost: None },
            Variant { name: s("Add"), types: names(&["Expr", "Expr"]), cost: Some(2) },
        ],
    };
    let out = desugar_command(cmd, None).unwrap();
    assert_eq!(out.len(), 3);
    assert_eq!(out[0], Command::Sort(s("Expr")));
    match &out[1] {
        Command::Function(d) => {
            assert_eq!(d.name, "Num");
            assert_eq!(d.schema, Schema { input: names(&["i64"]), output: s("Expr") });
            assert!(d.merge.is_none());
            assert!(d.merge_action.is_empty());
            assert!(d.default.is_none());
            assert_eq!(d.cost, None);
        }
        other => panic!("expected a function, got {:?}", other),
    }
    match &out[2] {
        Command::Function(d) => {
            assert_eq!(d.name, "Add");
            assert_eq!(d.schema, Schema { input: names(&["Expr", "Expr"]), output: s("Expr") });
            assert_eq!(d.cost, Some(2));
        }
        other => panic!("expected a function, got {:?}", other),
    }
}

#[test]
fn datatype_without_variants_is_just_a_sort() {
    let out = desugar_command(Command::Datatype { name: s("Empty"), variants: vec![] }, None).unwrap();
    assert_eq!(out, vec![Command::Sort(s("Empty"))]);
}

#[test]
fn rewrite_flattens_to_one_union() {
    let out = desugar_command(Command::Rewrite(s("rs"), add_rewrite()), None).unwrap();
    assert_eq!(out.len(), 1);
    let expected = FlatRule {
        body: vec![assign("fvar5__", "Add", &["a", "b"]), ceq("rewrite_var__", "fvar5__")],
        head: vec![
            SSAAction::LetVar(s("fvar1__"), s("rewrite_var__")),
            SSAAction::LetVar(s("fvar3__"), s("b")),
            SSAAction::LetVar(s("fvar4__"), s("a")),
            SSAAction::Let(s("fvar2__"), SSAExpr::Call(s("Add"), names(&["fvar3__", "fvar4__"]))),
            SSAAction::Union(s("fvar1__"), s("fvar2__")),
        ],
    };
    assert_eq!(out[0], Command::FlatRule(s("rs"), expected));
    if let Command::FlatRule(_, r) = &out[0] {
        let unions = r.head.iter().filter(|a| matches!(a, SSAAction::Union(..))).count();
        assert_eq!(unions, 1);
    }
}

#[test]
fn birewrite_gives_rule_and_mirror() {
    let out = desugar_command(Command::BiRewrite(s("rs"), add_rewrite()), None).unwrap();
    assert_eq!(out.len(), 2);
    let mirror = FlatRule {
        body: vec![assign("fvar5__", "Add", &["b", "a"]), ceq("rewrite_var__", "fvar5__")],
        head: vec![
            SSAAction::LetVar(s("fvar1__"), s("rewrite_var__")),
            SSAAction::LetVar(s("fvar3__"), s("a")),
            SSAAction::LetVar(s("fvar4__"), s("b")),
            SSAAction::Let(s("fvar2__"), SSAExpr::Call(s("Add"), names(&["fvar3__", "fvar4__"]))),
            SSAAction::Union(s("fvar1__"), s("fvar2__")),
        ],
    };
    let single = desugar_command(Command::Rewrite(s("rs"), add_rewrite()), None).unwrap();
    assert_eq!(out[0], single[0]);
    assert_eq!(out[1], Command::FlatRule(s("rs"), mirror));
}

#[test]
fn shared_variable_rule_has_one_binder_per_variable() {
    let rule = Rule {
        body: vec![Fact::Eq(vec![call("f", vec![var("x")]), call("g", vec![var("x")])])],
        head: vec![Action::Union(call("f", vec![var("x")]), call("g", vec![var("x")]))],
    };
    let flat = flatten_rule(rule);
    assert_eq!(
        flat.body,
        vec![
            assign("fvar6__", "f", &["x"]),
            ceq("fvar5__", "fvar6__"),
            ceq("fvar7__", "x"),
            assign("fvar8__", "g", &["fvar7__"]),
            ceq("fvar5__", "fvar8__"),
        ]
    );
    let assigns: Vec<&String> = flat
        .body
        .iter()
        .filter_map(|f| match f {
            SSAFact::Assign(v, _) => Some(v),
            _ => None,
        })
        .collect();
    assert_eq!(assigns.len(), 2);
    assert_ne!(assigns[0], assigns[1]);
    assert_eq!(
        flat.head,
        vec![
            SSAAction::LetVar(s("fvar2__"), s("x")),
            SSAAction::Let(s("fvar1__"), SSAExpr::Call(s("f"), names(&["fvar2__"]))),
            SSAAction::LetVar(s("fvar4__"), s("x")),
            SSAAction::Let(s("fvar3__"), SSAExpr::Call(s("g"), names(&["fvar4__"]))),
            SSAAction::Union(s("fvar1__"), s("fvar3__")),
        ]
    );
}

#[test]
fn literals_and_bare_facts_get_fresh_names() {
    let rule = Rule {
        body: vec![Fact::Fact(call("h", vec![Expr::Lit(Literal::Int(7))]))],
        head: vec![Action::Panic(s("stop"))],
    };
    let flat = flatten_rule(rule);
    assert_eq!(flat.head, vec![SSAAction::Panic(s("stop"))]);
    assert_eq!(
        flat.body,
        vec![
            SSAFact::Assign(s("fvar2__"), SSAExpr::Lit(Literal::Int(7))),
            assign("fvar3__", "h", &["fvar2__"]),
            ceq("fvar1__", "fvar3__"),
        ]
    );
}

#[test]
fn repeated_variable_in_one_equality_is_constrained_afterwards() {
    let rule = Rule { body: vec![Fact::Eq(vec![var("y"), call("p", vec![var("x"), var("x")])])], head: vec![] };
    let flat = flatten_rule(rule);
    assert_eq!(
        flat.body,
        vec![assign("fvar2__", "p", &["x", "fvar1__"]), ceq("fvar1__", "x"), ceq("y", "fvar2__")]
    );
}

#[test]
fn set_delete_let_and_expr_actions_flatten() {
    let rule = Rule {
        body: vec![],
        head: vec![
            Action::Let(s("v"), Expr::Lit(Literal::Bool(true))),
            Action::SetValue(s("t"), vec![var("v")], Expr::Lit(Literal::Int(3))),
            Action::Delete(s("t"), vec![var("v")]),
            Action::Expr(call("k", vec![])),
        ],
    };
    let flat = flatten_rule(rule);
    assert_eq!(
        flat.head,
        vec![
            SSAAction::Let(s("fvar1__"), SSAExpr::Lit(Literal::Bool(true))),
            SSAAction::LetVar(s("v"), s("fvar1__")),
            SSAAction::LetVar(s("fvar2__"), s("v")),
            SSAAction::Let(s("fvar3__"), SSAExpr::Lit(Literal::Int(3))),
            SSAAction::SetValue(s("t"), names(&["fvar2__"]), s("fvar3__")),
            SSAAction::LetVar(s("fvar4__"), s("v")),
            SSAAction::Delete(s("t"), names(&["fvar4__"])),
            SSAAction::Let(s("fvar5__"), SSAExpr::Call(s("k"), vec![])),
        ]
    );
    assert!(flat.body.is_empty());
}

#[test]
fn other_commands_pass_through() {
    for c in [
        Command::Sort(s("S")),
        Command::Push(1),
        Command::Pop(1),
        Command::Declare(s("x"), s("S")),
        Command::Action(Action::Panic(s("m"))),
    ] {
        let expected = vec![match &c {
            Command::Sort(n) => Command::Sort(n.clone()),
            Command::Push(n) => Command::Push(*n),
            Command::Pop(n) => Command::Pop(*n),
            Command::Declare(a, b) => Command::Declare(a.clone(), b.clone()),
            _ => Command::Action(Action::Panic(s("m"))),
        }];
        assert_eq!(desugar_command(c, None).unwrap(), expected);
    }
}

#[test]
fn include_inlines_loaded_commands() {
    let out = desugar_command(Command::Include(s("f.egg")), Some(Ok(vec![Command::Sort(s("T"))]))).unwrap();
    assert_eq!(out, vec![Command::Sort(s("T"))]);
    let err = desugar_command(Command::Include(s("f.egg")), Some(Err(DesugarError::Io(s("f.egg")))));
    assert_eq!(err, Err(DesugarError::Io(s("f.egg"))));
}

#[test]
fn program_stops_at_first_error() {
    let program = vec![
        Command::Sort(s("A")),
        Command::Include(s("missing.egg")),
        Command::Sort(s("B")),
    ];
    let r = desugar_program(program, vec![Err(DesugarError::Io(s("missing.egg")))]);
    assert_eq!(r, Err(DesugarError::Io(s("missing.egg"))));

    let program = vec![
        Command::Sort(s("A")),
        Command::Include(s("one.egg")),
        Command::Datatype { name: s("D"), variants: vec![] },
    ];
    let r = desugar_program(program, vec![Ok(vec![Command::Push(1), Command::Pop(1)])]).unwrap();
    assert_eq!(
        r,
        vec![Command::Sort(s("A")), Command::Push(1), Command::Pop(1), Command::Sort(s("D"))]
    );
}

#[test]
fn to_rules_restates_flat_rules() {
    let out = desugar_command(Command::Rewrite(s("rs"), add_rewrite()), None).unwrap();
    let rules = to_rules(out);
    match &rules[0] {
        Command::Rule(rs, r) => {
            assert_eq!(rs, "rs");
            assert_eq!(
                r.body,
                vec![
                    Fact::Eq(vec![var("fvar5__"), call("Add", vec![var("a"), var("b")])]),
                    Fact::Eq(vec![var("rewrite_var__"), var("fvar5__")]),
                ]
            );
            assert_eq!(r.head.len(), 5);
            assert_eq!(r.head[0], Action::Let(s("fvar1__"), var("rewrite_var__")));
            assert_eq!(r.head[4], Action::Union(var("fvar1__"), var("fvar2__")));
        }
        other => panic!("expected a rule, got {:?}", other),
    }
    assert_eq!(to_rules(vec![Command::Sort(s("S"))]), vec![Command::Sort(s("S"))]);
}

#[test]
fn counters_past_nine_render_in_decimal() {
    let args = || (0..5).map(|i| Expr::Lit(Literal::Int(i))).collect::<Vec<Expr>>();
    let rule = Rule { body: vec![], head: vec![Action::Expr(call("w", args())), Action::Expr(call("w", args()))] };
    let flat = flatten_rule(rule);
    assert_eq!(flat.head.last().unwrap(), &SSAAction::Let(s("fvar7__"), SSAExpr::Call(s("w"), names(&["fvar8__", "fvar9__", "fvar10__", "fvar11__", "fvar12__"]))));
}

#[test]
fn include_parse_error_propagates() {
    let r = desugar_command(Command::Include(s("bad.egg")), Some(Err(DesugarError::Parse(s("unexpected )")))));
    assert_eq!(r, Err(DesugarError::Parse(s("unexpected )"))));
}

#[test]
fn desugarable_check_rejects_ternary_equalities() {
    let good = Rule { body: vec![Fact::Eq(vec![var("a"), var("b")])], head: vec![] };
    assert!(rule_flattenable_check(&good));
    let bad = Rule { body: vec![Fact::Eq(vec![var("a"), var("b"), var("c")])], head: vec![] };
    assert!(!rule_flattenable_check(&bad));
    assert!(program_desugarable_check(&vec![Command::Sort(s("S")), Command::Rewrite(s("rs"), add_rewrite())]));
    let bad_rw = Rewrite { lhs: var("x"), rhs: var("y"), conditions: vec![Fact::Eq(vec![var("q")])] };
    assert!(!program_desugarable_check(&vec![Command::BiRewrite(s("rs"), bad_rw)]));
}

#[test]
fn expression_sizes() {
    assert_eq!(expr_size_checked(&var("x")), Some(1));
    assert_eq!(expr_size_checked(&call("f", vec![var("x"), call("g", vec![Expr::Lit(Literal::Unit)])])), Some(4));
}
