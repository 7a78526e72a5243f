//! Desugaring of surface commands and flattening of rules into single-assignment form.
use vstd::prelude::*;
use crate::ast::{
    actions_view, commands_view, exprs_view, facts_view, lemma_call_view, ssa_actions_view,
    ssa_facts_view, syms, variants_view, copy_facts, Action, ActionV,
    Command, CommandV, Expr, ExprV, Fact, FactV, FlatRule, FlatRuleV, FunctionDecl, FunctionDeclV, Rewrite,
    RewriteV, Rule, RuleV, SSAAction, SSAActionV, SSAExpr, SSAExprV, SSAFact, SSAFactV, Schema, SchemaV, VariantV,
    Variant,
};
use crate::fresh::{fresh_name, FreshGen};

verus! {

// ---------------------------------------------------------------------------
// Sizes, which bound how many fresh names flattening draws.
pub open spec fn expr_size(e: ExprV) -> nat
    decreases e, 0nat,
{
    match e {
        ExprV::Call(_, args) => 1 + args_size(args, args.len()),
        _ => 1,
    }
}

pub open spec fn args_size(args: Seq<ExprV>, n: nat) -> nat
    decreases args, n,
{
    if n == 0 || n > args.len() {
        0
    } else {
        args_size(args, (n - 1) as nat) + expr_size(args[n - 1])
    }
}

proof fn lemma_args_size_mono(args: Seq<ExprV>, i: nat, j: nat)
    requires
        i <= j <= args.len(),
    ensures
        args_size(args, i) <= args_size(args, j),
    decreases j,
{
    if i < j {
        lemma_args_size_mono(args, i, (j - 1) as nat);
    }
}

// ---------------------------------------------------------------------------
// Single-assignment form of facts.
/// State threaded through the flattening of a rule body.
pub struct SsaSt {
    pub next: nat,
    pub used: Set<Seq<char>>,
    pub just: Set<Seq<char>>,
    pub res: Seq<SSAFactV>,
    pub cons: Seq<SSAFactV>,
}

/// Flattens `e`, returning the new state and the variable naming its value.
pub open spec fn ssa_expr(e: ExprV, st: SsaSt) -> (SsaSt, Seq<char>)
    decreases e, 0nat,
{
    match e {
        ExprV::Lit(l) => {
            let v = fresh_name(st.next + 1);
            (
                SsaSt {
                    next: st.next + 1,
                    res: st.res.push(SSAFactV::Assign(v, SSAExprV::Lit(l))),
                    ..st
                },
                v,
            )
        },
        ExprV::Var(x) => {
            if !st.used.contains(x) {
                (SsaSt { used: st.used.insert(x), just: st.just.insert(x), ..st }, x)
            } else {
                let v = fresh_name(st.next + 1);
                if st.just.contains(x) {
                    (
                        SsaSt {
                            next: st.next + 1,
                            cons: st.cons.push(SSAFactV::ConstrainEq(v, x)),
                            ..st
                        },
                        v,
                    )
                } else {
                    (
                        SsaSt {
                            next: st.next + 1,
                            res: st.res.push(SSAFactV::ConstrainEq(v, x)),
                            ..st
                        },
                        v,
                    )
                }
            }
        },
        ExprV::Call(f, args) => {
            let (st1, names) = ssa_args(args, st, args.len());
            let v = fresh_name(st1.next + 1);
            (
                SsaSt {
                    next: st1.next + 1,
                    res: st1.res.push(SSAFactV::Assign(v, SSAExprV::Call(f, names))),
                    ..st1
                },
                v,
            )
        },
    }
}

/// Flattens the first `n` of `args`, left to right.
pub open spec fn ssa_args(args: Seq<ExprV>, st: SsaSt, n: nat) -> (SsaSt, Seq<Seq<char>>)
    decreases args, n,
{
    if n == 0 || n > args.len() {
        (st, seq![])
    } else {
        let (st1, names) = ssa_args(args, st, (n - 1) as nat);
        let (st2, v) = ssa_expr(args[n - 1], st1);
        (st2, names.push(v))
    }
}

pub open spec fn ssa_st(
    gen: FreshGen,
    used: Vec<String>,
    just: Vec<String>,
    res: Vec<SSAFact>,
    cons: Vec<SSAFact>,
) -> SsaSt {
    SsaSt {
        next: gen.count as nat,
        used: syms(used@).to_set(),
        just: syms(just@).to_set(),
        res: ssa_facts_view(res@),
        cons: ssa_facts_view(cons@),
    }
}

pub fn contains_sym(v: &Vec<String>, s: &String) -> (r: bool)
    ensures
        r == syms(v@).to_set().contains(s@),
{
    let mut i: usize = 0;
    while i < v.len()
        invariant
            i <= v.len(),
            forall|j: int| 0 <= j < i ==> (#[trigger] v@[j])@ != s@,
        decreases v.len() - i,
    {
        if v[i] == *s {
            assert(syms(v@)[i as int] == s@);
            return true;
        }
        i += 1;
    }
    assert(!syms(v@).contains(s@)) by {
        if syms(v@).contains(s@) {
            let j = choose|j: int| 0 <= j < syms(v@).len() && syms(v@)[j] == s@;
            assert(v@[j]@ == s@);
        }
    }
    false
}

proof fn lemma_push_sym(v: Seq<String>, s: String)
    ensures
        syms(v.push(s)).to_set() == syms(v).to_set().insert(s@),
{
    assert(syms(v.push(s)) =~= syms(v).push(s@));
    assert(syms(v.push(s)).to_set() =~= syms(v).to_set().insert(s@)) by {
        assert forall|x| syms(v.push(s)).to_set().contains(x) implies syms(
            v,
        ).to_set().insert(s@).contains(x) by {
            let j = choose|j: int| 0 <= j < syms(v.push(s)).len() && syms(v.push(s))[j] == x;
            if j < v.len() {
                assert(syms(v)[j] == x);
            }
        }
        assert forall|x| syms(v).to_set().insert(s@).contains(x) implies syms(
            v.push(s),
        ).to_set().contains(x) by {
            if x == s@ {
                assert(syms(v.push(s))[v.len() as int] == x);
            } else {
                let j = choose|j: int| 0 <= j < syms(v).len() && syms(v)[j] == x;
                assert(syms(v.push(s))[j] == x);
            }
        }
    }
}

proof fn lemma_push_fact(v: Seq<SSAFact>, f: SSAFact)
    ensures
        ssa_facts_view(v.push(f)) == ssa_facts_view(v).push(f@),
{
    assert(ssa_facts_view(v.push(f)) =~= ssa_facts_view(v).push(f@));
}

fn expr_to_ssa(
    expr: &Expr,
    gen: &mut FreshGen,
    used: &mut Vec<String>,
    just: &mut Vec<String>,
    res: &mut Vec<SSAFact>,
    cons: &mut Vec<SSAFact>,
) -> (r: String)
    requires
        old(gen).count + expr_size(expr@) <= u64::MAX,
    ensures
        ({
            let (st, v) = ssa_expr(
                expr@,
                ssa_st(*old(gen), *old(used), *old(just), *old(res), *old(cons)),
            );
            &&& ssa_st(*final(gen), *final(used), *final(just), *final(res), *final(cons)) == st
            &&& r@ == v
        }),
        final(gen).count <= old(gen).count + expr_size(expr@),
    decreases expr@,
{
    let ghost st0 = ssa_st(*gen, *used, *just, *res, *cons);
    match expr {
        Expr::Lit(l) => {
            let fresh = gen.next();
            let ghost old_res = res@;
            res.push(SSAFact::Assign(fresh.clone(), SSAExpr::Lit(l.copy())));
            proof {
                lemma_push_fact(old_res, res@.last());
            }
            fresh
        },
        Expr::Var(v) => {
            if !contains_sym(used, v) {
                proof {
                    lemma_push_sym(used@, *v);
                    lemma_push_sym(just@, *v);
                }
                used.push(v.clone());
                just.push(v.clone());
                v.clone()
            } else {
                let fresh = gen.next();
                if contains_sym(just, v) {
                    let ghost old_cons = cons@;
                    cons.push(SSAFact::ConstrainEq(fresh.clone(), v.clone()));
                    proof {
                        lemma_push_fact(old_cons, cons@.last());
                    }
                } else {
                    let ghost old_res = res@;
                    res.push(SSAFact::ConstrainEq(fresh.clone(), v.clone()));
                    proof {
                        lemma_push_fact(old_res, res@.last());
                    }
                }
                fresh
            }
        },
        Expr::Call(f, children) => {
            let ghost args = exprs_view(children@);
            proof {
                lemma_call_view(*f, *children);
            }
            let ghost start = gen.count;
            let mut new_children: Vec<String> = Vec::new();
            let mut i: usize = 0;
            while i < children.len()
                invariant
                    expr@ == ExprV::Call(f@, args),
                    args == exprs_view(children@),
                    i <= children.len(),
                    start + expr_size(expr@) <= u64::MAX,
                    gen.count <= start + args_size(args, i as nat),
                    ({
                        let (st, names) = ssa_args(args, st0, i as nat);
                        &&& ssa_st(*gen, *used, *just, *res, *cons) == st
                        &&& syms(new_children@) == names
                    }),
                decreases children.len() - i,
            {
                proof {
                    lemma_args_size_mono(args, (i + 1) as nat, args.len());
                    assert(args[i as int] == children@[i as int]@);
                }
                let ghost prev_names = new_children@;
                let c = expr_to_ssa(&children[i], gen, used, just, res, cons);
                new_children.push(c);
                proof {
                    assert(syms(new_children@) =~= syms(prev_names).push(c@));
                }
                i += 1;
            }
            proof {
                lemma_args_size_mono(args, i as nat, args.len());
            }
            let fresh = gen.next();
            let ghost old_res = res@;
            res.push(SSAFact::Assign(fresh.clone(), SSAExpr::Call(f.clone(), new_children)));
            proof {
                lemma_push_fact(old_res, res@.last());
            }
            fresh
        },
    }
}

/// State threaded through the flattening of a list of equalities.
pub struct EqSt {
    pub next: nat,
    pub used: Set<Seq<char>>,
    pub res: Seq<SSAFactV>,
}

pub open spec fn eqs_view(v: Seq<(String, Expr)>) -> Seq<(Seq<char>, ExprV)> {
    v.map_values(|p: (String, Expr)| (p.0@, p.1@))
}

/// Flattens the first `n` equalities `(v, e)`: each `e` is flattened with fresh
/// per-equality bookkeeping, its deferred constraints follow it, and `v = result` closes it.
pub open spec fn flat_eqs(eqs: Seq<(Seq<char>, ExprV)>, st: EqSt, n: nat) -> EqSt
    decreases n,
{
    if n == 0 || n > eqs.len() {
        st
    } else {
        let prev = flat_eqs(eqs, st, (n - 1) as nat);
        let (lhs, rhs) = eqs[n - 1];
        let (st1, r) = ssa_expr(
            rhs,
            SsaSt { next: prev.next, used: prev.used, just: Set::empty(), res: prev.res, cons: seq![] },
        );
        EqSt {
            next: st1.next,
            used: st1.used.insert(lhs),
            res: (st1.res + st1.cons).push(SSAFactV::ConstrainEq(lhs, r)),
        }
    }
}

pub open spec fn eqs_size(eqs: Seq<(Seq<char>, ExprV)>, n: nat) -> nat
    decreases n,
{
    if n == 0 || n > eqs.len() {
        0
    } else {
        eqs_size(eqs, (n - 1) as nat) + expr_size(eqs[n - 1].1)
    }
}

proof fn lemma_eqs_size_mono(eqs: Seq<(Seq<char>, ExprV)>, i: nat, j: nat)
    requires
        i <= j <= eqs.len(),
    ensures
        eqs_size(eqs, i) <= eqs_size(eqs, j),
    decreases j,
{
    if i < j {
        lemma_eqs_size_mono(eqs, i, (j - 1) as nat);
    }
}

fn flatten_equalities(equalities: &Vec<(String, Expr)>, gen: &mut FreshGen) -> (r: Vec<SSAFact>)
    requires
        old(gen).count + eqs_size(eqs_view(equalities@), equalities@.len()) <= u64::MAX,
    ensures
        ({
            let st = flat_eqs(
                eqs_view(equalities@),
                EqSt { next: old(gen).count as nat, used: Set::empty(), res: seq![] },
                equalities@.len(),
            );
            &&& ssa_facts_view(r@) == st.res
            &&& final(gen).count == st.next
        }),
        final(gen).count <= old(gen).count + eqs_size(eqs_view(equalities@), equalities@.len()),
{
    let ghost eqs = eqs_view(equalities@);
    let ghost st0 = EqSt { next: gen.count as nat, used: Set::empty(), res: seq![] };
    let ghost start = gen.count;
    let mut res: Vec<SSAFact> = Vec::new();
    let mut used: Vec<String> = Vec::new();
    let mut i: usize = 0;
    proof {
        assert(syms(used@).to_set() =~= Set::empty());
        assert(ssa_facts_view(res@) =~= seq![]);
    }
    while i < equalities.len()
        invariant
            eqs == eqs_view(equalities@),
            i <= equalities.len(),
            start + eqs_size(eqs, equalities@.len()) <= u64::MAX,
            gen.count <= start + eqs_size(eqs, i as nat),
            ({
                let st = flat_eqs(eqs, st0, i as nat);
                &&& ssa_facts_view(res@) == st.res
                &&& syms(used@).to_set() == st.used
                &&& gen.count == st.next
            }),
        decreases equalities.len() - i,
    {
        proof {
            lemma_eqs_size_mono(eqs, (i + 1) as nat, equalities@.len());
        }
        let (lhs, rhs) = &equalities[i];
        let mut just: Vec<String> = Vec::new();
        let mut constraints: Vec<SSAFact> = Vec::new();
        proof {
            assert(syms(just@).to_set() =~= Set::empty());
            assert(ssa_facts_view(constraints@) =~= seq![]);
            assert(eqs[i as int] == (lhs@, rhs@));
        }
        let result = expr_to_ssa(rhs, gen, &mut used, &mut just, &mut res, &mut constraints);
        let ghost mid = res@;
        let ghost cs = constraints@;
        res.append(&mut constraints);
        proof {
            assert(ssa_facts_view(res@) =~= ssa_facts_view(mid) + ssa_facts_view(cs));
        }
        if !contains_sym(&used, lhs) {
            proof {
                lemma_push_sym(used@, *lhs);
            }
            used.push(lhs.clone());
        } else {
            proof {
                assert(syms(used@).to_set().insert(lhs@) =~= syms(used@).to_set());
            }
        }
        let ghost before = res@;
        res.push(SSAFact::ConstrainEq(lhs.clone(), result));
        proof {
            lemma_push_fact(before, res@.last());
        }
        i += 1;
    }
    res
}

pub open spec fn fact_size(f: FactV) -> nat {
    match f {
        FactV::Eq(args) => 1 + expr_size(args[0]) + expr_size(args[1]),
        FactV::Fact(e) => 1 + expr_size(e),
    }
}

pub open spec fn facts_size(facts: Seq<FactV>, n: nat) -> nat
    decreases n,
{
    if n == 0 || n > facts.len() {
        0
    } else {
        facts_size(facts, (n - 1) as nat) + fact_size(facts[n - 1])
    }
}

/// Each equality fact has exactly two sides.
pub open spec fn facts_well_formed(facts: Seq<FactV>) -> bool {
    forall|i: int| 0 <= i < facts.len() ==> (#[trigger] facts[i] is Eq ==> facts[i]->Eq_0.len() == 2)
}

/// Reduces the first `n` facts to equalities `(v, e)`, drawing fresh names from `next`.
pub open spec fn fact_eqs(facts: Seq<FactV>, next: nat, n: nat) -> (nat, Seq<(Seq<char>, ExprV)>)
    decreases n,
{
    if n == 0 || n > facts.len() {
        (next, seq![])
    } else {
        let (k, eqs) = fact_eqs(facts, next, (n - 1) as nat);
        match facts[n - 1] {
            FactV::Eq(args) => {
                if args[0] is Var {
                    (k, eqs.push((args[0]->Var_0, args[1])))
                } else if args[1] is Var {
                    (k, eqs.push((args[1]->Var_0, args[0])))
                } else {
                    let v = fresh_name(k + 1);
                    (k + 1, eqs.push((v, args[0])).push((v, args[1])))
                }
            },
            FactV::Fact(e) => (k + 1, eqs.push((fresh_name(k + 1), e))),
        }
    }
}

/// Flattened body of a rule whose fresh names start after `next`.
pub open spec fn flatten_facts_spec(facts: Seq<FactV>, next: nat) -> EqSt {
    let (k, eqs) = fact_eqs(facts, next, facts.len());
    flat_eqs(eqs, EqSt { next: k, used: Set::empty(), res: seq![] }, eqs.len())
}

proof fn lemma_facts_size_mono(facts: Seq<FactV>, i: nat, j: nat)
    requires
        i <= j <= facts.len(),
    ensures
        facts_size(facts, i) <= facts_size(facts, j),
    decreases j,
{
    if i < j {
        lemma_facts_size_mono(facts, i, (j - 1) as nat);
    }
}

fn flatten_facts(facts: &Vec<Fact>, gen: &mut FreshGen) -> (r: Vec<SSAFact>)
    requires
        facts_well_formed(facts_view(facts@)),
        old(gen).count + facts_size(facts_view(facts@), facts@.len()) <= u64::MAX,
    ensures
        ({
            let st = flatten_facts_spec(facts_view(facts@), old(gen).count as nat);
            &&& ssa_facts_view(r@) == st.res
            &&& final(gen).count == st.next
        }),
        final(gen).count <= old(gen).count + facts_size(facts_view(facts@), facts@.len()),
{
    let ghost fs = facts_view(facts@);
    let ghost start = gen.count;
    let mut equalities: Vec<(String, Expr)> = Vec::new();
    let mut i: usize = 0;
    proof {
        assert(eqs_view(equalities@) =~= seq![]);
    }
    while i < facts.len()
        invariant
            fs == facts_view(facts@),
            facts_well_formed(fs),
            i <= facts.len(),
            start + facts_size(fs, facts@.len()) <= u64::MAX,
            ({
                let (k, eqs) = fact_eqs(fs, start as nat, i as nat);
                &&& eqs_view(equalities@) == eqs
                &&& gen.count == k
                &&& (gen.count - start) + eqs_size(eqs, eqs.len()) <= facts_size(fs, i as nat)
            }),
        decreases facts.len() - i,
    {
        proof {
            lemma_facts_size_mono(fs, (i + 1) as nat, facts@.len());
            assert(fs[i as int] == facts@[i as int]@);
        }
        let ghost prev = equalities@;
        let ghost pk = gen.count;
        match &facts[i] {
            Fact::Eq(args) => {
                proof {
                    assert(fs[i as int] is Eq);
                }
                let lhs = &args[0];
                let rhs = &args[1];
                if let Expr::Var(v) = lhs {
                    equalities.push((v.clone(), rhs.copy()));
                } else if let Expr::Var(v) = rhs {
                    equalities.push((v.clone(), lhs.copy()));
                } else {
                    let fresh = gen.next();
                    equalities.push((fresh.clone(), lhs.copy()));
                    equalities.push((fresh, rhs.copy()));
                }
            },
            Fact::Fact(expr) => {
                let fresh = gen.next();
                equalities.push((fresh, expr.copy()));
            },
        }
        proof {
            let (k, eqs) = fact_eqs(fs, start as nat, (i + 1) as nat);
            assert(eqs_view(equalities@) =~= eqs);
            let e2 = eqs_view(equalities@);
            let e1 = eqs_view(prev);
            lemma_eqs_size_prefix(e2, e1, e1.len());
            if e2.len() == e1.len() + 2 {
                assert(eqs_size(e2, e2.len()) == eqs_size(e2, (e2.len() - 1) as nat) + expr_size(
                    e2[e2.len() - 1].1,
                ));
                assert(eqs_size(e2, (e2.len() - 1) as nat) == eqs_size(e2, e1.len()) + expr_size(
                    e2[e1.len() as int].1,
                ));
            } else {
                assert(eqs_size(e2, e2.len()) == eqs_size(e2, e1.len()) + expr_size(
                    e2[e1.len() as int].1,
                ));
            }
        }
        i += 1;
    }
    proof {
        lemma_facts_size_mono(fs, i as nat, facts@.len());
    }
    flatten_equalities(&equalities, gen)
}

proof fn lemma_eqs_size_prefix(a: Seq<(Seq<char>, ExprV)>, b: Seq<(Seq<char>, ExprV)>, m: nat)
    requires
        m <= b.len() <= a.len(),
        forall|j: int| 0 <= j < b.len() ==> a[j] == b[j],
    ensures
        eqs_size(a, m) == eqs_size(b, m),
    decreases m,
{
    if m > 0 {
        lemma_eqs_size_prefix(a, b, (m - 1) as nat);
    }
}

// ---------------------------------------------------------------------------
// Flattening of actions.
/// State threaded through the flattening of a rule head.
pub struct ActSt {
    pub next: nat,
    pub res: Seq<SSAActionV>,
}

/// Emits the actions that compute `e` into the variable `assign`.
pub open spec fn flat_expr(assign: Seq<char>, e: ExprV, st: ActSt) -> ActSt
    decreases e, 0nat,
{
    match e {
        ExprV::Lit(l) => ActSt {
            next: st.next,
            res: st.res.push(SSAActionV::Let(assign, SSAExprV::Lit(l))),
        },
        ExprV::Var(v) => ActSt { next: st.next, res: st.res.push(SSAActionV::LetVar(assign, v)) },
        ExprV::Call(f, args) => {
            let (st1, names) = flat_args(args, st, args.len());
            ActSt {
                next: st1.next,
                res: st1.res.push(SSAActionV::Let(assign, SSAExprV::Call(f, names))),
            }
        },
    }
}

/// Computes each of the first `n` of `args` into a fresh variable.
pub open spec fn flat_args(args: Seq<ExprV>, st: ActSt, n: nat) -> (ActSt, Seq<Seq<char>>)
    decreases args, n,
{
    if n == 0 || n > args.len() {
        (st, seq![])
    } else {
        let (st1, names) = flat_args(args, st, (n - 1) as nat);
        let v = fresh_name(st1.next + 1);
        let st2 = flat_expr(v, args[n - 1], ActSt { next: st1.next + 1, res: st1.res });
        (st2, names.push(v))
    }
}

/// Computes `e` into a new fresh variable, which is returned.
pub open spec fn add_expr(e: ExprV, st: ActSt) -> (ActSt, Seq<char>) {
    let v = fresh_name(st.next + 1);
    (flat_expr(v, e, ActSt { next: st.next + 1, res: st.res }), v)
}

/// Computes each of the first `n` of `es` into its own fresh variable.
pub open spec fn add_exprs(es: Seq<ExprV>, st: ActSt, n: nat) -> (ActSt, Seq<Seq<char>>)
    decreases n,
{
    if n == 0 || n > es.len() {
        (st, seq![])
    } else {
        let (st1, names) = add_exprs(es, st, (n - 1) as nat);
        let (st2, v) = add_expr(es[n - 1], st1);
        (st2, names.push(v))
    }
}

/// Flattens the first `n` actions.
pub open spec fn flat_actions(acts: Seq<ActionV>, st: ActSt, n: nat) -> ActSt
    decreases n,
{
    if n == 0 || n > acts.len() {
        st
    } else {
        let prev = flat_actions(acts, st, (n - 1) as nat);
        match acts[n - 1] {
            ActionV::Let(x, e) => {
                let (st1, v) = add_expr(e, prev);
                ActSt { next: st1.next, res: st1.res.push(SSAActionV::LetVar(x, v)) }
            },
            ActionV::SetValue(f, args, rhs) => {
                let (st1, names) = add_exprs(args, prev, args.len());
                let (st2, r) = add_expr(rhs, st1);
                ActSt { next: st2.next, res: st2.res.push(SSAActionV::SetValue(f, names, r)) }
            },
            ActionV::Delete(f, args) => {
                let (st1, names) = add_exprs(args, prev, args.len());
                ActSt { next: st1.next, res: st1.res.push(SSAActionV::Delete(f, names)) }
            },
            ActionV::Union(l, r) => {
                let (st1, a) = add_expr(l, prev);
                let (st2, b) = add_expr(r, st1);
                ActSt { next: st2.next, res: st2.res.push(SSAActionV::Union(a, b)) }
            },
            ActionV::Panic(m) => ActSt { next: prev.next, res: prev.res.push(SSAActionV::Panic(m)) },
            ActionV::Expr(e) => add_expr(e, prev).0,
        }
    }
}

pub open spec fn action_size(a: ActionV) -> nat {
    match a {
        ActionV::Let(_, e) => expr_size(e),
        ActionV::SetValue(_, args, rhs) => args_size(args, args.len()) + expr_size(rhs),
        ActionV::Delete(_, args) => args_size(args, args.len()),
        ActionV::Union(l, r) => expr_size(l) + expr_size(r),
        ActionV::Panic(_) => 0,
        ActionV::Expr(e) => expr_size(e),
    }
}

pub open spec fn actions_size(acts: Seq<ActionV>, n: nat) -> nat
    decreases n,
{
    if n == 0 || n > acts.len() {
        0
    } else {
        actions_size(acts, (n - 1) as nat) + action_size(acts[n - 1])
    }
}

proof fn lemma_actions_size_mono(acts: Seq<ActionV>, i: nat, j: nat)
    requires
        i <= j <= acts.len(),
    ensures
        actions_size(acts, i) <= actions_size(acts, j),
    decreases j,
{
    if i < j {
        lemma_actions_size_mono(acts, i, (j - 1) as nat);
    }
}

proof fn lemma_push_action(v: Seq<SSAAction>, a: SSAAction)
    ensures
        ssa_actions_view(v.push(a)) == ssa_actions_view(v).push(a@),
{
    assert(ssa_actions_view(v.push(a)) =~= ssa_actions_view(v).push(a@));
}

fn expr_to_flat_actions(assign: String, expr: &Expr, gen: &mut FreshGen, res: &mut Vec<SSAAction>)
    requires
        old(gen).count + expr_size(expr@) <= u64::MAX + 1,
    ensures
        ({
            let st = flat_expr(
                assign@,
                expr@,
                ActSt { next: old(gen).count as nat, res: ssa_actions_view(old(res)@) },
            );
            &&& ssa_actions_view(final(res)@) == st.res
            &&& final(gen).count == st.next
        }),
        final(gen).count + 1 <= old(gen).count + expr_size(expr@),
    decreases expr@,
{
    let ghost st0 = ActSt { next: gen.count as nat, res: ssa_actions_view(res@) };
    let ghost before = res@;
    match expr {
        Expr::Lit(l) => {
            res.push(SSAAction::Let(assign, SSAExpr::Lit(l.copy())));
            proof {
                lemma_push_action(before, res@.last());
            }
        },
        Expr::Var(v) => {
            res.push(SSAAction::LetVar(assign, v.clone()));
            proof {
                lemma_push_action(before, res@.last());
            }
        },
        Expr::Call(f, children) => {
            let ghost args = exprs_view(children@);
            proof {
                lemma_call_view(*f, *children);
            }
            let ghost start = gen.count;
            let mut new_children: Vec<String> = Vec::new();
            let mut i: usize = 0;
            while i < children.len()
                invariant
                    expr@ == ExprV::Call(f@, args),
                    args == exprs_view(children@),
                    i <= children.len(),
                    start + expr_size(expr@) <= u64::MAX + 1,
                    gen.count <= start + args_size(args, i as nat),
                    ({
                        let (st, names) = flat_args(args, st0, i as nat);
                        &&& ssa_actions_view(res@) == st.res
                        &&& gen.count == st.next
                        &&& syms(new_children@) == names
                    }),
                decreases children.len() - i,
            {
                proof {
                    lemma_args_size_mono(args, (i + 1) as nat, args.len());
                    assert(args[i as int] == children@[i as int]@);
                    assert(expr_size(args[i as int]) >= 1);
                    assert(args_size(args, (i + 1) as nat) == args_size(args, i as nat) + expr_size(args[i as int]));
                }
                let fresh = gen.next();
                expr_to_flat_actions(fresh.clone(), &children[i], gen, res);
                let ghost prev_names = new_children@;
                new_children.push(fresh);
                proof {
                    assert(syms(new_children@) =~= syms(prev_names).push(fresh@));
                }
                i += 1;
            }
            let ghost mid = res@;
            res.push(SSAAction::Let(assign, SSAExpr::Call(f.clone(), new_children)));
            proof {
                lemma_push_action(mid, res@.last());
            }
        },
    }
}

fn add_expr_exec(expr: &Expr, gen: &mut FreshGen, res: &mut Vec<SSAAction>) -> (r: String)
    requires
        old(gen).count + expr_size(expr@) <= u64::MAX,
    ensures
        ({
            let (st, v) = add_expr(
                expr@,
                ActSt { next: old(gen).count as nat, res: ssa_actions_view(old(res)@) },
            );
            &&& ssa_actions_view(final(res)@) == st.res
            &&& final(gen).count == st.next
            &&& r@ == v
        }),
        final(gen).count <= old(gen).count + expr_size(expr@),
{
    let fresh = gen.next();
    expr_to_flat_actions(fresh.clone(), expr, gen, res);
    fresh
}

fn add_exprs_exec(exprs: &Vec<Expr>, gen: &mut FreshGen, res: &mut Vec<SSAAction>) -> (r: Vec<String>)
    requires
        old(gen).count + args_size(exprs_view(exprs@), exprs@.len()) <= u64::MAX,
    ensures
        ({
            let (st, names) = add_exprs(
                exprs_view(exprs@),
                ActSt { next: old(gen).count as nat, res: ssa_actions_view(old(res)@) },
                exprs@.len(),
            );
            &&& ssa_actions_view(final(res)@) == st.res
            &&& final(gen).count == st.next
            &&& syms(r@) == names
        }),
        final(gen).count <= old(gen).count + args_size(exprs_view(exprs@), exprs@.len()),
{
    let ghost es = exprs_view(exprs@);
    let ghost st0 = ActSt { next: gen.count as nat, res: ssa_actions_view(res@) };
    let ghost start = gen.count;
    let mut names: Vec<String> = Vec::new();
    let mut i: usize = 0;
    while i < exprs.len()
        invariant
            es == exprs_view(exprs@),
            i <= exprs.len(),
            start + args_size(es, exprs@.len()) <= u64::MAX,
            gen.count <= start + args_size(es, i as nat),
            ({
                let (st, ns) = add_exprs(es, st0, i as nat);
                &&& ssa_actions_view(res@) == st.res
                &&& gen.count == st.next
                &&& syms(names@) == ns
            }),
        decreases exprs.len() - i,
    {
        proof {
            lemma_args_size_mono(es, (i + 1) as nat, exprs@.len());
            assert(es[i as int] == exprs@[i as int]@);
        }
        let v = add_expr_exec(&exprs[i], gen, res);
        let ghost prev = names@;
        names.push(v);
        proof {
            assert(syms(names@) =~= syms(prev).push(v@));
        }
        i += 1;
    }
    names
}

fn flatten_actions(actions: &Vec<Action>, gen: &mut FreshGen) -> (r: Vec<SSAAction>)
    requires
        old(gen).count + actions_size(actions_view(actions@), actions@.len()) <= u64::MAX,
    ensures
        ({
            let st = flat_actions(
                actions_view(actions@),
                ActSt { next: old(gen).count as nat, res: seq![] },
                actions@.len(),
            );
            &&& ssa_actions_view(r@) == st.res
            &&& final(gen).count == st.next
        }),
        final(gen).count <= old(gen).count + actions_size(actions_view(actions@), actions@.len()),
{
    let ghost acts = actions_view(actions@);
    let ghost st0 = ActSt { next: gen.count as nat, res: seq![] };
    let ghost start = gen.count;
    let mut res: Vec<SSAAction> = Vec::new();
    proof {
        assert(ssa_actions_view(res@) =~= seq![]);
    }
    let mut i: usize = 0;
    while i < actions.len()
        invariant
            acts == actions_view(actions@),
            i <= actions.len(),
            start + actions_size(acts, actions@.len()) <= u64::MAX,
            gen.count <= start + actions_size(acts, i as nat),
            ({
                let st = flat_actions(acts, st0, i as nat);
                &&& ssa_actions_view(res@) == st.res
                &&& gen.count == st.next
            }),
        decreases actions.len() - i,
    {
        proof {
            lemma_actions_size_mono(acts, (i + 1) as nat, actions@.len());
            assert(acts[i as int] == actions@[i as int]@);
        }
        match &actions[i] {
            Action::Let(symbol, expr) => {
                let added = add_expr_exec(expr, gen, &mut res);
                let ghost before = res@;
                res.push(SSAAction::LetVar(symbol.clone(), added));
                proof {
                    lemma_push_action(before, res@.last());
                }
            },
            Action::SetValue(symbol, exprs, rhs) => {
                let args = add_exprs_exec(exprs, gen, &mut res);
                let r = add_expr_exec(rhs, gen, &mut res);
                let ghost before = res@;
                res.push(SSAAction::SetValue(symbol.clone(), args, r));
                proof {
                    lemma_push_action(before, res@.last());
                }
            },
            Action::Delete(symbol, exprs) => {
                let args = add_exprs_exec(exprs, gen, &mut res);
                let ghost before = res@;
                res.push(SSAAction::Delete(symbol.clone(), args));
                proof {
                    lemma_push_action(before, res@.last());
                }
            },
            Action::Union(lhs, rhs) => {
                let a = add_expr_exec(lhs, gen, &mut res);
                let b = add_expr_exec(rhs, gen, &mut res);
                let ghost before = res@;
                res.push(SSAAction::Union(a, b));
                proof {
                    lemma_push_action(before, res@.last());
                }
            },
            Action::Panic(msg) => {
                let ghost before = res@;
                res.push(SSAAction::Panic(msg.clone()));
                proof {
                    lemma_push_action(before, res@.last());
                }
            },
            Action::Expr(expr) => {
                add_expr_exec(expr, gen, &mut res);
            },
        }
        i += 1;
    }
    res
}

// ---------------------------------------------------------------------------
// Rules.
pub open spec fn rule_size(r: RuleV) -> nat {
    actions_size(r.head, r.head.len()) + facts_size(r.body, r.body.len())
}

/// A rule that flattening accepts: equality facts are binary and the fresh-name counter
/// cannot run out.
pub open spec fn rule_flattenable(r: RuleV) -> bool {
    facts_well_formed(r.body) && rule_size(r) <= u64::MAX
}

/// The flattened rule: the head is flattened first, then the body, with one counter.
pub open spec fn flatten_rule_spec(r: RuleV) -> FlatRuleV {
    let h = flat_actions(r.head, ActSt { next: 0, res: seq![] }, r.head.len());
    let b = flatten_facts_spec(r.body, h.next);
    FlatRuleV { body: b.res, head: h.res }
}

/// Flattens a rule into single-assignment form.
pub fn flatten_rule(rule: Rule) -> (r: FlatRule)
    requires
        rule_flattenable(rule@),
    ensures
        r@ == flatten_rule_spec(rule@),
{
    let mut gen = FreshGen::new();
    let head = flatten_actions(&rule.head, &mut gen);
    let body = flatten_facts(&rule.body, &mut gen);
    FlatRule { head, body }
}

// ---------------------------------------------------------------------------
// Desugaring of commands.
/// The function declared for one variant of datatype `name`.
pub open spec fn variant_decl(name: Seq<char>, v: VariantV) -> FunctionDeclV {
    FunctionDeclV {
        name: v.name,
        schema: SchemaV { input: v.types, output: name },
        merge: None,
        merge_action: seq![],
        default: None,
        cost: v.cost,
    }
}

pub open spec fn desugar_datatype_spec(name: Seq<char>, variants: Seq<VariantV>) -> Seq<CommandV> {
    seq![CommandV::Sort(name)] + variants.map_values(
        |v: VariantV| CommandV::Function(variant_decl(name, v)),
    )
}

/// A datatype becomes its sort followed by one constructor table per variant.
pub fn desugar_datatype(name: String, variants: Vec<Variant>) -> (r: Vec<Command>)
    ensures
        commands_view(r@) == desugar_datatype_spec(name@, variants_view(variants@)),
{
    let ghost vs = variants_view(variants@);
    let ghost n0 = name@;
    let mut variants = variants;
    let mut res: Vec<Command> = Vec::new();
    res.push(Command::Sort(name.clone()));
    let total: usize = variants.len();
    let mut i: usize = 0;
    while variants.len() > 0
        invariant
            name@ == n0,
            i + variants@.len() == total as nat,
            vs.len() == total as nat,
            forall|j: int| 0 <= j < variants@.len() ==> (#[trigger] variants@[j])@ == vs[i + j],
            res@.len() == i + 1,
            res@[0]@ == CommandV::Sort(n0),
            forall|j: int|
                0 <= j < i ==> (#[trigger] res@[j + 1])@ == CommandV::Function(
                    variant_decl(n0, vs[j]),
                ),
        decreases variants@.len(),
    {
        let ghost before = variants@;
        let variant = variants.remove(0);
        assert(variant@ == vs[i as int]);
        let decl = FunctionDecl {
            name: variant.name,
            schema: Schema { input: variant.types, output: name.clone() },
            merge: None,
            merge_action: Vec::new(),
            default: None,
            cost: variant.cost,
        };
        proof {
            assert(actions_view(decl.merge_action@) =~= seq![]);
        }
        res.push(Command::Function(decl));
        assert forall|j: int| 0 <= j < variants@.len() implies (#[trigger] variants@[j])@ == vs[i
            + 1 + j] by {
            assert(variants@[j] == before[j + 1]);
        }
        i += 1;
    }
    proof {
        assert(commands_view(res@) =~= desugar_datatype_spec(n0, vs)) by {
            assert forall|j: int| 0 <= j < res@.len() implies commands_view(res@)[j]
                == desugar_datatype_spec(n0, vs)[j] by {
                if j > 0 {
                    assert(res@[(j - 1) + 1]@ == CommandV::Function(variant_decl(n0, vs[j - 1])));
                }
            }
        }
    }
    res
}

pub open spec fn rewrite_var() -> Seq<char> {
    "rewrite_var__"@
}

/// The rule a rewrite stands for: bind `lhs` to a variable under the conditions, then
/// union that variable with `rhs`.
pub open spec fn rewrite_rule(rw: RewriteV) -> RuleV {
    RuleV {
        body: seq![FactV::Eq(seq![ExprV::Var(rewrite_var()), rw.lhs])] + rw.conditions,
        head: seq![ActionV::Union(ExprV::Var(rewrite_var()), rw.rhs)],
    }
}

pub open spec fn desugar_rewrite_spec(ruleset: Seq<char>, rw: RewriteV) -> Seq<CommandV> {
    seq![CommandV::FlatRule(ruleset, flatten_rule_spec(rewrite_rule(rw)))]
}

/// The rewrite with its two sides swapped.
pub open spec fn mirror(rw: RewriteV) -> RewriteV {
    RewriteV { lhs: rw.rhs, rhs: rw.lhs, conditions: rw.conditions }
}

/// A rewrite becomes one flat rule.
pub fn desugar_rewrite(ruleset: &String, rewrite: &Rewrite) -> (r: Vec<Command>)
    requires
        rule_flattenable(rewrite_rule(rewrite@)),
    ensures
        commands_view(r@) == desugar_rewrite_spec(ruleset@, rewrite@),
{
    let var = String::from_str("rewrite_var__");
    proof {
        reveal_strlit("rewrite_var__");
    }
    let mut body: Vec<Fact> = Vec::new();
    let mut sides: Vec<Expr> = Vec::new();
    sides.push(Expr::Var(var.clone()));
    sides.push(rewrite.lhs.copy());
    proof {
        assert(exprs_view(sides@) =~= seq![ExprV::Var(rewrite_var()), rewrite@.lhs]);
    }
    body.push(Fact::Eq(sides));
    let mut conds = copy_facts(&rewrite.conditions);
    let ghost b0 = body@;
    body.append(&mut conds);
    let mut head: Vec<Action> = Vec::new();
    head.push(Action::Union(Expr::Var(var), rewrite.rhs.copy()));
    let rule = Rule { body, head };
    proof {
        assert(facts_view(rule.body@) =~= rewrite_rule(rewrite@).body);
        assert(actions_view(rule.head@) =~= rewrite_rule(rewrite@).head);
        assert(rule@ == rewrite_rule(rewrite@));
    }
    let mut r: Vec<Command> = Vec::new();
    r.push(Command::FlatRule(ruleset.clone(), flatten_rule(rule)));
    proof {
        assert(commands_view(r@) =~= desugar_rewrite_spec(ruleset@, rewrite@));
    }
    r
}

/// A bidirectional rewrite becomes the rule of the rewrite and the rule of its mirror.
pub fn desugar_birewrite(ruleset: &String, rewrite: &Rewrite) -> (r: Vec<Command>)
    requires
        rule_flattenable(rewrite_rule(rewrite@)),
        rule_flattenable(rewrite_rule(mirror(rewrite@))),
    ensures
        commands_view(r@) == desugar_rewrite_spec(ruleset@, rewrite@) + desugar_rewrite_spec(
            ruleset@,
            mirror(rewrite@),
        ),
{
    let rw2 = Rewrite {
        lhs: rewrite.rhs.copy(),
        rhs: rewrite.lhs.copy(),
        conditions: copy_facts(&rewrite.conditions),
    };
    assert(rw2@ == mirror(rewrite@));
    let mut r = desugar_rewrite(ruleset, rewrite);
    let mut r2 = desugar_rewrite(ruleset, &rw2);
    let ghost a = r@;
    let ghost b = r2@;
    r.append(&mut r2);
    proof {
        assert(commands_view(r@) =~= commands_view(a) + commands_view(b));
    }
    r
}

/// Why a command could not be desugared.
#[derive(Debug, PartialEq)]
pub enum DesugarError {
    /// An included file could not be read.
    Io(String),
    /// An included file did not parse.
    Parse(String),
}

/// What desugaring makes of a command other than `Include`.
pub open spec fn desugar_command_spec(c: CommandV) -> Seq<CommandV> {
    match c {
        CommandV::Datatype { name, variants } => desugar_datatype_spec(name, variants),
        CommandV::Rewrite(rs, rw) => desugar_rewrite_spec(rs, rw),
        CommandV::BiRewrite(rs, rw) => desugar_rewrite_spec(rs, rw) + desugar_rewrite_spec(
            rs,
            mirror(rw),
        ),
        CommandV::Rule(rs, r) => seq![CommandV::FlatRule(rs, flatten_rule_spec(r))],
        _ => seq![c],
    }
}

/// The rules inside the command can be flattened.
pub open spec fn command_desugarable(c: CommandV) -> bool {
    match c {
        CommandV::Rewrite(_, rw) => rule_flattenable(rewrite_rule(rw)),
        CommandV::BiRewrite(_, rw) => rule_flattenable(rewrite_rule(rw)) && rule_flattenable(
            rewrite_rule(mirror(rw)),
        ),
        CommandV::Rule(_, r) => rule_flattenable(r),
        _ => true,
    }
}

/// Desugars one command. An `Include` is replaced by `loaded`, the outcome of reading
/// and parsing the included file, which the caller supplies.
pub fn desugar_command(
    command: Command,
    loaded: Option<Result<Vec<Command>, DesugarError>>,
) -> (r: Result<Vec<Command>, DesugarError>)
    requires
        command_desugarable(command@),
        command@ is Include ==> loaded is Some,
    ensures
        command@ is Include ==> r == loaded->Some_0,
        !(command@ is Include) ==> r is Ok && commands_view(r->Ok_0@) == desugar_command_spec(
            command@,
        ),
{
    match command {
        Command::Datatype { name, variants } => Ok(desugar_datatype(name, variants)),
        Command::Rewrite(ruleset, rewrite) => Ok(desugar_rewrite(&ruleset, &rewrite)),
        Command::BiRewrite(ruleset, rewrite) => Ok(desugar_birewrite(&ruleset, &rewrite)),
        Command::Include(_) => match loaded {
            Some(contents) => contents,
            None => Err(DesugarError::Io(String::new())),
        },
        Command::Rule(ruleset, rule) => {
            let mut r: Vec<Command> = Vec::new();
            r.push(Command::FlatRule(ruleset, flatten_rule(rule)));
            proof {
                assert(commands_view(r@) =~= desugar_command_spec(command@));
            }
            Ok(r)
        },
        _ => {
            let ghost c = command@;
            let mut r: Vec<Command> = Vec::new();
            r.push(command);
            proof {
                assert(commands_view(r@) =~= seq![c]);
            }
            Ok(r)
        },
    }
}

/// Number of `Include` commands among the first `n`.
pub open spec fn includes_in(p: Seq<CommandV>, n: nat) -> nat
    decreases n,
{
    if n == 0 || n > p.len() {
        0
    } else {
        includes_in(p, (n - 1) as nat) + if p[n - 1] is Include {
            1nat
        } else {
            0nat
        }
    }
}

pub open spec fn loaded_view(l: Seq<Result<Vec<Command>, DesugarError>>) -> Seq<
    Result<Seq<CommandV>, DesugarError>,
> {
    l.map_values(
        |r: Result<Vec<Command>, DesugarError>|
            match r {
                Ok(cs) => Ok(commands_view(cs@)),
                Err(e) => Err(e),
            },
    )
}

/// Desugaring of the first `n` commands; the `k`-th `Include` takes `loaded[k]`.
pub open spec fn desugar_program_spec(
    p: Seq<CommandV>,
    loaded: Seq<Result<Seq<CommandV>, DesugarError>>,
    n: nat,
) -> Result<Seq<CommandV>, DesugarError>
    decreases n,
{
    if n == 0 || n > p.len() {
        Ok(seq![])
    } else {
        match desugar_program_spec(p, loaded, (n - 1) as nat) {
            Err(e) => Err(e),
            Ok(prev) => if p[n - 1] is Include {
                match loaded[includes_in(p, (n - 1) as nat) as int] {
                    Ok(cs) => Ok(prev + cs),
                    Err(e) => Err(e),
                }
            } else {
                Ok(prev + desugar_command_spec(p[n - 1]))
            },
        }
    }
}

pub open spec fn program_desugarable(p: Seq<CommandV>) -> bool {
    forall|i: int| 0 <= i < p.len() ==> command_desugarable(#[trigger] p[i])
}

/// Desugars a program command by command, stopping at the first error.
pub fn desugar_program(
    program: Vec<Command>,
    loaded: Vec<Result<Vec<Command>, DesugarError>>,
) -> (r: Result<Vec<Command>, DesugarError>)
    requires
        program_desugarable(commands_view(program@)),
        includes_in(commands_view(program@), program@.len()) <= loaded@.len(),
    ensures
        match desugar_program_spec(commands_view(program@), loaded_view(loaded@), program@.len()) {
            Ok(cs) => r is Ok && commands_view(r->Ok_0@) == cs,
            Err(e) => r == Err::<Vec<Command>, DesugarError>(e),
        },
{
    let ghost p = commands_view(program@);
    let ghost lv = loaded_view(loaded@);
    let total: usize = program.len();
    let mut rest = program;
    let mut pending = loaded;
    let mut res: Vec<Command> = Vec::new();
    let mut i: usize = 0;
    proof {
        assert(commands_view(res@) =~= seq![]);
    }
    while rest.len() > 0
        invariant
            p.len() == total as nat,
            p == commands_view(program@),
            lv == loaded_view(loaded@),
            i + rest@.len() == total as nat,
            program_desugarable(p),
            forall|j: int| 0 <= j < rest@.len() ==> (#[trigger] rest@[j])@ == p[i + j],
            includes_in(p, total as nat) <= lv.len(),
            includes_in(p, i as nat) + pending@.len() == lv.len(),
            forall|j: int|
                0 <= j < pending@.len() ==> #[trigger] loaded_view(pending@)[j] == lv[includes_in(
                    p,
                    i as nat,
                ) + j],
            desugar_program_spec(p, lv, i as nat) == Ok::<Seq<CommandV>, DesugarError>(
                commands_view(res@),
            ),
        decreases rest@.len(),
    {
        let ghost before = rest@;
        let ghost lbefore = pending@;
        let command = rest.remove(0);
        assert(command@ == p[i as int]);
        assert forall|j: int| 0 <= j < rest@.len() implies (#[trigger] rest@[j])@ == p[i
            + 1 + j] by {
            assert(rest@[j] == before[j + 1]);
        }
        proof {
            lemma_includes_mono(p, (i + 1) as nat, total as nat);
        }
        let is_include = match &command {
            Command::Include(_) => true,
            _ => false,
        };
        let item = if is_include {
            let l = pending.remove(0);
            proof {
                assert(loaded_view(lbefore)[0] == lv[includes_in(p, i as nat) as int]);
                assert forall|j: int| 0 <= j < pending@.len() implies #[trigger] loaded_view(pending@)[j]
                    == lv[includes_in(p, (i + 1) as nat) + j] by {
                    assert(pending@[j] == lbefore[j + 1]);
                    assert(loaded_view(lbefore)[j + 1] == lv[includes_in(p, i as nat) + j + 1]);
                }
            }
            desugar_command(command, Some(l))
        } else {
            desugar_command(command, None)
        };
        proof {
            if is_include {
                assert(item == lbefore[0]);
            }
            let prev = commands_view(res@);
            if item is Ok {
                assert(desugar_program_spec(p, lv, (i + 1) as nat) == Ok::<
                    Seq<CommandV>,
                    DesugarError,
                >(prev + commands_view(item->Ok_0@)));
            } else {
                assert(desugar_program_spec(p, lv, (i + 1) as nat) == Err::<
                    Seq<CommandV>,
                    DesugarError,
                >(item->Err_0));
            }
        }
        match item {
            Ok(mut cs) => {
                let ghost a = res@;
                let ghost b = cs@;
                res.append(&mut cs);
                proof {
                    assert(commands_view(res@) =~= commands_view(a) + commands_view(b));
                }
            },
            Err(e) => {
                proof {
                    lemma_program_error_sticks(p, lv, (i + 1) as nat, total as nat);
                    assert(desugar_program_spec(p, lv, total as nat) == Err::<Seq<CommandV>, DesugarError>(e));
                }
                return Err(e);
            },
        }
        i += 1;
    }
    Ok(res)
}

proof fn lemma_includes_mono(p: Seq<CommandV>, i: nat, j: nat)
    requires
        i <= j <= p.len(),
    ensures
        includes_in(p, i) <= includes_in(p, j),
    decreases j,
{
    if i < j {
        lemma_includes_mono(p, i, (j - 1) as nat);
    }
}

proof fn lemma_program_error_sticks(
    p: Seq<CommandV>,
    l: Seq<Result<Seq<CommandV>, DesugarError>>,
    i: nat,
    j: nat,
)
    requires
        1 <= i <= j <= p.len(),
        desugar_program_spec(p, l, i) is Err,
    ensures
        desugar_program_spec(p, l, j) == desugar_program_spec(p, l, i),
    decreases j,
{
    if i < j {
        lemma_program_error_sticks(p, l, i, (j - 1) as nat);
    }
}

// ---------------------------------------------------------------------------
// Back from flat rules to surface rules.
pub open spec fn vars_expr(vs: Seq<Seq<char>>) -> Seq<ExprV> {
    vs.map_values(|v: Seq<char>| ExprV::Var(v))
}

pub open spec fn ssa_expr_to_expr(e: SSAExprV) -> ExprV {
    match e {
        SSAExprV::Lit(l) => ExprV::Lit(l),
        SSAExprV::Call(f, args) => ExprV::Call(f, vars_expr(args)),
    }
}

pub open spec fn ssa_fact_to_fact(f: SSAFactV) -> FactV {
    match f {
        SSAFactV::Assign(v, e) => FactV::Eq(seq![ExprV::Var(v), ssa_expr_to_expr(e)]),
        SSAFactV::ConstrainEq(a, b) => FactV::Eq(seq![ExprV::Var(a), ExprV::Var(b)]),
    }
}

pub open spec fn ssa_action_to_action(a: SSAActionV) -> ActionV {
    match a {
        SSAActionV::Let(v, e) => ActionV::Let(v, ssa_expr_to_expr(e)),
        SSAActionV::LetVar(v, w) => ActionV::Let(v, ExprV::Var(w)),
        SSAActionV::SetValue(f, args, r) => ActionV::SetValue(f, vars_expr(args), ExprV::Var(r)),
        SSAActionV::Delete(f, args) => ActionV::Delete(f, vars_expr(args)),
        SSAActionV::Union(a, b) => ActionV::Union(ExprV::Var(a), ExprV::Var(b)),
        SSAActionV::Panic(m) => ActionV::Panic(m),
    }
}

/// The surface rule that states a flat rule: each assignment becomes an equality
/// between its variable and its right-hand side.
pub open spec fn to_rule_spec(r: FlatRuleV) -> RuleV {
    RuleV {
        body: r.body.map_values(|f: SSAFactV| ssa_fact_to_fact(f)),
        head: r.head.map_values(|a: SSAActionV| ssa_action_to_action(a)),
    }
}

fn vars_to_exprs(vs: &Vec<String>) -> (r: Vec<Expr>)
    ensures
        exprs_view(r@) == vars_expr(syms(vs@)),
{
    let mut r: Vec<Expr> = Vec::new();
    let mut i: usize = 0;
    while i < vs.len()
        invariant
            i <= vs.len(),
            r@.len() == i,
            forall|j: int| 0 <= j < i ==> (#[trigger] r@[j])@ == ExprV::Var(vs@[j]@),
        decreases vs.len() - i,
    {
        r.push(Expr::Var(vs[i].clone()));
        i += 1;
    }
    assert(exprs_view(r@) =~= vars_expr(syms(vs@)));
    r
}

fn ssa_to_expr(e: &SSAExpr) -> (r: Expr)
    ensures
        r@ == ssa_expr_to_expr(e@),
{
    match e {
        SSAExpr::Lit(l) => Expr::Lit(l.copy()),
        SSAExpr::Call(f, args) => {
            let children = vars_to_exprs(args);
            proof {
                lemma_call_view(*f, children);
            }
            Expr::Call(f.clone(), children)
        },
    }
}

fn pair_exprs(a: Expr, b: Expr) -> (r: Vec<Expr>)
    ensures
        exprs_view(r@) == seq![a@, b@],
{
    let mut r: Vec<Expr> = Vec::new();
    r.push(a);
    r.push(b);
    assert(exprs_view(r@) =~= seq![a@, b@]);
    r
}

impl FlatRule {
    /// The surface rule stating this flat rule.
    pub fn to_rule(&self) -> (r: Rule)
        ensures
            r@ == to_rule_spec(self@),
    {
        let mut body: Vec<Fact> = Vec::new();
        let mut i: usize = 0;
        while i < self.body.len()
            invariant
                i <= self.body.len(),
                body@.len() == i,
                forall|j: int|
                    0 <= j < i ==> (#[trigger] body@[j])@ == ssa_fact_to_fact(self.body@[j]@),
            decreases self.body.len() - i,
        {
            let f = match &self.body[i] {
                SSAFact::Assign(v, e) => Fact::Eq(pair_exprs(Expr::Var(v.clone()), ssa_to_expr(e))),
                SSAFact::ConstrainEq(a, b) => Fact::Eq(
                    pair_exprs(Expr::Var(a.clone()), Expr::Var(b.clone())),
                ),
            };
            body.push(f);
            i += 1;
        }
        let mut head: Vec<Action> = Vec::new();
        let mut i: usize = 0;
        while i < self.head.len()
            invariant
                i <= self.head.len(),
                head@.len() == i,
                forall|j: int|
                    0 <= j < i ==> (#[trigger] head@[j])@ == ssa_action_to_action(self.head@[j]@),
            decreases self.head.len() - i,
        {
            let a = match &self.head[i] {
                SSAAction::Let(v, e) => Action::Let(v.clone(), ssa_to_expr(e)),
                SSAAction::LetVar(v, w) => Action::Let(v.clone(), Expr::Var(w.clone())),
                SSAAction::SetValue(f, args, r) => Action::SetValue(
                    f.clone(),
                    vars_to_exprs(args),
                    Expr::Var(r.clone()),
                ),
                SSAAction::Delete(f, args) => Action::Delete(f.clone(), vars_to_exprs(args)),
                SSAAction::Union(a, b) => Action::Union(Expr::Var(a.clone()), Expr::Var(b.clone())),
                SSAAction::Panic(m) => Action::Panic(m.clone()),
            };
            head.push(a);
            i += 1;
        }
        let r = Rule { body, head };
        proof {
            assert(facts_view(r.body@) =~= to_rule_spec(self@).body);
            assert(actions_view(r.head@) =~= to_rule_spec(self@).head);
        }
        r
    }
}

pub open spec fn to_rules_spec(c: CommandV) -> CommandV {
    match c {
        CommandV::FlatRule(rs, r) => CommandV::Rule(rs, to_rule_spec(r)),
        _ => c,
    }
}

/// Turns every flat rule of a program back into a surface rule.
pub fn to_rules(program: Vec<Command>) -> (r: Vec<Command>)
    ensures
        commands_view(r@) == commands_view(program@).map_values(|c: CommandV| to_rules_spec(c)),
{
    let ghost p = commands_view(program@);
    let total: usize = program.len();
    let mut rest = program;
    let mut res: Vec<Command> = Vec::new();
    let mut i: usize = 0;
    while rest.len() > 0
        invariant
            p == commands_view(program@),
            p.len() == total as nat,
            i + rest@.len() == total as nat,
            forall|j: int| 0 <= j < rest@.len() ==> (#[trigger] rest@[j])@ == p[i + j],
            res@.len() == i,
            forall|j: int| 0 <= j < i ==> (#[trigger] res@[j])@ == to_rules_spec(p[j]),
        decreases rest@.len(),
    {
        let ghost before = rest@;
        let command = rest.remove(0);
        assert forall|j: int| 0 <= j < rest@.len() implies (#[trigger] rest@[j])@ == p[i + 1
            + j] by {
            assert(rest@[j] == before[j + 1]);
        }
        let c = match command {
            Command::FlatRule(ruleset, rule) => Command::Rule(ruleset, rule.to_rule()),
            other => other,
        };
        res.push(c);
        i += 1;
    }
    assert(commands_view(res@) =~= p.map_values(|c: CommandV| to_rules_spec(c)));
    res
}

// ---------------------------------------------------------------------------
// Deciding whether a program can be desugared.
fn add_capped(a: Option<u64>, b: Option<u64>) -> (r: Option<u64>)
    ensures
        match (a, b) {
            (Some(x), Some(y)) => if x + y <= u64::MAX { r == Some((x + y) as u64) } else { r is None },
            _ => r is None,
        },
{
    match (a, b) {
        (Some(x), Some(y)) => x.checked_add(y),
        _ => None,
    }
}

/// The size of `e` when it fits in a `u64`.
pub fn expr_size_checked(e: &Expr) -> (r: Option<u64>)
    ensures
        r is Some <==> expr_size(e@) <= u64::MAX,
        r is Some ==> r->Some_0 == expr_size(e@),
    decreases e@,
{
    match e {
        Expr::Call(f, children) => {
            let ghost args = exprs_view(children@);
            proof {
                lemma_call_view(*f, *children);
            }
            let mut sum: Option<u64> = Some(0);
            let mut i: usize = 0;
            while i < children.len()
                invariant
                    *e == Expr::Call(*f, *children),
                    e@ == ExprV::Call(f@, args),
                    args == exprs_view(children@),
                    i <= children.len(),
                    sum is Some <==> args_size(args, i as nat) <= u64::MAX,
                    sum is Some ==> sum->Some_0 == args_size(args, i as nat),
                decreases children.len() - i,
            {
                assert(args[i as int] == children@[i as int]@);
                assert(e@->Call_1[i as int] == children@[i as int]@);
                let c = expr_size_checked(&children[i]);
                proof {
                    if c is None {
                        lemma_args_size_mono(args, (i + 1) as nat, args.len());
                    }
                }
                sum = add_capped(sum, c);
                i += 1;
            }
            add_capped(Some(1), sum)
        },
        _ => Some(1),
    }
}

fn exprs_size_checked(es: &Vec<Expr>) -> (r: Option<u64>)
    ensures
        r is Some <==> args_size(exprs_view(es@), es@.len()) <= u64::MAX,
        r is Some ==> r->Some_0 == args_size(exprs_view(es@), es@.len()),
{
    let ghost args = exprs_view(es@);
    let mut sum: Option<u64> = Some(0);
    let mut i: usize = 0;
    while i < es.len()
        invariant
            args == exprs_view(es@),
            i <= es.len(),
            sum is Some <==> args_size(args, i as nat) <= u64::MAX,
            sum is Some ==> sum->Some_0 == args_size(args, i as nat),
        decreases es.len() - i,
    {
        assert(args[i as int] == es@[i as int]@);
        let c = expr_size_checked(&es[i]);
        sum = add_capped(sum, c);
        i += 1;
    }
    sum
}

/// Whether a rule can be flattened: its equality facts are binary and its size fits.
pub fn rule_flattenable_check(rule: &Rule) -> (r: bool)
    ensures
        r == rule_flattenable(rule@),
{
    let ghost fs = facts_view(rule.body@);
    let ghost acts = actions_view(rule.head@);
    let mut total: Option<u64> = Some(0);
    let mut i: usize = 0;
    while i < rule.head.len()
        invariant
            acts == actions_view(rule.head@),
            i <= rule.head.len(),
            total is Some <==> actions_size(acts, i as nat) <= u64::MAX,
            total is Some ==> total->Some_0 == actions_size(acts, i as nat),
        decreases rule.head.len() - i,
    {
        assert(acts[i as int] == rule.head@[i as int]@);
        let size = match &rule.head[i] {
            Action::Let(_, e) | Action::Expr(e) => expr_size_checked(e),
            Action::SetValue(_, args, rhs) => add_capped(exprs_size_checked(args), expr_size_checked(rhs)),
            Action::Delete(_, args) => exprs_size_checked(args),
            Action::Union(a, b) => add_capped(expr_size_checked(a), expr_size_checked(b)),
            Action::Panic(_) => Some(0),
        };
        total = add_capped(total, size);
        i += 1;
    }
    let ghost head_total = actions_size(acts, acts.len());
    let mut j: usize = 0;
    let mut body_total: Option<u64> = Some(0);
    while j < rule.body.len()
        invariant
            fs == facts_view(rule.body@),
            j <= rule.body.len(),
            forall|k: int| 0 <= k < j ==> (#[trigger] fs[k] is Eq ==> fs[k]->Eq_0.len() == 2),
            body_total is Some <==> facts_size(fs, j as nat) <= u64::MAX,
            body_total is Some ==> body_total->Some_0 == facts_size(fs, j as nat),
        decreases rule.body.len() - j,
    {
        assert(fs[j as int] == rule.body@[j as int]@);
        let size = match &rule.body[j] {
            Fact::Eq(args) => {
                if args.len() != 2 {
                    return false;
                }
                assert(exprs_view(args@)[0] == args@[0]@ && exprs_view(args@)[1] == args@[1]@);
                add_capped(Some(1), add_capped(expr_size_checked(&args[0]), expr_size_checked(&args[1])))
            },
            Fact::Fact(e) => add_capped(Some(1), expr_size_checked(e)),
        };
        body_total = add_capped(body_total, size);
        j += 1;
    }
    add_capped(total, body_total).is_some()
}

/// Whether every rule a command holds can be flattened.
pub fn command_desugarable_check(c: &Command) -> (r: bool)
    ensures
        r == command_desugarable(c@),
{
    match c {
        Command::Rule(_, rule) => rule_flattenable_check(rule),
        Command::Rewrite(_, rw) => rewrite_flattenable_check(rw, false),
        Command::BiRewrite(_, rw) => rewrite_flattenable_check(rw, false) && rewrite_flattenable_check(rw, true),
        _ => true,
    }
}

fn rewrite_flattenable_check(rw: &Rewrite, swapped: bool) -> (r: bool)
    ensures
        r == if swapped {
            rule_flattenable(rewrite_rule(mirror(rw@)))
        } else {
            rule_flattenable(rewrite_rule(rw@))
        },
{
    let (lhs, rhs) = if swapped {
        (rw.rhs.copy(), rw.lhs.copy())
    } else {
        (rw.lhs.copy(), rw.rhs.copy())
    };
    let mut sides: Vec<Expr> = Vec::new();
    sides.push(Expr::Var(String::from_str("rewrite_var__")));
    sides.push(lhs);
    proof {
        reveal_strlit("rewrite_var__");
        assert(exprs_view(sides@) =~= seq![ExprV::Var(rewrite_var()), sides@[1]@]);
    }
    let mut body: Vec<Fact> = Vec::new();
    body.push(Fact::Eq(sides));
    let mut conds = copy_facts(&rw.conditions);
    body.append(&mut conds);
    let mut head: Vec<Action> = Vec::new();
    head.push(Action::Union(Expr::Var(String::from_str("rewrite_var__")), rhs));
    let rule = Rule { body, head };
    proof {
        reveal_strlit("rewrite_var__");
        let want = if swapped { rewrite_rule(mirror(rw@)) } else { rewrite_rule(rw@) };
        assert(facts_view(rule.body@) =~= want.body);
        assert(actions_view(rule.head@) =~= want.head);
    }
    rule_flattenable_check(&rule)
}

/// Whether `desugar_program` accepts the program.
pub fn program_desugarable_check(p: &Vec<Command>) -> (r: bool)
    ensures
        r == program_desugarable(commands_view(p@)),
{
    let mut i: usize = 0;
    while i < p.len()
        invariant
            i <= p.len(),
            forall|k: int| 0 <= k < i ==> command_desugarable(#[trigger] commands_view(p@)[k]),
        decreases p.len() - i,
    {
        if !command_desugarable_check(&p[i]) {
            assert(!command_desugarable(commands_view(p@)[i as int]));
            return false;
        }
        i += 1;
    }
    true
}

} // verus!
