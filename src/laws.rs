//! Laws of desugaring, flattening and proof instrumentation, proved over the spec
//! functions that the executable passes are shown to compute.
use vstd::prelude::*;
use crate::ast::{
    ActionV, CommandV, ExprV, FactV, NormActionV, NormExprV, RewriteV, RuleV, SSAActionV, SSAFactV,
    VariantV,
};
use crate::desugar::{
    desugar_command_spec, desugar_datatype_spec, flatten_rule_spec, flatten_facts_spec,
    rewrite_rule, rewrite_var, variant_decl, ssa_expr, ssa_args, SsaSt, flat_eqs, EqSt, fact_eqs,
    flat_expr, flat_args, add_expr, ActSt, flat_actions,
};
use crate::proofs::{
    eqgraph_pair, evar, merge_action_spec, original_eq_pair,
};
use crate::fresh::{fresh_name, lemma_fresh_name_injective};

verus! {

/// Desugaring leaves every command that is not a datatype, a rewrite, a bidirectional
/// rewrite, a rule or an include as it is.
pub proof fn lemma_desugar_leaves(c: CommandV)
    requires
        !(c is Datatype),
        !(c is Rewrite),
        !(c is BiRewrite),
        !(c is Rule),
        !(c is Include),
    ensures
        desugar_command_spec(c) == seq![c],
{
}

/// A datatype with `k` variants desugars to `k + 1` commands: its sort, then one
/// function per variant whose output is the datatype.
pub proof fn lemma_datatype_arity(name: Seq<char>, variants: Seq<VariantV>)
    ensures
        desugar_command_spec(CommandV::Datatype { name, variants }).len() == variants.len() + 1,
        desugar_command_spec(CommandV::Datatype { name, variants })[0] == CommandV::Sort(name),
        forall|i: int|
            0 <= i < variants.len() ==> {
                let c = #[trigger] desugar_command_spec(CommandV::Datatype { name, variants })[i + 1];
                &&& c is Function
                &&& c->Function_0.schema.output == name
                &&& c->Function_0.name == variants[i].name
            },
{
    let r = desugar_datatype_spec(name, variants);
    assert forall|i: int| 0 <= i < variants.len() implies #[trigger] r[i + 1] == CommandV::Function(
        variant_decl(name, variants[i]),
    ) by {}
}

// ---------------------------------------------------------------------------
/// Every assignment of `res` binds a fresh name numbered at most `next`.
pub open spec fn assigns_fresh(res: Seq<SSAFactV>, next: nat) -> bool {
    forall|i: int|
        0 <= i < res.len() && (#[trigger] res[i]) is Assign ==> exists|k: nat|
            1 <= k <= next && res[i]->Assign_0 == fresh_name(k)
}

/// No variable is the left-hand side of two assignments.
pub open spec fn single_assignment(body: Seq<SSAFactV>) -> bool {
    forall|i: int, j: int|
        0 <= i < j < body.len() && (#[trigger] body[i]) is Assign && (#[trigger] body[j]) is Assign
            ==> body[i]->Assign_0 != body[j]->Assign_0
}

pub open spec fn no_assign(s: Seq<SSAFactV>) -> bool {
    forall|i: int| 0 <= i < s.len() ==> !((#[trigger] s[i]) is Assign)
}

pub open spec fn ssa_inv(st: SsaSt) -> bool {
    assigns_fresh(st.res, st.next) && single_assignment(st.res) && no_assign(st.cons)
}

proof fn lemma_push_fresh_assign(res: Seq<SSAFactV>, next: nat, f: SSAFactV)
    requires
        assigns_fresh(res, next),
        single_assignment(res),
        f is Assign,
        f->Assign_0 == fresh_name(next + 1),
    ensures
        assigns_fresh(res.push(f), next + 1),
        single_assignment(res.push(f)),
{
    let r = res.push(f);
    assert forall|i: int| 0 <= i < r.len() && (#[trigger] r[i]) is Assign implies exists|k: nat|
        1 <= k <= next + 1 && r[i]->Assign_0 == fresh_name(k) by {
        if i < res.len() {
            assert(res[i] is Assign);
        } else {
            assert(r[i]->Assign_0 == fresh_name(next + 1));
        }
    }
    assert forall|i: int, j: int|
        0 <= i < j < r.len() && (#[trigger] r[i]) is Assign && (#[trigger] r[j]) is Assign implies r[i]->Assign_0
        != r[j]->Assign_0 by {
        if j < res.len() {
            assert(res[i] is Assign && res[j] is Assign);
        } else {
            assert(res[i] is Assign);
            let k = choose|k: nat| 1 <= k <= next && res[i]->Assign_0 == fresh_name(k);
            lemma_fresh_name_injective(k, next + 1);
        }
    }
}

proof fn lemma_push_other(res: Seq<SSAFactV>, next: nat, m: nat, f: SSAFactV)
    requires
        assigns_fresh(res, next),
        single_assignment(res),
        next <= m,
        !(f is Assign),
    ensures
        assigns_fresh(res.push(f), m),
        single_assignment(res.push(f)),
{
    let r = res.push(f);
    assert forall|i: int| 0 <= i < r.len() && (#[trigger] r[i]) is Assign implies exists|k: nat|
        1 <= k <= m && r[i]->Assign_0 == fresh_name(k) by {
        assert(res[i] is Assign);
        let k = choose|k: nat| 1 <= k <= next && res[i]->Assign_0 == fresh_name(k);
    }
    assert forall|i: int, j: int|
        0 <= i < j < r.len() && (#[trigger] r[i]) is Assign && (#[trigger] r[j]) is Assign implies r[i]->Assign_0
        != r[j]->Assign_0 by {
        assert(res[i] is Assign && res[j] is Assign);
    }
}

proof fn lemma_no_assign_push(s: Seq<SSAFactV>, f: SSAFactV)
    requires
        no_assign(s),
        !(f is Assign),
    ensures
        no_assign(s.push(f)),
{
    assert forall|i: int| 0 <= i < s.push(f).len() implies !((#[trigger] s.push(f)[i]) is Assign) by {
        if i < s.len() {
            assert(s.push(f)[i] == s[i]);
        }
    }
}

proof fn lemma_bump(res: Seq<SSAFactV>, next: nat, m: nat)
    requires
        assigns_fresh(res, next),
        next <= m,
    ensures
        assigns_fresh(res, m),
{
    assert forall|i: int| 0 <= i < res.len() && (#[trigger] res[i]) is Assign implies exists|k: nat|
        1 <= k <= m && res[i]->Assign_0 == fresh_name(k) by {
        let k = choose|k: nat| 1 <= k <= next && res[i]->Assign_0 == fresh_name(k);
    }
}

/// Flattening an expression keeps earlier facts, moves the counter forward, and binds
/// each new assignment to a name not used before.
pub proof fn lemma_ssa_expr(e: ExprV, st: SsaSt)
    requires
        ssa_inv(st),
    ensures
        ssa_inv(ssa_expr(e, st).0),
        ssa_expr(e, st).0.next >= st.next,
        ssa_expr(e, st).0.res.len() >= st.res.len(),
        ssa_expr(e, st).0.res.subrange(0, st.res.len() as int) == st.res,
    decreases e, 0nat,
{
    let (st2, v) = ssa_expr(e, st);
    match e {
        ExprV::Lit(l) => {
            lemma_push_fresh_assign(st.res, st.next, SSAFactV::Assign(v, crate::ast::SSAExprV::Lit(l)));
            assert(st2.res.subrange(0, st.res.len() as int) =~= st.res);
        },
        ExprV::Var(x) => {
            if !st.used.contains(x) {
                assert(st2.res =~= st.res);
            } else if st.just.contains(x) {
                lemma_no_assign_push(st.cons, SSAFactV::ConstrainEq(v, x));
                lemma_bump(st.res, st.next, st.next + 1);
                assert(st2.res =~= st.res);
            } else {
                lemma_push_other(st.res, st.next, st.next + 1, SSAFactV::ConstrainEq(v, x));
                assert(st2.res.subrange(0, st.res.len() as int) =~= st.res);
            }
        },
        ExprV::Call(f, args) => {
            lemma_ssa_args(args, st, args.len());
            let (st1, names) = ssa_args(args, st, args.len());
            lemma_push_fresh_assign(
                st1.res,
                st1.next,
                SSAFactV::Assign(v, crate::ast::SSAExprV::Call(f, names)),
            );
            assert(st2.res.subrange(0, st.res.len() as int) =~= st.res) by {
                assert(st2.res.subrange(0, st1.res.len() as int) =~= st1.res);
                assert(st1.res.subrange(0, st.res.len() as int) == st.res);
            }
        },
    }
}

pub proof fn lemma_ssa_args(args: Seq<ExprV>, st: SsaSt, n: nat)
    requires
        ssa_inv(st),
    ensures
        ssa_inv(ssa_args(args, st, n).0),
        ssa_args(args, st, n).0.next >= st.next,
        ssa_args(args, st, n).0.res.len() >= st.res.len(),
        ssa_args(args, st, n).0.res.subrange(0, st.res.len() as int) == st.res,
    decreases args, n,
{
    if n == 0 || n > args.len() {
        assert(st.res.subrange(0, st.res.len() as int) =~= st.res);
    } else {
        lemma_ssa_args(args, st, (n - 1) as nat);
        let (st1, names) = ssa_args(args, st, (n - 1) as nat);
        lemma_ssa_expr(args[n - 1], st1);
        let st2 = ssa_expr(args[n - 1], st1).0;
        assert(st2.res.subrange(0, st.res.len() as int) =~= st.res) by {
            assert(st2.res.subrange(0, st1.res.len() as int) == st1.res);
            assert(st1.res.subrange(0, st.res.len() as int) == st.res);
        }
    }
}

pub open spec fn eq_inv(st: EqSt) -> bool {
    assigns_fresh(st.res, st.next) && single_assignment(st.res)
}

proof fn lemma_append_no_assign(res: Seq<SSAFactV>, next: nat, cons: Seq<SSAFactV>)
    requires
        assigns_fresh(res, next),
        single_assignment(res),
        no_assign(cons),
    ensures
        assigns_fresh(res + cons, next),
        single_assignment(res + cons),
{
    let r = res + cons;
    assert forall|i: int| 0 <= i < r.len() && (#[trigger] r[i]) is Assign implies exists|k: nat|
        1 <= k <= next && r[i]->Assign_0 == fresh_name(k) by {
        if i >= res.len() {
            assert(cons[i - res.len()] == r[i]);
        } else {
            assert(res[i] is Assign);
        }
    }
    assert forall|i: int, j: int|
        0 <= i < j < r.len() && (#[trigger] r[i]) is Assign && (#[trigger] r[j]) is Assign implies r[i]->Assign_0
        != r[j]->Assign_0 by {
        if j >= res.len() {
            assert(cons[j - res.len()] == r[j]);
        } else {
            assert(res[i] is Assign && res[j] is Assign);
        }
    }
}

pub proof fn lemma_flat_eqs(eqs: Seq<(Seq<char>, ExprV)>, st: EqSt, n: nat)
    requires
        eq_inv(st),
    ensures
        eq_inv(flat_eqs(eqs, st, n)),
        flat_eqs(eqs, st, n).next >= st.next,
    decreases n,
{
    if n > 0 && n <= eqs.len() {
        lemma_flat_eqs(eqs, st, (n - 1) as nat);
        let prev = flat_eqs(eqs, st, (n - 1) as nat);
        let (lhs, rhs) = eqs[n - 1];
        let s0 = SsaSt { next: prev.next, used: prev.used, just: Set::empty(), res: prev.res, cons: seq![] };
        assert(no_assign(s0.cons));
        lemma_ssa_expr(rhs, s0);
        let (st1, r) = ssa_expr(rhs, s0);
        lemma_append_no_assign(st1.res, st1.next, st1.cons);
        lemma_push_other(st1.res + st1.cons, st1.next, st1.next, SSAFactV::ConstrainEq(lhs, r));
    }
}

/// In every flattened rule body, each variable is the left-hand side of at most one
/// assignment.
pub proof fn lemma_flatten_single_assignment(r: RuleV)
    ensures
        single_assignment(flatten_rule_spec(r).body),
{
    let h = flat_actions(r.head, ActSt { next: 0, res: seq![] }, r.head.len());
    let (k, eqs) = fact_eqs(r.body, h.next, r.body.len());
    let st = EqSt { next: k, used: Set::empty(), res: seq![] };
    lemma_flat_eqs(eqs, st, eqs.len());
}

// ---------------------------------------------------------------------------
/// Number of unions among flat actions.
pub open spec fn union_count(s: Seq<SSAActionV>) -> nat
    decreases s.len(),
{
    if s.len() == 0 {
        0
    } else {
        union_count(s.drop_last()) + if s.last() is Union {
            1nat
        } else {
            0nat
        }
    }
}

proof fn lemma_union_count_push(s: Seq<SSAActionV>, a: SSAActionV)
    ensures
        union_count(s.push(a)) == union_count(s) + if a is Union {
            1nat
        } else {
            0nat
        },
{
    assert(s.push(a).drop_last() =~= s);
}

proof fn lemma_flat_expr_no_union(assign: Seq<char>, e: ExprV, st: ActSt)
    ensures
        union_count(flat_expr(assign, e, st).res) == union_count(st.res),
    decreases e, 0nat,
{
    match e {
        ExprV::Lit(l) => lemma_union_count_push(st.res, SSAActionV::Let(assign, crate::ast::SSAExprV::Lit(l))),
        ExprV::Var(v) => lemma_union_count_push(st.res, SSAActionV::LetVar(assign, v)),
        ExprV::Call(f, args) => {
            lemma_flat_args_no_union(args, st, args.len());
            let (st1, names) = flat_args(args, st, args.len());
            lemma_union_count_push(st1.res, SSAActionV::Let(assign, crate::ast::SSAExprV::Call(f, names)));
        },
    }
}

proof fn lemma_flat_args_no_union(args: Seq<ExprV>, st: ActSt, n: nat)
    ensures
        union_count(flat_args(args, st, n).0.res) == union_count(st.res),
    decreases args, n,
{
    if n > 0 && n <= args.len() {
        lemma_flat_args_no_union(args, st, (n - 1) as nat);
        let (st1, names) = flat_args(args, st, (n - 1) as nat);
        let v = fresh_name(st1.next + 1);
        lemma_flat_expr_no_union(v, args[n - 1], ActSt { next: st1.next + 1, res: st1.res });
    }
}

/// The variable that holds the flattened left-hand side of a rewrite, with the facts
/// that compute it.
pub open spec fn rewrite_lhs_flat(rw: RewriteV) -> (SsaSt, Seq<char>) {
    let r = rewrite_rule(rw);
    let h = flat_actions(r.head, ActSt { next: 0, res: seq![] }, r.head.len());
    let (k, eqs) = fact_eqs(r.body, h.next, r.body.len());
    ssa_expr(
        rw.lhs,
        SsaSt { next: k, used: Set::empty(), just: Set::empty(), res: seq![], cons: seq![] },
    )
}

proof fn lemma_fact_eqs_prefix(facts: Seq<FactV>, next: nat, m: nat, n: nat)
    requires
        m <= n <= facts.len(),
    ensures
        fact_eqs(facts, next, n).1.len() >= fact_eqs(facts, next, m).1.len(),
        fact_eqs(facts, next, n).1.subrange(0, fact_eqs(facts, next, m).1.len() as int)
            == fact_eqs(facts, next, m).1,
    decreases n,
{
    if m == n {
        assert(fact_eqs(facts, next, n).1.subrange(0, fact_eqs(facts, next, n).1.len() as int)
            =~= fact_eqs(facts, next, n).1);
    } else {
        lemma_fact_eqs_prefix(facts, next, m, (n - 1) as nat);
        let a = fact_eqs(facts, next, m).1;
        let b = fact_eqs(facts, next, (n - 1) as nat).1;
        let c = fact_eqs(facts, next, n).1;
        assert(c.subrange(0, b.len() as int) =~= b);
        assert(c.subrange(0, a.len() as int) =~= b.subrange(0, a.len() as int));
    }
}

proof fn lemma_flat_eqs_prefix(eqs: Seq<(Seq<char>, ExprV)>, st: EqSt, n: nat)
    requires
        eq_inv(st),
        1 <= n <= eqs.len(),
    ensures
        flat_eqs(eqs, st, n).res.len() >= flat_eqs(eqs, st, 1).res.len(),
        flat_eqs(eqs, st, n).res.subrange(0, flat_eqs(eqs, st, 1).res.len() as int) == flat_eqs(
            eqs,
            st,
            1,
        ).res,
    decreases n,
{
    let a = flat_eqs(eqs, st, 1).res;
    if n == 1 {
        assert(a.subrange(0, a.len() as int) =~= a);
    } else {
        lemma_flat_eqs_prefix(eqs, st, (n - 1) as nat);
        lemma_flat_eqs(eqs, st, (n - 1) as nat);
        let prev = flat_eqs(eqs, st, (n - 1) as nat);
        let (lhs, rhs) = eqs[n - 1];
        let s0 = SsaSt { next: prev.next, used: prev.used, just: Set::empty(), res: prev.res, cons: seq![] };
        lemma_ssa_expr(rhs, s0);
        let c = flat_eqs(eqs, st, n).res;
        let (st1, r) = ssa_expr(rhs, s0);
        assert(c.subrange(0, prev.res.len() as int) =~= prev.res) by {
            assert(st1.res.subrange(0, prev.res.len() as int) == prev.res);
            assert(c.subrange(0, prev.res.len() as int) =~= st1.res.subrange(0, prev.res.len() as int));
        }
        assert(c.subrange(0, a.len() as int) =~= prev.res.subrange(0, a.len() as int));
    }
}

/// A rewrite flattens to a rule with exactly one union in its head, whose body begins
/// with the facts computing the left-hand side, closed by the constraint that equates
/// the rewrite variable with the variable holding it.
pub proof fn lemma_rewrite_rule_shape(rw: RewriteV)
    ensures
        union_count(flatten_rule_spec(rewrite_rule(rw)).head) == 1,
        ({
            let body = flatten_rule_spec(rewrite_rule(rw)).body;
            let (s, v) = rewrite_lhs_flat(rw);
            let prefix = (s.res + s.cons).push(SSAFactV::ConstrainEq(rewrite_var(), v));
            &&& body.len() >= prefix.len()
            &&& body.subrange(0, prefix.len() as int) == prefix
        }),
{
    let r = rewrite_rule(rw);
    let st0 = ActSt { next: 0, res: seq![] };
    // head
    let (st1, a) = add_expr(ExprV::Var(rewrite_var()), st0);
    lemma_flat_expr_no_union(fresh_name(1), ExprV::Var(rewrite_var()), ActSt { next: 1, res: seq![] });
    let (st2, b) = add_expr(rw.rhs, st1);
    lemma_flat_expr_no_union(fresh_name(st1.next + 1), rw.rhs, ActSt { next: st1.next + 1, res: st1.res });
    lemma_union_count_push(st2.res, SSAActionV::Union(a, b));
    assert(r.head[0] == ActionV::Union(ExprV::Var(rewrite_var()), rw.rhs));
    assert(flat_actions(r.head, st0, 0) == st0);
    assert(flat_actions(r.head, st0, 1) == ActSt { next: st2.next, res: st2.res.push(SSAActionV::Union(a, b)) });
    assert(union_count(seq![]) == 0);
    // body
    let h = flat_actions(r.head, st0, r.head.len());
    let (k, eqs) = fact_eqs(r.body, h.next, r.body.len());
    assert(r.body[0] == FactV::Eq(seq![ExprV::Var(rewrite_var()), rw.lhs]));
    assert(fact_eqs(r.body, h.next, 0).1 =~= seq![]);
    assert(fact_eqs(r.body, h.next, 1).1 =~= seq![(rewrite_var(), rw.lhs)]);
    lemma_fact_eqs_prefix(r.body, h.next, 1, r.body.len());
    assert(eqs[0] == fact_eqs(r.body, h.next, r.body.len()).1.subrange(0, 1)[0]);
    let st = EqSt { next: k, used: Set::empty(), res: seq![] };
    assert(eq_inv(st));
    lemma_flat_eqs_prefix(eqs, st, eqs.len());
    let s0 = SsaSt { next: k, used: Set::empty(), just: Set::empty(), res: seq![], cons: seq![] };
    assert(flat_eqs(eqs, st, 0) == st);
    assert(flatten_facts_spec(r.body, h.next) == flat_eqs(eqs, st, eqs.len()));
}

// ---------------------------------------------------------------------------
/// Every write to the equality graph comes with the write of the reversed pair, whose
/// proof is the flip of the first: when representatives merge, for equalities the program
/// states itself, and when a rule fires.
pub proof fn lemma_eqgraph_symmetric(
    t1: Seq<char>,
    t2: Seq<char>,
    old_prf: Seq<char>,
    n: nat,
    a: Seq<char>,
    b: Seq<char>,
    rule_proof: Seq<char>,
    flipped: Seq<char>,
)
    ensures
        ({
            let m = merge_action_spec(t1, t2, old_prf, n);
            let c = evar("congr_prf__"@);
            &&& m[m.len() - 2] == ActionV::SetValue("EqGraph__"@, seq![evar(t1), evar(t2)], c)
            &&& m[m.len() - 1] == ActionV::SetValue(
                "EqGraph__"@,
                seq![evar(t2), evar(t1)],
                ExprV::Call("Flip__"@, seq![c]),
            )
        }),
        ({
            let o = original_eq_pair(a, b);
            let p = ExprV::Call("OriginalEq__"@, seq![evar(a), evar(b)]);
            &&& o[0] == CommandV::Action(ActionV::SetValue("EqGraph__"@, seq![evar(a), evar(b)], p))
            &&& o[1] == CommandV::Action(
                ActionV::SetValue("EqGraph__"@, seq![evar(b), evar(a)], ExprV::Call("Flip__"@, seq![p])),
            )
        }),
        ({
            let g = eqgraph_pair(a, b, rule_proof, flipped);
            &&& g[0] == NormActionV::Let(flipped, NormExprV::Call("Flip__"@, seq![rule_proof]))
            &&& g[1] == NormActionV::SetValue(NormExprV::Call("EqGraph__"@, seq![a, b]), rule_proof)
            &&& g[2] == NormActionV::SetValue(NormExprV::Call("EqGraph__"@, seq![b, a]), flipped)
        }),
{
    let m = merge_action_spec(t1, t2, old_prf, n);
    assert(m.len() >= 2);
}

} // verus!
