//! The small-step evaluator: one structural rewrite at a time over an
//! expression and a store, until the expression is irreducible.

use vstd::prelude::*;

use crate::ast::Assignment;
use crate::ast::Expr;
use crate::ast::ExprView;
use crate::ast::IfThenElse;
use crate::ast::Op;
use crate::ast::Operation;
use crate::ast::lemma_views_of;
use crate::ast::views_of;
use crate::store::Store;

verus! {

/// The ways a reduction step can go fatally wrong: reading an unbound
/// location, applying an operator to something other than two integers, or
/// branching on a non-boolean predicate.
#[derive(Clone, Copy, PartialEq, Eq, Structural, Debug)]
pub enum Fault {
    UnboundLocation,
    InvalidOperands(Op),
    NonBooleanPredicate,
}

/// The irreducible expressions: `skip` and the two kinds of literal.
pub open spec fn is_value(e: ExprView) -> bool {
    match e {
        ExprView::Skip => true,
        ExprView::Boolean(_) => true,
        ExprView::Integer(_) => true,
        _ => false,
    }
}

/// Every sequence node of the expression has at least two elements, as the
/// parser guarantees and every reduction step preserves.
pub open spec fn sequences_wf(e: ExprView) -> bool
    decreases e,
{
    match e {
        ExprView::Assignment(_, value) => sequences_wf(*value),
        ExprView::Operation(_, lhs, rhs) => sequences_wf(*lhs) && sequences_wf(*rhs),
        ExprView::IfThenElse(p, c, a) => sequences_wf(*p) && sequences_wf(*c) && sequences_wf(*a),
        ExprView::WhileLoop(p, b) => sequences_wf(*p) && sequences_wf(*b),
        ExprView::Sequence(es) => es.len() >= 2 && sequences_wf_all(es),
        _ => true,
    }
}

/// `sequences_wf` over every element of a list.
pub open spec fn sequences_wf_all(es: Seq<ExprView>) -> bool
    decreases es,
{
    if es.len() == 0 {
        true
    } else {
        sequences_wf(es[0]) && sequences_wf_all(es.drop_first())
    }
}

/// `sequences_wf_all` holds exactly when `sequences_wf` holds of each element.
pub proof fn lemma_sequences_wf_all(es: Seq<ExprView>)
    ensures
        sequences_wf_all(es) <==> (forall|i: int| 0 <= i < es.len() ==> sequences_wf(es[i])),
    decreases es.len(),
{
    if es.len() > 0 {
        lemma_sequences_wf_all(es.drop_first());
        assert(forall|i: int|
            0 < i < es.len() ==> es[i] == es.drop_first()[i - 1]);
    }
}

/// An irreducible expression is a leaf, so it is trivially well formed.
pub proof fn lemma_value_wf(e: ExprView)
    requires
        is_value(e),
    ensures
        sequences_wf(e),
        !step_overflow(e),
{
    match e {
        ExprView::Skip => {
            assert(sequences_wf(e));
        },
        ExprView::Boolean(_) => {
            assert(sequences_wf(e));
        },
        ExprView::Integer(_) => {
            assert(sequences_wf(e));
        },
        _ => {
        },
    }
}

/// Every value the store holds is irreducible: assignment commits only fully
/// reduced right-hand sides.
pub open spec fn store_values_wf(s: Map<Seq<char>, ExprView>) -> bool {
    forall|loc: Seq<char>| #[trigger] s.contains_key(loc) ==> is_value(s[loc])
}

/// Whether the one reduction step that fires next is an addition whose exact
/// sum falls outside the 64-bit signed range.
pub open spec fn step_overflow(e: ExprView) -> bool
    decreases e,
{
    match e {
        ExprView::Assignment(_, value) => !is_value(*value) && step_overflow(*value),
        ExprView::Operation(op, lhs, rhs) => if !is_value(*lhs) {
            step_overflow(*lhs)
        } else if !is_value(*rhs) {
            step_overflow(*rhs)
        } else {
            match (op, *lhs, *rhs) {
                (Op::Add, ExprView::Integer(a), ExprView::Integer(b)) => a + b > i64::MAX || a + b
                    < i64::MIN,
                _ => false,
            }
        },
        ExprView::IfThenElse(p, _, _) => !is_value(*p) && step_overflow(*p),
        ExprView::Sequence(es) => es.len() >= 1 && !is_value(es[0]) && step_overflow(es[0]),
        _ => false,
    }
}

/// The one-step reduction relation, as a function: the unique successor of a
/// reducible expression and store, or the fault that stops the run.  The
/// reduction order is leftmost-innermost: an assignment reduces its value, an
/// operation its left operand first, a conditional its predicate; a while-loop
/// unrolls one test; a sequence drops a finished first element or reduces it.
pub open spec fn step(e: ExprView, s: Map<Seq<char>, ExprView>) -> Result<
    (ExprView, Map<Seq<char>, ExprView>),
    Fault,
>
    recommends
        !is_value(e),
    decreases e,
{
    match e {
        ExprView::Dereference(loc) => if s.contains_key(loc) {
            Ok((s[loc], s))
        } else {
            Err(Fault::UnboundLocation)
        },
        ExprView::Assignment(loc, value) => if is_value(*value) {
            Ok((ExprView::Skip, s.insert(loc, *value)))
        } else {
            match step(*value, s) {
                Ok((v2, s2)) => Ok((ExprView::Assignment(loc, Box::new(v2)), s2)),
                Err(f) => Err(f),
            }
        },
        ExprView::Operation(op, lhs, rhs) => if !is_value(*lhs) {
            match step(*lhs, s) {
                Ok((l2, s2)) => Ok((ExprView::Operation(op, Box::new(l2), rhs), s2)),
                Err(f) => Err(f),
            }
        } else if !is_value(*rhs) {
            match step(*rhs, s) {
                Ok((r2, s2)) => Ok((ExprView::Operation(op, lhs, Box::new(r2)), s2)),
                Err(f) => Err(f),
            }
        } else {
            match (op, *lhs, *rhs) {
                (Op::Add, ExprView::Integer(a), ExprView::Integer(b)) => Ok(
                    (ExprView::Integer(a + b), s),
                ),
                (Op::GreaterEqual, ExprView::Integer(a), ExprView::Integer(b)) => Ok(
                    (ExprView::Boolean(a >= b), s),
                ),
                _ => Err(Fault::InvalidOperands(op)),
            }
        },
        ExprView::IfThenElse(p, c, a) => if !is_value(*p) {
            match step(*p, s) {
                Ok((p2, s2)) => Ok((ExprView::IfThenElse(Box::new(p2), c, a), s2)),
                Err(f) => Err(f),
            }
        } else {
            match *p {
                ExprView::Boolean(b) => if b {
                    Ok((*c, s))
                } else {
                    Ok((*a, s))
                },
                _ => Err(Fault::NonBooleanPredicate),
            }
        },
        ExprView::WhileLoop(p, b) => Ok(
            (
                ExprView::IfThenElse(
                    p,
                    Box::new(ExprView::Sequence(seq![*b, ExprView::WhileLoop(p, b)])),
                    Box::new(ExprView::Skip),
                ),
                s,
            ),
        ),
        ExprView::Sequence(es) => if es.len() < 2 {
            arbitrary()
        } else if is_value(es[0]) {
            if es.len() == 2 {
                Ok((es[1], s))
            } else {
                Ok((ExprView::Sequence(es.drop_first()), s))
            }
        } else {
            match step(es[0], s) {
                Ok((e2, s2)) => Ok((ExprView::Sequence(es.update(0, e2)), s2)),
                Err(f) => Err(f),
            }
        },
        _ => arbitrary(),
    }
}

/// Dereferencing a location the store does not hold is the unbound-location
/// fault, never a silently produced default value; together with the contract
/// of `transition`, such a step reports the fault and leaves the expression
/// and the store unchanged.
pub proof fn lemma_unbound_dereference(loc: Seq<char>, s: Map<Seq<char>, ExprView>)
    requires
        !s.contains_key(loc),
    ensures
        step(ExprView::Dereference(loc), s) == Err::<
            (ExprView, Map<Seq<char>, ExprView>),
            Fault,
        >(Fault::UnboundLocation),
{
}

impl Expr {
    /// Whether a reduction step applies: true for every expression but the
    /// irreducible value forms.
    pub fn can_transition(&self) -> (r: bool)
        ensures
            r == !is_value(self@),
    {
        match self {
            Expr::Skip => false,
            Expr::Boolean(_) => false,
            Expr::Integer(_) => false,
            _ => true,
        }
    }

    /// Whether the one reduction step that fires next is an addition whose
    /// exact sum falls outside the 64-bit signed range, so that `transition`
    /// may not be called.
    pub fn step_would_overflow(&self) -> (r: bool)
        ensures
            r == step_overflow(self@),
        decreases self, 1int,
    {
        match self {
            Expr::Assignment(a) => a.value.can_transition() && a.value.step_would_overflow(),
            Expr::Operation(o) => {
                if o.lhs.can_transition() {
                    o.lhs.step_would_overflow()
                } else if o.rhs.can_transition() {
                    o.rhs.step_would_overflow()
                } else {
                    match (&o.lhs, &o.rhs) {
                        (Expr::Integer(x), Expr::Integer(y)) => {
                            match o.op {
                                Op::Add => (*y > 0 && *x > i64::MAX - *y) || (*y < 0 && *x
                                    < i64::MIN - *y),
                                Op::GreaterEqual => false,
                            }
                        },
                        _ => false,
                    }
                }
            },
            Expr::IfThenElse(node) => node.predicate.can_transition()
                && node.predicate.step_would_overflow(),
            Expr::Sequence(exprs) => {
                proof {
                    lemma_views_of(exprs@);
                }
                if exprs.len() >= 1 {
                    first_would_overflow(exprs)
                } else {
                    false
                }
            },
            _ => false,
        }
    }

    /// Performs exactly one reduction step in place, or reports the fault
    /// that stops the run, leaving expression and store unchanged.  On an
    /// irreducible expression it leaves both untouched.
    pub fn transition(&mut self, store: &mut Store) -> (r: Result<(), Fault>)
        requires
            old(store).wf(),
            store_values_wf(old(store)@),
            sequences_wf(old(self)@),
            !step_overflow(old(self)@),
        ensures
            final(store).wf(),
            store_values_wf(final(store)@),
            sequences_wf(final(self)@),
            is_value(old(self)@) ==> *final(self) == *old(self) && *final(store) == *old(store) && r
                == Ok::<(), Fault>(()),
            !is_value(old(self)@) ==> (r is Ok <==> step(old(self)@, old(store)@) is Ok),
            !is_value(old(self)@) && r is Ok ==> step(old(self)@, old(store)@) == Ok::<
                (ExprView, Map<Seq<char>, ExprView>),
                Fault,
            >((final(self)@, final(store)@)),
            !is_value(old(self)@) && r is Err ==> step(old(self)@, old(store)@) == Err::<
                (ExprView, Map<Seq<char>, ExprView>),
                Fault,
            >(r->Err_0) && final(self)@ == old(self)@ && *final(store) == *old(store),
    {
        let mut taken = Expr::Skip;
        core::mem::swap(self, &mut taken);
        let (stepped, r) = step_expr(taken, store);
        *self = stepped;
        r
    }
}

/// Whether the next reduction step inside the first element of a nonempty
/// sequence is an overflowing addition.
fn first_would_overflow(exprs: &Vec<Expr>) -> (r: bool)
    requires
        exprs@.len() >= 1,
    ensures
        r == (!is_value(exprs@[0]@) && step_overflow(exprs@[0]@)),
    decreases exprs, 0int,
{
    exprs[0].can_transition() && exprs[0].step_would_overflow()
}

/// One reduction step over an owned expression: the successor expression and
/// the outcome of the step.
fn step_expr(e: Expr, store: &mut Store) -> (res: (Expr, Result<(), Fault>))
    requires
        old(store).wf(),
        store_values_wf(old(store)@),
        sequences_wf(e@),
        !step_overflow(e@),
    ensures
        final(store).wf(),
        store_values_wf(final(store)@),
        sequences_wf(res.0@),
        is_value(e@) ==> res.0 == e && *final(store) == *old(store) && res.1 == Ok::<(), Fault>(()),
        !is_value(e@) ==> (res.1 is Ok <==> step(e@, old(store)@) is Ok),
        !is_value(e@) && res.1 is Ok ==> step(e@, old(store)@) == Ok::<
            (ExprView, Map<Seq<char>, ExprView>),
            Fault,
        >((res.0@, final(store)@)),
        !is_value(e@) && res.1 is Err ==> step(e@, old(store)@) == Err::<
            (ExprView, Map<Seq<char>, ExprView>),
            Fault,
        >(res.1->Err_0) && res.0@ == e@ && *final(store) == *old(store),
    decreases e,
{
    if !e.can_transition() {
        return (e, Ok(()));
    }
    let ghost e0 = e;
    match e {
        Expr::Dereference(location) => {
            match store.get(location.as_str()) {
                Some(value) => {
                    let value = value.clone();
                    proof {
                        lemma_value_wf(value@);
                    }
                    (value, Ok(()))
                },
                None => {
                    let out = Expr::Dereference(location);
                    proof {
                        assert(sequences_wf(out@));
                    }
                    (out, Err(Fault::UnboundLocation))
                },
            }
        },
        Expr::Assignment(a) => {
            let Assignment { location, value } = *a;
            if value.can_transition() {
                let (value2, r) = step_expr(value, store);
                let out = Expr::Assignment(Box::new(Assignment { location, value: value2 }));
                proof {
                    assert(sequences_wf(out@));
                }
                (out, r)
            } else {
                store.insert(location.as_str(), value);
                proof {
                    assert(sequences_wf(ExprView::Skip));
                }
                (Expr::Skip, Ok(()))
            }
        },
        Expr::Operation(o) => {
            let Operation { op, lhs, rhs } = *o;
            if lhs.can_transition() {
                let (lhs2, r) = step_expr(lhs, store);
                let out = Expr::Operation(Box::new(Operation { op, lhs: lhs2, rhs }));
                proof {
                    assert(sequences_wf(out@));
                }
                (out, r)
            } else if rhs.can_transition() {
                let (rhs2, r) = step_expr(rhs, store);
                let out = Expr::Operation(Box::new(Operation { op, lhs, rhs: rhs2 }));
                proof {
                    assert(sequences_wf(out@));
                }
                (out, r)
            } else {
                let apply: Option<Expr> = match (&lhs, &rhs) {
                    (Expr::Integer(x), Expr::Integer(y)) => {
                        match op {
                            Op::Add => Some(Expr::Integer(*x + *y)),
                            Op::GreaterEqual => Some(Expr::Boolean(*x >= *y)),
                        }
                    },
                    _ => None,
                };
                match apply {
                    Some(result) => {
                        proof {
                            lemma_value_wf(result@);
                        }
                        (result, Ok(()))
                    },
                    None => {
                        let out = Expr::Operation(Box::new(Operation { op, lhs, rhs }));
                        proof {
                            assert(sequences_wf(out@));
                        }
                        (out, Err(Fault::InvalidOperands(op)))
                    },
                }
            }
        },
        Expr::IfThenElse(node) => {
            let IfThenElse { predicate, consequent, alternative } = *node;
            if predicate.can_transition() {
                let (predicate2, r) = step_expr(predicate, store);
                let out = Expr::IfThenElse(
                    Box::new(IfThenElse { predicate: predicate2, consequent, alternative }),
                );
                proof {
                    assert(sequences_wf(out@));
                }
                (out, r)
            } else {
                match predicate {
                    Expr::Boolean(b) => {
                        proof {
                            assert(sequences_wf(e0@));
                            assert(sequences_wf(consequent@));
                            assert(sequences_wf(alternative@));
                        }
                        if b {
                            (consequent, Ok(()))
                        } else {
                            (alternative, Ok(()))
                        }
                    },
                    p => {
                        let out = Expr::IfThenElse(
                            Box::new(IfThenElse { predicate: p, consequent, alternative }),
                        );
                        proof {
                            assert(sequences_wf(out@));
                        }
                        (out, Err(Fault::NonBooleanPredicate))
                    },
                }
            }
        },
        Expr::WhileLoop(w) => {
            let predicate = w.predicate.clone();
            let body = w.body.clone();
            let mut elements: Vec<Expr> = Vec::new();
            elements.push(body);
            elements.push(Expr::WhileLoop(w));
            proof {
                lemma_views_of(elements@);
                let s2 = views_of(elements@);
                assert(s2 =~= seq![elements@[0]@, elements@[1]@]);
                assert(s2.drop_first() =~= seq![elements@[1]@]);
                assert(s2.drop_first().drop_first() =~= Seq::<ExprView>::empty());
                assert(sequences_wf_all(s2.drop_first().drop_first()));
                assert(sequences_wf_all(s2.drop_first()));
                assert(sequences_wf_all(s2));
            }
            let consequent = Expr::sequence(elements);
            proof {
                assert(sequences_wf(e0@));
                assert(sequences_wf(predicate@));
                assert(sequences_wf(ExprView::Skip));
                assert(sequences_wf(consequent@));
            }
            let out = Expr::if_then_else(predicate, consequent, Expr::skip());
            proof {
                assert(sequences_wf(out@));
            }
            (out, Ok(()))
        },
        Expr::Sequence(mut exprs) => {
            let ghost es = views_of(exprs@);
            proof {
                lemma_views_of(exprs@);
                lemma_sequences_wf_all(es);
            }
            let head_done = !exprs[0].can_transition();
            if head_done {
                exprs.remove(0);
                proof {
                    lemma_views_of(exprs@);
                    assert(views_of(exprs@) =~= es.drop_first());
                }
                if exprs.len() == 1 {
                    let mut rest = exprs;
                    let last = rest.remove(0);
                    proof {
                        assert(sequences_wf(last@));
                    }
                    (last, Ok(()))
                } else {
                    let out = Expr::Sequence(exprs);
                    proof {
                        assert(sequences_wf_all(es));
                        assert(sequences_wf(out@));
                    }
                    (out, Ok(()))
                }
            } else {
                let head = exprs.remove(0);
                let (head2, r) = step_expr(head, store);
                exprs.insert(0, head2);
                proof {
                    lemma_views_of(exprs@);
                    assert(views_of(exprs@) =~= es.update(0, head2@));
                    lemma_sequences_wf_all(es);
                    lemma_sequences_wf_all(views_of(exprs@));
                    assert forall|i: int| 0 <= i < es.len() implies sequences_wf(
                        es.update(0, head2@)[i],
                    ) by {
                        if i > 0 {
                            assert(es.update(0, head2@)[i] == es[i]);
                        }
                    }
                    if r is Err {
                        assert(es.update(0, head2@) =~= es);
                    }
                }
                let out = Expr::Sequence(exprs);
                proof {
                    assert(sequences_wf(out@));
                }
                (out, r)
            }
        },
        _ => (e, Ok(())),
    }
}

} // verus!
