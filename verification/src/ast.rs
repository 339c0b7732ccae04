//! Abstract syntax of the small imperative language: a closed recursive sum
//! type, together with its mathematical model and two canonical textual
//! renderings (a fully parenthesized prefix form and a human-readable infix
//! form).

use vstd::prelude::*;

verus! {

use vstd::string::StringExecFns;

/// The two binary operators of the language.
#[derive(Clone, Copy, PartialEq, Eq, Structural, Debug)]
pub enum Op {
    Add,
    GreaterEqual,
}

/// An expression of the language.  Every composite node exclusively owns its
/// children, so a value of this type is a strict tree.
#[derive(Debug)]
pub enum Expr {
    Skip,
    Boolean(bool),
    Integer(i64),
    Dereference(String),
    Assignment(Box<Assignment>),
    Operation(Box<Operation>),
    IfThenElse(Box<IfThenElse>),
    WhileLoop(Box<WhileLoop>),
    Sequence(Vec<Expr>),
}

/// An assignment of a value to a store location.
#[derive(Debug)]
pub struct Assignment {
    pub location: String,
    pub value: Expr,
}

/// A binary operation over two operand expressions.
#[derive(Debug)]
pub struct Operation {
    pub op: Op,
    pub lhs: Expr,
    pub rhs: Expr,
}

/// A pair of expressions run one after the other.
#[derive(Debug)]
pub struct Sequence {
    pub first: Expr,
    pub second: Expr,
}

/// A two-way conditional; the `else` branch is mandatory.
#[derive(Debug)]
pub struct IfThenElse {
    pub predicate: Expr,
    pub consequent: Expr,
    pub alternative: Expr,
}

/// A while-loop with a predicate and a body.
#[derive(Debug)]
pub struct WhileLoop {
    pub predicate: Expr,
    pub body: Expr,
}

/// The mathematical model of an expression: the same tree with identifiers as
/// character sequences and integers unbounded.
pub enum ExprView {
    Skip,
    Boolean(bool),
    Integer(int),
    Dereference(Seq<char>),
    Assignment(Seq<char>, Box<ExprView>),
    Operation(Op, Box<ExprView>, Box<ExprView>),
    IfThenElse(Box<ExprView>, Box<ExprView>, Box<ExprView>),
    WhileLoop(Box<ExprView>, Box<ExprView>),
    Sequence(Seq<ExprView>),
}

/// The models of the expressions of `exprs`, in order.
pub open spec fn views_of(exprs: Seq<Expr>) -> Seq<ExprView>
    decreases exprs,
{
    if exprs.len() == 0 {
        Seq::empty()
    } else {
        seq![exprs[0]@] + views_of(exprs.drop_first())
    }
}

/// `views_of` is the pointwise model of its argument.
pub proof fn lemma_views_of(exprs: Seq<Expr>)
    ensures
        views_of(exprs).len() == exprs.len(),
        forall|i: int| 0 <= i < exprs.len() ==> views_of(exprs)[i] == exprs[i]@,
    decreases exprs.len(),
{
    if exprs.len() > 0 {
        lemma_views_of(exprs.drop_first());
        let rest = views_of(exprs.drop_first());
        assert(views_of(exprs) == seq![exprs[0]@] + rest);
        assert forall|i: int| 0 <= i < exprs.len() implies views_of(exprs)[i] == exprs[i]@ by {
            if i > 0 {
                assert(exprs.drop_first()[i - 1] == exprs[i]);
                assert(views_of(exprs)[i] == rest[i - 1]);
            }
        }
    }
}

impl View for Expr {
    type V = ExprView;

    open spec fn view(&self) -> ExprView
        decreases self,
    {
        match self {
            Expr::Skip => ExprView::Skip,
            Expr::Boolean(b) => ExprView::Boolean(*b),
            Expr::Integer(n) => ExprView::Integer(*n as int),
            Expr::Dereference(location) => ExprView::Dereference(location@),
            Expr::Assignment(a) => ExprView::Assignment(
                a.location@,
                Box::new(a.value.view()),
            ),
            Expr::Operation(o) => ExprView::Operation(
                o.op,
                Box::new(o.lhs.view()),
                Box::new(o.rhs.view()),
            ),
            Expr::IfThenElse(i) => ExprView::IfThenElse(
                Box::new(i.predicate.view()),
                Box::new(i.consequent.view()),
                Box::new(i.alternative.view()),
            ),
            Expr::WhileLoop(w) => ExprView::WhileLoop(
                Box::new(w.predicate.view()),
                Box::new(w.body.view()),
            ),
            Expr::Sequence(exprs) => ExprView::Sequence(views_of(exprs@)),
        }
    }
}

/// The decimal digit characters.
pub open spec fn digit_char(d: int) -> char
    recommends
        0 <= d < 10,
{
    if d == 0 {
        '0'
    } else if d == 1 {
        '1'
    } else if d == 2 {
        '2'
    } else if d == 3 {
        '3'
    } else if d == 4 {
        '4'
    } else if d == 5 {
        '5'
    } else if d == 6 {
        '6'
    } else if d == 7 {
        '7'
    } else if d == 8 {
        '8'
    } else {
        '9'
    }
}

/// The decimal digits of a nonnegative integer, most significant first.
pub open spec fn digits_str(n: int) -> Seq<char>
    recommends
        n >= 0,
    decreases n,
{
    if n < 10 {
        seq![digit_char(n)]
    } else {
        digits_str(n / 10).push(digit_char(n % 10))
    }
}

/// The decimal rendering of an integer, with a leading minus sign when it is
/// negative.
pub open spec fn dec_str(n: int) -> Seq<char> {
    if n < 0 {
        seq!['-'] + digits_str(-n)
    } else {
        digits_str(n)
    }
}

/// The concrete symbol of an operator.
pub open spec fn op_text(op: Op) -> Seq<char> {
    match op {
        Op::Add => "+"@,
        Op::GreaterEqual => ">="@,
    }
}

/// The canonical prefix ("sexp") rendering: fully parenthesized,
/// operator-first, sequence elements separated by single spaces.
pub open spec fn sexp_of(e: ExprView) -> Seq<char>
    decreases e, 0int,
{
    match e {
        ExprView::Skip => "skip"@,
        ExprView::Boolean(b) => if b {
            "true"@
        } else {
            "false"@
        },
        ExprView::Integer(n) => dec_str(n),
        ExprView::Dereference(location) => "!"@ + location,
        ExprView::Assignment(location, value) => "(:= "@ + location + " "@ + sexp_of(*value)
            + ")"@,
        ExprView::Operation(op, lhs, rhs) => "("@ + op_text(op) + " "@ + sexp_of(*lhs) + " "@
            + sexp_of(*rhs) + ")"@,
        ExprView::IfThenElse(p, c, a) => "(if "@ + sexp_of(*p) + " "@ + sexp_of(*c) + " "@
            + sexp_of(*a) + ")"@,
        ExprView::WhileLoop(p, b) => "(while "@ + sexp_of(*p) + " "@ + sexp_of(*b) + ")"@,
        ExprView::Sequence(es) => "(; "@ + sexp_list(es) + ")"@,
    }
}

/// The space-separated prefix renderings of a list of expressions.
pub open spec fn sexp_list(es: Seq<ExprView>) -> Seq<char>
    decreases es, 0int,
{
    if es.len() == 0 {
        Seq::empty()
    } else if es.len() == 1 {
        sexp_of(es[0])
    } else {
        sexp_of(es[0]) + " "@ + sexp_list(es.drop_first())
    }
}

/// An expression may stand bare as an operand of the infix rendering exactly
/// when it is self-delimiting: an atom or a binary operation.
pub open spec fn paren_free(e: ExprView) -> bool {
    match e {
        ExprView::Skip => true,
        ExprView::Boolean(_) => true,
        ExprView::Integer(_) => true,
        ExprView::Dereference(_) => true,
        ExprView::Operation(_, _, _) => true,
        _ => false,
    }
}

/// The human-readable infix rendering.
pub open spec fn infix_of(e: ExprView) -> Seq<char>
    decreases e, 0int,
{
    match e {
        ExprView::Skip => "skip"@,
        ExprView::Boolean(b) => if b {
            "true"@
        } else {
            "false"@
        },
        ExprView::Integer(n) => dec_str(n),
        ExprView::Dereference(location) => "!"@ + location,
        ExprView::Assignment(location, value) => location + " = "@ + infix_operand(*value),
        ExprView::Operation(op, lhs, rhs) => infix_operand(*lhs) + " "@ + op_text(op) + " "@
            + infix_operand(*rhs),
        ExprView::IfThenElse(p, c, a) => "if "@ + infix_operand(*p) + " then "@ + infix_operand(*c)
            + " else "@ + infix_operand(*a),
        ExprView::WhileLoop(p, b) => "while "@ + infix_operand(*p) + " do "@ + infix_operand(*b),
        ExprView::Sequence(es) => infix_list(es),
    }
}

/// The infix rendering of a sub-expression: wrapped in parentheses unless the
/// expression is self-delimiting.
pub open spec fn infix_operand(e: ExprView) -> Seq<char>
    decreases e, 1int,
{
    if paren_free(e) {
        infix_of(e)
    } else {
        "("@ + infix_of(e) + ")"@
    }
}

/// The infix renderings of a list of expressions, joined by `"; "`.
pub open spec fn infix_list(es: Seq<ExprView>) -> Seq<char>
    decreases es, 0int,
{
    if es.len() == 0 {
        Seq::empty()
    } else if es.len() == 1 {
        infix_of(es[0])
    } else {
        infix_of(es[0]) + "; "@ + infix_list(es.drop_first())
    }
}

/// Relies on String::push: appends exactly the one given character.
#[verifier::external_body]
pub(crate) fn push_char(s: &mut String, c: char)
    ensures
        final(s)@ == old(s)@.push(c),
{
    s.push(c);
}

/// The decimal rendering of a 64-bit integer.
pub fn i64_to_string(n: i64) -> (s: String)
    ensures
        s@ == dec_str(n as int),
{
    let mut mag: u64 = if n >= 0 {
        n as u64
    } else {
        ((-(n + 1)) as u64) + 1
    };
    proof {
        if n >= 0 {
            assert(mag as int == n as int);
        } else {
            assert(mag as int == -(n as int));
        }
    }
    let mut rev_digits: Vec<char> = Vec::new();
    if mag == 0 {
        rev_digits.push('0');
        assert(rev_digits@.reverse() =~= seq!['0']);
        assert(digits_str(0) == seq![digit_char(0)]);
    } else {
        let mut x = mag;
        while x > 0
            invariant
                0 <= x <= mag,
                x > 0 ==> digits_str(mag as int) == digits_str(x as int) + rev_digits@.reverse(),
                x == 0 ==> digits_str(mag as int) == rev_digits@.reverse(),
            decreases x,
        {
            let d = x % 10;
            let c = digit_to_char(d);
            let ghost prev = rev_digits@;
            rev_digits.push(c);
            assert(rev_digits@.reverse() =~= seq![c] + prev.reverse());
            if x >= 10 {
                assert(digits_str(x as int) == digits_str(x as int / 10).push(digit_char(x as int % 10)));
                assert(digits_str(x as int / 10).push(c) + prev.reverse() =~= digits_str(
                    x as int / 10,
                ) + (seq![c] + prev.reverse()));
            } else {
                assert(digits_str(x as int) == seq![c]);
            }
            x = x / 10;
        }
    }
    let mut s = String::new();
    if n < 0 {
        push_char(&mut s, '-');
    }
    let ghost sign: Seq<char> = if n < 0 {
        seq!['-']
    } else {
        Seq::empty()
    };
    assert(s@ =~= sign);
    let len = rev_digits.len();
    let mut i = len;
    while i > 0
        invariant
            0 <= i <= len,
            len == rev_digits@.len(),
            s@ == sign + rev_digits@.subrange(i as int, len as int).reverse(),
        decreases i,
    {
        i = i - 1;
        push_char(&mut s, rev_digits[i]);
        assert(rev_digits@.subrange(i as int, len as int).reverse() =~= rev_digits@.subrange(
            i as int + 1,
            len as int,
        ).reverse().push(rev_digits@[i as int]));
        assert(s@ =~= sign + rev_digits@.subrange(i as int, len as int).reverse());
    }
    proof {
        assert(rev_digits@.subrange(0, len as int) =~= rev_digits@);
        assert(s@ == sign + rev_digits@.reverse());
        if n < 0 {
            assert(s@ == seq!['-'] + digits_str(-(n as int)));
        } else {
            assert(s@ =~= digits_str(n as int));
        }
    }
    s
}

/// The decimal digit character for a value below ten.
fn digit_to_char(d: u64) -> (c: char)
    requires
        d < 10,
    ensures
        c == digit_char(d as int),
{
    match d {
        0 => '0',
        1 => '1',
        2 => '2',
        3 => '3',
        4 => '4',
        5 => '5',
        6 => '6',
        7 => '7',
        8 => '8',
        _ => '9',
    }
}

impl Op {
    /// The concrete symbol of the operator.
    pub fn symbol(&self) -> (s: &'static str)
        ensures
            s@ == op_text(*self),
    {
        match self {
            Op::Add => "+",
            Op::GreaterEqual => ">=",
        }
    }
}

impl Expr {
    /// The no-op expression.
    pub fn skip() -> (r: Self)
        ensures
            r@ == ExprView::Skip,
    {
        Expr::Skip
    }

    /// A boolean literal.
    pub fn boolean(b: bool) -> (r: Self)
        ensures
            r@ == ExprView::Boolean(b),
    {
        Expr::Boolean(b)
    }

    /// An integer literal.
    pub fn integer(n: i64) -> (r: Self)
        ensures
            r@ == ExprView::Integer(n as int),
    {
        Expr::Integer(n)
    }

    /// A read of the store slot named by `location`.
    pub fn dereference(location: &str) -> (r: Self)
        ensures
            r@ == ExprView::Dereference(location@),
    {
        Expr::Dereference(location.to_owned())
    }

    /// An assignment of `value` to the store slot named by `location`.
    pub fn assignment(location: &str, value: Expr) -> (r: Self)
        ensures
            r@ == ExprView::Assignment(location@, Box::new(value@)),
    {
        Expr::Assignment(Box::new(Assignment { location: location.to_owned(), value }))
    }

    /// A binary operation over two operands.
    pub fn operation(op: Op, lhs: Expr, rhs: Expr) -> (r: Self)
        ensures
            r@ == ExprView::Operation(op, Box::new(lhs@), Box::new(rhs@)),
    {
        Expr::Operation(Box::new(Operation { op, lhs, rhs }))
    }

    /// A conditional with both branches.
    pub fn if_then_else(predicate: Expr, consequent: Expr, alternative: Expr) -> (r: Self)
        ensures
            r@ == ExprView::IfThenElse(
                Box::new(predicate@),
                Box::new(consequent@),
                Box::new(alternative@),
            ),
    {
        Expr::IfThenElse(Box::new(IfThenElse { predicate, consequent, alternative }))
    }

    /// A while-loop.
    pub fn while_loop(predicate: Expr, body: Expr) -> (r: Self)
        ensures
            r@ == ExprView::WhileLoop(Box::new(predicate@), Box::new(body@)),
    {
        Expr::WhileLoop(Box::new(WhileLoop { body, predicate }))
    }

    /// A sequence of expressions run in order.
    pub fn sequence(exprs: Vec<Expr>) -> (r: Self)
        ensures
            r@ == ExprView::Sequence(views_of(exprs@)),
    {
        Expr::Sequence(exprs)
    }

    /// The canonical prefix ("sexp") rendering of the expression.
    pub fn sexp(&self) -> (s: String)
        ensures
            s@ == sexp_of(self@),
        decreases self, 0int,
    {
        match self {
            Expr::Skip => "skip".to_owned(),
            Expr::Boolean(b) => if *b {
                "true".to_owned()
            } else {
                "false".to_owned()
            },
            Expr::Integer(n) => i64_to_string(*n),
            Expr::Dereference(location) => {
                let mut s = "!".to_owned();
                s.append(location.as_str());
                s
            }
            Expr::Assignment(a) => {
                let mut s = "(:= ".to_owned();
                s.append(a.location.as_str());
                s.append(" ");
                let value = a.value.sexp();
                s.append(value.as_str());
                s.append(")");
                s
            }
            Expr::Operation(o) => {
                let mut s = "(".to_owned();
                s.append(o.op.symbol());
                s.append(" ");
                let lhs = o.lhs.sexp();
                s.append(lhs.as_str());
                s.append(" ");
                let rhs = o.rhs.sexp();
                s.append(rhs.as_str());
                s.append(")");
                s
            }
            Expr::IfThenElse(node) => {
                let mut s = "(if ".to_owned();
                let p = node.predicate.sexp();
                s.append(p.as_str());
                s.append(" ");
                let c = node.consequent.sexp();
                s.append(c.as_str());
                s.append(" ");
                let a = node.alternative.sexp();
                s.append(a.as_str());
                s.append(")");
                s
            }
            Expr::WhileLoop(w) => {
                let mut s = "(while ".to_owned();
                let p = w.predicate.sexp();
                s.append(p.as_str());
                s.append(" ");
                let b = w.body.sexp();
                s.append(b.as_str());
                s.append(")");
                s
            }
            Expr::Sequence(exprs) => {
                let mut s = "(; ".to_owned();
                let tail = Expr::sexp_tail(exprs, 0);
                s.append(tail.as_str());
                s.append(")");
                proof {
                    assert(views_of(exprs@).skip(0) =~= views_of(exprs@));
                }
                s
            }
        }
    }

    /// The space-separated prefix renderings of the expressions of `exprs`
    /// from index `i` on.
    fn sexp_tail(exprs: &Vec<Expr>, i: usize) -> (s: String)
        requires
            i <= exprs@.len(),
        ensures
            s@ == sexp_list(views_of(exprs@).skip(i as int)),
        decreases exprs, exprs@.len() - i,
    {
        let ghost vs = views_of(exprs@);
        proof {
            lemma_views_of(exprs@);
        }
        if i == exprs.len() {
            let s = String::new();
            assert(vs.skip(i as int) =~= Seq::<ExprView>::empty());
            s
        } else {
            let mut s = exprs[i].sexp();
            proof {
                assert(vs.skip(i as int)[0] == vs[i as int]);
            }
            if i + 1 == exprs.len() {
                assert(vs.skip(i as int).len() == 1);
                s
            } else {
                s.append(" ");
                let tail = Expr::sexp_tail(exprs, i + 1);
                s.append(tail.as_str());
                proof {
                    assert(vs.skip(i as int).drop_first() =~= vs.skip(i as int + 1));
                }
                s
            }
        }
    }

    /// Whether the expression may stand bare as an operand of the infix
    /// rendering.
    pub fn display_with_parens(&self) -> (r: bool)
        ensures
            r == paren_free(self@),
    {
        match self {
            Expr::Skip => true,
            Expr::Boolean(_) => true,
            Expr::Integer(_) => true,
            Expr::Dereference(_) => true,
            Expr::Operation(_) => true,
            _ => false,
        }
    }

    /// The human-readable infix rendering of the expression.
    pub fn display(&self) -> (s: String)
        ensures
            s@ == infix_of(self@),
        decreases self, 0int,
    {
        match self {
            Expr::Skip => "skip".to_owned(),
            Expr::Boolean(b) => if *b {
                "true".to_owned()
            } else {
                "false".to_owned()
            },
            Expr::Integer(n) => i64_to_string(*n),
            Expr::Dereference(location) => {
                let mut s = "!".to_owned();
                s.append(location.as_str());
                s
            }
            Expr::Assignment(a) => {
                let mut s = a.location.clone();
                s.append(" = ");
                let value = a.value.display_operand();
                s.append(value.as_str());
                s
            }
            Expr::Operation(o) => {
                let mut s = o.lhs.display_operand();
                s.append(" ");
                s.append(o.op.symbol());
                s.append(" ");
                let rhs = o.rhs.display_operand();
                s.append(rhs.as_str());
                s
            }
            Expr::IfThenElse(node) => {
                let mut s = "if ".to_owned();
                let p = node.predicate.display_operand();
                s.append(p.as_str());
                s.append(" then ");
                let c = node.consequent.display_operand();
                s.append(c.as_str());
                s.append(" else ");
                let a = node.alternative.display_operand();
                s.append(a.as_str());
                s
            }
            Expr::WhileLoop(w) => {
                let mut s = "while ".to_owned();
                let p = w.predicate.display_operand();
                s.append(p.as_str());
                s.append(" do ");
                let b = w.body.display_operand();
                s.append(b.as_str());
                s
            }
            Expr::Sequence(exprs) => {
                let s = Expr::display_tail(exprs, 0);
                proof {
                    assert(views_of(exprs@).skip(0) =~= views_of(exprs@));
                }
                s
            }
        }
    }

    /// The infix rendering of the expression as an operand, parenthesized
    /// unless it is self-delimiting.
    fn display_operand(&self) -> (s: String)
        ensures
            s@ == infix_operand(self@),
        decreases self, 1int,
    {
        if self.display_with_parens() {
            self.display()
        } else {
            let mut s = "(".to_owned();
            let inner = self.display();
            s.append(inner.as_str());
            s.append(")");
            s
        }
    }

    /// The infix renderings of the expressions of `exprs` from index `i` on,
    /// joined by `"; "`.
    fn display_tail(exprs: &Vec<Expr>, i: usize) -> (s: String)
        requires
            i <= exprs@.len(),
        ensures
            s@ == infix_list(views_of(exprs@).skip(i as int)),
        decreases exprs, exprs@.len() - i,
    {
        let ghost vs = views_of(exprs@);
        proof {
            lemma_views_of(exprs@);
        }
        if i == exprs.len() {
            let s = String::new();
            assert(vs.skip(i as int) =~= Seq::<ExprView>::empty());
            s
        } else {
            let mut s = exprs[i].display();
            proof {
                assert(vs.skip(i as int)[0] == vs[i as int]);
            }
            if i + 1 == exprs.len() {
                assert(vs.skip(i as int).len() == 1);
                s
            } else {
                s.append("; ");
                let tail = Expr::display_tail(exprs, i + 1);
                s.append(tail.as_str());
                proof {
                    assert(vs.skip(i as int).drop_first() =~= vs.skip(i as int + 1));
                }
                s
            }
        }
    }
}

impl Clone for Expr {
    /// A deep copy: the copy has the same model as the original.
    fn clone(&self) -> (res: Self)
        ensures
            res@ == self@,
        decreases self, 0int,
    {
        match self {
            Expr::Skip => Expr::Skip,
            Expr::Boolean(b) => Expr::Boolean(*b),
            Expr::Integer(n) => Expr::Integer(*n),
            Expr::Dereference(location) => Expr::Dereference(location.clone()),
            Expr::Assignment(a) => Expr::Assignment(
                Box::new(Assignment { location: a.location.clone(), value: a.value.clone() }),
            ),
            Expr::Operation(o) => Expr::Operation(
                Box::new(Operation { op: o.op, lhs: o.lhs.clone(), rhs: o.rhs.clone() }),
            ),
            Expr::IfThenElse(node) => Expr::IfThenElse(
                Box::new(
                    IfThenElse {
                        predicate: node.predicate.clone(),
                        consequent: node.consequent.clone(),
                        alternative: node.alternative.clone(),
                    },
                ),
            ),
            Expr::WhileLoop(w) => Expr::WhileLoop(
                Box::new(WhileLoop { predicate: w.predicate.clone(), body: w.body.clone() }),
            ),
            Expr::Sequence(exprs) => {
                let out = clone_tail(exprs, 0);
                proof {
                    lemma_views_of(out@);
                    lemma_views_of(exprs@);
                    assert(views_of(out@) =~= views_of(exprs@));
                }
                Expr::Sequence(out)
            }
        }
    }
}

/// Deep copies of the expressions of `exprs` from index `i` on.
fn clone_tail(exprs: &Vec<Expr>, i: usize) -> (out: Vec<Expr>)
    requires
        i <= exprs@.len(),
    ensures
        out@.len() == exprs@.len() - i,
        forall|j: int| 0 <= j < out@.len() ==> out@[j]@ == exprs@[i + j]@,
    decreases exprs, exprs@.len() - i,
{
    if i == exprs.len() {
        Vec::new()
    } else {
        let e = exprs[i].clone();
        let mut rest = clone_tail(exprs, i + 1);
        rest.insert(0, e);
        rest
    }
}

} // verus!
