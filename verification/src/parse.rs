//! The parser: recursive descent over the characters of the source text, with
//! precedence climbing for the two binary operators.  The grammar, loosest to
//! tightest: a `;`-separated sequence of expressions; expressions built from
//! atoms with left-associative `+` (tighter) and `>=` (looser); atoms tried in
//! a fixed order: `skip`, `true`, `false`, an integer literal, a dereference,
//! an assignment, `if`/`then`/`else`, `while`/`do`, and a parenthesized
//! sequence.  Whitespace is insignificant around every token.
//!
//! Each executable function mirrors a specification function of the same
//! shape, so the result of parsing is pinned exactly.

use vstd::prelude::*;

use crate::ast::Expr;
use crate::ast::ExprView;
use crate::ast::Op;
use crate::ast::lemma_views_of;
use crate::ast::views_of;
use crate::eval::sequences_wf;
use crate::eval::sequences_wf_all;
use crate::eval::lemma_sequences_wf_all;

verus! {

use vstd::string::StrSliceExecFns;

/// A parse failure, with the character position at which the input could not
/// be understood.
#[derive(Clone, Copy, PartialEq, Eq, Structural, Debug)]
pub struct ParseError {
    pub position: usize,
}

/// The characters treated as insignificant whitespace.
pub open spec fn is_ws(c: char) -> bool {
    c == ' ' || c == '\t' || c == '\n' || c == '\r'
}

/// The decimal digit characters.
pub open spec fn is_digit(c: char) -> bool {
    48 <= c as u32 <= 57
}

/// The characters an identifier may start with.
pub open spec fn is_ident_start(c: char) -> bool {
    (97 <= c as u32 <= 122) || (65 <= c as u32 <= 90) || c == '_'
}

/// The characters an identifier may continue with.
pub open spec fn is_ident_char(c: char) -> bool {
    is_ident_start(c) || is_digit(c)
}

/// The first position at or after `i` holding no whitespace.
pub open spec fn spec_skip_ws(s: Seq<char>, i: int) -> int
    decreases s.len() - i,
{
    if 0 <= i < s.len() && is_ws(s[i]) {
        spec_skip_ws(s, i + 1)
    } else {
        i
    }
}

/// `spec_skip_ws` moves forward and never past the end.
pub proof fn lemma_skip_ws(s: Seq<char>, i: int)
    ensures
        i <= spec_skip_ws(s, i),
        i <= s.len() ==> spec_skip_ws(s, i) <= s.len(),
    decreases s.len() - i,
{
    if 0 <= i < s.len() && is_ws(s[i]) {
        lemma_skip_ws(s, i + 1);
    }
}

/// The end of the run of identifier characters starting at `i`.
pub open spec fn spec_ident_end(s: Seq<char>, i: int) -> int
    decreases s.len() - i,
{
    if 0 <= i < s.len() && is_ident_char(s[i]) {
        spec_ident_end(s, i + 1)
    } else {
        i
    }
}

/// `spec_ident_end` moves forward and never past the end.
pub proof fn lemma_ident_end(s: Seq<char>, i: int)
    ensures
        i <= spec_ident_end(s, i),
        i <= s.len() ==> spec_ident_end(s, i) <= s.len(),
    decreases s.len() - i,
{
    if 0 <= i < s.len() && is_ident_char(s[i]) {
        lemma_ident_end(s, i + 1);
    }
}

/// The end of the run of digits starting at `i`.
pub open spec fn spec_digits_end(s: Seq<char>, i: int) -> int
    decreases s.len() - i,
{
    if 0 <= i < s.len() && is_digit(s[i]) {
        spec_digits_end(s, i + 1)
    } else {
        i
    }
}

/// `spec_digits_end` moves forward and never past the end.
pub proof fn lemma_digits_end(s: Seq<char>, i: int)
    ensures
        i <= spec_digits_end(s, i),
        i <= s.len() ==> spec_digits_end(s, i) <= s.len(),
    decreases s.len() - i,
{
    if 0 <= i < s.len() && is_digit(s[i]) {
        lemma_digits_end(s, i + 1);
    }
}

/// The numeric value of the digits `s[i..e]`.
pub open spec fn spec_digits_val(s: Seq<char>, i: int, e: int) -> int
    decreases e - i,
{
    if i >= e {
        0
    } else {
        spec_digits_val(s, i, e - 1) * 10 + (s[e - 1] as u32 - 48)
    }
}

/// Whether `lit` occurs in `s` starting at position `i`.
pub open spec fn spec_has_lit(s: Seq<char>, i: int, lit: Seq<char>) -> bool {
    0 <= i && i + lit.len() <= s.len() && s.subrange(i, i + lit.len()) == lit
}

/// The identifier starting at `i`, if one starts there: its text and the
/// position after it.
pub open spec fn spec_ident(s: Seq<char>, i: int) -> Option<(Seq<char>, int)> {
    if 0 <= i < s.len() && is_ident_start(s[i]) {
        let e = spec_ident_end(s, i);
        Some((s.subrange(i, e), e))
    } else {
        None
    }
}

/// The integer literal starting at `i`, if one starts there: an optional
/// leading minus sign, then one or more decimal digits, whose value must fit
/// in 64 signed bits.
pub open spec fn spec_int(s: Seq<char>, i: int) -> Option<(ExprView, int)> {
    let j = if 0 <= i < s.len() && s[i] == '-' {
        i + 1
    } else {
        i
    };
    let e = spec_digits_end(s, j);
    if e == j || !(0 <= i) {
        None
    } else {
        let v = spec_digits_val(s, j, e);
        let n: int = if j > i {
            -v
        } else {
            v
        };
        if n < i64::MIN || n > i64::MAX {
            None
        } else {
            Some((ExprView::Integer(n), e))
        }
    }
}

/// A whole `;`-separated program, parsed from position `i`.
pub open spec fn spec_seq(s: Seq<char>, i: int) -> Option<(ExprView, int)>
    decreases s.len() - i, 5int,
{
    match spec_cmp(s, i) {
        Some((first, j)) => if i < j <= s.len() {
            spec_seq_more(s, j, seq![first])
        } else {
            None
        },
        None => None,
    }
}

/// The remaining `; expression` tail of a sequence, with the elements read so
/// far; fewer than two elements collapse to the element itself.
pub open spec fn spec_seq_more(s: Seq<char>, i: int, es: Seq<ExprView>) -> Option<(ExprView, int)>
    decreases s.len() - i, 6int,
{
    if 0 <= i < s.len() && s[i] == ';' {
        match spec_cmp(s, i + 1) {
            Some((next, j)) => if i < j <= s.len() {
                spec_seq_more(s, j, es.push(next))
            } else {
                None
            },
            None => if es.len() == 1 {
                Some((es[0], i))
            } else {
                Some((ExprView::Sequence(es), i))
            },
        }
    } else {
        if es.len() == 1 {
            Some((es[0], i))
        } else {
            Some((ExprView::Sequence(es), i))
        }
    }
}

/// The loosest operator layer: left-associative `>=` over `+`-chains.
pub open spec fn spec_cmp(s: Seq<char>, i: int) -> Option<(ExprView, int)>
    decreases s.len() - i, 4int,
{
    match spec_add(s, i) {
        Some((first, j)) => if i < j <= s.len() {
            spec_cmp_more(s, j, first)
        } else {
            None
        },
        None => None,
    }
}

/// The remaining `>= operand` tail of a comparison chain.
pub open spec fn spec_cmp_more(s: Seq<char>, i: int, acc: ExprView) -> Option<(ExprView, int)>
    decreases s.len() - i, 5int,
{
    if spec_has_lit(s, i, seq!['>', '=']) {
        match spec_add(s, i + 2) {
            Some((rhs, j)) => if i < j <= s.len() {
                spec_cmp_more(
                    s,
                    j,
                    ExprView::Operation(Op::GreaterEqual, Box::new(acc), Box::new(rhs)),
                )
            } else {
                None
            },
            None => Some((acc, i)),
        }
    } else {
        Some((acc, i))
    }
}

/// The tighter operator layer: left-associative `+` over atoms.
pub open spec fn spec_add(s: Seq<char>, i: int) -> Option<(ExprView, int)>
    decreases s.len() - i, 3int,
{
    match spec_atom_padded(s, i) {
        Some((first, j)) => if i < j <= s.len() {
            spec_add_more(s, j, first)
        } else {
            None
        },
        None => None,
    }
}

/// The remaining `+ operand` tail of an addition chain.
pub open spec fn spec_add_more(s: Seq<char>, i: int, acc: ExprView) -> Option<(ExprView, int)>
    decreases s.len() - i, 4int,
{
    if 0 <= i < s.len() && s[i] == '+' {
        match spec_atom_padded(s, i + 1) {
            Some((rhs, j)) => if i < j <= s.len() {
                spec_add_more(s, j, ExprView::Operation(Op::Add, Box::new(acc), Box::new(rhs)))
            } else {
                None
            },
            None => Some((acc, i)),
        }
    } else {
        Some((acc, i))
    }
}

/// An atom with the whitespace around it.
pub open spec fn spec_atom_padded(s: Seq<char>, i: int) -> Option<(ExprView, int)>
    decreases s.len() - i, 2int,
{
    let j = spec_skip_ws(s, i);
    if i <= j <= s.len() {
        match spec_atom(s, j) {
            Some((e, k)) => Some((e, spec_skip_ws(s, k))),
            None => None,
        }
    } else {
        None
    }
}

/// A bare atom at position `i`, the alternatives tried in a fixed order with
/// the first match winning.
pub open spec fn spec_atom(s: Seq<char>, i: int) -> Option<(ExprView, int)>
    decreases s.len() - i, 1int,
{
    if spec_has_lit(s, i, seq!['s', 'k', 'i', 'p']) {
        Some((ExprView::Skip, i + 4))
    } else if spec_has_lit(s, i, seq!['t', 'r', 'u', 'e']) {
        Some((ExprView::Boolean(true), i + 4))
    } else if spec_has_lit(s, i, seq!['f', 'a', 'l', 's', 'e']) {
        Some((ExprView::Boolean(false), i + 5))
    } else if spec_int(s, i) is Some {
        spec_int(s, i)
    } else if 0 <= i < s.len() && s[i] == '!' {
        match spec_ident(s, i + 1) {
            Some((id, j)) => Some((ExprView::Dereference(id), j)),
            None => None,
        }
    } else if spec_assign(s, i) is Some {
        spec_assign(s, i)
    } else if spec_has_lit(s, i, seq!['i', 'f']) {
        spec_if(s, i)
    } else if spec_has_lit(s, i, seq!['w', 'h', 'i', 'l', 'e']) {
        spec_while(s, i)
    } else if 0 <= i < s.len() && s[i] == '(' {
        match spec_seq(s, i + 1) {
            Some((e, j)) => if 0 <= j < s.len() && s[j] == ')' {
                Some((e, j + 1))
            } else {
                None
            },
            None => None,
        }
    } else {
        None
    }
}

/// An assignment atom: an identifier, `:=`, then a full expression.
pub open spec fn spec_assign(s: Seq<char>, i: int) -> Option<(ExprView, int)>
    decreases s.len() - i, 0int,
{
    match spec_ident(s, i) {
        Some((id, j)) => {
            let k = spec_skip_ws(s, j);
            if spec_has_lit(s, k, seq![':', '=']) && i < k + 2 <= s.len() {
                match spec_cmp(s, k + 2) {
                    Some((value, m)) => Some((ExprView::Assignment(id, Box::new(value)), m)),
                    None => None,
                }
            } else {
                None
            }
        },
        None => None,
    }
}

/// An `if`/`then`/`else` atom; the `else` branch is mandatory.
pub open spec fn spec_if(s: Seq<char>, i: int) -> Option<(ExprView, int)>
    decreases s.len() - i, 0int,
{
    if spec_has_lit(s, i, seq!['i', 'f']) {
        match spec_cmp(s, i + 2) {
            Some((p, j)) => if i < j && spec_has_lit(s, j, seq!['t', 'h', 'e', 'n']) && j + 4 <= s.len() {
                match spec_cmp(s, j + 4) {
                    Some((c, k)) => if j < k && spec_has_lit(s, k, seq!['e', 'l', 's', 'e']) && k + 4 <= s.len() {
                        match spec_cmp(s, k + 4) {
                            Some((a, m)) => Some(
                                (
                                    ExprView::IfThenElse(Box::new(p), Box::new(c), Box::new(a)),
                                    m,
                                ),
                            ),
                            None => None,
                        }
                    } else {
                        None
                    },
                    None => None,
                }
            } else {
                None
            },
            None => None,
        }
    } else {
        None
    }
}

/// A `while`/`do` atom.
pub open spec fn spec_while(s: Seq<char>, i: int) -> Option<(ExprView, int)>
    decreases s.len() - i, 0int,
{
    if spec_has_lit(s, i, seq!['w', 'h', 'i', 'l', 'e']) {
        match spec_cmp(s, i + 5) {
            Some((p, j)) => if i < j && spec_has_lit(s, j, seq!['d', 'o']) && j + 2 <= s.len() {
                match spec_cmp(s, j + 2) {
                    Some((b, k)) => Some((ExprView::WhileLoop(Box::new(p), Box::new(b)), k)),
                    None => None,
                }
            } else {
                None
            },
            None => None,
        }
    } else {
        None
    }
}

/// The parse of a whole source text: one program, with nothing left over.
pub open spec fn spec_parse(s: Seq<char>) -> Option<ExprView> {
    match spec_seq(s, 0) {
        Some((e, j)) => if j == s.len() {
            Some(e)
        } else {
            None
        },
        None => None,
    }
}

/// Whether `c` is insignificant whitespace.
fn ws_char(c: char) -> (r: bool)
    ensures
        r == is_ws(c),
{
    c == ' ' || c == '\t' || c == '\n' || c == '\r'
}

/// Whether `c` is a decimal digit.
fn digit_test(c: char) -> (r: bool)
    ensures
        r == is_digit(c),
{
    let u = c as u32;
    48 <= u && u <= 57
}

/// Whether `c` may start an identifier.
fn ident_start_test(c: char) -> (r: bool)
    ensures
        r == is_ident_start(c),
{
    let u = c as u32;
    (97 <= u && u <= 122) || (65 <= u && u <= 90) || c == '_'
}

/// Whether `c` may continue an identifier.
fn ident_char_test(c: char) -> (r: bool)
    ensures
        r == is_ident_char(c),
{
    ident_start_test(c) || digit_test(c)
}

/// The first position at or after `i` holding no whitespace.
fn skip_ws(s: &Vec<char>, i: usize) -> (r: usize)
    requires
        i <= s@.len(),
    ensures
        r as int == spec_skip_ws(s@, i as int),
        i <= r <= s@.len(),
{
    let mut j = i;
    while j < s.len() && ws_char(s[j])
        invariant
            i <= j <= s@.len(),
            spec_skip_ws(s@, i as int) == spec_skip_ws(s@, j as int),
        decreases s@.len() - j,
    {
        j = j + 1;
    }
    j
}

/// Whether the characters of `lit` occur in `s` starting at `i`.
fn has_lit(s: &Vec<char>, i: usize, lit: &str) -> (r: bool)
    requires
        i <= s@.len(),
    ensures
        r == spec_has_lit(s@, i as int, lit@),
{
    let n = lit.unicode_len();
    if n > s.len() - i {
        return false;
    }
    let mut j: usize = 0;
    while j < n
        invariant
            j <= n,
            n == lit@.len(),
            i + n <= s@.len(),
            s@.len() <= usize::MAX,
            forall|k: int| 0 <= k < j ==> s@[i + k] == lit@[k],
        decreases n - j,
    {
        if s[i + j] != lit.get_char(j) {
            proof {
                assert(s@.subrange(i as int, i as int + n as int)[j as int] != lit@[j as int]);
            }
            return false;
        }
        j = j + 1;
    }
    proof {
        assert(s@.subrange(i as int, i as int + n as int) =~= lit@);
    }
    true
}

/// The identifier starting at `i`, if one starts there.
fn parse_ident(s: &Vec<char>, i: usize) -> (r: Option<(String, usize)>)
    requires
        i <= s@.len(),
    ensures
        match r {
            Some(p) => spec_ident(s@, i as int) == Some((p.0@, p.1 as int)) && i < p.1 <= s@.len(),
            None => spec_ident(s@, i as int) is None,
        },
{
    if i < s.len() && ident_start_test(s[i]) {
        let mut j = i;
        let mut id = String::new();
        proof {
            assert(id@ =~= s@.subrange(i as int, i as int));
        }
        while j < s.len() && ident_char_test(s[j])
            invariant
                i <= j <= s@.len(),
                spec_ident_end(s@, i as int) == spec_ident_end(s@, j as int),
                id@ == s@.subrange(i as int, j as int),
            decreases s@.len() - j,
        {
            crate::ast::push_char(&mut id, s[j]);
            proof {
                assert(s@.subrange(i as int, j as int + 1) =~= s@.subrange(
                    i as int,
                    j as int,
                ).push(s@[j as int]));
            }
            j = j + 1;
        }
        proof {
            assert(spec_ident_end(s@, j as int) == j as int);
            if j == i {
                lemma_ident_end(s@, i as int + 1);
                assert(spec_ident_end(s@, i as int) == spec_ident_end(s@, i as int + 1));
            }
        }
        Some((id, j))
    } else {
        None
    }
}

/// The integer literal starting at `i`, if one starts there and its value
/// fits in 64 signed bits.
fn parse_int(s: &Vec<char>, i: usize) -> (r: Option<(Expr, usize)>)
    requires
        i <= s@.len(),
    ensures
        match r {
            Some(p) => spec_int(s@, i as int) == Some((p.0@, p.1 as int)) && i < p.1 <= s@.len()
                && sequences_wf(p.0@),
            None => spec_int(s@, i as int) is None,
        },
{
    let neg = i < s.len() && s[i] == '-';
    let j0 = if neg {
        i + 1
    } else {
        i
    };
    let mut j = j0;
    let mut acc: u64 = 0;
    let mut over = false;
    while j < s.len() && digit_test(s[j])
        invariant
            j0 <= j <= s@.len(),
            spec_digits_end(s@, j0 as int) == spec_digits_end(s@, j as int),
            !over ==> acc as int == spec_digits_val(s@, j0 as int, j as int),
            over ==> spec_digits_val(s@, j0 as int, j as int) > 9223372036854775808int,
        decreases s@.len() - j,
    {
        let d: u64 = ((s[j] as u32) - 48) as u64;
        proof {
            assert(spec_digits_val(s@, j0 as int, j as int + 1) == spec_digits_val(
                s@,
                j0 as int,
                j as int,
            ) * 10 + (s@[j as int] as u32 - 48));
        }
        if over || acc > 1844674407370955160 {
            over = true;
        } else {
            acc = acc * 10 + d;
        }
        j = j + 1;
    }
    proof {
        assert(spec_digits_end(s@, j as int) == j as int);
    }
    if j == j0 {
        return None;
    }
    let fits = if over {
        false
    } else if neg {
        acc <= 9223372036854775808
    } else {
        acc <= 9223372036854775807
    };
    if !fits {
        return None;
    }
    let n: i64 = if neg {
        if acc == 9223372036854775808 {
            i64::MIN
        } else {
            -(acc as i64)
        }
    } else {
        acc as i64
    };
    Some((Expr::integer(n), j))
}

/// An atom with the whitespace around it.
fn parse_atom_padded(s: &Vec<char>, i: usize) -> (r: Option<(Expr, usize)>)
    requires
        i <= s@.len(),
    ensures
        match r {
            Some(p) => spec_atom_padded(s@, i as int) == Some((p.0@, p.1 as int)) && i < p.1
                <= s@.len() && sequences_wf(p.0@),
            None => spec_atom_padded(s@, i as int) is None,
        },
    decreases s@.len() - i, 2int,
{
    let j = skip_ws(s, i);
    match parse_atom(s, j) {
        Some((e, k)) => {
            let m = skip_ws(s, k);
            Some((e, m))
        },
        None => None,
    }
}

/// A bare atom at position `i`, the alternatives tried in a fixed order.
fn parse_atom(s: &Vec<char>, i: usize) -> (r: Option<(Expr, usize)>)
    requires
        i <= s@.len(),
    ensures
        match r {
            Some(p) => spec_atom(s@, i as int) == Some((p.0@, p.1 as int)) && i < p.1 <= s@.len()
                && sequences_wf(p.0@),
            None => spec_atom(s@, i as int) is None,
        },
    decreases s@.len() - i, 1int,
{
    let end = s.len();
    proof {
        assert(end == s@.len());
    }
    proof {
        reveal_strlit("skip");
        reveal_strlit("true");
        reveal_strlit("false");
        assert("skip"@ =~= seq!['s', 'k', 'i', 'p']);
        assert("true"@ =~= seq!['t', 'r', 'u', 'e']);
        assert("false"@ =~= seq!['f', 'a', 'l', 's', 'e']);
    }
    if has_lit(s, i, "skip") {
        return Some((Expr::skip(), i + 4));
    }
    if has_lit(s, i, "true") {
        return Some((Expr::boolean(true), i + 4));
    }
    if has_lit(s, i, "false") {
        return Some((Expr::boolean(false), i + 5));
    }
    match parse_int(s, i) {
        Some((e, j)) => {
            return Some((e, j));
        },
        None => {},
    }
    if i < s.len() && s[i] == '!' {
        match parse_ident(s, i + 1) {
            Some((id, j)) => {
                return Some((Expr::dereference(id.as_str()), j));
            },
            None => {
                return None;
            },
        }
    }
    match parse_assign(s, i) {
        Some((e, j)) => {
            return Some((e, j));
        },
        None => {},
    }
    proof {
        reveal_strlit("if");
        reveal_strlit("while");
        assert("if"@ =~= seq!['i', 'f']);
        assert("while"@ =~= seq!['w', 'h', 'i', 'l', 'e']);
    }
    if has_lit(s, i, "if") {
        let r = parse_if(s, i);
        return r;
    }
    if has_lit(s, i, "while") {
        let r = parse_while(s, i);
        return r;
    }
    if i < s.len() && s[i] == '(' {
        match parse_seq(s, i + 1) {
            Some((e, j)) => {
                if j < s.len() && s[j] == ')' {
                    return Some((e, j + 1));
                } else {
                    return None;
                }
            },
            None => {
                return None;
            },
        }
    }
    None
}

/// An assignment atom: an identifier, `:=`, then a full expression.
fn parse_assign(s: &Vec<char>, i: usize) -> (r: Option<(Expr, usize)>)
    requires
        i <= s@.len(),
    ensures
        match r {
            Some(p) => spec_assign(s@, i as int) == Some((p.0@, p.1 as int)) && i < p.1 <= s@.len()
                && sequences_wf(p.0@),
            None => spec_assign(s@, i as int) is None,
        },
    decreases s@.len() - i, 0int,
{
    let end = s.len();
    proof {
        assert(end == s@.len());
    }
    match parse_ident(s, i) {
        Some((id, j)) => {
            let k = skip_ws(s, j);
            proof {
                reveal_strlit(":=");
                assert(":="@ =~= seq![':', '=']);
            }
            if has_lit(s, k, ":=") {
                match parse_cmp(s, k + 2) {
                    Some((value, m)) => {
                        let out = Expr::assignment(id.as_str(), value);
                        proof {
                            assert(sequences_wf(out@));
                        }
                        Some((out, m))
                    },
                    None => None,
                }
            } else {
                None
            }
        },
        None => None,
    }
}

/// An `if`/`then`/`else` atom.
fn parse_if(s: &Vec<char>, i: usize) -> (r: Option<(Expr, usize)>)
    requires
        i <= s@.len(),
    ensures
        match r {
            Some(p) => spec_if(s@, i as int) == Some((p.0@, p.1 as int)) && i < p.1 <= s@.len()
                && sequences_wf(p.0@),
            None => spec_if(s@, i as int) is None,
        },
    decreases s@.len() - i, 0int,
{
    let end = s.len();
    proof {
        assert(end == s@.len());
    }
    proof {
        reveal_strlit("if");
        reveal_strlit("then");
        reveal_strlit("else");
        assert("if"@ =~= seq!['i', 'f']);
        assert("then"@ =~= seq!['t', 'h', 'e', 'n']);
        assert("else"@ =~= seq!['e', 'l', 's', 'e']);
    }
    if !has_lit(s, i, "if") {
        return None;
    }
    match parse_cmp(s, i + 2) {
        Some((p, j)) => {
            if has_lit(s, j, "then") {
                match parse_cmp(s, j + 4) {
                    Some((c, k)) => {
                        if has_lit(s, k, "else") {
                            match parse_cmp(s, k + 4) {
                                Some((a, m)) => {
                                    let out = Expr::if_then_else(p, c, a);
                                    proof {
                                        assert(sequences_wf(out@));
                                    }
                                    Some((out, m))
                                },
                                None => None,
                            }
                        } else {
                            None
                        }
                    },
                    None => None,
                }
            } else {
                None
            }
        },
        None => None,
    }
}

/// A `while`/`do` atom.
fn parse_while(s: &Vec<char>, i: usize) -> (r: Option<(Expr, usize)>)
    requires
        i <= s@.len(),
    ensures
        match r {
            Some(p) => spec_while(s@, i as int) == Some((p.0@, p.1 as int)) && i < p.1 <= s@.len()
                && sequences_wf(p.0@),
            None => spec_while(s@, i as int) is None,
        },
    decreases s@.len() - i, 0int,
{
    let end = s.len();
    proof {
        assert(end == s@.len());
    }
    proof {
        reveal_strlit("while");
        reveal_strlit("do");
        assert("while"@ =~= seq!['w', 'h', 'i', 'l', 'e']);
        assert("do"@ =~= seq!['d', 'o']);
    }
    if !has_lit(s, i, "while") {
        return None;
    }
    match parse_cmp(s, i + 5) {
        Some((p, j)) => {
            if has_lit(s, j, "do") {
                match parse_cmp(s, j + 2) {
                    Some((b, k)) => {
                        let out = Expr::while_loop(p, b);
                        proof {
                            assert(sequences_wf(out@));
                        }
                        Some((out, k))
                    },
                    None => None,
                }
            } else {
                None
            }
        },
        None => None,
    }
}

/// The tighter operator layer: left-associative `+` over atoms.
fn parse_add(s: &Vec<char>, i: usize) -> (r: Option<(Expr, usize)>)
    requires
        i <= s@.len(),
    ensures
        match r {
            Some(p) => spec_add(s@, i as int) == Some((p.0@, p.1 as int)) && i < p.1 <= s@.len()
                && sequences_wf(p.0@),
            None => spec_add(s@, i as int) is None,
        },
    decreases s@.len() - i, 3int,
{
    match parse_atom_padded(s, i) {
        Some((first, j)) => parse_add_more(s, j, first),
        None => None,
    }
}

/// The remaining `+ operand` tail of an addition chain.
fn parse_add_more(s: &Vec<char>, i: usize, acc: Expr) -> (r: Option<(Expr, usize)>)
    requires
        i <= s@.len(),
        sequences_wf(acc@),
    ensures
        match r {
            Some(p) => spec_add_more(s@, i as int, acc@) == Some((p.0@, p.1 as int)) && i <= p.1
                <= s@.len() && sequences_wf(p.0@),
            None => spec_add_more(s@, i as int, acc@) is None,
        },
    decreases s@.len() - i, 4int,
{
    if i < s.len() && s[i] == '+' {
        match parse_atom_padded(s, i + 1) {
            Some((rhs, j)) => {
                let newacc = Expr::operation(Op::Add, acc, rhs);
                proof {
                    assert(sequences_wf(newacc@));
                }
                parse_add_more(s, j, newacc)
            },
            None => Some((acc, i)),
        }
    } else {
        Some((acc, i))
    }
}

/// The loosest operator layer: left-associative `>=` over `+`-chains.
fn parse_cmp(s: &Vec<char>, i: usize) -> (r: Option<(Expr, usize)>)
    requires
        i <= s@.len(),
    ensures
        match r {
            Some(p) => spec_cmp(s@, i as int) == Some((p.0@, p.1 as int)) && i < p.1 <= s@.len()
                && sequences_wf(p.0@),
            None => spec_cmp(s@, i as int) is None,
        },
    decreases s@.len() - i, 4int,
{
    match parse_add(s, i) {
        Some((first, j)) => parse_cmp_more(s, j, first),
        None => None,
    }
}

/// The remaining `>= operand` tail of a comparison chain.
fn parse_cmp_more(s: &Vec<char>, i: usize, acc: Expr) -> (r: Option<(Expr, usize)>)
    requires
        i <= s@.len(),
        sequences_wf(acc@),
    ensures
        match r {
            Some(p) => spec_cmp_more(s@, i as int, acc@) == Some((p.0@, p.1 as int)) && i <= p.1
                <= s@.len() && sequences_wf(p.0@),
            None => spec_cmp_more(s@, i as int, acc@) is None,
        },
    decreases s@.len() - i, 5int,
{
    let end = s.len();
    proof {
        assert(end == s@.len());
    }
    proof {
        reveal_strlit(">=");
        assert(">="@ =~= seq!['>', '=']);
    }
    if has_lit(s, i, ">=") {
        match parse_add(s, i + 2) {
            Some((rhs, j)) => {
                let newacc = Expr::operation(Op::GreaterEqual, acc, rhs);
                proof {
                    assert(sequences_wf(newacc@));
                }
                parse_cmp_more(s, j, newacc)
            },
            None => Some((acc, i)),
        }
    } else {
        Some((acc, i))
    }
}

/// A whole `;`-separated program, parsed from position `i`.
fn parse_seq(s: &Vec<char>, i: usize) -> (r: Option<(Expr, usize)>)
    requires
        i <= s@.len(),
    ensures
        match r {
            Some(p) => spec_seq(s@, i as int) == Some((p.0@, p.1 as int)) && i < p.1 <= s@.len()
                && sequences_wf(p.0@),
            None => spec_seq(s@, i as int) is None,
        },
    decreases s@.len() - i, 5int,
{
    match parse_cmp(s, i) {
        Some((first, j)) => {
            let mut es: Vec<Expr> = Vec::new();
            es.push(first);
            proof {
                assert(views_of(es@.drop_first()) =~= Seq::<ExprView>::empty());
                assert(views_of(es@) =~= seq![es@[0]@]);
                assert(seq![es@[0]@].drop_first() =~= Seq::<ExprView>::empty());
                assert(sequences_wf_all(Seq::<ExprView>::empty()));
                assert(sequences_wf(es@[0]@));
                assert(sequences_wf_all(views_of(es@)));
            }
            parse_seq_more(s, j, es)
        },
        None => None,
    }
}

/// The remaining `; expression` tail of a sequence, with the elements read so
/// far.
fn parse_seq_more(s: &Vec<char>, i: usize, es: Vec<Expr>) -> (r: Option<(Expr, usize)>)
    requires
        i <= s@.len(),
        es@.len() >= 1,
        sequences_wf_all(views_of(es@)),
    ensures
        match r {
            Some(p) => spec_seq_more(s@, i as int, views_of(es@)) == Some((p.0@, p.1 as int)) && i
                <= p.1 <= s@.len() && sequences_wf(p.0@),
            None => spec_seq_more(s@, i as int, views_of(es@)) is None,
        },
    decreases s@.len() - i, 6int,
{
    let ghost vs = views_of(es@);
    proof {
        lemma_views_of(es@);
        lemma_sequences_wf_all(vs);
    }
    if i < s.len() && s[i] == ';' {
        match parse_cmp(s, i + 1) {
            Some((next, j)) => {
                let mut es2 = es;
                es2.push(next);
                proof {
                    lemma_views_of(es2@);
                    assert(views_of(es2@) =~= vs.push(next@));
                    lemma_sequences_wf_all(views_of(es2@));
                }
                parse_seq_more(s, j, es2)
            },
            None => {
                if es.len() == 1 {
                    let mut rest = es;
                    let single = rest.remove(0);
                    Some((single, i))
                } else {
                    let out = Expr::sequence(es);
                    proof {
                        assert(sequences_wf(out@));
                    }
                    Some((out, i))
                }
            },
        }
    } else {
        if es.len() == 1 {
            let mut rest = es;
            let single = rest.remove(0);
            Some((single, i))
        } else {
            let out = Expr::sequence(es);
            proof {
                assert(sequences_wf(out@));
            }
            Some((out, i))
        }
    }
}

/// Parses a whole source text into one expression, or reports the position at
/// which the input could not be understood.  The whole input must be
/// consumed: anything left over after one program is itself an error.
pub fn parse(src: &str) -> (r: Result<Expr, ParseError>)
    ensures
        match r {
            Ok(e) => spec_parse(src@) == Some(e@) && sequences_wf(e@),
            Err(pe) => spec_parse(src@) is None && pe.position <= src@.len(),
        },
{
    let n = src.unicode_len();
    let mut cs: Vec<char> = Vec::new();
    let mut i: usize = 0;
    while i < n
        invariant
            i <= n,
            n == src@.len(),
            cs@ == src@.take(i as int),
        decreases n - i,
    {
        let c = src.get_char(i);
        cs.push(c);
        proof {
            assert(src@.take(i as int + 1) =~= src@.take(i as int).push(src@[i as int]));
        }
        i = i + 1;
    }
    proof {
        assert(cs@ =~= src@);
    }
    match parse_seq(&cs, 0) {
        Some((e, j)) => {
            if j == cs.len() {
                Ok(e)
            } else {
                Err(ParseError { position: j })
            }
        },
        None => Err(ParseError { position: 0 }),
    }
}

} // verus!
