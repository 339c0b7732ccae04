//! The store: a mapping from identifiers to expression values, with its keys
//! kept in ascending lexicographic order so that rendering it is
//! deterministic.

use vstd::prelude::*;

use crate::ast::Expr;
use crate::ast::ExprView;
use crate::ast::infix_of;

verus! {

use vstd::string::StrSliceExecFns;
use vstd::string::StringExecFns;

/// Strict lexicographic order on character sequences, by code point.
pub open spec fn seq_char_lt(a: Seq<char>, b: Seq<char>) -> bool
    decreases a.len(),
{
    if b.len() == 0 {
        false
    } else if a.len() == 0 {
        true
    } else if (a[0] as u32) < (b[0] as u32) {
        true
    } else if (b[0] as u32) < (a[0] as u32) {
        false
    } else {
        seq_char_lt(a.drop_first(), b.drop_first())
    }
}

/// `seq_char_lt` is a strict total order: any two sequences are related one
/// way, the other way, or equal, and never in more than one of those ways.
pub proof fn lemma_seq_char_lt_total(a: Seq<char>, b: Seq<char>)
    ensures
        seq_char_lt(a, b) || seq_char_lt(b, a) || a == b,
        seq_char_lt(a, b) ==> !seq_char_lt(b, a) && a != b,
    decreases a.len(),
{
    if a.len() > 0 && b.len() > 0 {
        if (a[0] as u32) == (b[0] as u32) {
            vstd::utf8::char_u32_cast(a[0], a[0] as u32);
            vstd::utf8::char_u32_cast(b[0], b[0] as u32);
            assert(a[0] == b[0]);
            lemma_seq_char_lt_total(a.drop_first(), b.drop_first());
            if !seq_char_lt(a, b) && !seq_char_lt(b, a) {
                assert(a.drop_first() == b.drop_first());
                assert(a =~= seq![a[0]] + a.drop_first());
                assert(b =~= seq![b[0]] + b.drop_first());
            }
        }
    }
}

/// `seq_char_lt` is transitive.
pub proof fn lemma_seq_char_lt_trans(a: Seq<char>, b: Seq<char>, c: Seq<char>)
    requires
        seq_char_lt(a, b),
        seq_char_lt(b, c),
    ensures
        seq_char_lt(a, c),
    decreases a.len(),
{
    if a.len() > 0 && b.len() > 0 && c.len() > 0 {
        if (a[0] as u32) == (b[0] as u32) && (b[0] as u32) == (c[0] as u32) {
            lemma_seq_char_lt_trans(a.drop_first(), b.drop_first(), c.drop_first());
        }
    }
}

/// Whether `a` comes strictly before `b` in lexicographic order.
pub fn str_lt(a: &str, b: &str) -> (r: bool)
    ensures
        r == seq_char_lt(a@, b@),
{
    let a_len = a.unicode_len();
    let b_len = b.unicode_len();
    let mut i: usize = 0;
    proof {
        assert(a@.skip(0) =~= a@);
        assert(b@.skip(0) =~= b@);
    }
    loop
        invariant
            i <= a_len,
            i <= b_len,
            a_len == a@.len(),
            b_len == b@.len(),
            seq_char_lt(a@, b@) == seq_char_lt(a@.skip(i as int), b@.skip(i as int)),
        decreases a_len - i,
    {
        if i == a_len {
            assert(a@.skip(i as int).len() == 0);
            return i < b_len;
        }
        if i == b_len {
            assert(b@.skip(i as int).len() == 0);
            return false;
        }
        let ca = a.get_char(i);
        let cb = b.get_char(i);
        assert(a@.skip(i as int)[0] == a@[i as int]);
        assert(b@.skip(i as int)[0] == b@[i as int]);
        if (ca as u32) < (cb as u32) {
            return true;
        }
        if (cb as u32) < (ca as u32) {
            return false;
        }
        proof {
            assert(a@.skip(i as int).drop_first() =~= a@.skip(i as int + 1));
            assert(b@.skip(i as int).drop_first() =~= b@.skip(i as int + 1));
        }
        i = i + 1;
    }
}

/// Whether `a` and `b` hold the same characters.
pub fn str_eq(a: &str, b: &str) -> (r: bool)
    ensures
        r == (a@ == b@),
{
    let a_len = a.unicode_len();
    let b_len = b.unicode_len();
    if a_len != b_len {
        return false;
    }
    let mut i: usize = 0;
    while i < a_len
        invariant
            i <= a_len,
            a_len == a@.len(),
            b_len == b@.len(),
            a_len == b_len,
            forall|j: int| 0 <= j < i ==> a@[j] == b@[j],
        decreases a_len - i,
    {
        let ca = a.get_char(i);
        let cb = b.get_char(i);
        if ca != cb {
            return false;
        }
        i = i + 1;
    }
    proof {
        assert(a@ =~= b@);
    }
    true
}

/// One slot of the store.
pub struct StoreEntry {
    pub location: String,
    pub value: Expr,
}

/// The store itself: its entries are kept sorted by location, strictly
/// ascending, so each location occurs at most once.
pub struct Store {
    pub entries: Vec<StoreEntry>,
}

impl Store {
    /// Well-formedness: entries strictly sorted by location.
    pub open spec fn wf(self) -> bool {
        forall|i: int, j: int|
            0 <= i < j < self.entries@.len() ==> seq_char_lt(
                self.entries@[i].location@,
                self.entries@[j].location@,
            )
    }

    /// The locations and the models of the values, in entry order.
    pub open spec fn pairs(self) -> Seq<(Seq<char>, ExprView)> {
        Seq::new(
            self.entries@.len(),
            |i: int| (self.entries@[i].location@, self.entries@[i].value@),
        )
    }

    /// Whether some entry holds `loc`.
    pub open spec fn contains_loc(self, loc: Seq<char>) -> bool {
        exists|i: int| 0 <= i < self.entries@.len() && self.entries@[i].location@ == loc
    }

    /// The index of the entry holding `loc`.
    pub open spec fn index_of(self, loc: Seq<char>) -> int {
        choose|i: int| 0 <= i < self.entries@.len() && self.entries@[i].location@ == loc
    }

    /// In a well-formed store distinct entries hold distinct locations.
    pub proof fn lemma_unique(self)
        requires
            self.wf(),
        ensures
            forall|i: int, j: int|
                0 <= i < self.entries@.len() && 0 <= j < self.entries@.len() && i != j
                    ==> self.entries@[i].location@ != self.entries@[j].location@,
    {
        assert forall|i: int, j: int|
            0 <= i < self.entries@.len() && 0 <= j < self.entries@.len() && i != j
            implies self.entries@[i].location@ != self.entries@[j].location@ by {
            if i < j {
                lemma_seq_char_lt_total(self.entries@[i].location@, self.entries@[j].location@);
            } else {
                lemma_seq_char_lt_total(self.entries@[j].location@, self.entries@[i].location@);
            }
        }
    }

    /// The empty store.
    pub fn new() -> (r: Self)
        ensures
            r.wf(),
            r@ == Map::<Seq<char>, ExprView>::empty(),
            r.pairs() == Seq::<(Seq<char>, ExprView)>::empty(),
    {
        let r = Store { entries: Vec::new() };
        proof {
            assert(r@ =~= Map::<Seq<char>, ExprView>::empty());
            assert(r.pairs() =~= Seq::<(Seq<char>, ExprView)>::empty());
        }
        r
    }

    /// The value stored at `location`, if any.
    pub fn get(&self, location: &str) -> (r: Option<&Expr>)
        requires
            self.wf(),
        ensures
            match r {
                Some(value) => self@.contains_key(location@) && value@ == self@[location@],
                None => !self@.contains_key(location@),
            },
    {
        let mut i: usize = 0;
        while i < self.entries.len()
            invariant
                self.wf(),
                i <= self.entries@.len(),
                forall|j: int| 0 <= j < i ==> self.entries@[j].location@ != location@,
            decreases self.entries@.len() - i,
        {
            if str_eq(self.entries[i].location.as_str(), location) {
                proof {
                    self.lemma_unique();
                    assert(self.contains_loc(location@));
                    assert(self.index_of(location@) == i);
                }
                return Some(&self.entries[i].value);
            }
            i = i + 1;
        }
        None
    }

    /// Writes `value` at `location`, replacing any earlier value there and
    /// keeping the entries sorted.
    pub fn insert(&mut self, location: &str, value: Expr)
        requires
            old(self).wf(),
        ensures
            final(self).wf(),
            final(self)@ == old(self)@.insert(location@, value@),
    {
        let ghost old_entries = self.entries@;
        let mut idx: usize = 0;
        loop
            invariant
                idx <= self.entries@.len(),
                self == old(self),
                forall|j: int| 0 <= j < idx ==> seq_char_lt(self.entries@[j].location@, location@),
            ensures
                idx <= self.entries@.len(),
                self == old(self),
                forall|j: int| 0 <= j < idx ==> seq_char_lt(self.entries@[j].location@, location@),
                idx < self.entries@.len() ==> !seq_char_lt(
                    self.entries@[idx as int].location@,
                    location@,
                ),
            decreases self.entries@.len() - idx,
        {
            if idx == self.entries.len() {
                break;
            }
            if !str_lt(self.entries[idx].location.as_str(), location) {
                break;
            }
            idx = idx + 1;
        }
        let replace = idx < self.entries.len() && str_eq(
            self.entries[idx].location.as_str(),
            location,
        );
        if replace {
            self.entries.remove(idx);
            self.entries.insert(idx, StoreEntry { location: location.to_owned(), value });
            proof {
                assert(self.entries@ =~= old_entries.update(idx as int, self.entries@[idx as int]));
                assert forall|j: int| 0 <= j < old_entries.len() implies self.entries@[j].location@
                    == old_entries[j].location@ by {
                    if j == idx {
                        assert(self.entries@[j].location@ == location@);
                    } else {
                        assert(self.entries@[j] == old_entries[j]);
                    }
                }
                assert forall|i: int, j: int|
                    0 <= i < j < self.entries@.len() implies seq_char_lt(
                    self.entries@[i].location@,
                    self.entries@[j].location@,
                ) by {
                    assert(seq_char_lt(old_entries[i].location@, old_entries[j].location@));
                }
                assert(self.wf());
                old(self).lemma_unique();
                self.lemma_unique();
                let ghost ins = old(self)@.insert(location@, value@);
                assert forall|k: Seq<char>| #[trigger] self@.contains_key(k) implies ins.contains_key(
                    k,
                ) && self@[k] == ins[k] by {
                    let i = self.index_of(k);
                    assert(self.entries@[i].location@ == k);
                    assert(old(self).contains_loc(k));
                    if k == location@ {
                        assert(i == idx);
                        assert(self@[k] == value@);
                    } else {
                        assert(i != idx);
                        assert(old(self).index_of(k) == i);
                        assert(self@[k] == old(self)@[k]);
                    }
                }
                assert forall|k: Seq<char>| #[trigger] ins.contains_key(k) implies self@.contains_key(
                    k,
                ) by {
                    if k == location@ {
                        assert(self.entries@[idx as int].location@ == k);
                        assert(self.contains_loc(k));
                    } else {
                        let o = old(self).index_of(k);
                        assert(self.entries@[o].location@ == k);
                        assert(self.contains_loc(k));
                    }
                }
                assert(self@ =~= ins);
            }
        } else {
            proof {
                // the location is new: every entry below `idx` comes before
                // it, every entry from `idx` on comes after it
                if idx < old_entries.len() {
                    lemma_seq_char_lt_total(old_entries[idx as int].location@, location@);
                }
                assert forall|j: int| idx <= j < old_entries.len() implies seq_char_lt(
                    location@,
                    old_entries[j].location@,
                ) by {
                    if j > idx {
                        lemma_seq_char_lt_trans(
                            location@,
                            old_entries[idx as int].location@,
                            old_entries[j].location@,
                        );
                    }
                }
                assert forall|j: int| 0 <= j < old_entries.len() implies old_entries[j].location@
                    != location@ by {
                    if j < idx {
                        lemma_seq_char_lt_total(old_entries[j].location@, location@);
                    } else {
                        lemma_seq_char_lt_total(location@, old_entries[j].location@);
                    }
                }
                assert(!old(self).contains_loc(location@));
            }
            self.entries.insert(idx, StoreEntry { location: location.to_owned(), value });
            proof {
                assert(self.entries@.len() == old_entries.len() + 1);
                assert forall|i: int, j: int|
                    0 <= i < j < self.entries@.len() implies seq_char_lt(
                    self.entries@[i].location@,
                    self.entries@[j].location@,
                ) by {
                    if j == idx {
                        assert(seq_char_lt(old_entries[i].location@, location@));
                    } else if i == idx {
                        assert(self.entries@[j].location@ == old_entries[j - 1].location@);
                    } else if i < idx && j > idx {
                        assert(self.entries@[i].location@ == old_entries[i].location@);
                        assert(self.entries@[j].location@ == old_entries[j - 1].location@);
                    }
                }
                assert(self.wf());
                old(self).lemma_unique();
                self.lemma_unique();
                let ghost ins = old(self)@.insert(location@, value@);
                assert forall|k: Seq<char>| #[trigger] self@.contains_key(k) implies ins.contains_key(
                    k,
                ) && self@[k] == ins[k] by {
                    let i = self.index_of(k);
                    assert(self.entries@[i].location@ == k);
                    if i == idx {
                        assert(k == location@);
                        assert(self@[k] == value@);
                    } else {
                        let o = if i < idx {
                            i
                        } else {
                            i - 1
                        };
                        assert(old_entries[o].location@ == k);
                        assert(k != location@);
                        assert(old(self).contains_loc(k));
                        assert(old(self).index_of(k) == o);
                        assert(self@[k] == self.entries@[i].value@);
                        assert(old(self)@[k] == old_entries[o].value@);
                    }
                }
                assert forall|k: Seq<char>| #[trigger] ins.contains_key(k) implies self@.contains_key(
                    k,
                ) by {
                    if k == location@ {
                        assert(self.entries@[idx as int].location@ == k);
                        assert(self.contains_loc(k));
                    } else {
                        let o = old(self).index_of(k);
                        assert(old_entries[o].location@ == k);
                        let i = if o < idx {
                            o
                        } else {
                            o + 1
                        };
                        assert(self.entries@[i].location@ == k);
                        assert(self.contains_loc(k));
                    }
                }
                assert(self@ =~= ins);
            }
        }
    }
}

impl View for Store {
    type V = Map<Seq<char>, ExprView>;

    /// The mapping the store holds, with identifiers as character sequences.
    open spec fn view(&self) -> Map<Seq<char>, ExprView> {
        Map::new(|loc: Seq<char>| self.contains_loc(loc), |loc: Seq<char>| self.value_at(loc))
    }
}

impl Store {
    /// The model of the value held at `loc`.
    pub open spec fn value_at(self, loc: Seq<char>) -> ExprView {
        self.entries@[self.index_of(loc)].value@
    }
}

/// The rendering of the entries of `ps`: `location -> value`, joined by
/// `", "`, values in infix form.
pub open spec fn entries_str(ps: Seq<(Seq<char>, ExprView)>) -> Seq<char>
    decreases ps.len(),
{
    if ps.len() == 0 {
        Seq::empty()
    } else if ps.len() == 1 {
        ps[0].0 + " -> "@ + infix_of(ps[0].1)
    } else {
        ps[0].0 + " -> "@ + infix_of(ps[0].1) + ", "@ + entries_str(ps.drop_first())
    }
}

/// The rendering of a whole program state: the expression in infix form, then
/// the store entries in key order between braces.
pub open spec fn program_str(e: ExprView, ps: Seq<(Seq<char>, ExprView)>) -> Seq<char> {
    infix_of(e) + ", {"@ + entries_str(ps) + "}"@
}

/// Renders an expression together with a store, entries in key order.
pub fn display_program(expr: &Expr, store: &Store) -> (r: String)
    ensures
        r@ == program_str(expr@, store.pairs()),
{
    let mut s = expr.display();
    s.append(", {");
    let tail = entries_tail(&store.entries, 0);
    s.append(tail.as_str());
    s.append("}");
    proof {
        assert(store.pairs().skip(0) =~= store.pairs());
    }
    s
}

/// The renderings of the store entries from index `i` on, joined by `", "`.
fn entries_tail(entries: &Vec<StoreEntry>, i: usize) -> (s: String)
    requires
        i <= entries@.len(),
    ensures
        s@ == entries_str(
            Seq::new(entries@.len(), |k: int| (entries@[k].location@, entries@[k].value@)).skip(
                i as int,
            ),
        ),
    decreases entries@.len() - i,
{
    let ghost ps = Seq::new(
        entries@.len(),
        |k: int| (entries@[k].location@, entries@[k].value@),
    );
    if i == entries.len() {
        let s = String::new();
        assert(ps.skip(i as int) =~= Seq::<(Seq<char>, ExprView)>::empty());
        s
    } else {
        let mut s = entries[i].location.clone();
        s.append(" -> ");
        let value = entries[i].value.display();
        s.append(value.as_str());
        proof {
            assert(ps.skip(i as int)[0] == ps[i as int]);
        }
        if i + 1 == entries.len() {
            assert(ps.skip(i as int).len() == 1);
            s
        } else {
            s.append(", ");
            let tail = entries_tail(entries, i + 1);
            s.append(tail.as_str());
            proof {
                assert(ps.skip(i as int).drop_first() =~= ps.skip(i as int + 1));
            }
            s
        }
    }
}

} // verus!
