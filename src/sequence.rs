use vstd::prelude::*;
use crate::error::{Error, Failure};
use crate::multi::{atoms_ok, ops_ok, parse, parse_spec, tree_of, Lit, Op, SExpr, Tree, Value};
use crate::number::{digits_of, digits_text};
use crate::single::{read_single, reading_of};
use crate::text::string_of;

verus! {

/// A sequence of duration literals, held as a tree so that a sequence
/// repeated without bound is never written out.
#[derive(Debug)]
pub enum SeqNode {
    Nothing,
    Lit(String),
    /// Two sequences one after the other, and the saturated length.
    Concat(Box<SeqNode>, Box<SeqNode>, u64),
    /// A sequence repeated a number of times, and the saturated length.
    Repeat(Box<SeqNode>, u64, u64),
}

/// `s` repeated `k` times.
pub open spec fn repeat_seq(s: Seq<Seq<char>>, k: nat) -> Seq<Seq<char>> {
    Seq::new(k * s.len(), |i: int| s[i % s.len() as int])
}

/// The literals of a sequence, in order.
pub open spec fn items(n: SeqNode) -> Seq<Seq<char>>
    decreases n,
{
    match n {
        SeqNode::Nothing => Seq::empty(),
        SeqNode::Lit(s) => seq![s@],
        SeqNode::Concat(a, b, _) => items(*a) + items(*b),
        SeqNode::Repeat(a, k, _) => repeat_seq(items(*a), k as nat),
    }
}

/// A length, saturated at `u64::MAX`.
pub open spec fn sat(n: int) -> int {
    if n > u64::MAX {
        u64::MAX as int
    } else {
        n
    }
}

/// Whether every cached length is the saturated length of its sequence.
pub open spec fn node_wf(n: SeqNode) -> bool
    decreases n,
{
    match n {
        SeqNode::Nothing => true,
        SeqNode::Lit(_) => true,
        SeqNode::Concat(a, b, l) => node_wf(*a) && node_wf(*b) && l == sat(
            items(*a).len() + items(*b).len() as int,
        ),
        SeqNode::Repeat(a, k, l) => node_wf(*a) && l == sat(k * items(*a).len() as int),
    }
}

/// Whether every literal reads as a single duration.
pub open spec fn all_read(s: Seq<Seq<char>>) -> bool {
    forall|i: int| 0 <= i < s.len() ==> reading_of(#[trigger] s[i]) is Ok
}

proof fn lemma_repeat_index(s: Seq<Seq<char>>, k: nat, i: int)
    requires
        s.len() > 0,
        0 <= i < k * s.len(),
    ensures
        0 <= i % (s.len() as int) < s.len(),
        repeat_seq(s, k)[i] == s[i % (s.len() as int)],
{
    let l = s.len() as int;
    assert(0 <= i % l < l) by (nonlinear_arith)
        requires
            l > 0,
    ;
}

proof fn lemma_repeat_all_read(s: Seq<Seq<char>>, k: nat)
    requires
        all_read(s),
    ensures
        all_read(repeat_seq(s, k)),
{
    assert forall|i: int| 0 <= i < repeat_seq(s, k).len() implies reading_of(
        #[trigger] repeat_seq(s, k)[i],
    ) is Ok by {
        if s.len() > 0 {
            lemma_repeat_index(s, k, i);
        } else {
            assert(k * s.len() == 0) by (nonlinear_arith)
                requires
                    s.len() == 0,
            ;
        }
    }
}

impl SeqNode {
    /// The number of literals, saturated at `u64::MAX`.
    pub fn slen(&self) -> (r: u64)
        requires
            node_wf(*self),
        ensures
            r == sat(items(*self).len() as int),
    {
        match self {
            SeqNode::Nothing => 0,
            SeqNode::Lit(_) => 1,
            SeqNode::Concat(_, _, l) => *l,
            SeqNode::Repeat(_, _, l) => *l,
        }
    }

    /// One sequence followed by another.
    pub fn concat(a: SeqNode, b: SeqNode) -> (r: SeqNode)
        requires
            node_wf(a),
            node_wf(b),
        ensures
            node_wf(r),
            items(r) == items(a) + items(b),
    {
        let la = a.slen();
        let lb = b.slen();
        let l = if la > u64::MAX - lb {
            u64::MAX
        } else {
            la + lb
        };
        SeqNode::Concat(Box::new(a), Box::new(b), l)
    }

    /// A sequence repeated `k` times.
    pub fn repeat(a: SeqNode, k: u64) -> (r: SeqNode)
        requires
            node_wf(a),
        ensures
            node_wf(r),
            items(r) == repeat_seq(items(a), k as nat),
    {
        let la = a.slen();
        let ghost len_a = items(a).len() as int;
        let l: u64 = if k == 0 || la == 0 {
            proof {
                assert(k * len_a == 0) by (nonlinear_arith)
                    requires
                        k == 0 || len_a == 0,
                ;
            }
            0
        } else if la == u64::MAX {
            proof {
                assert(k * len_a >= u64::MAX) by (nonlinear_arith)
                    requires
                        k >= 1,
                        len_a >= u64::MAX,
                ;
            }
            u64::MAX
        } else if la > u64::MAX / k {
            proof {
                assert(k * len_a > u64::MAX) by (nonlinear_arith)
                    requires
                        la > u64::MAX / k,
                        k >= 1,
                        len_a == la,
                ;
            }
            u64::MAX
        } else {
            proof {
                assert(la * k <= u64::MAX) by (nonlinear_arith)
                    requires
                        la <= u64::MAX / k,
                        k >= 1,
                ;
            }
            la * k
        };
        SeqNode::Repeat(Box::new(a), k, l)
    }

    /// The literal at position `i`, if the sequence has one there.
    pub fn get(&self, i: u64) -> (r: Option<String>)
        requires
            node_wf(*self),
            i < u64::MAX,
        ensures
            match r {
                Some(s) => i < items(*self).len() && s@ == items(*self)[i as int],
                None => i >= items(*self).len(),
            },
        decreases self,
    {
        match self {
            SeqNode::Nothing => None,
            SeqNode::Lit(s) => if i == 0 {
                Some(s.clone())
            } else {
                None
            },
            SeqNode::Concat(a, b, _) => {
                let la = a.slen();
                if i < la {
                    a.get(i)
                } else {
                    b.get(i - la)
                }
            },
            SeqNode::Repeat(a, k, _) => {
                let la = a.slen();
                let ghost s = items(**a);
                let ghost len_a = s.len() as int;
                if la == 0 || *k == 0 {
                    proof {
                        assert(*k * len_a == 0) by (nonlinear_arith)
                            requires
                                *k == 0 || len_a == 0,
                        ;
                    }
                    None
                } else if la == u64::MAX {
                    proof {
                        assert(i < *k * len_a) by (nonlinear_arith)
                            requires
                                *k >= 1,
                                len_a >= u64::MAX,
                                i < u64::MAX,
                        ;
                        assert((i as int) % len_a == i) by (nonlinear_arith)
                            requires
                                0 <= i < len_a,
                        ;
                        lemma_repeat_index(s, *k as nat, i as int);
                    }
                    a.get(i)
                } else if i / la < *k {
                    proof {
                        assert(i < *k * len_a) by (nonlinear_arith)
                            requires
                                i / la < *k,
                                la == len_a,
                                la >= 1,
                                i >= 0,
                        ;
                        lemma_repeat_index(s, *k as nat, i as int);
                    }
                    a.get(i % la)
                } else {
                    proof {
                        assert(i >= *k * len_a) by (nonlinear_arith)
                            requires
                                i / la >= *k,
                                la == len_a,
                                la >= 1,
                                i >= 0,
                        ;
                    }
                    None
                }
            },
        }
    }
}

/// What evaluating an expression gives: a bare count or a sequence.
pub enum Evaluated {
    Items(Seq<Seq<char>>),
    Count(u64),
}

/// An evaluated expression.
#[derive(Debug)]
pub enum DurationsOrInt {
    Durations(SeqNode),
    Int(u64),
}

impl View for DurationsOrInt {
    type V = Evaluated;

    open spec fn view(&self) -> Evaluated {
        match self {
            DurationsOrInt::Durations(n) => Evaluated::Items(items(*n)),
            DurationsOrInt::Int(k) => Evaluated::Count(*k),
        }
    }
}

/// A count used as a duration literal: its digits, which must read as a
/// single duration.
pub open spec fn count_items(n: u64) -> Result<Seq<Seq<char>>, Failure> {
    match reading_of(digits_text(n as nat)) {
        Ok(_) => Ok(seq![digits_text(n as nat)]),
        Err(e) => Err(e),
    }
}

/// The sequence of an evaluated expression, a count becoming its digits.
pub open spec fn as_items(v: Evaluated) -> Result<Seq<Seq<char>>, Failure> {
    match v {
        Evaluated::Items(s) => Ok(s),
        Evaluated::Count(n) => count_items(n),
    }
}

/// What an expression tree evaluates to.
pub open spec fn eval_spec(e: Tree) -> Result<Evaluated, Failure>
    decreases e,
{
    match e {
        Tree::Leaf(Lit::Count(n)) => Ok(Evaluated::Count(n)),
        Tree::Leaf(Lit::Text(s)) => Ok(Evaluated::Items(seq![s])),
        Tree::Node(op, l, r) => match eval_spec(*l) {
            Err(e) => Err(e),
            Ok(lv) => match eval_spec(*r) {
                Err(e) => Err(e),
                Ok(rv) => if op == Op::Add {
                    match as_items(lv) {
                        Err(e) => Err(e),
                        Ok(ls) => match as_items(rv) {
                            Err(e) => Err(e),
                            Ok(rs) => Ok(Evaluated::Items(ls + rs)),
                        },
                    }
                } else {
                    match (lv, rv) {
                        (Evaluated::Items(_), Evaluated::Items(_)) => Err(Failure::MulDurations),
                        (Evaluated::Items(d), Evaluated::Count(k)) => Ok(
                            Evaluated::Items(repeat_seq(d, k as nat)),
                        ),
                        (Evaluated::Count(k), Evaluated::Items(d)) => Ok(
                            Evaluated::Items(repeat_seq(d, k as nat)),
                        ),
                        (Evaluated::Count(a), Evaluated::Count(k)) => match count_items(a) {
                            Err(e) => Err(e),
                            Ok(d) => Ok(Evaluated::Items(repeat_seq(d, k as nat))),
                        },
                    }
                },
            },
        },
    }
}

pub open spec fn evaluated_wf(v: DurationsOrInt) -> bool {
    match v {
        DurationsOrInt::Durations(n) => node_wf(n) && all_read(items(n)),
        DurationsOrInt::Int(_) => true,
    }
}

impl DurationsOrInt {
    /// Wraps a sequence.
    pub fn durations(n: SeqNode) -> (r: DurationsOrInt)
        ensures
            r == DurationsOrInt::Durations(n),
    {
        DurationsOrInt::Durations(n)
    }

    /// The value as a sequence; a count becomes the one literal of its digits.
    pub fn into_durations(self) -> (r: Result<SeqNode, Error>)
        requires
            evaluated_wf(self),
        ensures
            match r {
                Ok(n) => as_items(self@) == Ok::<Seq<Seq<char>>, Failure>(items(n)) && node_wf(n)
                    && all_read(items(n)),
                Err(e) => as_items(self@) == Err::<Seq<Seq<char>>, Failure>(e@),
            },
    {
        match self {
            DurationsOrInt::Durations(n) => Ok(n),
            DurationsOrInt::Int(k) => count_node(k),
        }
    }

    /// Both values as sequences, one after the other.
    pub fn join(self, other: DurationsOrInt) -> (r: Result<DurationsOrInt, Error>)
        requires
            evaluated_wf(self),
            evaluated_wf(other),
        ensures
            match r {
                Ok(v) => evaluated_wf(v) && (match (as_items(self@), as_items(other@)) {
                    (Ok(a), Ok(b)) => v@ == Evaluated::Items(a + b),
                    _ => false,
                }),
                Err(e) => match as_items(self@) {
                    Err(f) => f == e@,
                    Ok(_) => as_items(other@) == Err::<Seq<Seq<char>>, Failure>(e@),
                },
            },
    {
        let a = match self.into_durations() {
            Ok(a) => a,
            Err(e) => {
                return Err(e);
            },
        };
        let b = match other.into_durations() {
            Ok(b) => b,
            Err(e) => {
                return Err(e);
            },
        };
        let r = SeqNode::concat(a, b);
        assert(items(r) == items(a) + items(b));
        assert(all_read(items(r))) by {
            assert forall|i: int| 0 <= i < items(r).len() implies reading_of(#[trigger] items(r)[i]) is Ok by {
                if i < items(a).len() {
                    assert(items(r)[i] == items(a)[i]);
                } else {
                    assert(items(r)[i] == items(b)[i - items(a).len()]);
                }
            }
        }
        Ok(DurationsOrInt::Durations(r))
    }
}

/// The one-literal sequence of a count's digits, if they read as a duration.
fn count_node(k: u64) -> (r: Result<SeqNode, Error>)
    ensures
        match r {
            Ok(n) => count_items(k) == Ok::<Seq<Seq<char>>, Failure>(items(n)) && node_wf(n)
                && all_read(items(n)),
            Err(e) => count_items(k) == Err::<Seq<Seq<char>>, Failure>(e@),
        },
{
    let text = string_of(&digits_of(k));
    match read_single(text.as_str()) {
        Ok(_) => {
            let n = SeqNode::Lit(text);
            assert(items(n) == seq![digits_text(k as nat)]);
            Ok(n)
        },
        Err(e) => Err(e),
    }
}

/// Evaluates an expression tree to a count or a lazy sequence.
pub fn eval(e: SExpr) -> (r: Result<DurationsOrInt, Error>)
    requires
        atoms_ok(e),
        ops_ok(e),
    ensures
        match r {
            Ok(v) => eval_spec(tree_of(e)) == Ok::<Evaluated, Failure>(v@) && evaluated_wf(v),
            Err(err) => eval_spec(tree_of(e)) == Err::<Evaluated, Failure>(err@),
        },
    decreases e,
{
    match e {
        SExpr::Atom(Value::Int(n)) => Ok(DurationsOrInt::Int(n)),
        SExpr::Atom(Value::Duration(s)) => {
            let n = SeqNode::Lit(s);
            assert(all_read(items(n)));
            Ok(DurationsOrInt::Durations(n))
        },
        SExpr::Cons(op, l, r) => {
            let lv = match eval(*l) {
                Ok(v) => v,
                Err(err) => {
                    return Err(err);
                },
            };
            let rv = match eval(*r) {
                Ok(v) => v,
                Err(err) => {
                    return Err(err);
                },
            };
            match op {
                Op::Add => lv.join(rv),
                _ => match (lv, rv) {
                    (DurationsOrInt::Durations(_), DurationsOrInt::Durations(_)) => Err(
                        Error::MulDurations,
                    ),
                    (DurationsOrInt::Durations(d), DurationsOrInt::Int(k)) => {
                        let n = SeqNode::repeat(d, k);
                        proof {
                            lemma_repeat_all_read(items(d), k as nat);
                        }
                        Ok(DurationsOrInt::Durations(n))
                    },
                    (DurationsOrInt::Int(k), DurationsOrInt::Durations(d)) => {
                        let n = SeqNode::repeat(d, k);
                        proof {
                            lemma_repeat_all_read(items(d), k as nat);
                        }
                        Ok(DurationsOrInt::Durations(n))
                    },
                    (DurationsOrInt::Int(a), DurationsOrInt::Int(k)) => {
                        let d = match count_node(a) {
                            Ok(d) => d,
                            Err(err) => {
                                return Err(err);
                            },
                        };
                        let n = SeqNode::repeat(d, k);
                        proof {
                            lemma_repeat_all_read(items(d), k as nat);
                        }
                        Ok(DurationsOrInt::Durations(n))
                    },
                },
            }
        },
    }
}

} // verus!

verus! {

/// The literals that a cursor can reach: positions are 64-bit, so at most
/// `u64::MAX` of them.
pub open spec fn reachable(s: Seq<Seq<char>>) -> Seq<Seq<char>> {
    if s.len() > u64::MAX {
        s.take(u64::MAX as int)
    } else {
        s
    }
}

/// The literals of a sequence that a cursor can reach.
pub open spec fn visible(n: SeqNode) -> Seq<Seq<char>> {
    reachable(items(n))
}

/// The duration literals that a multi-duration expression stands for.
pub open spec fn multi_spec(s: Seq<char>) -> Result<Seq<Seq<char>>, Failure> {
    match parse_spec(s) {
        Err(e) => Err(e),
        Ok(t) => match eval_spec(t) {
            Err(e) => Err(e),
            Ok(v) => as_items(v),
        },
    }
}

/// A peekable cursor over a lazy sequence of duration literals.
#[derive(Debug)]
pub struct InputIter {
    node: SeqNode,
    pos: u64,
}

impl View for InputIter {
    type V = Seq<Seq<char>>;

    /// The literals still to come.
    closed spec fn view(&self) -> Seq<Seq<char>> {
        visible(self.node).skip(self.pos as int)
    }
}

impl InputIter {
    /// Whether the cursor lies within its sequence and every literal of it
    /// reads as a single duration.
    pub closed spec fn wf(&self) -> bool {
        node_wf(self.node) && self.pos <= visible(self.node).len() && all_read(items(self.node))
    }

    /// How many literals the cursor has handed out.
    pub closed spec fn taken(&self) -> nat {
        self.pos as nat
    }

    pub proof fn lemma_taken_bound(&self)
        ensures
            self.taken() <= u64::MAX,
    {
    }

    /// A cursor over nothing.
    pub fn empty() -> (r: InputIter)
        ensures
            r.wf(),
            r@.len() == 0,
            r.taken() == 0,
    {
        let r = InputIter { node: SeqNode::Nothing, pos: 0 };
        assert(r@.len() == 0);
        r
    }

    /// A cursor at the start of a sequence whose literals all read.
    pub fn new(node: SeqNode) -> (r: InputIter)
        requires
            node_wf(node),
            all_read(items(node)),
        ensures
            r.wf(),
            r@ == visible(node),
            r.taken() == 0,
    {
        let r = InputIter { node, pos: 0 };
        assert(r@ == visible(node).skip(0));
        assert(visible(node).skip(0) =~= visible(node));
        r
    }

    /// Takes the next literal.
    pub fn next(&mut self) -> (r: Option<String>)
        requires
            old(self).wf(),
        ensures
            final(self).wf(),
            match r {
                Some(s) => old(self)@.len() > 0 && s@ == old(self)@[0] && final(self)@ == old(self)@.drop_first()
                    && final(self).taken() == old(self).taken() + 1,
                None => old(self)@.len() == 0 && *final(self) == *old(self),
            },
    {
        let ghost v = visible(self.node);
        if self.pos == u64::MAX {
            assert(self@.len() == 0);
            return None;
        }
        let r = self.node.get(self.pos);
        match r {
            Some(s) => {
                assert(self.pos < v.len());
                assert(v[self.pos as int] == items(self.node)[self.pos as int]);
                self.pos = self.pos + 1;
                assert(self@ =~= old(self)@.drop_first());
                Some(s)
            },
            None => {
                assert(self@.len() == 0);
                None
            },
        }
    }

    /// The next literal, left in place.
    pub fn peek(&self) -> (r: Option<String>)
        requires
            self.wf(),
        ensures
            match r {
                Some(s) => self@.len() > 0 && s@ == self@[0],
                None => self@.len() == 0,
            },
    {
        if self.pos == u64::MAX {
            assert(self@.len() == 0);
            return None;
        }
        let r = self.node.get(self.pos);
        match r {
            Some(s) => {
                assert(visible(self.node)[self.pos as int] == items(self.node)[self.pos as int]);
                Some(s)
            },
            None => None,
        }
    }

    /// Every literal still to come reads as a single duration.
    pub proof fn lemma_rest_reads(&self)
        requires
            self.wf(),
        ensures
            all_read(self@),
    {
        assert forall|i: int| 0 <= i < self@.len() implies reading_of(#[trigger] self@[i]) is Ok by {
            assert(self@[i] == items(self.node)[self.pos + i]);
        }
    }
}

/// Reads a multi-duration expression as a lazy sequence of duration literals.
///
/// `+` joins sequences, `*` repeats one a number of times, parentheses
/// group, a value or `)` next to `(` or a value multiplies, and a `*` with
/// nothing after it repeats without bound. A bare count used as a duration
/// stands for its digits, which read as minutes.
pub fn interpret_multi(input: &str) -> (r: Result<InputIter, Error>)
    ensures
        match r {
            Ok(it) => multi_spec(input@) matches Ok(s) && it@ == reachable(s) && it.wf() && it.taken()
                == 0,
            Err(e) => multi_spec(input@) == Err::<Seq<Seq<char>>, Failure>(e@),
        },
{
    let expr = match parse(input) {
        Ok(e) => e,
        Err(e) => {
            return Err(e);
        },
    };
    let value = match eval(expr) {
        Ok(v) => v,
        Err(e) => {
            return Err(e);
        },
    };
    match value.into_durations() {
        Ok(n) => Ok(InputIter::new(n)),
        Err(e) => Err(e),
    }
}

} // verus!
