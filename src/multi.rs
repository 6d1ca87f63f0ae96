use vstd::prelude::*;
use crate::error::{Error, Failure};
use crate::number::digits_of;
use crate::single::{read_single, reading_of};
use crate::text::{chars_of, is_space, string_of};

verus! {

/// An operator of a multi-duration expression.
#[derive(Clone, Copy, Debug, PartialEq, Eq, Structural)]
pub enum Op {
    Add,
    Mul,
    LParen,
    RParen,
}

/// An operand: a bare count, or the text of a duration literal.
#[derive(Clone, Debug, PartialEq, Eq)]
pub enum Value {
    Duration(String),
    Int(u64),
}

/// A token of a multi-duration expression.
#[derive(Clone, Debug, PartialEq, Eq)]
pub enum ExprToken {
    Value(Value),
    Op(Op),
    Eof,
}

/// An expression tree.
#[derive(Debug)]
pub enum SExpr {
    Atom(Value),
    Cons(Op, Box<SExpr>, Box<SExpr>),
}

/// An operand as plain values.
pub enum Lit {
    Text(Seq<char>),
    Count(u64),
}

/// A token as plain values.
pub enum TokView {
    Val(Lit),
    Op(Op),
    Eof,
}

/// An expression tree as plain values.
pub enum Tree {
    Leaf(Lit),
    Node(Op, Box<Tree>, Box<Tree>),
}

impl View for Value {
    type V = Lit;

    open spec fn view(&self) -> Lit {
        match self {
            Value::Duration(s) => Lit::Text(s@),
            Value::Int(n) => Lit::Count(*n),
        }
    }
}

impl View for ExprToken {
    type V = TokView;

    open spec fn view(&self) -> TokView {
        match self {
            ExprToken::Value(v) => TokView::Val(v@),
            ExprToken::Op(op) => TokView::Op(*op),
            ExprToken::Eof => TokView::Eof,
        }
    }
}

/// The plain tree of an expression.
pub open spec fn tree_of(e: SExpr) -> Tree
    decreases e,
{
    match e {
        SExpr::Atom(v) => Tree::Leaf(v@),
        SExpr::Cons(op, l, r) => Tree::Node(op, Box::new(tree_of(*l)), Box::new(tree_of(*r))),
    }
}

pub open spec fn views(ts: Seq<ExprToken>) -> Seq<TokView> {
    ts.map_values(|t: ExprToken| t@)
}

/// Whether a duration literal of a value reads as a single duration.
pub open spec fn value_ok(v: Value) -> bool {
    match v {
        Value::Duration(s) => reading_of(s@) is Ok,
        Value::Int(_) => true,
    }
}

pub open spec fn token_ok(t: ExprToken) -> bool {
    match t {
        ExprToken::Value(v) => value_ok(v),
        _ => true,
    }
}

/// Whether every duration literal in the tree reads as a single duration.
pub open spec fn atoms_ok(e: SExpr) -> bool
    decreases e,
{
    match e {
        SExpr::Atom(v) => value_ok(v),
        SExpr::Cons(_, l, r) => atoms_ok(*l) && atoms_ok(*r),
    }
}

/// Whether the tree holds only `+` and `*` nodes.
pub open spec fn ops_ok(e: SExpr) -> bool
    decreases e,
{
    match e {
        SExpr::Atom(_) => true,
        SExpr::Cons(op, l, r) => (op == Op::Add || op == Op::Mul) && ops_ok(*l) && ops_ok(*r),
    }
}

pub fn clone_value(v: &Value) -> (r: Value)
    ensures
        r == *v,
{
    match v {
        Value::Duration(s) => Value::Duration(s.clone()),
        Value::Int(n) => Value::Int(*n),
    }
}

fn clone_token(t: &ExprToken) -> (r: ExprToken)
    ensures
        r == *t,
{
    match t {
        ExprToken::Value(v) => ExprToken::Value(clone_value(v)),
        ExprToken::Op(o) => ExprToken::Op(*o),
        ExprToken::Eof => ExprToken::Eof,
    }
}

/// The whole number that a text of digits spells, if it fits in 64 bits.
pub open spec fn u64_of(s: Seq<char>) -> Option<u64>
    decreases s.len(),
{
    if s.len() == 0 {
        None
    } else if !('0' <= s.last() <= '9') {
        None
    } else {
        let d = s.last() as int - '0' as int;
        if s.len() == 1 {
            Some(d as u64)
        } else {
            match u64_of(s.drop_last()) {
                None => None,
                Some(p) => if p * 10 + d <= u64::MAX {
                    Some((p * 10 + d) as u64)
                } else {
                    None
                },
            }
        }
    }
}

/// Reads a trimmed piece of text between operators as a bare count or a
/// duration literal.
fn value_of(s: &Vec<char>) -> (r: Value)
    requires
        s@.len() > 0,
    ensures
        r@ == lit_of(s@),
{
    let mut acc: u64 = 0;
    let mut i: usize = 0;
    let mut ok = true;
    while i < s.len()
        invariant
            0 <= i <= s@.len(),
            s@.len() > 0,
            ok ==> (i == 0 || u64_of(s@.take(i as int)) == Some(acc)),
            !ok ==> u64_of(s@) is None,
        decreases s@.len() - i,
    {
        assert(s@.take(i as int + 1).drop_last() == s@.take(i as int));
        if ok {
            let c = s[i];
            if '0' <= c && c <= '9' {
                let d = (c as u32 - '0' as u32) as u64;
                if i == 0 {
                    acc = d;
                } else if acc <= (u64::MAX - d) / 10 {
                    acc = acc * 10 + d;
                } else {
                    ok = false;
                    proof {
                        lemma_u64_of_none(s@, i as int + 1);
                    }
                }
            } else {
                ok = false;
                proof {
                    lemma_u64_of_none(s@, i as int + 1);
                }
            }
        }
        i = i + 1;
    }
    assert(s@.take(s@.len() as int) == s@);
    if ok {
        Value::Int(acc)
    } else {
        Value::Duration(string_of(s))
    }
}

proof fn lemma_u64_of_none(s: Seq<char>, k: int)
    requires
        1 <= k <= s.len(),
        u64_of(s.take(k)) is None,
    ensures
        u64_of(s) is None,
    decreases s.len() - k,
{
    if k < s.len() {
        assert(s.take(k + 1).drop_last() == s.take(k));
        lemma_u64_of_none(s, k + 1);
    } else {
        assert(s.take(k) == s);
    }
}

fn op_token(c: char) -> (r: Option<ExprToken>)
    ensures
        match r {
            Some(t) => delim_of(c) == Some(t@),
            None => delim_of(c) is None,
        },
{
    if c == '+' {
        Some(ExprToken::Op(Op::Add))
    } else if c == '*' {
        Some(ExprToken::Op(Op::Mul))
    } else if c == '(' {
        Some(ExprToken::Op(Op::LParen))
    } else if c == ')' {
        Some(ExprToken::Op(Op::RParen))
    } else if c == '\0' {
        Some(ExprToken::Eof)
    } else {
        None
    }
}

/// The token text with white space taken off both ends.
fn trimmed(s: &Vec<char>) -> (r: Vec<char>)
    ensures
        r@ == trim(s@),
{
    let mut a: usize = 0;
    assert(s@.subrange(0, s@.len() as int) =~= s@);
    while a < s.len() && is_space(s[a])
        invariant
            a <= s@.len(),
            ltrim(s@) == ltrim(s@.subrange(a as int, s@.len() as int)),
        decreases s@.len() - a,
    {
        assert(s@.subrange(a as int, s@.len() as int).skip(1) =~= s@.subrange(a + 1, s@.len() as int));
        a = a + 1;
    }
    assert(s@.subrange(0, s@.len() as int) =~= s@);
    assert(ltrim(s@) == s@.subrange(a as int, s@.len() as int));
    let mut b: usize = s.len();
    while b > a && is_space(s[b - 1])
        invariant
            a <= b <= s@.len(),
            trim(s@) == rtrim(s@.subrange(a as int, b as int)),
        decreases b,
    {
        assert(s@.subrange(a as int, b as int).drop_last() =~= s@.subrange(a as int, b - 1));
        b = b - 1;
    }
    assert(trim(s@) == s@.subrange(a as int, b as int));
    let mut out: Vec<char> = Vec::new();
    let mut k: usize = a;
    while k < b
        invariant
            a <= k <= b <= s@.len(),
            out@ == s@.subrange(a as int, k as int),
        decreases b - k,
    {
        out.push(s[k]);
        k = k + 1;
        assert(out@ =~= s@.subrange(a as int, k as int));
    }
    out
}

/// The token of a delimiter character.
pub open spec fn delim_of(c: char) -> Option<TokView> {
    if c == '+' {
        Some(TokView::Op(Op::Add))
    } else if c == '*' {
        Some(TokView::Op(Op::Mul))
    } else if c == '(' {
        Some(TokView::Op(Op::LParen))
    } else if c == ')' {
        Some(TokView::Op(Op::RParen))
    } else if c == '\0' {
        Some(TokView::Eof)
    } else {
        None
    }
}

/// The text without the white space at its start.
pub open spec fn ltrim(s: Seq<char>) -> Seq<char>
    decreases s.len(),
{
    if s.len() > 0 && crate::text::white_space(s[0]) {
        ltrim(s.skip(1))
    } else {
        s
    }
}

/// The text without the white space at its end.
pub open spec fn rtrim(s: Seq<char>) -> Seq<char>
    decreases s.len(),
{
    if s.len() > 0 && crate::text::white_space(s.last()) {
        rtrim(s.drop_last())
    } else {
        s
    }
}

/// The text without white space at either end.
pub open spec fn trim(s: Seq<char>) -> Seq<char> {
    rtrim(ltrim(s))
}

/// The operand that a trimmed piece of text stands for.
pub open spec fn lit_of(p: Seq<char>) -> Lit {
    match u64_of(p) {
        Some(n) => Lit::Count(n),
        None => Lit::Text(p),
    }
}

/// `curr`, followed by what its neighbour `next` implies: a `*` between a
/// value or `)` and an adjacent `(` or value, and an unbounded count after
/// a `*` that neither a value nor `(` follows.
pub open spec fn implied(curr: TokView, next: TokView) -> Seq<TokView> {
    if (curr == TokView::Op(Op::RParen) && next is Val) || (curr is Val && next == TokView::Op(
        Op::LParen,
    )) {
        seq![curr, TokView::Op(Op::Mul)]
    } else if curr == TokView::Op(Op::Mul) && !(next == TokView::Op(Op::LParen) || next is Val) {
        seq![curr, TokView::Val(Lit::Count(u64::MAX))]
    } else {
        seq![curr]
    }
}

/// Emits the token before `next`, which is known once `next` is.
pub open spec fn emit(out: Seq<TokView>, prev: Option<TokView>, next: TokView) -> Seq<TokView> {
    match prev {
        Some(p) => out + implied(p, next),
        None => out,
    }
}

/// The tokens emitted so far, the token waiting for its neighbour, and the
/// text since the last delimiter.
pub struct TokState {
    pub out: Seq<TokView>,
    pub prev: Option<TokView>,
    pub body: Seq<char>,
}

pub open spec fn tok_step(st: TokState, c: char) -> TokState {
    match delim_of(c) {
        None => TokState { body: st.body.push(c), ..st },
        Some(d) => {
            let piece = trim(st.body);
            let (out1, prev1) = if piece.len() > 0 {
                let t = TokView::Val(lit_of(piece));
                (emit(st.out, st.prev, t), Some(t))
            } else {
                (st.out, st.prev)
            };
            TokState { out: emit(out1, prev1, d), prev: Some(d), body: Seq::empty() }
        },
    }
}

pub open spec fn tok_fold(cs: Seq<char>) -> TokState
    decreases cs.len(),
{
    if cs.len() == 0 {
        TokState { out: Seq::empty(), prev: None, body: Seq::empty() }
    } else {
        tok_step(tok_fold(cs.drop_last()), cs.last())
    }
}

/// The tokens of an expression: the text is split at `+`, `*`, `(`, `)`
/// and at its end, the pieces between are trimmed and the empty ones
/// dropped, and the implied `*` and unbounded counts are put in. The end
/// of the text itself is not among them.
pub open spec fn expr_tokens(s: Seq<char>) -> Seq<TokView> {
    tok_fold(s.push('\0')).out
}

/// Pushes `curr`, followed by the operand or operator that its neighbour
/// `next` implies: a `*` between a value or `)` and an adjacent `(` or
/// value, and an unbounded count after a `*` that nothing follows.
fn push_with_implied(out: &mut Vec<ExprToken>, curr: ExprToken, next: &ExprToken)
    ensures
        views(final(out)@) == views(old(out)@) + implied(curr@, next@),
{
    let ghost before = out@;
    let curr_rparen = match &curr {
        ExprToken::Op(Op::RParen) => true,
        _ => false,
    };
    let curr_mul = match &curr {
        ExprToken::Op(Op::Mul) => true,
        _ => false,
    };
    let curr_value = match &curr {
        ExprToken::Value(_) => true,
        _ => false,
    };
    let next_lparen = match next {
        ExprToken::Op(Op::LParen) => true,
        _ => false,
    };
    let next_value = match next {
        ExprToken::Value(_) => true,
        _ => false,
    };
    let ghost cv = curr@;
    out.push(curr);
    if (curr_rparen && next_value) || (curr_value && next_lparen) {
        out.push(ExprToken::Op(Op::Mul));
    } else if curr_mul && !(next_lparen || next_value) {
        out.push(ExprToken::Value(Value::Int(u64::MAX)));
    }
    assert(views(out@) =~= views(before) + implied(cv, next@));
}

/// Splits an expression into tokens at `+`, `*`, `(` and `)`, trimming the
/// text between them, and inserts the implied `*` and unbounded counts.
/// The list ends before the end-of-input marker.
pub fn tokenize(input: &str) -> (r: Vec<ExprToken>)
    ensures
        views(r@) == expr_tokens(input@),
{
    let mut chars = chars_of(input);
    chars.push('\0');
    let mut out: Vec<ExprToken> = Vec::new();
    let mut prev: Option<ExprToken> = None;
    let mut body: Vec<char> = Vec::new();
    let mut i: usize = 0;
    assert(chars@.take(0) =~= Seq::<char>::empty());
    assert(views(out@) =~= Seq::<TokView>::empty());
    assert(body@ =~= Seq::<char>::empty());
    while i < chars.len()
        invariant
            chars@ == input@.push('\0'),
            i <= chars@.len(),
            tok_fold(chars@.take(i as int)) == (TokState {
                out: views(out@),
                prev: match prev {
                    Some(p) => Some(p@),
                    None => None::<TokView>,
                },
                body: body@,
            }),
        decreases chars@.len() - i,
    {
        let c = chars[i];
        assert(chars@.take(i as int + 1).drop_last() == chars@.take(i as int));
        match op_token(c) {
            None => {
                body.push(c);
            },
            Some(delim) => {
                let piece = trimmed(&body);
                if piece.len() > 0 {
                    let t = ExprToken::Value(value_of(&piece));
                    assert(t@ == TokView::Val(lit_of(piece@)));
                    match prev {
                        Some(p) => {
                            push_with_implied(&mut out, p, &t);
                        },
                        None => {},
                    }
                    prev = Some(t);
                }
                match prev {
                    Some(p) => {
                        push_with_implied(&mut out, p, &delim);
                    },
                    None => {},
                }
                prev = Some(delim);
                body = Vec::new();
            },
        }
        i = i + 1;
    }
    assert(chars@.take(chars@.len() as int) == chars@);
    out
}

fn peek_at(tokens: &Vec<ExprToken>, pos: usize) -> (r: ExprToken)
    ensures
        pos < tokens@.len() ==> r == tokens@[pos as int],
        pos >= tokens@.len() ==> r is Eof,
{
    if pos < tokens.len() {
        clone_token(&tokens[pos])
    } else {
        ExprToken::Eof
    }
}

/// The left and right binding powers of an infix operator.
pub fn infix_binding_power(op: Op) -> (r: Option<(u8, u8)>)
    ensures
        r == (match op {
            Op::Add => Some((1u8, 2u8)),
            Op::Mul => Some((3u8, 4u8)),
            _ => None::<(u8, u8)>,
        }),
{
    match op {
        Op::Add => Some((1, 2)),
        Op::Mul => Some((3, 4)),
        _ => None,
    }
}

/// The text of an operator.
pub open spec fn op_text(op: Op) -> Seq<char> {
    match op {
        Op::Add => seq!['+'],
        Op::Mul => seq!['*'],
        Op::LParen => seq!['('],
        Op::RParen => seq![')'],
    }
}

fn op_chars(op: Op) -> (r: Vec<char>)
    ensures
        r@ == op_text(op),
{
    match op {
        Op::Add => vec!['+'],
        Op::Mul => vec!['*'],
        Op::LParen => vec!['('],
        Op::RParen => vec![')'],
    }
}

/// The text of an operand.
pub open spec fn value_text(v: Value) -> Seq<char> {
    lit_text(v@)
}

fn value_chars(v: &Value) -> (r: Vec<char>)
    ensures
        r@ == value_text(*v),
{
    match v {
        Value::Duration(s) => chars_of(s.as_str()),
        Value::Int(n) => digits_of(*n),
    }
}

/// The token at position `i`; the end marker past the last one.
pub open spec fn tok_at(ts: Seq<TokView>, i: int) -> TokView {
    if 0 <= i < ts.len() {
        ts[i]
    } else {
        TokView::Eof
    }
}

/// The left and right binding powers of an infix operator.
pub open spec fn binding(op: Op) -> Option<(int, int)> {
    match op {
        Op::Add => Some((1, 2)),
        Op::Mul => Some((3, 4)),
        _ => None,
    }
}

pub open spec fn lit_text(v: Lit) -> Seq<char> {
    match v {
        Lit::Text(s) => s,
        Lit::Count(n) => crate::number::digits_text(n as nat),
    }
}

/// The expression that starts at `pos` and takes only operators binding at
/// least as tightly as `min_bp`, with the position after it: an operand or
/// a parenthesised expression, then what [`bp_rest`] adds.
pub open spec fn bp_expr(ts: Seq<TokView>, pos: int, min_bp: int) -> Result<(Tree, int), Failure>
    decreases ts.len() - pos, 1int,
{
    if pos < 0 || pos > ts.len() {
        Err(Failure::Unknown)
    } else {
        let cur = if pos < ts.len() {
            pos + 1
        } else {
            pos
        };
        match tok_at(ts, pos) {
            TokView::Op(Op::LParen) => match bp_expr(ts, cur, 0) {
                Err(e) => Err(e),
                Ok((inner, after)) => if tok_at(ts, after) != TokView::Op(Op::RParen) {
                    Err(Failure::UnbalancedParens)
                } else if pos < after < ts.len() {
                    bp_rest(ts, inner, after + 1, min_bp)
                } else {
                    Err(Failure::Unknown)
                },
            },
            TokView::Val(v) => bp_rest(ts, Tree::Leaf(v), cur, min_bp),
            TokView::Op(op) => Err(Failure::InvalidOp(op_text(op))),
            TokView::Eof => Err(Failure::Empty),
        }
    }
}

/// Extends `lhs`, which ends before `cur`, by each following operator that
/// binds at least as tightly as `min_bp` and the expression to its right;
/// a missing right-hand side is an error of the operator, and a value
/// where an operator belongs is an error of the value.
pub open spec fn bp_rest(ts: Seq<TokView>, lhs: Tree, cur: int, min_bp: int) -> Result<(Tree, int), Failure>
    decreases ts.len() - cur, 0int,
{
    if cur < 0 || cur > ts.len() {
        Err(Failure::Unknown)
    } else {
        match tok_at(ts, cur) {
            TokView::Eof => Ok((lhs, cur)),
            TokView::Val(v) => Err(Failure::InvalidValue(lit_text(v))),
            TokView::Op(op) => match binding(op) {
                None => Ok((lhs, cur)),
                Some((l_bp, r_bp)) => if l_bp < min_bp {
                    Ok((lhs, cur))
                } else {
                    match bp_expr(ts, cur + 1, r_bp) {
                        Err(Failure::Empty) => Err(Failure::InvalidOp(op_text(op))),
                        Err(e) => Err(e),
                        Ok((rhs, after)) => if cur + 1 < after <= ts.len() {
                            bp_rest(ts, Tree::Node(op, Box::new(lhs), Box::new(rhs)), after, min_bp)
                        } else {
                            Err(Failure::Unknown)
                        },
                    }
                },
            },
        }
    }
}

pub open spec fn res_tree(r: Result<(SExpr, usize), Error>) -> Result<(Tree, int), Failure> {
    match r {
        Ok((e, p)) => Ok((tree_of(e), p as int)),
        Err(e) => Err(e@),
    }
}

/// Parses the expression that starts at `pos`, taking operators that bind
/// at least as tightly as `min_bp`; returns the tree and the position after it.
fn expr_bp(tokens: &Vec<ExprToken>, pos: usize, min_bp: u8) -> (r: Result<(SExpr, usize), Error>)
    requires
        pos <= tokens@.len(),
        forall|i: int| 0 <= i < tokens@.len() ==> token_ok(#[trigger] tokens@[i]),
    ensures
        r matches Ok((e, p)) ==> pos < p <= tokens@.len() && atoms_ok(e) && ops_ok(e),
        res_tree(r) == bp_expr(views(tokens@), pos as int, min_bp as int),
    decreases tokens@.len() - pos,
{
    let ghost ts = views(tokens@);
    let first = peek_at(tokens, pos);
    let mut cur: usize = if pos < tokens.len() {
        pos + 1
    } else {
        pos
    };
    let mut lhs = match first {
        ExprToken::Op(Op::LParen) => {
            let (inner, after) = match expr_bp(tokens, cur, 0) {
                Ok(x) => x,
                Err(e) => {
                    return Err(e);
                },
            };
            let closing = peek_at(tokens, after);
            match closing {
                ExprToken::Op(Op::RParen) => {},
                _ => {
                    return Err(Error::UnbalancedParens);
                },
            }
            cur = after + 1;
            inner
        },
        ExprToken::Value(v) => SExpr::Atom(v),
        ExprToken::Op(op) => {
            return Err(Error::InvalidOp(string_of(&op_chars(op))));
        },
        ExprToken::Eof => {
            return Err(Error::Empty);
        },
    };
    loop
        invariant
            ts == views(tokens@),
            pos < cur <= tokens@.len(),
            forall|i: int| 0 <= i < tokens@.len() ==> token_ok(#[trigger] tokens@[i]),
            atoms_ok(lhs),
            ops_ok(lhs),
            bp_expr(ts, pos as int, min_bp as int) == bp_rest(ts, tree_of(lhs), cur as int, min_bp as int),
        ensures
            bp_rest(ts, tree_of(lhs), cur as int, min_bp as int) == Ok::<(Tree, int), Failure>((tree_of(lhs), cur as int)),
        decreases tokens@.len() - cur,
    {
        let t = peek_at(tokens, cur);
        let ghost tv = t@;
        assert(tok_at(ts, cur as int) == tv);
        let op = match t {
            ExprToken::Eof => {
                break;
            },
            ExprToken::Op(op) => op,
            ExprToken::Value(v) => {
                return Err(Error::InvalidValue(string_of(&value_chars(&v))));
            },
        };
        let n = tokens.len();
        assert(cur < n);
        match infix_binding_power(op) {
            Some((l_bp, r_bp)) => {
                if l_bp < min_bp {
                    break;
                }
                cur = cur + 1;
                let (rhs, after) = match expr_bp(tokens, cur, r_bp) {
                    Ok(x) => x,
                    Err(Error::Empty) => {
                        return Err(Error::InvalidOp(string_of(&op_chars(op))));
                    },
                    Err(e) => {
                        return Err(e);
                    },
                };
                lhs = SExpr::Cons(op, Box::new(lhs), Box::new(rhs));
                cur = after;
            },
            None => {
                break;
            },
        }
    }
    Ok((lhs, cur))
}

/// Reads every duration literal among `ts[..i]` as a single duration,
/// from the last one back; the error of the first that fails.
pub open spec fn validated_from(ts: Seq<TokView>, i: int) -> Result<(), Failure>
    decreases i,
{
    if i <= 0 || i > ts.len() {
        Ok(())
    } else {
        match ts[i - 1] {
            TokView::Val(Lit::Text(s)) => match reading_of(s) {
                Err(e) => Err(e),
                Ok(_) => validated_from(ts, i - 1),
            },
            _ => validated_from(ts, i - 1),
        }
    }
}

/// The tree of a multi-duration expression: every duration literal must
/// read as a single duration, and the whole token list must form one
/// expression.
pub open spec fn parse_spec(s: Seq<char>) -> Result<Tree, Failure> {
    let ts = expr_tokens(s);
    match validated_from(ts, ts.len() as int) {
        Err(e) => Err(e),
        Ok(_) => match bp_expr(ts, 0, 0) {
            Err(e) => Err(e),
            Ok((t, p)) => if tok_at(ts, p) is Eof {
                Ok(t)
            } else {
                Err(Failure::UnbalancedParens)
            },
        },
    }
}

/// Parses a multi-duration expression into a tree of `+` and `*`.
///
/// Every duration literal in it is first read as a single duration, and
/// the error of the last one that fails to read is returned.
pub fn parse(input: &str) -> (r: Result<SExpr, Error>)
    ensures
        match r {
            Ok(e) => parse_spec(input@) == Ok::<Tree, Failure>(tree_of(e)) && atoms_ok(e) && ops_ok(e),
            Err(err) => parse_spec(input@) == Err::<Tree, Failure>(err@),
        },
{
    let tokens = tokenize(input);
    let ghost ts = views(tokens@);
    let mut i: usize = tokens.len();
    while i > 0
        invariant
            ts == views(tokens@),
            ts == expr_tokens(input@),
            i <= tokens@.len(),
            forall|j: int| i <= j < tokens@.len() ==> token_ok(#[trigger] tokens@[j]),
            validated_from(ts, ts.len() as int) == validated_from(ts, i as int),
        decreases i,
    {
        assert(ts[i - 1] == tokens@[i - 1]@);
        i = i - 1;
        match &tokens[i] {
            ExprToken::Value(Value::Duration(s)) => {
                assert(ts[i as int] == TokView::Val(Lit::Text(s@)));
                match read_single(s.as_str()) {
                    Ok(_) => {},
                    Err(e) => {
                        assert(validated_from(ts, i + 1) == Err::<(), Failure>(e@));
                        return Err(e);
                    },
                }
            },
            _ => {},
        }
    }
    let (e, after) = match expr_bp(&tokens, 0, 0) {
        Ok(x) => x,
        Err(err) => {
            return Err(err);
        },
    };
    let t = peek_at(&tokens, after);
    let ghost tv = t@;
    assert(tok_at(ts, after as int) == tv);
    match t {
        ExprToken::Eof => Ok(e),
        _ => Err(Error::UnbalancedParens),
    }
}

/// The text of a tree in prefix notation, such as `(+ 1 (* 2 3))`.
pub open spec fn sexpr_text(e: SExpr) -> Seq<char>
    decreases e,
{
    match e {
        SExpr::Atom(v) => value_text(v),
        SExpr::Cons(op, l, r) => seq!['('] + op_text(op) + seq![' '] + sexpr_text(*l) + seq![' ']
            + sexpr_text(*r) + seq![')'],
    }
}

impl SExpr {
    fn push_text(&self, out: &mut Vec<char>)
        ensures
            final(out)@ == old(out)@ + sexpr_text(*self),
        decreases self,
    {
        match self {
            SExpr::Atom(v) => {
                let t = value_chars(v);
                let ghost before = out@;
                let mut i: usize = 0;
                while i < t.len()
                    invariant
                        i <= t@.len(),
                        out@ == before + t@.take(i as int),
                    decreases t@.len() - i,
                {
                    out.push(t[i]);
                    i = i + 1;
                    assert(out@ =~= before + t@.take(i as int));
                }
                assert(t@.take(t@.len() as int) == t@);
            },
            SExpr::Cons(op, l, r) => {
                let ghost before = out@;
                out.push('(');
                out.push(op_chars(*op)[0]);
                out.push(' ');
                l.push_text(out);
                out.push(' ');
                r.push_text(out);
                out.push(')');
                assert(out@ =~= before + sexpr_text(*self));
            },
        }
    }

    /// The tree in prefix notation, such as `(+ 1 (* 2 3))`.
    pub fn to_string(&self) -> (r: String)
        ensures
            r@ == sexpr_text(*self),
    {
        let mut out: Vec<char> = Vec::new();
        self.push_text(&mut out);
        assert(out@ =~= sexpr_text(*self));
        string_of(&out)
    }
}

} // verus!
