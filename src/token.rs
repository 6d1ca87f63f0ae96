use vstd::prelude::*;
use crate::error::{Error, Failure};
use crate::lexer::{Group, GroupKind, GroupView};
use crate::number::{decimal_of, Decimal};
use crate::text::chars_of;
use crate::units::{meridiem_named, unit_named, Meridiem, TimeUnit};

verus! {

/// A group read for its meaning.
#[derive(Clone, Copy, Debug, PartialEq, Eq, Structural)]
pub enum Token {
    Number(Decimal),
    Unit(TimeUnit),
    Meridiem(Meridiem),
    Separator,
}

/// The token that a group stands for.
pub open spec fn token_of(g: GroupView) -> Result<Token, Failure> {
    match g.kind {
        GroupKind::Number => match decimal_of(g.text) {
            Ok(d) => Ok(Token::Number(d)),
            Err(e) => Err(e),
        },
        GroupKind::Text => match unit_named(g.text) {
            Some(u) => Ok(Token::Unit(u)),
            None => match meridiem_named(g.text) {
                Some(m) => Ok(Token::Meridiem(m)),
                None => Err(Failure::InvalidUnit(g.text)),
            },
        },
        GroupKind::Separator => Ok(Token::Separator),
    }
}

/// The tokens of a list of groups, or the error of the first group that
/// stands for none.
pub open spec fn tokens_of(gs: Seq<GroupView>) -> Result<Seq<Token>, Failure>
    decreases gs.len(),
{
    if gs.len() == 0 {
        Ok(Seq::empty())
    } else {
        match tokens_of(gs.drop_last()) {
            Err(e) => Err(e),
            Ok(ts) => match token_of(gs.last()) {
                Err(e) => Err(e),
                Ok(t) => Ok(ts.push(t)),
            },
        }
    }
}

proof fn lemma_tokens_err_prefix(gs: Seq<GroupView>, k: int)
    requires
        0 <= k <= gs.len(),
        tokens_of(gs.take(k)) is Err,
    ensures
        tokens_of(gs) == tokens_of(gs.take(k)),
    decreases gs.len() - k,
{
    if k < gs.len() {
        assert(gs.take(k + 1).drop_last() == gs.take(k));
        lemma_tokens_err_prefix(gs, k + 1);
    } else {
        assert(gs.take(k) == gs);
    }
}

/// Reads one group.
pub fn parse_group(g: &Group) -> (r: Result<Token, Error>)
    ensures
        match r {
            Ok(t) => token_of(g@) == Ok::<Token, Failure>(t),
            Err(e) => token_of(g@) == Err::<Token, Failure>(e@),
        },
{
    let text = chars_of(g.string.as_str());
    match g.variant {
        GroupKind::Number => match Decimal::parse(&text) {
            Ok(d) => Ok(Token::Number(d)),
            Err(e) => Err(e),
        },
        GroupKind::Text => match TimeUnit::from_name(&text) {
            Some(u) => Ok(Token::Unit(u)),
            None => match Meridiem::from_name(&text) {
                Some(m) => Ok(Token::Meridiem(m)),
                None => Err(Error::InvalidUnit(g.string.clone())),
            },
        },
        GroupKind::Separator => Ok(Token::Separator),
    }
}

/// Reads every group, in order; fails with the error of the first group
/// that is neither a number, a unit, a half of the day nor a separator.
pub fn parse(groups: Vec<Group>) -> (r: Result<Vec<Token>, Error>)
    ensures
        match r {
            Ok(ts) => tokens_of(groups@.map_values(|g: Group| g@)) == Ok::<Seq<Token>, Failure>(
                ts@,
            ),
            Err(e) => tokens_of(groups@.map_values(|g: Group| g@)) == Err::<Seq<Token>, Failure>(
                e@,
            ),
        },
{
    let ghost gv = groups@.map_values(|g: Group| g@);
    let mut out: Vec<Token> = Vec::new();
    let mut i: usize = 0;
    while i < groups.len()
        invariant
            gv == groups@.map_values(|g: Group| g@),
            i <= groups@.len(),
            tokens_of(gv.take(i as int)) == Ok::<Seq<Token>, Failure>(out@),
        decreases groups@.len() - i,
    {
        assert(gv.take(i as int + 1).drop_last() == gv.take(i as int));
        assert(gv.take(i as int + 1).last() == groups@[i as int]@);
        match parse_group(&groups[i]) {
            Ok(t) => {
                out.push(t);
            },
            Err(e) => {
                proof {
                    lemma_tokens_err_prefix(gv, i as int + 1);
                }
                return Err(e);
            },
        }
        i = i + 1;
    }
    assert(gv.take(groups@.len() as int) == gv);
    Ok(out)
}

} // verus!
