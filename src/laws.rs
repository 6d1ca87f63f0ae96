use vstd::prelude::*;
use crate::clock::{in_instants, until};
use crate::duration::MS_PER_DAY;
use crate::error::Failure;
use crate::lexer::{cleaned, groups_of, is_digit, lower, GroupKind, GroupView};
use crate::duration::MAX_SPAN_MS;
use crate::number::{lemma_pow10_mono, scaled_ms, count_digits, count_dots, decimal_of, digits_value, frac_len, number_text_ok, Decimal};
use crate::single::interpretation;
use crate::token::tokens_of;
use crate::units::unit_named;
use crate::single::{eval_spec, is_time_token, resolve_spec, Reading};
use crate::token::Token;
use crate::units::{rank, time_12h, unit_at, unit_ms, Meridiem};
use crate::duration::{in_span, Duration};
use crate::multi_timer::MultiTimer;
use crate::snapshot::{record_of, restored_from, RecordView};
use crate::timer::{add_duration_spec, pause_spec, Timer};

verus! {

/// Pausing twice leaves the timer, and the time counted at any moment,
/// as pausing once does.
pub proof fn pause_is_idempotent(t: Timer, first: int, second: int, now: int)
    requires
        t.wf(),
        in_instants(first),
        in_instants(second),
    ensures
        pause_spec(pause_spec(t, first), second) == pause_spec(t, first),
        pause_spec(pause_spec(t, first), second).elapsed_at(now) == pause_spec(t, first).elapsed_at(now),
{
}

/// Taking off at least the time left from a timer that has time left
/// leaves exactly nothing left, with the timer running so that overtime
/// is counted. The total loses exactly the time that was left, unless
/// folding the current pause into the time spent paused reaches the range
/// of spans.
pub proof fn subtracting_saturates_at_zero(t: Timer, x: int, now: int)
    requires
        t.wf(),
        in_instants(now),
        in_span(x),
        t.remaining_at(now) matches Some(rem) && 0 < rem <= x,
    ensures
        add_duration_spec(t, -x, now).remaining_at(now) == Some(0int),
        add_duration_spec(t, -x, now).is_started(),
        !add_duration_spec(t, -x, now).is_paused(),
        (t.last_pause_time matches Some(p) ==> in_span(t.acc_paused.ms + (now - p))) ==> add_duration_spec(
            t,
            -x,
            now,
        ).total == Some(Duration { ms: (t.total->Some_0.ms - t.remaining_at(now)->Some_0) as i64 }),
{
}

/// Without a half of the day, a time of day means whichever of its
/// before-noon and after-noon readings the clock shows first; the two are
/// never equally far away.
pub proof fn closest_occurrence(h: int, m: int, s: int, now_day: int)
    requires
        0 <= now_day < MS_PER_DAY,
        time_12h(h, m, s, Meridiem::Ante) is Some,
        time_12h(h, m, s, Meridiem::Post) is Some,
    ensures
        ({
            let a = time_12h(h, m, s, Meridiem::Ante)->Some_0;
            let p = time_12h(h, m, s, Meridiem::Post)->Some_0;
            let da = until(a.spec_ms(), now_day);
            let dp = until(p.spec_ms(), now_day);
            &&& da != dp
            &&& resolve_spec(Reading::Closest(a, p), now_day) == if da < dp {
                da
            } else {
                dp
            }
        }),
{
    let a = time_12h(h, m, s, Meridiem::Ante)->Some_0;
    let p = time_12h(h, m, s, Meridiem::Post)->Some_0;
    assert(p.spec_ms() == a.spec_ms() + 12 * 3_600_000);
}

/// In a list of numbers with units, a trailing number counts exactly as if
/// the unit one smaller than the last unit followed it.
pub proof fn trailing_number_takes_smaller_unit(ts: Seq<Token>, n: Decimal)
    requires
        ts.len() >= 1,
        forall|i: int| 0 <= i < ts.len() ==> !is_time_token(#[trigger] ts[i]),
        ts.last() is Unit,
        unit_at(rank(ts.last()->Unit_0) - 1) is Some,
    ensures
        eval_spec(ts.push(Token::Number(n))) == eval_spec(
            ts.push(Token::Number(n)).push(Token::Unit(unit_at(rank(ts.last()->Unit_0) - 1)->Some_0)),
        ),
{
    let smaller = unit_at(rank(ts.last()->Unit_0) - 1)->Some_0;
    let short = ts.push(Token::Number(n));
    let long = short.push(Token::Unit(smaller));
    assert(short.drop_last() == ts);
    assert(long.drop_last() == short);
    assert(short[short.len() - 2] == ts.last());
    assert forall|i: int| 0 <= i < short.len() implies !is_time_token(#[trigger] short[i]) by {
        if i < ts.len() {
            assert(short[i] == ts[i]);
        }
    }
    assert forall|i: int| 0 <= i < long.len() implies !is_time_token(#[trigger] long[i]) by {
        if i < short.len() {
            assert(long[i] == short[i]);
        }
    }
}

pub open spec fn all_digits(s: Seq<char>) -> bool {
    forall|i: int| 0 <= i < s.len() ==> is_digit(#[trigger] s[i])
}

/// Whether a text holds only digits and dots.
pub open spec fn number_chars(s: Seq<char>) -> bool {
    forall|i: int| 0 <= i < s.len() ==> is_digit(#[trigger] s[i]) || s[i] == '.'
}

/// Whether a text holds only ASCII letters, of either case.
pub open spec fn all_alpha(s: Seq<char>) -> bool {
    forall|i: int| 0 <= i < s.len() ==> crate::lexer::is_ascii_alpha(#[trigger] s[i])
}

proof fn lemma_cleaned_alpha(s: Seq<char>)
    requires
        all_alpha(s),
    ensures
        cleaned(s).len() == s.len(),
        all_lower(cleaned(s)),
    decreases s.len(),
{
    if s.len() > 0 {
        lemma_cleaned_alpha(s.drop_last());
        assert(crate::lexer::is_ascii_alpha(s[s.len() - 1]));
        let c = s.last();
        assert('a' <= lower(c) <= 'z');
        assert forall|i: int| 0 <= i < cleaned(s).len() implies 'a' <= #[trigger] cleaned(s)[i] <= 'z' by {
            if i < cleaned(s).len() - 1 {
                assert(cleaned(s)[i] == cleaned(s.drop_last())[i]);
            }
        }
    }
}

pub open spec fn all_lower(s: Seq<char>) -> bool {
    forall|i: int| 0 <= i < s.len() ==> 'a' <= #[trigger] s[i] <= 'z'
}

pub open spec fn all_spaces(s: Seq<char>) -> bool {
    forall|i: int| 0 <= i < s.len() ==> #[trigger] s[i] == ' '
}

proof fn lemma_cleaned_concat(a: Seq<char>, b: Seq<char>)
    ensures
        cleaned(a + b) == cleaned(a) + cleaned(b),
    decreases b.len(),
{
    if b.len() == 0 {
        assert(a + b == a);
        assert(cleaned(b) == b);
        assert(cleaned(a) + cleaned(b) == cleaned(a));
    } else {
        assert((a + b).drop_last() == a + b.drop_last());
        assert((a + b).last() == b.last());
        lemma_cleaned_concat(a, b.drop_last());
        if b.last() == ' ' {
        } else {
            assert(cleaned(a) + cleaned(b.drop_last()).push(lower(b.last())) == (cleaned(a)
                + cleaned(b.drop_last())).push(lower(b.last())));
        }
    }
}

proof fn lemma_cleaned_plain(s: Seq<char>)
    requires
        forall|i: int|
            0 <= i < s.len() ==> is_digit(#[trigger] s[i]) || s[i] == '.' || s[i] == ':' || 'a' <= s[i]
                <= 'z',
    ensures
        cleaned(s) == s,
    decreases s.len(),
{
    if s.len() > 0 {
        lemma_cleaned_plain(s.drop_last());
        assert(s.drop_last().push(s.last()) == s);
    }
}

proof fn lemma_cleaned_spaces(s: Seq<char>)
    requires
        all_spaces(s),
    ensures
        cleaned(s) == Seq::<char>::empty(),
    decreases s.len(),
{
    if s.len() > 0 {
        lemma_cleaned_spaces(s.drop_last());
    } else {
        assert(s == Seq::<char>::empty());
    }
}

proof fn lemma_groups_digits(s: Seq<char>)
    requires
        s.len() >= 1,
        number_chars(s),
    ensures
        groups_of(s) == Ok::<Seq<GroupView>, Failure>(seq![GroupView { kind: GroupKind::Number, text: s }]),
    decreases s.len(),
{
    assert(is_digit(s[s.len() - 1]) || s[s.len() - 1] == '.');
    let g = GroupView { kind: GroupKind::Number, text: s };
    if s.len() == 1 {
        assert(s.drop_last() == Seq::<char>::empty());
        assert(seq![s.last()] == s);
        assert(Seq::<GroupView>::empty().push(g) =~= seq![g]);
    } else {
        lemma_groups_digits(s.drop_last());
        assert(s.drop_last().push(s.last()) == s);
        let g0 = GroupView { kind: GroupKind::Number, text: s.drop_last() };
        assert(seq![g0].update(0, g) =~= seq![g]);
    }
}

proof fn lemma_groups_number_word(x: Seq<char>, y: Seq<char>)
    requires
        x.len() >= 1,
        y.len() >= 1,
        all_digits(x),
        all_lower(y),
    ensures
        groups_of(x + y) == Ok::<Seq<GroupView>, Failure>(
            seq![GroupView { kind: GroupKind::Number, text: x }, GroupView { kind: GroupKind::Text, text: y }],
        ),
    decreases y.len(),
{
    assert((x + y).drop_last() == x + y.drop_last());
    assert((x + y).last() == y.last());
    assert('a' <= y[y.len() - 1] <= 'z');
    let gx = GroupView { kind: GroupKind::Number, text: x };
    let gy = GroupView { kind: GroupKind::Text, text: y };
    if y.len() == 1 {
        assert(x + y.drop_last() == x);
        lemma_groups_digits(x);
        assert(seq![y.last()] == y);
        assert(seq![gx].push(gy) =~= seq![gx, gy]);
    } else {
        lemma_groups_number_word(x, y.drop_last());
        assert(y.drop_last().push(y.last()) == y);
        let gy0 = GroupView { kind: GroupKind::Text, text: y.drop_last() };
        assert(seq![gx, gy0].update(1, gy) =~= seq![gx, gy]);
    }
}

proof fn lemma_digit_counts(s: Seq<char>)
    requires
        all_digits(s),
    ensures
        count_dots(s) == 0,
        count_digits(s) == s.len(),
        frac_len(s) == 0,
    decreases s.len(),
{
    if s.len() > 0 {
        lemma_digit_counts(s.drop_last());
    }
}

/// A text of digits alone is that many minutes, whatever the time of day.
pub proof fn bare_integer_is_minutes(s: Seq<char>, now_day: int)
    requires
        s.len() >= 1,
        all_digits(s),
        digits_value(s) <= u64::MAX,
        digits_value(s) * 60_000 <= crate::duration::MAX_SPAN_MS,
    ensures
        interpretation(s, now_day) == Ok::<int, Failure>(digits_value(s) as int * 60_000),
{
    lemma_cleaned_plain(s);
    lemma_groups_digits(s);
    lemma_digit_counts(s);
    let g = GroupView { kind: GroupKind::Number, text: s };
    assert(number_text_ok(s));
    assert(decimal_of(s) == Ok::<Decimal, Failure>(Decimal { mantissa: digits_value(s) as u64, scale: 0 }));
    assert(seq![g].drop_last() == Seq::<GroupView>::empty());
    assert(tokens_of(Seq::<GroupView>::empty()) == Ok::<Seq<Token>, Failure>(Seq::<Token>::empty()));
    assert(seq![g].last() == g);
    assert(crate::token::token_of(g) == Ok::<Token, Failure>(Token::Number(Decimal { mantissa: digits_value(s) as u64, scale: 0 })));
    assert(Seq::<Token>::empty().push(Token::Number(Decimal { mantissa: digits_value(s) as u64, scale: 0 })) =~= seq![Token::Number(Decimal { mantissa: digits_value(s) as u64, scale: 0 })]);
    let d = Decimal { mantissa: digits_value(s) as u64, scale: 0 };
    assert(crate::number::pow10(0) == 1);
    let prod = d.mantissa as int * 60_000;
    assert(prod / 1 == prod) by (nonlinear_arith);
    assert(d.mantissa as int == digits_value(s));
    assert(crate::number::scaled_ms(d, 60_000) == digits_value(s) * 60_000);
    assert(seq![Token::Number(d)].len() == 1);
    assert(tokens_of(seq![g]) == Ok::<Seq<Token>, Failure>(
        seq![Token::Number(Decimal { mantissa: digits_value(s) as u64, scale: 0 })],
    ));
}

/// A number followed by a unit is that many of the unit, rounded down to
/// the millisecond, whichever of the unit's names is written, in either
/// case, with or without spaces between them.
pub proof fn unit_synonyms_agree(
    n: Seq<char>,
    gap_a: Seq<char>,
    a: Seq<char>,
    gap_b: Seq<char>,
    b: Seq<char>,
    now_day: int,
)
    requires
        n.len() >= 1,
        number_chars(n),
        all_spaces(gap_a),
        all_spaces(gap_b),
        a.len() >= 1,
        b.len() >= 1,
        all_alpha(a),
        all_alpha(b),
        unit_named(cleaned(a)) is Some,
        unit_named(cleaned(a)) == unit_named(cleaned(b)),
    ensures
        interpretation(n + gap_a + a, now_day) == interpretation(n + gap_b + b, now_day),
        decimal_of(n) is Err ==> interpretation(n + gap_a + a, now_day) == Err::<int, Failure>(
            decimal_of(n)->Err_0,
        ),
        decimal_of(n) matches Ok(d) ==> interpretation(n + gap_a + a, now_day) == (if scaled_ms(
            d,
            unit_ms(unit_named(cleaned(a))->Some_0),
        ) <= MAX_SPAN_MS {
            Ok::<int, Failure>(scaled_ms(d, unit_ms(unit_named(cleaned(a))->Some_0)))
        } else {
            Err::<int, Failure>(Failure::Overflow)
        }),
{
    lemma_unit_text(n, gap_a, a, now_day);
    lemma_unit_text(n, gap_b, b, now_day);
}

/// What a number, spaces and a unit name read as.
proof fn lemma_unit_text(n: Seq<char>, gap: Seq<char>, a: Seq<char>, now_day: int)
    requires
        n.len() >= 1,
        number_chars(n),
        all_spaces(gap),
        a.len() >= 1,
        all_alpha(a),
        unit_named(cleaned(a)) is Some,
    ensures
        decimal_of(n) is Err ==> interpretation(n + gap + a, now_day) == Err::<int, Failure>(
            decimal_of(n)->Err_0,
        ),
        decimal_of(n) matches Ok(d) ==> interpretation(n + gap + a, now_day) == (if scaled_ms(
            d,
            unit_ms(unit_named(cleaned(a))->Some_0),
        ) <= MAX_SPAN_MS {
            Ok::<int, Failure>(scaled_ms(d, unit_ms(unit_named(cleaned(a))->Some_0)))
        } else {
            Err::<int, Failure>(Failure::Overflow)
        }),
{
    let la = cleaned(a);
    let u = unit_named(la)->Some_0;
    lemma_cleaned_concat(n + gap, a);
    lemma_cleaned_concat(n, gap);
    lemma_cleaned_spaces(gap);
    lemma_cleaned_plain(n);
    lemma_cleaned_alpha(a);
    assert(n + Seq::<char>::empty() == n);
    assert(cleaned(n + gap + a) == n + la);
    lemma_groups_digits(n);
    let g1 = GroupView { kind: GroupKind::Number, text: n };
    let g2 = GroupView { kind: GroupKind::Text, text: la };
    assert forall|i: int| 0 <= i < la.len() implies crate::lexer::kind_of(#[trigger] la[i]) == Some(
        GroupKind::Text,
    ) by {
        assert('a' <= la[i] <= 'z');
    }
    lemma_append_run(n, seq![g1], la, GroupKind::Text);
    assert(seq![g1].push(g2) == seq![g1, g2]);
    let gs = seq![g1, g2];
    assert(gs.drop_last() == seq![g1]);
    assert(seq![g1].drop_last() == Seq::<GroupView>::empty());
    assert(crate::token::token_of(g2) == Ok::<Token, Failure>(Token::Unit(u)));
    assert(seq![g1].last() == g1);
    assert(tokens_of(Seq::<GroupView>::empty()) == Ok::<Seq<Token>, Failure>(Seq::<Token>::empty()));
    match decimal_of(n) {
        Err(e) => {
            assert(tokens_of(seq![g1]) == Err::<Seq<Token>, Failure>(e));
            assert(tokens_of(gs) == Err::<Seq<Token>, Failure>(e));
        },
        Ok(d) => {
            assert(tokens_of(seq![g1]) == Ok::<Seq<Token>, Failure>(
                Seq::<Token>::empty().push(Token::Number(d)),
            ));
            let ts = seq![Token::Number(d), Token::Unit(u)];
            assert(Seq::<Token>::empty().push(Token::Number(d)).push(Token::Unit(u)) == ts);
            assert(tokens_of(gs) == Ok::<Seq<Token>, Failure>(ts));
            assert(ts.drop_last() == seq![Token::Number(d)]);
            assert(seq![Token::Number(d)].drop_last() == Seq::<Token>::empty());
            assert(!is_time_token(ts[0]) && !is_time_token(ts[1]));
            assert(!(exists|i: int| 0 <= i < ts.len() && is_time_token(#[trigger] ts[i])));
            lemma_pow10_mono(0, d.scale as nat);
            assert(scaled_ms(d, unit_ms(u)) >= 0) by (nonlinear_arith)
                requires
                    unit_ms(u) >= 1,
                    crate::number::pow10(d.scale as nat) >= 1,
                    scaled_ms(d, unit_ms(u)) == (d.mantissa as int * unit_ms(u)) / (
                    crate::number::pow10(d.scale as nat) as int),
            ;
            let v = scaled_ms(d, unit_ms(u));
            assert(crate::single::format_of(ts) == crate::single::InputFormat::Units);
            assert(crate::single::units_fold(Seq::<Token>::empty()) == Ok::<(int, Option<Decimal>), Failure>((0, None)));
            assert(crate::single::units_fold(seq![Token::Number(d)]) == Ok::<(int, Option<Decimal>), Failure>((0, Some(d))));
            if v <= MAX_SPAN_MS {
                assert(crate::single::units_fold(ts) == Ok::<(int, Option<Decimal>), Failure>((v, None)));
                assert(crate::single::units_value(ts) == Ok::<int, Failure>(v));
                assert(eval_spec(ts) == Ok::<Reading, Failure>(Reading::Span(crate::duration::Duration { ms: v as i64 })));
            } else {
                assert(crate::single::units_fold(ts) == Err::<(int, Option<Decimal>), Failure>(Failure::Overflow));
                assert(eval_spec(ts) == Err::<Reading, Failure>(Failure::Overflow));
            }
        },
    }
}

/// Appending a run of characters of another kind than the last group
/// adds one group.
proof fn lemma_append_run(x: Seq<char>, gs: Seq<GroupView>, y: Seq<char>, k: GroupKind)
    requires
        groups_of(x) == Ok::<Seq<GroupView>, Failure>(gs),
        gs.len() > 0,
        gs.last().kind != k,
        k != GroupKind::Separator,
        y.len() >= 1,
        forall|i: int| 0 <= i < y.len() ==> crate::lexer::kind_of(#[trigger] y[i]) == Some(k),
    ensures
        groups_of(x + y) == Ok::<Seq<GroupView>, Failure>(gs.push(GroupView { kind: k, text: y })),
    decreases y.len(),
{
    assert((x + y).drop_last() == x + y.drop_last());
    assert((x + y).last() == y.last());
    assert(crate::lexer::kind_of(y[y.len() - 1]) == Some(k));
    if y.len() == 1 {
        assert(x + y.drop_last() == x);
        assert(seq![y.last()] == y);
    } else {
        lemma_append_run(x, gs, y.drop_last(), k);
        assert(y.drop_last().push(y.last()) == y);
        let g0 = GroupView { kind: k, text: y.drop_last() };
        assert(gs.push(g0).update(gs.len() as int, GroupView { kind: k, text: y }) =~= gs.push(
            GroupView { kind: k, text: y },
        ));
    }
}

/// `3h4` means `3h 4m`: a number after a number with a unit counts in the
/// unit one smaller, exactly as if that unit's name followed it.
pub proof fn trailing_number_is_next_unit(
    n1: Seq<char>,
    a: Seq<char>,
    n2: Seq<char>,
    gap: Seq<char>,
    b: Seq<char>,
    now_day: int,
)
    requires
        n1.len() >= 1,
        n2.len() >= 1,
        a.len() >= 1,
        b.len() >= 1,
        all_digits(n1),
        all_digits(n2),
        all_lower(a),
        all_lower(b),
        all_spaces(gap),
        unit_named(a) is Some,
        unit_named(b) == unit_at(rank(unit_named(a)->Some_0) - 1),
        unit_named(b) is Some,
    ensures
        interpretation(n1 + a + n2, now_day) == interpretation(n1 + a + n2 + gap + b, now_day),
{
    let short = n1 + a + n2;
    let long = n1 + a + n2 + gap + b;
    lemma_cleaned_concat(n1 + a, n2);
    lemma_cleaned_concat(n1, a);
    lemma_cleaned_concat(short, gap);
    lemma_cleaned_concat(short + gap, b);
    lemma_cleaned_spaces(gap);
    lemma_cleaned_plain(n1);
    lemma_cleaned_plain(a);
    lemma_cleaned_plain(n2);
    lemma_cleaned_plain(b);
    assert(short + Seq::<char>::empty() == short);
    assert(cleaned(short) == short);
    assert(cleaned(long) == short + b);
    lemma_groups_number_word(n1, a);
    let g1 = GroupView { kind: GroupKind::Number, text: n1 };
    let g2 = GroupView { kind: GroupKind::Text, text: a };
    let g3 = GroupView { kind: GroupKind::Number, text: n2 };
    let g4 = GroupView { kind: GroupKind::Text, text: b };
    assert forall|i: int| 0 <= i < n2.len() implies crate::lexer::kind_of(#[trigger] n2[i]) == Some(
        GroupKind::Number,
    ) by {
        assert(is_digit(n2[i]));
    }
    assert forall|i: int| 0 <= i < b.len() implies crate::lexer::kind_of(#[trigger] b[i]) == Some(
        GroupKind::Text,
    ) by {
        assert('a' <= b[i] <= 'z');
    }
    lemma_append_run(n1 + a, seq![g1, g2], n2, GroupKind::Number);
    assert(seq![g1, g2].push(g3) == seq![g1, g2, g3]);
    lemma_append_run(short, seq![g1, g2, g3], b, GroupKind::Text);
    assert(seq![g1, g2, g3].push(g4) == seq![g1, g2, g3, g4]);
    let gs3 = seq![g1, g2, g3];
    let gs4 = seq![g1, g2, g3, g4];
    assert(gs4.drop_last() == gs3);
    assert(gs3.drop_last() == seq![g1, g2]);
    assert(seq![g1, g2].drop_last() == seq![g1]);
    assert(seq![g1].drop_last() == Seq::<GroupView>::empty());
    let u = unit_named(a)->Some_0;
    let su = unit_named(b)->Some_0;
    lemma_tokens_pointwise(gs3);
    lemma_tokens_pointwise(gs4);
    lemma_tokens_pointwise(seq![g1, g2]);
    match tokens_of(seq![g1, g2]) {
        Err(e) => {
            assert(tokens_of(gs3) == Err::<Seq<Token>, Failure>(e));
            assert(tokens_of(gs4) == Err::<Seq<Token>, Failure>(e));
        },
        Ok(ts) => {
            assert(crate::token::token_of(g2) == Ok::<Token, Failure>(Token::Unit(u)));
            assert(ts[1] == Token::Unit(u));
            assert(ts.last() == Token::Unit(u));
            assert forall|i: int| 0 <= i < ts.len() implies !is_time_token(#[trigger] ts[i]) by {
                if i == 0 {
                    assert(crate::token::token_of(g1) == Ok::<Token, Failure>(ts[0]));
                }
            }
            match crate::token::token_of(g3) {
                Err(e) => {
                    assert(tokens_of(gs3) == Err::<Seq<Token>, Failure>(e));
                    assert(tokens_of(gs4) == Err::<Seq<Token>, Failure>(e));
                },
                Ok(t3) => {
                    let n = t3->Number_0;
                    assert(tokens_of(gs3) == Ok::<Seq<Token>, Failure>(ts.push(Token::Number(n))));
                    assert(crate::token::token_of(g4) == Ok::<Token, Failure>(Token::Unit(su)));
                    assert(tokens_of(gs4) == Ok::<Seq<Token>, Failure>(
                        ts.push(Token::Number(n)).push(Token::Unit(su)),
                    ));
                    trailing_number_takes_smaller_unit(ts, n);
                },
            }
        },
    }
}

proof fn lemma_tokens_pointwise(gs: Seq<GroupView>)
    ensures
        tokens_of(gs) matches Ok(ts) ==> ts.len() == gs.len() && forall|i: int|
            0 <= i < gs.len() ==> crate::token::token_of(#[trigger] gs[i]) == Ok::<Token, Failure>(ts[i]),
    decreases gs.len(),
{
    if gs.len() > 0 {
        lemma_tokens_pointwise(gs.drop_last());
        if let Ok(ts) = tokens_of(gs) {
            assert forall|i: int| 0 <= i < gs.len() implies crate::token::token_of(#[trigger] gs[i])
                == Ok::<Token, Failure>(ts[i]) by {
                if i < gs.len() - 1 {
                    assert(gs[i] == gs.drop_last()[i]);
                }
            }
        }
    }
}

/// The time left at `now` that a stored record describes, once it has a
/// duration and a start.
pub open spec fn record_remaining(r: RecordView, now: int) -> int {
    let end = match r.last_pause {
        Some(p) => p as int,
        None => now,
    };
    r.duration->Some_0 - ((end - r.start->Some_0) - r.acc_pause_duration)
}

/// Storing a restored timer gives back the stored count of started
/// literals; where a countdown was stored, it gives back the whole record,
/// and the time left and the end time at any moment are those the record
/// describes.
pub proof fn restore_then_store(r: RecordView, m: MultiTimer, now: int)
    requires
        restored_from(r, m),
    ensures
        record_of(m).consumed == r.consumed,
        r.duration is Some && r.start is Some ==> record_of(m) == r,
        r.consumed == 0 ==> record_of(m) == r,
        r.duration is Some && r.start is Some ==> m.timer.remaining_at(now) == Some(
            record_remaining(r, now),
        ),
        r.duration is Some && r.start is Some ==> now + m.timer.remaining_at(now)->Some_0 == now
            + record_remaining(r, now),
{
}

/// Storing a restored list gives back, timer by timer and in order, the
/// stored count of started literals; every record of a timer that had not
/// started a literal, or that stored a countdown, comes back whole.
pub proof fn restore_list_then_store(rs: Seq<RecordView>, ms: Seq<MultiTimer>)
    requires
        rs.len() == ms.len(),
        forall|i: int| 0 <= i < rs.len() ==> restored_from(rs[i], #[trigger] ms[i]),
    ensures
        forall|i: int| 0 <= i < rs.len() ==> (#[trigger] record_of(ms[i])).consumed == rs[i].consumed,
        forall|i: int|
            0 <= i < rs.len() && (rs[i].consumed == 0 || (rs[i].duration is Some && rs[i].start is Some))
                ==> #[trigger] record_of(ms[i]) == rs[i],
{
    assert forall|i: int| 0 <= i < rs.len() implies (#[trigger] record_of(ms[i])).consumed == rs[i].consumed by {
        restore_then_store(rs[i], ms[i], 0);
    }
    assert forall|i: int|
        0 <= i < rs.len() && (rs[i].consumed == 0 || (rs[i].duration is Some && rs[i].start is Some))
            implies #[trigger] record_of(ms[i]) == rs[i] by {
        restore_then_store(rs[i], ms[i], 0);
    }
}

proof fn lemma_append_colon(x: Seq<char>, gs: Seq<GroupView>)
    requires
        groups_of(x) == Ok::<Seq<GroupView>, Failure>(gs),
    ensures
        groups_of(x.push(':')) == Ok::<Seq<GroupView>, Failure>(
            gs.push(GroupView { kind: GroupKind::Separator, text: seq![':'] }),
        ),
{
    assert(x.push(':').drop_last() == x);
}

proof fn lemma_tokens_all_ok(gs: Seq<GroupView>)
    requires
        forall|i: int| 0 <= i < gs.len() ==> crate::token::token_of(#[trigger] gs[i]) is Ok,
    ensures
        tokens_of(gs) is Ok,
    decreases gs.len(),
{
    if gs.len() > 0 {
        assert forall|i: int| 0 <= i < gs.drop_last().len() implies crate::token::token_of(
            #[trigger] gs.drop_last()[i],
        ) is Ok by {
            assert(gs.drop_last()[i] == gs[i]);
        }
        lemma_tokens_all_ok(gs.drop_last());
        assert(crate::token::token_of(gs[gs.len() - 1]) is Ok);
    }
}

proof fn lemma_whole_digits(t: Seq<char>)
    requires
        t.len() >= 1,
        all_digits(t),
        digits_value(t) <= u64::MAX,
    ensures
        decimal_of(t) == Ok::<Decimal, Failure>(Decimal { mantissa: digits_value(t) as u64, scale: 0 }),
        crate::number::is_whole(Decimal { mantissa: digits_value(t) as u64, scale: 0 }),
        crate::number::whole_of(Decimal { mantissa: digits_value(t) as u64, scale: 0 }) == digits_value(t),
{
    lemma_digit_counts(t);
    assert(number_text_ok(t));
    assert(crate::number::pow10(0) == 1);
    let m = digits_value(t) as int;
    assert(m % 1 == 0 && m / 1 == m) by (nonlinear_arith);
}

/// A time of day written `h:m:s`, without a half of the day, is the time
/// until the nearer of its before-noon and after-noon readings; the two
/// are never equally far, so the one chosen is at most twelve hours away.
pub proof fn closest_occurrence_of_text(
    ht: Seq<char>,
    mt: Seq<char>,
    st: Seq<char>,
    now_day: int,
)
    requires
        ht.len() >= 1,
        mt.len() >= 1,
        st.len() >= 1,
        all_digits(ht),
        all_digits(mt),
        all_digits(st),
        digits_value(ht) <= 12,
        digits_value(mt) <= 59,
        digits_value(st) <= 59,
        0 <= now_day < MS_PER_DAY,
    ensures
        ({
            let (h, m, s) = (digits_value(ht) as int, digits_value(mt) as int, digits_value(st) as int);
            let da = until(time_12h(h, m, s, Meridiem::Ante)->Some_0.spec_ms(), now_day);
            let dp = until(time_12h(h, m, s, Meridiem::Post)->Some_0.spec_ms(), now_day);
            &&& da != dp
            &&& interpretation(ht + seq![':'] + mt + seq![':'] + st, now_day) == Ok::<int, Failure>(
                if da < dp {
                    da
                } else {
                    dp
                },
            )
            &&& 0 < (if da < dp {
                da
            } else {
                dp
            }) <= 12 * 3_600_000
        }),
{
    let (h, m, s) = (digits_value(ht) as int, digits_value(mt) as int, digits_value(st) as int);
    let text = ht + seq![':'] + mt + seq![':'] + st;
    lemma_cleaned_plain(text);
    let gh = GroupView { kind: GroupKind::Number, text: ht };
    let gm = GroupView { kind: GroupKind::Number, text: mt };
    let gs_ = GroupView { kind: GroupKind::Number, text: st };
    let gc = GroupView { kind: GroupKind::Separator, text: seq![':'] };
    lemma_groups_digits(ht);
    lemma_append_colon(ht, seq![gh]);
    assert(ht + seq![':'] == ht.push(':'));
    assert(seq![gh].push(gc) == seq![gh, gc]);
    assert forall|i: int| 0 <= i < mt.len() implies crate::lexer::kind_of(#[trigger] mt[i]) == Some(
        GroupKind::Number,
    ) by {
        assert(is_digit(mt[i]));
    }
    assert forall|i: int| 0 <= i < st.len() implies crate::lexer::kind_of(#[trigger] st[i]) == Some(
        GroupKind::Number,
    ) by {
        assert(is_digit(st[i]));
    }
    lemma_append_run(ht + seq![':'], seq![gh, gc], mt, GroupKind::Number);
    assert(seq![gh, gc].push(gm) == seq![gh, gc, gm]);
    lemma_append_colon(ht + seq![':'] + mt, seq![gh, gc, gm]);
    assert(ht + seq![':'] + mt + seq![':'] == (ht + seq![':'] + mt).push(':'));
    assert(seq![gh, gc, gm].push(gc) == seq![gh, gc, gm, gc]);
    lemma_append_run(ht + seq![':'] + mt + seq![':'], seq![gh, gc, gm, gc], st, GroupKind::Number);
    let gs = seq![gh, gc, gm, gc, gs_];
    assert(seq![gh, gc, gm, gc].push(gs_) == gs);
    assert(groups_of(text) == Ok::<Seq<GroupView>, Failure>(gs));
    lemma_whole_digits(ht);
    lemma_whole_digits(mt);
    lemma_whole_digits(st);
    let dh = Decimal { mantissa: h as u64, scale: 0 };
    let dm = Decimal { mantissa: m as u64, scale: 0 };
    let ds = Decimal { mantissa: s as u64, scale: 0 };
    lemma_tokens_all_ok(gs);
    lemma_tokens_pointwise(gs);
    let ts = tokens_of(gs)->Ok_0;
    assert(ts[0] == Token::Number(dh));
    assert(ts[1] == Token::Separator);
    assert(ts[2] == Token::Number(dm));
    assert(ts[3] == Token::Separator);
    assert(ts[4] == Token::Number(ds));
    assert(ts =~= seq![Token::Number(dh), Token::Separator, Token::Number(dm), Token::Separator, Token::Number(ds)]);
    assert(is_time_token(ts[1]));
    assert(crate::single::format_of(ts) == crate::single::InputFormat::Time);
    let t0 = crate::single::TimeState { meridiem: None, fields: seq![0, 0, 0], cur: 0 };
    assert(ts.take(0) =~= Seq::<Token>::empty());
    assert(crate::single::time_fold(ts.take(0)) == Ok::<crate::single::TimeState, Failure>(t0));
    assert(ts.take(1).drop_last() == ts.take(0));
    assert(ts.take(2).drop_last() == ts.take(1));
    assert(ts.take(3).drop_last() == ts.take(2));
    assert(ts.take(4).drop_last() == ts.take(3));
    assert(ts.take(5).drop_last() == ts.take(4));
    assert(ts.take(5) == ts);
    let f1 = seq![0, 0, 0].update(0, h);
    let f2 = f1.update(1, m);
    let f3 = f2.update(2, s);
    assert(crate::single::time_fold(ts.take(1)) == Ok::<crate::single::TimeState, Failure>(
        crate::single::TimeState { meridiem: None, fields: f1, cur: 0 },
    ));
    assert(crate::single::time_fold(ts.take(2)) == Ok::<crate::single::TimeState, Failure>(
        crate::single::TimeState { meridiem: None, fields: f1, cur: 1 },
    ));
    assert(crate::single::time_fold(ts.take(3)) == Ok::<crate::single::TimeState, Failure>(
        crate::single::TimeState { meridiem: None, fields: f2, cur: 1 },
    ));
    assert(crate::single::time_fold(ts.take(4)) == Ok::<crate::single::TimeState, Failure>(
        crate::single::TimeState { meridiem: None, fields: f2, cur: 2 },
    ));
    assert(crate::single::time_fold(ts) == Ok::<crate::single::TimeState, Failure>(
        crate::single::TimeState { meridiem: None, fields: f3, cur: 2 },
    ));
    assert(f3[0] == h && f3[1] == m && f3[2] == s);
    let a = time_12h(h, m, s, Meridiem::Ante)->Some_0;
    let p = time_12h(h, m, s, Meridiem::Post)->Some_0;
    assert(eval_spec(ts) == Ok::<Reading, Failure>(Reading::Closest(a, p)));
    closest_occurrence(h, m, s, now_day);
}

/// A trailing number after any text that reads in the units format and
/// ends with a unit counts exactly as if the next smaller unit's name,
/// in either case and after any spaces, followed it.
pub proof fn trailing_number_after_units_text(
    s: Seq<char>,
    n: Seq<char>,
    gap: Seq<char>,
    b: Seq<char>,
    now_day: int,
)
    requires
        crate::lexer::lex_spec(s) is Ok,
        tokens_of(crate::lexer::lex_spec(s)->Ok_0) is Ok,
        ({
            let ts = tokens_of(crate::lexer::lex_spec(s)->Ok_0)->Ok_0;
            &&& ts.len() >= 1
            &&& ts.last() is Unit
            &&& forall|i: int| 0 <= i < ts.len() ==> !is_time_token(#[trigger] ts[i])
            &&& unit_at(rank(ts.last()->Unit_0) - 1) is Some
            &&& unit_named(cleaned(b)) == unit_at(rank(ts.last()->Unit_0) - 1)
        }),
        n.len() >= 1,
        number_chars(n),
        all_spaces(gap),
        b.len() >= 1,
        all_alpha(b),
    ensures
        interpretation(s + n, now_day) == interpretation(s + n + gap + b, now_day),
{
    let gs = crate::lexer::lex_spec(s)->Ok_0;
    let ts = tokens_of(gs)->Ok_0;
    let su = unit_named(cleaned(b))->Some_0;
    let lb = cleaned(b);
    lemma_tokens_pointwise(gs);
    assert(gs.len() == ts.len());
    assert(crate::token::token_of(gs[gs.len() - 1]) == Ok::<Token, Failure>(ts[ts.len() - 1]));
    assert(gs.last().kind == GroupKind::Text);
    lemma_cleaned_concat(s, n);
    lemma_cleaned_concat(s + n, gap);
    lemma_cleaned_concat(s + n + gap, b);
    lemma_cleaned_spaces(gap);
    lemma_cleaned_plain(n);
    lemma_cleaned_alpha(b);
    assert(cleaned(s) + n + Seq::<char>::empty() == cleaned(s) + n);
    assert(cleaned(s + n) == cleaned(s) + n);
    assert(cleaned(s + n + gap + b) == cleaned(s) + n + lb);
    assert forall|i: int| 0 <= i < n.len() implies crate::lexer::kind_of(#[trigger] n[i]) == Some(
        GroupKind::Number,
    ) by {
        assert(is_digit(n[i]) || n[i] == '.');
    }
    assert forall|i: int| 0 <= i < lb.len() implies crate::lexer::kind_of(#[trigger] lb[i]) == Some(
        GroupKind::Text,
    ) by {
        assert('a' <= lb[i] <= 'z');
    }
    let gn = GroupView { kind: GroupKind::Number, text: n };
    let gb = GroupView { kind: GroupKind::Text, text: lb };
    lemma_append_run(cleaned(s), gs, n, GroupKind::Number);
    lemma_append_run(cleaned(s) + n, gs.push(gn), lb, GroupKind::Text);
    let short = gs.push(gn);
    let long = short.push(gb);
    assert(short.drop_last() == gs);
    assert(long.drop_last() == short);
    assert(crate::token::token_of(gb) == Ok::<Token, Failure>(Token::Unit(su)));
    match decimal_of(n) {
        Err(e) => {
            assert(tokens_of(short) == Err::<Seq<Token>, Failure>(e));
            assert(tokens_of(long) == Err::<Seq<Token>, Failure>(e));
        },
        Ok(d) => {
            assert(tokens_of(short) == Ok::<Seq<Token>, Failure>(ts.push(Token::Number(d))));
            assert(tokens_of(long) == Ok::<Seq<Token>, Failure>(
                ts.push(Token::Number(d)).push(Token::Unit(su)),
            ));
            trailing_number_takes_smaller_unit(ts, d);
        },
    }
}

} // verus!
