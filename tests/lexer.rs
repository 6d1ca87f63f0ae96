use minti::lexer::{lex, Group, GroupKind};
use minti::{UnparsedToken, UnparsedTokenType};
use minti::lexer::build_unparsed_tokens;
use minti::UnparsedTokenType::{Number, Separator, Text};

fn g(variant: GroupKind, s: &str) -> Group {
    Group { variant, string: s.to_string() }
}

fn u(variant: UnparsedTokenType, s: &str) -> UnparsedToken {
    UnparsedToken { variant, string: s.to_string() }
}

#[test]
fn lexer_separate_time_unit() {
    assert_eq!(lex("1d"), Ok(vec![g(GroupKind::Number, "1"), g(GroupKind::Text, "d")]));
    assert_eq!(lex("1.3 h"), Ok(vec![g(GroupKind::Number, "1.3"), g(GroupKind::Text, "h")]));
    assert_eq!(lex("3M "), Ok(vec![g(GroupKind::Number, "3"), g(GroupKind::Text, "m")]));
    assert_eq!(lex("94 ms"), Ok(vec![g(GroupKind::Number, "94"), g(GroupKind::Text, "ms")]));
}

#[test]
fn lexer_separate_multiple_time_unit() {
    assert_eq!(
        lex("1d3h"),
        Ok(vec![
            g(GroupKind::Number, "1"),
            g(GroupKind::Text, "d"),
            g(GroupKind::Number, "3"),
            g(GroupKind::Text, "h"),
        ])
    );
    assert_eq!(
        lex("5h 92m 1ms"),
        Ok(vec![
            g(GroupKind::Number, "5"),
            g(GroupKind::Text, "h"),
            g(GroupKind::Number, "92"),
            g(GroupKind::Text, "m"),
            g(GroupKind::Number, "1"),
            g(GroupKind::Text, "ms"),
        ])
    );
}

#[test]
fn lexer_separate_separators() {
    assert_eq!(
        lex("3:4:7"),
        Ok(vec![
            g(GroupKind::Number, "3"),
            g(GroupKind::Separator, ":"),
            g(GroupKind::Number, "4"),
            g(GroupKind::Separator, ":"),
            g(GroupKind::Number, "7"),
        ])
    );
    assert_eq!(
        lex("1::2"),
        Ok(vec![
            g(GroupKind::Number, "1"),
            g(GroupKind::Separator, ":"),
            g(GroupKind::Separator, ":"),
            g(GroupKind::Number, "2"),
        ])
    );
}

#[test]
fn unparsed_tokens_separate_time_unit() {
    assert_eq!(build_unparsed_tokens("1d"), Ok(vec![u(Number, "1"), u(Text, "d")]));
    assert_eq!(build_unparsed_tokens("1.3 h"), Ok(vec![u(Number, "1.3"), u(Text, "h")]));
    assert_eq!(build_unparsed_tokens("3M "), Ok(vec![u(Number, "3"), u(Text, "m")]));
    assert_eq!(build_unparsed_tokens("94 ms"), Ok(vec![u(Number, "94"), u(Text, "ms")]));
}

#[test]
fn unparsed_tokens_separate_multiple_time_unit() {
    assert_eq!(
        build_unparsed_tokens("1d3h"),
        Ok(vec![u(Number, "1"), u(Text, "d"), u(Number, "3"), u(Text, "h")])
    );
    assert_eq!(
        build_unparsed_tokens("5h 92m 1ms"),
        Ok(vec![
            u(Number, "5"),
            u(Text, "h"),
            u(Number, "92"),
            u(Text, "m"),
            u(Number, "1"),
            u(Text, "ms"),
        ])
    );
}

#[test]
fn unparsed_tokens_separate_separators() {
    assert_eq!(
        build_unparsed_tokens("3:4:7"),
        Ok(vec![u(Number, "3"), u(Separator, ":"), u(Number, "4"), u(Separator, ":"), u(Number, "7")])
    );
    assert_eq!(
        build_unparsed_tokens("1::2"),
        Ok(vec![u(Number, "1"), u(Separator, ":"), u(Separator, ":"), u(Number, "2")])
    );
}

#[test]
fn lexer_rejects_other_characters() {
    assert_eq!(lex("3h,"), Err(minti::error::Error::InvalidCharacter(',')));
    assert_eq!(lex(""), Ok(vec![]));
}
