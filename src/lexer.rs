use vstd::prelude::*;
use crate::error::{Error, Failure};
use crate::text::{chars_of, string_of};

verus! {

/// The kind of characters in a [`Group`].
#[derive(Clone, Copy, Debug, PartialEq, Eq, Structural, Hash)]
pub enum GroupKind {
    /// Digits and `.`.
    Number,
    /// ASCII letters.
    Text,
    /// A single `:`.
    Separator,
}

/// A run of characters of one kind.
///
/// Number and text groups are maximal runs; every `:` is a group of its own.
#[derive(Clone, Debug, PartialEq, Eq)]
pub struct Group {
    pub variant: GroupKind,
    pub string: String,
}

/// A group as a kind and its characters.
pub struct GroupView {
    pub kind: GroupKind,
    pub text: Seq<char>,
}

impl View for Group {
    type V = GroupView;

    open spec fn view(&self) -> GroupView {
        GroupView { kind: self.variant, text: self.string@ }
    }
}

pub open spec fn is_ascii_upper(c: char) -> bool {
    'A' <= c <= 'Z'
}

pub open spec fn is_ascii_alpha(c: char) -> bool {
    'a' <= c <= 'z' || 'A' <= c <= 'Z'
}

pub open spec fn is_digit(c: char) -> bool {
    '0' <= c <= '9'
}

/// The kind of group that a character belongs to, if any.
pub open spec fn kind_of(c: char) -> Option<GroupKind> {
    if is_ascii_alpha(c) {
        Some(GroupKind::Text)
    } else if is_digit(c) || c == '.' {
        Some(GroupKind::Number)
    } else if c == ':' {
        Some(GroupKind::Separator)
    } else {
        None
    }
}

/// A character in ASCII lower case.
pub open spec fn lower(c: char) -> char {
    if is_ascii_upper(c) {
        ((c as u32) + 32) as char
    } else {
        c
    }
}

/// The text in lower case, with its spaces taken out.
pub open spec fn cleaned(s: Seq<char>) -> Seq<char>
    decreases s.len(),
{
    if s.len() == 0 {
        s
    } else if s.last() == ' ' {
        cleaned(s.drop_last())
    } else {
        cleaned(s.drop_last()).push(lower(s.last()))
    }
}

/// The groups of an already cleaned text, or the first character that
/// belongs to none.
pub open spec fn groups_of(s: Seq<char>) -> Result<Seq<GroupView>, Failure>
    decreases s.len(),
{
    if s.len() == 0 {
        Ok(Seq::empty())
    } else {
        let c = s.last();
        match groups_of(s.drop_last()) {
            Err(e) => Err(e),
            Ok(gs) => match kind_of(c) {
                None => Err(Failure::InvalidCharacter(c)),
                Some(k) => if gs.len() > 0 && gs.last().kind == k && k != GroupKind::Separator {
                    Ok(gs.update(gs.len() - 1, GroupView { kind: k, text: gs.last().text.push(c) }))
                } else {
                    Ok(gs.push(GroupView { kind: k, text: seq![c] }))
                },
            },
        }
    }
}

/// The groups of a raw input text.
pub open spec fn lex_spec(s: Seq<char>) -> Result<Seq<GroupView>, Failure> {
    groups_of(cleaned(s))
}

/// An error in the groups of a prefix is the error of the whole text.
proof fn lemma_groups_err_prefix(s: Seq<char>, k: int)
    requires
        0 <= k <= s.len(),
        groups_of(s.take(k)) is Err,
    ensures
        groups_of(s) == groups_of(s.take(k)),
    decreases s.len() - k,
{
    if k < s.len() {
        assert(s.take(k + 1).drop_last() == s.take(k));
        lemma_groups_err_prefix(s, k + 1);
    } else {
        assert(s.take(k) == s);
    }
}

/// Splits a text into groups; the same as [`lex`].
pub fn build_unparsed_tokens(input: &str) -> (r: Result<Vec<Group>, Error>)
    ensures
        match r {
            Ok(gs) => lex_spec(input@) == Ok::<Seq<GroupView>, Failure>(gs@.map_values(|g: Group| g@)),
            Err(e) => lex_spec(input@) == Err::<Seq<GroupView>, Failure>(e@),
        },
{
    lex(input)
}

fn lower_char(c: char) -> (r: char)
    ensures
        r == lower(c),
{
    if 'A' <= c && c <= 'Z' {
        ((c as u8) + 32) as char
    } else {
        c
    }
}

fn kind_of_char(c: char) -> (r: Option<GroupKind>)
    ensures
        r == kind_of(c),
{
    if ('a' <= c && c <= 'z') || ('A' <= c && c <= 'Z') {
        Some(GroupKind::Text)
    } else if ('0' <= c && c <= '9') || c == '.' {
        Some(GroupKind::Number)
    } else if c == ':' {
        Some(GroupKind::Separator)
    } else {
        None
    }
}

/// Splits a text into groups, after folding it to lower case and taking
/// out its spaces.
pub fn lex(input: &str) -> (r: Result<Vec<Group>, Error>)
    ensures
        match r {
            Ok(gs) => lex_spec(input@) == Ok::<Seq<GroupView>, Failure>(gs@.map_values(|g: Group| g@)),
            Err(e) => lex_spec(input@) == Err::<Seq<GroupView>, Failure>(e@),
        },
{
    let raw = chars_of(input);
    let mut clean: Vec<char> = Vec::new();
    let mut i: usize = 0;
    while i < raw.len()
        invariant
            raw@ == input@,
            i <= raw@.len(),
            clean@ == cleaned(raw@.take(i as int)),
        decreases raw@.len() - i,
    {
        let c = raw[i];
        assert(raw@.take(i as int + 1).drop_last() == raw@.take(i as int));
        if c != ' ' {
            clean.push(lower_char(c));
        }
        i = i + 1;
    }
    assert(raw@.take(raw@.len() as int) == raw@);
    let mut kinds: Vec<GroupKind> = Vec::new();
    let mut texts: Vec<Vec<char>> = Vec::new();
    let mut j: usize = 0;
    while j < clean.len()
        invariant
            clean@ == cleaned(input@),
            j <= clean@.len(),
            kinds@.len() == texts@.len(),
            groups_of(clean@.take(j as int)) matches Ok(gs) && gs.len() == kinds@.len() && (
            forall|k: int|
                0 <= k < gs.len() ==> #[trigger] gs[k] == (GroupView {
                    kind: kinds@[k],
                    text: texts@[k]@,
                })),
        decreases clean@.len() - j,
    {
        let c = clean[j];
        assert(clean@.take(j as int + 1).drop_last() == clean@.take(j as int));
        match kind_of_char(c) {
            None => {
                proof {
                    assert(clean@.take(j as int + 1).last() == c);
                    assert(groups_of(clean@.take(j as int + 1)) == Err::<Seq<GroupView>, Failure>(Failure::InvalidCharacter(c)));
                    lemma_groups_err_prefix(clean@, j as int + 1);
                }
                return Err(Error::InvalidCharacter(c));
            },
            Some(k) => {
                let n = kinds.len();
                let ghost gs = groups_of(clean@.take(j as int))->Ok_0;
                if n > 0 && kinds[n - 1] == k && k != GroupKind::Separator {
                    let mut last = texts.pop().unwrap();
                    last.push(c);
                    texts.push(last);
                    proof {
                        let gs2 = groups_of(clean@.take(j as int + 1))->Ok_0;
                        assert(gs2 == gs.update(gs.len() - 1, GroupView { kind: k, text: gs.last().text.push(c) }));
                        assert forall|q: int| 0 <= q < gs2.len() implies #[trigger] gs2[q] == (GroupView {
                            kind: kinds@[q],
                            text: texts@[q]@,
                        }) by {
                            if q < gs.len() - 1 {
                                assert(gs[q] == gs2[q]);
                            }
                        }
                    }
                } else {
                    kinds.push(k);
                    texts.push(vec![c]);
                    proof {
                        let gs2 = groups_of(clean@.take(j as int + 1))->Ok_0;
                        assert(gs2 == gs.push(GroupView { kind: k, text: seq![c] }));
                        assert forall|q: int| 0 <= q < gs2.len() implies #[trigger] gs2[q] == (GroupView {
                            kind: kinds@[q],
                            text: texts@[q]@,
                        }) by {
                            if q < gs.len() {
                                assert(gs[q] == gs2[q]);
                            } else {
                                assert(texts@[q]@ == seq![c]);
                            }
                        }
                    }
                }
            },
        }
        j = j + 1;
    }
    assert(clean@.take(clean@.len() as int) == clean@);
    let mut out: Vec<Group> = Vec::new();
    let mut m: usize = 0;
    while m < kinds.len()
        invariant
            clean@ == cleaned(input@),
            groups_of(clean@) matches Ok(gs) && gs.len() == kinds@.len() && (
            forall|k: int|
                0 <= k < gs.len() ==> #[trigger] gs[k] == (GroupView {
                    kind: kinds@[k],
                    text: texts@[k]@,
                })),
            m <= kinds@.len(),
            kinds@.len() == texts@.len(),
            out@.len() == m,
            forall|k: int|
                0 <= k < m ==> (#[trigger] out@[k])@ == (GroupView {
                    kind: kinds@[k],
                    text: texts@[k]@,
                }),
        decreases kinds@.len() - m,
    {
        out.push(Group { variant: kinds[m], string: string_of(&texts[m]) });
        m = m + 1;
    }
    proof {
        let gs = groups_of(clean@)->Ok_0;
        assert(out@.map_values(|g: Group| g@) =~= gs);
    }
    Ok(out)
}

} // verus!
