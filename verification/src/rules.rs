//! Domain rules and their canonical text.
//!
//! A rule is one line of text: a kind (`full:`, `domain:`, `keyword:` or
//! `regexp:`) followed by a body. A rule written without a kind gets the kind
//! that its context implies. Canonical text always names the kind; names and
//! keywords are in lower case without trailing dots.
use crate::error::{DnsError, ErrorView};
use crate::text;
use crate::text::{
    chars_of, contains_space, decimal_of, find_char, has_prefix, joined, name_chars, string_of,
    trimmed, Text,
};
use vstd::prelude::*;

verus! {

/// How the body of a rule is compared with a name.
#[derive(Clone, Copy, Debug, PartialEq, Eq, Structural)]
pub enum DynamicDomainRuleKind {
    /// The name is the body.
    Full,
    /// The name is the body or lies below it.
    Domain,
    /// The name contains the body.
    Keyword,
    /// The body is a regular expression that matches the name.
    Regexp,
}

/// Result of a change to the rule list.
#[derive(Clone, Copy, Debug, PartialEq, Eq, Structural)]
pub struct DynamicDomainMutation {
    pub added: usize,
    pub removed: usize,
    pub total: usize,
}

/// A rule taken apart.
pub struct RuleExpression {
    pub kind: DynamicDomainRuleKind,
    pub body: String,
}

impl DynamicDomainRuleKind {
    /// The text that names the kind in front of a body.
    pub open spec fn prefix(self) -> Text {
        match self {
            DynamicDomainRuleKind::Full => seq!['f', 'u', 'l', 'l', ':'],
            DynamicDomainRuleKind::Domain => seq!['d', 'o', 'm', 'a', 'i', 'n', ':'],
            DynamicDomainRuleKind::Keyword => seq!['k', 'e', 'y', 'w', 'o', 'r', 'd', ':'],
            DynamicDomainRuleKind::Regexp => seq!['r', 'e', 'g', 'e', 'x', 'p', ':'],
        }
    }

    fn prefix_str(self) -> (res: &'static str)
        ensures
            res@ == self.prefix(),
    {
        proof {
            reveal_strlit("full:");
            reveal_strlit("domain:");
            reveal_strlit("keyword:");
            reveal_strlit("regexp:");
        }
        let res = match self {
            DynamicDomainRuleKind::Full => "full:",
            DynamicDomainRuleKind::Domain => "domain:",
            DynamicDomainRuleKind::Keyword => "keyword:",
            DynamicDomainRuleKind::Regexp => "regexp:",
        };
        assert(res@ =~= self.prefix());
        res
    }
}

/// The kind that a trimmed rule names, and the text behind it. A rule that
/// names no kind is all body, of the kind `default_kind`.
pub open spec fn split_kind(
    rule: Text,
    default_kind: DynamicDomainRuleKind,
) -> (DynamicDomainRuleKind, Text) {
    if text::starts_with(rule, DynamicDomainRuleKind::Full.prefix()) {
        (DynamicDomainRuleKind::Full, rule.skip(DynamicDomainRuleKind::Full.prefix().len() as int))
    } else if text::starts_with(rule, DynamicDomainRuleKind::Domain.prefix()) {
        (
            DynamicDomainRuleKind::Domain,
            rule.skip(DynamicDomainRuleKind::Domain.prefix().len() as int),
        )
    } else if text::starts_with(rule, DynamicDomainRuleKind::Keyword.prefix()) {
        (
            DynamicDomainRuleKind::Keyword,
            rule.skip(DynamicDomainRuleKind::Keyword.prefix().len() as int),
        )
    } else if text::starts_with(rule, DynamicDomainRuleKind::Regexp.prefix()) {
        (
            DynamicDomainRuleKind::Regexp,
            rule.skip(DynamicDomainRuleKind::Regexp.prefix().len() as int),
        )
    } else {
        (default_kind, rule)
    }
}

/// The body that a rule of the given kind stands for, if the text is one.
///
/// A regular expression is taken as it is written and must fit on one line. A
/// name or keyword loses its case and its trailing dots, and holds no white
/// space. No body is empty.
pub open spec fn normal_body(kind: DynamicDomainRuleKind, written: Text) -> Option<Text> {
    let body = text::trim(written);
    if kind is Regexp {
        if body.len() == 0 || body.contains('\n') {
            None
        } else {
            Some(body)
        }
    } else {
        let name = text::strip_dots(text::lowered(body));
        if name.len() == 0 || text::has_space(name) {
            None
        } else {
            Some(name)
        }
    }
}

/// The kind and body that a written rule stands for, if it is a rule.
pub open spec fn parsed(raw: Text, default_kind: DynamicDomainRuleKind) -> Option<
    (DynamicDomainRuleKind, Text),
> {
    let (kind, written) = split_kind(text::trim(raw), default_kind);
    match normal_body(kind, written) {
        Some(body) => Some((kind, body)),
        None => None,
    }
}

/// The canonical text of a written rule, if it is a rule.
pub open spec fn canonical(raw: Text, default_kind: DynamicDomainRuleKind) -> Option<Text> {
    match parsed(raw, default_kind) {
        Some((kind, body)) => Some(kind.prefix() + body),
        None => None,
    }
}

/// Whether a text is a canonical rule.
pub open spec fn is_canonical(rule: Text) -> bool {
    canonical(rule, DynamicDomainRuleKind::Domain) == Some(rule)
}

/// The canonical texts of written rules, in order, if all of them are rules.
pub open spec fn canonical_all(raw: Seq<Text>, default_kind: DynamicDomainRuleKind) -> Option<
    Seq<Text>,
> {
    if forall|i: int| 0 <= i < raw.len() ==> canonical(#[trigger] raw[i], default_kind) is Some {
        Some(raw.map_values(|r: Text| canonical(r, default_kind)->0))
    } else {
        None
    }
}

/// The position of the first written rule that is not a rule.
pub open spec fn first_invalid(raw: Seq<Text>, default_kind: DynamicDomainRuleKind) -> int
    decreases raw.len(),
{
    if raw.len() == 0 || canonical(raw[0], default_kind) is None {
        0
    } else {
        1 + first_invalid(raw.drop_first(), default_kind)
    }
}

/// The message about a text that is not a rule.
pub open spec fn invalid_rule_message(source: Text, raw: Text) -> Text {
    source + seq![':', ' ', 'i', 'n', 'v', 'a', 'l', 'i', 'd', ' ', 'r', 'u', 'l', 'e', ' ', '\'']
        + raw + seq!['\'']
}

/// The name of the `index`th entry of a list.
pub open spec fn entry_source(source: Text, index: nat) -> Text {
    source + seq!['['] + text::decimal(index) + seq![']']
}

/// Says that a text is not a rule.
pub fn invalid_rule(source: &str, raw: &str) -> (res: String)
    ensures
        res@ == invalid_rule_message(source@, raw@),
{
    proof {
        reveal_strlit(": invalid rule '");
        reveal_strlit("'");
    }
    let mut res = source.to_owned();
    res.append(": invalid rule '");
    res.append(raw);
    res.append("'");
    assert(res@ =~= invalid_rule_message(source@, raw@));
    res
}

/// Names the `index`th entry of a list.
pub fn entry_name(source: &str, index: usize) -> (res: String)
    ensures
        res@ == entry_source(source@, index as nat),
{
    proof {
        reveal_strlit("[");
        reveal_strlit("]");
    }
    let mut res = source.to_owned();
    res.append("[");
    res.append(decimal_of(index).as_str());
    res.append("]");
    assert(res@ =~= entry_source(source@, index as nat));
    res
}

/// The kind that the characters at `start..end` name, if any, with the
/// position of the body.
fn named_kind(
    chars: &Vec<char>,
    start: usize,
    end: usize,
    default_kind: DynamicDomainRuleKind,
) -> (res: (DynamicDomainRuleKind, usize))
    requires
        start <= end <= chars@.len(),
    ensures
        start <= res.1 <= end,
        split_kind(chars@.subrange(start as int, end as int), default_kind) == (
            res.0,
            chars@.subrange(res.1 as int, end as int),
        ),
{
    let ghost rule = chars@.subrange(start as int, end as int);
    let full = chars_of(DynamicDomainRuleKind::Full.prefix_str());
    let domain = chars_of(DynamicDomainRuleKind::Domain.prefix_str());
    let keyword = chars_of(DynamicDomainRuleKind::Keyword.prefix_str());
    let regexp = chars_of(DynamicDomainRuleKind::Regexp.prefix_str());
    let (kind, length): (DynamicDomainRuleKind, usize) = if has_prefix(chars, start, end, &full) {
        (DynamicDomainRuleKind::Full, full.len())
    } else if has_prefix(chars, start, end, &domain) {
        (DynamicDomainRuleKind::Domain, domain.len())
    } else if has_prefix(chars, start, end, &keyword) {
        (DynamicDomainRuleKind::Keyword, keyword.len())
    } else if has_prefix(chars, start, end, &regexp) {
        (DynamicDomainRuleKind::Regexp, regexp.len())
    } else {
        (default_kind, 0)
    };
    assert(rule.skip(length as int) =~= chars@.subrange(start + length, end as int));
    (kind, start + length)
}

/// Takes a written rule apart.
pub fn parse_rule(raw: &str, default_kind: DynamicDomainRuleKind) -> (res: Option<RuleExpression>)
    ensures
        match parsed(raw@, default_kind) {
            Some((kind, body)) => res matches Some(e) && e.kind == kind && e.body@ == body,
            None => res is None,
        },
{
    let chars = chars_of(raw);
    let (start, end) = trimmed(&chars);
    let (kind, body_start) = named_kind(&chars, start, end, default_kind);
    let written = string_of(&chars, body_start, end);
    let body = chars_of(written.as_str());
    let (from, to) = trimmed(&body);
    if let DynamicDomainRuleKind::Regexp = kind {
        let pattern = string_of(&body, from, to);
        let chars = chars_of(pattern.as_str());
        if from == to || find_char(&chars, 0, '\n') < chars.len() {
            return None;
        }
        Some(RuleExpression { kind, body: pattern })
    } else {
        let name = name_chars(&body, from, to);
        if name.len() == 0 || contains_space(&name) {
            return None;
        }
        let text = string_of(&name, 0, name.len());
        assert(text@ =~= name@);
        Some(RuleExpression { kind, body: text })
    }
}

/// Writes a rule in canonical text.
///
/// `source` says in the error message where the rule came from.
pub fn canonicalize_rule(
    raw: &str,
    default_kind: DynamicDomainRuleKind,
    source: &str,
) -> (res: Result<String, DnsError>)
    ensures
        match canonical(raw@, default_kind) {
            Some(text) => res matches Ok(rule) && rule@ == text,
            None => res matches Err(err) && err@ == ErrorView::Plugin(
                invalid_rule_message(source@, raw@),
            ),
        },
{
    match parse_rule(raw, default_kind) {
        Some(expression) => Ok(
            joined(expression.kind.prefix_str(), expression.body.as_str()),
        ),
        None => Err(DnsError::plugin(invalid_rule(source, raw))),
    }
}

/// Writes rules in canonical text, in order. The first text that is not a rule
/// is reported with its position.
pub fn canonicalize_rules(
    raw_rules: Vec<String>,
    default_kind: DynamicDomainRuleKind,
    source: &str,
) -> (res: Result<Vec<String>, DnsError>)
    ensures
        match canonical_all(text::texts(raw_rules@), default_kind) {
            Some(list) => res matches Ok(rules) && text::texts(rules@) == list,
            None => res matches Err(err) && err@ == invalid_entry(
                text::texts(raw_rules@),
                default_kind,
                source@,
            ),
        },
{
    let ghost raw = text::texts(raw_rules@);
    let mut rules: Vec<String> = Vec::new();
    let mut i: usize = 0;
    while i < raw_rules.len()
        invariant
            i <= raw_rules@.len(),
            raw == text::texts(raw_rules@),
            rules@.len() == i,
            forall|k: int|
                0 <= k < i ==> canonical(#[trigger] raw[k], default_kind) == Some(rules@[k]@),
        decreases raw_rules@.len() - i,
    {
        let entry = entry_name(source, i);
        match canonicalize_rule(raw_rules[i].as_str(), default_kind, entry.as_str()) {
            Ok(rule) => rules.push(rule),
            Err(err) => {
                proof {
                    lemma_first_invalid(raw, default_kind, i as int);
                    assert(raw[i as int] == raw_rules@[i as int]@);
                }
                return Err(err);
            },
        }
        i += 1;
    }
    assert(text::texts(rules@) =~= raw.map_values(|r: Text| canonical(r, default_kind)->0));
    Ok(rules)
}

/// A body is not empty, fits on one line, has no white space at its ends, and
/// stands for itself.
pub proof fn lemma_body(kind: DynamicDomainRuleKind, written: Text)
    requires
        normal_body(kind, written) is Some,
    ensures
        normal_body(kind, written)->0.len() > 0,
        !text::space(normal_body(kind, written)->0[0]),
        !text::space(normal_body(kind, written)->0.last()),
        !normal_body(kind, written)->0.contains('\n'),
        normal_body(kind, normal_body(kind, written)->0) == normal_body(kind, written),
{
    let trimmed = text::trim(written);
    let body = normal_body(kind, written)->0;
    text::lemma_trim(written);
    if kind is Regexp {
        text::lemma_trim_neat(body);
    } else {
        let low = text::lowered(trimmed);
        text::lemma_strip_dots(low);
        assert(body == low.take(body.len() as int));
        assert forall|i: int| 0 <= i < body.len() implies !text::space(#[trigger] body[i])
            && text::lower(body[i]) == body[i] by {
            assert(body[i] == low[i]);
            assert(low[i] == text::lower(trimmed[i]));
        }
        assert(!text::space(body[0]));
        assert(!text::space(body[body.len() - 1]));
        if body.contains('\n') {
            let i = choose|i: int| 0 <= i < body.len() && body[i] == '\n';
            assert(!text::space(body[i]));
        }
        text::lemma_trim_neat(body);
        assert(text::lowered(body) =~= body);
        assert(text::strip_dots(body) == body);
    }
}

/// A kind followed by a body is a canonical rule, whatever the context implies.
pub proof fn lemma_canonical_text(
    kind: DynamicDomainRuleKind,
    body: Text,
    default_kind: DynamicDomainRuleKind,
)
    requires
        normal_body(kind, body) == Some(body),
    ensures
        parsed(kind.prefix() + body, default_kind) == Some((kind, body)),
        canonical(kind.prefix() + body, default_kind) == Some(kind.prefix() + body),
{
    lemma_body(kind, body);
    let rule = kind.prefix() + body;
    let n = kind.prefix().len() as int;
    assert(rule[0] == kind.prefix()[0]);
    assert(rule.last() == body.last());
    text::lemma_trim_neat(rule);
    assert(rule.take(n) =~= kind.prefix());
    assert(rule.skip(n) =~= body);
    assert forall|other: DynamicDomainRuleKind| other != kind implies !text::starts_with(
        rule,
        #[trigger] other.prefix(),
    ) by {
        if text::starts_with(rule, other.prefix()) {
            assert(rule.take(other.prefix().len() as int)[0] == rule[0]);
        }
    }
    assert(split_kind(rule, default_kind) == (kind, body));
}

/// Canonical text is stable: writing a canonical rule in canonical text again
/// changes nothing, whatever kind the context implies.
pub proof fn law_canonical_is_stable(
    raw: Text,
    default_kind: DynamicDomainRuleKind,
    other_kind: DynamicDomainRuleKind,
)
    requires
        canonical(raw, default_kind) is Some,
    ensures
        canonical(canonical(raw, default_kind)->0, other_kind) == canonical(raw, default_kind),
{
    let (kind, written) = split_kind(text::trim(raw), default_kind);
    lemma_body(kind, written);
    lemma_canonical_text(kind, normal_body(kind, written)->0, other_kind);
}

/// A canonical rule is one line of a rule file: not blank, not a comment,
/// without a line break.
pub proof fn law_canonical_is_one_line(raw: Text, default_kind: DynamicDomainRuleKind)
    requires
        canonical(raw, default_kind) is Some,
    ensures
        !canonical(raw, default_kind)->0.contains('\n'),
        text::trim(canonical(raw, default_kind)->0) == canonical(raw, default_kind)->0,
        canonical(raw, default_kind)->0.len() > 0,
        canonical(raw, default_kind)->0[0] != '#',
{
    let (kind, written) = split_kind(text::trim(raw), default_kind);
    lemma_body(kind, written);
    let body = normal_body(kind, written)->0;
    let rule = kind.prefix() + body;
    assert(rule[0] == kind.prefix()[0]);
    assert(rule.last() == body.last());
    text::lemma_trim_neat(rule);
    if rule.contains('\n') {
        let i = choose|i: int| 0 <= i < rule.len() && rule[i] == '\n';
        let n = kind.prefix().len();
        if i < n {
            assert(rule[i] == kind.prefix()[i]);
        } else {
            assert(body[i - n] == '\n');
        }
    }
}

/// The error about the first entry of a list that is not a rule.
pub open spec fn invalid_entry(
    raw: Seq<Text>,
    default_kind: DynamicDomainRuleKind,
    source: Text,
) -> ErrorView {
    let i = first_invalid(raw, default_kind);
    ErrorView::Plugin(invalid_rule_message(entry_source(source, i as nat), raw[i]))
}

/// `first_invalid` is the position in front of which everything is a rule.
pub proof fn lemma_first_invalid(raw: Seq<Text>, default_kind: DynamicDomainRuleKind, at: int)
    requires
        0 <= at < raw.len(),
        forall|k: int| 0 <= k < at ==> canonical(#[trigger] raw[k], default_kind) is Some,
        canonical(raw[at], default_kind) is None,
    ensures
        first_invalid(raw, default_kind) == at,
    decreases raw.len(),
{
    if at > 0 {
        assert(canonical(raw[0], default_kind) is Some);
        let rest = raw.drop_first();
        assert forall|k: int| 0 <= k < at - 1 implies canonical(
            #[trigger] rest[k],
            default_kind,
        ) is Some by {
            assert(rest[k] == raw[k + 1]);
        }
        lemma_first_invalid(rest, default_kind, at - 1);
    }
}

} // verus!
