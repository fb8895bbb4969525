//! What a written rule says, character by character.
//!
//! A rule is read here as a whole, as the pieces it is made of: white space, the
//! name of a kind, a body, and dots. Nothing is said of how they are found.
use crate::error::{DnsError, ErrorView};
use crate::name::Name;
use crate::rules;
use crate::rules::{canonicalize_rule, canonicalize_rules, parse_rule};
use crate::rules::{DynamicDomainRuleKind, RuleExpression};
use crate::text;
use crate::text::{decimal_of, is_space, to_lower, Text};
use vstd::prelude::*;

verus! {

/// The code points with the Unicode property `White_Space`.
pub open spec fn white(c: char) -> bool {
    let code = c as int;
    ||| code == 0x09 || code == 0x0a || code == 0x0b || code == 0x0c || code == 0x0d
    ||| code == 0x20 || code == 0x85 || code == 0xa0 || code == 0x1680
    ||| code == 0x2000 || code == 0x2001 || code == 0x2002 || code == 0x2003
    ||| code == 0x2004 || code == 0x2005 || code == 0x2006 || code == 0x2007
    ||| code == 0x2008 || code == 0x2009 || code == 0x200a
    ||| code == 0x2028 || code == 0x2029 || code == 0x202f || code == 0x205f
    ||| code == 0x3000
}

/// Nothing but white space.
pub open spec fn blank(s: Text) -> bool {
    forall|i: int| 0 <= i < s.len() ==> white(#[trigger] s[i])
}

/// Nothing but dots.
pub open spec fn dots_only(s: Text) -> bool {
    forall|i: int| 0 <= i < s.len() ==> #[trigger] s[i] == '.'
}

/// A letter from `A` to `Z` as the letter from `a` to `z` in its place of the
/// alphabet; any other character as it is.
pub open spec fn small(c: char) -> char {
    if 'A' <= c <= 'Z' {
        ('a' as int + (c as int - 'A' as int)) as char
    } else {
        c
    }
}

/// A text in small letters.
pub open spec fn small_letters(s: Text) -> Text {
    Seq::new(s.len(), |i: int| small(s[i]))
}

/// The name of a kind, as it stands in front of a body.
pub open spec fn named(kind: DynamicDomainRuleKind) -> Text {
    match kind {
        DynamicDomainRuleKind::Full => "full:"@,
        DynamicDomainRuleKind::Domain => "domain:"@,
        DynamicDomainRuleKind::Keyword => "keyword:"@,
        DynamicDomainRuleKind::Regexp => "regexp:"@,
    }
}

/// Whether a text begins with the name of a kind.
pub open spec fn names(s: Text, kind: DynamicDomainRuleKind) -> bool {
    s.len() >= named(kind).len() && s.take(named(kind).len() as int) == named(kind)
}

/// The pieces of a written rule.
pub struct Spelling {
    pub left: Text,
    /// Whether the kind is named. Else it is what the context implies.
    pub explicit: bool,
    pub kind: DynamicDomainRuleKind,
    /// White space between the kind and the body.
    pub gap: Text,
    pub body: Text,
    pub dots: Text,
    pub right: Text,
}

impl Spelling {
    /// The pieces put together.
    pub open spec fn text(self) -> Text {
        let head = if self.explicit {
            named(self.kind) + self.gap
        } else {
            Seq::empty()
        };
        self.left + (head + (self.body + self.dots)) + self.right
    }

    /// Whether the pieces are what they should be.
    pub open spec fn fits(self, default_kind: DynamicDomainRuleKind) -> bool {
        &&& blank(self.left) && blank(self.gap) && blank(self.right)
        &&& self.body.len() > 0
        &&& !self.explicit ==> {
            &&& self.kind == default_kind
            &&& forall|other: DynamicDomainRuleKind| !#[trigger] names(self.body + self.dots, other)
        }
        &&& if self.kind is Regexp {
            &&& self.dots.len() == 0
            &&& !self.body.contains('\n')
            &&& !white(self.body[0]) && !white(self.body.last())
        } else {
            &&& dots_only(self.dots)
            &&& self.body.last() != '.'
            &&& forall|i: int| 0 <= i < self.body.len() ==> !white(#[trigger] self.body[i])
        }
    }

    /// The body that the rule stands for.
    pub open spec fn meant(self) -> Text {
        if self.kind is Regexp {
            self.body
        } else {
            small_letters(self.body)
        }
    }
}

/// White space is what Unicode says it is.
pub proof fn law_white_space(c: char, res: bool)
    requires
        call_ensures(is_space, (c,), res),
    ensures
        res == white(c),
{
}

/// Upper-case letters of ASCII are lowered, and nothing else is.
pub proof fn law_lower_case(c: char, res: char)
    requires
        call_ensures(to_lower, (c,), res),
    ensures
        res == small(c),
        !('A' <= res <= 'Z'),
{
}

proof fn lemma_lowered(s: Text)
    ensures
        text::lowered(s) == small_letters(s),
{
    assert(text::lowered(s) =~= small_letters(s));
}

/// The names of the kinds, and what they begin with.
pub proof fn lemma_named(kind: DynamicDomainRuleKind)
    ensures
        kind.prefix() == named(kind),
        named(kind).len() > 0,
        !white(named(kind)[0]),
        !named(kind).contains('\n'),
        forall|other: DynamicDomainRuleKind|
            #[trigger] named(other).len() > 0 && (named(other)[0] == named(kind)[0] ==> other == kind),
{
    reveal_strlit("full:");
    reveal_strlit("domain:");
    reveal_strlit("keyword:");
    reveal_strlit("regexp:");
    assert(kind.prefix() =~= named(kind));
}

proof fn lemma_trim_start_of(left: Text, rest: Text)
    requires
        blank(left),
        rest.len() > 0,
        !white(rest[0]),
    ensures
        text::trim_start(left + rest) == rest,
    decreases left.len(),
{
    let all = left + rest;
    if left.len() == 0 {
        assert(all =~= rest);
    } else {
        assert(white(left[0]));
        assert(all[0] == left[0]);
        assert(all.drop_first() =~= left.drop_first() + rest);
        assert forall|i: int| 0 <= i < left.len() - 1 implies white(
            #[trigger] left.drop_first()[i],
        ) by {
            assert(white(left[i + 1]));
        }
        lemma_trim_start_of(left.drop_first(), rest);
    }
}

proof fn lemma_trim_end_of(rest: Text, right: Text)
    requires
        blank(right),
        rest.len() > 0,
        !white(rest.last()),
    ensures
        text::trim_end(rest + right) == rest,
    decreases right.len(),
{
    let all = rest + right;
    if right.len() == 0 {
        assert(all =~= rest);
    } else {
        assert(white(right[right.len() - 1]));
        assert(all.last() == right.last());
        assert(all.drop_last() =~= rest + right.drop_last());
        assert forall|i: int| 0 <= i < right.len() - 1 implies white(
            #[trigger] right.drop_last()[i],
        ) by {
            assert(white(right[i]));
        }
        lemma_trim_end_of(rest, right.drop_last());
    }
}

/// White space around a text that neither begins nor ends with any is trimmed.
pub proof fn lemma_trim_of(left: Text, middle: Text, right: Text)
    requires
        blank(left),
        blank(right),
        middle.len() > 0,
        !white(middle[0]),
        !white(middle.last()),
    ensures
        text::trim(left + middle + right) == middle,
{
    let rest = middle + right;
    assert(left + middle + right =~= left + rest);
    assert(rest[0] == middle[0]);
    lemma_trim_start_of(left, rest);
    lemma_trim_end_of(middle, right);
}

proof fn lemma_trim_start_parts(s: Text) -> (left: Text)
    ensures
        blank(left),
        s == left + text::trim_start(s),
        text::trim_start(s).len() > 0 ==> !white(text::trim_start(s)[0]),
    decreases s.len(),
{
    if s.len() > 0 && text::space(s[0]) {
        let left = lemma_trim_start_parts(s.drop_first());
        let longer = seq![s[0]] + left;
        assert forall|i: int| 0 <= i < longer.len() implies white(#[trigger] longer[i]) by {
            if i > 0 {
                assert(longer[i] == left[i - 1]);
            }
        }
        assert(s =~= seq![s[0]] + s.drop_first());
        assert(s =~= longer + text::trim_start(s));
        longer
    } else {
        assert(s =~= Seq::<char>::empty() + s);
        Seq::empty()
    }
}

proof fn lemma_trim_end_parts(s: Text) -> (right: Text)
    ensures
        blank(right),
        s == text::trim_end(s) + right,
        text::trim_end(s).len() > 0 ==> !white(text::trim_end(s).last()),
    decreases s.len(),
{
    if s.len() > 0 && text::space(s.last()) {
        let right = lemma_trim_end_parts(s.drop_last());
        let longer = right.push(s.last());
        assert forall|i: int| 0 <= i < longer.len() implies white(#[trigger] longer[i]) by {
            if i < right.len() {
                assert(longer[i] == right[i]);
            }
        }
        assert(s =~= s.drop_last().push(s.last()));
        assert(s =~= text::trim_end(s) + longer);
        longer
    } else {
        assert(s =~= s + Seq::<char>::empty());
        Seq::empty()
    }
}

/// A text is what is left of it when it is trimmed, between white space.
pub proof fn lemma_trim_parts(s: Text) -> (sides: (Text, Text))
    ensures
        blank(sides.0),
        blank(sides.1),
        s == sides.0 + text::trim(s) + sides.1,
        text::trim(s).len() > 0 ==> !white(text::trim(s)[0]) && !white(text::trim(s).last()),
{
    let left = lemma_trim_start_parts(s);
    let rest = text::trim_start(s);
    let right = lemma_trim_end_parts(rest);
    assert(s =~= left + text::trim(s) + right);
    if text::trim(s).len() > 0 {
        assert(text::trim(s)[0] == rest[0]);
    }
    (left, right)
}

/// Trimming takes white space off both ends: as much of it as there is, and
/// nothing else.
pub proof fn law_trimming(s: Text, left: Text, middle: Text, right: Text)
    requires
        s == left + middle + right,
        blank(left),
        blank(right),
        middle.len() > 0 ==> !white(middle[0]) && !white(middle.last()),
    ensures
        text::trim(s) == middle,
{
    if middle.len() > 0 {
        lemma_trim_of(left, middle, right);
    } else {
        let sides = lemma_trim_parts(s);
        if text::trim(s).len() > 0 {
            let at = sides.0.len() as int;
            assert(s[at] == text::trim(s)[0]);
            if at < left.len() {
                assert(white(left[at]));
            } else {
                assert(white(right[at - left.len()]));
            }
        }
        assert(text::trim(s) =~= middle);
    }
}

proof fn lemma_strip_dots_of(s: Text, dots: Text)
    requires
        dots_only(dots),
        s.len() > 0 ==> s.last() != '.',
    ensures
        text::strip_dots(s + dots) == s,
    decreases dots.len(),
{
    let all = s + dots;
    if dots.len() == 0 {
        assert(all =~= s);
    } else {
        assert(all.last() == dots[dots.len() - 1]);
        assert(all.drop_last() =~= s + dots.drop_last());
        assert forall|i: int| 0 <= i < dots.len() - 1 implies #[trigger] dots.drop_last()[i]
            == '.' by {
            assert(dots[i] == '.');
        }
        lemma_strip_dots_of(s, dots.drop_last());
    }
}

proof fn lemma_strip_dots_parts(s: Text)
    ensures
        text::strip_dots(s).len() <= s.len(),
        s.take(text::strip_dots(s).len() as int) == text::strip_dots(s),
        dots_only(s.skip(text::strip_dots(s).len() as int)),
        text::strip_dots(s).len() > 0 ==> text::strip_dots(s).last() != '.',
    decreases s.len(),
{
    text::lemma_strip_dots(s);
    let n = text::strip_dots(s).len() as int;
    if s.len() > 0 && s.last() == '.' {
        lemma_strip_dots_parts(s.drop_last());
        assert forall|i: int| 0 <= i < s.skip(n).len() implies #[trigger] s.skip(n)[i] == '.' by {
            if i < s.len() - 1 - n {
                assert(s.drop_last().skip(n)[i] == '.');
            }
        }
    }
}

/// Taking off trailing dots takes off all of them, and nothing else.
pub proof fn law_trailing_dots(s: Text, dots: Text)
    requires
        dots_only(dots),
        s.len() > 0 ==> s.last() != '.',
    ensures
        text::strip_dots(s + dots) == s,
{
    lemma_strip_dots_of(s, dots);
}

/// Small letters are no more white space than the letters were.
proof fn lemma_small_white(c: char)
    ensures
        white(small(c)) == white(c),
        (small(c) == '.') == (c == '.'),
        (small(c) == '\n') == (c == '\n'),
{
}

proof fn lemma_named_kind(kind: DynamicDomainRuleKind, rest: Text, default_kind: DynamicDomainRuleKind)
    ensures
        rules::split_kind(named(kind) + rest, default_kind) == (kind, rest),
{
    let rule = named(kind) + rest;
    lemma_named(kind);
    lemma_named(DynamicDomainRuleKind::Full);
    lemma_named(DynamicDomainRuleKind::Domain);
    lemma_named(DynamicDomainRuleKind::Keyword);
    lemma_named(DynamicDomainRuleKind::Regexp);
    assert(rule.take(named(kind).len() as int) =~= named(kind));
    assert(rule.skip(named(kind).len() as int) =~= rest);
    assert forall|other: DynamicDomainRuleKind| other != kind implies !text::starts_with(
        rule,
        #[trigger] named(other),
    ) by {
        if text::starts_with(rule, named(other)) {
            assert(rule.take(named(other).len() as int)[0] == rule[0]);
            assert(rule[0] == named(kind)[0]);
        }
    }
    assert(text::starts_with(rule, named(kind)));
}

/// What the pieces of a rule come to.
proof fn lemma_spelled(s: Spelling, default_kind: DynamicDomainRuleKind)
    requires
        s.fits(default_kind),
    ensures
        rules::parsed(s.text(), default_kind) == Some((s.kind, s.meant())),
{
    let tail = s.body + s.dots;
    let head = if s.explicit {
        named(s.kind) + s.gap
    } else {
        Seq::empty()
    };
    let rule = head + tail;
    lemma_named(s.kind);
    assert(!white(s.body[0]));
    assert(tail[0] == s.body[0]);
    assert(!white(tail.last())) by {
        if s.dots.len() > 0 {
            assert(tail.last() == s.dots[s.dots.len() - 1]);
        } else {
            assert(tail.last() == s.body[s.body.len() - 1]);
        }
    }
    assert(rule.last() == tail.last());
    if s.explicit {
        assert(rule[0] == named(s.kind)[0]);
    } else {
        assert(rule =~= tail);
    }
    lemma_trim_of(s.left, rule, s.right);
    assert(text::trim(s.text()) == rule);
    let written = if s.explicit {
        s.gap + tail
    } else {
        tail
    };
    if s.explicit {
        assert(rule =~= named(s.kind) + (s.gap + tail));
        lemma_named_kind(s.kind, s.gap + tail, default_kind);
        lemma_trim_of(s.gap, tail, Seq::empty());
        assert(s.gap + tail + Seq::<char>::empty() =~= s.gap + tail);
    } else {
        lemma_named(DynamicDomainRuleKind::Full);
        lemma_named(DynamicDomainRuleKind::Domain);
        lemma_named(DynamicDomainRuleKind::Keyword);
        lemma_named(DynamicDomainRuleKind::Regexp);
        assert(!names(tail, DynamicDomainRuleKind::Full));
        assert(!names(tail, DynamicDomainRuleKind::Domain));
        assert(!names(tail, DynamicDomainRuleKind::Keyword));
        assert(!names(tail, DynamicDomainRuleKind::Regexp));
        lemma_trim_of(Seq::empty(), tail, Seq::empty());
        assert(Seq::<char>::empty() + tail + Seq::<char>::empty() =~= tail);
    }
    assert(rules::split_kind(rule, default_kind) == (s.kind, written));
    assert(text::trim(written) == tail);
    if s.kind is Regexp {
        assert(tail =~= s.body);
    } else {
        lemma_lowered(tail);
        let low = small_letters(s.body);
        assert(small_letters(tail) =~= low + s.dots) by {
            assert forall|i: int| 0 <= i < tail.len() implies small(tail[i]) == #[trigger] (low
                + s.dots)[i] by {
                if i >= s.body.len() {
                    assert(s.dots[i - s.body.len()] == '.');
                }
            }
        }
        lemma_small_white(s.body.last());
        assert(low.last() == small(s.body.last()));
        lemma_strip_dots_of(low, s.dots);
        assert forall|i: int| 0 <= i < low.len() implies !text::space(#[trigger] low[i]) by {
            assert(!white(s.body[i]));
            lemma_small_white(s.body[i]);
        }
    }
}

/// A rule that names a kind begins with it; one that names none begins with the
/// name of no kind.
proof fn lemma_split(rule: Text, default_kind: DynamicDomainRuleKind) -> (explicit: bool)
    ensures
        explicit ==> rule == named(rules::split_kind(rule, default_kind).0) + rules::split_kind(
            rule,
            default_kind,
        ).1,
        !explicit ==> rules::split_kind(rule, default_kind) == (default_kind, rule),
        !explicit ==> forall|other: DynamicDomainRuleKind| !#[trigger] names(rule, other),
{
    let full = DynamicDomainRuleKind::Full;
    let domain = DynamicDomainRuleKind::Domain;
    let keyword = DynamicDomainRuleKind::Keyword;
    let regexp = DynamicDomainRuleKind::Regexp;
    lemma_named(full);
    lemma_named(domain);
    lemma_named(keyword);
    lemma_named(regexp);
    let explicit = names(rule, full) || names(rule, domain) || names(rule, keyword) || names(
        rule,
        regexp,
    );
    let (kind, written) = rules::split_kind(rule, default_kind);
    if explicit {
        assert(names(rule, kind));
        assert(rule =~= named(kind) + written);
    } else {
        assert forall|other: DynamicDomainRuleKind| !#[trigger] names(rule, other) by {
            match other {
                DynamicDomainRuleKind::Full => {},
                DynamicDomainRuleKind::Domain => {},
                DynamicDomainRuleKind::Keyword => {},
                DynamicDomainRuleKind::Regexp => {},
            }
        }
    }
    explicit
}

/// A body is what is left of a text when white space around it and dots at its
/// end are taken off.
proof fn lemma_body_parts(kind: DynamicDomainRuleKind, written: Text) -> (res: (Text, Text))
    requires
        rules::normal_body(kind, written) is Some,
    ensures
        text::trim(written) == res.0 + res.1,
        res.0.len() > 0,
        kind is Regexp ==> {
            &&& res.1.len() == 0
            &&& !res.0.contains('\n')
            &&& rules::normal_body(kind, written) == Some(res.0)
        },
        !(kind is Regexp) ==> {
            &&& dots_only(res.1)
            &&& res.0.last() != '.'
            &&& forall|i: int| 0 <= i < res.0.len() ==> !white(#[trigger] res.0[i])
            &&& rules::normal_body(kind, written) == Some(small_letters(res.0))
        },
{
    let tail = text::trim(written);
    if kind is Regexp {
        assert(tail =~= tail + Seq::<char>::empty());
        (tail, Seq::empty())
    } else {
        let low = text::lowered(tail);
        let n = text::strip_dots(low).len() as int;
        lemma_lowered(tail);
        lemma_strip_dots_parts(low);
        let body = tail.take(n);
        let dots = tail.skip(n);
        assert(tail =~= body + dots);
        assert(small_letters(body) =~= low.take(n));
        assert forall|i: int| 0 <= i < body.len() implies !white(#[trigger] body[i]) by {
            assert(low.take(n)[i] == small(body[i]));
            assert(!text::space(low.take(n)[i]));
            lemma_small_white(body[i]);
        }
        assert forall|i: int| 0 <= i < dots.len() implies #[trigger] dots[i] == '.' by {
            assert(low.skip(n)[i] == small(dots[i]));
            lemma_small_white(dots[i]);
        }
        lemma_small_white(body.last());
        assert(low.take(n).last() == small(body.last()));
        (body, dots)
    }
}

/// A rule has the pieces that it comes to.
proof fn lemma_spelling(raw: Text, default_kind: DynamicDomainRuleKind) -> (s: Spelling)
    requires
        rules::parsed(raw, default_kind) is Some,
    ensures
        s.text() == raw,
        s.fits(default_kind),
        rules::parsed(raw, default_kind) == Some((s.kind, s.meant())),
{
    let (left, right) = lemma_trim_parts(raw);
    let rule = text::trim(raw);
    let (kind, written) = rules::split_kind(rule, default_kind);
    let explicit = lemma_split(rule, default_kind);
    let (gap, end) = lemma_trim_parts(written);
    let tail = text::trim(written);
    let (body, dots) = lemma_body_parts(kind, written);
    if end.len() > 0 {
        assert(written.last() == end[end.len() - 1]);
        assert(rule.last() == written.last());
        assert(white(rule.last()));
    }
    assert(end =~= Seq::empty());
    assert(written =~= gap + tail);
    if !explicit {
        if gap.len() > 0 {
            assert(rule[0] == gap[0]);
            assert(white(gap[0]));
        }
        assert(gap =~= Seq::empty());
    }
    let s = Spelling { left, explicit, kind, gap, body, dots, right };
    let head = if explicit {
        named(kind) + gap
    } else {
        Seq::empty()
    };
    assert(head + (body + dots) =~= rule);
    assert(s.text() =~= raw);
    if kind is Regexp {
        assert(body =~= tail);
    }
    if !explicit {
        assert(body + dots =~= rule);
    }
    s
}

/// A rule is written in canonical text by putting its body, in small letters and
/// without what stands around it, behind the name of its kind. A regular
/// expression is left as it is.
pub proof fn law_rule_is_written(
    s: Spelling,
    raw: &str,
    default_kind: DynamicDomainRuleKind,
    source: &str,
    res: Result<String, DnsError>,
)
    requires
        raw@ == s.text(),
        s.fits(default_kind),
        call_ensures(canonicalize_rule, (raw, default_kind, source), res),
    ensures
        res matches Ok(rule) && rule@ == named(s.kind) + s.meant(),
        rules::canonical(raw@, default_kind) == Some(named(s.kind) + s.meant()),
{
    lemma_spelled(s, default_kind);
    lemma_named(s.kind);
}

/// A text that is not made of the pieces of a rule is refused, and the message
/// quotes it.
pub proof fn law_no_rule_is_refused(
    raw: &str,
    default_kind: DynamicDomainRuleKind,
    source: &str,
    res: Result<String, DnsError>,
)
    requires
        call_ensures(canonicalize_rule, (raw, default_kind, source), res),
    ensures
        res is Ok <==> exists|s: Spelling| #[trigger] s.text() == raw@ && s.fits(default_kind),
        res is Ok <==> rules::canonical(raw@, default_kind) is Some,
        res matches Err(err) ==> err@ == ErrorView::Plugin(
            source@ + ": invalid rule '"@ + raw@ + "'"@,
        ),
{
    reveal_strlit(": invalid rule '");
    reveal_strlit("'");
    if rules::parsed(raw@, default_kind) is Some {
        let s = lemma_spelling(raw@, default_kind);
        assert(s.text() == raw@);
    }
    if exists|s: Spelling| #[trigger] s.text() == raw@ && s.fits(default_kind) {
        let s = choose|s: Spelling| #[trigger] s.text() == raw@ && s.fits(default_kind);
        lemma_spelled(s, default_kind);
    }
    assert(rules::invalid_rule_message(source@, raw@) =~= source@ + ": invalid rule '"@ + raw@
        + "'"@);
}

/// Taking a rule apart gives its kind and the body that it stands for.
pub proof fn law_rule_is_taken_apart(
    s: Spelling,
    raw: &str,
    default_kind: DynamicDomainRuleKind,
    res: Option<RuleExpression>,
)
    requires
        raw@ == s.text(),
        s.fits(default_kind),
        call_ensures(parse_rule, (raw, default_kind), res),
    ensures
        res matches Some(rule) && rule.kind == s.kind && rule.body@ == s.meant(),
{
    lemma_spelled(s, default_kind);
}

/// A canonical rule is the name of a kind with a body behind it that stands for
/// itself: without white space around it, and, unless it is a regular expression,
/// in small letters, without white space in it and without a dot at its end.
pub proof fn law_canonical_rules(rule: Text)
    ensures
        rules::is_canonical(rule) <==> exists|kind: DynamicDomainRuleKind, body: Text|
            rule == #[trigger] (named(kind) + body) && plain(kind, body),
{
    let domain = DynamicDomainRuleKind::Domain;
    if rules::is_canonical(rule) {
        let s = lemma_spelling(rule, domain);
        lemma_named(s.kind);
        assert(rule == named(s.kind) + s.meant());
        lemma_meant(s, domain);
    }
    if exists|kind: DynamicDomainRuleKind, body: Text|
        rule == #[trigger] (named(kind) + body) && plain(kind, body) {
        let (kind, body) = choose|kind: DynamicDomainRuleKind, body: Text|
            rule == #[trigger] (named(kind) + body) && plain(kind, body);
        lemma_plain(kind, body, domain);
    }
}

/// Whether a body stands for itself.
pub open spec fn plain(kind: DynamicDomainRuleKind, body: Text) -> bool {
    &&& body.len() > 0
    &&& if kind is Regexp {
        !body.contains('\n') && !white(body[0]) && !white(body.last())
    } else {
        &&& body.last() != '.'
        &&& forall|i: int|
            0 <= i < body.len() ==> !white(#[trigger] body[i]) && !('A' <= body[i] <= 'Z')
    }
}

proof fn lemma_meant(s: Spelling, default_kind: DynamicDomainRuleKind)
    requires
        s.fits(default_kind),
    ensures
        plain(s.kind, s.meant()),
{
    if !(s.kind is Regexp) {
        let body = s.meant();
        lemma_small_white(s.body.last());
        assert(body.last() == small(s.body.last()));
        assert forall|i: int| 0 <= i < body.len() implies !white(#[trigger] body[i]) && !('A'
            <= body[i] <= 'Z') by {
            assert(!white(s.body[i]));
            lemma_small_white(s.body[i]);
        }
    }
}

/// A kind and a body that stands for itself.
pub proof fn lemma_plain(
    kind: DynamicDomainRuleKind,
    body: Text,
    default_kind: DynamicDomainRuleKind,
)
    requires
        plain(kind, body),
    ensures
        rules::parsed(named(kind) + body, default_kind) == Some((kind, body)),
        rules::canonical(named(kind) + body, default_kind) == Some(named(kind) + body),
        rules::is_canonical(named(kind) + body),
{
    let none = Seq::<char>::empty();
    let s = Spelling { left: none, explicit: true, kind, gap: none, body, dots: none, right: none };
    lemma_named(kind);
    assert(s.text() =~= named(kind) + body);
    assert(s.meant() =~= body);
    lemma_spelled(s, default_kind);
    lemma_spelled(s, DynamicDomainRuleKind::Domain);
}

/// A list of rules is written rule by rule, in order. If one of them is no rule
/// nothing is written, and the message names the position of the first of these.
pub proof fn law_rules_are_written_in_order(
    raw: Vec<String>,
    default_kind: DynamicDomainRuleKind,
    source: &str,
    res: Result<Vec<String>, DnsError>,
    at: int,
)
    requires
        call_ensures(canonicalize_rules, (raw, default_kind, source), res),
        0 <= at < raw@.len(),
    ensures
        res matches Ok(list) ==> list@.len() == raw@.len() && rules::canonical(
            raw@[at]@,
            default_kind,
        ) == Some(list@[at]@),
        rules::canonical(raw@[at]@, default_kind) is None ==> res is Err,
        rules::canonical(raw@[at]@, default_kind) is None && (forall|k: int|
            0 <= k < at ==> rules::canonical((#[trigger] raw@[k])@, default_kind) is Some) ==> (
        res matches Err(err) && err@ == ErrorView::Plugin(
            source@ + "["@ + text::decimal(at as nat) + "]: invalid rule '"@ + raw@[at]@ + "'"@,
        )),
{
    let all = text::texts(raw@);
    assert(all[at] == raw@[at]@);
    if let Ok(list) = res {
        assert(text::texts(list@).len() == list@.len());
        assert(list@.len() == raw@.len());
        assert(text::texts(list@)[at] == list@[at]@);
    }
    if rules::canonical(raw@[at]@, default_kind) is None && (forall|k: int|
        0 <= k < at ==> rules::canonical((#[trigger] raw@[k])@, default_kind) is Some) {
        assert forall|k: int| 0 <= k < at implies rules::canonical(
            #[trigger] all[k],
            default_kind,
        ) is Some by {
            assert(all[k] == raw@[k]@);
        }
        rules::lemma_first_invalid(all, default_kind, at);
        reveal_strlit("[");
        reveal_strlit("]: invalid rule '");
        reveal_strlit("'");
        assert(rules::invalid_rule_message(
            rules::entry_source(source@, at as nat),
            raw@[at]@,
        ) =~= source@ + "["@ + text::decimal(at as nat) + "]: invalid rule '"@ + raw@[at]@ + "'"@);
    }
}

/// A list of which everything is a rule is not refused.
pub proof fn law_good_rules_are_accepted(
    raw: Vec<String>,
    default_kind: DynamicDomainRuleKind,
    source: &str,
    res: Result<Vec<String>, DnsError>,
)
    requires
        call_ensures(canonicalize_rules, (raw, default_kind, source), res),
        forall|k: int|
            0 <= k < raw@.len() ==> rules::canonical((#[trigger] raw@[k])@, default_kind) is Some,
    ensures
        res is Ok,
{
    let all = text::texts(raw@);
    assert forall|k: int| 0 <= k < all.len() implies rules::canonical(
        #[trigger] all[k],
        default_kind,
    ) is Some by {
        assert(all[k] == raw@[k]@);
    }
}

/// The number that a text of decimal digits stands for.
pub open spec fn number(digits: Text) -> int
    decreases digits.len(),
{
    if digits.len() == 0 {
        0
    } else {
        10 * number(digits.drop_last()) + (digits.last() as int - '0' as int)
    }
}

proof fn lemma_decimal(n: nat)
    ensures
        number(text::decimal(n)) == n,
        text::decimal(n).len() > 0,
        forall|i: int|
            0 <= i < text::decimal(n).len() ==> '0' <= #[trigger] text::decimal(n)[i] <= '9',
        text::decimal(n)[0] == '0' ==> n == 0,
    decreases n,
{
    if n < 10 {
        let s = text::decimal(n);
        assert(s.drop_last() =~= Seq::empty());
        assert(number(s.drop_last()) == 0);
    } else {
        let front = text::decimal(n / 10);
        lemma_decimal(n / 10);
        assert(text::decimal(n).drop_last() =~= front);
        assert(text::decimal(n)[0] == front[0]);
        assert forall|i: int| 0 <= i < text::decimal(n).len() implies '0' <= #[trigger] text::decimal(
            n,
        )[i] <= '9' by {
            if i < front.len() {
                assert(text::decimal(n)[i] == front[i]);
            }
        }
    }
}

/// A number is written in decimal digits, without zeros in front.
pub proof fn law_numbers_are_decimal(n: usize, res: String)
    requires
        call_ensures(decimal_of, (n,), res),
    ensures
        number(res@) == n,
        res@.len() > 0,
        forall|i: int| 0 <= i < res@.len() ==> '0' <= #[trigger] res@[i] <= '9',
        res@[0] == '0' ==> n == 0,
        res@ == text::decimal(n as nat),
{
    lemma_decimal(n as nat);
}

proof fn lemma_nul(c: char)
    ensures
        '\0' <= c,
{
}

/// A name is read in small letters and without the dots at its end, and is
/// refused only if it is not ASCII.
pub proof fn law_name_is_read(raw: &str, res: Result<Name, DnsError>, body: Text, dots: Text)
    requires
        call_ensures(Name::from_ascii, (raw,), res),
        raw@ == body + dots,
        dots_only(dots),
        body.len() > 0 ==> body.last() != '.',
    ensures
        res is Ok <==> (forall|i: int| 0 <= i < raw@.len() ==> #[trigger] raw@[i] <= '\u{7f}'),
        res matches Ok(name) ==> name@ == small_letters(body),
        res matches Err(err) ==> err@ == ErrorView::Plugin("name is not ASCII: "@ + raw@),
{
    lemma_lowered(raw@);
    if forall|i: int| 0 <= i < raw@.len() ==> #[trigger] raw@[i] <= '\u{7f}' {
        assert forall|i: int| 0 <= i < raw@.len() implies '\0' <= #[trigger] raw@[i]
            <= '\u{7f}' by {
            lemma_nul(raw@[i]);
        }
        assert(vstd::utf8::is_ascii_chars(raw@));
    }
    let low = small_letters(body);
    assert(small_letters(raw@) =~= low + dots) by {
        assert forall|i: int| 0 <= i < raw@.len() implies small(raw@[i]) == #[trigger] (low
            + dots)[i] by {
            if i >= body.len() {
                assert(dots[i - body.len()] == '.');
            }
        }
    }
    if body.len() > 0 {
        lemma_small_white(body.last());
        assert(low.last() == small(body.last()));
    }
    lemma_strip_dots_of(low, dots);
}

} // verus!
