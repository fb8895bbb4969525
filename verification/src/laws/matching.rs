//! Which names a rule applies to.
use crate::backend::DynamicDomainSetBackend;
use crate::error::{DnsError, ErrorView};
use crate::laws::writing;
use crate::matcher;
use crate::matcher::DomainRuleMatcher;
use crate::name::{Name, Question};
use crate::patterns;
use crate::rules;
use crate::rules::DynamicDomainRuleKind;
use crate::snapshot;
use crate::snapshot::{build_snapshot, DynamicDomainSetSnapshot};
use crate::state;
use crate::storage;
use crate::text;
use crate::text::Text;
use vstd::prelude::*;

verus! {

/// Whether a name lies below a domain: it is some text, a dot, and the domain.
pub open spec fn below(domain: Text, name: Text) -> bool {
    exists|label: Text| name == #[trigger] (label + "."@ + domain)
}

/// Whether a text stands somewhere in a name.
pub open spec fn inside(part: Text, name: Text) -> bool {
    exists|front: Text, back: Text| name == #[trigger] (front + part + back)
}

/// Whether a canonical rule applies to a name, by the kind it begins with.
pub open spec fn applies(rule: Text, name: Text) -> bool {
    if writing::names(rule, DynamicDomainRuleKind::Full) {
        rule == "full:"@ + name
    } else if writing::names(rule, DynamicDomainRuleKind::Domain) {
        rule == "domain:"@ + name || below(rule.skip(7), name)
    } else if writing::names(rule, DynamicDomainRuleKind::Keyword) {
        inside(rule.skip(8), name)
    } else if writing::names(rule, DynamicDomainRuleKind::Regexp) {
        patterns::pattern_matches(rule.skip(7), name)
    } else {
        false
    }
}

/// Whether one of the rules applies to a name.
pub open spec fn found(list: Seq<Text>, name: Text) -> bool {
    exists|rule: Text| list.contains(rule) && #[trigger] applies(rule, name)
}

/// A `full:` rule applies to its body and to no other name.
pub proof fn law_full_rule(body: Text, name: Text)
    requires
        writing::plain(DynamicDomainRuleKind::Full, body),
    ensures
        matcher::rule_matches("full:"@ + body, name) <==> name == body,
{
    writing::lemma_plain(DynamicDomainRuleKind::Full, body, DynamicDomainRuleKind::Domain);
}

/// A `domain:` rule applies to the domain and to the names below it, and to no
/// other name: what stands in front of the domain ends with a dot.
pub proof fn law_domain_rule(domain: Text, name: Text)
    requires
        writing::plain(DynamicDomainRuleKind::Domain, domain),
    ensures
        matcher::rule_matches("domain:"@ + domain, name) <==> name == domain || below(domain, name),
{
    writing::lemma_plain(DynamicDomainRuleKind::Domain, domain, DynamicDomainRuleKind::Domain);
    lemma_covers(domain, name);
}

proof fn lemma_covers(domain: Text, name: Text)
    ensures
        matcher::covers(domain, name) <==> name == domain || below(domain, name),
{
    reveal_strlit(".");
    let at = name.len() - domain.len();
    if matcher::covers(domain, name) {
        if at == 0 {
            assert(name.skip(0) =~= name);
        } else {
            let label = name.take(at - 1);
            assert(name =~= label + "."@ + domain) by {
                assert forall|i: int| 0 <= i < name.len() implies name[i] == #[trigger] (label
                    + "."@ + domain)[i] by {
                    if i >= at {
                        assert(name.skip(at)[i - at] == domain[i - at]);
                    }
                }
            }
        }
    }
    if name == domain {
        assert(name.skip(0) =~= domain);
    }
    if below(domain, name) {
        let label = choose|label: Text| name == #[trigger] (label + "."@ + domain);
        assert(name.skip(at) =~= domain);
        assert(name[at - 1] == '.');
    }
}

/// The labels of a name from left to right, cut at the dots.
pub open spec fn labels(name: Text) -> Seq<Text>
    decreases name.len(),
{
    if name.len() == 0 {
        seq![name]
    } else {
        let rest = labels(name.drop_first());
        if name[0] == '.' {
            seq![Seq::<char>::empty()] + rest
        } else {
            seq![seq![name[0]] + rest[0]] + rest.drop_first()
        }
    }
}

proof fn lemma_some_label(name: Text)
    ensures
        labels(name).len() > 0,
    decreases name.len(),
{
    if name.len() > 0 {
        lemma_some_label(name.drop_first());
    }
}

/// The labels in front of a dot and those behind it are the labels of the whole.
proof fn lemma_labels_join(front: Text, back: Text)
    ensures
        labels(front + "."@ + back) == labels(front) + labels(back),
    decreases front.len(),
{
    reveal_strlit(".");
    let name = front + "."@ + back;
    if front.len() == 0 {
        assert(name[0] == '.');
        assert(name.drop_first() =~= back);
        assert(front =~= Seq::empty());
        assert(labels(front) =~= seq![Seq::<char>::empty()]);
    } else {
        let rest = front.drop_first();
        assert(name.drop_first() =~= rest + "."@ + back);
        lemma_labels_join(rest, back);
        lemma_some_label(rest);
        assert(name[0] == front[0]);
        let joined = labels(rest) + labels(back);
        assert(joined[0] == labels(rest)[0]);
        assert(joined.drop_first() =~= labels(rest).drop_first() + labels(back));
        assert(labels(name) =~= labels(front) + labels(back));
    }
}

/// The labels of a domain are the last labels of every name that its rule
/// applies to.
pub proof fn law_domain_rule_compares_labels(domain: Text, name: Text)
    requires
        writing::plain(DynamicDomainRuleKind::Domain, domain),
        matcher::rule_matches("domain:"@ + domain, name),
    ensures
        labels(name).len() >= labels(domain).len(),
        labels(name).skip(labels(name).len() - labels(domain).len()) == labels(domain),
{
    law_domain_rule(domain, name);
    if name == domain {
        assert(labels(name).skip(0) =~= labels(domain));
    } else {
        let label = choose|label: Text| name == #[trigger] (label + "."@ + domain);
        lemma_labels_join(label, domain);
        assert(labels(name).skip(labels(label).len() as int) =~= labels(domain));
    }
}

/// A `keyword:` rule applies to the names that hold its body, and to no others.
pub proof fn law_keyword_rule(body: Text, name: Text)
    requires
        writing::plain(DynamicDomainRuleKind::Keyword, body),
    ensures
        matcher::rule_matches("keyword:"@ + body, name) <==> inside(body, name),
{
    writing::lemma_plain(DynamicDomainRuleKind::Keyword, body, DynamicDomainRuleKind::Domain);
    lemma_contains_text(name, body);
}

proof fn lemma_contains_text(name: Text, part: Text)
    ensures
        matcher::contains_text(name, part) <==> inside(part, name),
{
    if matcher::contains_text(name, part) {
        let i = choose|i: int|
            0 <= i <= name.len() && text::starts_with(#[trigger] name.skip(i), part);
        let front = name.take(i);
        let back = name.skip(i + part.len());
        assert(name =~= front + part + back) by {
            assert forall|k: int| 0 <= k < name.len() implies name[k] == #[trigger] (front + part
                + back)[k] by {
                if i <= k < i + part.len() {
                    assert(name.skip(i).take(part.len() as int)[k - i] == part[k - i]);
                }
            }
        }
    }
    if inside(part, name) {
        let (front, back) = choose|front: Text, back: Text|
            name == #[trigger] (front + part + back);
        let rest = name.skip(front.len() as int);
        assert(rest.take(part.len() as int) =~= part);
        assert(text::starts_with(rest, part));
    }
}

/// A `regexp:` rule applies to the names that its body matches.
pub proof fn law_regexp_rule(body: Text, name: Text)
    requires
        writing::plain(DynamicDomainRuleKind::Regexp, body),
    ensures
        matcher::rule_matches("regexp:"@ + body, name) <==> patterns::pattern_matches(body, name),
{
    writing::lemma_plain(DynamicDomainRuleKind::Regexp, body, DynamicDomainRuleKind::Domain);
}

/// A text begins with the name of one kind at most.
proof fn lemma_one_kind(kind: DynamicDomainRuleKind, body: Text, other: DynamicDomainRuleKind)
    ensures
        writing::names(writing::named(kind) + body, other) <==> other == kind,
        (writing::named(kind) + body).skip(writing::named(kind).len() as int) == body,
{
    let rule = writing::named(kind) + body;
    writing::lemma_named(kind);
    writing::lemma_named(other);
    assert(rule.skip(writing::named(kind).len() as int) =~= body);
    if other == kind {
        assert(rule.take(writing::named(kind).len() as int) =~= writing::named(kind));
    } else if writing::names(rule, other) {
        assert(rule.take(writing::named(other).len() as int)[0] == rule[0]);
        assert(rule[0] == writing::named(kind)[0]);
    }
}

/// A canonical rule applies to a name as its kind says.
pub proof fn law_rule_applies(rule: Text, name: Text)
    requires
        rules::is_canonical(rule),
    ensures
        matcher::rule_matches(rule, name) <==> applies(rule, name),
{
    writing::law_canonical_rules(rule);
    let (kind, body) = choose|kind: DynamicDomainRuleKind, body: Text|
        rule == #[trigger] (writing::named(kind) + body) && writing::plain(kind, body);
    lemma_one_kind(kind, body, DynamicDomainRuleKind::Full);
    lemma_one_kind(kind, body, DynamicDomainRuleKind::Domain);
    lemma_one_kind(kind, body, DynamicDomainRuleKind::Keyword);
    lemma_one_kind(kind, body, DynamicDomainRuleKind::Regexp);
    reveal_strlit("full:");
    reveal_strlit("domain:");
    reveal_strlit("keyword:");
    reveal_strlit("regexp:");
    let n = writing::named(kind).len() as int;
    assert((writing::named(kind) + name).skip(n) =~= name);
    match kind {
        DynamicDomainRuleKind::Full => law_full_rule(body, name),
        DynamicDomainRuleKind::Domain => law_domain_rule(body, name),
        DynamicDomainRuleKind::Keyword => law_keyword_rule(body, name),
        DynamicDomainRuleKind::Regexp => law_regexp_rule(body, name),
    }
}

/// One of canonical rules applies to a name as their kinds say.
pub proof fn law_list_applies(list: Seq<Text>, name: Text)
    requires
        storage::all_canonical(list),
    ensures
        matcher::any_match(list, name) <==> found(list, name),
{
    if matcher::any_match(list, name) {
        let i = choose|i: int|
            0 <= i < list.len() && matcher::rule_matches(#[trigger] list[i], name);
        assert(rules::is_canonical(list[i]));
        law_rule_applies(list[i], name);
        assert(list.contains(list[i]));
    }
    if found(list, name) {
        let rule = choose|rule: Text| list.contains(rule) && #[trigger] applies(rule, name);
        let i = choose|i: int| 0 <= i < list.len() && list[i] == rule;
        assert(rules::is_canonical(list[i]));
        law_rule_applies(list[i], name);
    }
}

/// A matcher finds a name if and only if one of its rules applies to it.
pub proof fn law_matcher_finds(compiled: &DomainRuleMatcher, name: &Name, res: bool)
    requires
        compiled.wf(),
        compiled.ready(),
        call_ensures(DomainRuleMatcher::is_match_name, (compiled, name), res),
    ensures
        res <==> found(compiled@, name@),
{
    compiled.lemma_wf();
    law_list_applies(compiled@, name@);
}

/// A lookup finds a name if and only if one of the compiled rules applies to it,
/// whether it is looked up by itself or as a question.
pub proof fn law_lookup_finds(
    set: &DynamicDomainSetBackend,
    name: &Name,
    by_name: bool,
    question: &Question,
    by_question: bool,
)
    requires
        set.wf(),
        call_ensures(DynamicDomainSetBackend::contains_name, (set, name), by_name),
        call_ensures(DynamicDomainSetBackend::contains_question, (set, question), by_question),
    ensures
        by_name <==> found(set@.compiled, name@),
        by_question <==> found(set@.compiled, question@),
{
    set.lemma_wf();
    law_list_applies(set@.compiled, name@);
    law_list_applies(set@.compiled, question@);
}

/// A snapshot finds a name if and only if one of its rules applies to it.
pub proof fn law_snapshot_finds(
    compiled: &DynamicDomainSetSnapshot,
    name: &Name,
    by_name: bool,
    question: &Question,
    by_question: bool,
)
    requires
        compiled.wf(),
        call_ensures(DynamicDomainSetSnapshot::contains_name, (compiled, name), by_name),
        call_ensures(DynamicDomainSetSnapshot::contains_question, (compiled, question), by_question),
    ensures
        by_name <==> found(compiled@, name@),
        by_question <==> found(compiled@, question@),
{
    compiled.lemma_wf();
    law_list_applies(compiled@, name@);
    law_list_applies(compiled@, question@);
}

/// A matcher takes a rule in as its canonical text, behind those it holds. What is
/// no rule changes nothing, and the message quotes it.
pub proof fn law_matcher_takes_rules_in(
    compiled: &mut DomainRuleMatcher,
    raw: &str,
    source: &str,
    res: Result<(), String>,
)
    requires
        call_ensures(DomainRuleMatcher::add_expression, (compiled, raw, source), res),
    ensures
        match rules::canonical(raw@, DynamicDomainRuleKind::Domain) {
            Some(rule) => res is Ok && final(compiled)@ == old(compiled)@.push(rule),
            None => {
                &&& res matches Err(message) && message@ == source@ + ": invalid rule '"@ + raw@
                    + "'"@
                &&& final(compiled)@ == old(compiled)@
            },
        },
{
    reveal_strlit(": invalid rule '");
    reveal_strlit("'");
    assert(rules::invalid_rule_message(source@, raw@) =~= source@ + ": invalid rule '"@ + raw@
        + "'"@);
}

/// Compiling changes no rule. Without regular expressions it does not fail, and
/// if it does not fail the matcher is ready.
pub proof fn law_matcher_is_compiled(
    compiled: &mut DomainRuleMatcher,
    res: Result<(), String>,
    pattern: Text,
)
    requires
        call_ensures(DomainRuleMatcher::finalize, (compiled,), res),
    ensures
        final(compiled)@ == old(compiled)@,
        res is Ok ==> final(compiled).ready(),
        (forall|rule: Text| #[trigger]
            old(compiled)@.contains(rule) ==> !writing::names(
                rule,
                DynamicDomainRuleKind::Regexp,
            )) ==> res is Ok,
        res is Ok && old(compiled)@.contains("regexp:"@ + pattern) ==> patterns::valid_pattern(
            pattern,
        ),
{
    let regexp = DynamicDomainRuleKind::Regexp;
    let parts = matcher::bodies(compiled@, regexp);
    law_bodies(compiled@, regexp, pattern);
    if parts.len() > 0 {
        assert(parts.contains(parts[0]));
        law_bodies(compiled@, regexp, parts[0]);
        lemma_one_kind(regexp, parts[0], regexp);
        assert(compiled@.contains(writing::named(regexp) + parts[0]));
    }
    if res is Ok && compiled@.contains("regexp:"@ + pattern) {
        let i = choose|i: int| 0 <= i < parts.len() && parts[i] == pattern;
        assert(patterns::valid_pattern(parts[i]));
    }
}

/// Once rules are taken off a list a name is found if and only if one of the others
/// applies to it.
pub proof fn law_removal_takes_effect(list: Seq<Text>, gone: Seq<Text>, name: Text)
    requires
        storage::all_canonical(list),
    ensures
        matcher::any_match(state::without(list, gone), name) <==> exists|rule: Text|
            list.contains(rule) && !gone.contains(rule) && #[trigger] applies(rule, name),
{
    let left = state::without(list, gone);
    state::lemma_without(list, gone);
    assert forall|i: int| 0 <= i < left.len() implies rules::is_canonical(#[trigger] left[i]) by {
        assert(left.contains(left[i]));
        let k = choose|k: int| 0 <= k < list.len() && list[k] == left[i];
        assert(rules::is_canonical(list[k]));
    }
    law_list_applies(left, name);
    if exists|rule: Text|
        list.contains(rule) && !gone.contains(rule) && #[trigger] applies(rule, name) {
        let rule = choose|rule: Text|
            list.contains(rule) && !gone.contains(rule) && #[trigger] applies(rule, name);
        assert(left.contains(rule));
    }
    if found(left, name) {
        let rule = choose|rule: Text| left.contains(rule) && #[trigger] applies(rule, name);
        assert(list.contains(rule) && !gone.contains(rule));
    }
}

/// The bodies of the rules of one kind are what stands behind its name.
pub proof fn law_bodies(list: Seq<Text>, kind: DynamicDomainRuleKind, body: Text)
    ensures
        matcher::bodies(list, kind).contains(body) <==> list.contains(writing::named(kind) + body),
        matcher::bodies(list, kind).len() == list.filter(
            |rule: Text| writing::names(rule, kind),
        ).len(),
    decreases list.len(),
{
    reveal(Seq::filter);
    writing::lemma_named(kind);
    let wanted = writing::named(kind) + body;
    let n = writing::named(kind).len() as int;
    if list.len() > 0 {
        let front = list.drop_last();
        let rule = list.last();
        law_bodies(front, kind, body);
        assert(list =~= front.push(rule));
        state::lemma_push_contains(front, rule, wanted);
        lemma_one_kind(kind, body, kind);
        if writing::names(rule, kind) {
            state::lemma_push_contains(matcher::bodies(front, kind), rule.skip(n), body);
            assert(rule =~= writing::named(kind) + rule.skip(n));
        }
    }
}

/// The regular expressions among rules, in order.
pub open spec fn expressions(list: Seq<Text>) -> Seq<Text> {
    list.filter(|rule: Text| writing::names(rule, DynamicDomainRuleKind::Regexp)).map_values(
        |rule: Text| rule.skip(7),
    )
}

/// Whether rules were not compiled for the given reason: the `regex` crate refused
/// their regular expressions, or there are too many of them for it.
pub open spec fn not_compiled(list: Seq<Text>, reason: ErrorView) -> bool {
    &&& reason is Plugin
    &&& if expressions(list).len() > 0x7fff_ffff {
        reason->Plugin_0 == "too many regexp rules"@
    } else {
        patterns::refuses(expressions(list), reason->Plugin_0)
    }
}

proof fn lemma_expressions(list: Seq<Text>)
    ensures
        matcher::bodies(list, DynamicDomainRuleKind::Regexp) == expressions(list),
    decreases list.len(),
{
    let regexp = DynamicDomainRuleKind::Regexp;
    reveal(Seq::filter);
    reveal_strlit("regexp:");
    writing::lemma_named(regexp);
    if list.len() > 0 {
        lemma_expressions(list.drop_last());
    }
    assert(matcher::bodies(list, regexp) =~= expressions(list));
}

/// Rules that are not compiled have regular expressions that the `regex` crate
/// refuses: just these, with the message that is handed on.
pub proof fn law_only_the_crate_refuses(list: Seq<Text>, message: Text)
    ensures
        matcher::uncompiled(list, message) <==> not_compiled(list, ErrorView::Plugin(message)),
{
    lemma_expressions(list);
}

/// A matcher that was not compiled had its regular expressions refused.
pub proof fn law_matcher_is_refused(compiled: &mut DomainRuleMatcher, res: Result<(), String>)
    requires
        call_ensures(DomainRuleMatcher::finalize, (compiled,), res),
    ensures
        res matches Err(message) ==> not_compiled(old(compiled)@, ErrorView::Plugin(message@)),
{
    if let Err(message) = res {
        law_only_the_crate_refuses(compiled@, message@);
    }
}

/// The rules of a matcher are counted by kind: regular expressions and keywords
/// each time they were added.
pub proof fn law_rules_are_counted(compiled: &DomainRuleMatcher, keyword: usize, regexp: usize)
    requires
        call_ensures(DomainRuleMatcher::keyword_rule_count, (compiled,), keyword),
        call_ensures(DomainRuleMatcher::regexp_rule_count, (compiled,), regexp),
    ensures
        keyword == compiled@.filter(
            |rule: Text| writing::names(rule, DynamicDomainRuleKind::Keyword),
        ).len(),
        regexp == compiled@.filter(
            |rule: Text| writing::names(rule, DynamicDomainRuleKind::Regexp),
        ).len(),
{
    law_bodies(compiled@, DynamicDomainRuleKind::Keyword, Seq::empty());
    law_bodies(compiled@, DynamicDomainRuleKind::Regexp, Seq::empty());
}

/// The rules of a matcher are counted by kind: names and domains once each.
pub proof fn law_distinct_rules_are_counted(
    compiled: &DomainRuleMatcher,
    full: usize,
    domain: usize,
)
    requires
        call_ensures(DomainRuleMatcher::full_rule_count, (compiled,), full),
        call_ensures(DomainRuleMatcher::trie_rule_count, (compiled,), domain),
    ensures
        full == rules_of(compiled@, DynamicDomainRuleKind::Full).len(),
        domain == rules_of(compiled@, DynamicDomainRuleKind::Domain).len(),
{
    lemma_distinct(compiled@, DynamicDomainRuleKind::Full);
    lemma_distinct(compiled@, DynamicDomainRuleKind::Domain);
}

/// The different rules of one kind.
pub open spec fn rules_of(list: Seq<Text>, kind: DynamicDomainRuleKind) -> Set<Text> {
    list.to_set().filter(|rule: Text| writing::names(rule, kind))
}

proof fn lemma_distinct(list: Seq<Text>, kind: DynamicDomainRuleKind)
    ensures
        matcher::bodies(list, kind).to_set().len() == rules_of(list, kind).len(),
{
    let all = rules_of(list, kind);
    let parts = matcher::bodies(list, kind).to_set();
    let put = |body: Text| writing::named(kind) + body;
    let n = writing::named(kind).len() as int;
    assert(parts.finite());
    assert forall|a: Text, b: Text| parts.contains(a) && parts.contains(b) && #[trigger] put(a)
        == #[trigger] put(b) implies a == b by {
        assert((writing::named(kind) + a).skip(n) =~= a);
        assert((writing::named(kind) + b).skip(n) =~= b);
    }
    assert(parts.map(put) =~= all) by {
        assert forall|rule: Text| parts.map(put).contains(rule) <==> all.contains(rule) by {
            if parts.map(put).contains(rule) {
                let body = choose|body: Text| parts.contains(body) && rule == put(body);
                law_bodies(list, kind, body);
                lemma_one_kind(kind, body, kind);
                assert(list.to_set().contains(rule));
            }
            if all.contains(rule) {
                let body = rule.skip(n);
                assert(rule =~= writing::named(kind) + body);
                law_bodies(list, kind, body);
                assert(parts.contains(body));
                assert(put(body) == rule);
            }
        }
    }
    vstd::set_lib::lemma_map_size(parts, all, put);
}

/// A snapshot is compiled from the canonical texts of the rules it is given, in
/// order. What is no rule is reported with its position; and what else does not
/// compile has a regular expression.
pub proof fn law_snapshot_is_compiled(
    list: &[String],
    res: Result<DynamicDomainSetSnapshot, DnsError>,
    at: int,
)
    requires
        call_ensures(build_snapshot, (list,), res),
        0 <= at < list@.len(),
    ensures
        res matches Ok(compiled) ==> {
            &&& compiled.wf()
            &&& compiled@.len() == list@.len()
            &&& rules::canonical(list@[at]@, DynamicDomainRuleKind::Domain) == Some(compiled@[at])
        },
        rules::canonical(list@[at]@, DynamicDomainRuleKind::Domain) is None ==> res is Err,
        rules::canonical(list@[at]@, DynamicDomainRuleKind::Domain) is None && (forall|k: int|
            0 <= k < at ==> rules::canonical(
                (#[trigger] list@[k])@,
                DynamicDomainRuleKind::Domain,
            ) is Some) ==> (res matches Err(err) && err@ == ErrorView::Plugin(
            "dynamic_domain_set.rules["@ + text::decimal(at as nat) + "]: invalid rule '"@
                + list@[at]@ + "'"@,
        )),
{
    let domain = DynamicDomainRuleKind::Domain;
    let all = text::texts(list@);
    assert(all[at] == list@[at]@);
    assert(all.len() == list@.len());
    if rules::canonical(list@[at]@, domain) is None && (forall|k: int|
        0 <= k < at ==> rules::canonical((#[trigger] list@[k])@, domain) is Some) {
        assert forall|k: int| 0 <= k < at implies rules::canonical(
            #[trigger] all[k],
            domain,
        ) is Some by {
            assert(all[k] == list@[k]@);
        }
        rules::lemma_first_invalid(all, domain, at);
        reveal_strlit("dynamic_domain_set.rules[");
        reveal_strlit("dynamic_domain_set.rules");
        reveal_strlit("]: invalid rule '");
        reveal_strlit("'");
        assert(rules::invalid_rule_message(
            rules::entry_source("dynamic_domain_set.rules"@, at as nat),
            list@[at]@,
        ) =~= "dynamic_domain_set.rules["@ + text::decimal(at as nat) + "]: invalid rule '"@
            + list@[at]@ + "'"@);
    }
}

/// Rules without a regular expression always compile, and the regular expressions
/// of rules that compile are valid.
pub proof fn law_plain_rules_compile(
    list: &[String],
    res: Result<DynamicDomainSetSnapshot, DnsError>,
    pattern: Text,
)
    requires
        call_ensures(build_snapshot, (list,), res),
        forall|k: int|
            0 <= k < list@.len() ==> rules::canonical(
                (#[trigger] list@[k])@,
                DynamicDomainRuleKind::Domain,
            ) is Some,
    ensures
        res matches Err(err) ==> not_compiled(
            Seq::new(
                list@.len(),
                |k: int| rules::canonical(list@[k]@, DynamicDomainRuleKind::Domain)->0,
            ),
            err@,
        ),
        res is Err ==> exists|k: int|
            0 <= k < list@.len() && writing::names(
                rules::canonical((#[trigger] list@[k])@, DynamicDomainRuleKind::Domain)->0,
                DynamicDomainRuleKind::Regexp,
            ),
        res matches Ok(compiled) ==> (compiled@.contains("regexp:"@ + pattern)
            ==> patterns::valid_pattern(pattern)),
{
    let domain = DynamicDomainRuleKind::Domain;
    let regexp = DynamicDomainRuleKind::Regexp;
    let all = text::texts(list@);
    assert forall|k: int| 0 <= k < all.len() implies rules::canonical(
        #[trigger] all[k],
        domain,
    ) is Some by {
        assert(all[k] == list@[k]@);
    }
    let canonical = rules::canonical_all(all, domain)->0;
    assert(canonical =~= Seq::new(list@.len(), |k: int| rules::canonical(list@[k]@, domain)->0));
    if let Err(err) = res {
        law_only_the_crate_refuses(canonical, err@.message());
        let parts = matcher::bodies(canonical, regexp);
        assert(parts.contains(parts[0]));
        law_bodies(canonical, regexp, parts[0]);
        let rule = writing::named(regexp) + parts[0];
        lemma_one_kind(regexp, parts[0], regexp);
        let k = choose|k: int| 0 <= k < canonical.len() && canonical[k] == rule;
        assert(rules::canonical(list@[k]@, domain) == Some(rule)) by {
            assert(all[k] == list@[k]@);
        }
    }
    if let Ok(compiled) = res {
        law_bodies(canonical, regexp, pattern);
        if compiled@.contains("regexp:"@ + pattern) {
            let parts = matcher::bodies(canonical, regexp);
            let i = choose|i: int| 0 <= i < parts.len() && parts[i] == pattern;
            assert(snapshot::all_patterns_valid(canonical));
            assert(patterns::valid_pattern(parts[i]));
        }
    }
}

} // verus!
