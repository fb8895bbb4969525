//! Matching names against compiled rules.
use crate::name::Name;
use crate::patterns;
use crate::patterns::{compile_set, set_matches, PATTERN_LIMIT};
use crate::rules;
use crate::rules::{invalid_rule, parse_rule, DynamicDomainRuleKind};
use crate::state;
use crate::storage;
use crate::text;
use crate::text::{chars_of, has_prefix, string_of, Text};
use vstd::hash_set::StringHashSet;
use vstd::prelude::*;

verus! {

/// Whether a name is `domain` or lies below it.
pub open spec fn covers(domain: Text, name: Text) -> bool {
    let at = name.len() - domain.len();
    &&& at >= 0
    &&& name.skip(at) == domain
    &&& at > 0 ==> name[at - 1] == '.'
}

/// Whether a name contains a text.
pub open spec fn contains_text(name: Text, part: Text) -> bool {
    exists|i: int| 0 <= i <= name.len() && text::starts_with(#[trigger] name.skip(i), part)
}

/// Whether a rule applies to a name.
pub open spec fn rule_matches(rule: Text, name: Text) -> bool {
    match rules::parsed(rule, DynamicDomainRuleKind::Domain) {
        Some((DynamicDomainRuleKind::Full, body)) => name == body,
        Some((DynamicDomainRuleKind::Domain, body)) => covers(body, name),
        Some((DynamicDomainRuleKind::Keyword, body)) => contains_text(name, body),
        Some((DynamicDomainRuleKind::Regexp, body)) => patterns::pattern_matches(body, name),
        None => false,
    }
}

/// Whether one of the rules applies to a name.
pub open spec fn any_match(list: Seq<Text>, name: Text) -> bool {
    exists|i: int| 0 <= i < list.len() && rule_matches(#[trigger] list[i], name)
}

/// The bodies of the canonical rules of one kind, in order.
pub open spec fn bodies(list: Seq<Text>, kind: DynamicDomainRuleKind) -> Seq<Text>
    decreases list.len(),
{
    if list.len() == 0 {
        Seq::empty()
    } else if text::starts_with(list.last(), kind.prefix()) {
        bodies(list.drop_last(), kind).push(list.last().skip(kind.prefix().len() as int))
    } else {
        bodies(list.drop_last(), kind)
    }
}

/// Why canonical rules were not compiled: there are more regular expressions among
/// them than fit in a set, or the `regex` crate refused these.
pub open spec fn uncompiled(list: Seq<Text>, message: Text) -> bool {
    let expressions = bodies(list, DynamicDomainRuleKind::Regexp);
    if expressions.len() > PATTERN_LIMIT {
        message == "too many regexp rules"@
    } else {
        patterns::refuses(expressions, message)
    }
}

/// Rules in the form in which names are looked up.
pub struct DomainRuleMatcher {
    full: StringHashSet,
    domain: StringHashSet,
    keyword: Vec<String>,
    regexp: Vec<String>,
    compiled: Option<regex::RegexSet>,
    added: Ghost<Seq<Text>>,
}

impl View for DomainRuleMatcher {
    type V = Seq<Text>;

    /// The canonical text of the rules that were added, in order.
    closed spec fn view(&self) -> Seq<Text> {
        self.added@
    }
}

impl DomainRuleMatcher {
    /// The lookup structures hold the bodies of the rules that were added.
    pub closed spec fn wf(&self) -> bool {
        &&& storage::all_canonical(self.added@)
        &&& self.full@ == bodies(self.added@, DynamicDomainRuleKind::Full).to_set()
        &&& self.domain@ == bodies(self.added@, DynamicDomainRuleKind::Domain).to_set()
        &&& text::texts(self.keyword@) == bodies(self.added@, DynamicDomainRuleKind::Keyword)
        &&& text::texts(self.regexp@) == bodies(self.added@, DynamicDomainRuleKind::Regexp)
    }

    /// The rules that were added are in canonical text.
    pub proof fn lemma_wf(&self)
        requires
            self.wf(),
        ensures
            storage::all_canonical(self@),
    {
    }

    /// The regular expressions have been compiled since the last was added.
    pub closed spec fn ready(&self) -> bool {
        match self.compiled {
            Some(set) => patterns::set_patterns(set) == text::texts(self.regexp@),
            None => self.regexp@.len() == 0,
        }
    }

    /// The matcher without rules.
    pub fn new() -> (res: DomainRuleMatcher)
        ensures
            res.wf(),
            res.ready(),
            res@ == Seq::<Text>::empty(),
    {
        let res = DomainRuleMatcher {
            full: StringHashSet::new(),
            domain: StringHashSet::new(),
            keyword: Vec::new(),
            regexp: Vec::new(),
            compiled: None,
            added: Ghost(Seq::empty()),
        };
        assert(text::texts(res.regexp@) =~= Seq::empty());
        assert(text::texts(res.keyword@) =~= Seq::empty());
        assert(Seq::<Text>::empty().to_set() =~= Set::empty());
        res
    }

    /// Adds a rule. A rule without a kind is a `domain:` rule.
    ///
    /// `source` says in the error message where the rule came from.
    pub fn add_expression(&mut self, raw: &str, source: &str) -> (res: Result<(), String>)
        requires
            old(self).wf(),
        ensures
            final(self).wf(),
            match rules::canonical(raw@, DynamicDomainRuleKind::Domain) {
                Some(rule) => res is Ok && final(self)@ == old(self)@.push(rule),
                None => {
                    &&& res matches Err(message)
                    &&& message@ == rules::invalid_rule_message(source@, raw@)
                    &&& final(self)@ == old(self)@
                },
            },
    {
        let expression = match parse_rule(raw, DynamicDomainRuleKind::Domain) {
            Some(expression) => expression,
            None => return Err(invalid_rule(source, raw)),
        };
        let kind = expression.kind;
        let body = expression.body;
        let ghost before = self.added@;
        let ghost rule = kind.prefix() + body@;
        let ghost old_keyword = text::texts(self.keyword@);
        let ghost old_regexp = text::texts(self.regexp@);
        match kind {
            DynamicDomainRuleKind::Full => {
                self.full.insert(body);
            },
            DynamicDomainRuleKind::Domain => {
                self.domain.insert(body);
            },
            DynamicDomainRuleKind::Keyword => {
                self.keyword.push(body);
            },
            DynamicDomainRuleKind::Regexp => {
                self.regexp.push(body);
            },
        }
        self.added = Ghost(before.push(rule));
        proof {
            rules::law_canonical_is_stable(
                raw@,
                DynamicDomainRuleKind::Domain,
                DynamicDomainRuleKind::Domain,
            );
            assert(storage::all_canonical(self.added@));
            lemma_bodies_push(before, kind, body@);
            if kind is Keyword {
                assert(text::texts(self.keyword@) =~= old_keyword.push(body@));
            }
            if kind is Regexp {
                assert(text::texts(self.regexp@) =~= old_regexp.push(body@));
            }
            state::lemma_push_set(bodies(before, kind), body@);
        }
        Ok(())
    }

    /// Compiles the regular expressions that were added. Until then a rule that
    /// is one does not take part in matching.
    ///
    /// Without regular expressions this cannot fail.
    pub fn finalize(&mut self) -> (res: Result<(), String>)
        requires
            old(self).wf(),
        ensures
            final(self).wf(),
            final(self)@ == old(self)@,
            res is Ok ==> final(self).ready(),
            res is Ok ==> forall|i: int|
                0 <= i < bodies(old(self)@, DynamicDomainRuleKind::Regexp).len()
                    ==> patterns::valid_pattern(
                    #[trigger] bodies(old(self)@, DynamicDomainRuleKind::Regexp)[i],
                ),
            bodies(old(self)@, DynamicDomainRuleKind::Regexp).len() == 0 ==> res is Ok,
            bodies(old(self)@, DynamicDomainRuleKind::Regexp).len() > PATTERN_LIMIT ==> (res matches Err(
                message,
            ) && message@ == "too many regexp rules"@),
            res matches Err(message) ==> uncompiled(old(self)@, message@),
    {
        if self.regexp.len() == 0 {
            self.compiled = None;
            return Ok(());
        }
        if self.regexp.len() > PATTERN_LIMIT {
            return Err("too many regexp rules".to_owned());
        }
        let compiled = compile_set(&self.regexp);
        proof {
            let list = bodies(self@, DynamicDomainRuleKind::Regexp);
            if compiled is Ok {
                assert forall|i: int| 0 <= i < list.len() implies patterns::valid_pattern(
                    #[trigger] list[i],
                ) by {
                    assert(list[i] == self.regexp@[i]@);
                }
            }
        }
        let ghost asked = self.regexp;
        let ghost given = compiled;
        let res = self.finish(compiled);
        proof {
            if res is Err {
                patterns::lemma_refuses(&asked, given->Err_0, res->Err_0);
            }
        }
        res
    }

    /// Takes over the compiled form of the regular expressions that were added,
    /// or says why there is none.
    pub fn finish(&mut self, compiled: Result<regex::RegexSet, regex::Error>) -> (res: Result<
        (),
        String,
    >)
        requires
            old(self).wf(),
            compiled matches Ok(set) ==> patterns::set_patterns(set) == bodies(
                old(self)@,
                DynamicDomainRuleKind::Regexp,
            ),
        ensures
            final(self).wf(),
            final(self)@ == old(self)@,
            match compiled {
                Ok(_) => res is Ok && final(self).ready(),
                Err(err) => {
                    &&& res matches Err(message)
                    &&& vstd::string::to_string_from_display_ensures(&err, message)
                    &&& final(self).ready() == old(self).ready()
                },
            },
    {
        match compiled {
            Ok(set) => {
                self.compiled = Some(set);
                Ok(())
            },
            Err(err) => Err(err.to_string()),
        }
    }

    /// Tests whether one of the rules applies to a name.
    pub fn is_match_name(&self, name: &Name) -> (res: bool)
        requires
            self.wf(),
            self.ready(),
        ensures
            res == any_match(self@, name@),
    {
        proof {
            lemma_any_match(self@, name@);
        }
        if self.full.contains(name.as_str()) {
            return true;
        }
        let chars = chars_of(name.as_str());
        if self.domain_matches(&chars) || self.keyword_matches(&chars) {
            return true;
        }
        match &self.compiled {
            Some(set) => set_matches(set, name.as_str()),
            None => false,
        }
    }

    /// Looks for a domain that covers the name.
    fn domain_matches(&self, name: &Vec<char>) -> (res: bool)
        requires
            self.wf(),
        ensures
            res == some_covers(bodies(self@, DynamicDomainRuleKind::Domain), name@),
    {
        let ghost list = bodies(self@, DynamicDomainRuleKind::Domain);
        let n: usize = name.len();
        let mut i: usize = 0;
        loop
            invariant
                self.wf(),
                list == bodies(self@, DynamicDomainRuleKind::Domain),
                i <= n == name@.len(),
                forall|k: int|
                    0 <= k < i && (k == 0 || name@[k - 1] == '.') ==> !list.contains(
                        #[trigger] name@.skip(k),
                    ),
            ensures
                forall|k: int|
                    0 <= k <= n && (k == 0 || name@[k - 1] == '.') ==> !list.contains(
                        #[trigger] name@.skip(k),
                    ),
            decreases n - i,
        {
            if i == 0 || name[i - 1] == '.' {
                let suffix = string_of(name, i, n);
                assert(suffix@ =~= name@.skip(i as int));
                if self.domain.contains(suffix.as_str()) {
                    proof {
                        assert(list.contains(suffix@));
                        let j = choose|j: int| 0 <= j < list.len() && list[j] == suffix@;
                        assert(name@.len() - suffix@.len() == i);
                        assert(covers(list[j], name@));
                    }
                    return true;
                }
            }
            if i == n {
                break;
            }
            i += 1;
        }
        proof {
            if some_covers(list, name@) {
                let j = choose|j: int| 0 <= j < list.len() && covers(#[trigger] list[j], name@);
                let at = name@.len() - list[j].len();
                assert(list.contains(name@.skip(at)));
            }
        }
        false
    }

    /// Looks for a keyword in the name.
    fn keyword_matches(&self, name: &Vec<char>) -> (res: bool)
        requires
            self.wf(),
        ensures
            res == some_contained(bodies(self@, DynamicDomainRuleKind::Keyword), name@),
    {
        let ghost list = bodies(self@, DynamicDomainRuleKind::Keyword);
        let mut j: usize = 0;
        while j < self.keyword.len()
            invariant
                j <= self.keyword@.len(),
                list == text::texts(self.keyword@),
                list == bodies(self@, DynamicDomainRuleKind::Keyword),
                forall|k: int| 0 <= k < j ==> !contains_text(name@, #[trigger] list[k]),
            decreases self.keyword@.len() - j,
        {
            let keyword = chars_of(self.keyword[j].as_str());
            assert(list[j as int] == keyword@);
            if text_in(name, &keyword) {
                return true;
            }
            j += 1;
        }
        false
    }

    /// Number of distinct `full:` rules.
    pub fn full_rule_count(&self) -> (res: usize)
        requires
            self.wf(),
        ensures
            res == bodies(self@, DynamicDomainRuleKind::Full).to_set().len(),
    {
        self.full.len()
    }

    /// Number of distinct `domain:` rules.
    pub fn trie_rule_count(&self) -> (res: usize)
        requires
            self.wf(),
        ensures
            res == bodies(self@, DynamicDomainRuleKind::Domain).to_set().len(),
    {
        self.domain.len()
    }

    /// Number of `keyword:` rules.
    pub fn keyword_rule_count(&self) -> (res: usize)
        requires
            self.wf(),
        ensures
            res == bodies(self@, DynamicDomainRuleKind::Keyword).len(),
    {
        self.keyword.len()
    }

    /// Number of `regexp:` rules.
    pub fn regexp_rule_count(&self) -> (res: usize)
        requires
            self.wf(),
        ensures
            res == bodies(self@, DynamicDomainRuleKind::Regexp).len(),
    {
        self.regexp.len()
    }
}

/// Whether one of the domains covers a name.
pub open spec fn some_covers(domains: Seq<Text>, name: Text) -> bool {
    exists|i: int| 0 <= i < domains.len() && covers(#[trigger] domains[i], name)
}

/// Whether one of the keywords occurs in a name.
pub open spec fn some_contained(keywords: Seq<Text>, name: Text) -> bool {
    exists|i: int| 0 <= i < keywords.len() && contains_text(name, #[trigger] keywords[i])
}

/// Whether one of the regular expressions matches a name.
pub open spec fn some_pattern(list: Seq<Text>, name: Text) -> bool {
    exists|i: int| 0 <= i < list.len() && patterns::pattern_matches(#[trigger] list[i], name)
}

/// Looks for one text in another.
fn text_in(name: &Vec<char>, part: &Vec<char>) -> (res: bool)
    ensures
        res == contains_text(name@, part@),
{
    let n: usize = name.len();
    let mut i: usize = 0;
    loop
        invariant
            i <= n == name@.len(),
            forall|k: int| 0 <= k < i ==> !text::starts_with(#[trigger] name@.skip(k), part@),
        ensures
            forall|k: int| 0 <= k <= n ==> !text::starts_with(#[trigger] name@.skip(k), part@),
        decreases n - i,
    {
        assert(name@.subrange(i as int, n as int) =~= name@.skip(i as int));
        if has_prefix(name, i, n, part) {
            return true;
        }
        if i == n {
            break;
        }
        i += 1;
    }
    false
}

/// A rule adds its body to the bodies of its kind, and to no others.
pub proof fn lemma_bodies_push(list: Seq<Text>, kind: DynamicDomainRuleKind, body: Text)
    ensures
        forall|k: DynamicDomainRuleKind| #[trigger]
            bodies(list.push(kind.prefix() + body), k) == if k == kind {
                bodies(list, k).push(body)
            } else {
                bodies(list, k)
            },
{
    let rule = kind.prefix() + body;
    assert(list.push(rule).drop_last() =~= list);
    assert(list.push(rule).last() == rule);
    assert(rule.skip(kind.prefix().len() as int) =~= body);
    assert forall|k: DynamicDomainRuleKind|
        text::starts_with(rule, #[trigger] k.prefix()) <==> k == kind by {
        if k == kind {
            assert(rule.take(k.prefix().len() as int) =~= k.prefix());
        } else if text::starts_with(rule, k.prefix()) {
            assert(rule.take(k.prefix().len() as int)[0] == rule[0]);
        }
    }
}

/// A canonical rule is a kind followed by a body.
pub proof fn lemma_canonical_parts(rule: Text)
    requires
        rules::is_canonical(rule),
    ensures
        rules::parsed(rule, DynamicDomainRuleKind::Domain) matches Some((kind, body)) && rule
            == kind.prefix() + body,
{
}

/// A name is matched by the rules of one of the kinds.
pub proof fn lemma_any_match(list: Seq<Text>, name: Text)
    requires
        storage::all_canonical(list),
    ensures
        any_match(list, name) <==> bodies(list, DynamicDomainRuleKind::Full).contains(name)
            || some_covers(bodies(list, DynamicDomainRuleKind::Domain), name)
            || some_contained(bodies(list, DynamicDomainRuleKind::Keyword), name)
            || some_pattern(bodies(list, DynamicDomainRuleKind::Regexp), name),
    decreases list.len(),
{
    if list.len() > 0 {
        let front = list.drop_last();
        let rule = list.last();
        assert forall|i: int| 0 <= i < front.len() implies rules::is_canonical(#[trigger] front[i]) by {
            assert(front[i] == list[i]);
        }
        lemma_any_match(front, name);
        assert(rules::is_canonical(list[list.len() - 1]));
        lemma_canonical_parts(rule);
        let (kind, body) = rules::parsed(rule, DynamicDomainRuleKind::Domain)->0;
        assert(list =~= front.push(kind.prefix() + body));
        lemma_bodies_push(front, kind, body);
        assert(any_match(list, name) <==> any_match(front, name) || rule_matches(rule, name)) by {
            if any_match(list, name) {
                let i = choose|i: int| 0 <= i < list.len() && rule_matches(#[trigger] list[i], name);
                if i < front.len() {
                    assert(rule_matches(front[i], name));
                }
            }
            if any_match(front, name) {
                let i = choose|i: int|
                    0 <= i < front.len() && rule_matches(#[trigger] front[i], name);
                assert(rule_matches(list[i], name));
            }
            if rule_matches(rule, name) {
                assert(rule_matches(list[list.len() - 1], name));
            }
        }
        let old = bodies(front, kind);
        let new = old.push(body);
        assert forall|p: spec_fn(Text) -> bool| #[trigger] exists_in(new, p) <==> exists_in(old, p)
            || p(body) by {
            if exists_in(new, p) {
                let i = choose|i: int| 0 <= i < new.len() && p(#[trigger] new[i]);
                if i < old.len() {
                    assert(p(old[i]));
                }
            }
            if exists_in(old, p) {
                let i = choose|i: int| 0 <= i < old.len() && p(#[trigger] old[i]);
                assert(p(new[i]));
            }
            assert(new[old.len() as int] == body);
        }
        match kind {
            DynamicDomainRuleKind::Full => {
                state::lemma_push_contains(old, body, name);
            },
            DynamicDomainRuleKind::Domain => {
                let p = |d: Text| covers(d, name);
                assert(exists_in(new, p) <==> exists_in(old, p) || p(body));
                assert(exists_in(new, p) == some_covers(new, name)) by {
                    if some_covers(new, name) {
                        let i = choose|i: int| 0 <= i < new.len() && covers(#[trigger] new[i], name);
                        assert(p(new[i]));
                    }
                }
                assert(exists_in(old, p) == some_covers(old, name)) by {
                    if some_covers(old, name) {
                        let i = choose|i: int| 0 <= i < old.len() && covers(#[trigger] old[i], name);
                        assert(p(old[i]));
                    }
                }
            },
            DynamicDomainRuleKind::Keyword => {
                let p = |d: Text| contains_text(name, d);
                assert(exists_in(new, p) <==> exists_in(old, p) || p(body));
                assert(exists_in(new, p) == some_contained(new, name)) by {
                    if some_contained(new, name) {
                        let i = choose|i: int|
                            0 <= i < new.len() && contains_text(name, #[trigger] new[i]);
                        assert(p(new[i]));
                    }
                }
                assert(exists_in(old, p) == some_contained(old, name)) by {
                    if some_contained(old, name) {
                        let i = choose|i: int|
                            0 <= i < old.len() && contains_text(name, #[trigger] old[i]);
                        assert(p(old[i]));
                    }
                }
            },
            DynamicDomainRuleKind::Regexp => {
                let p = |d: Text| patterns::pattern_matches(d, name);
                assert(exists_in(new, p) <==> exists_in(old, p) || p(body));
                assert(exists_in(new, p) == some_pattern(new, name)) by {
                    if some_pattern(new, name) {
                        let i = choose|i: int|
                            0 <= i < new.len() && patterns::pattern_matches(#[trigger] new[i], name);
                        assert(p(new[i]));
                    }
                }
                assert(exists_in(old, p) == some_pattern(old, name)) by {
                    if some_pattern(old, name) {
                        let i = choose|i: int|
                            0 <= i < old.len() && patterns::pattern_matches(#[trigger] old[i], name);
                        assert(p(old[i]));
                    }
                }
            },
        }
    }
}

/// Whether something holds of one of the texts.
spec fn exists_in(list: Seq<Text>, p: spec_fn(Text) -> bool) -> bool {
    exists|i: int| 0 <= i < list.len() && p(#[trigger] list[i])
}

} // verus!
