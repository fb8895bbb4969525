//! The immutable form of the rules that lookups read.
use crate::error::{DnsError, ErrorView};
use crate::matcher;
use crate::matcher::DomainRuleMatcher;
use crate::name::{Name, Question};
use crate::patterns;
use crate::rules;
use crate::rules::{entry_name, DynamicDomainRuleKind};
use crate::storage;
use crate::text;
use crate::text::Text;
use vstd::prelude::*;

verus! {

/// Immutable state published to matchers.
///
/// It is replaced as a whole, so readers always see a fully compiled matcher
/// and never a partially rebuilt one.
pub struct DynamicDomainSetSnapshot {
    matcher: DomainRuleMatcher,
}

impl View for DynamicDomainSetSnapshot {
    type V = Seq<Text>;

    /// The rules that the snapshot was compiled from.
    closed spec fn view(&self) -> Seq<Text> {
        self.matcher@
    }
}

impl DynamicDomainSetSnapshot {
    /// The matcher is fully compiled.
    pub closed spec fn wf(&self) -> bool {
        self.matcher.wf() && self.matcher.ready()
    }

    /// The rules that the snapshot was compiled from are in canonical text.
    pub proof fn lemma_wf(&self)
        requires
            self.wf(),
        ensures
            storage::all_canonical(self@),
    {
        self.matcher.lemma_wf();
    }

    /// The snapshot without rules.
    pub fn new() -> (res: DynamicDomainSetSnapshot)
        ensures
            res.wf(),
            res@ == Seq::<Text>::empty(),
    {
        DynamicDomainSetSnapshot { matcher: DomainRuleMatcher::new() }
    }

    /// The snapshot of a matcher, given what its compilation came to.
    pub fn from_matcher(matcher: DomainRuleMatcher, compiled: Result<(), String>) -> (res: Result<
        DynamicDomainSetSnapshot,
        DnsError,
    >)
        requires
            matcher.wf(),
            compiled is Ok ==> matcher.ready(),
        ensures
            match compiled {
                Ok(_) => res matches Ok(snapshot) && snapshot.wf() && snapshot@ == matcher@,
                Err(message) => res matches Err(err) && err@ == ErrorView::Plugin(message@),
            },
    {
        match compiled {
            Ok(_) => Ok(DynamicDomainSetSnapshot { matcher }),
            Err(message) => Err(DnsError::plugin(message)),
        }
    }

    /// Tests whether one of the rules applies to a name.
    pub fn contains_name(&self, name: &Name) -> (res: bool)
        requires
            self.wf(),
        ensures
            res == matcher::any_match(self@, name@),
    {
        self.matcher.is_match_name(name)
    }

    /// Tests whether one of the rules applies to the name that is asked for.
    pub fn contains_question(&self, question: &Question) -> (res: bool)
        requires
            self.wf(),
        ensures
            res == matcher::any_match(self@, question@),
    {
        self.contains_name(question.name())
    }

    /// The compiled rules.
    pub fn matcher(&self) -> (res: &DomainRuleMatcher)
        requires
            self.wf(),
        ensures
            res.wf(),
            res.ready(),
            res@ == self@,
    {
        &self.matcher
    }
}

/// Compiles rules, in order. The first text that is not a rule is reported with
/// its position.
///
/// Rules without a regular expression always compile.
pub fn build_snapshot(rules: &[String]) -> (res: Result<DynamicDomainSetSnapshot, DnsError>)
    ensures
        snapshot_of(text::texts(rules@), res),
{
    let ghost raw = text::texts(rules@);
    let ghost default_kind = DynamicDomainRuleKind::Domain;
    let mut matcher = DomainRuleMatcher::new();
    let mut i: usize = 0;
    while i < rules.len()
        invariant
            i <= rules@.len(),
            raw == text::texts(rules@),
            default_kind == DynamicDomainRuleKind::Domain,
            matcher.wf(),
            matcher@.len() == i,
            forall|k: int|
                0 <= k < i ==> rules::canonical(#[trigger] raw[k], default_kind) == Some(
                    matcher@[k],
                ),
        decreases rules@.len() - i,
    {
        let source = entry_name("dynamic_domain_set.rules", i);
        assert(raw[i as int] == rules@[i as int]@);
        match matcher.add_expression(rules[i].as_str(), source.as_str()) {
            Ok(_) => {},
            Err(message) => {
                proof {
                    rules::lemma_first_invalid(raw, default_kind, i as int);
                }
                return Err(DnsError::plugin(message));
            },
        }
        i += 1;
    }
    assert(matcher@ =~= raw.map_values(|r: Text| rules::canonical(r, default_kind)->0));
    let compiled = matcher.finalize();
    DynamicDomainSetSnapshot::from_matcher(matcher, compiled)
}

/// What compiling rules may come to: an error about the first text that is not
/// a rule, else a snapshot of their canonical texts, or, if there are regular
/// expressions among them, an error about these.
pub open spec fn snapshot_of(
    raw: Seq<Text>,
    res: Result<DynamicDomainSetSnapshot, DnsError>,
) -> bool {
    match rules::canonical_all(raw, DynamicDomainRuleKind::Domain) {
        None => res matches Err(err) && err@ == rules::invalid_entry(
            raw,
            DynamicDomainRuleKind::Domain,
            "dynamic_domain_set.rules"@,
        ),
        Some(list) => match res {
            Ok(snapshot) => snapshot.wf() && snapshot@ == list && all_patterns_valid(list),
            Err(err) => {
                &&& err@ is Plugin
                &&& matcher::bodies(list, DynamicDomainRuleKind::Regexp).len() > 0
                &&& matcher::uncompiled(list, err@.message())
            },
        },
    }
}

/// Whether the regular expressions among canonical rules are valid.
pub open spec fn all_patterns_valid(list: Seq<Text>) -> bool {
    forall|i: int|
        0 <= i < matcher::bodies(list, DynamicDomainRuleKind::Regexp).len()
            ==> patterns::valid_pattern(
            #[trigger] matcher::bodies(list, DynamicDomainRuleKind::Regexp)[i],
        )
}

} // verus!
