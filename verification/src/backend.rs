//! The domain set itself: the rule list, the compiled snapshot, and the rules
//! by which requests change them.
//!
//! The file and the request queue lie outside. A method that depends on what
//! came of using them takes that outcome as an argument.
use crate::error::{DnsError, ErrorView};
use crate::listing;
use crate::listing::RulesListResponse;
use crate::matcher;
use crate::name::{Name, Question};
use crate::rules;
use crate::rules::{canonicalize_rules, DynamicDomainMutation, DynamicDomainRuleKind};
use crate::snapshot;
use crate::snapshot::{build_snapshot, DynamicDomainSetSnapshot};
use crate::state;
use crate::state::{copied, RuleState};
use crate::storage;
use crate::storage::{is_finished, parse_rule_file, render_rule_file};
use crate::text;
use crate::text::Text;
use std::sync::Arc;
use vstd::prelude::*;

verus! {

/// Settings of a domain set.
pub struct DynamicDomainSetConfig {
    /// The rule file.
    pub path: String,
    /// Rules of a rule file that does not exist yet.
    pub bootstrap_rules: Vec<String>,
    /// Number of requests that may wait for the worker.
    pub queue_size: usize,
    /// Number of appended rules that are written at once.
    pub batch_size: usize,
    /// Longest time that appended rules wait to be written.
    pub flush_interval_ms: u64,
}

/// Rules accepted into memory but not necessarily written to the file yet.
pub struct StagedRules {
    pub mutation: DynamicDomainMutation,
    pub rules: Vec<String>,
}

/// A file that has to be rewritten, and the answer to give once it is.
pub struct Rewrite {
    /// The rules that the file is to list.
    pub rules: Vec<String>,
    pub mutation: DynamicDomainMutation,
}

/// Shared backend for the provider instance.
pub struct DynamicDomainSetBackend {
    tag: String,
    config: DynamicDomainSetConfig,
    /// Canonical source of truth for ordered rules and duplicate checks.
    state: RuleState,
    /// Read side for lookups.
    snapshot: Arc<DynamicDomainSetSnapshot>,
    /// Whether there is a worker to send requests to.
    started: bool,
    /// Whether the last line of the rule file is unfinished.
    open_line: bool,
}

/// What a backend holds.
pub struct BackendView {
    pub tag: Text,
    pub config: DynamicDomainSetConfig,
    /// The rule list.
    pub rules: Seq<Text>,
    /// The rules that lookups go by.
    pub compiled: Seq<Text>,
    pub started: bool,
    /// Whether the last line of the rule file is unfinished, as far as it has
    /// been read and written here.
    pub open_line: bool,
}

impl View for DynamicDomainSetBackend {
    type V = BackendView;

    closed spec fn view(&self) -> BackendView {
        BackendView {
            tag: self.tag@,
            config: self.config,
            rules: self.state@,
            compiled: self.snapshot@,
            started: self.started,
            open_line: self.open_line,
        }
    }
}

/// A message about the domain set with the given tag.
pub open spec fn tagged(tag: Text, message: Text) -> Text {
    "dynamic_domain_set '"@ + tag + "' "@ + message
}

/// The mutation that only counts rules.
pub open spec fn counted(added: nat, removed: nat, total: nat) -> DynamicDomainMutation {
    DynamicDomainMutation {
        added: added as usize,
        removed: removed as usize,
        total: total as usize,
    }
}

/// What reading the rule file may come to: its text, or why there is none.
pub open spec fn readable(contents: Result<String, DnsError>) -> Option<Seq<Text>> {
    match contents {
        Ok(text) => storage::file_rules(text@),
        Err(_) => None,
    }
}

/// What is known of the rule file once it has been read.
pub open spec fn seen(before: BackendView, contents: Result<String, DnsError>) -> BackendView {
    match contents {
        Ok(text) => BackendView { open_line: !storage::ends_line(text@), ..before },
        Err(_) => before,
    }
}

/// The error about a rule file that cannot be read, or that holds a line that
/// is not a rule.
pub open spec fn read_error(contents: Result<String, DnsError>, path: Text) -> ErrorView {
    match contents {
        Ok(text) => rules::invalid_entry(
            storage::rule_lines(text@),
            DynamicDomainRuleKind::Domain,
            path,
        ),
        Err(err) => err@,
    }
}

impl DynamicDomainSetBackend {
    /// The list names each rule once and in canonical text, and the snapshot is
    /// fully compiled.
    pub closed spec fn wf(&self) -> bool {
        &&& self.state.wf()
        &&& storage::all_canonical(self.state@)
        &&& self.snapshot.wf()
    }

    /// What is well formed lists each rule once and in canonical text, and lookups
    /// go by rules in canonical text.
    pub proof fn lemma_wf(&self)
        requires
            self.wf(),
        ensures
            self@.rules.no_duplicates(),
            storage::all_canonical(self@.rules),
            storage::all_canonical(self@.compiled),
    {
        self.state.lemma_wf();
        self.snapshot.lemma_wf();
    }

    /// A domain set without rules and without a worker.
    pub fn new(tag: String, config: DynamicDomainSetConfig) -> (res: DynamicDomainSetBackend)
        ensures
            res.wf(),
            res@ == (BackendView {
                tag: tag@,
                config,
                rules: Seq::empty(),
                compiled: Seq::empty(),
                started: false,
                open_line: false,
            }),
    {
        DynamicDomainSetBackend {
            tag,
            config,
            state: RuleState::new(),
            snapshot: Arc::new(DynamicDomainSetSnapshot::new()),
            started: false,
            open_line: false,
        }
    }

    pub fn tag(&self) -> (res: &str)
        ensures
            res@ == self@.tag,
    {
        self.tag.as_str()
    }

    pub fn config(&self) -> (res: &DynamicDomainSetConfig)
        ensures
            *res == self@.config,
    {
        &self.config
    }

    /// Whether the last line of the rule file is unfinished.
    pub fn open_line(&self) -> (res: bool)
        ensures
            res == self@.open_line,
    {
        self.open_line
    }

    /// Milliseconds between two flushes; at least one.
    pub fn flush_interval_ms(&self) -> (res: u64)
        ensures
            res == if self@.config.flush_interval_ms == 0 {
                1
            } else {
                self@.config.flush_interval_ms
            },
    {
        if self.config.flush_interval_ms == 0 {
            1
        } else {
            self.config.flush_interval_ms
        }
    }

    /// The compiled rules that lookups go by.
    pub fn snapshot(&self) -> (res: &Arc<DynamicDomainSetSnapshot>)
        requires
            self.wf(),
        ensures
            res.wf(),
            res@ == self@.compiled,
    {
        &self.snapshot
    }

    /// Tests whether one of the compiled rules applies to a name.
    pub fn contains_name(&self, name: &Name) -> (res: bool)
        requires
            self.wf(),
        ensures
            res == matcher::any_match(self@.compiled, name@),
    {
        self.snapshot.contains_name(name)
    }

    /// Tests whether one of the compiled rules applies to the name that is
    /// asked for.
    pub fn contains_question(&self, question: &Question) -> (res: bool)
        requires
            self.wf(),
        ensures
            res == matcher::any_match(self@.compiled, question@),
    {
        self.contains_name(question.name())
    }

    /// The page of at most `limit` rules that starts at `cursor`.
    pub fn list_rules(&self, cursor: usize, limit: usize) -> (res: RulesListResponse)
        requires
            self.wf(),
        ensures
            res.total == self@.rules.len(),
            text::texts(res.rules@) == listing::page(self@.rules, cursor as nat, limit as nat),
            match listing::next_page(self@.rules.len(), cursor as nat, limit as nat) {
                Some(next) => res.next_cursor matches Some(c) && c == next,
                None => res.next_cursor is None,
            },
    {
        self.state.list_rules(cursor, limit)
    }

    /// Publishes compiled rules.
    pub fn store_snapshot(&mut self, snapshot: DynamicDomainSetSnapshot)
        requires
            old(self).wf(),
            snapshot.wf(),
        ensures
            final(self).wf(),
            final(self)@ == (BackendView { compiled: snapshot@, ..old(self)@ }),
    {
        self.snapshot = Arc::new(snapshot);
    }

    /// Writes a message about this domain set.
    pub(crate) fn tagged_message(&self, message: &str) -> (res: String)
        ensures
            res@ == tagged(self@.tag, message@),
    {
        let mut res = "dynamic_domain_set '".to_owned();
        res.append(self.tag.as_str());
        res.append("' ");
        res.append(message);
        res
    }

    /// Says whether there is a worker to send requests to.
    pub fn sender(&self) -> (res: Result<(), DnsError>)
        ensures
            if self@.started {
                res is Ok
            } else {
                res matches Err(err) && err@ == ErrorView::Plugin(
                    tagged(self@.tag, "worker is not initialized"@),
                )
            },
    {
        if self.started {
            Ok(())
        } else {
            Err(DnsError::plugin(self.tagged_message("worker is not initialized")))
        }
    }

    /// The text to write to the rule file before it is read for the first time:
    /// the bootstrap rules, if the file does not exist yet.
    pub fn bootstrap_file_if_needed(&self, exists: bool) -> (res: Result<Option<String>, DnsError>)
        ensures
            exists ==> res == Ok::<Option<String>, DnsError>(None),
            !exists ==> match rules::canonical_all(
                text::texts(self@.config.bootstrap_rules@),
                DynamicDomainRuleKind::Domain,
            ) {
                Some(list) => {
                    &&& res matches Ok(Some(contents))
                    &&& contents@ == storage::rendered(list)
                },
                None => res matches Err(err) && err@ == rules::invalid_entry(
                    text::texts(self@.config.bootstrap_rules@),
                    DynamicDomainRuleKind::Domain,
                    "bootstrap_rules"@,
                ),
            },
    {
        if exists {
            return Ok(None);
        }
        let raw = copied(&self.config.bootstrap_rules);
        match canonicalize_rules(raw, DynamicDomainRuleKind::Domain, "bootstrap_rules") {
            Ok(list) => Ok(Some(render_rule_file(&list))),
            Err(err) => Err(err),
        }
    }

    /// Makes the given rules the rule list and the compiled rules. If they do
    /// not compile nothing changes.
    fn install_rules(&mut self, rules: Vec<String>) -> (res: Result<DynamicDomainMutation, DnsError>)
        requires
            old(self).wf(),
            text::texts(rules@).no_duplicates(),
            storage::all_canonical(text::texts(rules@)),
        ensures
            final(self).wf(),
            match res {
                Ok(mutation) => {
                    &&& mutation == counted(0, 0, rules@.len())
                    &&& snapshot::all_patterns_valid(text::texts(rules@))
                    &&& final(self)@ == BackendView {
                        rules: text::texts(rules@),
                        compiled: text::texts(rules@),
                        ..old(self)@
                    }
                },
                Err(err) => {
                    &&& err@ is Plugin
                    &&& has_regexp(text::texts(rules@))
                    &&& matcher::uncompiled(text::texts(rules@), err@.message())
                    &&& final(self)@ == old(self)@
                },
            },
    {
        proof {
            lemma_canonical_list(text::texts(rules@));
        }
        let compiled = build_snapshot(rules.as_slice());
        self.install_compiled(rules, compiled)
    }

    /// Makes the given rules the rule list and the compiled rules, given what
    /// compiling them came to.
    pub fn install_compiled(
        &mut self,
        rules: Vec<String>,
        compiled: Result<DynamicDomainSetSnapshot, DnsError>,
    ) -> (res: Result<DynamicDomainMutation, DnsError>)
        requires
            old(self).wf(),
            text::texts(rules@).no_duplicates(),
            storage::all_canonical(text::texts(rules@)),
            compiled matches Ok(snapshot) ==> snapshot.wf(),
        ensures
            final(self).wf(),
            match compiled {
                Ok(snapshot) => {
                    &&& res == Ok::<DynamicDomainMutation, DnsError>(counted(0, 0, rules@.len()))
                    &&& final(self)@ == BackendView {
                        rules: text::texts(rules@),
                        compiled: snapshot@,
                        ..old(self)@
                    }
                },
                Err(err) => {
                    &&& res == Err::<DynamicDomainMutation, DnsError>(err)
                    &&& final(self)@ == old(self)@
                },
            },
    {
        match compiled {
            Ok(snapshot) => {
                let total: usize = rules.len();
                self.state.replace(rules);
                self.store_snapshot(snapshot);
                Ok(DynamicDomainMutation { added: 0, removed: 0, total })
            },
            Err(err) => Err(err),
        }
    }

    /// Takes over the rules of the rule file, given what reading it came to.
    /// On an error rules and lookups stay what they are.
    pub fn reload_from_file(&mut self, contents: Result<String, DnsError>) -> (res: Result<
        DynamicDomainMutation,
        DnsError,
    >)
        requires
            old(self).wf(),
        ensures
            final(self).wf(),
            reload_came_to(old(self)@, contents, res, final(self)@),
    {
        let contents = match contents {
            Ok(contents) => contents,
            Err(err) => return Err(err),
        };
        self.open_line = !is_finished(contents.as_str());
        match parse_rule_file(contents.as_str(), self.config.path.as_str()) {
            Ok(list) => {
                proof {
                    storage::law_file_rules_are_canonical(contents@);
                }
                self.install_rules(list)
            },
            Err(err) => Err(err),
        }
    }

    /// Takes over the rules of the rule file and from then on has a worker,
    /// given what reading the file came to. On an error rules and
    /// lookups stay what they are.
    pub fn start(&mut self, contents: Result<String, DnsError>) -> (res: Result<(), DnsError>)
        requires
            old(self).wf(),
        ensures
            final(self).wf(),
            match readable(contents) {
                None => {
                    &&& res matches Err(err)
                    &&& err@ == read_error(contents, old(self)@.config.path@)
                    &&& final(self)@ == seen(old(self)@, contents)
                },
                Some(list) => match res {
                    Ok(_) => {
                        &&& snapshot::all_patterns_valid(list)
                        &&& final(self)@ == BackendView {
                            rules: list,
                            compiled: list,
                            started: true,
                            ..seen(old(self)@, contents)
                        }
                    },
                    Err(err) => {
                        &&& err@ is Plugin
                        &&& has_regexp(list)
                        &&& matcher::uncompiled(list, err@.message())
                        &&& final(self)@ == seen(old(self)@, contents)
                    },
                },
            },
    {
        match self.reload_from_file(contents) {
            Ok(_) => {
                self.started = true;
                Ok(())
            },
            Err(err) => Err(err),
        }
    }

    /// Adds canonical rules that are not listed yet to the list.
    pub(crate) fn stage_new_rules(&mut self, rules: &Vec<String>) -> (staged: StagedRules)
        requires
            old(self).wf(),
            storage::all_canonical(text::texts(rules@)),
        ensures
            final(self).wf(),
            text::texts(staged.rules@) == state::fresh(
                old(self)@.rules.to_set(),
                text::texts(rules@),
            ),
            final(self)@ == (BackendView {
                rules: old(self)@.rules + text::texts(staged.rules@),
                ..old(self)@
            }),
            staged.mutation == counted(
                staged.rules@.len(),
                0,
                old(self)@.rules.len() + staged.rules@.len(),
            ),
    {
        let staged = self.state.stage(rules);
        proof {
            let before = old(self)@.rules;
            let new = text::texts(rules@);
            let added = text::texts(staged@);
            state::lemma_fresh(before.to_set(), new);
            assert forall|i: int| 0 <= i < self.state@.len() implies rules::is_canonical(
                #[trigger] self.state@[i],
            ) by {
                if i < before.len() {
                    assert(self.state@[i] == before[i]);
                } else {
                    assert(self.state@[i] == added[i - before.len()]);
                    assert(added.contains(added[i - before.len()]));
                    let k = choose|k: int| 0 <= k < new.len() && new[k] == self.state@[i];
                    assert(rules::is_canonical(new[k]));
                }
            }
        }
        StagedRules {
            mutation: DynamicDomainMutation {
                added: staged.len(),
                removed: 0,
                total: self.state.len(),
            },
            rules: staged,
        }
    }

    /// Takes rules off the list that were staged in vain.
    pub fn rollback_staged_rules(&mut self, rules: &Vec<String>)
        requires
            old(self).wf(),
        ensures
            final(self).wf(),
            final(self)@ == (BackendView {
                rules: state::without(old(self)@.rules, text::texts(rules@)),
                ..old(self)@
            }),
    {
        if rules.len() == 0 {
            proof {
                state::lemma_without_nothing(self@.rules, text::texts(rules@));
            }
            return;
        }
        self.discard(rules);
    }

    /// Takes rules off the list.
    fn discard(&mut self, rules: &Vec<String>)
        requires
            old(self).wf(),
        ensures
            final(self).wf(),
            final(self)@ == (BackendView {
                rules: state::without(old(self)@.rules, text::texts(rules@)),
                ..old(self)@
            }),
    {
        let ghost before = self@.rules;
        self.state.discard(rules);
        proof {
            let gone = text::texts(rules@);
            state::lemma_without(before, gone);
            assert forall|i: int| 0 <= i < self.state@.len() implies rules::is_canonical(
                #[trigger] self.state@[i],
            ) by {
                assert(state::without(before, gone).contains(self.state@[i]));
                let k = choose|k: int| 0 <= k < before.len() && before[k] == self.state@[i];
                assert(rules::is_canonical(before[k]));
            }
        }
    }

    /// Takes rules off the list and asks for the file to be rewritten, so that
    /// they cannot reappear when it is read again.
    pub fn remove_rules(&mut self, rules: &Vec<String>) -> (res: Rewrite)
        requires
            old(self).wf(),
        ensures
            final(self).wf(),
            final(self)@ == (BackendView {
                rules: state::without(old(self)@.rules, text::texts(rules@)),
                ..old(self)@
            }),
            text::texts(res.rules@) == final(self)@.rules,
            res.mutation == counted(
                0,
                (old(self)@.rules.len() - final(self)@.rules.len()) as nat,
                final(self)@.rules.len(),
            ),
    {
        proof {
            state::lemma_without(self@.rules, text::texts(rules@));
        }
        let before: usize = self.state.len();
        self.discard(rules);
        let total: usize = self.state.len();
        Rewrite {
            rules: self.state.rules(),
            mutation: DynamicDomainMutation { added: 0, removed: before - total, total },
        }
    }

    /// Takes every rule off the list and asks for the file to be rewritten.
    pub fn clear_rules(&mut self) -> (res: Rewrite)
        requires
            old(self).wf(),
        ensures
            final(self).wf(),
            final(self)@ == (BackendView { rules: Seq::empty(), ..old(self)@ }),
            text::texts(res.rules@) == Seq::<Text>::empty(),
            res.mutation == counted(0, old(self)@.rules.len(), 0),
    {
        let removed: usize = self.state.len();
        self.state.clear();
        let res = Rewrite {
            rules: Vec::new(),
            mutation: DynamicDomainMutation { added: 0, removed, total: 0 },
        };
        assert(text::texts(res.rules@) =~= Seq::empty());
        res
    }

    /// Compiles the given rules and publishes them. On an error nothing
    /// changes.
    pub fn rebuild_snapshot_from_rules(&mut self, rules: &Vec<String>) -> (res: Result<(), DnsError>)
        requires
            old(self).wf(),
        ensures
            final(self).wf(),
            rebuilt(old(self)@, final(self)@, text::texts(rules@), res),
    {
        self.publish(build_snapshot(rules.as_slice()))
    }

    /// Publishes rules, given what compiling them came to.
    pub fn publish(&mut self, compiled: Result<DynamicDomainSetSnapshot, DnsError>) -> (res: Result<
        (),
        DnsError,
    >)
        requires
            old(self).wf(),
            compiled matches Ok(snapshot) ==> snapshot.wf(),
        ensures
            final(self).wf(),
            match compiled {
                Ok(snapshot) => {
                    &&& res is Ok
                    &&& final(self)@ == BackendView { compiled: snapshot@, ..old(self)@ }
                },
                Err(err) => {
                    &&& res == Err::<(), DnsError>(err)
                    &&& final(self)@ == old(self)@
                },
            },
    {
        match compiled {
            Ok(snapshot) => {
                self.store_snapshot(snapshot);
                Ok(())
            },
            Err(err) => Err(err),
        }
    }

    /// Compiles the rule list. Returns the compiled rules and their number; they
    /// are not published yet.
    pub fn rebuild_snapshot_from_state(&self) -> (res: Result<
        (DynamicDomainSetSnapshot, usize),
        DnsError,
    >)
        requires
            self.wf(),
        ensures
            match res {
                Ok((compiled, total)) => {
                    &&& compiled.wf()
                    &&& compiled@ == self@.rules
                    &&& total == self@.rules.len()
                    &&& snapshot::all_patterns_valid(self@.rules)
                },
                Err(err) => {
                    &&& err@ is Plugin
                    &&& has_regexp(self@.rules)
                    &&& matcher::uncompiled(self@.rules, err@.message())
                },
            },
    {
        let rules = self.state.rules();
        proof {
            lemma_canonical_list(text::texts(rules@));
        }
        match build_snapshot(rules.as_slice()) {
            Ok(compiled) => Ok((compiled, rules.len())),
            Err(err) => Err(err),
        }
    }

    /// Publishes compiled rules once appended rules are in the file.
    pub fn publish_appended(&mut self, compiled: DynamicDomainSetSnapshot)
        requires
            old(self).wf(),
            compiled.wf(),
        ensures
            final(self).wf(),
            final(self)@ == (BackendView { compiled: compiled@, open_line: false, ..old(self)@ }),
    {
        self.open_line = false;
        self.store_snapshot(compiled);
    }

    /// Answers a request to rewrite the file, given what rewriting it came to.
    /// Lookups go by the new rules only if the file does.
    pub fn finish_rewrite(&mut self, rewrite: Rewrite, written: Result<(), DnsError>) -> (res: Result<
        DynamicDomainMutation,
        DnsError,
    >)
        requires
            old(self).wf(),
        ensures
            final(self).wf(),
            rewrite_came_to(old(self)@, rewrite, written, res, final(self)@),
    {
        match written {
            Ok(_) => {
                self.open_line = false;
                match self.rebuild_snapshot_from_rules(&rewrite.rules) {
                    Ok(_) => Ok(rewrite.mutation),
                    Err(err) => Err(err),
                }
            },
            Err(err) => Err(err),
        }
    }
}

/// What a reload may come to, given what reading the file came to: the rules of
/// the file are the list and what lookups go by; or an error says why the file
/// could not be taken over; or, if there are regular expressions among its rules,
/// an error is about these.
pub open spec fn reload_came_to(
    before: BackendView,
    contents: Result<String, DnsError>,
    res: Result<DynamicDomainMutation, DnsError>,
    after: BackendView,
) -> bool {
    match readable(contents) {
        None => {
            &&& res matches Err(err)
            &&& err@ == read_error(contents, before.config.path@)
            &&& after == seen(before, contents)
        },
        Some(list) => match res {
            Ok(mutation) => {
                &&& mutation == counted(0, 0, list.len())
                &&& snapshot::all_patterns_valid(list)
                &&& after == BackendView { rules: list, compiled: list, ..seen(before, contents) }
            },
            Err(err) => {
                &&& err@ is Plugin
                &&& has_regexp(list)
                &&& matcher::uncompiled(list, err@.message())
                &&& after == seen(before, contents)
            },
        },
    }
}

/// What a removal may come to, given what rewriting the file came to.
pub open spec fn rewrite_came_to(
    before: BackendView,
    rewrite: Rewrite,
    written: Result<(), DnsError>,
    res: Result<DynamicDomainMutation, DnsError>,
    after: BackendView,
) -> bool {
    let finished = BackendView { open_line: false, ..before };
    match written {
        Ok(_) => match res {
            Ok(mutation) => {
                &&& mutation == rewrite.mutation
                &&& rebuilt(finished, after, text::texts(rewrite.rules@), Ok(()))
            },
            Err(err) => rebuilt(finished, after, text::texts(rewrite.rules@), Err(err)),
        },
        Err(err) => res == Err::<DynamicDomainMutation, DnsError>(err) && after == before,
    }
}

/// What publishing the given rules may come to: an error about the first text
/// that is not a rule, else their canonical texts are what lookups go by, or, if
/// there are regular expressions among them, an error about these. An error
/// changes nothing.
pub open spec fn rebuilt(
    before: BackendView,
    after: BackendView,
    raw: Seq<Text>,
    res: Result<(), DnsError>,
) -> bool {
    match rules::canonical_all(raw, DynamicDomainRuleKind::Domain) {
        None => {
            &&& res matches Err(err)
            &&& err@ == rules::invalid_entry(
                raw,
                DynamicDomainRuleKind::Domain,
                "dynamic_domain_set.rules"@,
            )
            &&& after == before
        },
        Some(list) => match res {
            Ok(_) => {
                &&& snapshot::all_patterns_valid(list)
                &&& after == BackendView { compiled: list, ..before }
            },
            Err(err) => {
                &&& err@ is Plugin
                &&& has_regexp(list)
                &&& matcher::uncompiled(list, err@.message())
                &&& after == before
            },
        },
    }
}

/// Whether there is a regular expression among canonical rules.
pub open spec fn has_regexp(list: Seq<Text>) -> bool {
    matcher::bodies(list, DynamicDomainRuleKind::Regexp).len() > 0
}

/// Canonical rules are their own canonical texts.
pub proof fn lemma_canonical_list(list: Seq<Text>)
    requires
        storage::all_canonical(list),
    ensures
        rules::canonical_all(list, DynamicDomainRuleKind::Domain) == Some(list),
{
    storage::lemma_rendered_rules(list);
}

} // verus!
