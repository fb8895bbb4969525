//! Requests to change the rules: what is done before a request goes to the
//! worker, and what the caller is told.
use crate::backend;
use crate::backend::{BackendView, DynamicDomainSetBackend, StagedRules};
use crate::error::{DnsError, ErrorView};
use crate::laws;
use crate::rules;
use crate::rules::{canonicalize_rules, DynamicDomainMutation, DynamicDomainRuleKind};
use crate::state;
use crate::text;
use crate::text::{joined, Text};
use vstd::prelude::*;

verus! {

/// How a request to append rules goes on.
pub enum AppendStep {
    /// There is nothing to wait for: this is the answer.
    Answered(Result<DynamicDomainMutation, DnsError>),
    /// These rules are to be sent to the worker.
    Enqueue(StagedRules),
}

/// What sending a request to the worker came to.
pub enum SendOutcome {
    Sent,
    /// The queue is closed, for the given reason.
    Closed(String),
    /// There was no room in the queue in time.
    TimedOut,
}

/// What waiting for the worker's answer came to.
pub enum ReplyOutcome {
    Answered(Result<DynamicDomainMutation, DnsError>),
    /// The worker went away without an answer.
    Dropped,
    /// There was no answer in time.
    TimedOut,
}

/// A request that replaces the contents of the rule file.
#[derive(Clone, Copy, Debug, PartialEq, Eq, Structural)]
pub enum Operation {
    Remove,
    Clear,
    Reload,
}

impl Operation {
    /// What the request is called in messages.
    pub open spec fn name(self) -> Text {
        match self {
            Operation::Remove => "remove"@,
            Operation::Clear => "clear"@,
            Operation::Reload => "reload"@,
        }
    }

    fn as_str(self) -> (res: &'static str)
        ensures
            res@ == self.name(),
    {
        match self {
            Operation::Remove => "remove",
            Operation::Clear => "clear",
            Operation::Reload => "reload",
        }
    }
}

/// How the worker's task ended.
pub enum WorkerExit {
    Finished,
    Cancelled,
    /// It failed, for the given reason.
    Failed(String),
}

/// An error about the domain set with the given tag.
pub open spec fn tagged_error(tag: Text, message: Text) -> ErrorView {
    ErrorView::Plugin(backend::tagged(tag, message))
}

/// The rules that a request to append adds to the list.
pub open spec fn appended(before: BackendView, list: Seq<Text>) -> Seq<Text> {
    state::fresh(before.rules.to_set(), list)
}

/// The answer to a request to append, if it is carried out.
pub open spec fn append_answer(before: BackendView, list: Seq<Text>) -> DynamicDomainMutation {
    let new = appended(before, list);
    backend::counted(new.len(), 0, before.rules.len() + new.len())
}

impl DynamicDomainSetBackend {
    /// Starts a request to append rules.
    ///
    /// New rules are listed before they go to the worker, so that repeated
    /// requests are deduplicated even while the worker waits. Without a worker
    /// they are taken off the list again.
    pub fn begin_append(
        &mut self,
        raw_rules: Vec<String>,
        default_kind: DynamicDomainRuleKind,
    ) -> (res: AppendStep)
        requires
            old(self).wf(),
        ensures
            final(self).wf(),
            match rules::canonical_all(text::texts(raw_rules@), default_kind) {
                None => {
                    &&& res matches AppendStep::Answered(Err(err))
                    &&& err@ == rules::invalid_entry(
                        text::texts(raw_rules@),
                        default_kind,
                        "append"@,
                    )
                    &&& final(self)@ == old(self)@
                },
                Some(list) => {
                    if appended(old(self)@, list).len() == 0 {
                        &&& res matches AppendStep::Answered(Ok(mutation))
                        &&& mutation == append_answer(old(self)@, list)
                        &&& final(self)@ == old(self)@
                    } else if !old(self)@.started {
                        &&& res matches AppendStep::Answered(Err(err))
                        &&& err@ == tagged_error(old(self)@.tag, "worker is not initialized"@)
                        &&& final(self)@ == old(self)@
                    } else {
                        &&& final(self)@ == BackendView {
                            rules: old(self)@.rules + appended(old(self)@, list),
                            ..old(self)@
                        }
                        &&& res matches AppendStep::Enqueue(staged)
                        &&& text::texts(staged.rules@) == appended(old(self)@, list)
                        &&& staged.mutation == append_answer(old(self)@, list)
                    }
                },
            },
    {
        let ghost raw = text::texts(raw_rules@);
        let list = match canonicalize_rules(raw_rules, default_kind, "append") {
            Ok(list) => list,
            Err(err) => return AppendStep::Answered(Err(err)),
        };
        proof {
            lemma_canonicalized(raw, default_kind);
        }
        let ghost before = self@;
        let staged = self.stage_new_rules(&list);
        assert(text::texts(staged.rules@).len() == staged.rules@.len());
        if staged.rules.len() == 0 {
            assert(before.rules + text::texts(staged.rules@) =~= before.rules);
            return AppendStep::Answered(Ok(staged.mutation));
        }
        match self.sender() {
            Ok(_) => AppendStep::Enqueue(staged),
            Err(err) => {
                self.rollback_staged_rules(&staged.rules);
                proof {
                    laws::law_refused_append_changes_nothing(before, text::texts(list@));
                }
                AppendStep::Answered(Err(err))
            },
        }
    }

    /// Answers a request to append that does not wait for the worker, given what
    /// sending it came to. If it was not sent its rules are taken off the list
    /// again, to keep the list and future duplicate checks honest.
    pub fn append_rules_async(&mut self, staged: StagedRules, sent: Result<(), String>) -> (res: Result<
        DynamicDomainMutation,
        DnsError,
    >)
        requires
            old(self).wf(),
        ensures
            final(self).wf(),
            match sent {
                Ok(_) => {
                    &&& res == Ok::<DynamicDomainMutation, DnsError>(staged.mutation)
                    &&& final(self)@ == old(self)@
                },
                Err(reason) => {
                    &&& res matches Err(err)
                    &&& err@ == tagged_error(
                        old(self)@.tag,
                        "append queue failed: "@ + reason@,
                    )
                    &&& final(self)@ == BackendView {
                        rules: state::without(old(self)@.rules, text::texts(staged.rules@)),
                        ..old(self)@
                    }
                },
            },
    {
        match sent {
            Ok(_) => Ok(staged.mutation),
            Err(reason) => {
                self.rollback_staged_rules(&staged.rules);
                Err(self.tagged_error(joined("append queue failed: ", reason.as_str()).as_str()))
            },
        }
    }

    /// Decides whether a request to append goes on to wait for the worker, given
    /// what sending it came to. If it was not sent its rules are taken off the
    /// list again.
    pub fn append_rules_sync(&mut self, staged: &StagedRules, sent: SendOutcome) -> (res: Result<
        (),
        DnsError,
    >)
        requires
            old(self).wf(),
        ensures
            final(self).wf(),
            match sent {
                SendOutcome::Sent => res is Ok && final(self)@ == old(self)@,
                SendOutcome::Closed(reason) => {
                    &&& res matches Err(err)
                    &&& err@ == tagged_error(
                        old(self)@.tag,
                        "append queue closed: "@ + reason@,
                    )
                    &&& final(self)@ == BackendView {
                        rules: state::without(old(self)@.rules, text::texts(staged.rules@)),
                        ..old(self)@
                    }
                },
                SendOutcome::TimedOut => {
                    &&& res matches Err(err)
                    &&& err@ == tagged_error(old(self)@.tag, "append timed out enqueueing work"@)
                    &&& final(self)@ == BackendView {
                        rules: state::without(old(self)@.rules, text::texts(staged.rules@)),
                        ..old(self)@
                    }
                },
            },
    {
        match sent {
            SendOutcome::Sent => Ok(()),
            SendOutcome::Closed(reason) => {
                self.rollback_staged_rules(&staged.rules);
                Err(self.tagged_error(joined("append queue closed: ", reason.as_str()).as_str()))
            },
            SendOutcome::TimedOut => {
                self.rollback_staged_rules(&staged.rules);
                Err(self.tagged_error("append timed out enqueueing work"))
            },
        }
    }

    /// Answers a request to append that was sent to the worker, given what
    /// waiting for it came to. The request stays with the worker in any case.
    pub fn append_reply(&self, reply: ReplyOutcome) -> (res: Result<DynamicDomainMutation, DnsError>)
        ensures
            match reply {
                ReplyOutcome::Answered(answer) => res == answer,
                ReplyOutcome::Dropped => res matches Err(err) && err@ == tagged_error(
                    self@.tag,
                    "append worker dropped reply"@,
                ),
                ReplyOutcome::TimedOut => res matches Err(err) && err@ == tagged_error(
                    self@.tag,
                    "append timed out waiting for flush"@,
                ),
            },
    {
        match reply {
            ReplyOutcome::Answered(answer) => answer,
            ReplyOutcome::Dropped => Err(self.tagged_error("append worker dropped reply")),
            ReplyOutcome::TimedOut => Err(self.tagged_error("append timed out waiting for flush")),
        }
    }

    /// Starts a request to remove rules: the rules to send to the worker.
    pub fn remove_rules_sync(
        &self,
        raw_rules: Vec<String>,
        default_kind: DynamicDomainRuleKind,
    ) -> (res: Result<Vec<String>, DnsError>)
        ensures
            match rules::canonical_all(text::texts(raw_rules@), default_kind) {
                None => res matches Err(err) && err@ == rules::invalid_entry(
                    text::texts(raw_rules@),
                    default_kind,
                    "remove"@,
                ),
                Some(list) => if self@.started {
                    res matches Ok(rules) && text::texts(rules@) == list
                } else {
                    res matches Err(err) && err@ == tagged_error(
                        self@.tag,
                        "worker is not initialized"@,
                    )
                },
            },
    {
        let list = match canonicalize_rules(raw_rules, default_kind, "remove") {
            Ok(list) => list,
            Err(err) => return Err(err),
        };
        match self.sender() {
            Ok(_) => Ok(list),
            Err(err) => Err(err),
        }
    }

    /// Decides whether a request goes on to wait for the worker, given what
    /// sending it came to.
    pub fn request_sent(&self, operation: Operation, sent: Result<(), String>) -> (res: Result<
        (),
        DnsError,
    >)
        ensures
            match sent {
                Ok(_) => res is Ok,
                Err(reason) => res matches Err(err) && err@ == tagged_error(
                    self@.tag,
                    operation.name() + " queue closed: "@ + reason@,
                ),
            },
    {
        match sent {
            Ok(_) => Ok(()),
            Err(reason) => {
                let mut message = joined(operation.as_str(), " queue closed: ");
                message.append(reason.as_str());
                Err(self.tagged_error(message.as_str()))
            },
        }
    }

    /// Answers a request that was sent to the worker: with the worker's answer,
    /// if there is one.
    pub fn request_reply(
        &self,
        operation: Operation,
        reply: Option<Result<DynamicDomainMutation, DnsError>>,
    ) -> (res: Result<DynamicDomainMutation, DnsError>)
        ensures
            match reply {
                Some(answer) => res == answer,
                None => res matches Err(err) && err@ == tagged_error(
                    self@.tag,
                    operation.name() + " worker dropped reply"@,
                ),
            },
    {
        match reply {
            Some(answer) => answer,
            None => {
                let message = joined(operation.as_str(), " worker dropped reply");
                Err(self.tagged_error(message.as_str()))
            },
        }
    }

    /// What shutting down comes to, given how the worker's task ended. No task
    /// is as good as one that finished. Without a worker to shut down it fails.
    pub fn shutdown(&self, exit: Option<WorkerExit>) -> (res: Result<(), DnsError>)
        ensures
            if !self@.started {
                res matches Err(err) && err@ == tagged_error(
                    self@.tag,
                    "worker is not initialized"@,
                )
            } else {
                match exit {
                    Some(WorkerExit::Failed(reason)) => res matches Err(err) && err@
                        == ErrorView::Runtime("dynamic_domain_set worker failed: "@ + reason@),
                    _ => res is Ok,
                }
            },
    {
        match self.sender() {
            Ok(_) => {},
            Err(err) => return Err(err),
        }
        match exit {
            Some(WorkerExit::Failed(reason)) => Err(
                DnsError::runtime(joined("dynamic_domain_set worker failed: ", reason.as_str())),
            ),
            _ => Ok(()),
        }
    }

    fn tagged_error(&self, message: &str) -> (res: DnsError)
        ensures
            res@ == tagged_error(self@.tag, message@),
    {
        DnsError::plugin(self.tagged_message(message))
    }
}

/// Canonical texts are canonical rules.
pub proof fn lemma_canonicalized(raw: Seq<Text>, default_kind: DynamicDomainRuleKind)
    requires
        rules::canonical_all(raw, default_kind) is Some,
    ensures
        crate::storage::all_canonical(rules::canonical_all(raw, default_kind)->0),
{
    let list = rules::canonical_all(raw, default_kind)->0;
    assert forall|i: int| 0 <= i < list.len() implies rules::is_canonical(#[trigger] list[i]) by {
        assert(rules::canonical(raw[i], default_kind) is Some);
        rules::law_canonical_is_stable(raw[i], default_kind, DynamicDomainRuleKind::Domain);
    }
}

} // verus!
