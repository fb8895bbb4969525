//! The worker through which all changes of the rule file go, one at a time.
//!
//! The worker decides; the task around it receives the commands, does what a
//! [`Step`] asks for, and hands back what came of it. The handle `W` stands for
//! a caller who waits for an answer.
use crate::backend;
use crate::backend::{BackendView, DynamicDomainSetBackend, Rewrite};
use crate::error::{DnsError, ErrorView};
use crate::matcher;
use crate::rules::DynamicDomainMutation;
use crate::snapshot;
use crate::snapshot::DynamicDomainSetSnapshot;
use crate::state;
use crate::storage;
use crate::storage::{render_append, render_rule_file};
use crate::text;
use crate::text::Text;
use vstd::prelude::*;

verus! {

/// A command to the worker.
///
/// Append can be fire-and-forget or wait for an answer. Remove, clear and reload
/// always wait, because they replace the authoritative file contents.
#[allow(inconsistent_fields)]
pub enum WorkerCommand<W> {
    Append { rules: Vec<String>, wait: Option<W> },
    Remove { rules: Vec<String>, wait: W },
    Clear { wait: W },
    Reload { wait: W },
    Shutdown { done: W },
}

/// What the worker wakes up for.
pub enum WorkerEvent<W> {
    /// The flush interval has passed.
    Tick,
    Command(WorkerCommand<W>),
    /// There are no more commands.
    Closed,
}

/// Append batch item kept in memory until it is written.
pub struct PendingAppend<W> {
    pub rules: Vec<String>,
    pub wait: Option<W>,
}

/// An answer for a caller who waits.
pub struct Reply<W> {
    pub wait: W,
    pub result: Result<DynamicDomainMutation, DnsError>,
}

/// What the worker does once the pending appends are written.
pub enum Next<W> {
    /// It waits for the next event.
    Continue,
    /// It ends; nobody waits for that.
    Stop,
    Shutdown { done: W },
    Remove { rules: Vec<String>, wait: W },
    Clear { wait: W },
    Reload { wait: W },
}

/// What the worker asks for.
pub enum Step<W> {
    /// The next event.
    Wait,
    /// That the text of the flush be appended to the rule file, and the outcome
    /// be given to [`Worker::appended`].
    Append { flush: Flush, next: Next<W> },
    /// That the text replace the rule file, and the outcome be given to
    /// [`Worker::rewritten`].
    Rewrite { contents: String, rewrite: Rewrite, wait: W },
    /// That the rule file be read, and the outcome be given to
    /// [`Worker::reloaded`].
    Read { wait: W },
    /// That the task end, and whoever waits for that be told.
    Stop { done: Option<W> },
}

/// Pending appends that are ready to be written: the rule list is compiled, so
/// nothing but the file can keep them from being carried out.
pub struct Flush {
    /// The text to append to the rule file.
    pub contents: String,
    /// The compiled rule list.
    pub snapshot: DynamicDomainSetSnapshot,
    /// Number of rules in it.
    pub total: usize,
}

impl Flush {
    /// The list is fully compiled and counted.
    pub open spec fn wf(&self) -> bool {
        self.snapshot.wf() && self.total == self.snapshot@.len()
    }
}

/// How far the worker has come.
pub struct Progress<W> {
    /// Answers for those who waited.
    pub replies: Vec<Reply<W>>,
    /// Why pending appends were not carried out, if they were not.
    pub failure: Option<String>,
    pub step: Step<W>,
}

/// The appends that are not written yet.
pub struct Worker<W> {
    pending: Vec<PendingAppend<W>>,
}

/// The rules of pending appends, in order.
pub open spec fn pending_rules<W>(pending: Seq<PendingAppend<W>>) -> Seq<Text>
    decreases pending.len(),
{
    if pending.len() == 0 {
        Seq::empty()
    } else {
        pending_rules(pending.drop_last()) + text::texts(pending.last().rules@)
    }
}

/// What became of pending appends: the rules that lookups go by then, or why
/// they were not carried out.
pub type FlushOutcome = Result<Seq<Text>, Text>;

/// An answer, with the error as a view.
pub struct ReplyView<W> {
    pub wait: W,
    pub result: Result<DynamicDomainMutation, ErrorView>,
}

impl<W> View for Reply<W> {
    type V = ReplyView<W>;

    open spec fn view(&self) -> ReplyView<W> {
        ReplyView {
            wait: self.wait,
            result: match self.result {
                Ok(mutation) => Ok(mutation),
                Err(err) => Err(err@),
            },
        }
    }
}

/// The contents of answers.
pub open spec fn reply_views<W>(replies: Seq<Reply<W>>) -> Seq<ReplyView<W>> {
    replies.map_values(|reply: Reply<W>| reply@)
}

/// The answer to one pending append.
pub open spec fn append_result(added: nat, outcome: FlushOutcome) -> Result<
    DynamicDomainMutation,
    ErrorView,
> {
    match outcome {
        Ok(compiled) => Ok(backend::counted(added, 0, compiled.len())),
        Err(message) => Err(ErrorView::Plugin(message)),
    }
}

/// The answers to pending appends, in order, for those who wait.
pub open spec fn append_replies<W>(
    pending: Seq<PendingAppend<W>>,
    outcome: FlushOutcome,
) -> Seq<ReplyView<W>>
    decreases pending.len(),
{
    if pending.len() == 0 {
        Seq::empty()
    } else {
        let before = append_replies(pending.drop_last(), outcome);
        match pending.last().wait {
            Some(wait) => before.push(
                ReplyView {
                    wait,
                    result: append_result(pending.last().rules@.len(), outcome),
                },
            ),
            None => before,
        }
    }
}

/// The list and the lookups after pending appends: once these are in the file
/// lookups go by the compiled rules. A failure takes their rules off the list
/// again, so that later requests can append them.
pub open spec fn flushed(
    before: BackendView,
    appended: Seq<Text>,
    outcome: FlushOutcome,
) -> BackendView {
    match outcome {
        Ok(compiled) => BackendView { compiled, open_line: false, ..before },
        Err(_) => BackendView { rules: state::without(before.rules, appended), ..before },
    }
}

/// The rules of pending appends, in order.
fn collect_rules<W>(pending: &Vec<PendingAppend<W>>) -> (res: Vec<String>)
    ensures
        text::texts(res@) == pending_rules(pending@),
{
    let mut res: Vec<String> = Vec::new();
    assert(text::texts(res@) =~= Seq::empty());
    let mut i: usize = 0;
    while i < pending.len()
        invariant
            i <= pending@.len(),
            text::texts(res@) == pending_rules(pending@.take(i as int)),
        decreases pending@.len() - i,
    {
        let ghost start = text::texts(res@);
        let item = &pending[i].rules;
        let mut j: usize = 0;
        assert(start + text::texts(item@).take(0) =~= start);
        while j < item.len()
            invariant
                j <= item@.len(),
                text::texts(res@) == start + text::texts(item@).take(j as int),
            decreases item@.len() - j,
        {
            let ghost before = text::texts(res@);
            res.push(item[j].clone());
            j += 1;
            assert(text::texts(res@) =~= before.push(item@[j - 1]@));
            assert(text::texts(item@).take(j as int) =~= text::texts(item@).take(j - 1).push(
                item@[j - 1]@,
            ));
            assert(text::texts(res@) =~= start + text::texts(item@).take(j as int));
        }
        assert(text::texts(item@).take(j as int) =~= text::texts(item@));
        i += 1;
        assert(pending@.take(i as int).drop_last() =~= pending@.take(i - 1));
    }
    assert(pending@.take(i as int) =~= pending@);
    res
}

/// Whether there are at least `limit` rules in pending appends.
fn is_full<W>(pending: &Vec<PendingAppend<W>>, limit: usize) -> (res: bool)
    ensures
        res == (pending_rules(pending@).len() >= limit),
{
    let mut count: usize = 0;
    let mut i: usize = 0;
    while i < pending.len()
        invariant
            i <= pending@.len(),
            pending_rules(pending@.take(i as int)).len() <= usize::MAX ==> count == pending_rules(
                pending@.take(i as int),
            ).len(),
            pending_rules(pending@.take(i as int)).len() > usize::MAX ==> count == usize::MAX,
        decreases pending@.len() - i,
    {
        let more: usize = pending[i].rules.len();
        count = if more <= usize::MAX - count {
            count + more
        } else {
            usize::MAX
        };
        i += 1;
        assert(pending@.take(i as int).drop_last() =~= pending@.take(i - 1));
    }
    assert(pending@.take(i as int) =~= pending@);
    count >= limit
}

/// Answers those who wait for pending appends.
fn answer_appends<W>(pending: Vec<PendingAppend<W>>, outcome: &Result<Flush, DnsError>) -> (res: Vec<
    Reply<W>,
>)
    requires
        outcome matches Ok(flush) ==> flush.wf(),
    ensures
        reply_views(res@) == append_replies(pending@, flush_outcome(*outcome)),
{
    let ghost result = flush_outcome(*outcome);
    let mut res: Vec<Reply<W>> = Vec::new();
    assert(reply_views(res@) =~= Seq::empty());
    for item in items: pending.into_iter()
        invariant
            items.seq() == pending@,
            result == flush_outcome(*outcome),
            outcome matches Ok(flush) ==> flush.wf(),
            reply_views(res@) == append_replies(pending@.take(items.index() as int), result),
    {
        let ghost before = res@;
        proof {
            let n = items.index() as int;
            assert(pending@.take(n + 1).drop_last() =~= pending@.take(n));
            assert(pending@.take(n + 1).last() == item);
        }
        if let Some(wait) = item.wait {
            let answer: Result<DynamicDomainMutation, DnsError> = match outcome {
                Ok(flush) => Ok(
                    DynamicDomainMutation {
                        added: item.rules.len(),
                        removed: 0,
                        total: flush.total,
                    },
                ),
                Err(err) => Err(DnsError::plugin(err.message())),
            };
            res.push(Reply { wait, result: answer });
            assert(reply_views(res@) =~= reply_views(before).push(res@.last()@));
        }
    }
    assert(pending@.take(pending@.len() as int) =~= pending@);
    res
}

/// An outcome with the compiled rules or the error message alone.
pub open spec fn flush_outcome(outcome: Result<Flush, DnsError>) -> FlushOutcome {
    match outcome {
        Ok(flush) => Ok(flush.snapshot@),
        Err(err) => Err(err@.message()),
    }
}

impl DynamicDomainSetBackend {
    /// Makes pending appends ready to be written.
    ///
    /// The rule list, which holds their rules, is compiled first: what does not
    /// compile never reaches the file.
    pub fn prepare_flush<W>(&self, pending: &Vec<PendingAppend<W>>) -> (res: Result<Flush, DnsError>)
        requires
            self.wf(),
        ensures
            match res {
                Ok(flush) => {
                    &&& flush.wf()
                    &&& flush.snapshot@ == self@.rules
                    &&& flush.contents@ == storage::append_text(
                        self@.open_line,
                        pending_rules(pending@),
                    )
                    &&& snapshot::all_patterns_valid(self@.rules)
                },
                Err(err) => {
                    &&& err@ is Plugin
                    &&& backend::has_regexp(self@.rules)
                    &&& matcher::uncompiled(self@.rules, err@.message())
                },
            },
    {
        match self.rebuild_snapshot_from_state() {
            Ok((snapshot, total)) => {
                let rules = collect_rules(pending);
                Ok(Flush { contents: render_append(self.open_line(), &rules), snapshot, total })
            },
            Err(err) => Err(err),
        }
    }

    /// Carries out pending appends and answers those who wait for them, given
    /// what became of their rules: they are in the file, or there is an error.
    ///
    /// Once the rules are in the file the compiled rules are published. On an
    /// error they are taken off the list again; the file has not changed then.
    pub fn flush_appends<W>(
        &mut self,
        pending: &mut Vec<PendingAppend<W>>,
        outcome: Result<Flush, DnsError>,
    ) -> (res: Vec<Reply<W>>)
        requires
            old(self).wf(),
            outcome matches Ok(flush) ==> flush.wf(),
        ensures
            final(self).wf(),
            final(pending)@ == Seq::<PendingAppend<W>>::empty(),
            reply_views(res@) == append_replies(old(pending)@, flush_outcome(outcome)),
            final(self)@ == if old(pending)@.len() == 0 {
                old(self)@
            } else {
                flushed(old(self)@, pending_rules(old(pending)@), flush_outcome(outcome))
            },
    {
        if pending.len() == 0 {
            assert(pending@ =~= Seq::empty());
            let res: Vec<Reply<W>> = Vec::new();
            assert(reply_views(res@) =~= append_replies(pending@, flush_outcome(outcome)));
            return res;
        }
        let mut items: Vec<PendingAppend<W>> = Vec::new();
        std::mem::swap(pending, &mut items);
        if outcome.is_err() {
            let rules = collect_rules(&items);
            self.rollback_staged_rules(&rules);
        }
        let replies = answer_appends(items, &outcome);
        if let Ok(flush) = outcome {
            self.publish_appended(flush.snapshot);
        }
        replies
    }
}

/// What happens when an event comes in: how the pending appends grow, and what
/// is to be done once they are written, if they are to be written now.
pub open spec fn received<W>(
    pending: Seq<PendingAppend<W>>,
    event: WorkerEvent<W>,
    batch_size: nat,
) -> (Seq<PendingAppend<W>>, Option<Next<W>>) {
    match event {
        WorkerEvent::Tick => (pending, Some(Next::Continue)),
        WorkerEvent::Closed => (pending, Some(Next::Stop)),
        WorkerEvent::Command(WorkerCommand::Append { rules, wait }) => {
            let grown = pending.push(PendingAppend { rules, wait });
            if pending_rules(grown).len() >= batch_size {
                (grown, Some(Next::Continue))
            } else {
                (grown, None)
            }
        },
        WorkerEvent::Command(WorkerCommand::Remove { rules, wait }) => (
            pending,
            Some(Next::Remove { rules, wait }),
        ),
        WorkerEvent::Command(WorkerCommand::Clear { wait }) => (pending, Some(Next::Clear { wait })),
        WorkerEvent::Command(WorkerCommand::Reload { wait }) => (
            pending,
            Some(Next::Reload { wait }),
        ),
        WorkerEvent::Command(WorkerCommand::Shutdown { done }) => (
            pending,
            Some(Next::Shutdown { done }),
        ),
    }
}

/// The rule list once the worker has begun what comes next: a removal takes
/// effect on the list before the file is rewritten.
pub open spec fn begun<W>(before: BackendView, next: Next<W>) -> BackendView {
    match next {
        Next::Remove { rules, .. } => BackendView {
            rules: state::without(before.rules, text::texts(rules@)),
            ..before
        },
        Next::Clear { .. } => BackendView { rules: Seq::empty(), ..before },
        _ => before,
    }
}

/// Whether a step is the first one of what comes next. A removal asks for the
/// file to be rewritten with the rules that are left.
pub open spec fn begins<W>(step: Step<W>, next: Next<W>, before: BackendView) -> bool {
    match next {
        Next::Continue => step == Step::<W>::Wait,
        Next::Stop => step == Step::<W>::Stop { done: None },
        Next::Shutdown { done } => step == Step::<W>::Stop { done: Some(done) },
        Next::Remove { wait, .. } => {
            let left = begun(before, next).rules;
            &&& step matches Step::Rewrite { contents, rewrite, wait: handle }
            &&& handle == wait
            &&& contents@ == storage::rendered(left)
            &&& text::texts(rewrite.rules@) == left
            &&& rewrite.mutation == backend::counted(
                0,
                (before.rules.len() - left.len()) as nat,
                left.len(),
            )
        },
        Next::Clear { wait } => {
            &&& step matches Step::Rewrite { contents, rewrite, wait: handle }
            &&& handle == wait
            &&& contents@ == Seq::<char>::empty()
            &&& text::texts(rewrite.rules@) == Seq::<Text>::empty()
            &&& rewrite.mutation == backend::counted(0, before.rules.len(), 0)
        },
        Next::Reload { wait } => step == Step::<W>::Read { wait },
    }
}

/// Whether a step asks for pending appends to be written: it hands over their
/// rules as the text to append, and the compiled rule list.
pub open spec fn asks_to_append<W>(
    step: Step<W>,
    next: Next<W>,
    before: BackendView,
    pending: Seq<PendingAppend<W>>,
) -> bool {
    &&& step matches Step::Append { flush, next: then }
    &&& then == next
    &&& flush.wf()
    &&& flush.snapshot@ == before.rules
    &&& flush.contents@ == storage::append_text(before.open_line, pending_rules(pending))
}

/// Whether nobody is answered and nothing failed.
pub open spec fn quiet<W>(progress: Progress<W>) -> bool {
    progress.replies@.len() == 0 && progress.failure is None
}

/// What taking in an event comes to. Pending appends that are due are to be
/// written, or, if there are regular expressions in the list and they do not
/// compile, fail at once.
pub open spec fn receive_came_to<W>(
    before: BackendView,
    waited: Seq<PendingAppend<W>>,
    event: WorkerEvent<W>,
    res: Progress<W>,
    after: BackendView,
    waits: Seq<PendingAppend<W>>,
) -> bool {
    let (pending, next) = received(waited, event, before.config.batch_size as nat);
    match next {
        None => {
            &&& quiet(res)
            &&& res.step == Step::<W>::Wait
            &&& waits == pending
            &&& after == before
        },
        Some(next) => if pending.len() == 0 {
            &&& quiet(res)
            &&& begins(res.step, next, before)
            &&& waits == pending
            &&& after == begun(before, next)
        } else {
            match res.failure {
                None => {
                    &&& quiet(res)
                    &&& asks_to_append(res.step, next, before, pending)
                    &&& snapshot::all_patterns_valid(before.rules)
                    &&& waits == pending
                    &&& after == before
                },
                Some(message) => {
                    let failed = flushed(before, pending_rules(pending), Err(message@));
                    &&& backend::has_regexp(before.rules)
                    &&& matcher::uncompiled(before.rules, message@)
                    &&& reply_views(res.replies@) == append_replies(pending, Err(message@))
                    &&& begins(res.step, next, failed)
                    &&& waits == Seq::<PendingAppend<W>>::empty()
                    &&& after == begun(failed, next)
                },
            }
        },
    }
}

/// What writing pending appends comes to, given what appending to the file came
/// to.
pub open spec fn append_came_to<W>(
    before: BackendView,
    pending: Seq<PendingAppend<W>>,
    flush: Flush,
    written: Result<(), DnsError>,
    next: Next<W>,
    res: Progress<W>,
    after: BackendView,
) -> bool {
    let outcome: FlushOutcome = match written {
        Ok(_) => Ok(flush.snapshot@),
        Err(err) => Err(err@.message()),
    };
    let settled = flushed(before, pending_rules(pending), outcome);
    &&& reply_views(res.replies@) == append_replies(pending, outcome)
    &&& match outcome {
        Ok(_) => res.failure is None,
        Err(message) => res.failure matches Some(failure) && failure@ == message,
    }
    &&& begins(res.step, next, settled)
    &&& after == begun(settled, next)
}

impl<W> View for Worker<W> {
    type V = Seq<PendingAppend<W>>;

    /// The appends that are not written yet, in order.
    closed spec fn view(&self) -> Seq<PendingAppend<W>> {
        self.pending@
    }
}

impl<W> Worker<W> {
    /// A worker with nothing to write.
    pub fn new() -> (res: Worker<W>)
        ensures
            res@ == Seq::<PendingAppend<W>>::empty(),
    {
        Worker { pending: Vec::new() }
    }

    /// Takes in an event.
    ///
    /// Everything but an append that does not fill the batch has the pending
    /// appends written first, so that it sees all earlier appends. If the rules
    /// do not compile, the pending appends fail without being written.
    pub fn receive(&mut self, backend: &mut DynamicDomainSetBackend, event: WorkerEvent<W>) -> (res:
        Progress<W>)
        requires
            old(backend).wf(),
        ensures
            final(backend).wf(),
            receive_came_to(
                old(backend)@,
                old(self)@,
                event,
                res,
                final(backend)@,
                final(self)@,
            ),
    {
        let next: Next<W> = match event {
            WorkerEvent::Tick => Next::Continue,
            WorkerEvent::Closed => Next::Stop,
            WorkerEvent::Command(WorkerCommand::Append { rules, wait }) => {
                self.pending.push(PendingAppend { rules, wait });
                if !is_full(&self.pending, backend.config().batch_size) {
                    return Progress { replies: Vec::new(), failure: None, step: Step::Wait };
                }
                Next::Continue
            },
            WorkerEvent::Command(WorkerCommand::Remove { rules, wait }) => Next::Remove {
                rules,
                wait,
            },
            WorkerEvent::Command(WorkerCommand::Clear { wait }) => Next::Clear { wait },
            WorkerEvent::Command(WorkerCommand::Reload { wait }) => Next::Reload { wait },
            WorkerEvent::Command(WorkerCommand::Shutdown { done }) => Next::Shutdown { done },
        };
        if self.pending.len() == 0 {
            let step = begin(backend, next);
            return Progress { replies: Vec::new(), failure: None, step };
        }
        match backend.prepare_flush(&self.pending) {
            Ok(flush) => Progress {
                replies: Vec::new(),
                failure: None,
                step: Step::Append { flush, next },
            },
            Err(err) => {
                let message = err.message();
                let replies = backend.flush_appends(&mut self.pending, Err(err));
                let step = begin(backend, next);
                Progress { replies, failure: Some(message), step }
            },
        }
    }

    /// Goes on after the text of a flush was to be appended to the file, given
    /// what that came to.
    pub fn appended(
        &mut self,
        backend: &mut DynamicDomainSetBackend,
        flush: Flush,
        written: Result<(), DnsError>,
        next: Next<W>,
    ) -> (res: Progress<W>)
        requires
            old(backend).wf(),
            flush.wf(),
            old(self)@.len() > 0,
        ensures
            final(backend).wf(),
            final(self)@ == Seq::<PendingAppend<W>>::empty(),
            append_came_to(
                old(backend)@,
                old(self)@,
                flush,
                written,
                next,
                res,
                final(backend)@,
            ),
    {
        let failure: Option<String> = match &written {
            Ok(_) => None,
            Err(err) => Some(err.message()),
        };
        let outcome: Result<Flush, DnsError> = match written {
            Ok(_) => Ok(flush),
            Err(err) => Err(err),
        };
        let replies = backend.flush_appends(&mut self.pending, outcome);
        let step = begin(backend, next);
        Progress { replies, failure, step }
    }

    /// Answers a removal, given what rewriting the file came to.
    pub fn rewritten(
        &self,
        backend: &mut DynamicDomainSetBackend,
        rewrite: Rewrite,
        wait: W,
        written: Result<(), DnsError>,
    ) -> (res: Reply<W>)
        requires
            old(backend).wf(),
        ensures
            final(backend).wf(),
            res.wait == wait,
            backend::rewrite_came_to(
                old(backend)@,
                rewrite,
                written,
                res.result,
                final(backend)@,
            ),
    {
        Reply { wait, result: backend.finish_rewrite(rewrite, written) }
    }

    /// Answers a reload, given what reading the file came to.
    pub fn reloaded(
        &self,
        backend: &mut DynamicDomainSetBackend,
        wait: W,
        contents: Result<String, DnsError>,
    ) -> (res: Reply<W>)
        requires
            old(backend).wf(),
        ensures
            final(backend).wf(),
            res.wait == wait,
            backend::reload_came_to(old(backend)@, contents, res.result, final(backend)@),
    {
        Reply { wait, result: backend.reload_from_file(contents) }
    }
}

/// Begins what comes next.
fn begin<W>(backend: &mut DynamicDomainSetBackend, next: Next<W>) -> (res: Step<W>)
    requires
        old(backend).wf(),
    ensures
        final(backend).wf(),
        begins(res, next, old(backend)@),
        final(backend)@ == begun(old(backend)@, next),
{
    match next {
        Next::Continue => Step::Wait,
        Next::Stop => Step::Stop { done: None },
        Next::Shutdown { done } => Step::Stop { done: Some(done) },
        Next::Remove { rules, wait } => {
            let rewrite = backend.remove_rules(&rules);
            Step::Rewrite { contents: render_rule_file(&rewrite.rules), rewrite, wait }
        },
        Next::Clear { wait } => {
            let rewrite = backend.clear_rules();
            Step::Rewrite { contents: render_rule_file(&rewrite.rules), rewrite, wait }
        },
        Next::Reload { wait } => Step::Read { wait },
    }
}

} // verus!
