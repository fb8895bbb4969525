//! When the worker writes, what it writes, and whom it answers.
use crate::backend;
use crate::backend::{BackendView, DynamicDomainSetBackend};
use crate::error::{DnsError, ErrorView};
use crate::laws::filing;
use crate::laws::matching;
use crate::laws::ordering;
use crate::laws::writing;
use crate::matcher;
use crate::rules::DynamicDomainRuleKind;
use crate::state;
use crate::storage;
use crate::text;
use crate::text::Text;
use crate::worker;
use crate::worker::{
    Flush, FlushOutcome, Next, PendingAppend, Progress, Reply, Step, Worker, WorkerCommand,
    WorkerEvent,
};
use vstd::prelude::*;

verus! {

/// The number of rules in pending appends: as many as there are in each, taken
/// together.
pub open spec fn rule_count<W>(pending: Seq<PendingAppend<W>>) -> nat
    decreases pending.len(),
{
    if pending.len() == 0 {
        0
    } else {
        pending[0].rules@.len() + rule_count(pending.drop_first())
    }
}

/// The rules of pending appends, from the first append to the last.
pub open spec fn rules_in<W>(pending: Seq<PendingAppend<W>>) -> Seq<Text>
    decreases pending.len(),
{
    if pending.len() == 0 {
        Seq::empty()
    } else {
        text::texts(pending[0].rules@) + rules_in(pending.drop_first())
    }
}

proof fn lemma_rules_in_push<W>(pending: Seq<PendingAppend<W>>, item: PendingAppend<W>)
    ensures
        rules_in(pending.push(item)) == rules_in(pending) + text::texts(item.rules@),
        rule_count(pending.push(item)) == rule_count(pending) + item.rules@.len(),
    decreases pending.len(),
{
    let longer = pending.push(item);
    if pending.len() == 0 {
        assert(longer.drop_first() =~= Seq::empty());
        assert(rule_count(longer.drop_first()) == 0);
        assert(rules_in(longer.drop_first()) == Seq::<Text>::empty());
        assert(rules_in(longer) =~= rules_in(pending) + text::texts(item.rules@));
    } else {
        assert(longer.drop_first() =~= pending.drop_first().push(item));
        lemma_rules_in_push(pending.drop_first(), item);
        assert(rules_in(longer) =~= rules_in(pending) + text::texts(item.rules@));
    }
}

/// The rules of pending appends are those of each, in order.
pub proof fn law_pending_rules<W>(pending: Seq<PendingAppend<W>>)
    ensures
        worker::pending_rules(pending) == rules_in(pending),
        worker::pending_rules(pending).len() == rule_count(pending),
    decreases pending.len(),
{
    if pending.len() > 0 {
        let front = pending.drop_last();
        law_pending_rules(front);
        assert(pending =~= front.push(pending.last()));
        lemma_rules_in_push(front, pending.last());
    }
}

/// Whether a text appends rules to a file whose last line may be unfinished.
pub open spec fn appends(contents: Text, open_line: bool, list: Seq<Text>) -> bool {
    contents == (if open_line {
        "\n"@
    } else {
        ""@
    }) + filing::with_breaks(list)
}

proof fn lemma_appends(open_line: bool, list: Seq<Text>)
    ensures
        appends(storage::append_text(open_line, list), open_line, list),
{
    reveal_strlit("\n");
    reveal_strlit("");
    filing::lemma_with_breaks(list);
    assert(""@ + filing::with_breaks(list) =~= filing::with_breaks(list));
    assert(seq!['\n'] =~= "\n"@);
}

/// Whether a flush is ready to write pending appends: it holds their rules as the
/// text to append, and the whole list compiled.
pub open spec fn ready_to_write<W>(
    flush: Flush,
    set: BackendView,
    pending: Seq<PendingAppend<W>>,
) -> bool {
    &&& appends(flush.contents@, set.open_line, rules_in(pending))
    &&& flush.snapshot@ == set.rules
    &&& flush.total == set.rules.len()
    &&& flush.snapshot.wf()
}

/// Whether there is a regular expression in a list.
pub open spec fn lists_regexp(list: Seq<Text>) -> bool {
    exists|rule: Text| #[trigger]
        list.contains(rule) && writing::names(rule, DynamicDomainRuleKind::Regexp)
}

/// A list has regular expressions if and only if one of its rules says so.
pub proof fn law_has_regexp(list: Seq<Text>)
    ensures
        backend::has_regexp(list) <==> lists_regexp(list),
{
    let regexp = DynamicDomainRuleKind::Regexp;
    let parts = matcher::bodies(list, regexp);
    if parts.len() > 0 {
        matching::law_bodies(list, regexp, parts[0]);
        assert(parts.contains(parts[0]));
        let rule = writing::named(regexp) + parts[0];
        assert(rule.take(writing::named(regexp).len() as int) =~= writing::named(regexp));
        assert(list.contains(rule));
    }
    if lists_regexp(list) {
        let rule = choose|rule: Text| #[trigger]
            list.contains(rule) && writing::names(rule, regexp);
        let body = rule.skip(writing::named(regexp).len() as int);
        assert(rule =~= writing::named(regexp) + body);
        matching::law_bodies(list, regexp, body);
    }
}

/// What an event has the worker do once nothing waits to be written.
pub open spec fn asked_for<W>(event: WorkerEvent<W>) -> Next<W> {
    match event {
        WorkerEvent::Tick => Next::Continue,
        WorkerEvent::Closed => Next::Stop,
        WorkerEvent::Command(command) => match command {
            WorkerCommand::Append { .. } => Next::Continue,
            WorkerCommand::Remove { rules, wait } => Next::Remove { rules, wait },
            WorkerCommand::Clear { wait } => Next::Clear { wait },
            WorkerCommand::Reload { wait } => Next::Reload { wait },
            WorkerCommand::Shutdown { done } => Next::Shutdown { done },
        },
    }
}

/// The appends that wait once an event has come in.
pub open spec fn due<W>(waited: Seq<PendingAppend<W>>, event: WorkerEvent<W>) -> Seq<
    PendingAppend<W>,
> {
    match event {
        WorkerEvent::Command(WorkerCommand::Append { rules, wait }) => waited.push(
            PendingAppend { rules, wait },
        ),
        _ => waited,
    }
}

/// What an error says.
pub open spec fn said(err: DnsError) -> Text {
    match err {
        DnsError::Plugin(text) => text@,
        DnsError::Runtime(text) => text@,
        DnsError::Io(text) => text@,
    }
}

/// Whether an event is an append.
pub open spec fn is_append<W>(event: WorkerEvent<W>) -> bool {
    event matches WorkerEvent::Command(WorkerCommand::Append { .. })
}

/// Whether two views agree on everything but the rules.
pub open spec fn same_but_rules(a: BackendView, b: BackendView) -> bool {
    &&& a.tag == b.tag
    &&& a.config == b.config
    &&& a.compiled == b.compiled
    &&& a.started == b.started
    &&& a.open_line == b.open_line
}

/// Whether a list is another one from which given rules, and no others, were taken
/// off, with the rest in its order.
pub open spec fn taken_off(left: Seq<Text>, list: Seq<Text>, gone: Seq<Text>) -> bool {
    &&& ordering::subsequence(left, list)
    &&& forall|a: Text| #[trigger] left.contains(a) <==> list.contains(a) && !gone.contains(a)
    &&& forall|a: Text, b: Text| #[trigger]
        ordering::ahead(left, a, b) <==> {
            &&& ordering::ahead(list, a, b)
            &&& !gone.contains(a)
            &&& !gone.contains(b)
        }
}

pub proof fn lemma_taken_off(list: Seq<Text>, gone: Seq<Text>)
    ensures
        taken_off(state::without(list, gone), list, gone),
        state::without(list, gone).len() <= list.len(),
{
    let left = state::without(list, gone);
    let none = Seq::<char>::empty();
    state::lemma_without(list, gone);
    ordering::law_removal_keeps_order(list, gone, none, none);
    assert forall|a: Text, b: Text| #[trigger] ordering::ahead(left, a, b) <==> {
        &&& ordering::ahead(list, a, b)
        &&& !gone.contains(a)
        &&& !gone.contains(b)
    } by {
        ordering::law_removal_keeps_order(list, gone, a, b);
    }
}

/// Whether the worker has begun what it was asked for: a removal takes its rules
/// off the list and asks for the file to be rewritten with the rest, a reload asks
/// for the file to be read, and an end ends it.
pub open spec fn under_way<W>(
    next: Next<W>,
    before: BackendView,
    step: Step<W>,
    after: BackendView,
) -> bool {
    match next {
        Next::Continue => step is Wait && after == before,
        Next::Stop => step == (Step::<W>::Stop { done: None }) && after == before,
        Next::Shutdown { done } => step == (Step::<W>::Stop { done: Some(done) }) && after
            == before,
        Next::Reload { wait } => step == (Step::<W>::Read { wait }) && after == before,
        Next::Remove { rules, wait } => {
            &&& same_but_rules(after, before)
            &&& taken_off(after.rules, before.rules, text::texts(rules@))
            &&& rewrites(step, wait, before.rules, after.rules)
        },
        Next::Clear { wait } => {
            &&& same_but_rules(after, before)
            &&& after.rules.len() == 0
            &&& rewrites(step, wait, before.rules, after.rules)
        },
    }
}

/// Whether a step asks for the file to list the rules that are left, and has the
/// answer ready that counts those that are gone.
pub open spec fn rewrites<W>(step: Step<W>, wait: W, before: Seq<Text>, left: Seq<Text>) -> bool {
    &&& step matches Step::Rewrite { contents, rewrite, wait: handle }
    &&& handle == wait
    &&& contents@ == filing::with_breaks(left)
    &&& text::texts(rewrite.rules@) == left
    &&& rewrite.mutation.added == 0
    &&& rewrite.mutation.removed == before.len() - left.len()
    &&& rewrite.mutation.total == left.len()
}

proof fn lemma_under_way<W>(next: Next<W>, before: BackendView, step: Step<W>)
    requires
        worker::begins(step, next, before),
        before.rules.len() <= usize::MAX,
    ensures
        under_way(next, before, step, worker::begun(before, next)),
{
    let after = worker::begun(before, next);
    filing::lemma_with_breaks(after.rules);
    match next {
        Next::Remove { rules, .. } => {
            lemma_taken_off(before.rules, text::texts(rules@));
        },
        _ => {},
    }
}

/// Whether those who wait for pending appends are answered: each once, in order,
/// with the number of rules in their own append, or with the message.
pub open spec fn answered<W>(
    replies: Seq<Reply<W>>,
    pending: Seq<PendingAppend<W>>,
    outcome: Result<nat, Text>,
    at: Seq<int>,
) -> bool {
    &&& ordering::rising(at, pending.len())
    &&& replies.len() == at.len()
    &&& forall|k: int|
        0 <= k < pending.len() ==> ((#[trigger] pending[k]).wait is Some <==> at.contains(k))
    &&& forall|i: int|
        0 <= i < replies.len() ==> {
            &&& pending[at[i]].wait == Some((#[trigger] replies[i]).wait)
            &&& match outcome {
                Ok(total) => replies[i].result matches Ok(mutation) && {
                    &&& mutation.added == pending[at[i]].rules@.len()
                    &&& mutation.removed == 0
                    &&& mutation.total == total
                },
                Err(message) => replies[i].result matches Err(err) && err@ == ErrorView::Plugin(
                    message,
                ),
            }
        }
}

/// Whether all who wait for pending appends are answered.
pub open spec fn all_answered<W>(
    replies: Seq<Reply<W>>,
    pending: Seq<PendingAppend<W>>,
    outcome: Result<nat, Text>,
) -> bool {
    exists|at: Seq<int>| #[trigger] answered(replies, pending, outcome, at)
}

/// The positions of those who wait.
proof fn lemma_waiting<W>(pending: Seq<PendingAppend<W>>, outcome: FlushOutcome) -> (at: Seq<int>)
    ensures
        ordering::rising(at, pending.len()),
        worker::append_replies(pending, outcome).len() == at.len(),
        forall|k: int|
            0 <= k < pending.len() ==> ((#[trigger] pending[k]).wait is Some <==> at.contains(k)),
        forall|i: int|
            0 <= i < at.len() ==> Some(
                (#[trigger] worker::append_replies(pending, outcome)[i]).wait,
            ) == pending[at[i]].wait && worker::append_replies(pending, outcome)[i].result
                == worker::append_result(pending[at[i]].rules@.len(), outcome),
    decreases pending.len(),
{
    let all = worker::append_replies(pending, outcome);
    if pending.len() == 0 {
        Seq::empty()
    } else {
        let front = pending.drop_last();
        let before = lemma_waiting(front, outcome);
        let old = worker::append_replies(front, outcome);
        let n = pending.len() - 1;
        assert(pending.last() == pending[n]);
        let at = if pending[n].wait is Some {
            before.push(n)
        } else {
            before
        };
        assert forall|i: int| 0 <= i < at.len() implies Some((#[trigger] all[i]).wait)
            == pending[at[i]].wait && all[i].result == worker::append_result(
            pending[at[i]].rules@.len(),
            outcome,
        ) by {
            if i < before.len() {
                assert(all[i] == old[i]);
                assert(at[i] == before[i]);
                assert(front[before[i]] == pending[before[i]]);
            }
        }
        assert forall|k: int| 0 <= k < pending.len() implies ((#[trigger] pending[k]).wait is Some
            <==> at.contains(k)) by {
            if k < n {
                assert(front[k] == pending[k]);
                if before.contains(k) {
                    let i = choose|i: int| 0 <= i < before.len() && before[i] == k;
                    assert(at[i] == k);
                }
                if at.contains(k) {
                    let i = choose|i: int| 0 <= i < at.len() && at[i] == k;
                    assert(before[i] == k);
                }
            } else {
                if pending[n].wait is Some {
                    assert(at[before.len() as int] == n);
                } else if at.contains(n) {
                    let i = choose|i: int| 0 <= i < at.len() && at[i] == n;
                    assert(before[i] == n);
                }
            }
        }
        assert forall|i: int, j: int| 0 <= i < j < at.len() implies #[trigger] at[i]
            < #[trigger] at[j] by {
            assert(at[i] == before[i]);
            if j < before.len() {
                assert(at[j] == before[j]);
            }
        }
        at
    }
}

/// What became of pending appends, with the number of compiled rules.
pub open spec fn in_numbers(outcome: FlushOutcome) -> Result<nat, Text> {
    match outcome {
        Ok(compiled) => Ok(compiled.len()),
        Err(message) => Err(message),
    }
}

proof fn lemma_answered<W>(
    replies: Seq<Reply<W>>,
    pending: Seq<PendingAppend<W>>,
    outcome: FlushOutcome,
)
    requires
        worker::reply_views(replies) == worker::append_replies(pending, outcome),
        outcome matches Ok(compiled) ==> compiled.len() <= usize::MAX,
    ensures
        all_answered(replies, pending, in_numbers(outcome)),
{
    let at = lemma_waiting(pending, outcome);
    let views = worker::reply_views(replies);
    assert(views.len() == replies.len());
    assert forall|i: int| 0 <= i < replies.len() implies {
        &&& pending[at[i]].wait == Some((#[trigger] replies[i]).wait)
        &&& match in_numbers(outcome) {
            Ok(total) => replies[i].result matches Ok(mutation) && {
                &&& mutation.added == pending[at[i]].rules@.len()
                &&& mutation.removed == 0
                &&& mutation.total == total
            },
            Err(message) => replies[i].result matches Err(err) && err@ == ErrorView::Plugin(
                message,
            ),
        }
    } by {
        assert(views[i] == replies[i]@);
        assert(views[i] == worker::append_replies(pending, outcome)[i]);
        assert(pending[at[i]].rules@.len() == pending[at[i]].rules.len());
    }
    assert(answered(replies, pending, in_numbers(outcome), at));
}

/// Rules are written once as many wait as make up a batch, counting the rules of
/// all pending appends together, and not before. Until then nothing changes but
/// that the append waits.
pub proof fn law_batch_waits_until_it_is_full<W>(
    worker: &mut Worker<W>,
    set: &mut DynamicDomainSetBackend,
    rules: Vec<String>,
    wait: Option<W>,
    res: Progress<W>,
)
    requires
        call_ensures(
            Worker::receive,
            (worker, set, WorkerEvent::Command(WorkerCommand::Append { rules, wait })),
            res,
        ),
    ensures
        ({
            let waits = rule_count(old(worker)@) + rules@.len() < old(set)@.config.batch_size;
            let grown = old(worker)@.push(PendingAppend { rules, wait });
            &&& waits ==> {
                &&& res.step is Wait
                &&& res.replies@.len() == 0
                &&& res.failure is None
                &&& final(worker)@ == grown
                &&& final(set)@ == old(set)@
            }
            &&& !waits ==> (res.step is Append || (res.step is Wait && final(worker)@.len() == 0
                && res.failure is Some))
            &&& res.failure matches Some(message) ==> matching::not_compiled(
                old(set)@.rules,
                ErrorView::Plugin(message@),
            )
            &&& !waits && !lists_regexp(old(set)@.rules) ==> res.step is Append
            &&& res.step is Append ==> {
                &&& res.step->flush.wf()
                &&& ready_to_write(res.step->flush, old(set)@, grown)
                &&& res.step->next is Continue
                &&& final(worker)@ == grown
                &&& final(set)@ == old(set)@
            }
        }),
{
    let grown = worker@.push(PendingAppend { rules, wait });
    law_pending_rules(grown);
    law_pending_rules(worker@);
    lemma_rules_in_push(worker@, PendingAppend { rules, wait });
    lemma_appends(set@.open_line, rules_in(grown));
    law_has_regexp(set@.rules);
    if let Some(message) = res.failure {
        matching::law_only_the_crate_refuses(set@.rules, message@);
    }
}

/// Whatever else comes in has the pending appends written first. What was asked
/// for is kept for afterwards.
pub proof fn law_everything_else_writes_first<W>(
    worker: &mut Worker<W>,
    set: &mut DynamicDomainSetBackend,
    event: WorkerEvent<W>,
    res: Progress<W>,
)
    requires
        call_ensures(Worker::receive, (worker, set, event), res),
        !is_append(event),
        old(worker)@.len() > 0,
    ensures
        res.failure is None ==> {
            &&& res.step is Append
            &&& res.step->flush.wf()
            &&& ready_to_write(res.step->flush, old(set)@, old(worker)@)
            &&& res.step->next == asked_for(event)
            &&& res.replies@.len() == 0
            &&& final(worker)@ == old(worker)@
            &&& final(set)@ == old(set)@
        },
        res.failure matches Some(message) ==> {
            &&& lists_regexp(old(set)@.rules)
            &&& matching::not_compiled(old(set)@.rules, ErrorView::Plugin(message@))
        },
{
    law_pending_rules(worker@);
    lemma_appends(set@.open_line, rules_in(worker@));
    law_has_regexp(set@.rules);
    if let Some(message) = res.failure {
        matching::law_only_the_crate_refuses(set@.rules, message@);
    }
}

/// With nothing to write the worker begins what it was asked for at once, and
/// answers nobody yet.
pub proof fn law_nothing_waits<W>(
    worker: &mut Worker<W>,
    set: &mut DynamicDomainSetBackend,
    event: WorkerEvent<W>,
    res: Progress<W>,
)
    requires
        call_ensures(Worker::receive, (worker, set, event), res),
        !is_append(event),
        old(worker)@.len() == 0,
        old(set)@.rules.len() <= usize::MAX,
    ensures
        under_way(asked_for(event), old(set)@, res.step, final(set)@),
        res.replies@.len() == 0,
        res.failure is None,
        final(worker)@.len() == 0,
{
    lemma_under_way(asked_for(event), set@, res.step);
}

/// The domain set once pending appends have failed: their rules are off the list.
pub open spec fn given_up<W>(
    before: BackendView,
    pending: Seq<PendingAppend<W>>,
    after: BackendView,
) -> bool {
    same_but_rules(after, before) && taken_off(after.rules, before.rules, rules_in(pending))
}

/// The domain set once pending appends are in the file: lookups go by the compiled
/// rules, and the last line of the file is finished.
pub open spec fn carried_out(before: BackendView, compiled: Seq<Text>, after: BackendView) -> bool {
    after == BackendView { compiled, open_line: false, ..before }
}

/// If the list does not compile the pending appends fail at once: nothing is
/// written, their rules leave the list, all who wait are told why, and the worker
/// goes on with what it was asked for.
pub proof fn law_uncompiled_appends_fail<W>(
    worker: &mut Worker<W>,
    set: &mut DynamicDomainSetBackend,
    event: WorkerEvent<W>,
    res: Progress<W>,
)
    requires
        call_ensures(Worker::receive, (worker, set, event), res),
        res.failure is Some,
        old(set)@.rules.len() <= usize::MAX,
    ensures
        ({
            let pending = due(old(worker)@, event);
            &&& lists_regexp(old(set)@.rules)
            &&& matching::not_compiled(old(set)@.rules, ErrorView::Plugin(res.failure->0@))
            &&& pending.len() > 0
            &&& final(worker)@.len() == 0
            &&& all_answered(res.replies@, pending, Err(res.failure->0@))
            &&& exists|mid: BackendView| #[trigger]
                given_up(old(set)@, pending, mid) && under_way(
                    asked_for(event),
                    mid,
                    res.step,
                    final(set)@,
                )
        }),
{
    let pending = due(worker@, event);
    let message = res.failure->0@;
    let mid = worker::flushed(set@, worker::pending_rules(pending), Err(message));
    law_has_regexp(set@.rules);
    matching::law_only_the_crate_refuses(set@.rules, message);
    law_pending_rules(pending);
    lemma_taken_off(set@.rules, rules_in(pending));
    lemma_answered(res.replies@, pending, Err(message));
    lemma_under_way(asked_for(event), mid, res.step);
    assert(given_up(set@, pending, mid));
}

/// Once pending appends were to be written, all who wait are answered. If they
/// were written lookups go by the compiled rules; if not, their rules leave the
/// list. Then the worker goes on with what it was asked for.
pub proof fn law_appends_are_settled<W>(
    worker: &mut Worker<W>,
    set: &mut DynamicDomainSetBackend,
    flush: Flush,
    written: Result<(), DnsError>,
    next: Next<W>,
    res: Progress<W>,
)
    requires
        flush.wf(),
        call_ensures(Worker::appended, (worker, set, flush, written, next), res),
        old(set)@.rules.len() <= usize::MAX,
    ensures
        final(worker)@.len() == 0,
        match written {
            Ok(_) => {
                &&& res.failure is None
                &&& all_answered(res.replies@, old(worker)@, Ok(flush.total as nat))
                &&& exists|mid: BackendView| #[trigger]
                    carried_out(old(set)@, flush.snapshot@, mid) && under_way(
                        next,
                        mid,
                        res.step,
                        final(set)@,
                    )
            },
            Err(err) => {
                let message = said(err);
                &&& res.failure matches Some(failure) && failure@ == message
                &&& all_answered(res.replies@, old(worker)@, Err(message))
                &&& exists|mid: BackendView| #[trigger]
                    given_up(old(set)@, old(worker)@, mid) && under_way(
                        next,
                        mid,
                        res.step,
                        final(set)@,
                    )
            },
        },
{
    let pending = worker@;
    let outcome: FlushOutcome = match written {
        Ok(_) => Ok(flush.snapshot@),
        Err(err) => Err(err@.message()),
    };
    let mid = worker::flushed(set@, worker::pending_rules(pending), outcome);
    law_pending_rules(pending);
    lemma_taken_off(set@.rules, rules_in(pending));
    lemma_answered(res.replies@, pending, outcome);
    lemma_under_way(next, mid, res.step);
    if written is Ok {
        assert(carried_out(set@, flush.snapshot@, mid));
    } else {
        assert(given_up(set@, pending, mid));
    }
}

/// Pending appends are made ready to be written unless the list has regular
/// expressions that do not compile.
pub proof fn law_appends_are_made_ready<W>(
    set: &DynamicDomainSetBackend,
    pending: &Vec<PendingAppend<W>>,
    res: Result<Flush, DnsError>,
)
    requires
        call_ensures(DynamicDomainSetBackend::prepare_flush, (set, pending), res),
    ensures
        res matches Ok(flush) ==> flush.wf() && ready_to_write(flush, set@, pending@),
        res matches Err(err) ==> lists_regexp(set@.rules) && matching::not_compiled(
            set@.rules,
            err@,
        ),
{
    law_pending_rules(pending@);
    lemma_appends(set@.open_line, rules_in(pending@));
    law_has_regexp(set@.rules);
    if let Err(err) = res {
        matching::law_only_the_crate_refuses(set@.rules, err@.message());
    }
}

/// Carrying out pending appends answers all who wait for them and leaves none
/// pending.
pub proof fn law_flush_answers_everybody<W>(
    set: &mut DynamicDomainSetBackend,
    pending: &mut Vec<PendingAppend<W>>,
    outcome: Result<Flush, DnsError>,
    res: Vec<Reply<W>>,
)
    requires
        outcome matches Ok(flush) ==> flush.wf(),
        old(pending)@.len() > 0,
        call_ensures(DynamicDomainSetBackend::flush_appends, (set, pending, outcome), res),
    ensures
        final(pending)@.len() == 0,
        match outcome {
            Ok(flush) => {
                &&& carried_out(old(set)@, flush.snapshot@, final(set)@)
                &&& all_answered(res@, old(pending)@, Ok(flush.total as nat))
            },
            Err(err) => {
                let message = said(err);
                &&& given_up(old(set)@, old(pending)@, final(set)@)
                &&& all_answered(res@, old(pending)@, Err(message))
            },
        },
{
    law_pending_rules(pending@);
    lemma_taken_off(set@.rules, rules_in(pending@));
    lemma_answered(res@, pending@, worker::flush_outcome(outcome));
}

} // verus!
