//! What callers are told, and what stays as it is.
use crate::backend;
use crate::backend::{
    BackendView, DynamicDomainSetBackend, DynamicDomainSetConfig, Rewrite, StagedRules,
};
use crate::error::{DnsError, ErrorView};
use crate::laws::batching;
use crate::laws::filing;
use crate::laws::matching;
use crate::laws::ordering;
use crate::matcher::DomainRuleMatcher;
use crate::requests::{AppendStep, Operation, ReplyOutcome, SendOutcome, WorkerExit};
use crate::rules;
use crate::rules::{DynamicDomainMutation, DynamicDomainRuleKind};
use crate::snapshot::DynamicDomainSetSnapshot;
use crate::storage;
use crate::storage::parse_rule_file;
use crate::text;
use crate::text::Text;
use crate::worker::{Reply, Worker};
use vstd::prelude::*;

verus! {

/// An error of the domain set with the given tag.
pub open spec fn about(tag: Text, message: Text) -> ErrorView {
    ErrorView::Plugin("dynamic_domain_set '"@ + tag + "' "@ + message)
}

/// Whether two views agree on everything but rules, lookups and the file.
pub open spec fn same_set(a: BackendView, b: BackendView) -> bool {
    a.tag == b.tag && a.config == b.config && a.started == b.started
}

/// Whether rules and lookups are what they were.
pub open spec fn untouched(a: BackendView, b: BackendView) -> bool {
    same_set(a, b) && a.rules == b.rules && a.compiled == b.compiled
}

/// Whether a mutation says that nothing was added or removed, and how many rules
/// there are.
pub open spec fn just_counts(mutation: DynamicDomainMutation, total: nat) -> bool {
    mutation.added == 0 && mutation.removed == 0 && mutation.total == total
}

/// What taking over a rule file comes to, given what its text is read as: its
/// rules are listed and looked up, and their number is the answer; or nothing
/// changes, and the answer says why. A file without regular expressions that can
/// be read is always taken over.
pub open spec fn taken_over(
    before: BackendView,
    contents: Text,
    read: Result<Vec<String>, DnsError>,
    res: Result<DynamicDomainMutation, DnsError>,
    after: BackendView,
) -> bool {
    &&& after.open_line <==> contents.len() > 0 && contents.last() != '\n'
    &&& match read {
        Err(err) => {
            &&& res matches Err(reason) && reason@ == err@
            &&& untouched(after, before)
        },
        Ok(list) => {
            &&& !batching::lists_regexp(text::texts(list@)) ==> res is Ok
            &&& match res {
                Ok(mutation) => {
                    &&& just_counts(mutation, list@.len())
                    &&& same_set(after, before)
                    &&& after.rules == text::texts(list@)
                    &&& after.compiled == text::texts(list@)
                },
                Err(reason) => {
                    &&& matching::not_compiled(text::texts(list@), reason@)
                    &&& untouched(after, before)
                },
            }
        },
    }
}

/// A reload takes over what the file is read as.
pub proof fn law_reload_takes_over_the_file(
    set: &mut DynamicDomainSetBackend,
    contents: String,
    res: Result<DynamicDomainMutation, DnsError>,
    same: &str,
    path: &str,
    read: Result<Vec<String>, DnsError>,
)
    requires
        call_ensures(
            DynamicDomainSetBackend::reload_from_file,
            (set, Ok::<String, DnsError>(contents)),
            res,
        ),
        same@ == contents@,
        path@ == old(set)@.config.path@,
        call_ensures(parse_rule_file, (same, path), read),
    ensures
        taken_over(old(set)@, contents@, read, res, final(set)@),
{
    if let Ok(list) = read {
        batching::law_has_regexp(text::texts(list@));
        assert(text::texts(list@).len() == list@.len());
        assert(list@.len() == list.len());
        if let Err(err) = res {
            matching::law_only_the_crate_refuses(text::texts(list@), err@.message());
        }
    }
}

/// The worker answers a reload with what taking over the file comes to.
pub proof fn law_reload_is_answered<W>(
    worker: &Worker<W>,
    set: &mut DynamicDomainSetBackend,
    wait: W,
    contents: String,
    res: Reply<W>,
    same: &str,
    path: &str,
    read: Result<Vec<String>, DnsError>,
)
    requires
        call_ensures(
            Worker::reloaded,
            (worker, set, wait, Ok::<String, DnsError>(contents)),
            res,
        ),
        same@ == contents@,
        path@ == old(set)@.config.path@,
        call_ensures(parse_rule_file, (same, path), read),
    ensures
        res.wait == wait,
        taken_over(old(set)@, contents@, read, res.result, final(set)@),
{
    if let Ok(list) = read {
        batching::law_has_regexp(text::texts(list@));
        assert(text::texts(list@).len() == list@.len());
        assert(list@.len() == list.len());
        if let Err(err) = res.result {
            matching::law_only_the_crate_refuses(text::texts(list@), err@.message());
        }
    }
}

/// A file that cannot be read changes nothing, and the reason is handed on.
pub proof fn law_unreadable_file_changes_nothing<W>(
    set: &mut DynamicDomainSetBackend,
    reason: DnsError,
    res: Result<DynamicDomainMutation, DnsError>,
    worker: &Worker<W>,
    other: &mut DynamicDomainSetBackend,
    wait: W,
    reply: Reply<W>,
    fresh: &mut DynamicDomainSetBackend,
    started: Result<(), DnsError>,
)
    requires
        call_ensures(
            DynamicDomainSetBackend::reload_from_file,
            (set, Err::<String, DnsError>(reason)),
            res,
        ),
        call_ensures(
            Worker::reloaded,
            (worker, other, wait, Err::<String, DnsError>(reason)),
            reply,
        ),
        call_ensures(
            DynamicDomainSetBackend::start,
            (fresh, Err::<String, DnsError>(reason)),
            started,
        ),
    ensures
        res matches Err(err) && err@ == reason@,
        final(set)@ == old(set)@,
        reply.wait == wait,
        reply.result matches Err(err) && err@ == reason@,
        final(other)@ == old(other)@,
        started matches Err(err) && err@ == reason@,
        final(fresh)@ == old(fresh)@,
{
}

/// The start takes over what the file is read as. There is a worker from then on,
/// and only if this came off.
pub proof fn law_start_takes_over_the_file(
    set: &mut DynamicDomainSetBackend,
    contents: String,
    res: Result<(), DnsError>,
    same: &str,
    path: &str,
    read: Result<Vec<String>, DnsError>,
)
    requires
        call_ensures(
            DynamicDomainSetBackend::start,
            (set, Ok::<String, DnsError>(contents)),
            res,
        ),
        same@ == contents@,
        path@ == old(set)@.config.path@,
        call_ensures(parse_rule_file, (same, path), read),
    ensures
        final(set)@.tag == old(set)@.tag,
        final(set)@.config == old(set)@.config,
        final(set)@.open_line <==> contents@.len() > 0 && contents@.last() != '\n',
        res is Ok ==> final(set)@.started,
        res is Err ==> untouched(final(set)@, old(set)@),
        match read {
            Err(err) => res matches Err(reason) && reason@ == err@,
            Ok(list) => {
                &&& !batching::lists_regexp(text::texts(list@)) ==> res is Ok
                &&& res is Ok ==> {
                    &&& final(set)@.rules == text::texts(list@)
                    &&& final(set)@.compiled == text::texts(list@)
                }
                &&& res matches Err(reason) ==> matching::not_compiled(
                    text::texts(list@),
                    reason@,
                )
            },
        },
{
    if let Ok(list) = read {
        batching::law_has_regexp(text::texts(list@));
        if let Err(err) = res {
            matching::law_only_the_crate_refuses(text::texts(list@), err@.message());
        }
    }
}

/// What a removal comes to once the file was to be rewritten: lookups go by what
/// is left, and the answer is the one that was made ready. If the file could not
/// be rewritten lookups stay what they are, and the reason is the answer.
pub open spec fn rewritten(
    before: BackendView,
    rewrite: Rewrite,
    written: Result<(), DnsError>,
    res: Result<DynamicDomainMutation, DnsError>,
    after: BackendView,
) -> bool {
    let left = text::texts(rewrite.rules@);
    &&& same_set(after, before)
    &&& after.rules == before.rules
    &&& match written {
        Err(err) => {
            &&& res matches Err(reason) && reason@ == err@
            &&& after.compiled == before.compiled
            &&& after.open_line == before.open_line
        },
        Ok(_) => {
            &&& !after.open_line
            &&& !batching::lists_regexp(left) ==> res is Ok
            &&& match res {
                Ok(mutation) => mutation == rewrite.mutation && after.compiled == left,
                Err(reason) => {
                    &&& matching::not_compiled(left, reason@)
                    &&& after.compiled == before.compiled
                },
            }
        },
    }
}

/// A removal is finished once the file was to be rewritten.
pub proof fn law_removal_is_finished(
    set: &mut DynamicDomainSetBackend,
    rewrite: Rewrite,
    written: Result<(), DnsError>,
    res: Result<DynamicDomainMutation, DnsError>,
)
    requires
        storage::all_canonical(text::texts(rewrite.rules@)),
        call_ensures(DynamicDomainSetBackend::finish_rewrite, (set, rewrite, written), res),
    ensures
        rewritten(old(set)@, rewrite, written, res, final(set)@),
{
    backend::lemma_canonical_list(text::texts(rewrite.rules@));
    batching::law_has_regexp(text::texts(rewrite.rules@));
    if let Err(err) = res {
        matching::law_only_the_crate_refuses(text::texts(rewrite.rules@), err@.message());
    }
}

/// The worker answers a removal once the file was to be rewritten.
pub proof fn law_removal_is_answered<W>(
    worker: &Worker<W>,
    set: &mut DynamicDomainSetBackend,
    rewrite: Rewrite,
    wait: W,
    written: Result<(), DnsError>,
    res: Reply<W>,
)
    requires
        storage::all_canonical(text::texts(rewrite.rules@)),
        call_ensures(Worker::rewritten, (worker, set, rewrite, wait, written), res),
    ensures
        res.wait == wait,
        rewritten(old(set)@, rewrite, written, res.result, final(set)@),
{
    backend::lemma_canonical_list(text::texts(rewrite.rules@));
    batching::law_has_regexp(text::texts(rewrite.rules@));
    if let Err(err) = res.result {
        matching::law_only_the_crate_refuses(text::texts(rewrite.rules@), err@.message());
    }
}

/// The list is compiled as it is, and counted.
pub proof fn law_list_is_compiled(
    set: &DynamicDomainSetBackend,
    res: Result<(DynamicDomainSetSnapshot, usize), DnsError>,
)
    requires
        call_ensures(DynamicDomainSetBackend::rebuild_snapshot_from_state, (set,), res),
    ensures
        !batching::lists_regexp(set@.rules) ==> res is Ok,
        res matches Ok((compiled, total)) ==> compiled.wf() && compiled@ == set@.rules && total
            == set@.rules.len(),
        res matches Err(err) ==> matching::not_compiled(set@.rules, err@),
{
    batching::law_has_regexp(set@.rules);
    if let Err(err) = res {
        matching::law_only_the_crate_refuses(set@.rules, err@.message());
    }
}

/// Rules that compile are what lookups go by, and nothing else changes.
pub proof fn law_rules_are_published(
    set: &mut DynamicDomainSetBackend,
    list: &Vec<String>,
    res: Result<(), DnsError>,
)
    requires
        storage::all_canonical(text::texts(list@)),
        call_ensures(DynamicDomainSetBackend::rebuild_snapshot_from_rules, (set, list), res),
    ensures
        !batching::lists_regexp(text::texts(list@)) ==> res is Ok,
        res is Ok ==> final(set)@.compiled == text::texts(list@),
        res matches Err(err) ==> {
            &&& matching::not_compiled(text::texts(list@), err@)
            &&& final(set)@.compiled == old(set)@.compiled
        },
        same_set(final(set)@, old(set)@),
        final(set)@.rules == old(set)@.rules,
        final(set)@.open_line == old(set)@.open_line,
{
    backend::lemma_canonical_list(text::texts(list@));
    batching::law_has_regexp(text::texts(list@));
    if let Err(err) = res {
        matching::law_only_the_crate_refuses(text::texts(list@), err@.message());
    }
}

/// Compiled rules are published as they are, and nothing else changes. Rules that
/// did not compile change nothing, and the reason is handed on.
pub proof fn law_compiled_rules_are_published(
    set: &mut DynamicDomainSetBackend,
    compiled: Result<DynamicDomainSetSnapshot, DnsError>,
    res: Result<(), DnsError>,
    other: &mut DynamicDomainSetBackend,
    list: Vec<String>,
    installed: Result<DynamicDomainMutation, DnsError>,
)
    requires
        call_ensures(DynamicDomainSetBackend::publish, (set, compiled), res),
        call_ensures(DynamicDomainSetBackend::install_compiled, (other, list, compiled), installed),
    ensures
        match compiled {
            Ok(snapshot) => {
                &&& res is Ok
                &&& same_set(final(set)@, old(set)@)
                &&& final(set)@.rules == old(set)@.rules
                &&& final(set)@.open_line == old(set)@.open_line
                &&& final(set)@.compiled == snapshot@
                &&& installed matches Ok(mutation) && just_counts(mutation, list@.len())
                &&& same_set(final(other)@, old(other)@)
                &&& final(other)@.rules == text::texts(list@)
                &&& final(other)@.open_line == old(other)@.open_line
                &&& final(other)@.compiled == snapshot@
            },
            Err(reason) => {
                &&& res matches Err(err) && err@ == reason@
                &&& final(set)@ == old(set)@
                &&& installed matches Err(err) && err@ == reason@
                &&& final(other)@ == old(other)@
            },
        },
{
    assert(list@.len() == list.len());
}

/// A snapshot goes by its matcher, if that was compiled.
pub proof fn law_snapshot_of_a_matcher(
    matcher: DomainRuleMatcher,
    compiled: Result<(), String>,
    res: Result<DynamicDomainSetSnapshot, DnsError>,
)
    requires
        call_ensures(DynamicDomainSetSnapshot::from_matcher, (matcher, compiled), res),
    ensures
        match compiled {
            Ok(_) => res matches Ok(snapshot) && snapshot@ == matcher@ && snapshot.wf(),
            Err(message) => res matches Err(err) && err@ == ErrorView::Plugin(message@),
        },
{
}

/// A new domain set lists nothing, finds nothing and has no worker.
pub proof fn law_new_set_is_empty(
    tag: String,
    config: DynamicDomainSetConfig,
    res: DynamicDomainSetBackend,
)
    requires
        call_ensures(DynamicDomainSetBackend::new, (tag, config), res),
    ensures
        res.wf(),
        res@.tag == tag@,
        res@.config == config,
        res@.rules.len() == 0,
        res@.compiled.len() == 0,
        !res@.started,
        !res@.open_line,
{
}

/// A rule file that exists is not written at the start. One that does not is
/// written with the canonical texts of the bootstrap rules, in order.
pub proof fn law_bootstrap_file(
    set: &DynamicDomainSetBackend,
    exists: bool,
    res: Result<Option<String>, DnsError>,
    list: Seq<Text>,
)
    requires
        call_ensures(DynamicDomainSetBackend::bootstrap_file_if_needed, (set, exists), res),
        ordering::canonical_texts(
            set@.config.bootstrap_rules@,
            DynamicDomainRuleKind::Domain,
            list,
        ),
    ensures
        exists ==> (res matches Ok(contents) && contents is None),
        !exists ==> (res matches Ok(Some(contents)) && contents@ == filing::with_breaks(list)),
{
    let domain = DynamicDomainRuleKind::Domain;
    let raw = set@.config.bootstrap_rules@;
    let all = text::texts(raw);
    assert forall|i: int| 0 <= i < all.len() implies rules::canonical(
        #[trigger] all[i],
        domain,
    ) is Some by {
        assert(all[i] == raw[i]@);
        assert(rules::canonical(raw[i]@, domain) == Some(list[i]));
    }
    assert(rules::canonical_all(all, domain)->0 =~= list) by {
        assert forall|i: int| 0 <= i < all.len() implies rules::canonical(all[i], domain)->0
            == #[trigger] list[i] by {
            assert(all[i] == raw[i]@);
        }
    }
    filing::lemma_with_breaks(list);
}

/// Bootstrap rules of which one is no rule are refused with its position.
pub proof fn law_bad_bootstrap_rule(
    set: &DynamicDomainSetBackend,
    res: Result<Option<String>, DnsError>,
    at: int,
)
    requires
        call_ensures(DynamicDomainSetBackend::bootstrap_file_if_needed, (set, false), res),
        0 <= at < set@.config.bootstrap_rules@.len(),
        rules::canonical(
            set@.config.bootstrap_rules@[at]@,
            DynamicDomainRuleKind::Domain,
        ) is None,
        forall|k: int|
            0 <= k < at ==> rules::canonical(
                (#[trigger] set@.config.bootstrap_rules@[k])@,
                DynamicDomainRuleKind::Domain,
            ) is Some,
    ensures
        res matches Err(err) && err@ == ErrorView::Plugin(
            "bootstrap_rules["@ + text::decimal(at as nat) + "]: invalid rule '"@
                + set@.config.bootstrap_rules@[at]@ + "'"@,
        ),
{
    let raw = set@.config.bootstrap_rules@;
    let domain = DynamicDomainRuleKind::Domain;
    let all = text::texts(raw);
    assert(all[at] == raw[at]@);
    assert forall|k: int| 0 <= k < at implies rules::canonical(
        #[trigger] all[k],
        domain,
    ) is Some by {
        assert(all[k] == raw[k]@);
    }
    rules::lemma_first_invalid(all, domain, at);
    reveal_strlit("bootstrap_rules");
    reveal_strlit("bootstrap_rules[");
    reveal_strlit("]: invalid rule '");
    reveal_strlit("'");
    assert(rules::invalid_rule_message(
        rules::entry_source("bootstrap_rules"@, at as nat),
        raw[at]@,
    ) =~= "bootstrap_rules["@ + text::decimal(at as nat) + "]: invalid rule '"@ + raw[at]@ + "'"@);
}

/// Without a worker there is nobody to send a request to: every request that needs
/// one is refused, and nothing changes.
pub proof fn law_no_worker(
    set: &DynamicDomainSetBackend,
    sender: Result<(), DnsError>,
    exit: Option<WorkerExit>,
    shutdown: Result<(), DnsError>,
    gone: Vec<String>,
    kind: DynamicDomainRuleKind,
    removal: Result<Vec<String>, DnsError>,
)
    requires
        !set@.started,
        call_ensures(DynamicDomainSetBackend::sender, (set,), sender),
        call_ensures(DynamicDomainSetBackend::shutdown, (set, exit), shutdown),
        call_ensures(DynamicDomainSetBackend::remove_rules_sync, (set, gone, kind), removal),
    ensures
        sender matches Err(err) && err@ == about(set@.tag, "worker is not initialized"@),
        shutdown matches Err(err) && err@ == about(set@.tag, "worker is not initialized"@),
        removal is Err,
{
}

/// Without a worker a request to append something new is refused, and the list
/// stays as it is.
pub proof fn law_no_worker_no_append(
    set: &mut DynamicDomainSetBackend,
    raw: Vec<String>,
    kind: DynamicDomainRuleKind,
    res: AppendStep,
)
    requires
        !old(set)@.started,
        call_ensures(DynamicDomainSetBackend::begin_append, (set, raw, kind), res),
    ensures
        res is Answered,
        final(set)@ == old(set)@,
        res matches AppendStep::Answered(Err(err)) ==> ({
            ||| err@ == about(old(set)@.tag, "worker is not initialized"@)
            ||| exists|i: int|
                0 <= i < raw@.len() && rules::canonical((#[trigger] raw@[i])@, kind) is None
        }),
{
    let all = text::texts(raw@);
    if rules::canonical_all(all, kind) is None {
        let i = choose|i: int|
            0 <= i < all.len() && !(rules::canonical(#[trigger] all[i], kind) is Some);
        assert(all[i] == raw@[i]@);
    }
}

/// With a worker requests go on: rules to remove are sent in canonical text, in
/// order.
pub proof fn law_removal_is_sent(
    set: &DynamicDomainSetBackend,
    sender: Result<(), DnsError>,
    gone: Vec<String>,
    kind: DynamicDomainRuleKind,
    removal: Result<Vec<String>, DnsError>,
    list: Seq<Text>,
)
    requires
        set@.started,
        call_ensures(DynamicDomainSetBackend::sender, (set,), sender),
        call_ensures(DynamicDomainSetBackend::remove_rules_sync, (set, gone, kind), removal),
        ordering::canonical_texts(gone@, kind, list),
    ensures
        sender is Ok,
        removal matches Ok(sent) && text::texts(sent@) == list,
{
    let all = text::texts(gone@);
    assert forall|i: int| 0 <= i < all.len() implies rules::canonical(
        #[trigger] all[i],
        kind,
    ) is Some by {
        assert(all[i] == gone@[i]@);
        assert(rules::canonical(gone@[i]@, kind) == Some(list[i]));
    }
    assert(rules::canonical_all(all, kind)->0 =~= list) by {
        assert forall|i: int| 0 <= i < all.len() implies rules::canonical(all[i], kind)->0
            == #[trigger] list[i] by {
            assert(all[i] == gone@[i]@);
        }
    }
}

/// A request to append or to remove that holds what is no rule is refused with its
/// position, and nothing changes.
pub proof fn law_bad_rules_are_refused(
    set: &mut DynamicDomainSetBackend,
    raw: Vec<String>,
    kind: DynamicDomainRuleKind,
    res: AppendStep,
    other: &DynamicDomainSetBackend,
    removal: Result<Vec<String>, DnsError>,
    at: int,
)
    requires
        call_ensures(DynamicDomainSetBackend::begin_append, (set, raw, kind), res),
        call_ensures(DynamicDomainSetBackend::remove_rules_sync, (other, raw, kind), removal),
        0 <= at < raw@.len(),
        rules::canonical(raw@[at]@, kind) is None,
        forall|k: int| 0 <= k < at ==> rules::canonical((#[trigger] raw@[k])@, kind) is Some,
    ensures
        final(set)@ == old(set)@,
        res matches AppendStep::Answered(Err(err)) && err@ == ErrorView::Plugin(
            "append["@ + text::decimal(at as nat) + "]: invalid rule '"@ + raw@[at]@ + "'"@,
        ),
        removal matches Err(err) && err@ == ErrorView::Plugin(
            "remove["@ + text::decimal(at as nat) + "]: invalid rule '"@ + raw@[at]@ + "'"@,
        ),
{
    let all = text::texts(raw@);
    assert(all[at] == raw@[at]@);
    assert forall|k: int| 0 <= k < at implies rules::canonical(#[trigger] all[k], kind) is Some by {
        assert(all[k] == raw@[k]@);
    }
    rules::lemma_first_invalid(all, kind, at);
    reveal_strlit("append");
    reveal_strlit("append[");
    reveal_strlit("remove");
    reveal_strlit("remove[");
    reveal_strlit("]: invalid rule '");
    reveal_strlit("'");
    let digits = text::decimal(at as nat);
    assert(rules::invalid_rule_message(
        rules::entry_source("append"@, at as nat),
        raw@[at]@,
    ) =~= "append["@ + digits + "]: invalid rule '"@ + raw@[at]@ + "'"@);
    assert(rules::invalid_rule_message(
        rules::entry_source("remove"@, at as nat),
        raw@[at]@,
    ) =~= "remove["@ + digits + "]: invalid rule '"@ + raw@[at]@ + "'"@);
}

/// A request to append that need not wait is answered as it was counted once it is
/// sent. If it is not sent its rules leave the list, and the answer says why.
pub proof fn law_sent_append(
    set: &mut DynamicDomainSetBackend,
    staged: StagedRules,
    sent: Result<(), String>,
    res: Result<DynamicDomainMutation, DnsError>,
)
    requires
        call_ensures(DynamicDomainSetBackend::append_rules_async, (set, staged, sent), res),
    ensures
        match sent {
            Ok(_) => {
                &&& res matches Ok(mutation) && mutation == staged.mutation
                &&& final(set)@ == old(set)@
            },
            Err(reason) => {
                &&& res matches Err(err) && err@ == about(
                    old(set)@.tag,
                    "append queue failed: "@ + reason@,
                )
                &&& batching::same_but_rules(final(set)@, old(set)@)
                &&& batching::taken_off(
                    final(set)@.rules,
                    old(set)@.rules,
                    text::texts(staged.rules@),
                )
            },
        },
{
    batching::lemma_taken_off(set@.rules, text::texts(staged.rules@));
}

/// A request to append that waits goes on once it is sent. If it is not sent its
/// rules leave the list, and the answer says why.
pub proof fn law_sent_append_waits(
    set: &mut DynamicDomainSetBackend,
    staged: &StagedRules,
    sent: SendOutcome,
    res: Result<(), DnsError>,
)
    requires
        call_ensures(DynamicDomainSetBackend::append_rules_sync, (set, staged, sent), res),
    ensures
        sent is Sent <==> res is Ok,
        sent is Sent ==> final(set)@ == old(set)@,
        !(sent is Sent) ==> {
            &&& batching::same_but_rules(final(set)@, old(set)@)
            &&& batching::taken_off(
                final(set)@.rules,
                old(set)@.rules,
                text::texts(staged.rules@),
            )
        },
        sent matches SendOutcome::Closed(reason) ==> (res matches Err(err) && err@ == about(
            old(set)@.tag,
            "append queue closed: "@ + reason@,
        )),
        sent is TimedOut ==> (res matches Err(err) && err@ == about(
            old(set)@.tag,
            "append timed out enqueueing work"@,
        )),
{
    batching::lemma_taken_off(set@.rules, text::texts(staged.rules@));
}

/// Whoever waits for the worker gets its answer as it is, or is told that there is
/// none.
pub proof fn law_answers_are_handed_on(
    set: &DynamicDomainSetBackend,
    reply: ReplyOutcome,
    appended: Result<DynamicDomainMutation, DnsError>,
    operation: Operation,
    answer: Option<Result<DynamicDomainMutation, DnsError>>,
    changed: Result<DynamicDomainMutation, DnsError>,
    sent: Result<(), String>,
    queued: Result<(), DnsError>,
)
    requires
        call_ensures(DynamicDomainSetBackend::append_reply, (set, reply), appended),
        call_ensures(DynamicDomainSetBackend::request_reply, (set, operation, answer), changed),
        call_ensures(DynamicDomainSetBackend::request_sent, (set, operation, sent), queued),
    ensures
        match reply {
            ReplyOutcome::Answered(given) => appended == given,
            ReplyOutcome::Dropped => appended matches Err(err) && err@ == about(
                set@.tag,
                "append worker dropped reply"@,
            ),
            ReplyOutcome::TimedOut => appended matches Err(err) && err@ == about(
                set@.tag,
                "append timed out waiting for flush"@,
            ),
        },
        match answer {
            Some(given) => changed == given,
            None => changed matches Err(err) && err@ == about(
                set@.tag,
                match operation {
                    Operation::Remove => "remove worker dropped reply"@,
                    Operation::Clear => "clear worker dropped reply"@,
                    Operation::Reload => "reload worker dropped reply"@,
                },
            ),
        },
        match sent {
            Ok(_) => queued is Ok,
            Err(reason) => queued matches Err(err) && err@ == about(
                set@.tag,
                match operation {
                    Operation::Remove => "remove queue closed: "@,
                    Operation::Clear => "clear queue closed: "@,
                    Operation::Reload => "reload queue closed: "@,
                } + reason@,
            ),
        },
{
    reveal_strlit("remove");
    reveal_strlit("clear");
    reveal_strlit("reload");
    reveal_strlit(" worker dropped reply");
    reveal_strlit(" queue closed: ");
    reveal_strlit("remove worker dropped reply");
    reveal_strlit("clear worker dropped reply");
    reveal_strlit("reload worker dropped reply");
    reveal_strlit("remove queue closed: ");
    reveal_strlit("clear queue closed: ");
    reveal_strlit("reload queue closed: ");
    assert("remove"@ + " worker dropped reply"@ =~= "remove worker dropped reply"@);
    assert("clear"@ + " worker dropped reply"@ =~= "clear worker dropped reply"@);
    assert("reload"@ + " worker dropped reply"@ =~= "reload worker dropped reply"@);
    assert("remove"@ + " queue closed: "@ =~= "remove queue closed: "@);
    assert("clear"@ + " queue closed: "@ =~= "clear queue closed: "@);
    assert("reload"@ + " queue closed: "@ =~= "reload queue closed: "@);
}

/// Shutting down fails only if the worker did.
pub proof fn law_shutdown(
    set: &DynamicDomainSetBackend,
    exit: Option<WorkerExit>,
    res: Result<(), DnsError>,
)
    requires
        set@.started,
        call_ensures(DynamicDomainSetBackend::shutdown, (set, exit), res),
    ensures
        match exit {
            Some(WorkerExit::Failed(reason)) => res matches Err(err) && err@ == ErrorView::Runtime(
                "dynamic_domain_set worker failed: "@ + reason@,
            ),
            Some(WorkerExit::Finished) | Some(WorkerExit::Cancelled) | None => res is Ok,
        },
{
}

/// The worker looks for pending appends as often as it is told to, but never
/// without a pause.
pub proof fn law_flush_interval(set: &DynamicDomainSetBackend, res: u64)
    requires
        call_ensures(DynamicDomainSetBackend::flush_interval_ms, (set,), res),
    ensures
        res >= 1,
        set@.config.flush_interval_ms >= 1 ==> res == set@.config.flush_interval_ms,
        res > 1 ==> res == set@.config.flush_interval_ms,
{
}

/// An error says what it was given to say.
pub proof fn law_messages(err: DnsError, res: String)
    requires
        call_ensures(DnsError::message, (&err,), res),
    ensures
        res@ == batching::said(err),
{
}

} // verus!
