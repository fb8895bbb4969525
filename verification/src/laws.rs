//! What holds of the domain set as a whole.
//!
//! The modules below say of the single operations what they come to, each on its
//! own terms: of written rules, rule files, lookups, the order of the list, the
//! worker, and the answers to callers.
use crate::backend;
use crate::backend::{BackendView, Rewrite};
use crate::error::DnsError;
use crate::listing;
use crate::matcher;
use crate::requests;
use crate::rules;
use crate::rules::{DynamicDomainMutation, DynamicDomainRuleKind};
use crate::state;
use crate::storage;
use crate::text;
use crate::text::Text;
use crate::worker;
use crate::worker::{
    Flush, FlushOutcome, Next, PendingAppend, Progress, ReplyView, Step, WorkerCommand, WorkerEvent,
};
use vstd::prelude::*;

pub mod answers;
pub mod batching;
pub mod filing;
pub mod matching;
pub mod ordering;
pub mod writing;

verus! {

/// Rolling back undoes staging: a list from which the rules that were staged are
/// taken off again is the list from before.
pub proof fn law_rollback_undoes_staging(list: Seq<Text>, new: Seq<Text>)
    ensures
        state::without(
            list + state::fresh(list.to_set(), new),
            state::fresh(list.to_set(), new),
        ) == list,
{
    let added = state::fresh(list.to_set(), new);
    state::lemma_fresh(list.to_set(), new);
    assert forall|r: Text| #[trigger] list.contains(r) implies !added.contains(r) by {
        assert(list.to_set().contains(r));
    }
    lemma_without_tail(list, added);
}

/// A tail that shares nothing with what stands before it can be taken off.
proof fn lemma_without_tail(list: Seq<Text>, tail: Seq<Text>)
    requires
        forall|r: Text| #[trigger] list.contains(r) ==> !tail.contains(r),
    ensures
        state::without(list + tail, tail) == list,
{
    let kept = |rule: Text| !tail.contains(rule);
    storage::lemma_filter_concat(list, tail, kept);
    assert forall|i: int| 0 <= i < list.len() implies kept(#[trigger] list[i]) by {
        assert(list.contains(list[i]));
    }
    storage::lemma_filter_keeps_all(list, kept);
    assert forall|i: int| 0 <= i < tail.len() implies !kept(#[trigger] tail[i]) by {
        assert(tail.contains(tail[i]));
    }
    lemma_filter_keeps_none(tail, kept);
    assert(list + Seq::<Text>::empty() =~= list);
}

proof fn lemma_filter_keeps_none(list: Seq<Text>, keep: spec_fn(Text) -> bool)
    requires
        forall|i: int| 0 <= i < list.len() ==> !keep(#[trigger] list[i]),
    ensures
        list.filter(keep) == Seq::<Text>::empty(),
    decreases list.len(),
{
    reveal(Seq::filter);
    if list.len() > 0 {
        let front = list.drop_last();
        assert forall|i: int| 0 <= i < front.len() implies !keep(#[trigger] front[i]) by {
            assert(front[i] == list[i]);
        }
        lemma_filter_keeps_none(front, keep);
        assert(!keep(list[list.len() - 1]));
    } else {
        assert(list.filter(keep) =~= Seq::empty());
    }
}

/// Appending rules again adds nothing, even before they are written.
pub proof fn law_appending_twice_adds_nothing(before: BackendView, list: Seq<Text>)
    ensures
        requests::appended(
            BackendView { rules: before.rules + requests::appended(before, list), ..before },
            list,
        ) == Seq::<Text>::empty(),
{
    let added = requests::appended(before, list);
    let after = before.rules + added;
    state::lemma_fresh(before.rules.to_set(), list);
    assert forall|r: Text| #[trigger] list.contains(r) implies after.to_set().contains(r) by {
        state::lemma_concat_contains(before.rules, added, r);
        assert(added.contains(r) <==> list.contains(r) && !before.rules.to_set().contains(r));
    }
    state::lemma_fresh_none(after.to_set(), list);
}

/// An append lists every rule it was asked to, keeps what was listed, and lists
/// nothing else.
pub proof fn law_append_lists_the_rules(before: BackendView, list: Seq<Text>, rule: Text)
    ensures
        (before.rules + requests::appended(before, list)).contains(rule) <==> before.rules.contains(
            rule,
        ) || list.contains(rule),
{
    let added = requests::appended(before, list);
    state::lemma_fresh(before.rules.to_set(), list);
    state::lemma_concat_contains(before.rules, added, rule);
    assert(added.contains(rule) <==> list.contains(rule) && !before.rules.to_set().contains(rule));
}

/// Removed rules cannot reappear: the rule file that is written after a removal
/// lists the rules that are left, in their order, and none of those removed.
pub proof fn law_removed_rules_stay_gone(list: Seq<Text>, gone: Seq<Text>)
    requires
        storage::all_canonical(list),
        list.no_duplicates(),
    ensures
        storage::file_rules(storage::rendered(state::without(list, gone))) == Some(
            state::without(list, gone),
        ),
        forall|rule: Text| #[trigger]
            state::without(list, gone).contains(rule) <==> list.contains(rule) && !gone.contains(rule),
{
    state::lemma_without(list, gone);
    lemma_left_canonical(list, gone);
    storage::law_file_reads_back(state::without(list, gone));
}

proof fn lemma_left_canonical(list: Seq<Text>, gone: Seq<Text>)
    requires
        storage::all_canonical(list),
    ensures
        storage::all_canonical(state::without(list, gone)),
{
    let left = state::without(list, gone);
    state::lemma_without(list, gone);
    assert forall|i: int| 0 <= i < left.len() implies rules::is_canonical(#[trigger] left[i]) by {
        assert(left.contains(left[i]));
        let k = choose|k: int| 0 <= k < list.len() && list[k] == left[i];
        assert(rules::is_canonical(list[k]));
    }
}

/// A rule file that is written from bootstrap rules lists them, each once.
pub proof fn law_bootstrap_rules_take_effect(raw: Seq<Text>)
    requires
        rules::canonical_all(raw, DynamicDomainRuleKind::Domain) is Some,
    ensures
        storage::file_rules(
            storage::rendered(rules::canonical_all(raw, DynamicDomainRuleKind::Domain)->0),
        ) == Some(
            state::fresh(
                Set::empty(),
                rules::canonical_all(raw, DynamicDomainRuleKind::Domain)->0,
            ),
        ),
{
    requests::lemma_canonicalized(raw, DynamicDomainRuleKind::Domain);
    storage::lemma_rendered_rules(rules::canonical_all(raw, DynamicDomainRuleKind::Domain)->0);
}

/// Nothing matches without rules, and an empty file lists none.
pub proof fn law_cleared_set_matches_nothing(name: Text)
    ensures
        !matcher::any_match(Seq::empty(), name),
        storage::rendered(Seq::empty()) == Seq::<char>::empty(),
        storage::file_rules(Seq::empty()) == Some(Seq::<Text>::empty()),
{
    storage::law_file_reads_back(Seq::empty());
}

/// A name is matched by a list of rules if and only if it is matched by one of
/// its parts.
pub proof fn law_match_by_parts(a: Seq<Text>, b: Seq<Text>, name: Text)
    ensures
        matcher::any_match(a + b, name) <==> matcher::any_match(a, name) || matcher::any_match(
            b,
            name,
        ),
{
    if matcher::any_match(a + b, name) {
        let i = choose|i: int|
            0 <= i < (a + b).len() && matcher::rule_matches(#[trigger] (a + b)[i], name);
        if i < a.len() {
            assert(matcher::rule_matches(a[i], name));
        } else {
            assert(matcher::rule_matches(b[i - a.len()], name));
        }
    }
    if matcher::any_match(a, name) {
        let i = choose|i: int| 0 <= i < a.len() && matcher::rule_matches(#[trigger] a[i], name);
        assert(matcher::rule_matches((a + b)[i], name));
    }
    if matcher::any_match(b, name) {
        let i = choose|i: int| 0 <= i < b.len() && matcher::rule_matches(#[trigger] b[i], name);
        assert(matcher::rule_matches((a + b)[a.len() + i], name));
    }
}

/// Neither the order of the rules nor repetitions matter for matching.
pub proof fn law_match_ignores_order(a: Seq<Text>, b: Seq<Text>, name: Text)
    requires
        a.to_set() == b.to_set(),
    ensures
        matcher::any_match(a, name) == matcher::any_match(b, name),
{
    if matcher::any_match(a, name) {
        let i = choose|i: int| 0 <= i < a.len() && matcher::rule_matches(#[trigger] a[i], name);
        assert(a.to_set().contains(a[i]));
        assert(b.to_set().contains(a[i]));
        let k = choose|k: int| 0 <= k < b.len() && b[k] == a[i];
        assert(matcher::rule_matches(b[k], name));
    }
    if matcher::any_match(b, name) {
        let i = choose|i: int| 0 <= i < b.len() && matcher::rule_matches(#[trigger] b[i], name);
        assert(b.to_set().contains(b[i]));
        assert(a.to_set().contains(b[i]));
        let k = choose|k: int| 0 <= k < a.len() && a[k] == b[i];
        assert(matcher::rule_matches(a[k], name));
    }
}

/// A name that is learned as a `full:` rule is matched afterwards, however its
/// letters are cased and whether or not it ends with a dot, and the rule matches
/// no other name.
pub proof fn law_learned_name_matches(raw: Text, other: Text)
    requires
        text::trim(raw) == raw,
        rules::split_kind(raw, DynamicDomainRuleKind::Full) == (DynamicDomainRuleKind::Full, raw),
        rules::canonical(raw, DynamicDomainRuleKind::Full) is Some,
    ensures
        matcher::rule_matches(rules::canonical(raw, DynamicDomainRuleKind::Full)->0, other) <==> other
            == text::strip_dots(text::lowered(raw)),
{
    let kind = DynamicDomainRuleKind::Full;
    rules::lemma_body(kind, raw);
    rules::lemma_canonical_text(
        kind,
        rules::normal_body(kind, raw)->0,
        DynamicDomainRuleKind::Domain,
    );
}

/// A `domain:` rule matches the domain and every name below it.
pub proof fn law_domain_rule_matches_below(domain: Text, label: Text)
    requires
        rules::normal_body(DynamicDomainRuleKind::Domain, domain) == Some(domain),
    ensures
        matcher::rule_matches(DynamicDomainRuleKind::Domain.prefix() + domain, domain),
        matcher::rule_matches(
            DynamicDomainRuleKind::Domain.prefix() + domain,
            label.push('.') + domain,
        ),
{
    rules::lemma_canonical_text(
        DynamicDomainRuleKind::Domain,
        domain,
        DynamicDomainRuleKind::Domain,
    );
    assert(domain.skip(0) =~= domain);
    let name = label.push('.') + domain;
    assert(name.skip(name.len() - domain.len()) =~= domain);
    assert(name[name.len() - domain.len() - 1] == '.');
}

/// The rules that a reader sees who follows the cursors from page to page.
pub open spec fn all_pages(list: Seq<Text>, cursor: nat, limit: nat) -> Seq<Text>
    decreases list.len() - cursor,
{
    match listing::next_page(list.len(), cursor, limit) {
        Some(next) => if next > cursor {
            listing::page(list, cursor, limit) + all_pages(list, next, limit)
        } else {
            listing::page(list, cursor, limit)
        },
        None => listing::page(list, cursor, limit),
    }
}

/// Following the cursors shows every rule once and in order.
pub proof fn law_pages_cover_the_list(list: Seq<Text>, cursor: nat, limit: nat)
    requires
        cursor <= list.len(),
        limit > 0,
    ensures
        all_pages(list, cursor, limit) == list.skip(cursor as int),
    decreases list.len() - cursor,
{
    match listing::next_page(list.len(), cursor, limit) {
        Some(next) => {
            law_pages_cover_the_list(list, next, limit);
            assert(listing::page(list, cursor, limit) + list.skip(next as int) =~= list.skip(
                cursor as int,
            ));
        },
        None => {
            assert(listing::page(list, cursor, limit) =~= list.skip(cursor as int));
        },
    }
}

/// Those who wait for pending appends, in order.
pub open spec fn waiting<W>(pending: Seq<PendingAppend<W>>) -> Seq<W>
    decreases pending.len(),
{
    if pending.len() == 0 {
        Seq::empty()
    } else {
        match pending.last().wait {
            Some(wait) => waiting(pending.drop_last()).push(wait),
            None => waiting(pending.drop_last()),
        }
    }
}

/// Everybody who waits for pending appends is answered once, in order, and all
/// in the same sense.
pub proof fn law_every_append_is_answered<W>(
    pending: Seq<PendingAppend<W>>,
    outcome: FlushOutcome,
)
    ensures
        worker::append_replies(pending, outcome).map_values(|r: ReplyView<W>| r.wait) == waiting(
            pending,
        ),
        forall|i: int|
            0 <= i < worker::append_replies(pending, outcome).len() ==> (
            #[trigger] worker::append_replies(pending, outcome)[i]).result is Ok == outcome is Ok,
    decreases pending.len(),
{
    let replies = worker::append_replies(pending, outcome);
    if pending.len() > 0 {
        law_every_append_is_answered(pending.drop_last(), outcome);
    }
    assert(replies.map_values(|r: ReplyView<W>| r.wait) =~= waiting(pending));
}

/// A request to append that is refused by the queue leaves everything as it was.
pub proof fn law_refused_append_changes_nothing(set: BackendView, list: Seq<Text>)
    ensures
        (BackendView {
            rules: state::without(
                set.rules + requests::appended(set, list),
                requests::appended(set, list),
            ),
            ..set
        }) == set,
{
    law_rollback_undoes_staging(set.rules, list);
}

/// Whether the rule file, the list and the lookups agree.
///
/// A listed rule is in the file, waits to be written, or is underway to the
/// worker, and only one of these. Lookups go by the rules of the file at least.
pub open spec fn in_step<W>(
    set: BackendView,
    pending: Seq<PendingAppend<W>>,
    underway: Set<Text>,
    contents: Text,
) -> bool {
    let written = storage::file_rules(contents)->0.to_set();
    let waits = worker::pending_rules(pending).to_set();
    &&& set.open_line == !storage::ends_line(contents)
    &&& storage::file_rules(contents) is Some
    &&& storage::all_canonical(set.rules)
    &&& set.rules.no_duplicates()
    &&& set.rules.to_set() == written + waits + underway
    &&& written.disjoint(waits)
    &&& written.disjoint(underway)
    &&& waits.disjoint(underway)
    &&& written.subset_of(set.compiled.to_set())
}

proof fn lemma_no_pending<W>()
    ensures
        worker::pending_rules(Seq::<PendingAppend<W>>::empty()).to_set() == Set::<Text>::empty(),
{
    assert(worker::pending_rules(Seq::<PendingAppend<W>>::empty()).to_set() =~= Set::empty());
}

/// A domain set that lists the rules of a rule file and goes by them agrees with
/// it.
pub proof fn law_loaded_set_in_step<W>(set: BackendView, contents: Text)
    requires
        set.open_line == !storage::ends_line(contents),
        storage::file_rules(contents) is Some,
        set.rules == storage::file_rules(contents)->0,
        set.compiled == storage::file_rules(contents)->0,
    ensures
        in_step(set, Seq::<PendingAppend<W>>::empty(), Set::empty(), contents),
{
    storage::law_file_rules_are_canonical(contents);
    lemma_no_pending::<W>();
    assert(set.rules.to_set() =~= set.rules.to_set() + Set::empty() + Set::empty());
}

/// A request to append keeps file, list and lookups in step, whoever else has
/// rules underway: its new rules are underway too.
pub proof fn law_staging_keeps_step<W>(
    set: BackendView,
    pending: Seq<PendingAppend<W>>,
    underway: Set<Text>,
    contents: Text,
    list: Seq<Text>,
)
    requires
        in_step(set, pending, underway, contents),
        storage::all_canonical(list),
    ensures
        in_step(
            BackendView { rules: set.rules + requests::appended(set, list), ..set },
            pending,
            underway + requests::appended(set, list).to_set(),
            contents,
        ),
{
    let added = requests::appended(set, list);
    let after = set.rules + added;
    let written = storage::file_rules(contents)->0.to_set();
    let waits = worker::pending_rules(pending).to_set();
    state::lemma_fresh(set.rules.to_set(), list);
    assert forall|r: Text| after.to_set().contains(r) <==> set.rules.to_set().contains(r)
        || added.to_set().contains(r) by {
        state::lemma_concat_contains(set.rules, added, r);
    }
    assert(after.to_set() =~= written + waits + (underway + added.to_set()));
    assert forall|r: Text| #[trigger] added.to_set().contains(r) implies !written.contains(r)
        && !waits.contains(r) by {
        assert(added.contains(r));
        assert(!set.rules.to_set().contains(r));
    }
    lemma_staged_list(set.rules, list);
}

/// Rules that are underway and do not get through are taken off the list, which
/// keeps file, list and lookups in step.
pub proof fn law_refusal_keeps_step<W>(
    set: BackendView,
    pending: Seq<PendingAppend<W>>,
    underway: Set<Text>,
    contents: Text,
    staged: Seq<Text>,
)
    requires
        in_step(set, pending, underway, contents),
        staged.to_set().subset_of(underway),
    ensures
        in_step(
            BackendView { rules: state::without(set.rules, staged), ..set },
            pending,
            underway.difference(staged.to_set()),
            contents,
        ),
{
    let left = state::without(set.rules, staged);
    let written = storage::file_rules(contents)->0.to_set();
    let waits = worker::pending_rules(pending).to_set();
    state::lemma_without(set.rules, staged);
    lemma_left_canonical(set.rules, staged);
    assert forall|r: Text| left.to_set().contains(r) <==> (written + waits + underway.difference(
        staged.to_set(),
    )).contains(r) by {
        assert(left.contains(r) <==> set.rules.contains(r) && !staged.contains(r));
        assert(set.rules.to_set().contains(r) <==> (written + waits + underway).contains(r));
        assert(staged.to_set().contains(r) ==> underway.contains(r));
    }
    assert(left.to_set() =~= written + waits + underway.difference(staged.to_set()));
}

/// Rules that reach the worker wait to be written, in whatever order they come,
/// which keeps file, list and lookups in step.
pub proof fn law_arrival_keeps_step<W>(
    set: BackendView,
    pending: Seq<PendingAppend<W>>,
    underway: Set<Text>,
    contents: Text,
    item: PendingAppend<W>,
)
    requires
        in_step(set, pending, underway, contents),
        text::texts(item.rules@).to_set().subset_of(underway),
    ensures
        in_step(
            set,
            pending.push(item),
            underway.difference(text::texts(item.rules@).to_set()),
            contents,
        ),
{
    let written = storage::file_rules(contents)->0.to_set();
    let waits = worker::pending_rules(pending);
    let arrived = text::texts(item.rules@);
    let after = worker::pending_rules(pending.push(item));
    assert(pending.push(item).drop_last() =~= pending);
    assert(after == waits + arrived);
    assert forall|r: Text| after.to_set().contains(r) <==> waits.to_set().contains(r)
        || arrived.to_set().contains(r) by {
        state::lemma_concat_contains(waits, arrived, r);
    }
    assert(set.rules.to_set() =~= written + after.to_set() + underway.difference(arrived.to_set()));
}

/// The rules that wait are canonical.
proof fn lemma_waits_canonical(list: Seq<Text>, waits: Seq<Text>)
    requires
        storage::all_canonical(list),
        waits.to_set().subset_of(list.to_set()),
    ensures
        storage::all_canonical(waits),
{
    assert forall|i: int| 0 <= i < waits.len() implies rules::is_canonical(#[trigger] waits[i]) by {
        assert(waits.to_set().contains(waits[i]));
        assert(list.to_set().contains(waits[i]));
        let k = choose|k: int| 0 <= k < list.len() && list[k] == waits[i];
        assert(rules::is_canonical(list[k]));
    }
}

/// Writing pending appends keeps file, list and lookups in step: the file then
/// holds the rules that waited as well. The rules that lookups go by from then on
/// were compiled before, when the list held all of these.
pub proof fn law_flush_keeps_step<W>(
    set: BackendView,
    pending: Seq<PendingAppend<W>>,
    underway: Set<Text>,
    contents: Text,
    compiled: Seq<Text>,
)
    requires
        in_step(set, pending, underway, contents),
        storage::file_rules(contents)->0.to_set().subset_of(compiled.to_set()),
        worker::pending_rules(pending).to_set().subset_of(compiled.to_set()),
    ensures
        in_step(
            worker::flushed(set, worker::pending_rules(pending), Ok(compiled)),
            Seq::<PendingAppend<W>>::empty(),
            underway,
            storage::extended(contents, worker::pending_rules(pending)),
        ),
        storage::file_rules(
            storage::extended(contents, worker::pending_rules(pending)),
        )->0.to_set() == storage::file_rules(contents)->0.to_set() + worker::pending_rules(
            pending,
        ).to_set(),
{
    let waits = worker::pending_rules(pending);
    let before = storage::file_rules(contents)->0;
    let file = storage::extended(contents, waits);
    lemma_waits_canonical(set.rules, waits);
    storage::law_file_append(contents, waits);
    let after = storage::file_rules(file)->0;
    let added = state::fresh(before.to_set(), waits);
    state::lemma_fresh(before.to_set(), waits);
    assert forall|r: Text| after.to_set().contains(r) <==> (before.to_set()
        + waits.to_set()).contains(r) by {
        state::lemma_concat_contains(before, added, r);
        assert(added.contains(r) <==> waits.contains(r) && !before.to_set().contains(r));
    }
    assert(after.to_set() =~= before.to_set() + waits.to_set());
    lemma_no_pending::<W>();
    assert(set.rules.to_set() =~= after.to_set() + Set::empty() + underway);
}

/// Rules that are listed in the order in which they reach the file are listed by
/// the file in that order.
pub proof fn law_flush_keeps_order(contents: Text, list: Seq<Text>, waits: Seq<Text>)
    requires
        storage::file_rules(contents) is Some,
        list == storage::file_rules(contents)->0 + waits,
        list.no_duplicates(),
        storage::all_canonical(list),
    ensures
        storage::file_rules(storage::extended(contents, waits)) == Some(list),
{
    let before = storage::file_rules(contents)->0;
    let n = before.len() as int;
    assert forall|i: int| 0 <= i < waits.len() implies rules::is_canonical(#[trigger] waits[i]) by {
        assert(list[n + i] == waits[i]);
    }
    assert forall|i: int, j: int| 0 <= i < j < waits.len() implies waits[i] != waits[j] by {
        assert(list[n + i] == waits[i]);
        assert(list[n + j] == waits[j]);
    }
    assert forall|r: Text| #[trigger] waits.contains(r) implies !before.to_set().contains(r) by {
        let i = choose|i: int| 0 <= i < waits.len() && waits[i] == r;
        assert(list[n + i] == r);
        if before.contains(r) {
            let j = choose|j: int| 0 <= j < before.len() && before[j] == r;
            assert(list[j] == r);
        }
    }
    storage::law_file_append(contents, waits);
    state::lemma_fresh_all(before.to_set(), waits);
}

/// Appends that could not be written are taken off the list, which keeps file,
/// list and lookups in step.
pub proof fn law_failed_flush_keeps_step<W>(
    set: BackendView,
    pending: Seq<PendingAppend<W>>,
    underway: Set<Text>,
    contents: Text,
    message: Text,
)
    requires
        in_step(set, pending, underway, contents),
    ensures
        in_step(
            worker::flushed(set, worker::pending_rules(pending), Err(message)),
            Seq::<PendingAppend<W>>::empty(),
            underway,
            contents,
        ),
{
    let waits = worker::pending_rules(pending);
    let written = storage::file_rules(contents)->0.to_set();
    let left = state::without(set.rules, waits);
    state::lemma_without(set.rules, waits);
    lemma_left_canonical(set.rules, waits);
    lemma_no_pending::<W>();
    assert forall|r: Text| left.to_set().contains(r) <==> (written + Set::empty()
        + underway).contains(r) by {
        assert(left.contains(r) <==> set.rules.contains(r) && !waits.contains(r));
        assert(set.rules.to_set().contains(r) <==> (written + waits.to_set() + underway).contains(r));
        assert(waits.to_set().contains(r) <==> waits.contains(r));
    }
    assert(left.to_set() =~= written + Set::empty() + underway);
}

/// A removal after which the file was rewritten leaves file, list and lookups in
/// step, if nothing is underway: the file lists the rules of the list, and lookups
/// go by these, or, if they do not compile, still by rules that include them.
pub proof fn law_removal_keeps_step<W>(set: BackendView, next: Next<W>, compiled: Seq<Text>)
    requires
        storage::all_canonical(set.rules),
        set.rules.no_duplicates(),
        next is Remove || next is Clear,
        worker::begun(set, next).rules.to_set().subset_of(compiled.to_set()),
    ensures
        in_step(
            BackendView { compiled, open_line: false, ..worker::begun(set, next) },
            Seq::<PendingAppend<W>>::empty(),
            Set::empty(),
            storage::rendered(worker::begun(set, next).rules),
        ),
        storage::file_rules(storage::rendered(worker::begun(set, next).rules)) == Some(
            worker::begun(set, next).rules,
        ),
{
    let left = worker::begun(set, next).rules;
    lemma_begun(set, next);
    storage::lemma_rendered_rules(left);
    storage::law_file_reads_back(left);
    lemma_no_pending::<W>();
    assert(left.to_set() =~= left.to_set() + Set::empty() + Set::empty());
}

/// What a removal leaves is canonical, listed once, and was listed before.
proof fn lemma_begun<W>(set: BackendView, next: Next<W>)
    requires
        storage::all_canonical(set.rules),
        set.rules.no_duplicates(),
    ensures
        storage::all_canonical(worker::begun(set, next).rules),
        worker::begun(set, next).rules.no_duplicates(),
        worker::begun(set, next).rules.to_set().subset_of(set.rules.to_set()),
{
    let left = worker::begun(set, next).rules;
    match next {
        Next::Remove { rules, .. } => {
            let gone = text::texts(rules@);
            state::lemma_without(set.rules, gone);
            lemma_left_canonical(set.rules, gone);
            assert forall|r: Text| left.to_set().contains(r) implies set.rules.to_set().contains(r) by {
                assert(state::without(set.rules, gone).contains(r));
            }
        },
        _ => {},
    }
}

/// Reloading while nothing waits or is underway keeps the rules of the list.
pub proof fn law_reload_keeps_the_rules<W>(set: BackendView, contents: Text)
    requires
        in_step(set, Seq::<PendingAppend<W>>::empty(), Set::empty(), contents),
    ensures
        storage::file_rules(contents)->0.to_set() == set.rules.to_set(),
{
    lemma_no_pending::<W>();
    let written = storage::file_rules(contents)->0.to_set();
    assert(written + Set::empty() + Set::empty() =~= written);
}

/// The domain set, the pending appends and the rule file at one time.
pub struct Moment<W> {
    pub set: BackendView,
    pub pending: Seq<PendingAppend<W>>,
    pub contents: Text,
}

/// What came of the work outside that one event can call for. An error is given
/// by its message.
pub struct Outcomes {
    /// Compiling the list before pending appends are written.
    pub compiled: Result<(), Text>,
    /// Appending their rules to the file.
    pub appended: Result<(), Text>,
    /// Rewriting the file for a removal, or reading it for a reload.
    pub replaced: Result<(), Text>,
    /// Compiling the rules that this leaves.
    pub recompiled: Result<(), Text>,
}

/// What became of pending appends.
pub open spec fn flush_came_to(list: Seq<Text>, outcomes: Outcomes) -> FlushOutcome {
    match outcomes.compiled {
        Err(message) => Err(message),
        Ok(_) => match outcomes.appended {
            Err(message) => Err(message),
            Ok(_) => Ok(list),
        },
    }
}

/// Once pending appends have been dealt with. Their text reaches the file only if
/// the list compiled and the file could be written.
pub open spec fn after_flush<W>(before: Moment<W>, outcomes: Outcomes) -> Moment<W> {
    let waits = worker::pending_rules(before.pending);
    let outcome = flush_came_to(before.set.rules, outcomes);
    if before.pending.len() == 0 {
        before
    } else {
        Moment {
            set: worker::flushed(before.set, waits, outcome),
            pending: Seq::empty(),
            contents: match outcome {
                Ok(_) => before.contents + storage::append_text(before.set.open_line, waits),
                Err(_) => before.contents,
            },
        }
    }
}

/// Once what comes next has been done as well. A file that could not be rewritten
/// is as it was.
pub open spec fn after_next<W>(before: Moment<W>, next: Next<W>, outcomes: Outcomes) -> Moment<W> {
    let set = worker::begun(before.set, next);
    match next {
        Next::Remove { .. } | Next::Clear { .. } => match outcomes.replaced {
            Err(_) => Moment { set, ..before },
            Ok(_) => Moment {
                set: BackendView {
                    compiled: if outcomes.recompiled is Ok {
                        set.rules
                    } else {
                        set.compiled
                    },
                    open_line: false,
                    ..set
                },
                contents: storage::rendered(set.rules),
                ..before
            },
        },
        Next::Reload { .. } => {
            let read = BackendView { open_line: !storage::ends_line(before.contents), ..set };
            match (outcomes.replaced, storage::file_rules(before.contents)) {
                (Err(_), _) => before,
                (Ok(_), Some(list)) if outcomes.recompiled is Ok => Moment {
                    set: BackendView { rules: list, compiled: list, ..read },
                    ..before
                },
                _ => Moment { set: read, ..before },
            }
        },
        _ => Moment { set, ..before },
    }
}

/// Once the worker has dealt with an event, whatever came of the work outside.
pub open spec fn settled<W>(
    before: Moment<W>,
    event: WorkerEvent<W>,
    outcomes: Outcomes,
) -> Moment<W> {
    match arrived(before, event).1 {
        None => arrived(before, event).0,
        Some(next) => after_next(after_flush(arrived(before, event).0, outcomes), next, outcomes),
    }
}

/// Once an event has come in, with what it asks for.
pub open spec fn arrived<W>(before: Moment<W>, event: WorkerEvent<W>) -> (
    Moment<W>,
    Option<Next<W>>,
) {
    let (pending, next) = worker::received(
        before.pending,
        event,
        before.set.config.batch_size as nat,
    );
    (Moment { pending, ..before }, next)
}

/// Whether an event asks for rules to be taken out of the file.
pub open spec fn removes<W>(event: WorkerEvent<W>) -> bool {
    match event {
        WorkerEvent::Command(WorkerCommand::Remove { .. }) => true,
        WorkerEvent::Command(WorkerCommand::Clear { .. }) => true,
        _ => false,
    }
}

/// Whether an event replaces the contents of the file or of the list.
pub open spec fn replaces<W>(event: WorkerEvent<W>) -> bool {
    removes(event) || event matches WorkerEvent::Command(WorkerCommand::Reload { .. })
}

/// Appends that fail are not written: a failure to compile comes before the file
/// is asked for, and what the worker asks for next is never an append.
pub proof fn law_failed_appends_are_not_written<W>(
    before: Moment<W>,
    event: WorkerEvent<W>,
    outcomes: Outcomes,
    step: Step<W>,
    next: Next<W>,
)
    requires
        flush_came_to(before.set.rules, outcomes) is Err,
    ensures
        !removes(event) ==> settled(before, event, outcomes).contents == before.contents,
        worker::begins(step, next, before.set) ==> !(step is Append),
{
}

/// Whatever the worker is asked to do, and whether or not rules compile and
/// pending appends can be written, it keeps file, list and lookups in step.
/// Unless it goes on to fill a batch nothing waits afterwards, and if nothing is
/// underway either, the file lists the rules of the list.
///
/// There are two exceptions. A removal whose file could not be rewritten has taken
/// its rules off the list, but not out of the file. And what replaces the file or
/// the list takes no account of rules that are underway at that time.
pub proof fn law_worker_keeps_step<W>(
    before: Moment<W>,
    underway: Set<Text>,
    event: WorkerEvent<W>,
    outcomes: Outcomes,
)
    requires
        in_step(before.set, arrived(before, event).0.pending, underway, before.contents),
        replaces(event) ==> underway == Set::<Text>::empty(),
        removes(event) ==> outcomes.replaced is Ok,
    ensures
        ({
            let after = settled(before, event, outcomes);
            &&& in_step(after.set, after.pending, underway, after.contents)
            &&& arrived(before, event).1 is Some ==> after.pending.len() == 0
            &&& after.pending.len() == 0 && underway == Set::<Text>::empty()
                ==> storage::file_rules(after.contents)->0.to_set() == after.set.rules.to_set()
            &&& removes(event) ==> storage::file_rules(after.contents) == Some(after.set.rules)
        }),
{
    let (grown, next) = arrived(before, event);
    let none = Seq::<PendingAppend<W>>::empty();
    let after = settled(before, event, outcomes);
    if let Some(next) = next {
        let mid = after_flush(grown, outcomes);
        lemma_flush_in_step(grown, underway, outcomes);
        if next is Remove || next is Clear {
            let set = worker::begun(mid.set, next);
            lemma_begun(mid.set, next);
            law_reload_keeps_the_rules::<W>(mid.set, mid.contents);
            assert(set.rules.to_set().subset_of(mid.set.compiled.to_set()));
            law_removal_keeps_step::<W>(mid.set, next, after.set.compiled);
        }
        if next is Reload {
            if after.set.rules != mid.set.rules || after.set.compiled != mid.set.compiled {
                law_loaded_set_in_step::<W>(after.set, mid.contents);
            }
        }
        assert(after.pending =~= none);
    }
    if after.pending.len() == 0 && underway == Set::<Text>::empty() {
        assert(after.pending =~= none);
        law_reload_keeps_the_rules::<W>(after.set, after.contents);
    }
}

proof fn lemma_flush_in_step<W>(before: Moment<W>, underway: Set<Text>, outcomes: Outcomes)
    requires
        in_step(before.set, before.pending, underway, before.contents),
    ensures
        after_flush(before, outcomes).pending == Seq::<PendingAppend<W>>::empty(),
        in_step(
            after_flush(before, outcomes).set,
            Seq::<PendingAppend<W>>::empty(),
            underway,
            after_flush(before, outcomes).contents,
        ),
{
    if before.pending.len() == 0 {
        assert(before.pending =~= Seq::empty());
    } else {
        match flush_came_to(before.set.rules, outcomes) {
            Ok(compiled) => {
                law_flush_keeps_step(
                    before.set,
                    before.pending,
                    underway,
                    before.contents,
                    compiled,
                );
            },
            Err(message) => {
                law_failed_flush_keeps_step(
                    before.set,
                    before.pending,
                    underway,
                    before.contents,
                    message,
                );
            },
        }
    }
}

/// An outcome with the error message alone.
pub open spec fn outcome_of<T>(res: Result<T, DnsError>) -> Result<(), Text> {
    match res {
        Ok(_) => Ok(()),
        Err(err) => Err(err@.message()),
    }
}

/// Where the worker stands once the pending appends are dealt with and it has
/// begun what an event asks for.
pub open spec fn stands<W>(
    before: Moment<W>,
    event: WorkerEvent<W>,
    outcomes: Outcomes,
    step: Step<W>,
    now: Moment<W>,
) -> bool {
    match arrived(before, event).1 {
        None => step == Step::<W>::Wait && now == settled(before, event, outcomes),
        Some(next) => {
            let mid = after_flush(arrived(before, event).0, outcomes);
            &&& worker::begins(step, next, mid.set)
            &&& now == Moment { set: worker::begun(mid.set, next), ..mid }
        },
    }
}

/// An event that does not get as far as the file leaves the worker where
/// [`stands`] says.
pub proof fn law_receive_stands<W>(
    before: Moment<W>,
    event: WorkerEvent<W>,
    res: Progress<W>,
    now: Moment<W>,
    outcomes: Outcomes,
)
    requires
        worker::receive_came_to(before.set, before.pending, event, res, now.set, now.pending),
        !(res.step is Append),
        now.contents == before.contents,
        outcomes.compiled == match res.failure {
            Some(message) => Err::<(), Text>(message@),
            None => Ok::<(), Text>(()),
        },
    ensures
        stands(before, event, outcomes, res.step, now),
{
}

/// An event whose pending appends were to be written leaves the worker where
/// [`stands`] says, whatever came of that.
pub proof fn law_append_stands<W>(
    before: Moment<W>,
    event: WorkerEvent<W>,
    asked: Progress<W>,
    waits: Seq<PendingAppend<W>>,
    flush: Flush,
    next: Next<W>,
    written: Result<(), DnsError>,
    res: Progress<W>,
    now: Moment<W>,
    outcomes: Outcomes,
)
    requires
        worker::receive_came_to(before.set, before.pending, event, asked, before.set, waits),
        asked.step == (Step::Append { flush, next }),
        worker::append_came_to(before.set, waits, flush, written, next, res, now.set),
        now.pending == Seq::<PendingAppend<W>>::empty(),
        now.contents == match written {
            Ok(_) => before.contents + flush.contents@,
            Err(_) => before.contents,
        },
        outcomes.compiled is Ok,
        outcomes.appended == outcome_of(written),
    ensures
        stands(before, event, outcomes, res.step, now),
{
}

/// A worker that asks for nothing but the next event, or for its end, has settled
/// the last one.
pub proof fn law_waiting_is_settled<W>(
    before: Moment<W>,
    event: WorkerEvent<W>,
    outcomes: Outcomes,
    step: Step<W>,
    now: Moment<W>,
)
    requires
        stands(before, event, outcomes, step, now),
        step is Wait || step is Stop,
    ensures
        now == settled(before, event, outcomes),
{
}

/// A removal is settled once the file was to be rewritten with the text that the
/// worker asked for. Its answer counts the rules that left the list.
pub proof fn law_removal_is_settled<W>(
    before: Moment<W>,
    event: WorkerEvent<W>,
    outcomes: Outcomes,
    text: String,
    rewrite: Rewrite,
    wait: W,
    now: Moment<W>,
    written: Result<(), DnsError>,
    answer: Result<DynamicDomainMutation, DnsError>,
    after: Moment<W>,
)
    requires
        stands(
            before,
            event,
            outcomes,
            Step::Rewrite { contents: text, rewrite, wait },
            now,
        ),
        storage::all_canonical(now.set.rules),
        backend::rewrite_came_to(now.set, rewrite, written, answer, after.set),
        after.pending == now.pending,
        after.contents == match written {
            Ok(_) => text@,
            Err(_) => now.contents,
        },
        outcomes.replaced == outcome_of(written),
        written is Ok ==> outcomes.recompiled == outcome_of(answer),
    ensures
        after == settled(before, event, outcomes),
        answer is Ok ==> answer->Ok_0 == rewrite.mutation,
{
    backend::lemma_canonical_list(now.set.rules);
    if event matches WorkerEvent::Command(WorkerCommand::Clear { .. }) {
        assert(storage::rendered(Seq::<Text>::empty()) =~= Seq::<char>::empty());
        assert(text::texts(rewrite.rules@) == now.set.rules);
    }
}

/// A reload is settled once the file was to be read. Its answer counts the rules
/// of the file.
pub proof fn law_reload_is_settled<W>(
    before: Moment<W>,
    event: WorkerEvent<W>,
    outcomes: Outcomes,
    wait: W,
    now: Moment<W>,
    contents: Result<String, DnsError>,
    answer: Result<DynamicDomainMutation, DnsError>,
    after: Moment<W>,
)
    requires
        stands(before, event, outcomes, Step::Read { wait }, now),
        contents matches Ok(text) ==> text@ == now.contents,
        backend::reload_came_to(now.set, contents, answer, after.set),
        after.pending == now.pending,
        after.contents == now.contents,
        outcomes.replaced == outcome_of(contents),
        contents is Ok ==> outcomes.recompiled == outcome_of(answer),
    ensures
        after == settled(before, event, outcomes),
        answer matches Ok(mutation) ==> mutation == backend::counted(
            0,
            0,
            storage::file_rules(now.contents)->0.len(),
        ),
{
}

/// Whether the list is what the file lists followed by what waits to be written.
/// This is so as long as rules reach the worker in the order in which they were
/// listed, as with a single caller.
pub open spec fn in_order<W>(at: Moment<W>) -> bool {
    &&& at.set.open_line == !storage::ends_line(at.contents)
    &&& storage::file_rules(at.contents) is Some
    &&& storage::all_canonical(at.set.rules)
    &&& at.set.rules.no_duplicates()
    &&& at.set.rules == storage::file_rules(at.contents)->0 + worker::pending_rules(at.pending)
}

/// A domain set that was loaded from a rule file lists its rules in order.
pub proof fn law_loaded_set_in_order<W>(set: BackendView, contents: Text)
    requires
        set.open_line == !storage::ends_line(contents),
        storage::file_rules(contents) is Some,
        set.rules == storage::file_rules(contents)->0,
    ensures
        in_order(Moment::<W> { set, pending: Seq::empty(), contents }),
{
    storage::law_file_rules_are_canonical(contents);
    assert(set.rules + Seq::<Text>::empty() =~= set.rules);
}

/// Whatever the worker is asked to do, and whether or not rules compile and
/// pending appends can be written, it keeps the list in the order of the file,
/// except after a removal whose file could not be rewritten.
pub proof fn law_worker_keeps_order<W>(
    before: Moment<W>,
    event: WorkerEvent<W>,
    outcomes: Outcomes,
)
    requires
        in_order(arrived(before, event).0),
        removes(event) ==> outcomes.replaced is Ok,
    ensures
        in_order(settled(before, event, outcomes)),
        arrived(before, event).1 is Some ==> storage::file_rules(
            settled(before, event, outcomes).contents,
        ) == Some(settled(before, event, outcomes).set.rules),
{
    let (grown, next) = arrived(before, event);
    let after = settled(before, event, outcomes);
    if let Some(next) = next {
        let mid = after_flush(grown, outcomes);
        lemma_flush_in_order(grown, outcomes);
        if next is Remove || next is Clear {
            let left = worker::begun(mid.set, next).rules;
            lemma_begun(mid.set, next);
            storage::lemma_rendered_rules(left);
            storage::law_file_reads_back(left);
        }
        law_loaded_set_in_order::<W>(after.set, after.contents);
        assert(after.pending =~= Seq::empty());
    }
}

proof fn lemma_flush_in_order<W>(before: Moment<W>, outcomes: Outcomes)
    requires
        in_order(before),
    ensures
        in_order(after_flush(before, outcomes)),
        after_flush(before, outcomes).pending == Seq::<PendingAppend<W>>::empty(),
        storage::file_rules(after_flush(before, outcomes).contents) == Some(
            after_flush(before, outcomes).set.rules,
        ),
        flush_came_to(before.set.rules, outcomes) is Ok ==> after_flush(before, outcomes).set.rules
            == before.set.rules,
{
    let waits = worker::pending_rules(before.pending);
    let written = storage::file_rules(before.contents)->0;
    let after = after_flush(before, outcomes);
    if before.pending.len() == 0 {
        assert(before.pending =~= Seq::empty());
        assert(written + waits =~= written);
    } else {
        match flush_came_to(before.set.rules, outcomes) {
            Ok(_) => {
                law_flush_keeps_order(before.contents, before.set.rules, waits);
                lemma_tail_canonical(written, waits);
                storage::law_file_append(before.contents, waits);
                law_loaded_set_in_order::<W>(after.set, after.contents);
            },
            Err(_) => {
                assert(state::without(written + waits, waits) == written) by {
                    lemma_apart(written, waits);
                    lemma_without_tail(written, waits);
                }
                law_loaded_set_in_order::<W>(after.set, after.contents);
            },
        }
    }
}

proof fn lemma_tail_canonical(head: Seq<Text>, tail: Seq<Text>)
    requires
        storage::all_canonical(head + tail),
    ensures
        storage::all_canonical(tail),
{
    assert forall|i: int| 0 <= i < tail.len() implies rules::is_canonical(#[trigger] tail[i]) by {
        assert((head + tail)[head.len() + i] == tail[i]);
    }
}

proof fn lemma_apart(head: Seq<Text>, tail: Seq<Text>)
    requires
        (head + tail).no_duplicates(),
    ensures
        forall|r: Text| #[trigger] head.contains(r) ==> !tail.contains(r),
{
    assert forall|r: Text| #[trigger] head.contains(r) implies !tail.contains(r) by {
        if tail.contains(r) {
            let i = choose|i: int| 0 <= i < head.len() && head[i] == r;
            let j = choose|j: int| 0 <= j < tail.len() && tail[j] == r;
            assert((head + tail)[i] == r);
            assert((head + tail)[head.len() + j] == r);
        }
    }
}

/// What a single caller asks for.
pub enum Request<W> {
    /// That rules with the given canonical texts be appended. The new ones among
    /// them go to the worker.
    Append { list: Seq<Text>, item: PendingAppend<W> },
    /// Anything else that the worker deals with.
    Event { event: WorkerEvent<W> },
}

/// The domain set once the new rules of an append are listed.
pub open spec fn staged<W>(before: Moment<W>, list: Seq<Text>) -> Moment<W> {
    Moment {
        set: BackendView {
            rules: before.set.rules + requests::appended(before.set, list),
            ..before.set
        },
        ..before
    }
}

/// Whether a request leads from one moment to another, given what came of the
/// work outside.
pub open spec fn served<W>(
    before: Moment<W>,
    request: Request<W>,
    outcomes: Outcomes,
    after: Moment<W>,
) -> bool {
    match request {
        Request::Append { list, item } => {
            &&& storage::all_canonical(list)
            &&& text::texts(item.rules@) == requests::appended(before.set, list)
            &&& after == if requests::appended(before.set, list).len() == 0 {
                before
            } else {
                settled(
                    staged(before, list),
                    WorkerEvent::Command(
                        WorkerCommand::Append { rules: item.rules, wait: item.wait },
                    ),
                    outcomes,
                )
            }
        },
        Request::Event { event } => {
            &&& !(event matches WorkerEvent::Command(WorkerCommand::Append { .. }))
            &&& removes(event) ==> outcomes.replaced is Ok
            &&& after == settled(before, event, outcomes)
        },
    }
}

/// Whether requests lead from moment to moment. Every removal among them found
/// its file rewritten.
pub open spec fn is_run<W>(
    moments: Seq<Moment<W>>,
    requests: Seq<Request<W>>,
    outcomes: Seq<Outcomes>,
) -> bool {
    &&& moments.len() == requests.len() + 1
    &&& outcomes.len() == requests.len()
    &&& forall|i: int|
        0 <= i < requests.len() ==> served(
            moments[i],
            #[trigger] requests[i],
            outcomes[i],
            moments[i + 1],
        )
}

/// A request of a single caller keeps the list in the order of the file.
pub proof fn law_request_keeps_order<W>(
    before: Moment<W>,
    request: Request<W>,
    outcomes: Outcomes,
    after: Moment<W>,
)
    requires
        in_order(before),
        served(before, request, outcomes, after),
    ensures
        in_order(after),
{
    match request {
        Request::Append { list, item } => {
            let added = requests::appended(before.set, list);
            if added.len() > 0 {
                let listed = staged(before, list);
                let event = WorkerEvent::Command(
                    WorkerCommand::Append { rules: item.rules, wait: item.wait },
                );
                let grown = before.pending.push(
                    PendingAppend { rules: item.rules, wait: item.wait },
                );
                assert(grown.drop_last() =~= before.pending);
                assert(listed.set.rules =~= storage::file_rules(before.contents)->0
                    + worker::pending_rules(grown));
                lemma_staged_list(before.set.rules, list);
                law_worker_keeps_order(listed, event, outcomes);
            }
        },
        Request::Event { event } => {
            law_worker_keeps_order(before, event, outcomes);
        },
    }
}

/// A list to which new canonical rules were added is canonical and names each
/// rule once.
proof fn lemma_staged_list(before: Seq<Text>, list: Seq<Text>)
    requires
        storage::all_canonical(before),
        before.no_duplicates(),
        storage::all_canonical(list),
    ensures
        storage::all_canonical(before + state::fresh(before.to_set(), list)),
        (before + state::fresh(before.to_set(), list)).no_duplicates(),
{
    let added = state::fresh(before.to_set(), list);
    let after = before + added;
    state::lemma_fresh(before.to_set(), list);
    assert forall|i: int| 0 <= i < after.len() implies rules::is_canonical(#[trigger] after[i]) by {
        if i < before.len() {
            assert(after[i] == before[i]);
        } else {
            assert(after[i] == added[i - before.len()]);
            assert(added.contains(added[i - before.len()]));
            let k = choose|k: int| 0 <= k < list.len() && list[k] == after[i];
            assert(rules::is_canonical(list[k]));
        }
    }
    assert forall|i: int, j: int| 0 <= i < j < after.len() implies after[i] != after[j] by {
        if j >= before.len() {
            assert(added.contains(added[j - before.len()]));
            assert(!before.to_set().contains(after[j]));
            if i < before.len() {
                assert(before.contains(before[i]));
            }
        }
    }
}

/// After any run of requests of a single caller the list is what the file lists
/// followed by what waits to be written.
pub proof fn law_run_keeps_order<W>(
    moments: Seq<Moment<W>>,
    requests: Seq<Request<W>>,
    outcomes: Seq<Outcomes>,
)
    requires
        is_run(moments, requests, outcomes),
        in_order(moments[0]),
    ensures
        in_order(moments.last()),
    decreases requests.len(),
{
    if requests.len() > 0 {
        let n = requests.len() - 1;
        let front = requests.drop_last();
        assert forall|i: int| 0 <= i < front.len() implies served(
            moments.drop_last()[i],
            #[trigger] front[i],
            outcomes.drop_last()[i],
            moments.drop_last()[i + 1],
        ) by {
            assert(front[i] == requests[i]);
        }
        law_run_keeps_order(moments.drop_last(), front, outcomes.drop_last());
        assert(served(moments[n], requests[n], outcomes[n], moments[n + 1]));
        law_request_keeps_order(moments[n], requests[n], outcomes[n], moments[n + 1]);
    }
}

/// After any run of requests of a single caller a reload keeps the list, with its
/// order: no pending append is lost, no removed rule reappears, and no rule shows
/// up twice. The file that is read lists exactly the list, so that its length is
/// the number that the answer gives.
///
/// The pending appends must be written for that. Whether the file can then be read
/// and its rules compile makes no difference to the list.
pub proof fn law_reload_keeps_the_list<W>(
    moments: Seq<Moment<W>>,
    requests: Seq<Request<W>>,
    outcomes: Seq<Outcomes>,
    wait: W,
    reload: Outcomes,
)
    requires
        is_run(moments, requests, outcomes),
        in_order(moments[0]),
        moments.last().pending.len() > 0 ==> flush_came_to(moments.last().set.rules, reload) is Ok,
    ensures
        ({
            let before = moments.last();
            let event = WorkerEvent::Command(WorkerCommand::Reload { wait });
            let after = settled(before, event, reload);
            &&& after.set.rules == before.set.rules
            &&& after.pending.len() == 0
            &&& after.contents == after_flush(before, reload).contents
            &&& storage::file_rules(after.contents) == Some(before.set.rules)
        }),
{
    let before = moments.last();
    law_run_keeps_order(moments, requests, outcomes);
    lemma_flush_in_order(before, reload);
    assert(arrived(before, WorkerEvent::Command(WorkerCommand::Reload { wait })).0 == before);
}

/// An append that is acknowledged is durable: its rules are in the file, behind
/// whatever it held, and if they were listed when the list was compiled lookups
/// go by them.
pub proof fn law_acknowledged_append_is_durable<W>(
    set: BackendView,
    pending: Seq<PendingAppend<W>>,
    contents: Text,
    compiled: Seq<Text>,
    rule: Text,
    name: Text,
)
    requires
        set.open_line == !storage::ends_line(contents),
        storage::file_rules(contents) is Some,
        storage::all_canonical(worker::pending_rules(pending)),
        worker::pending_rules(pending).contains(rule),
    ensures
        storage::file_rules(
            contents + storage::append_text(set.open_line, worker::pending_rules(pending)),
        ) matches Some(list) && list.contains(rule),
        compiled.contains(rule) && matcher::rule_matches(rule, name) ==> matcher::any_match(
            worker::flushed(set, worker::pending_rules(pending), Ok(compiled)).compiled,
            name,
        ),
{
    let waits = worker::pending_rules(pending);
    let before = storage::file_rules(contents)->0;
    let added = state::fresh(before.to_set(), waits);
    storage::law_file_append(contents, waits);
    state::lemma_fresh(before.to_set(), waits);
    state::lemma_concat_contains(before, added, rule);
    assert(added.contains(rule) <==> waits.contains(rule) && !before.to_set().contains(rule));
    if compiled.contains(rule) {
        let i = choose|i: int| 0 <= i < compiled.len() && compiled[i] == rule;
        assert(compiled[i] == rule);
    }
}

/// A reload of a file that lists the list is answered with its length and keeps
/// it. Without regular expressions it always succeeds.
pub proof fn law_reload_counts_the_list(
    set: BackendView,
    contents: String,
    answer: Result<DynamicDomainMutation, DnsError>,
    after: BackendView,
)
    requires
        backend::reload_came_to(set, Ok(contents), answer, after),
        storage::file_rules(contents@) == Some(set.rules),
    ensures
        after.rules == set.rules,
        answer matches Ok(mutation) ==> mutation == backend::counted(0, 0, set.rules.len()),
        answer is Ok ==> after.compiled == set.rules,
        !backend::has_regexp(set.rules) ==> answer is Ok,
{
}

/// Rules whose append failed can be appended again.
pub proof fn law_failed_append_can_be_retried(set: BackendView, list: Seq<Text>, message: Text)
    ensures
        requests::appended(
            worker::flushed(
                BackendView { rules: set.rules + requests::appended(set, list), ..set },
                requests::appended(set, list),
                Err(message),
            ),
            list,
        ) == requests::appended(set, list),
{
    law_rollback_undoes_staging(set.rules, list);
}

} // verus!
