//! In which order rules are listed, and how the list is read.
use crate::backend::{DynamicDomainSetBackend, Rewrite};
use crate::listing::RulesListResponse;
use crate::requests;
use crate::requests::AppendStep;
use crate::rules;
use crate::rules::DynamicDomainRuleKind;
use crate::state;
use crate::state::RuleState;
use crate::text;
use crate::text::Text;
use vstd::prelude::*;

verus! {

/// Whether one rule is listed somewhere in front of another.
pub open spec fn ahead(list: Seq<Text>, a: Text, b: Text) -> bool {
    exists|i: int, j: int|
        0 <= i < j < list.len() && #[trigger] list[i] == a && #[trigger] list[j] == b
}

/// Whether positions in a list go up.
pub open spec fn rising(at: Seq<int>, length: nat) -> bool {
    &&& forall|i: int| 0 <= i < at.len() ==> 0 <= #[trigger] at[i] < length
    &&& forall|i: int, j: int| 0 <= i < j < at.len() ==> #[trigger] at[i] < #[trigger] at[j]
}

/// Whether a list is what stands at given positions of another.
pub open spec fn picked(part: Seq<Text>, whole: Seq<Text>, at: Seq<int>) -> bool {
    &&& rising(at, whole.len())
    &&& part.len() == at.len()
    &&& forall|i: int| 0 <= i < part.len() ==> #[trigger] part[i] == whole[at[i]]
}

/// Whether a list is another one of which some rules are left out.
pub open spec fn subsequence(part: Seq<Text>, whole: Seq<Text>) -> bool {
    exists|at: Seq<int>| #[trigger] picked(part, whole, at)
}

proof fn lemma_kept_positions(list: Seq<Text>, gone: Seq<Text>) -> (at: Seq<int>)
    ensures
        picked(state::without(list, gone), list, at),
        forall|k: int|
            0 <= k < list.len() && !gone.contains(#[trigger] list[k]) ==> at.contains(k),
        forall|i: int| 0 <= i < at.len() ==> !gone.contains(list[#[trigger] at[i]]),
    decreases list.len(),
{
    reveal(Seq::filter);
    let left = state::without(list, gone);
    if list.len() == 0 {
        Seq::empty()
    } else {
        let front = list.drop_last();
        let before = lemma_kept_positions(front, gone);
        let n = list.len() - 1;
        assert(list.last() == list[n]);
        let at = if gone.contains(list[n]) {
            before
        } else {
            before.push(n)
        };
        assert forall|i: int| 0 <= i < left.len() implies #[trigger] left[i] == list[at[i]] by {
            if i < before.len() {
                assert(state::without(front, gone)[i] == front[before[i]]);
                assert(at[i] == before[i]);
            }
        }
        assert forall|k: int| 0 <= k < list.len() && !gone.contains(
            #[trigger] list[k],
        ) implies at.contains(k) by {
            if k < n {
                assert(front[k] == list[k]);
                assert(before.contains(k));
                let i = choose|i: int| 0 <= i < before.len() && before[i] == k;
                assert(at[i] == k);
            } else {
                assert(at[before.len() as int] == k);
            }
        }
        assert forall|i: int| 0 <= i < at.len() implies !gone.contains(list[#[trigger] at[i]]) by {
            if i < before.len() {
                assert(at[i] == before[i]);
                assert(front[before[i]] == list[before[i]]);
            }
        }
        assert forall|i: int, j: int| 0 <= i < j < at.len() implies #[trigger] at[i]
            < #[trigger] at[j] by {
            assert(at[i] == before[i]);
            if j < before.len() {
                assert(at[j] == before[j]);
            }
        }
        at
    }
}

/// Taking rules off a list leaves the others where they stand to each other: of
/// two rules that are left, the one that was listed first is still listed first.
/// Nothing that was not to go is gone, and nothing that was to go is left.
pub proof fn law_removal_keeps_order(list: Seq<Text>, gone: Seq<Text>, a: Text, b: Text)
    ensures
        subsequence(state::without(list, gone), list),
        state::without(list, gone).contains(a) <==> list.contains(a) && !gone.contains(a),
        ahead(state::without(list, gone), a, b) <==> {
            &&& ahead(list, a, b)
            &&& !gone.contains(a)
            &&& !gone.contains(b)
        },
{
    let left = state::without(list, gone);
    let at = lemma_kept_positions(list, gone);
    state::lemma_without(list, gone);
    if ahead(left, a, b) {
        let (i, j) = choose|i: int, j: int|
            0 <= i < j < left.len() && #[trigger] left[i] == a && #[trigger] left[j] == b;
        assert(list[at[i]] == a);
        assert(list[at[j]] == b);
        assert(at[i] < at[j]);
    }
    if ahead(list, a, b) && !gone.contains(a) && !gone.contains(b) {
        let (i, j) = choose|i: int, j: int|
            0 <= i < j < list.len() && #[trigger] list[i] == a && #[trigger] list[j] == b;
        assert(at.contains(i));
        assert(at.contains(j));
        let p = choose|p: int| 0 <= p < at.len() && at[p] == i;
        let q = choose|q: int| 0 <= q < at.len() && at[q] == j;
        if q < p {
            assert(at[q] < at[p]);
        }
        assert(left[p] == a);
        assert(left[q] == b);
    }
}

/// The ordered list itself keeps its order when rules are taken off it.
pub proof fn law_discard_keeps_order(list: &mut RuleState, gone: &Vec<String>, a: Text, b: Text)
    requires
        call_ensures(RuleState::discard, (list, gone), ()),
    ensures
        subsequence(final(list)@, old(list)@),
        final(list)@.contains(a) <==> old(list)@.contains(a) && !text::texts(gone@).contains(a),
        ahead(final(list)@, a, b) <==> {
            &&& ahead(old(list)@, a, b)
            &&& !text::texts(gone@).contains(a)
            &&& !text::texts(gone@).contains(b)
        },
{
    law_removal_keeps_order(list@, text::texts(gone@), a, b);
}

/// A removal leaves the other rules in their order, in the list as in the file
/// that is to be written, and counts those that left.
pub proof fn law_removed_rules_leave_the_rest(
    set: &mut DynamicDomainSetBackend,
    gone: &Vec<String>,
    rewrite: Rewrite,
    a: Text,
    b: Text,
)
    requires
        call_ensures(DynamicDomainSetBackend::remove_rules, (set, gone), rewrite),
        old(set)@.rules.len() <= usize::MAX,
    ensures
        subsequence(final(set)@.rules, old(set)@.rules),
        final(set)@.rules.contains(a) <==> old(set)@.rules.contains(a) && !text::texts(
            gone@,
        ).contains(a),
        ahead(final(set)@.rules, a, b) <==> {
            &&& ahead(old(set)@.rules, a, b)
            &&& !text::texts(gone@).contains(a)
            &&& !text::texts(gone@).contains(b)
        },
        text::texts(rewrite.rules@) == final(set)@.rules,
        rewrite.mutation.added == 0,
        rewrite.mutation.removed == old(set)@.rules.len() - final(set)@.rules.len(),
        rewrite.mutation.total == final(set)@.rules.len(),
        final(set)@.compiled == old(set)@.compiled,
        final(set)@.tag == old(set)@.tag,
        final(set)@.config == old(set)@.config,
        final(set)@.started == old(set)@.started,
{
    law_removal_keeps_order(set@.rules, text::texts(gone@), a, b);
    state::lemma_without(set@.rules, text::texts(gone@));
}

/// Clearing leaves no rule, in the list as in the file that is to be written, and
/// counts those that left.
pub proof fn law_clearing_leaves_nothing(set: &mut DynamicDomainSetBackend, rewrite: Rewrite)
    requires
        call_ensures(DynamicDomainSetBackend::clear_rules, (set,), rewrite),
        old(set)@.rules.len() <= usize::MAX,
    ensures
        final(set)@.rules.len() == 0,
        rewrite.rules@.len() == 0,
        rewrite.mutation.added == 0,
        rewrite.mutation.removed == old(set)@.rules.len(),
        rewrite.mutation.total == 0,
        final(set)@.compiled == old(set)@.compiled,
        final(set)@.tag == old(set)@.tag,
        final(set)@.config == old(set)@.config,
        final(set)@.started == old(set)@.started,
{
    assert(text::texts(rewrite.rules@).len() == rewrite.rules@.len());
}

/// Whether rules are those of a list that are not known, each where it comes up
/// for the first time.
pub open spec fn first_of_each(
    found: Seq<Text>,
    known: Set<Text>,
    list: Seq<Text>,
    at: Seq<int>,
) -> bool {
    &&& picked(found, list, at)
    &&& forall|i: int|
        0 <= i < at.len() ==> !known.contains(list[#[trigger] at[i]]) && !list.take(
            at[i],
        ).contains(list[at[i]])
    &&& forall|k: int|
        0 <= k < list.len() && !known.contains(#[trigger] list[k]) && !list.take(k).contains(
            list[k],
        ) ==> at.contains(k)
}

proof fn lemma_first_positions(known: Set<Text>, list: Seq<Text>) -> (at: Seq<int>)
    ensures
        first_of_each(state::fresh(known, list), known, list, at),
    decreases list.len(),
{
    let found = state::fresh(known, list);
    if list.len() == 0 {
        Seq::empty()
    } else {
        let front = list.drop_last();
        let before = lemma_first_positions(known, front);
        let old = state::fresh(known, front);
        let n = list.len() - 1;
        assert(list.last() == list[n]);
        state::lemma_fresh(known, front);
        assert(list.take(n) =~= front);
        let fresh = !known.contains(list[n]) && !front.contains(list[n]);
        assert(old.contains(list[n]) <==> front.contains(list[n]) && !known.contains(list[n]));
        let at = if fresh {
            before.push(n)
        } else {
            before
        };
        assert forall|i: int| 0 <= i < found.len() implies #[trigger] found[i] == list[at[i]] by {
            if i < before.len() {
                assert(old[i] == front[before[i]]);
                assert(at[i] == before[i]);
            }
        }
        assert forall|i: int| 0 <= i < at.len() implies !known.contains(list[#[trigger] at[i]])
            && !list.take(at[i]).contains(list[at[i]]) by {
            if i < before.len() {
                let k = before[i];
                assert(at[i] == k);
                assert(front[k] == list[k]);
                assert(front.take(k) =~= list.take(k));
            }
        }
        assert forall|k: int| 0 <= k < list.len() && !known.contains(#[trigger] list[k])
            && !list.take(k).contains(list[k]) implies at.contains(k) by {
            if k < n {
                assert(front[k] == list[k]);
                assert(front.take(k) =~= list.take(k));
                assert(before.contains(k));
                let i = choose|i: int| 0 <= i < before.len() && before[i] == k;
                assert(at[i] == k);
            } else {
                assert(at[before.len() as int] == k);
            }
        }
        assert forall|i: int, j: int| 0 <= i < j < at.len() implies #[trigger] at[i]
            < #[trigger] at[j] by {
            assert(at[i] == before[i]);
            if j < before.len() {
                assert(at[j] == before[j]);
            }
        }
        at
    }
}

/// New rules are found where they come up for the first time, in that order.
pub proof fn law_new_rules_in_order(known: Set<Text>, list: Seq<Text>, rule: Text)
    ensures
        exists|at: Seq<int>| #[trigger]
            first_of_each(state::fresh(known, list), known, list, at),
        state::fresh(known, list).contains(rule) <==> list.contains(rule) && !known.contains(rule),
        state::fresh(known, list).no_duplicates(),
{
    let at = lemma_first_positions(known, list);
    state::lemma_fresh(known, list);
}

/// The ordered list takes in rules it does not hold at its end, each once, in the
/// order in which they come up, and keeps what it holds.
pub proof fn law_stage_keeps_order(
    list: &mut RuleState,
    more: &Vec<String>,
    staged: Vec<String>,
    rule: Text,
)
    requires
        call_ensures(RuleState::stage, (list, more), staged),
    ensures
        final(list)@ == old(list)@ + text::texts(staged@),
        exists|at: Seq<int>| #[trigger]
            first_of_each(
                text::texts(staged@),
                old(list)@.to_set(),
                text::texts(more@),
                at,
            ),
        final(list)@.contains(rule) <==> old(list)@.contains(rule) || text::texts(more@).contains(
            rule,
        ),
{
    let known = list@.to_set();
    let at = lemma_first_positions(known, text::texts(more@));
    state::lemma_fresh(known, text::texts(more@));
    state::lemma_concat_contains(list@, text::texts(staged@), rule);
    assert(state::fresh(known, text::texts(more@)).contains(rule) <==> text::texts(more@).contains(
        rule,
    ) && !known.contains(rule));
}

/// The canonical texts of written rules, position by position.
pub open spec fn canonical_texts(
    raw: Seq<String>,
    kind: DynamicDomainRuleKind,
    list: Seq<Text>,
) -> bool {
    &&& list.len() == raw.len()
    &&& forall|i: int|
        0 <= i < raw.len() ==> rules::canonical((#[trigger] raw[i])@, kind) == Some(list[i])
}

/// A request to append that goes on to the worker has its new rules listed: at the
/// end, each once, in the order in which they were given. It is answered with
/// their number. Everything else stays as it is.
pub proof fn law_append_lists_new_rules_last(
    set: &mut DynamicDomainSetBackend,
    raw: Vec<String>,
    kind: DynamicDomainRuleKind,
    res: AppendStep,
    list: Seq<Text>,
)
    requires
        call_ensures(DynamicDomainSetBackend::begin_append, (set, raw, kind), res),
        canonical_texts(raw@, kind, list),
        final(set)@.rules.len() <= usize::MAX,
    ensures
        res matches AppendStep::Enqueue(staged) ==> {
            &&& old(set)@.started
            &&& staged.rules@.len() > 0
            &&& final(set)@.rules == old(set)@.rules + text::texts(staged.rules@)
            &&& exists|at: Seq<int>| #[trigger]
                first_of_each(
                    text::texts(staged.rules@),
                    old(set)@.rules.to_set(),
                    list,
                    at,
                )
            &&& staged.mutation.added == staged.rules@.len()
            &&& staged.mutation.removed == 0
            &&& staged.mutation.total == final(set)@.rules.len()
        },
        res is Answered ==> final(set)@.rules == old(set)@.rules,
        res is Enqueue <==> old(set)@.started && exists|i: int|
            0 <= i < list.len() && !old(set)@.rules.contains(#[trigger] list[i]),
        res matches AppendStep::Answered(Ok(mutation)) ==> {
            &&& forall|i: int|
                0 <= i < list.len() ==> old(set)@.rules.contains(#[trigger] list[i])
            &&& mutation.added == 0
            &&& mutation.removed == 0
            &&& mutation.total == old(set)@.rules.len()
        },
        final(set)@.compiled == old(set)@.compiled,
        final(set)@.tag == old(set)@.tag,
        final(set)@.config == old(set)@.config,
        final(set)@.started == old(set)@.started,
{
    let before = set@;
    let all = text::texts(raw@);
    assert forall|i: int| 0 <= i < all.len() implies rules::canonical(
        #[trigger] all[i],
        kind,
    ) is Some by {
        assert(all[i] == raw@[i]@);
        assert(rules::canonical(raw@[i]@, kind) == Some(list[i]));
    }
    assert(rules::canonical_all(all, kind)->0 =~= list) by {
        assert forall|i: int| 0 <= i < all.len() implies rules::canonical(all[i], kind)->0
            == #[trigger] list[i] by {
            assert(all[i] == raw@[i]@);
        }
    }
    let known = before.rules.to_set();
    let added = requests::appended(before, list);
    let at = lemma_first_positions(known, list);
    state::lemma_fresh(known, list);
    if added.len() == 0 {
        assert forall|i: int| 0 <= i < list.len() implies before.rules.contains(
            #[trigger] list[i],
        ) by {
            assert(list.contains(list[i]));
            assert(!added.contains(list[i]));
        }
    } else {
        assert(added.contains(added[0]));
        let i = choose|i: int| 0 <= i < list.len() && list[i] == added[0];
        assert(!before.rules.contains(list[i])) by {
            assert(!known.contains(added[0]));
        }
    }
    if let AppendStep::Enqueue(staged) = res {
        assert(text::texts(staged.rules@).len() == staged.rules@.len());
    }
}

/// The smaller of two numbers.
pub open spec fn least(a: int, b: int) -> int {
    if a <= b {
        a
    } else {
        b
    }
}

/// Whether a page is what is to be seen of a list from a cursor on: as many rules
/// as the limit allows, or as there are, in order; and a cursor for the rest, if
/// there is any.
pub open spec fn shows(list: Seq<Text>, cursor: int, limit: int, page: RulesListResponse) -> bool {
    let start = least(cursor, list.len() as int);
    let size = least(limit, list.len() - start);
    &&& page.total == list.len()
    &&& page.rules@.len() == size
    &&& forall|i: int| 0 <= i < size ==> (#[trigger] page.rules@[i])@ == list[start + i]
    &&& page.next_cursor is Some <==> start + size < list.len()
    &&& page.next_cursor matches Some(next) ==> next == start + size
}

/// A page never holds more rules than the limit, and fewer only at the end of the
/// list.
pub proof fn law_page_is_full(list: &RuleState, cursor: usize, limit: usize, page: RulesListResponse)
    requires
        call_ensures(RuleState::list_rules, (list, cursor, limit), page),
    ensures
        shows(list@, cursor as int, limit as int, page),
{
    let start = least(cursor as int, list@.len() as int);
    let seen = text::texts(page.rules@);
    assert(seen.len() == page.rules@.len());
    assert forall|i: int| 0 <= i < page.rules@.len() implies (#[trigger] page.rules@[i])@
        == list@[start + i] by {
        assert(seen[i] == page.rules@[i]@);
    }
}

/// A page of the domain set never holds more rules than the limit, and fewer only
/// at the end of the list.
pub proof fn law_page_of_the_set_is_full(
    set: &DynamicDomainSetBackend,
    cursor: usize,
    limit: usize,
    page: RulesListResponse,
)
    requires
        call_ensures(DynamicDomainSetBackend::list_rules, (set, cursor, limit), page),
    ensures
        shows(set@.rules, cursor as int, limit as int, page),
{
    let start = least(cursor as int, set@.rules.len() as int);
    let seen = text::texts(page.rules@);
    assert(seen.len() == page.rules@.len());
    assert forall|i: int| 0 <= i < page.rules@.len() implies (#[trigger] page.rules@[i])@
        == set@.rules[start + i] by {
        assert(seen[i] == page.rules@[i]@);
    }
}

/// Rules that could not be sent are taken off the list again, and the rest keeps
/// its order.
pub proof fn law_rollback_keeps_order(
    set: &mut DynamicDomainSetBackend,
    staged: &Vec<String>,
    a: Text,
    b: Text,
)
    requires
        call_ensures(DynamicDomainSetBackend::rollback_staged_rules, (set, staged), ()),
    ensures
        subsequence(final(set)@.rules, old(set)@.rules),
        final(set)@.rules.contains(a) <==> old(set)@.rules.contains(a) && !text::texts(
            staged@,
        ).contains(a),
        ahead(final(set)@.rules, a, b) <==> {
            &&& ahead(old(set)@.rules, a, b)
            &&& !text::texts(staged@).contains(a)
            &&& !text::texts(staged@).contains(b)
        },
        final(set)@.compiled == old(set)@.compiled,
        final(set)@.open_line == old(set)@.open_line,
        final(set)@.tag == old(set)@.tag,
        final(set)@.config == old(set)@.config,
        final(set)@.started == old(set)@.started,
{
    law_removal_keeps_order(set@.rules, text::texts(staged@), a, b);
}

/// Strings are compared by what they hold, one by one.
pub proof fn law_texts(list: Seq<String>, i: int)
    requires
        0 <= i < list.len(),
    ensures
        text::texts(list).len() == list.len(),
        text::texts(list)[i] == list[i]@,
{
}

} // verus!
