//! The ordered rule list, with a set beside it for duplicate checks.
use crate::text;
use crate::text::Text;
use vstd::hash_set::StringHashSet;
use vstd::prelude::*;

verus! {

/// The rules of `new` that are not known yet, each once and in order.
pub open spec fn fresh(known: Set<Text>, new: Seq<Text>) -> Seq<Text>
    decreases new.len(),
{
    if new.len() == 0 {
        Seq::empty()
    } else {
        let before = fresh(known, new.drop_last());
        if known.contains(new.last()) || before.contains(new.last()) {
            before
        } else {
            before.push(new.last())
        }
    }
}

/// The rules of `list` that are not among `gone`, in order.
pub open spec fn without(list: Seq<Text>, gone: Seq<Text>) -> Seq<Text> {
    list.filter(|rule: Text| !gone.contains(rule))
}

/// `fresh` gives new rules only, each once, and all of them.
pub proof fn lemma_fresh(known: Set<Text>, new: Seq<Text>)
    ensures
        fresh(known, new).no_duplicates(),
        forall|r: Text|
            #![trigger fresh(known, new).contains(r)]
            fresh(known, new).contains(r) <==> new.contains(r) && !known.contains(r),
        fresh(known, new).len() <= new.len(),
    decreases new.len(),
{
    if new.len() > 0 {
        let front = new.drop_last();
        let before = fresh(known, front);
        lemma_fresh(known, front);
        assert forall|r: Text| #![trigger fresh(known, new).contains(r)]
            fresh(known, new).contains(r) <==> new.contains(r) && !known.contains(r) by {
            assert(new =~= front.push(new.last()));
            if new.contains(r) {
                let i = choose|i: int| 0 <= i < new.len() && new[i] == r;
                if i < front.len() {
                    assert(front[i] == r);
                }
            }
            if front.contains(r) {
                let i = choose|i: int| 0 <= i < front.len() && front[i] == r;
                assert(new[i] == r);
            }
            if r == new.last() {
                assert(new[new.len() - 1] == r);
            }
            if before.contains(r) {
                let i = choose|i: int| 0 <= i < before.len() && before[i] == r;
                assert(before.push(new.last())[i] == r);
            }
            if !(known.contains(new.last()) || before.contains(new.last())) {
                assert(before.push(new.last())[before.len() as int] == new.last());
                if before.push(new.last()).contains(r) {
                    let i = choose|i: int|
                        0 <= i < before.len() + 1 && before.push(new.last())[i] == r;
                    if i < before.len() {
                        assert(before[i] == r);
                    }
                }
            }
        }
    }
}

/// What is new in two lists is what is new in the first, followed by what the
/// second adds to it.
pub proof fn lemma_fresh_concat(known: Set<Text>, a: Seq<Text>, b: Seq<Text>)
    ensures
        fresh(known, a + b) == fresh(known, a) + fresh(known + fresh(known, a).to_set(), b),
    decreases b.len(),
{
    let first = fresh(known, a);
    let wider = known + first.to_set();
    if b.len() == 0 {
        assert(a + b =~= a);
        assert(first + fresh(wider, b) =~= first);
    } else {
        let front = b.drop_last();
        assert((a + b).drop_last() =~= a + front);
        assert((a + b).last() == b.last());
        lemma_fresh_concat(known, a, front);
        lemma_concat_contains(first, fresh(wider, front), b.last());
        assert(fresh(known, a + b) =~= first + fresh(wider, b));
    }
}

/// Nothing is dropped from a list without repetitions of which nothing is
/// known.
pub proof fn lemma_fresh_all(known: Set<Text>, new: Seq<Text>)
    requires
        new.no_duplicates(),
        forall|r: Text| #[trigger] new.contains(r) ==> !known.contains(r),
    ensures
        fresh(known, new) == new,
    decreases new.len(),
{
    if new.len() > 0 {
        let front = new.drop_last();
        assert forall|r: Text| #[trigger] front.contains(r) implies !known.contains(r) by {
            let i = choose|i: int| 0 <= i < front.len() && front[i] == r;
            assert(new[i] == r);
            assert(new.contains(r));
        }
        lemma_fresh_all(known, front);
        assert(new[new.len() - 1] == new.last());
        assert(new.contains(new.last()));
        assert(!front.contains(new.last()));
        assert(new =~= front.push(new.last()));
    } else {
        assert(fresh(known, new) =~= new);
    }
}

/// Nothing is added by a list of which everything is known.
pub proof fn lemma_fresh_none(known: Set<Text>, new: Seq<Text>)
    requires
        forall|r: Text| #[trigger] new.contains(r) ==> known.contains(r),
    ensures
        fresh(known, new) == Seq::<Text>::empty(),
{
    lemma_fresh(known, new);
    if fresh(known, new).len() > 0 {
        let r = fresh(known, new)[0];
        assert(fresh(known, new).contains(r));
        assert(new.contains(r));
    }
    assert(fresh(known, new) =~= Seq::empty());
}

/// `without` drops what is gone, and nothing else.
pub proof fn lemma_without(list: Seq<Text>, gone: Seq<Text>)
    ensures
        forall|r: Text|
            #![trigger without(list, gone).contains(r)]
            without(list, gone).contains(r) <==> list.contains(r) && !gone.contains(r),
        list.no_duplicates() ==> without(list, gone).no_duplicates(),
        without(list, gone).len() <= list.len(),
    decreases list.len(),
{
    let kept = |rule: Text| !gone.contains(rule);
    reveal(Seq::filter);
    if list.len() > 0 {
        let front = list.drop_last();
        lemma_without(front, gone);
        assert(list =~= front.push(list.last()));
        assert forall|r: Text| #![trigger without(list, gone).contains(r)]
            without(list, gone).contains(r) <==> list.contains(r) && !gone.contains(r) by {
            let before = without(front, gone);
            if list.contains(r) {
                let i = choose|i: int| 0 <= i < list.len() && list[i] == r;
                if i < front.len() {
                    assert(front[i] == r);
                }
            }
            if front.contains(r) {
                let i = choose|i: int| 0 <= i < front.len() && front[i] == r;
                assert(list[i] == r);
            }
            if r == list.last() {
                assert(list[list.len() - 1] == r);
            }
            if before.contains(r) {
                let i = choose|i: int| 0 <= i < before.len() && before[i] == r;
                assert(before.push(list.last())[i] == r);
            }
            assert(before.push(list.last())[before.len() as int] == list.last());
            if before.push(list.last()).contains(r) {
                let i = choose|i: int| 0 <= i < before.len() + 1 && before.push(list.last())[i] == r;
                if i < before.len() {
                    assert(before[i] == r);
                }
            }
        }
        if list.no_duplicates() {
            assert(front.no_duplicates());
            assert(!front.contains(list.last()));
            assert(!without(front, gone).contains(list.last()));
        }
    }
}

/// Nothing is dropped if nothing is gone.
pub proof fn lemma_without_nothing(list: Seq<Text>, gone: Seq<Text>)
    requires
        gone.len() == 0,
    ensures
        without(list, gone) == list,
    decreases list.len(),
{
    reveal(Seq::filter);
    if list.len() > 0 {
        lemma_without_nothing(list.drop_last(), gone);
        assert(list =~= list.drop_last().push(list.last()));
    } else {
        assert(without(list, gone) =~= list);
    }
}

/// Looks for a rule in a list.
pub fn holds(list: &Vec<String>, rule: &String) -> (res: bool)
    ensures
        res == text::texts(list@).contains(rule@),
{
    let mut i: usize = 0;
    while i < list.len()
        invariant
            i <= list@.len(),
            forall|k: int| 0 <= k < i ==> list@[k]@ != rule@,
        decreases list@.len() - i,
    {
        if list[i] == *rule {
            assert(text::texts(list@)[i as int] == rule@);
            return true;
        }
        i += 1;
    }
    false
}

/// A copy of a list of rules.
pub fn copied(list: &Vec<String>) -> (res: Vec<String>)
    ensures
        text::texts(res@) == text::texts(list@),
{
    let mut res: Vec<String> = Vec::new();
    let mut i: usize = 0;
    while i < list.len()
        invariant
            i <= list@.len(),
            res@.len() == i,
            forall|k: int| 0 <= k < i ==> (#[trigger] res@[k])@ == list@[k]@,
        decreases list@.len() - i,
    {
        res.push(list[i].clone());
        i += 1;
    }
    assert(text::texts(res@) =~= text::texts(list@));
    res
}

/// Ordered canonical rule list plus a set for fast duplicate suppression.
pub struct RuleState {
    rules: Vec<String>,
    known: StringHashSet,
}

impl View for RuleState {
    type V = Seq<Text>;

    closed spec fn view(&self) -> Seq<Text> {
        text::texts(self.rules@)
    }
}

impl RuleState {
    /// The set holds the rules of the list, and no rule is listed twice.
    pub closed spec fn wf(&self) -> bool {
        &&& self.known@ == text::texts(self.rules@).to_set()
        &&& text::texts(self.rules@).no_duplicates()
    }

    /// A list that is well formed names no rule twice.
    pub proof fn lemma_wf(&self)
        requires
            self.wf(),
        ensures
            self@.no_duplicates(),
    {
    }

    /// The empty list.
    pub fn new() -> (res: RuleState)
        ensures
            res.wf(),
            res@ == Seq::<Text>::empty(),
    {
        let res = RuleState { rules: Vec::new(), known: StringHashSet::new() };
        assert(text::texts(res.rules@) =~= Seq::empty());
        assert(res.known@ =~= text::texts(res.rules@).to_set());
        res
    }

    /// Number of rules.
    pub fn len(&self) -> (res: usize)
        ensures
            res == self@.len(),
    {
        self.rules.len()
    }

    /// A copy of one rule.
    pub fn rule(&self, index: usize) -> (res: String)
        requires
            index < self@.len(),
        ensures
            res@ == self@[index as int],
    {
        self.rules[index].clone()
    }

    /// A copy of the rules, in order.
    pub fn rules(&self) -> (res: Vec<String>)
        ensures
            text::texts(res@) == self@,
    {
        copied(&self.rules)
    }

    /// Replaces the list.
    pub(crate) fn replace(&mut self, rules: Vec<String>)
        requires
            text::texts(rules@).no_duplicates(),
        ensures
            final(self).wf(),
            final(self)@ == text::texts(rules@),
    {
        let mut known = StringHashSet::new();
        let mut i: usize = 0;
        while i < rules.len()
            invariant
                i <= rules@.len(),
                known@ == text::texts(rules@).take(i as int).to_set(),
            decreases rules@.len() - i,
        {
            let ghost before = text::texts(rules@).take(i as int);
            known.insert(rules[i].clone());
            i += 1;
            proof {
                let after = text::texts(rules@).take(i as int);
                assert(after =~= before.push(rules@[i - 1]@));
                lemma_push_set(before, rules@[i - 1]@);
            }
        }
        assert(text::texts(rules@).take(i as int) =~= text::texts(rules@));
        self.known = known;
        self.rules = rules;
    }

    /// Adds the rules that are not listed yet. Returns those that were added.
    pub fn stage(&mut self, rules: &Vec<String>) -> (staged: Vec<String>)
        requires
            old(self).wf(),
        ensures
            final(self).wf(),
            text::texts(staged@) == fresh(old(self)@.to_set(), text::texts(rules@)),
            final(self)@ == old(self)@ + text::texts(staged@),
    {
        let ghost start = self@;
        let ghost new = text::texts(rules@);
        let mut staged: Vec<String> = Vec::new();
        assert(text::texts(staged@) =~= Seq::empty());
        assert(start + text::texts(staged@) =~= start);
        let mut i: usize = 0;
        while i < rules.len()
            invariant
                i <= rules@.len(),
                new == text::texts(rules@),
                self.wf(),
                text::texts(staged@) == fresh(start.to_set(), new.take(i as int)),
                self@ == start + text::texts(staged@),
            decreases rules@.len() - i,
        {
            let rule = &rules[i];
            let ghost before = self@;
            let ghost before_rules = self.rules@;
            let ghost before_staged = staged@;
            proof {
                assert(new.take(i + 1).drop_last() =~= new.take(i as int));
                assert(new.take(i + 1).last() == rule@);
                assert(before.contains(rule@) <==> start.contains(rule@) || text::texts(
                    before_staged,
                ).contains(rule@)) by {
                    lemma_concat_contains(start, text::texts(before_staged), rule@);
                }
            }
            if self.known.insert(rule.clone()) {
                self.rules.push(rule.clone());
                staged.push(rule.clone());
                proof {
                    assert(text::texts(self.rules@) =~= before.push(rule@));
                    assert(text::texts(staged@) =~= text::texts(before_staged).push(rule@));
                    lemma_push_set(before, rule@);
                    assert(self@ =~= start + text::texts(staged@));
                }
            } else {
                proof {
                    assert(self.known@ =~= before.to_set());
                }
            }
            i += 1;
        }
        assert(new.take(i as int) =~= new);
        staged
    }

    /// Takes rules off the list.
    pub fn discard(&mut self, gone: &Vec<String>)
        requires
            old(self).wf(),
        ensures
            final(self).wf(),
            final(self)@ == without(old(self)@, text::texts(gone@)),
    {
        let ghost all = self@;
        let ghost out = text::texts(gone@);
        let ghost known = self.known@;
        let mut i: usize = 0;
        while i < gone.len()
            invariant
                i <= gone@.len(),
                out == text::texts(gone@),
                self@ == all,
                forall|r: Text| #[trigger] self.known@.contains(r) <==> known.contains(r) && !out.take(
                    i as int,
                ).contains(r),
            decreases gone@.len() - i,
        {
            let ghost before = out.take(i as int);
            self.known.remove(gone[i].as_str());
            i += 1;
            proof {
                let after = out.take(i as int);
                assert(after =~= before.push(gone@[i - 1]@));
                assert forall|r: Text| #[trigger] self.known@.contains(r) <==> known.contains(r)
                    && !after.contains(r) by {
                    lemma_push_contains(before, gone@[i - 1]@, r);
                }
            }
        }
        assert(out.take(i as int) =~= out);
        let mut kept: Vec<String> = Vec::new();
        let mut j: usize = 0;
        proof {
            reveal(Seq::filter);
            assert(all.take(0) =~= Seq::empty());
            assert(text::texts(kept@) =~= without(all.take(0), out));
        }
        while j < self.rules.len()
            invariant
                j <= self.rules@.len(),
                all == text::texts(self.rules@),
                out == text::texts(gone@),
                text::texts(kept@) == without(all.take(j as int), out),
            decreases self.rules@.len() - j,
        {
            let ghost before = kept@;
            proof {
                reveal(Seq::filter);
                assert(all.take(j + 1).drop_last() =~= all.take(j as int));
                assert(all.take(j + 1).last() == self.rules@[j as int]@);
            }
            if !holds(gone, &self.rules[j]) {
                kept.push(self.rules[j].clone());
                assert(text::texts(kept@) =~= text::texts(before).push(self.rules@[j as int]@));
            }
            j += 1;
        }
        assert(all.take(j as int) =~= all);
        self.rules = kept;
        proof {
            lemma_without(all, out);
            assert(self.known@ =~= text::texts(self.rules@).to_set()) by {
                assert forall|r: Text| self.known@.contains(r) <==> text::texts(
                    self.rules@,
                ).to_set().contains(r) by {
                    assert(without(all, out).contains(r) <==> all.contains(r) && !out.contains(r));
                }
            }
        }
    }

    /// Takes every rule off the list.
    pub fn clear(&mut self)
        ensures
            final(self).wf(),
            final(self)@ == Seq::<Text>::empty(),
    {
        self.rules.clear();
        self.known.clear();
        assert(text::texts(self.rules@) =~= Seq::empty());
        assert(self.known@ =~= text::texts(self.rules@).to_set());
    }
}

pub proof fn lemma_push_contains(s: Seq<Text>, x: Text, r: Text)
    ensures
        s.push(x).contains(r) <==> s.contains(r) || r == x,
{
    if s.contains(r) {
        let i = choose|i: int| 0 <= i < s.len() && s[i] == r;
        assert(s.push(x)[i] == r);
    }
    assert(s.push(x)[s.len() as int] == x);
    if s.push(x).contains(r) {
        let i = choose|i: int| 0 <= i < s.len() + 1 && s.push(x)[i] == r;
        if i < s.len() {
            assert(s[i] == r);
        }
    }
}

pub proof fn lemma_push_set(s: Seq<Text>, x: Text)
    ensures
        s.push(x).to_set() == s.to_set().insert(x),
{
    assert forall|r: Text| s.push(x).to_set().contains(r) <==> s.to_set().insert(x).contains(r) by {
        lemma_push_contains(s, x, r);
    }
    assert(s.push(x).to_set() =~= s.to_set().insert(x));
}

pub proof fn lemma_concat_contains(a: Seq<Text>, b: Seq<Text>, r: Text)
    ensures
        (a + b).contains(r) <==> a.contains(r) || b.contains(r),
{
    if a.contains(r) {
        let i = choose|i: int| 0 <= i < a.len() && a[i] == r;
        assert((a + b)[i] == r);
    }
    if b.contains(r) {
        let i = choose|i: int| 0 <= i < b.len() && b[i] == r;
        assert((a + b)[a.len() + i] == r);
    }
    if (a + b).contains(r) {
        let i = choose|i: int| 0 <= i < a.len() + b.len() && (a + b)[i] == r;
        if i < a.len() {
            assert(a[i] == r);
        } else {
            assert(b[i - a.len()] == r);
        }
    }
}

} // verus!
