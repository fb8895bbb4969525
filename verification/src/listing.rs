//! Reading the rule list page by page.
use crate::state::RuleState;
use crate::text;
use crate::text::Text;
use vstd::prelude::*;

verus! {

/// One page of the rule list.
pub struct RulesListResponse {
    /// Number of rules in the whole list.
    pub total: usize,
    /// Where the next page starts, if the list goes on.
    pub next_cursor: Option<usize>,
    pub rules: Vec<String>,
}

/// Where a page starts: at the cursor, or at the end of the list.
pub open spec fn page_start(total: nat, cursor: nat) -> nat {
    if cursor < total {
        cursor
    } else {
        total
    }
}

/// Where a page of at most `limit` rules ends.
pub open spec fn page_end(total: nat, cursor: nat, limit: nat) -> nat {
    if page_start(total, cursor) + limit < total {
        page_start(total, cursor) + limit
    } else {
        total
    }
}

/// The rules of a page of at most `limit` rules.
pub open spec fn page(list: Seq<Text>, cursor: nat, limit: nat) -> Seq<Text> {
    list.subrange(
        page_start(list.len(), cursor) as int,
        page_end(list.len(), cursor, limit) as int,
    )
}

/// The cursor of the page behind it.
pub open spec fn next_page(total: nat, cursor: nat, limit: nat) -> Option<nat> {
    if page_end(total, cursor, limit) < total {
        Some(page_end(total, cursor, limit))
    } else {
        None
    }
}

impl RulesListResponse {
    pub fn new(total: usize, next_cursor: Option<usize>, rules: Vec<String>) -> (res: Self)
        ensures
            res == (RulesListResponse { total, next_cursor, rules }),
    {
        RulesListResponse { total, next_cursor, rules }
    }
}

impl RuleState {
    /// The page of at most `limit` rules that starts at `cursor`.
    pub fn list_rules(&self, cursor: usize, limit: usize) -> (res: RulesListResponse)
        ensures
            res.total == self@.len(),
            text::texts(res.rules@) == page(self@, cursor as nat, limit as nat),
            match next_page(self@.len(), cursor as nat, limit as nat) {
                Some(next) => res.next_cursor matches Some(c) && c == next,
                None => res.next_cursor is None,
            },
    {
        let total: usize = self.len();
        let start: usize = if cursor < total {
            cursor
        } else {
            total
        };
        let end: usize = if limit < total - start {
            start + limit
        } else {
            total
        };
        let mut rules: Vec<String> = Vec::new();
        let mut i: usize = start;
        assert(text::texts(rules@) =~= self@.subrange(start as int, i as int));
        while i < end
            invariant
                start <= i <= end <= self@.len(),
                text::texts(rules@) == self@.subrange(start as int, i as int),
            decreases end - i,
        {
            let ghost before = rules@;
            rules.push(self.rule(i));
            i += 1;
            assert(text::texts(rules@) =~= text::texts(before).push(self@[i - 1]));
            assert(self@.subrange(start as int, i as int) =~= self@.subrange(
                start as int,
                i - 1,
            ).push(self@[i - 1]));
        }
        let next_cursor: Option<usize> = if end < total {
            Some(end)
        } else {
            None
        };
        RulesListResponse::new(total, next_cursor, rules)
    }
}

} // verus!
