//! The text of a rule file: one rule per line, with blank lines and comments.
use crate::error::DnsError;
use crate::rules;
use crate::rules::{canonicalize_rules, DynamicDomainRuleKind};
use crate::state;
use crate::state::RuleState;
use crate::text;
use crate::text::{chars_of, find_char, joined, string_of, trimmed, Text};
use vstd::prelude::*;

verus! {

/// Length of the first line of a text.
pub open spec fn line_length(contents: Text) -> int
    decreases contents.len(),
{
    if contents.len() == 0 || contents[0] == '\n' {
        0
    } else {
        1 + line_length(contents.drop_first())
    }
}

/// What follows the first line of a text.
pub open spec fn after_line(contents: Text) -> Text {
    if line_length(contents) < contents.len() {
        contents.skip(line_length(contents) + 1)
    } else {
        Seq::empty()
    }
}

/// The lines of a text, without the line breaks.
pub open spec fn lines(contents: Text) -> Seq<Text>
    decreases contents.len(),
{
    if contents.len() == 0 {
        Seq::empty()
    } else {
        proof {
            lemma_line_length(contents);
        }
        seq![contents.take(line_length(contents))] + lines(after_line(contents))
    }
}

/// Whether a line holds a rule: it is not blank and not a comment.
pub open spec fn is_rule_line(line: Text) -> bool {
    text::trim(line).len() > 0 && text::trim(line)[0] != '#'
}

/// The lines of a text that hold rules.
pub open spec fn rule_lines(contents: Text) -> Seq<Text> {
    lines(contents).filter(|line: Text| is_rule_line(line))
}

/// The rules of a rule file, each once and in order, if every line that holds
/// a rule holds a valid one.
pub open spec fn file_rules(contents: Text) -> Option<Seq<Text>> {
    match rules::canonical_all(rule_lines(contents), DynamicDomainRuleKind::Domain) {
        Some(list) => Some(state::fresh(Set::empty(), list)),
        None => None,
    }
}

/// The text of a rule file that lists the given rules.
pub open spec fn rendered(list: Seq<Text>) -> Text
    decreases list.len(),
{
    if list.len() == 0 {
        Seq::empty()
    } else {
        rendered(list.drop_last()) + list.last().push('\n')
    }
}

/// The first line is as long as the way to the first line break.
pub proof fn lemma_line_length(contents: Text)
    ensures
        0 <= line_length(contents) <= contents.len(),
        forall|k: int| 0 <= k < line_length(contents) ==> contents[k] != '\n',
        line_length(contents) < contents.len() ==> contents[line_length(contents)] == '\n',
    decreases contents.len(),
{
    if contents.len() > 0 && contents[0] != '\n' {
        let rest = contents.drop_first();
        lemma_line_length(rest);
        assert forall|k: int| 0 <= k < line_length(contents) implies contents[k] != '\n' by {
            if k > 0 {
                assert(rest[k - 1] == contents[k]);
            }
        }
        if line_length(contents) < contents.len() {
            assert(rest[line_length(rest)] == contents[line_length(contents)]);
        }
    }
}

/// The way to the first line break is as long as the first line.
pub proof fn lemma_line_length_is(contents: Text, n: int)
    requires
        0 <= n <= contents.len(),
        forall|k: int| 0 <= k < n ==> contents[k] != '\n',
        n < contents.len() ==> contents[n] == '\n',
    ensures
        line_length(contents) == n,
{
    lemma_line_length(contents);
    let m = line_length(contents);
    if m < n {
        assert(contents[m] != '\n');
    }
    if n < m {
        assert(contents[n] != '\n');
    }
}

/// Lists the rules of a rule file. Blank lines and comments are passed over, a
/// rule without a kind is a `domain:` rule, and a repeated rule is listed once.
///
/// `source` says in the error message where the text came from.
pub fn parse_rule_file(contents: &str, source: &str) -> (res: Result<Vec<String>, DnsError>)
    ensures
        match file_rules(contents@) {
            Some(list) => res matches Ok(rules) && text::texts(rules@) == list,
            None => res matches Err(err) && err@ == rules::invalid_entry(
                rule_lines(contents@),
                DynamicDomainRuleKind::Domain,
                source@,
            ),
        },
{
    let found = collect_rule_lines(contents);
    match canonicalize_rules(found, DynamicDomainRuleKind::Domain, source) {
        Ok(list) => {
            let mut unique = RuleState::new();
            let rules = unique.stage(&list);
            assert(Seq::<Text>::empty().to_set() =~= Set::empty());
            Ok(rules)
        },
        Err(err) => Err(err),
    }
}

/// The lines that hold rules, in order.
fn collect_rule_lines(contents: &str) -> (res: Vec<String>)
    ensures
        text::texts(res@) == rule_lines(contents@),
{
    let chars = chars_of(contents);
    let mut res: Vec<String> = Vec::new();
    let mut at: usize = 0;
    let ghost holds_rule = |line: Text| is_rule_line(line);
    proof {
        assert(chars@.skip(0) =~= chars@);
        assert(text::texts(res@) + lines(chars@).filter(holds_rule) =~= rule_lines(chars@));
    }
    while at < chars.len()
        invariant
            at <= chars@.len(),
            holds_rule == (|line: Text| is_rule_line(line)),
            text::texts(res@) + lines(chars@.skip(at as int)).filter(holds_rule) == rule_lines(
                chars@,
            ),
        decreases chars@.len() - at,
    {
        let ghost rest = chars@.skip(at as int);
        let ghost before = text::texts(res@);
        let end = find_char(&chars, at, '\n');
        let line = string_of(&chars, at, end);
        let next: usize = if end < chars.len() {
            end + 1
        } else {
            end
        };
        proof {
            lemma_line_length_is(rest, end - at);
            assert(line@ =~= rest.take(line_length(rest)));
            assert(after_line(rest) =~= chars@.skip(next as int));
            lemma_filter_first(line@, lines(after_line(rest)), holds_rule);
        }
        let line_chars = chars_of(line.as_str());
        let (from, to) = trimmed(&line_chars);
        proof {
            assert(text::trim(line@).len() == to - from);
            if from < to {
                assert(text::trim(line@)[0] == line_chars@[from as int]);
            }
        }
        if from < to && line_chars[from] != '#' {
            res.push(line);
            proof {
                assert(text::texts(res@) =~= before.push(line@));
                assert(before.push(line@) + lines(after_line(rest)).filter(holds_rule) =~= before + (
                seq![line@] + lines(after_line(rest)).filter(holds_rule)));
            }
        }
        at = next;
    }
    proof {
        assert(chars@.skip(at as int) =~= Seq::empty());
        reveal(Seq::filter);
        assert(lines(Seq::<char>::empty()) =~= Seq::empty());
        assert(text::texts(res@) + Seq::<Text>::empty() =~= text::texts(res@));
    }
    res
}

proof fn lemma_filter_first(first: Text, rest: Seq<Text>, keep: spec_fn(Text) -> bool)
    ensures
        (seq![first] + rest).filter(keep) == if keep(first) {
            seq![first] + rest.filter(keep)
        } else {
            rest.filter(keep)
        },
{
    lemma_filter_concat(seq![first], rest, keep);
    reveal(Seq::filter);
    let one = seq![first];
    assert(one.drop_last() =~= Seq::empty());
    assert(one.drop_last().filter(keep) =~= Seq::empty());
    if keep(first) {
        assert(one.filter(keep) =~= seq![first]);
    } else {
        assert(one.filter(keep) + rest.filter(keep) =~= rest.filter(keep));
    }
}

/// Filtering goes piece by piece.
pub proof fn lemma_filter_concat(a: Seq<Text>, b: Seq<Text>, keep: spec_fn(Text) -> bool)
    ensures
        (a + b).filter(keep) == a.filter(keep) + b.filter(keep),
    decreases b.len(),
{
    reveal(Seq::filter);
    if b.len() == 0 {
        assert(a + b =~= a);
        assert(a.filter(keep) + b.filter(keep) =~= a.filter(keep));
    } else {
        assert((a + b).drop_last() =~= a + b.drop_last());
        lemma_filter_concat(a, b.drop_last(), keep);
        assert((a + b).filter(keep) =~= a.filter(keep) + b.filter(keep));
    }
}

/// Whether a text ends where a line ends, so that what is appended to it
/// starts a line of its own.
pub open spec fn ends_line(contents: Text) -> bool {
    contents.len() == 0 || contents.last() == '\n'
}

/// The lines of a text that ends where a line ends stay what they are when
/// more text follows.
pub proof fn lemma_lines_concat(a: Text, b: Text)
    requires
        ends_line(a),
    ensures
        lines(a + b) == lines(a) + lines(b),
    decreases a.len(),
{
    if a.len() == 0 {
        assert(a + b =~= b);
        assert(lines(a) + lines(b) =~= lines(b));
    } else {
        lemma_line_length(a);
        let n = line_length(a);
        assert(n < a.len()) by {
            if n == a.len() {
                assert(a[a.len() - 1] != '\n');
            }
        }
        assert forall|k: int| 0 <= k < n implies (a + b)[k] != '\n' by {
            assert((a + b)[k] == a[k]);
        }
        assert((a + b)[n] == a[n]);
        lemma_line_length_is(a + b, n);
        let rest = after_line(a);
        assert(after_line(a + b) =~= rest + b);
        assert((a + b).take(n) =~= a.take(n));
        if rest.len() > 0 {
            assert(rest.last() == a.last());
        }
        lemma_lines_concat(rest, b);
        assert(lines(a + b) =~= lines(a) + lines(b));
    }
}

/// A rule file that was written from rules has them as its lines.
pub proof fn lemma_lines_rendered(list: Seq<Text>)
    requires
        forall|i: int| 0 <= i < list.len() ==> !(#[trigger] list[i]).contains('\n'),
    ensures
        ends_line(rendered(list)),
        lines(rendered(list)) == list,
    decreases list.len(),
{
    if list.len() == 0 {
        assert(lines(rendered(list)) =~= list);
    } else {
        let front = list.drop_last();
        assert forall|i: int| 0 <= i < front.len() implies !(#[trigger] front[i]).contains('\n') by {
            assert(front[i] == list[i]);
        }
        lemma_lines_rendered(front);
        let rule = list.last();
        let line = rule.push('\n');
        assert(!list[list.len() - 1].contains('\n'));
        assert forall|k: int| 0 <= k < rule.len() implies line[k] != '\n' by {
            assert(line[k] == rule[k]);
            assert(rule.contains(rule[k]));
        }
        lemma_line_length_is(line, rule.len() as int);
        assert(line.take(rule.len() as int) =~= rule);
        assert(after_line(line) =~= Seq::empty());
        assert(lines(after_line(line)) =~= Seq::empty());
        assert(lines(line) =~= seq![rule]);
        lemma_lines_concat(rendered(front), line);
        assert(rendered(list).last() == '\n');
        assert(lines(rendered(list)) =~= list);
    }
}

/// Whether every text of a list is a canonical rule.
pub open spec fn all_canonical(list: Seq<Text>) -> bool {
    forall|i: int| 0 <= i < list.len() ==> rules::is_canonical(#[trigger] list[i])
}

/// Filtering keeps a list of which everything is kept.
pub proof fn lemma_filter_keeps_all(list: Seq<Text>, keep: spec_fn(Text) -> bool)
    requires
        forall|i: int| 0 <= i < list.len() ==> keep(#[trigger] list[i]),
    ensures
        list.filter(keep) == list,
    decreases list.len(),
{
    reveal(Seq::filter);
    if list.len() > 0 {
        let front = list.drop_last();
        assert forall|i: int| 0 <= i < front.len() implies keep(#[trigger] front[i]) by {
            assert(front[i] == list[i]);
        }
        lemma_filter_keeps_all(front, keep);
        assert(keep(list[list.len() - 1]));
        assert(list =~= front.push(list.last()));
    } else {
        assert(list.filter(keep) =~= list);
    }
}

/// Every line of a rule file that was written from canonical rules holds one
/// of them, as it is.
pub proof fn lemma_rendered_rules(list: Seq<Text>)
    requires
        all_canonical(list),
    ensures
        ends_line(rendered(list)),
        rule_lines(rendered(list)) == list,
        rules::canonical_all(list, DynamicDomainRuleKind::Domain) == Some(list),
{
    let default_kind = DynamicDomainRuleKind::Domain;
    assert forall|i: int| 0 <= i < list.len() implies !(#[trigger] list[i]).contains('\n')
        && is_rule_line(list[i]) && rules::canonical(list[i], default_kind) == Some(list[i]) by {
        assert(rules::is_canonical(list[i]));
        rules::law_canonical_is_one_line(list[i], default_kind);
    }
    lemma_lines_rendered(list);
    lemma_filter_keeps_all(list, |line: Text| is_rule_line(line));
    assert(list.map_values(|r: Text| rules::canonical(r, default_kind)->0) =~= list);
}

/// Reading back what was written: the rule file that is written from canonical
/// rules, each listed once, lists these rules in their order.
pub proof fn law_file_reads_back(list: Seq<Text>)
    requires
        all_canonical(list),
        list.no_duplicates(),
    ensures
        file_rules(rendered(list)) == Some(list),
{
    lemma_rendered_rules(list);
    state::lemma_fresh_all(Set::empty(), list);
}

/// A line break behind an unfinished last line changes no line.
pub proof fn lemma_lines_finished(contents: Text)
    requires
        !ends_line(contents),
    ensures
        lines(contents.push('\n')) == lines(contents),
    decreases contents.len(),
{
    let longer = contents.push('\n');
    lemma_line_length(contents);
    let n = line_length(contents);
    assert forall|k: int| 0 <= k < n implies longer[k] != '\n' by {
        assert(longer[k] == contents[k]);
    }
    lemma_line_length_is(longer, n);
    assert(longer.take(n) =~= contents.take(n));
    if n < contents.len() {
        let rest = after_line(contents);
        assert(rest.len() > 0) by {
            if n == contents.len() - 1 {
                assert(contents.last() == '\n');
            }
        }
        assert(rest.last() == contents.last());
        lemma_lines_finished(rest);
        assert(after_line(longer) =~= rest.push('\n'));
    } else {
        assert(after_line(longer) =~= after_line(contents));
    }
}

/// The text that appends rules to a rule file. Behind an unfinished last line it
/// begins with a line break.
pub open spec fn append_text(open_line: bool, list: Seq<Text>) -> Text {
    if open_line {
        seq!['\n'] + rendered(list)
    } else {
        rendered(list)
    }
}

/// A rule file to which rules were appended.
pub open spec fn extended(contents: Text, list: Seq<Text>) -> Text {
    contents + append_text(!ends_line(contents), list)
}

/// Appending to a rule file: canonical rules that are appended to a rule file
/// are listed behind its rules, except those that it lists already.
pub proof fn law_file_append(contents: Text, list: Seq<Text>)
    requires
        file_rules(contents) is Some,
        all_canonical(list),
    ensures
        file_rules(extended(contents, list)) == Some(
            file_rules(contents)->0 + state::fresh(file_rules(contents)->0.to_set(), list),
        ),
        ends_line(extended(contents, list)),
{
    if ends_line(contents) {
        lemma_file_append(contents, list);
    } else {
        let finished = contents.push('\n');
        lemma_lines_finished(contents);
        lemma_file_append(finished, list);
        assert(extended(contents, list) =~= finished + rendered(list));
    }
}

proof fn lemma_file_append(contents: Text, list: Seq<Text>)
    requires
        ends_line(contents),
        file_rules(contents) is Some,
        all_canonical(list),
    ensures
        file_rules(contents + rendered(list)) == Some(
            file_rules(contents)->0 + state::fresh(file_rules(contents)->0.to_set(), list),
        ),
        ends_line(contents + rendered(list)),
{
    let default_kind = DynamicDomainRuleKind::Domain;
    let added = rendered(list);
    let old_lines = rule_lines(contents);
    let old_rules = rules::canonical_all(old_lines, default_kind)->0;
    lemma_rendered_rules(list);
    lemma_lines_concat(contents, added);
    lemma_filter_concat(lines(contents), lines(added), |line: Text| is_rule_line(line));
    let all_lines = old_lines + list;
    assert(rule_lines(contents + added) == all_lines);
    assert forall|i: int| 0 <= i < all_lines.len() implies rules::canonical(
        #[trigger] all_lines[i],
        default_kind,
    ) is Some by {
        if i < old_lines.len() {
            assert(all_lines[i] == old_lines[i]);
        } else {
            assert(all_lines[i] == list[i - old_lines.len()]);
            assert(rules::is_canonical(list[i - old_lines.len()]));
        }
    }
    let all_rules = rules::canonical_all(all_lines, default_kind)->0;
    assert(all_rules =~= old_rules + list) by {
        assert forall|i: int| 0 <= i < all_rules.len() implies all_rules[i] == (old_rules + list)[i] by {
            if i >= old_lines.len() {
                assert(rules::is_canonical(list[i - old_lines.len()]));
            }
        }
    }
    state::lemma_fresh_concat(Set::empty(), old_rules, list);
    let p = state::fresh(Set::<Text>::empty(), old_rules);
    assert(Set::<Text>::empty() + p.to_set() =~= p.to_set());
    if added.len() > 0 {
        assert((contents + added).last() == added.last());
    } else {
        assert(contents + added =~= contents);
    }
}

/// Every rule that a rule file lists is canonical, and none is listed twice.
pub proof fn law_file_rules_are_canonical(contents: Text)
    requires
        file_rules(contents) is Some,
    ensures
        all_canonical(file_rules(contents)->0),
        file_rules(contents)->0.no_duplicates(),
{
    let default_kind = DynamicDomainRuleKind::Domain;
    let found = rule_lines(contents);
    let list = rules::canonical_all(found, default_kind)->0;
    let unique = file_rules(contents)->0;
    state::lemma_fresh(Set::empty(), list);
    assert forall|i: int| 0 <= i < unique.len() implies rules::is_canonical(#[trigger] unique[i]) by {
        assert(unique.contains(unique[i]));
        assert(list.contains(unique[i]));
        let k = choose|k: int| 0 <= k < list.len() && list[k] == unique[i];
        assert(rules::canonical(found[k], default_kind) is Some);
        rules::law_canonical_is_stable(found[k], default_kind, default_kind);
    }
}

/// Tests whether a text ends where a line ends.
pub fn is_finished(contents: &str) -> (res: bool)
    ensures
        res == ends_line(contents@),
{
    let chars = chars_of(contents);
    chars.len() == 0 || chars[chars.len() - 1] == '\n'
}

/// Writes the text that appends rules to a rule file.
pub fn render_append(open_line: bool, list: &Vec<String>) -> (res: String)
    ensures
        res@ == append_text(open_line, text::texts(list@)),
{
    let added = render_rule_file(list);
    if !open_line {
        return added;
    }
    proof {
        reveal_strlit("\n");
    }
    let res = joined("\n", added.as_str());
    assert(res@ =~= append_text(open_line, text::texts(list@)));
    res
}

/// Writes rules as the text of a rule file.
pub fn render_rule_file(list: &Vec<String>) -> (res: String)
    ensures
        res@ == rendered(text::texts(list@)),
{
    let ghost all = text::texts(list@);
    let mut res = String::new();
    let mut i: usize = 0;
    while i < list.len()
        invariant
            i <= list@.len(),
            all == text::texts(list@),
            res@ == rendered(all.take(i as int)),
        decreases list@.len() - i,
    {
        let ghost before = res@;
        res.append(list[i].as_str());
        res.push('\n');
        i += 1;
        proof {
            assert(all.take(i as int).drop_last() =~= all.take(i - 1));
            assert(res@ =~= before + all[i - 1].push('\n'));
        }
    }
    assert(all.take(i as int) =~= all);
    res
}

} // verus!
