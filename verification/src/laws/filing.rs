//! What a rule file says, line by line.
use crate::error::{DnsError, ErrorView};
use crate::laws::writing;
use crate::rules;
use crate::rules::DynamicDomainRuleKind;
use crate::state;
use crate::storage;
use crate::storage::{is_finished, parse_rule_file, render_append, render_rule_file};
use crate::text;
use crate::text::Text;
use vstd::prelude::*;

verus! {

/// Whether a line is passed over: it is blank, or the first character in it that
/// is not white space is `#`.
pub open spec fn passed_over(line: Text) -> bool {
    writing::blank(line) || exists|i: int|
        0 <= i < line.len() && #[trigger] line[i] == '#' && writing::blank(line.take(i))
}

/// Whether a line stands in a text between two others, or at an end of it.
pub open spec fn stands_in(line: Text, contents: Text, before: Text, after: Text) -> bool {
    &&& contents == before + line + after
    &&& before.len() == 0 || before.last() == '\n'
    &&& after.len() == 0 || after[0] == '\n'
    &&& !line.contains('\n')
}

/// Whether a text has a certain line.
pub open spec fn has_line(contents: Text, line: Text) -> bool {
    exists|before: Text, after: Text| #[trigger] stands_in(line, contents, before, after)
}

/// A line holds a rule unless it is blank or a comment.
pub proof fn law_rule_lines(line: Text)
    ensures
        storage::is_rule_line(line) <==> !passed_over(line),
{
    let (left, right) = writing::lemma_trim_parts(line);
    let rule = text::trim(line);
    if rule.len() == 0 {
        assert forall|i: int| 0 <= i < line.len() implies writing::white(#[trigger] line[i]) by {
            if i < left.len() {
                assert(writing::white(left[i]));
            } else {
                assert(writing::white(right[i - left.len()]));
            }
        }
    } else {
        let n = left.len() as int;
        assert(line[n] == rule[0]);
        assert(line.take(n) =~= left);
        if rule[0] == '#' {
            assert(passed_over(line));
        } else if passed_over(line) {
            let i = choose|i: int|
                0 <= i < line.len() && #[trigger] line[i] == '#' && writing::blank(line.take(i));
            if i < n {
                assert(writing::white(left[i]));
            } else if n < i {
                assert(line.take(i)[n] == rule[0]);
                assert(writing::white(line.take(i)[n]));
            }
        }
    }
}

proof fn lemma_one_line(line: Text)
    requires
        !line.contains('\n'),
    ensures
        storage::rule_lines(line) == if passed_over(line) {
            Seq::<Text>::empty()
        } else {
            seq![line]
        },
        storage::rule_lines(line.push('\n')) == storage::rule_lines(line),
{
    law_rule_lines(line);
    reveal(Seq::filter);
    if line.len() == 0 {
        assert(storage::lines(line) =~= Seq::empty());
        assert(line.push('\n') =~= seq!['\n']);
        storage::lemma_line_length_is(line.push('\n'), 0);
        assert(storage::after_line(line.push('\n')) =~= Seq::empty());
        assert(line.push('\n').take(0) =~= line);
        assert(storage::lines(Seq::<char>::empty()) =~= Seq::empty());
        assert(storage::lines(line.push('\n')) =~= seq![line]);
        assert(seq![line].drop_last() =~= Seq::empty());
        assert(storage::rule_lines(line.push('\n')) =~= Seq::empty());
    } else {
        assert forall|k: int| 0 <= k < line.len() implies line[k] != '\n' by {
            assert(line.contains(line[k]));
        }
        storage::lemma_line_length_is(line, line.len() as int);
        assert(line.take(line.len() as int) =~= line);
        assert(storage::lines(Seq::<char>::empty()) =~= Seq::empty());
        assert(storage::lines(line) =~= seq![line]);
        assert(seq![line].drop_last() =~= Seq::empty());
        storage::lemma_lines_finished(line);
        if passed_over(line) {
            assert(storage::rule_lines(line) =~= Seq::empty());
        } else {
            assert(storage::rule_lines(line) =~= seq![line]);
        }
    }
}

/// The lines that hold rules are found one by one, from the first to the last: a
/// line is taken as it is, unless it is passed over.
pub proof fn law_lines_are_read_one_by_one(line: Text, rest: Text)
    requires
        !line.contains('\n'),
    ensures
        storage::rule_lines(line) == if passed_over(line) {
            Seq::<Text>::empty()
        } else {
            seq![line]
        },
        storage::rule_lines(line + "\n"@ + rest) == storage::rule_lines(line)
            + storage::rule_lines(rest),
{
    reveal_strlit("\n");
    lemma_one_line(line);
    let first = line.push('\n');
    assert(line + "\n"@ + rest =~= first + rest);
    storage::lemma_lines_concat(first, rest);
    storage::lemma_filter_concat(
        storage::lines(first),
        storage::lines(rest),
        |l: Text| storage::is_rule_line(l),
    );
}

/// The lines of two texts that are put together where a line ends.
pub proof fn lemma_rule_lines_concat(a: Text, b: Text)
    requires
        a.len() == 0 || a.last() == '\n',
    ensures
        storage::rule_lines(a + b) == storage::rule_lines(a) + storage::rule_lines(b),
{
    storage::lemma_lines_concat(a, b);
    storage::lemma_filter_concat(
        storage::lines(a),
        storage::lines(b),
        |l: Text| storage::is_rule_line(l),
    );
}

/// A line that stands in a text is one of its lines.
proof fn lemma_line_is_read(line: Text, contents: Text, before: Text, after: Text)
    requires
        stands_in(line, contents, before, after),
        !passed_over(line),
    ensures
        storage::rule_lines(contents).contains(line),
{
    let behind = line + after;
    assert(contents =~= before + behind);
    lemma_rule_lines_concat(before, behind);
    reveal_strlit("\n");
    if after.len() == 0 {
        assert(behind =~= line);
        law_lines_are_read_one_by_one(line, Seq::empty());
    } else {
        let rest = after.drop_first();
        assert(behind =~= line + "\n"@ + rest);
        law_lines_are_read_one_by_one(line, rest);
    }
    let lines = storage::rule_lines(behind);
    assert(lines[0] == line);
    assert(lines.contains(line));
    state::lemma_concat_contains(storage::rule_lines(before), lines, line);
}

/// A line that was read stands in the text.
proof fn lemma_read_line_stands(contents: Text, line: Text)
    requires
        storage::rule_lines(contents).contains(line),
    ensures
        has_line(contents, line),
        !passed_over(line),
    decreases contents.len(),
{
    reveal_strlit("\n");
    if contents.len() == 0 {
        reveal(Seq::filter);
        assert(storage::lines(contents) =~= Seq::empty());
    } else {
        storage::lemma_line_length(contents);
        let n = storage::line_length(contents);
        let first = contents.take(n);
        let none = Seq::<char>::empty();
        assert(!first.contains('\n')) by {
            if first.contains('\n') {
                let k = choose|k: int| 0 <= k < first.len() && first[k] == '\n';
                assert(contents[k] == '\n');
            }
        }
        let after = contents.skip(n);
        assert(stands_in(first, contents, none, after)) by {
            assert(contents =~= none + first + after);
        }
        if n == contents.len() {
            assert(contents =~= first);
            law_lines_are_read_one_by_one(first, none);
            assert(line == first);
        } else {
            let rest = contents.skip(n + 1);
            assert(contents =~= first + "\n"@ + rest);
            law_lines_are_read_one_by_one(first, rest);
            state::lemma_concat_contains(
                storage::rule_lines(first),
                storage::rule_lines(rest),
                line,
            );
            if storage::rule_lines(rest).contains(line) {
                lemma_read_line_stands(rest, line);
                let (b, a) = choose|b: Text, a: Text| #[trigger] stands_in(line, rest, b, a);
                let before = first + "\n"@ + b;
                assert(contents =~= before + line + a);
                assert(before.last() == '\n');
                assert(stands_in(line, contents, before, a));
            } else {
                assert(line == first);
            }
        }
    }
}

/// No line of a rule file is lost: every line that is neither blank nor a comment
/// is listed in canonical text, or, if it is no rule, keeps the file from being
/// read.
pub proof fn law_every_line_counts(
    contents: &str,
    source: &str,
    res: Result<Vec<String>, DnsError>,
    line: Text,
)
    requires
        call_ensures(parse_rule_file, (contents, source), res),
        has_line(contents@, line),
        !passed_over(line),
    ensures
        match rules::canonical(line, DynamicDomainRuleKind::Domain) {
            Some(rule) => res matches Ok(list) ==> text::texts(list@).contains(rule),
            None => res is Err,
        },
{
    let domain = DynamicDomainRuleKind::Domain;
    let (before, after) = choose|before: Text, after: Text| #[trigger]
        stands_in(line, contents@, before, after);
    lemma_line_is_read(line, contents@, before, after);
    let lines = storage::rule_lines(contents@);
    let i = choose|i: int| 0 <= i < lines.len() && lines[i] == line;
    if storage::file_rules(contents@) is Some {
        let all = rules::canonical_all(lines, domain)->0;
        assert(rules::canonical(lines[i], domain) is Some);
        assert(all[i] == rules::canonical(line, domain)->0);
        assert(all.contains(all[i]));
        state::lemma_fresh(Set::empty(), all);
        assert(state::fresh(Set::empty(), all).contains(all[i]));
    }
}

/// Nothing is listed that is no line of the rule file: every listed rule is the
/// canonical text of a line that is neither blank nor a comment, and none is
/// listed twice.
pub proof fn law_every_rule_has_a_line(
    contents: &str,
    source: &str,
    res: Result<Vec<String>, DnsError>,
    rule: Text,
)
    requires
        call_ensures(parse_rule_file, (contents, source), res),
        res matches Ok(list) && text::texts(list@).contains(rule),
    ensures
        exists|line: Text| #[trigger]
            has_line(contents@, line) && !passed_over(line) && rules::canonical(
                line,
                DynamicDomainRuleKind::Domain,
            ) == Some(rule),
        res matches Ok(list) && text::texts(list@).no_duplicates(),
{
    let domain = DynamicDomainRuleKind::Domain;
    let lines = storage::rule_lines(contents@);
    let all = rules::canonical_all(lines, domain)->0;
    state::lemma_fresh(Set::empty(), all);
    assert(state::fresh(Set::empty(), all).contains(rule));
    let i = choose|i: int| 0 <= i < all.len() && all[i] == rule;
    assert(rules::canonical(lines[i], domain) is Some);
    assert(lines.contains(lines[i]));
    lemma_read_line_stands(contents@, lines[i]);
}

/// A rule file is refused only for a line in it that is neither blank, nor a
/// comment, nor a rule; the message quotes it.
pub proof fn law_bad_line_is_reported(
    contents: &str,
    source: &str,
    res: Result<Vec<String>, DnsError>,
)
    requires
        call_ensures(parse_rule_file, (contents, source), res),
        res is Err,
    ensures
        exists|line: Text, position: nat|
            {
                &&& #[trigger] bad_line(contents@, line, position)
                &&& res matches Err(err) && err@ == ErrorView::Plugin(
                    source@ + "["@ + text::decimal(position) + "]: invalid rule '"@ + line + "'"@,
                )
            },
{
    let domain = DynamicDomainRuleKind::Domain;
    let lines = storage::rule_lines(contents@);
    let k = choose|k: int|
        0 <= k < lines.len() && !(rules::canonical(#[trigger] lines[k], domain) is Some);
    let at = lemma_first_bad(lines, k);
    rules::lemma_first_invalid(lines, domain, at);
    assert(lines.contains(lines[at]));
    lemma_read_line_stands(contents@, lines[at]);
    assert(bad_line(contents@, lines[at], at as nat));
    reveal_strlit("[");
    reveal_strlit("]: invalid rule '");
    reveal_strlit("'");
    assert(rules::invalid_rule_message(
        rules::entry_source(source@, at as nat),
        lines[at],
    ) =~= source@ + "["@ + text::decimal(at as nat) + "]: invalid rule '"@ + lines[at] + "'"@);
}

/// Whether a line of a text is no rule, though it is neither blank nor a comment,
/// and is the first of this sort. Its position counts the lines with rules before
/// it.
pub open spec fn bad_line(contents: Text, line: Text, position: nat) -> bool {
    let lines = storage::rule_lines(contents);
    &&& has_line(contents, line)
    &&& !passed_over(line)
    &&& rules::canonical(line, DynamicDomainRuleKind::Domain) is None
    &&& position < lines.len() && lines[position as int] == line
    &&& forall|k: int|
        0 <= k < position ==> rules::canonical(
            #[trigger] lines[k],
            DynamicDomainRuleKind::Domain,
        ) is Some
}

proof fn lemma_first_bad(lines: Seq<Text>, k: int) -> (at: int)
    requires
        0 <= k < lines.len(),
        rules::canonical(lines[k], DynamicDomainRuleKind::Domain) is None,
    ensures
        0 <= at <= k,
        rules::canonical(lines[at], DynamicDomainRuleKind::Domain) is None,
        forall|i: int|
            0 <= i < at ==> rules::canonical(
                #[trigger] lines[i],
                DynamicDomainRuleKind::Domain,
            ) is Some,
    decreases k,
{
    if exists|j: int|
        0 <= j < k && rules::canonical(
            #[trigger] lines[j],
            DynamicDomainRuleKind::Domain,
        ) is None {
        let j = choose|j: int|
            0 <= j < k && rules::canonical(
                #[trigger] lines[j],
                DynamicDomainRuleKind::Domain,
            ) is None;
        lemma_first_bad(lines, j)
    } else {
        k
    }
}

/// What a rule file lists does not depend on what follows: the rules of its first
/// lines are listed first, in the same order, and new ones behind them.
pub proof fn law_file_lists_in_order(
    head: &str,
    whole: &str,
    source: &str,
    first: Result<Vec<String>, DnsError>,
    all: Result<Vec<String>, DnsError>,
    rest: Text,
)
    requires
        call_ensures(parse_rule_file, (head, source), first),
        call_ensures(parse_rule_file, (whole, source), all),
        head@.len() == 0 || head@.last() == '\n',
        whole@ == head@ + rest,
    ensures
        all is Ok ==> first is Ok,
        first matches Ok(a) ==> (all matches Ok(b) ==> {
            &&& b@.len() >= a@.len()
            &&& text::texts(b@).take(a@.len() as int) == text::texts(a@)
        }),
{
    let domain = DynamicDomainRuleKind::Domain;
    let old = storage::rule_lines(head@);
    let new = storage::rule_lines(rest);
    let lines = old + new;
    lemma_rule_lines_concat(head@, rest);
    if all is Ok {
        assert forall|i: int| 0 <= i < old.len() implies rules::canonical(
            #[trigger] old[i],
            domain,
        ) is Some by {
            assert(lines[i] == old[i]);
        }
        assert forall|i: int| 0 <= i < new.len() implies rules::canonical(
            #[trigger] new[i],
            domain,
        ) is Some by {
            assert(lines[old.len() + i] == new[i]);
        }
        let a = rules::canonical_all(old, domain)->0;
        let b = rules::canonical_all(new, domain)->0;
        assert(rules::canonical_all(lines, domain)->0 =~= a + b);
        state::lemma_fresh_concat(Set::empty(), a, b);
        let listed = state::fresh(Set::<Text>::empty(), a);
        let both = state::fresh(Set::<Text>::empty(), a + b);
        assert(both.take(listed.len() as int) =~= listed);
    }
}

/// A rule file is written line by line: its rules in order, with a line break
/// behind each.
pub proof fn law_rendering(list: Seq<Text>, more: Seq<Text>, rule: Text)
    ensures
        storage::rendered(Seq::empty()) == ""@,
        storage::rendered(seq![rule]) == rule + "\n"@,
        storage::rendered(list + more) == storage::rendered(list) + storage::rendered(more),
    decreases more.len(),
{
    reveal_strlit("");
    reveal_strlit("\n");
    assert(storage::rendered(Seq::empty()) =~= ""@);
    assert(seq![rule].drop_last() =~= Seq::empty());
    assert(storage::rendered(seq![rule]) =~= rule + "\n"@);
    if more.len() == 0 {
        assert(list + more =~= list);
        assert(storage::rendered(list) + storage::rendered(more) =~= storage::rendered(list));
    } else {
        law_rendering(list, more.drop_last(), rule);
        assert((list + more).drop_last() =~= list + more.drop_last());
        assert((list + more).last() == more.last());
        assert(storage::rendered(list + more) =~= storage::rendered(list) + storage::rendered(
            more,
        ));
    }
}

/// Texts put together, with a line break behind each.
pub open spec fn with_breaks(list: Seq<Text>) -> Text
    decreases list.len(),
{
    if list.len() == 0 {
        Seq::empty()
    } else {
        list[0] + "\n"@ + with_breaks(list.drop_first())
    }
}

pub proof fn lemma_with_breaks(list: Seq<Text>)
    ensures
        storage::rendered(list) == with_breaks(list),
    decreases list.len(),
{
    if list.len() == 0 {
        assert(storage::rendered(list) =~= with_breaks(list));
    } else {
        let one = seq![list[0]];
        let rest = list.drop_first();
        lemma_with_breaks(rest);
        law_rendering(one, rest, list[0]);
        assert(one + rest =~= list);
    }
}

/// The text of a rule file is its rules from first to last, with a line break
/// behind each.
pub proof fn law_file_is_written(list: &Vec<String>, res: String)
    requires
        call_ensures(render_rule_file, (list,), res),
    ensures
        res@ == with_breaks(text::texts(list@)),
{
    lemma_with_breaks(text::texts(list@));
}

/// Rules are appended to a rule file as they would be written to it, behind a line
/// break if its last line is unfinished.
pub proof fn law_append_is_written(open_line: bool, list: &Vec<String>, res: String)
    requires
        call_ensures(render_append, (open_line, list), res),
    ensures
        res@ == (if open_line {
            "\n"@
        } else {
            ""@
        }) + with_breaks(text::texts(list@)),
{
    reveal_strlit("\n");
    reveal_strlit("");
    lemma_with_breaks(text::texts(list@));
    assert(""@ + with_breaks(text::texts(list@)) =~= with_breaks(text::texts(list@)));
    assert(seq!['\n'] =~= "\n"@);
}

/// A text is finished unless its last line lacks a line break.
pub proof fn law_finished_text(contents: &str, res: bool)
    requires
        call_ensures(is_finished, (contents,), res),
    ensures
        res <==> forall|front: Text, last: char|
            contents@ == #[trigger] front.push(last) ==> last == '\n',
        storage::ends_line(contents@) == res,
{
    if contents@.len() > 0 {
        assert(contents@ =~= contents@.drop_last().push(contents@.last()));
    }
    if res {
        assert forall|front: Text, last: char| contents@ == #[trigger] front.push(
            last,
        ) implies last == '\n' by {
            assert(front.push(last).last() == last);
        }
    }
}

} // verus!
