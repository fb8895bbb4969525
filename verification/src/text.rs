//! Text as sequences of characters: the few string operations the rule
//! language is built from.
use vstd::prelude::*;

verus! {

/// The characters of one string.
pub type Text = Seq<char>;

/// `String::push`: the character is appended at the end of the string.
pub assume_specification[ String::push ](s: &mut String, c: char)
    ensures
        final(s)@ == old(s)@.push(c),
;

/// The contents of a list of strings.
pub open spec fn texts(list: Seq<String>) -> Seq<Text> {
    list.map_values(|s: String| s@)
}

/// Whether a character counts as white space: the Unicode `White_Space`
/// property, which is also what `char::is_whitespace` tests.
pub open spec fn space(c: char) -> bool {
    ||| '\u{9}' <= c <= '\u{d}'
    ||| c == ' '
    ||| c == '\u{85}'
    ||| c == '\u{a0}'
    ||| c == '\u{1680}'
    ||| '\u{2000}' <= c <= '\u{200a}'
    ||| c == '\u{2028}'
    ||| c == '\u{2029}'
    ||| c == '\u{202f}'
    ||| c == '\u{205f}'
    ||| c == '\u{3000}'
}

/// Tests for white space.
pub fn is_space(c: char) -> (res: bool)
    ensures
        res == space(c),
{
    ('\u{9}' <= c && c <= '\u{d}') || c == ' ' || c == '\u{85}' || c == '\u{a0}' || c == '\u{1680}'
        || ('\u{2000}' <= c && c <= '\u{200a}') || c == '\u{2028}' || c == '\u{2029}' || c
        == '\u{202f}' || c == '\u{205f}' || c == '\u{3000}'
}

/// The ASCII lower-case form of a character.
pub open spec fn lower(c: char) -> char {
    if 'A' <= c <= 'Z' {
        (c as int + 32) as char
    } else {
        c
    }
}

pub fn to_lower(c: char) -> (res: char)
    ensures
        res == lower(c),
{
    if 'A' <= c && c <= 'Z' {
        let b: u8 = c as u8;
        (b + 32) as char
    } else {
        c
    }
}

/// The characters of a string, in order.
pub fn chars_of(s: &str) -> (res: Vec<char>)
    ensures
        res@ == s@,
{
    let mut res: Vec<char> = Vec::new();
    for c in it: s.chars()
        invariant
            res@ == it.seq().take(it.index() as int),
            it.seq() == s@,
    {
        res.push(c);
        assert(it.seq().take(it.index() + 1) =~= it.seq().take(it.index() as int).push(c));
    }
    res
}

/// The string that holds the characters at `start..end`.
pub fn string_of(chars: &Vec<char>, start: usize, end: usize) -> (res: String)
    requires
        start <= end <= chars@.len(),
    ensures
        res@ == chars@.subrange(start as int, end as int),
{
    let mut res = String::new();
    let mut i: usize = start;
    while i < end
        invariant
            start <= i <= end <= chars@.len(),
            res@ == chars@.subrange(start as int, i as int),
        decreases end - i,
    {
        res.push(chars[i]);
        i += 1;
        assert(chars@.subrange(start as int, i as int) =~= chars@.subrange(start as int, i - 1).push(
            chars@[i - 1],
        ));
    }
    res
}

/// `s` without leading white space.
pub open spec fn trim_start(s: Text) -> Text
    decreases s.len(),
{
    if s.len() > 0 && space(s[0]) {
        trim_start(s.drop_first())
    } else {
        s
    }
}

/// `s` without trailing white space.
pub open spec fn trim_end(s: Text) -> Text
    decreases s.len(),
{
    if s.len() > 0 && space(s.last()) {
        trim_end(s.drop_last())
    } else {
        s
    }
}

/// `s` without white space at either end.
pub open spec fn trim(s: Text) -> Text {
    trim_end(trim_start(s))
}

/// `s` without the dots at its end.
pub open spec fn strip_dots(s: Text) -> Text
    decreases s.len(),
{
    if s.len() > 0 && s.last() == '.' {
        strip_dots(s.drop_last())
    } else {
        s
    }
}

/// `s` with every ASCII letter in lower case.
pub open spec fn lowered(s: Text) -> Text {
    s.map_values(|c: char| lower(c))
}

/// Whether `s` begins with `prefix`.
pub open spec fn starts_with(s: Text, prefix: Text) -> bool {
    prefix.len() <= s.len() && s.take(prefix.len() as int) == prefix
}

/// A text that neither begins nor ends with white space is its own trimmed
/// form.
pub proof fn lemma_trim_neat(s: Text)
    requires
        s.len() > 0 ==> !space(s[0]) && !space(s.last()),
    ensures
        trim(s) == s,
{
}

proof fn lemma_trim_start(s: Text)
    ensures
        trim_start(s).len() <= s.len(),
        trim_start(s).len() > 0 ==> !space(trim_start(s)[0]),
        forall|i: int| 0 <= i < trim_start(s).len() ==> s.contains(#[trigger] trim_start(s)[i]),
    decreases s.len(),
{
    if s.len() > 0 && space(s[0]) {
        let rest = s.drop_first();
        lemma_trim_start(rest);
        assert forall|i: int| 0 <= i < trim_start(s).len() implies s.contains(
            #[trigger] trim_start(s)[i],
        ) by {
            assert(rest.contains(trim_start(rest)[i]));
            let j = choose|j: int| 0 <= j < rest.len() && rest[j] == trim_start(rest)[i];
            assert(s[j + 1] == rest[j]);
        }
    }
}

proof fn lemma_trim_end(s: Text)
    ensures
        trim_end(s).len() <= s.len(),
        trim_end(s).len() > 0 ==> !space(trim_end(s).last()),
        trim_end(s) == s.take(trim_end(s).len() as int),
    decreases s.len(),
{
    if s.len() > 0 && space(s.last()) {
        let front = s.drop_last();
        lemma_trim_end(front);
        assert(s.take(trim_end(s).len() as int) =~= front.take(trim_end(s).len() as int));
    } else {
        assert(s.take(s.len() as int) =~= s);
    }
}

/// A trimmed text neither begins nor ends with white space, and holds no
/// character that was not there before.
pub proof fn lemma_trim(s: Text)
    ensures
        trim(s).len() > 0 ==> !space(trim(s)[0]) && !space(trim(s).last()),
        forall|i: int| 0 <= i < trim(s).len() ==> s.contains(#[trigger] trim(s)[i]),
{
    lemma_trim_start(s);
    lemma_trim_end(trim_start(s));
}

/// What is left when trailing dots are gone is a beginning of the text and
/// does not end with a dot.
pub proof fn lemma_strip_dots(s: Text)
    ensures
        strip_dots(s).len() <= s.len(),
        strip_dots(s).len() > 0 ==> strip_dots(s).last() != '.',
        strip_dots(s) == s.take(strip_dots(s).len() as int),
    decreases s.len(),
{
    if s.len() > 0 && s.last() == '.' {
        let front = s.drop_last();
        lemma_strip_dots(front);
        assert(s.take(strip_dots(s).len() as int) =~= front.take(strip_dots(s).len() as int));
    } else {
        assert(s.take(s.len() as int) =~= s);
    }
}

/// The part of `chars` that is left when white space is taken off both ends.
pub fn trimmed(chars: &Vec<char>) -> (res: (usize, usize))
    ensures
        res.0 <= res.1 <= chars@.len(),
        chars@.subrange(res.0 as int, res.1 as int) == trim(chars@),
{
    let n: usize = chars.len();
    let mut start: usize = 0;
    assert(chars@.subrange(0, n as int) =~= chars@);
    while start < n && is_space(chars[start])
        invariant
            start <= n == chars@.len(),
            trim_start(chars@.subrange(start as int, n as int)) == trim_start(chars@),
        decreases n - start,
    {
        assert(chars@.subrange(start as int, n as int).drop_first() =~= chars@.subrange(
            start + 1,
            n as int,
        ));
        start += 1;
    }
    let mut end: usize = n;
    while start < end && is_space(chars[end - 1])
        invariant
            start <= end <= n == chars@.len(),
            trim_end(chars@.subrange(start as int, end as int)) == trim(chars@),
        decreases end,
    {
        assert(chars@.subrange(start as int, end as int).drop_last() =~= chars@.subrange(
            start as int,
            end - 1,
        ));
        end -= 1;
    }
    (start, end)
}

/// The characters of `chars` at `start..end` in lower case, without the dots
/// at their end.
pub fn name_chars(chars: &Vec<char>, start: usize, end: usize) -> (res: Vec<char>)
    requires
        start <= end <= chars@.len(),
    ensures
        res@ == strip_dots(lowered(chars@.subrange(start as int, end as int))),
{
    let mut res: Vec<char> = Vec::new();
    let mut i: usize = start;
    while i < end
        invariant
            start <= i <= end <= chars@.len(),
            res@ == lowered(chars@.subrange(start as int, i as int)),
        decreases end - i,
    {
        res.push(to_lower(chars[i]));
        i += 1;
        assert(res@ =~= lowered(chars@.subrange(start as int, i as int)));
    }
    let ghost whole = res@;
    while res.len() > 0 && res[res.len() - 1] == '.'
        invariant
            strip_dots(res@) == strip_dots(whole),
        decreases res@.len(),
    {
        let ghost before = res@;
        res.pop();
        assert(res@ =~= before.drop_last());
    }
    res
}

/// Whether `s` holds white space.
pub open spec fn has_space(s: Text) -> bool {
    exists|i: int| 0 <= i < s.len() && space(#[trigger] s[i])
}

/// Looks for white space.
pub fn contains_space(chars: &Vec<char>) -> (res: bool)
    ensures
        res == has_space(chars@),
{
    let mut i: usize = 0;
    while i < chars.len()
        invariant
            i <= chars@.len(),
            forall|k: int| 0 <= k < i ==> !space(#[trigger] chars@[k]),
        decreases chars@.len() - i,
    {
        if is_space(chars[i]) {
            assert(space(chars@[i as int]));
            return true;
        }
        i += 1;
    }
    false
}

/// Looks for a character at or behind a position.
pub fn find_char(chars: &Vec<char>, start: usize, wanted: char) -> (res: usize)
    requires
        start <= chars@.len(),
    ensures
        start <= res <= chars@.len(),
        forall|k: int| start <= k < res ==> chars@[k] != wanted,
        res < chars@.len() ==> chars@[res as int] == wanted,
{
    let mut i: usize = start;
    while i < chars.len() && chars[i] != wanted
        invariant
            start <= i <= chars@.len(),
            forall|k: int| start <= k < i ==> chars@[k] != wanted,
        decreases chars@.len() - i,
    {
        i += 1;
    }
    i
}

/// Whether one string begins with another.
pub fn has_prefix(chars: &Vec<char>, start: usize, end: usize, prefix: &Vec<char>) -> (res: bool)
    requires
        start <= end <= chars@.len(),
    ensures
        res == starts_with(chars@.subrange(start as int, end as int), prefix@),
{
    let ghost s = chars@.subrange(start as int, end as int);
    if end - start < prefix.len() {
        return false;
    }
    let mut i: usize = 0;
    while i < prefix.len()
        invariant
            start <= end <= chars@.len(),
            s == chars@.subrange(start as int, end as int),
            i <= prefix@.len() <= end - start,
            s.take(i as int) == prefix@.take(i as int),
        decreases prefix@.len() - i,
    {
        if chars[start + i] != prefix[i] {
            assert(s[i as int] == chars@[start + i]);
            assert(s.take(prefix@.len() as int)[i as int] != prefix@[i as int]);
            return false;
        }
        i += 1;
        assert(s.take(i as int) =~= prefix@.take(i as int));
    }
    assert(prefix@.take(i as int) =~= prefix@);
    true
}

/// The decimal digits of a number.
pub open spec fn decimal(n: nat) -> Text
    decreases n,
{
    if n < 10 {
        seq![digit(n)]
    } else {
        decimal(n / 10).push(digit(n % 10))
    }
}

/// The character for a number below ten.
pub open spec fn digit(n: nat) -> char {
    ('0' as int + n) as char
}

/// Writes a number in decimal.
pub fn decimal_of(n: usize) -> (res: String)
    ensures
        res@ == decimal(n as nat),
    decreases n,
{
    let mut res = if n < 10 {
        String::new()
    } else {
        decimal_of(n / 10)
    };
    let d: u8 = (n % 10) as u8;
    res.push((48u8 + d) as char);
    proof {
        if n < 10 {
            assert(res@ =~= seq![digit(n as nat)]);
        }
    }
    res
}

/// The string that holds `a` followed by `b`.
pub fn joined(a: &str, b: &str) -> (res: String)
    ensures
        res@ == a@ + b@,
{
    let mut res = a.to_owned();
    res.append(b);
    res
}

} // verus!
