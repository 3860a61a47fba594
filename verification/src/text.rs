//! Text on the level of characters: trimming, searching, numerals.

use vstd::prelude::*;
use vstd::string::{StrSliceExecFns, StringExecFns};

verus! {

/// `String::push`: appends one character to the end of the string.
pub assume_specification[ String::push ](s: &mut String, c: char)
    ensures
        final(s)@ == old(s)@.push(c),
;

/// The characters with the Unicode property `White_Space`.
pub open spec fn is_space(c: char) -> bool {
    ||| '\u{9}' <= c <= '\u{d}'
    ||| c == '\u{20}'
    ||| c == '\u{85}'
    ||| c == '\u{a0}'
    ||| c == '\u{1680}'
    ||| '\u{2000}' <= c <= '\u{200a}'
    ||| c == '\u{2028}'
    ||| c == '\u{2029}'
    ||| c == '\u{202f}'
    ||| c == '\u{205f}'
    ||| c == '\u{3000}'
}

/// Whether a character is white space.
pub fn is_whitespace(c: char) -> (r: bool)
    ensures
        r == is_space(c),
{
    ('\u{9}' <= c && c <= '\u{d}') || c == '\u{20}' || c == '\u{85}' || c == '\u{a0}' || c
        == '\u{1680}' || ('\u{2000}' <= c && c <= '\u{200a}') || c == '\u{2028}' || c == '\u{2029}'
        || c == '\u{202f}' || c == '\u{205f}' || c == '\u{3000}'
}

/// The text without the white space in front of it.
pub open spec fn trim_start(s: Seq<char>) -> Seq<char>
    decreases s.len(),
{
    if s.len() > 0 && is_space(s[0]) {
        trim_start(s.drop_first())
    } else {
        s
    }
}

/// The text without the white space behind it.
pub open spec fn trim_end(s: Seq<char>) -> Seq<char>
    decreases s.len(),
{
    if s.len() > 0 && is_space(s.last()) {
        trim_end(s.drop_last())
    } else {
        s
    }
}

/// The text without the white space around it.
pub open spec fn trimmed(s: Seq<char>) -> Seq<char> {
    trim_end(trim_start(s))
}

/// The characters of a text, in order.
pub fn chars_of(text: &str) -> (chars: Vec<char>)
    ensures
        chars@ == text@,
{
    let mut chars: Vec<char> = Vec::new();
    for c in iter: text.chars()
        invariant
            iter.seq() == text@,
            chars@ == text@.take(iter.index()),
    {
        chars.push(c);
    }
    chars
}

/// The text made of the characters.
pub fn text_of(chars: &Vec<char>) -> (text: String)
    ensures
        text@ == chars@,
{
    let mut text = String::new();
    let mut i: usize = 0;
    while i < chars.len()
        invariant
            i <= chars@.len(),
            text@ == chars@.take(i as int),
        decreases chars@.len() - i,
    {
        text.push(chars[i]);
        i = i + 1;
    }
    text
}

/// The characters from `from` up to `to`.
pub fn slice_of(chars: &Vec<char>, from: usize, to: usize) -> (r: Vec<char>)
    requires
        from <= to <= chars@.len(),
    ensures
        r@ == chars@.subrange(from as int, to as int),
{
    let mut r: Vec<char> = Vec::new();
    let mut i: usize = from;
    while i < to
        invariant
            from <= i <= to <= chars@.len(),
            r@ == chars@.subrange(from as int, i as int),
        decreases to - i,
    {
        r.push(chars[i]);
        i = i + 1;
    }
    r
}

/// The text without the white space around it.
pub fn trim(text: &str) -> (r: &str)
    ensures
        r@ == trimmed(text@),
{
    let chars = chars_of(text);
    let mut from: usize = 0;
    assert(text@.skip(0) == text@);
    while from < chars.len() && is_whitespace(chars[from])
        invariant
            from <= chars@.len(),
            chars@ == text@,
            trim_start(text@) == trim_start(text@.skip(from as int)),
        decreases chars@.len() - from,
    {
        assert(text@.skip(from as int).drop_first() == text@.skip(from + 1));
        from = from + 1;
    }
    let ghost rest = text@.skip(from as int);
    let mut to: usize = chars.len();
    assert(rest.take(to - from) == rest);
    while from < to && is_whitespace(chars[to - 1])
        invariant
            from <= to <= chars@.len(),
            chars@ == text@,
            rest == text@.skip(from as int),
            trim_end(rest) == trim_end(rest.take(to - from)),
        decreases to,
    {
        assert(rest.take(to - from).drop_last() == rest.take(to - from - 1));
        to = to - 1;
    }
    assert(rest.take(to - from) == text@.subrange(from as int, to as int));
    text.substring_char(from, to)
}

/// Whether `pattern` stands in `s` at position `at`.
pub open spec fn occurs_at(s: Seq<char>, pattern: Seq<char>, at: int) -> bool {
    &&& 0 <= at
    &&& at + pattern.len() <= s.len()
    &&& s.subrange(at, at + pattern.len()) == pattern
}

/// Whether `pattern` stands in `s` at position `at` and nowhere before it.
pub open spec fn first_occurs_at(s: Seq<char>, pattern: Seq<char>, at: int) -> bool {
    &&& occurs_at(s, pattern, at)
    &&& forall|earlier: int| earlier < at ==> !#[trigger] occurs_at(s, pattern, earlier)
}

/// Whether `pattern` stands anywhere in `s`.
pub open spec fn mentions(s: Seq<char>, pattern: Seq<char>) -> bool {
    exists|at: int| #[trigger] occurs_at(s, pattern, at)
}

/// The position at which `pattern` first stands in `s`, if it does.
pub open spec fn first_position(s: Seq<char>, pattern: Seq<char>) -> int {
    choose|at: int| first_occurs_at(s, pattern, at)
}

/// A text has one first occurrence of a pattern.
pub proof fn lemma_first_position(s: Seq<char>, pattern: Seq<char>, at: int)
    requires
        first_occurs_at(s, pattern, at),
    ensures
        first_position(s, pattern) == at,
{
    let chosen = first_position(s, pattern);
    assert(first_occurs_at(s, pattern, chosen));
    assert(occurs_at(s, pattern, chosen));
    assert(occurs_at(s, pattern, at));
}

/// A text that mentions a pattern has a first occurrence of it.
pub proof fn lemma_mentioned_first(s: Seq<char>, pattern: Seq<char>)
    requires
        mentions(s, pattern),
    ensures
        first_occurs_at(s, pattern, first_position(s, pattern)),
{
    let at = choose|at: int| #[trigger] occurs_at(s, pattern, at);
    lemma_occurrence_bounds_first(s, pattern, at);
}

proof fn lemma_occurrence_bounds_first(s: Seq<char>, pattern: Seq<char>, at: int)
    requires
        occurs_at(s, pattern, at),
    ensures
        exists|first: int| first_occurs_at(s, pattern, first),
    decreases at,
{
    if exists|earlier: int| earlier < at && #[trigger] occurs_at(s, pattern, earlier) {
        let earlier = choose|earlier: int|
            earlier < at && #[trigger] occurs_at(s, pattern, earlier);
        lemma_occurrence_bounds_first(s, pattern, earlier);
    } else {
        assert(first_occurs_at(s, pattern, at));
    }
}

/// Whether `pattern` stands in the text at position `at`.
fn matches_at(chars: &Vec<char>, pattern: &Vec<char>, at: usize) -> (r: bool)
    requires
        at + pattern@.len() <= chars@.len(),
    ensures
        r == occurs_at(chars@, pattern@, at as int),
{
    let len: usize = chars.len();
    let mut i: usize = 0;
    while i < pattern.len()
        invariant
            i <= pattern@.len(),
            at + pattern@.len() <= chars@.len(),
            len == chars@.len(),
            forall|j: int| 0 <= j < i ==> chars@[at + j] == #[trigger] pattern@[j],
        decreases pattern@.len() - i,
    {
        if chars[at + i] != pattern[i] {
            assert(chars@.subrange(at as int, at + pattern@.len())[i as int] != pattern@[i as int]);
            return false;
        }
        i = i + 1;
    }
    assert(chars@.subrange(at as int, at + pattern@.len()) == pattern@);
    true
}

/// The position at which `pattern` first stands in the text.
pub fn find(chars: &Vec<char>, pattern: &Vec<char>) -> (r: Option<usize>)
    ensures
        match r {
            Some(at) => {
                &&& mentions(chars@, pattern@)
                &&& first_occurs_at(chars@, pattern@, at as int)
                &&& at == first_position(chars@, pattern@)
            },
            None => !mentions(chars@, pattern@),
        },
{
    if pattern.len() > chars.len() {
        return None;
    }
    let last: usize = chars.len() - pattern.len();
    let mut at: usize = 0;
    loop
        invariant
            at <= last,
            last == chars@.len() - pattern@.len(),
            forall|earlier: int| earlier < at ==> !#[trigger] occurs_at(chars@, pattern@, earlier),
        decreases last - at,
    {
        if matches_at(chars, pattern, at) {
            proof {
                lemma_first_position(chars@, pattern@, at as int);
            }
            return Some(at);
        }
        if at == last {
            return None;
        }
        at = at + 1;
    }
}

/// Whether the text begins with `prefix`.
pub fn starts_with(text: &str, prefix: &str) -> (r: bool)
    ensures
        r == occurs_at(text@, prefix@, 0),
{
    let chars = chars_of(text);
    let pattern = chars_of(prefix);
    pattern.len() <= chars.len() && matches_at(&chars, &pattern, 0)
}

/// An upper-case ASCII letter as its lower-case form, any other character as it is.
pub open spec fn ascii_lower(c: char) -> char {
    if 'A' <= c <= 'Z' {
        (c as int + 32) as char
    } else {
        c
    }
}

/// The text with its ASCII letters in lower case.
pub open spec fn lowered(s: Seq<char>) -> Seq<char> {
    s.map_values(|c: char| ascii_lower(c))
}

/// The characters of the text with its ASCII letters in lower case.
pub fn lower_chars(text: &str) -> (r: Vec<char>)
    ensures
        r@ == lowered(text@),
{
    let chars = chars_of(text);
    let mut lower: Vec<char> = Vec::new();
    let mut i: usize = 0;
    while i < chars.len()
        invariant
            i <= chars@.len(),
            lower@ == lowered(chars@.take(i as int)),
        decreases chars@.len() - i,
    {
        let c = chars[i];
        if 'A' <= c && c <= 'Z' {
            lower.push((c as u8 + 32) as char);
        } else {
            lower.push(c);
        }
        assert(chars@.take(i + 1) == chars@.take(i as int).push(c));
        i = i + 1;
    }
    assert(chars@.take(chars@.len() as int) == chars@);
    lower
}

/// The lines of a text: what stands between its line feeds.
pub open spec fn lines_of(s: Seq<char>) -> Seq<Seq<char>>
    decreases s.len(),
{
    if s.len() == 0 {
        seq![Seq::empty()]
    } else {
        let lines = lines_of(s.drop_last());
        if s.last() == '\n' {
            lines.push(Seq::empty())
        } else {
            lines.drop_last().push(lines.last().push(s.last()))
        }
    }
}

/// The lines of a text.
pub fn lines(text: &str) -> (r: Vec<String>)
    ensures
        r@.map_values(|line: String| line@) == lines_of(text@),
{
    let chars = chars_of(text);
    let mut done: Vec<String> = Vec::new();
    let mut line = String::new();
    let mut i: usize = 0;
    while i < chars.len()
        invariant
            i <= chars@.len(),
            chars@ == text@,
            done@.map_values(|line: String| line@).push(line@) == lines_of(text@.take(i as int)),
        decreases chars@.len() - i,
    {
        let ghost before = lines_of(text@.take(i as int));
        assert(text@.take(i + 1).drop_last() == text@.take(i as int));
        assert(before.drop_last() == done@.map_values(|line: String| line@));
        assert(before.last() == line@);
        if chars[i] == '\n' {
            done.push(line);
            line = String::new();
        } else {
            line.push(chars[i]);
        }
        i = i + 1;
    }
    assert(text@.take(i as int) == text@);
    done.push(line);
    done
}

/// The decimal digit of a number below ten.
pub open spec fn digit(d: nat) -> char {
    ('0' as int + d) as char
}

/// The decimal numeral of a number.
pub open spec fn numeral(n: nat) -> Seq<char>
    decreases n,
{
    if n < 10 {
        seq![digit(n)]
    } else {
        numeral(n / 10).push(digit(n % 10))
    }
}

/// The decimal numeral of an integer, with a sign in front if it is negative.
pub open spec fn signed_numeral(n: int) -> Seq<char> {
    if n < 0 {
        seq!['-'] + numeral((-n) as nat)
    } else {
        numeral(n as nat)
    }
}

/// The decimal numeral of a number.
pub fn decimal(n: u128) -> (r: String)
    ensures
        r@ == numeral(n as nat),
    decreases n,
{
    let mut r = if n < 10 {
        String::new()
    } else {
        decimal(n / 10)
    };
    let d: u8 = (n % 10) as u8;
    r.push(('0' as u8 + d) as char);
    r
}

/// The decimal numeral of an integer.
pub fn signed_decimal(n: i32) -> (r: String)
    ensures
        r@ == signed_numeral(n as int),
{
    if n < 0 {
        let mut r = String::from_str("-");
        proof {
            reveal_strlit("-");
        }
        let digits = decimal((-(n as i128)) as u128);
        r.append(digits.as_str());
        r
    } else {
        decimal(n as u128)
    }
}

/// The characters that count as white space, by their code points: tab to carriage return, space,
/// next line, no-break space, and the spaces and separators of other scripts.
pub proof fn law_white_space(c: char)
    ensures
        ({
            let n = c as u32;
            is_space(c) <==> {
                ||| n == 0x9 || n == 0xa || n == 0xb || n == 0xc || n == 0xd
                ||| n == 0x20 || n == 0x85 || n == 0xa0 || n == 0x1680
                ||| n == 0x2000 || n == 0x2001 || n == 0x2002 || n == 0x2003 || n == 0x2004
                ||| n == 0x2005 || n == 0x2006 || n == 0x2007 || n == 0x2008 || n == 0x2009
                ||| n == 0x200a || n == 0x2028 || n == 0x2029 || n == 0x202f || n == 0x205f
                ||| n == 0x3000
            }
        }),
{
}

/// Whether all characters of a text are white space.
pub open spec fn blank(s: Seq<char>) -> bool {
    forall|i: int| 0 <= i < s.len() ==> is_space(#[trigger] s[i])
}

/// Whether a text neither begins nor ends with white space.
pub open spec fn bare(s: Seq<char>) -> bool {
    s.len() > 0 ==> !is_space(s[0]) && !is_space(s.last())
}

/// Trimming takes the white space around a text away, and nothing else: of a text that neither
/// begins nor ends with white space, put between any white space, that text comes back.
pub proof fn law_trimming_takes_white_space_only(
    front: Seq<char>,
    middle: Seq<char>,
    back: Seq<char>,
)
    requires
        blank(front),
        bare(middle),
        blank(back),
    ensures
        trimmed(front + middle + back) == middle,
{
    let s = front + middle + back;
    if middle.len() == 0 {
        assert forall|i: int| 0 <= i < s.len() implies is_space(#[trigger] s[i]) by {
            if i >= front.len() {
                assert(s[i] == back[i - front.len()]);
            }
        }
        lemma_trim_start(s, Seq::empty());
        assert(s + Seq::<char>::empty() =~= s);
    } else {
        assert(s =~= front + (middle + back));
        lemma_trim_start(front, middle + back);
        lemma_trim_end(middle, back);
    }
}

/// Every text is some white space, what trimming leaves of it, and some more white space.
pub proof fn law_trimming_leaves_the_middle(s: Seq<char>)
    ensures
        bare(trimmed(s)),
        exists|front: Seq<char>, back: Seq<char>|
            blank(front) && blank(back) && s == #[trigger] (front + trimmed(s) + back),
{
    lemma_trim_start_splits(s);
    let front = choose|front: Seq<char>|
        blank(front) && s == #[trigger] (front + trim_start(s));
    lemma_trim_end_splits(trim_start(s));
    let back = choose|back: Seq<char>|
        blank(back) && trim_start(s) == #[trigger] (trim_end(trim_start(s)) + back);
    assert(s =~= front + trimmed(s) + back);
    if trimmed(s).len() > 0 {
        assert(trimmed(s)[0] == trim_start(s)[0]);
    }
}

proof fn lemma_trim_start(front: Seq<char>, rest: Seq<char>)
    requires
        blank(front),
        rest.len() > 0 ==> !is_space(rest[0]),
    ensures
        trim_start(front + rest) == rest,
    decreases front.len(),
{
    if front.len() == 0 {
        assert(front + rest =~= rest);
    } else {
        assert((front + rest)[0] == front[0]);
        assert((front + rest).drop_first() =~= front.drop_first() + rest);
        assert forall|i: int| 0 <= i < front.drop_first().len() implies is_space(
            #[trigger] front.drop_first()[i],
        ) by {
            assert(front.drop_first()[i] == front[i + 1]);
        }
        lemma_trim_start(front.drop_first(), rest);
    }
}

proof fn lemma_trim_end(rest: Seq<char>, back: Seq<char>)
    requires
        blank(back),
        rest.len() > 0 ==> !is_space(rest.last()),
    ensures
        trim_end(rest + back) == rest,
    decreases back.len(),
{
    if back.len() == 0 {
        assert(rest + back =~= rest);
    } else {
        assert((rest + back).last() == back.last());
        assert((rest + back).drop_last() =~= rest + back.drop_last());
        assert(is_space(back[back.len() - 1]));
        assert forall|i: int| 0 <= i < back.drop_last().len() implies is_space(
            #[trigger] back.drop_last()[i],
        ) by {
            assert(back.drop_last()[i] == back[i]);
        }
        lemma_trim_end(rest, back.drop_last());
    }
}

proof fn lemma_trim_start_splits(s: Seq<char>)
    ensures
        trim_start(s).len() > 0 ==> !is_space(trim_start(s)[0]),
        exists|front: Seq<char>| blank(front) && s == #[trigger] (front + trim_start(s)),
    decreases s.len(),
{
    if s.len() > 0 && is_space(s[0]) {
        lemma_trim_start_splits(s.drop_first());
        let front = choose|front: Seq<char>|
            blank(front) && s.drop_first() == #[trigger] (front + trim_start(s.drop_first()));
        let longer = seq![s[0]] + front;
        let rest = trim_start(s);
        assert forall|i: int| 0 <= i < s.len() implies s[i] == (longer + rest)[i] by {
            if i > 0 {
                assert(s.drop_first()[i - 1] == (front + rest)[i - 1]);
            }
        }
        assert(s.len() == s.drop_first().len() + 1);
        assert(s =~= longer + rest);
        assert(blank(longer));
    } else {
        assert(s =~= Seq::<char>::empty() + trim_start(s));
        assert(blank(Seq::empty()));
    }
}

proof fn lemma_trim_end_splits(s: Seq<char>)
    ensures
        trim_end(s).len() > 0 ==> !is_space(trim_end(s).last()),
        exists|back: Seq<char>| blank(back) && s == #[trigger] (trim_end(s) + back),
    decreases s.len(),
{
    if s.len() > 0 && is_space(s.last()) {
        lemma_trim_end_splits(s.drop_last());
        let back = choose|back: Seq<char>|
            blank(back) && s.drop_last() == #[trigger] (trim_end(s.drop_last()) + back);
        let longer = back.push(s.last());
        let rest = trim_end(s);
        assert forall|i: int| 0 <= i < s.len() implies s[i] == (rest + longer)[i] by {
            if i < s.len() - 1 {
                assert(s.drop_last()[i] == (rest + back)[i]);
            }
        }
        assert(s.len() == s.drop_last().len() + 1);
        assert(s =~= rest + longer);
        assert(blank(longer));
    } else {
        assert(s =~= trim_end(s) + Seq::<char>::empty());
        assert(blank(Seq::empty()));
    }
}

/// A pattern stands at a position exactly if the text is something of that length, the pattern,
/// and some rest.
pub proof fn law_an_occurrence_splits_the_text(s: Seq<char>, pattern: Seq<char>, at: int)
    ensures
        occurs_at(s, pattern, at) <==> exists|before: Seq<char>, after: Seq<char>|
            before.len() == at && s == #[trigger] (before + pattern + after),
{
    if occurs_at(s, pattern, at) {
        let before = s.take(at);
        let after = s.skip(at + pattern.len());
        assert forall|i: int| 0 <= i < s.len() implies s[i] == (before + pattern + after)[i] by {
            if at <= i < at + pattern.len() {
                assert(s.subrange(at, at + pattern.len())[i - at] == pattern[i - at]);
            }
        }
        assert(s =~= before + pattern + after);
    }
    if exists|before: Seq<char>, after: Seq<char>|
        before.len() == at && s == #[trigger] (before + pattern + after) {
        let (before, after) = choose|before: Seq<char>, after: Seq<char>|
            before.len() == at && s == #[trigger] (before + pattern + after);
        assert(s.subrange(at, at + pattern.len()) =~= pattern);
    }
}

/// A text mentions a pattern exactly if it is something, the pattern, and some rest; and no such
/// splitting lies before the first position.
pub proof fn law_the_first_occurrence_is_found(s: Seq<char>, pattern: Seq<char>)
    ensures
        mentions(s, pattern) <==> exists|before: Seq<char>, after: Seq<char>|
            s == #[trigger] (before + pattern + after),
        mentions(s, pattern) ==> {
            let first = first_position(s, pattern);
            &&& 0 <= first <= s.len() - pattern.len()
            &&& s == s.take(first) + pattern + s.skip(first + pattern.len())
        },
        forall|before: Seq<char>, after: Seq<char>|
            s == #[trigger] (before + pattern + after) ==> first_position(s, pattern)
                <= before.len(),
{
    assert forall|before: Seq<char>, after: Seq<char>|
        s == #[trigger] (before + pattern + after) implies mentions(s, pattern)
        && first_position(s, pattern) <= before.len() by {
        law_an_occurrence_splits_the_text(s, pattern, before.len() as int);
        assert(occurs_at(s, pattern, before.len() as int));
        lemma_mentioned_first(s, pattern);
    }
    if mentions(s, pattern) {
        lemma_mentioned_first(s, pattern);
        let first = first_position(s, pattern);
        law_an_occurrence_splits_the_text(s, pattern, first);
        let (before, after) = choose|before: Seq<char>, after: Seq<char>|
            before.len() == first && s == #[trigger] (before + pattern + after);
        assert(before =~= s.take(first));
        assert(after =~= s.skip(first + pattern.len()));
    }
}

/// Lowering keeps the length of a text. It moves each of the 26 upper-case ASCII letters to its
/// lower-case form and leaves every other character as it is, so that lowering twice is lowering
/// once.
pub proof fn law_lowering_moves_ascii_letters_only(s: Seq<char>)
    ensures
        lowered(s).len() == s.len(),
        forall|i: int|
            0 <= i < s.len() ==> if 65 <= (#[trigger] s[i]) as u32 <= 90 {
                lowered(s)[i] as u32 == s[i] as u32 + 32
            } else {
                lowered(s)[i] == s[i]
            },
        lowered(lowered(s)) == lowered(s),
{
    assert(lowered(lowered(s)) =~= lowered(s));
}

/// The lines of two texts with a line feed between them are the lines of the one and then those of
/// the other; and a text without a line feed is its own only line.
pub proof fn law_lines_end_at_line_feeds(one: Seq<char>, other: Seq<char>)
    ensures
        lines_of(one + seq!['\n'] + other) == lines_of(one) + lines_of(other),
        !one.contains('\n') ==> lines_of(one) == seq![one],
    decreases other.len(), one.len(),
{
    let s = one + seq!['\n'] + other;
    lemma_some_line(one);
    lemma_some_line(other);
    if other.len() == 0 {
        assert(s.drop_last() =~= one);
        assert(lines_of(s) =~= lines_of(one) + lines_of(other));
    } else {
        law_lines_end_at_line_feeds(one, other.drop_last());
        lemma_some_line(other.drop_last());
        assert(s.drop_last() =~= one + seq!['\n'] + other.drop_last());
        assert(s.last() == other.last());
        assert(lines_of(s) =~= lines_of(one) + lines_of(other));
    }
    if !one.contains('\n') {
        lemma_one_line(one);
    }
}

proof fn lemma_some_line(s: Seq<char>)
    ensures
        lines_of(s).len() > 0,
    decreases s.len(),
{
    if s.len() > 0 {
        lemma_some_line(s.drop_last());
    }
}

proof fn lemma_one_line(s: Seq<char>)
    requires
        !s.contains('\n'),
    ensures
        lines_of(s) == seq![s],
    decreases s.len(),
{
    if s.len() > 0 {
        assert forall|i: int| 0 <= i < s.drop_last().len() implies s.drop_last()[i] != '\n' by {
            assert(s.contains(s[i]));
        }
        assert(s.contains(s[s.len() - 1]));
        lemma_one_line(s.drop_last());
        assert(s.drop_last().push(s.last()) =~= s);
    } else {
        assert(s =~= Seq::empty());
    }
    assert(lines_of(s) =~= seq![s]);
}

/// The numeral of a number below ten is its digit, and a further digit behind a numeral means ten
/// times the number plus the digit.
pub proof fn law_numerals_are_decimal(n: nat, d: nat)
    requires
        d < 10,
    ensures
        numeral(d).len() == 1,
        numeral(d)[0] as u32 == 48 + d,
        n > 0 ==> numeral(10 * n + d) == numeral(n) + numeral(d),
{
    if n > 0 {
        assert((10 * n + d) / 10 == n);
        assert((10 * n + d) % 10 == d);
        assert(numeral(10 * n + d) =~= numeral(n) + numeral(d));
    }
}

/// A number that is not negative is written without a sign, and its negative with a minus in front
/// of the same digits.
pub proof fn law_negative_numerals_have_a_sign(n: nat)
    ensures
        signed_numeral(n as int) == numeral(n),
        n > 0 ==> signed_numeral(-(n as int)) == "-"@ + signed_numeral(n as int),
{
    reveal_strlit("-");
    assert("-"@ =~= seq!['-']);
}

} // verus!
