//! The file of default environment variables.

use crate::text;
use vstd::prelude::*;
use vstd::string::StrSliceExecFns;

verus! {

/// A value without the quotes around it, if it has any of one kind.
pub open spec fn unquoted(value: Seq<char>) -> Seq<char> {
    if value.len() >= 2 && value[0] == value.last() && (value[0] == '"' || value[0] == '\'') {
        value.subrange(1, value.len() - 1)
    } else {
        value
    }
}

/// A name without a leading `export`.
pub open spec fn unexported(name: Seq<char>) -> Seq<char> {
    if text::occurs_at(name, "export "@, 0) {
        name.skip("export "@.len() as int)
    } else {
        name
    }
}

/// Name and value that a line gives. Blank lines, comments, lines without `=` and lines without a
/// name give none.
pub open spec fn entry_of(line: Seq<char>) -> Option<(Seq<char>, Seq<char>)> {
    let line = text::trimmed(line);
    if line.len() == 0 || line[0] == '#' || !text::mentions(line, "="@) {
        None
    } else {
        let at = text::first_position(line, "="@);
        let name = unexported(text::trimmed(line.take(at)));
        if name.len() == 0 {
            None
        } else {
            Some((name, unquoted(text::trimmed(line.skip(at + 1)))))
        }
    }
}

/// The entries of the lines that give one, in order.
pub open spec fn entries_of(lines: Seq<Seq<char>>) -> Seq<(Seq<char>, Seq<char>)>
    decreases lines.len(),
{
    if lines.len() == 0 {
        Seq::empty()
    } else {
        let earlier = entries_of(lines.drop_last());
        match entry_of(lines.last()) {
            Some(entry) => earlier.push(entry),
            None => earlier,
        }
    }
}

/// Name and value that a line gives.
pub fn parse_line(line: &str) -> (r: Option<(String, String)>)
    ensures
        entry_of(line@) == (match r {
            Some((name, value)) => Some((name@, value@)),
            None => None,
        }),
{
    let line = text::trim(line);
    let chars = text::chars_of(line);
    if chars.len() == 0 || chars[0] == '#' {
        return None;
    }
    match text::find(&chars, &text::chars_of("=")) {
        Some(at) => {
            proof {
                reveal_strlit("=");
                assert(line@.subrange(0, at as int) == line@.take(at as int));
                assert(line@.subrange(at + 1, line@.len() as int) == line@.skip(at + 1));
            }
            let name = strip_export(text::trim(line.substring_char(0, at)));
            if name.unicode_len() == 0 {
                None
            } else {
                let value = text::trim(line.substring_char(at + 1, chars.len()));
                Some((name.to_string(), unquote(value).to_string()))
            }
        },
        None => None,
    }
}

fn strip_export(name: &str) -> (r: &str)
    ensures
        r@ == unexported(name@),
{
    if text::starts_with(name, "export ") {
        proof {
            reveal_strlit("export ");
        }
        let r = name.substring_char(7, name.unicode_len());
        assert(name@.subrange(7, name@.len() as int) == name@.skip(7));
        r
    } else {
        name
    }
}

fn unquote(value: &str) -> (r: &str)
    ensures
        r@ == unquoted(value@),
{
    let len: usize = value.unicode_len();
    if len >= 2 {
        let first = value.get_char(0);
        let last = value.get_char(len - 1);
        if first == last && (first == '"' || first == '\'') {
            return value.substring_char(1, len - 1);
        }
    }
    value
}

/// The texts of names and values.
pub open spec fn entry_texts(entries: Seq<(String, String)>) -> Seq<(Seq<char>, Seq<char>)> {
    entries.map_values(|entry: (String, String)| (entry.0@, entry.1@))
}

/// The entries of a file of defaults on which is still to be decided. Which variables have a value
/// only the system can say, so it is asked of one name after the other.
pub struct Defaults {
    pending: Vec<(String, String)>,
}

impl View for Defaults {
    type V = Seq<(Seq<char>, Seq<char>)>;

    closed spec fn view(&self) -> Seq<(Seq<char>, Seq<char>)> {
        entry_texts(self.pending@)
    }
}

impl Defaults {
    /// The entries of a file with these contents.
    pub fn new(contents: &str) -> (r: Self)
        ensures
            r@ == entries_of(text::lines_of(contents@)),
    {
        let lines = text::lines(contents);
        let ghost all = text::lines_of(contents@);
        let mut pending: Vec<(String, String)> = Vec::new();
        let mut i: usize = 0;
        while i < lines.len()
            invariant
                i <= lines@.len(),
                all == lines@.map_values(|line: String| line@),
                entry_texts(pending@) == entries_of(all.take(i as int)),
            decreases lines@.len() - i,
        {
            assert(all.take(i + 1).drop_last() == all.take(i as int));
            assert(all.take(i + 1).last() == lines@[i as int]@);
            let ghost before = pending@;
            if let Some((name, value)) = parse_line(lines[i].as_str()) {
                pending.push((name, value));
                assert(entry_texts(pending@) == entry_texts(before).push((name@, value@)));
            }
            i = i + 1;
        }
        assert(all.take(i as int) == all);
        Defaults { pending }
    }

    /// The name of the next entry. `None` when none is left.
    pub fn next_name(&self) -> (r: Option<&str>)
        ensures
            match r {
                Some(name) => self@.len() > 0 && name@ == self@[0].0,
                None => self@.len() == 0,
            },
    {
        if self.pending.len() > 0 {
            Some(self.pending[0].0.as_str())
        } else {
            None
        }
    }

    /// Decides on the next entry, given whether its variable has a value by now: if it has none,
    /// the entry is the assignment to make.
    pub fn decide(&mut self, defined: bool) -> (r: Option<(String, String)>)
        ensures
            final(self)@ == (if old(self)@.len() > 0 {
                old(self)@.drop_first()
            } else {
                old(self)@
            }),
            match r {
                Some((name, value)) => {
                    &&& old(self)@.len() > 0
                    &&& !defined
                    &&& (name@, value@) == old(self)@[0]
                },
                None => old(self)@.len() == 0 || defined,
            },
    {
        if self.pending.len() == 0 {
            return None;
        }
        let ghost before = self@;
        let entry = self.pending.remove(0);
        assert(self@ == before.drop_first());
        if defined {
            None
        } else {
            Some(entry)
        }
    }
}

/// Whether an entry before the given one gave its variable a value. `answers` says of each entry
/// whether its variable had a value by its turn, and two names with the same `key` name one
/// variable.
pub open spec fn given_before(
    entries: Seq<(Seq<char>, Seq<char>)>,
    answers: Seq<bool>,
    key: spec_fn(Seq<char>) -> Seq<char>,
    at: int,
) -> bool {
    exists|i: int|
        0 <= i < at && !answers[i] && key((#[trigger] entries[i]).0) == key(entries[at].0)
}

/// Whether the answers are true of a system that tells variables apart by `key`, where those with
/// their keys in `defined` have a value from the start: by its turn a variable has a value if it
/// had one from the start, or if an earlier entry gave it one.
pub open spec fn truthful(
    entries: Seq<(Seq<char>, Seq<char>)>,
    answers: Seq<bool>,
    defined: Set<Seq<char>>,
    key: spec_fn(Seq<char>) -> Seq<char>,
) -> bool {
    &&& answers.len() == entries.len()
    &&& forall|i: int|
        0 <= i < entries.len() ==> #[trigger] answers[i] == (defined.contains(key(entries[i].0))
            || given_before(entries, answers, key, i))
}

/// However a system tells variables apart, if it is asked truthfully then an entry becomes an
/// assignment exactly if its variable had no value from the start and no earlier entry is for the
/// same variable. So no default overrides a value, and no variable is set twice.
pub proof fn law_first_entry_fills_the_gap(
    entries: Seq<(Seq<char>, Seq<char>)>,
    answers: Seq<bool>,
    defined: Set<Seq<char>>,
    key: spec_fn(Seq<char>) -> Seq<char>,
    at: int,
)
    requires
        truthful(entries, answers, defined, key),
        0 <= at < entries.len(),
    ensures
        !answers[at] <==> {
            &&& !defined.contains(key(entries[at].0))
            &&& forall|i: int|
                0 <= i < at ==> key((#[trigger] entries[i]).0) != key(entries[at].0)
        },
{
    if !answers[at] {
        assert forall|i: int| 0 <= i < at implies key((#[trigger] entries[i]).0) != key(
            entries[at].0,
        ) by {
            if key(entries[i].0) == key(entries[at].0) {
                assert(answers[i]);
                assert(given_before(entries, answers, key, i));
                let j = choose|j: int|
                    0 <= j < i && !answers[j] && key((#[trigger] entries[j]).0) == key(
                        entries[i].0,
                    );
                assert(given_before(entries, answers, key, at));
            }
        }
    }
}

/// Every name in a file of defaults is one that can be set: it is not empty and holds no `=`.
pub proof fn law_names_can_be_set(lines: Seq<Seq<char>>)
    ensures
        forall|i: int|
            0 <= i < entries_of(lines).len() ==> (#[trigger] entries_of(lines)[i]).0.len() > 0
                && !entries_of(lines)[i].0.contains('='),
    decreases lines.len(),
{
    if lines.len() > 0 {
        law_names_can_be_set(lines.drop_last());
        if let Some((name, value)) = entry_of(lines.last()) {
            lemma_name_holds_no_equals(lines.last(), name);
        }
        let earlier = entries_of(lines.drop_last());
        assert forall|i: int| 0 <= i < entries_of(lines).len() implies (#[trigger] entries_of(
            lines,
        )[i]).0.len() > 0 && !entries_of(lines)[i].0.contains('=') by {
            if i < earlier.len() {
                assert(entries_of(lines)[i] == earlier[i]);
            }
        }
    }
}

proof fn lemma_trim_part(s: Seq<char>)
    ensures
        forall|c: char| text::trimmed(s).contains(c) ==> s.contains(c),
{
    lemma_trim_start_part(s);
    lemma_trim_end_part(text::trim_start(s));
}

proof fn lemma_trim_start_part(s: Seq<char>)
    ensures
        forall|c: char| text::trim_start(s).contains(c) ==> s.contains(c),
    decreases s.len(),
{
    if s.len() > 0 && text::is_space(s[0]) {
        lemma_trim_start_part(s.drop_first());
        assert forall|c: char| s.drop_first().contains(c) implies s.contains(c) by {
            let i = choose|i: int| 0 <= i < s.drop_first().len() && s.drop_first()[i] == c;
            assert(s[i + 1] == c);
        }
    }
}

proof fn lemma_trim_end_part(s: Seq<char>)
    ensures
        forall|c: char| text::trim_end(s).contains(c) ==> s.contains(c),
    decreases s.len(),
{
    if s.len() > 0 && text::is_space(s.last()) {
        lemma_trim_end_part(s.drop_last());
        assert forall|c: char| s.drop_last().contains(c) implies s.contains(c) by {
            let i = choose|i: int| 0 <= i < s.drop_last().len() && s.drop_last()[i] == c;
            assert(s[i] == c);
        }
    }
}

proof fn lemma_name_holds_no_equals(line: Seq<char>, name: Seq<char>)
    requires
        entry_of(line) matches Some((given, _)) && given == name,
    ensures
        name.len() > 0,
        !name.contains('='),
{
    let line = text::trimmed(line);
    text::lemma_mentioned_first(line, "="@);
    let at = text::first_position(line, "="@);
    reveal_strlit("=");
    let part = line.take(at);
    assert(!part.contains('=')) by {
        if part.contains('=') {
            let i = choose|i: int| 0 <= i < part.len() && part[i] == '=';
            assert(line.subrange(i, i + 1) =~= "="@);
            assert(text::occurs_at(line, "="@, i));
        }
    }
    lemma_trim_part(part);
    let whole = text::trimmed(part);
    assert(!whole.contains('='));
    assert(!name.contains('=')) by {
        if name.contains('=') {
            let i = choose|i: int| 0 <= i < name.len() && name[i] == '=';
            if text::occurs_at(whole, "export "@, 0) {
                assert(whole[i + "export "@.len()] == '=');
            }
        }
    }
}

/// An `export ` in front of a name is dropped, once; any other name is kept.
pub proof fn law_export_is_dropped(name: Seq<char>)
    ensures
        unexported("export "@ + name) == name,
        (forall|rest: Seq<char>| name != #[trigger] ("export "@ + rest)) ==> unexported(name)
            == name,
{
    let exported = "export "@ + name;
    assert(exported.subrange(0, "export "@.len() as int) =~= "export "@);
    assert(exported.skip("export "@.len() as int) =~= name);
    if text::occurs_at(name, "export "@, 0) {
        let rest = name.skip("export "@.len() as int);
        assert(name.subrange(0, "export "@.len() as int) == "export "@);
        assert(name =~= "export "@ + rest);
    }
}

/// A value between two double quotes, or two single ones, loses these two; any other value is kept.
pub proof fn law_quotes_are_dropped_in_pairs(value: Seq<char>)
    ensures
        unquoted(seq!['"'] + value + seq!['"']) == value,
        unquoted(seq!['\''] + value + seq!['\'']) == value,
        value.len() < 2 ==> unquoted(value) == value,
        value.len() > 0 && value[0] != '"' && value[0] != '\'' ==> unquoted(value) == value,
        value.len() > 0 && value[0] != value.last() ==> unquoted(value) == value,
{
    assert(unquoted(seq!['"'] + value + seq!['"']) =~= value);
    assert(unquoted(seq!['\''] + value + seq!['\'']) =~= value);
}

/// Blank lines, comments and lines without `=` give no entry.
pub proof fn law_lines_without_an_entry(line: Seq<char>)
    ensures
        text::trimmed(line).len() == 0 ==> entry_of(line) is None,
        text::trimmed(line).len() > 0 && text::trimmed(line)[0] == '#' ==> entry_of(line) is None,
        !line.contains('=') ==> entry_of(line) is None,
{
    if !line.contains('=') && text::mentions(text::trimmed(line), "="@) {
        lemma_trim_part(line);
        let t = text::trimmed(line);
        let at = choose|at: int| #[trigger] text::occurs_at(t, "="@, at);
        reveal_strlit("=");
        assert(t.subrange(at, at + 1)[0] == t[at]);
        assert(t.contains('='));
    }
}

/// A line is split at its first `=`. What stands before it, without the white space around it and
/// without `export `, is the name; if there is none, or if it begins a comment, the line gives no
/// entry. What stands behind it, without the white space around it and without its quotes, is the
/// value.
pub proof fn law_a_line_is_split_at_its_first_equals(left: Seq<char>, right: Seq<char>)
    requires
        !left.contains('='),
    ensures
        ({
            let line = left + seq!['='] + right;
            let name = text::trimmed(left);
            &&& name.len() == 0 ==> entry_of(line) is None
            &&& name.len() > 0 && name[0] == '#' ==> entry_of(line) is None
            &&& name.len() > 0 && name[0] != '#' ==> entry_of(line) == Some(
                (unexported(name), unquoted(text::trimmed(right))),
            )
        }),
{
    let line = left + seq!['='] + right;
    let name = text::trimmed(left);
    let value = text::trimmed(right);
    text::law_trimming_leaves_the_middle(left);
    text::law_trimming_leaves_the_middle(right);
    let (left_front, left_back) = choose|front: Seq<char>, back: Seq<char>|
        text::blank(front) && text::blank(back) && left == #[trigger] (front + name + back);
    let (right_front, right_back) = choose|front: Seq<char>, back: Seq<char>|
        text::blank(front) && text::blank(back) && right == #[trigger] (front + value + back);
    let none = Seq::<char>::empty();
    assert(text::blank(none));
    let (front, head) = if name.len() > 0 {
        (left_front, name + left_back)
    } else {
        (left, none)
    };
    let (rest, back) = if value.len() > 0 {
        (right_front + value, right_back)
    } else {
        (none, right)
    };
    let middle = head + seq!['='] + rest;
    assert(text::blank(front)) by {
        if name.len() == 0 {
            lemma_blank_parts(left_front, left_back);
            assert(left =~= left_front + left_back);
        }
    }
    assert(text::blank(back)) by {
        if value.len() == 0 {
            lemma_blank_parts(right_front, right_back);
            assert(right =~= right_front + right_back);
        }
    }
    assert(left =~= front + head);
    assert(right =~= rest + back);
    assert(line =~= front + middle + back);
    assert(text::bare(middle)) by {
        if name.len() > 0 {
            assert(middle[0] == name[0]);
        } else {
            assert(middle[0] == '=');
        }
        if value.len() > 0 {
            assert(middle.last() == value.last());
        } else {
            assert(middle.last() == '=');
        }
    }
    text::law_trimming_takes_white_space_only(front, middle, back);
    reveal_strlit("=");
    let at = head.len() as int;
    assert(middle.subrange(at, at + 1) =~= "="@);
    assert forall|earlier: int| earlier < at implies !#[trigger] text::occurs_at(
        middle,
        "="@,
        earlier,
    ) by {
        if text::occurs_at(middle, "="@, earlier) {
            assert(middle.subrange(earlier, earlier + 1)[0] == head[earlier]);
            assert(left[front.len() + earlier] == head[earlier]);
            assert(left.contains('='));
        }
    }
    text::lemma_first_position(middle, "="@, at);
    assert(text::occurs_at(middle, "="@, at));
    assert(middle.take(at) =~= head);
    assert(middle.skip(at + 1) =~= rest);
    assert(text::trimmed(head) == name) by {
        if name.len() > 0 {
            text::law_trimming_takes_white_space_only(none, name, left_back);
            assert(none + name + left_back =~= head);
        } else {
            assert(name =~= none);
        }
    }
    assert(text::trimmed(rest) == value) by {
        if value.len() > 0 {
            text::law_trimming_takes_white_space_only(right_front, value, none);
            assert(right_front + value + none =~= rest);
        } else {
            assert(value =~= none);
        }
    }
    if name.len() > 0 {
        assert(middle[0] == name[0]);
        assert(unexported(name).len() > 0) by {
            reveal_strlit("export ");
            if text::occurs_at(name, "export "@, 0) && name.len() == 7 {
                assert(name.subrange(0, 7)[6] == name.last());
            }
        }
    }
}

proof fn lemma_blank_parts(one: Seq<char>, other: Seq<char>)
    requires
        text::blank(one),
        text::blank(other),
    ensures
        text::blank(one + other),
{
    let s = one + other;
    assert forall|i: int| 0 <= i < s.len() implies text::is_space(#[trigger] s[i]) by {
        if i >= one.len() {
            assert(s[i] == other[i - one.len()]);
        }
    }
}

/// Every line gives its own entry or none, and the entries stand in the order of their lines.
pub proof fn law_entries_follow_their_lines(one: Seq<Seq<char>>, other: Seq<Seq<char>>)
    ensures
        entries_of(one + other) == entries_of(one) + entries_of(other),
        one.len() == 1 ==> {
            &&& entry_of(one[0]) matches Some(entry) ==> entries_of(one) == seq![entry]
            &&& entry_of(one[0]) is None ==> entries_of(one).len() == 0
        },
    decreases other.len(),
{
    if other.len() == 0 {
        assert(one + other =~= one);
        assert(entries_of(one) + entries_of(other) =~= entries_of(one));
    } else {
        law_entries_follow_their_lines(one, other.drop_last());
        assert((one + other).drop_last() =~= one + other.drop_last());
        assert(entries_of(one + other) =~= entries_of(one) + entries_of(other));
    }
    if one.len() == 1 {
        assert(entries_of(one.drop_last()) =~= Seq::empty());
        if let Some(entry) = entry_of(one[0]) {
            assert(entries_of(one) =~= seq![entry]);
        }
    }
}

} // verus!
