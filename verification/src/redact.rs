//! Removal of secrets from what an agent prints.

use crate::json;
use crate::json::{Json, JsonTree};
use crate::text;
use vstd::prelude::*;

verus! {

/// What stands in the place of a secret.
pub open spec fn mask() -> Seq<char> {
    "[redacted]"@
}

/// Whether the value under a key is a secret.
pub open spec fn sensitive_key(key: Seq<char>) -> bool {
    ||| text::mentions(text::lowered(key), "token"@)
    ||| text::mentions(text::lowered(key), "api_key"@)
    ||| text::mentions(text::lowered(key), "access_key"@)
}

/// The value with the mask in the place of every value under a sensitive key.
pub open spec fn redacted(tree: JsonTree) -> JsonTree
    decreases tree,
{
    match tree {
        JsonTree::Array(items) => JsonTree::Array(
            Seq::new(
                items.len(),
                |i: int|
                    if 0 <= i < items.len() {
                        redacted(items[i])
                    } else {
                        JsonTree::Null
                    },
            ),
        ),
        JsonTree::Object(fields) => JsonTree::Object(
            Map::new(
                |key: Seq<char>| fields.dom().contains(key),
                |key: Seq<char>|
                    if sensitive_key(key) {
                        JsonTree::Text(mask())
                    } else if fields.dom().contains(key) {
                        redacted(fields[key])
                    } else {
                        JsonTree::Null
                    },
            ),
        ),
        _ => tree,
    }
}

/// Whether the value under a key is a secret.
pub fn is_sensitive_key(key: &str) -> (r: bool)
    ensures
        r == sensitive_key(key@),
{
    let lower = text::lower_chars(key);
    text::find(&lower, &text::chars_of("token")).is_some()
        || text::find(&lower, &text::chars_of("api_key")).is_some()
        || text::find(&lower, &text::chars_of("access_key")).is_some()
}

/// Puts the mask in the place of every value under a sensitive key.
pub fn redact_json(value: &mut Json)
    ensures
        final(value).tree() == redacted(old(value).tree()),
        old(value).well_formed() ==> final(value).well_formed(),
    decreases *old(value),
{
    let ghost before = *value;
    match value {
        Json::Object(entries) => {
            let ghost all = entries@;
            let mut i: usize = 0;
            while i < entries.len()
                invariant
                    i <= entries@.len() == all.len(),
                    before->Object_0@ == all,
                    before is Object,
                    *old(value) == before,
                    forall|j: int| i <= j < all.len() ==> entries@[j] == all[j],
                    forall|j: int| 0 <= j < i ==> (#[trigger] entries@[j]).0 == all[j].0,
                    forall|j: int|
                        0 <= j < i ==> (#[trigger] entries@[j]).1.tree() == (if sensitive_key(
                            all[j].0@,
                        ) {
                            JsonTree::Text(mask())
                        } else {
                            redacted(all[j].1.tree())
                        }),
                    forall|j: int|
                        0 <= j < i ==> all[j].1.well_formed() ==> (
                        #[trigger] entries@[j]).1.well_formed(),
                decreases entries@.len() - i,
            {
                if is_sensitive_key(entries[i].0.as_str()) {
                    entries[i].1 = Json::Text("[redacted]".to_string());
                } else {
                    assert(decreases_to!(before => before->Object_0@[i as int].1));
                    redact_json(&mut entries[i].1);
                }
                i = i + 1;
            }
            proof {
                lemma_redacted_entries(all, entries@);
            }
        },
        Json::Array(items) => {
            let ghost all = items@;
            let mut i: usize = 0;
            while i < items.len()
                invariant
                    i <= items@.len() == all.len(),
                    before->Array_0@ == all,
                    before is Array,
                    *old(value) == before,
                    forall|j: int| i <= j < all.len() ==> items@[j] == all[j],
                    forall|j: int|
                        0 <= j < i ==> (#[trigger] items@[j]).tree() == redacted(all[j].tree()),
                    forall|j: int|
                        0 <= j < i ==> all[j].well_formed() ==> (
                        #[trigger] items@[j]).well_formed(),
                decreases items@.len() - i,
            {
                assert(decreases_to!(before => before->Array_0@[i as int]));
                redact_json(&mut items[i]);
                i = i + 1;
            }
            assert(json::item_trees(items@) == redacted(before.tree())->Array_0);
        },
        _ => {},
    }
}

/// Redacting the entries of an object one by one redacts the object.
proof fn lemma_redacted_entries(all: Seq<(String, Json)>, after: Seq<(String, Json)>)
    requires
        all.len() == after.len(),
        forall|j: int| 0 <= j < all.len() ==> (#[trigger] after[j]).0 == all[j].0,
        forall|j: int|
            0 <= j < all.len() ==> (#[trigger] after[j]).1.tree() == (if sensitive_key(all[j].0@) {
                JsonTree::Text(mask())
            } else {
                redacted(all[j].1.tree())
            }),
    ensures
        JsonTree::Object(json::object_of(json::entry_trees(after))) == redacted(
            JsonTree::Object(json::object_of(json::entry_trees(all))),
        ),
    decreases all.len(),
{
    let whole = redacted(JsonTree::Object(json::object_of(json::entry_trees(all))));
    if all.len() == 0 {
        assert(json::object_of(json::entry_trees(after)) =~= whole->Object_0);
    } else {
        lemma_redacted_entries(all.drop_last(), after.drop_last());
        assert(json::entry_trees(all).drop_last() =~= json::entry_trees(all.drop_last()));
        assert(json::entry_trees(after).drop_last() =~= json::entry_trees(after.drop_last()));
        assert(json::object_of(json::entry_trees(after)) =~= whole->Object_0);
    }
}

/// The end of the run of characters without white space that begins at `from`.
pub open spec fn token_end(s: Seq<char>, from: int) -> int
    decreases s.len() - from,
{
    if 0 <= from < s.len() && !text::is_space(s[from]) {
        token_end(s, from + 1)
    } else {
        from
    }
}

/// The text with the mask in the place of the token behind the first `prefix`.
pub open spec fn token_redacted(s: Seq<char>, prefix: Seq<char>) -> Seq<char> {
    if text::mentions(s, prefix) {
        let from = text::first_position(s, prefix) + prefix.len();
        s.take(from) + mask() + s.skip(token_end(s, from))
    } else {
        s
    }
}

/// The text without the bearer tokens that it names first in either spelling.
pub open spec fn bearer_redacted(s: Seq<char>) -> Seq<char> {
    token_redacted(token_redacted(s, "Bearer "@), "bearer "@)
}

/// The text without its secrets: by the keys where it is JSON, by the bearer tokens where it is
/// not.
pub open spec fn secrets_redacted(s: Seq<char>) -> Seq<char> {
    match json::parsed_json(s) {
        Some(tree) => json::pretty_json(redacted(tree)),
        None => bearer_redacted(s),
    }
}

/// Puts the mask in the place of the token behind the first `prefix`.
fn redact_token(chars: Vec<char>, prefix: &str) -> (r: Vec<char>)
    ensures
        r@ == token_redacted(chars@, prefix@),
{
    let pattern = text::chars_of(prefix);
    match text::find(&chars, &pattern) {
        Some(at) => {
            let len: usize = chars.len();
            let from: usize = at + pattern.len();
            let mut end: usize = from;
            while end < len && !text::is_whitespace(chars[end])
                invariant
                    from <= end <= len == chars@.len(),
                    token_end(chars@, from as int) == token_end(chars@, end as int),
                decreases len - end,
            {
                end = end + 1;
            }
            let mut r = text::slice_of(&chars, 0, from);
            let mut filler = text::chars_of("[redacted]");
            let mut rest = text::slice_of(&chars, end, len);
            r.append(&mut filler);
            r.append(&mut rest);
            r
        },
        None => chars,
    }
}

/// Removes the bearer tokens that the text names first in either spelling.
pub fn redact_bearer(text: &str) -> (r: String)
    ensures
        r@ == bearer_redacted(text@),
{
    let chars = redact_token(text::chars_of(text), "Bearer ");
    let chars = redact_token(chars, "bearer ");
    text::text_of(&chars)
}

/// Removes the secrets of a text. What comes of JSON that can be read back once it is printed is
/// JSON again: reading it gives the redacted value, and removing its secrets once more changes
/// nothing.
pub fn redact_secrets(text: &str) -> (r: String)
    ensures
        r@ == secrets_redacted(text@),
        json::parsed_json(text@) matches Some(tree) ==> tree.readable() ==> json::parsed_json(r@)
            == Some(redacted(tree)) && secrets_redacted(r@) == r@,
{
    match Json::parse(text) {
        Some(mut value) => {
            proof {
                lemma_redacted_readable(value.tree(), json::max_nesting());
                law_redacting_leaves_clean_values(value.tree());
            }
            redact_json(&mut value);
            value.pretty()
        },
        None => redact_bearer(text),
    }
}

/// Whether no object in the value shows anything but the mask under a sensitive key.
pub open spec fn shows_no_secret(tree: JsonTree) -> bool
    decreases tree,
{
    match tree {
        JsonTree::Array(items) => forall|i: int|
            0 <= i < items.len() ==> shows_no_secret(#[trigger] items[i]),
        JsonTree::Object(fields) => forall|key: Seq<char>| #[trigger]
            fields.dom().contains(key) ==> if sensitive_key(key) {
                fields[key] == JsonTree::Text(mask())
            } else {
                shows_no_secret(fields[key])
            },
        _ => true,
    }
}

/// In a redacted value no sensitive key, at any depth, shows anything but the mask.
pub proof fn law_redacted_shows_no_secret(tree: JsonTree)
    ensures
        shows_no_secret(redacted(tree)),
    decreases tree,
{
    match tree {
        JsonTree::Array(items) => {
            assert forall|i: int| 0 <= i < items.len() implies shows_no_secret(
                #[trigger] redacted(tree)->Array_0[i],
            ) by {
                law_redacted_shows_no_secret(items[i]);
            }
        },
        JsonTree::Object(fields) => {
            let after = redacted(tree)->Object_0;
            assert forall|key: Seq<char>| #[trigger] after.dom().contains(key) implies (
            if sensitive_key(key) {
                after[key] == JsonTree::Text(mask())
            } else {
                shows_no_secret(after[key])
            }) by {
                if !sensitive_key(key) {
                    law_redacted_shows_no_secret(fields[key]);
                }
            }
        },
        _ => {},
    }
}

/// A value that shows no secret is left as it is; redacting twice is redacting once.
pub proof fn law_redacting_leaves_clean_values(tree: JsonTree)
    ensures
        shows_no_secret(tree) ==> redacted(tree) == tree,
        redacted(redacted(tree)) == redacted(tree),
{
    if shows_no_secret(tree) {
        lemma_clean_unchanged(tree);
    }
    law_redacted_shows_no_secret(tree);
    lemma_clean_unchanged(redacted(tree));
}

proof fn lemma_clean_unchanged(tree: JsonTree)
    requires
        shows_no_secret(tree),
    ensures
        redacted(tree) == tree,
    decreases tree,
{
    match tree {
        JsonTree::Array(items) => {
            assert forall|i: int| 0 <= i < items.len() implies redacted(tree)->Array_0[i]
                == items[i] by {
                lemma_clean_unchanged(items[i]);
            }
            assert(redacted(tree)->Array_0 =~= items);
        },
        JsonTree::Object(fields) => {
            assert forall|key: Seq<char>| fields.dom().contains(key) implies redacted(
                tree,
            )->Object_0[key] == fields[key] by {
                if !sensitive_key(key) {
                    lemma_clean_unchanged(fields[key]);
                }
            }
            assert(redacted(tree)->Object_0 =~= fields);
        },
        _ => {},
    }
}

proof fn lemma_redacted_readable(tree: JsonTree, limit: nat)
    ensures
        tree.float_free() ==> redacted(tree).float_free(),
        tree.plain_keys() ==> redacted(tree).plain_keys(),
        tree.nested_within(limit) ==> redacted(tree).nested_within(limit),
    decreases tree,
{
    let after = redacted(tree);
    let inner = (limit - 1) as nat;
    match tree {
        JsonTree::Array(items) => {
            assert forall|i: int| 0 <= i < items.len() implies {
                &&& items[i].float_free() ==> (#[trigger] after->Array_0[i]).float_free()
                &&& items[i].plain_keys() ==> after->Array_0[i].plain_keys()
                &&& items[i].nested_within(inner) ==> after->Array_0[i].nested_within(inner)
            } by {
                lemma_redacted_readable(items[i], inner);
            }
        },
        JsonTree::Object(fields) => {
            assert forall|key: Seq<char>| #[trigger] after->Object_0.dom().contains(key) implies {
                &&& fields[key].float_free() ==> after->Object_0[key].float_free()
                &&& fields[key].plain_keys() ==> after->Object_0[key].plain_keys()
                &&& fields[key].nested_within(inner) ==> after->Object_0[key].nested_within(inner)
            } by {
                assert(fields.dom().contains(key));
                lemma_redacted_readable(fields[key], inner);
            }
        },
        _ => {},
    }
}

/// Whether two values differ at most in what stands under sensitive keys, at any depth.
pub open spec fn differ_in_secrets(one: JsonTree, other: JsonTree) -> bool
    decreases one,
{
    match (one, other) {
        (JsonTree::Array(items), JsonTree::Array(others)) => {
            &&& items.len() == others.len()
            &&& forall|i: int|
                0 <= i < items.len() ==> differ_in_secrets(#[trigger] items[i], others[i])
        },
        (JsonTree::Object(fields), JsonTree::Object(others)) => {
            &&& fields.dom() == others.dom()
            &&& forall|key: Seq<char>| #[trigger]
                fields.dom().contains(key) && !sensitive_key(key) ==> differ_in_secrets(
                    fields[key],
                    others[key],
                )
        },
        _ => one == other,
    }
}

/// What comes of removing the secrets does not depend on them: two JSON texts whose values differ
/// only in secrets come out as one text.
pub proof fn law_secrets_leave_no_trace(
    one: Seq<char>,
    other: Seq<char>,
    tree: JsonTree,
    other_tree: JsonTree,
)
    requires
        json::parsed_json(one) == Some(tree),
        json::parsed_json(other) == Some(other_tree),
        differ_in_secrets(tree, other_tree),
    ensures
        redacted(tree) == redacted(other_tree),
        secrets_redacted(one) == secrets_redacted(other),
{
    lemma_secrets_leave_no_trace(tree, other_tree);
}

proof fn lemma_secrets_leave_no_trace(one: JsonTree, other: JsonTree)
    requires
        differ_in_secrets(one, other),
    ensures
        redacted(one) == redacted(other),
    decreases one,
{
    match (one, other) {
        (JsonTree::Array(items), JsonTree::Array(others)) => {
            assert forall|i: int| 0 <= i < items.len() implies redacted(one)->Array_0[i]
                == redacted(other)->Array_0[i] by {
                lemma_secrets_leave_no_trace(items[i], others[i]);
            }
            assert(redacted(one)->Array_0 =~= redacted(other)->Array_0);
        },
        (JsonTree::Object(fields), JsonTree::Object(others)) => {
            assert forall|key: Seq<char>| fields.dom().contains(key) implies redacted(
                one,
            )->Object_0[key] == redacted(other)->Object_0[key] by {
                if !sensitive_key(key) {
                    lemma_secrets_leave_no_trace(fields[key], others[key]);
                }
            }
            assert(redacted(one)->Object_0 =~= redacted(other)->Object_0);
        },
        _ => {},
    }
}

/// Redacting changes no key of an object, and under a key that is not sensitive it only redacts
/// further down.
pub proof fn law_redacting_keeps_the_rest(tree: JsonTree, key: Seq<char>)
    ensures
        redacted(tree).field(key) == (match tree.field(key) {
            Some(value) => Some(
                if sensitive_key(key) {
                    JsonTree::Text(mask())
                } else {
                    redacted(value)
                },
            ),
            None => None,
        }),
{
}

proof fn lemma_token_end(s: Seq<char>, from: int, end: int)
    requires
        0 <= from <= end <= s.len(),
        forall|i: int| from <= i < end ==> !text::is_space(#[trigger] s[i]),
        end == s.len() || text::is_space(s[end]),
    ensures
        token_end(s, from) == end,
    decreases end - from,
{
    if from < end {
        lemma_token_end(s, from + 1, end);
    }
}

proof fn lemma_token_end_stops(s: Seq<char>, from: int)
    requires
        0 <= from <= s.len(),
    ensures
        from <= token_end(s, from) <= s.len(),
        token_end(s, from) == s.len() || text::is_space(s[token_end(s, from)]),
        forall|i: int| from <= i < token_end(s, from) ==> !text::is_space(#[trigger] s[i]),
    decreases s.len() - from,
{
    if from < s.len() && !text::is_space(s[from]) {
        lemma_token_end_stops(s, from + 1);
    }
}

/// Where a text names a prefix, the redacted text first names it in the same place, and the token
/// behind it is the mask. So redacting a token twice is redacting it once.
pub proof fn law_token_is_masked(s: Seq<char>, prefix: Seq<char>)
    ensures
        text::mentions(s, prefix) ==> ({
            let r = token_redacted(s, prefix);
            let at = text::first_position(s, prefix);
            let from = at + prefix.len();
            &&& text::first_occurs_at(r, prefix, at)
            &&& r.subrange(from, token_end(r, from)) == mask()
        }),
        token_redacted(token_redacted(s, prefix), prefix) == token_redacted(s, prefix),
{
    if text::mentions(s, prefix) {
        text::lemma_mentioned_first(s, prefix);
        let r = token_redacted(s, prefix);
        let at = text::first_position(s, prefix);
        let from = at + prefix.len();
        let end = token_end(s, from);
        lemma_token_end_stops(s, from);
        assert(r.subrange(at, from) =~= s.subrange(at, from));
        assert forall|earlier: int| earlier < at implies !#[trigger] text::occurs_at(
            r,
            prefix,
            earlier,
        ) by {
            if text::occurs_at(r, prefix, earlier) {
                assert(r.subrange(earlier, earlier + prefix.len()) =~= s.subrange(
                    earlier,
                    earlier + prefix.len(),
                ));
                assert(text::occurs_at(s, prefix, earlier));
            }
        }
        text::lemma_first_position(r, prefix, at);
        reveal_strlit("[redacted]");
        let masked = from + mask().len();
        assert forall|i: int| from <= i < masked implies !text::is_space(#[trigger] r[i]) by {
            assert(r[i] == mask()[i - from]);
        }
        assert(masked < r.len() ==> r[masked] == s[end]);
        lemma_token_end(r, from, masked);
        assert(r.subrange(from, masked) =~= mask());
        assert(token_redacted(r, prefix) =~= r);
    }
}

/// A text that names no bearer token is left as it is.
pub proof fn law_text_without_bearer_is_kept(s: Seq<char>)
    requires
        !text::mentions(s, "Bearer "@),
        !text::mentions(s, "bearer "@),
    ensures
        bearer_redacted(s) == s,
{
}

/// A key is sensitive exactly if it holds one of three words, in whatever case its letters are.
pub proof fn law_sensitive_keys(key: Seq<char>)
    ensures
        sensitive_key(key) <==> exists|before: Seq<char>, word: Seq<char>, after: Seq<char>|
            key == #[trigger] (before + word + after) && (text::lowered(word) == "token"@
                || text::lowered(word) == "api_key"@ || text::lowered(word) == "access_key"@),
{
    let lower = text::lowered(key);
    assert forall|word: Seq<char>| #[trigger] text::mentions(lower, word) implies exists|
        before: Seq<char>,
        part: Seq<char>,
        after: Seq<char>,
    |
        key == #[trigger] (before + part + after) && text::lowered(part) == word by {
        let at = choose|at: int| #[trigger] text::occurs_at(lower, word, at);
        let before = key.take(at);
        let part = key.subrange(at, at + word.len());
        let after = key.skip(at + word.len());
        assert(text::lowered(part) =~= lower.subrange(at, at + word.len()));
        assert(key =~= before + part + after);
    }
    assert forall|before: Seq<char>, word: Seq<char>, after: Seq<char>|
        key == #[trigger] (before + word + after) implies text::mentions(
        lower,
        text::lowered(word),
    ) by {
        let at = before.len() as int;
        assert(lower.subrange(at, at + word.len()) =~= text::lowered(word));
        assert(text::occurs_at(lower, text::lowered(word), at));
    }
}

/// Redacting keeps the shape of a value: an array stays an array of as many items, each redacted by
/// itself; an object keeps its keys, and each value under them is redacted by itself or, under a
/// sensitive key, is the text `[redacted]`; any other value stays as it is.
pub proof fn law_redacting_keeps_the_shape(tree: JsonTree)
    ensures
        tree is Array ==> {
            let after = redacted(tree);
            &&& after is Array
            &&& after->Array_0.len() == tree->Array_0.len()
            &&& forall|i: int|
                0 <= i < tree->Array_0.len() ==> #[trigger] after->Array_0[i] == redacted(
                    tree->Array_0[i],
                )
        },
        tree is Object ==> {
            let after = redacted(tree);
            &&& after is Object
            &&& after->Object_0.dom() == tree->Object_0.dom()
            &&& forall|key: Seq<char>| #[trigger]
                tree->Object_0.dom().contains(key) ==> after->Object_0[key] == (if sensitive_key(
                    key,
                ) {
                    JsonTree::Text("[redacted]"@)
                } else {
                    redacted(tree->Object_0[key])
                })
        },
        !(tree is Array) && !(tree is Object) ==> redacted(tree) == tree,
{
    if tree is Object {
        assert(redacted(tree)->Object_0.dom() =~= tree->Object_0.dom());
    }
}

/// A JSON text comes out as its redacted value, printed; any other text comes out by its bearer
/// tokens.
pub proof fn law_json_is_redacted_by_its_keys(s: Seq<char>)
    ensures
        json::parsed_json(s) matches Some(tree) ==> secrets_redacted(s) == json::pretty_json(
            redacted(tree),
        ),
        json::parsed_json(s) is None && !text::mentions(s, "Bearer "@) && !text::mentions(
            s,
            "bearer "@,
        ) ==> secrets_redacted(s) == s,
{
}

/// Whether no character of a text is white space.
pub open spec fn unbroken(s: Seq<char>) -> bool {
    forall|i: int| 0 <= i < s.len() ==> !text::is_space(#[trigger] s[i])
}

/// Whether a text ends here or goes on with white space.
pub open spec fn breaks(s: Seq<char>) -> bool {
    s.len() > 0 ==> text::is_space(s[0])
}

/// Whether `after` is `before` but for the token behind the first prefix, in whose place stands
/// `[redacted]`.
pub open spec fn token_hidden(before: Seq<char>, prefix: Seq<char>, after: Seq<char>) -> bool {
    if text::mentions(before, prefix) {
        exists|front: Seq<char>, token: Seq<char>, back: Seq<char>|
            {
                &&& before == #[trigger] (front + prefix + token + back)
                &&& text::first_occurs_at(before, prefix, front.len() as int)
                &&& unbroken(token)
                &&& breaks(back)
                &&& after == front + prefix + "[redacted]"@ + back
            }
    } else {
        after == before
    }
}

/// The token behind the first `Bearer ` is hidden, and then, of what comes of that, the token behind
/// the first `bearer `. That is all that is done to a text that is not JSON.
pub proof fn law_each_spelling_hides_a_token(s: Seq<char>)
    ensures
        exists|between: Seq<char>| #[trigger]
            token_hidden(s, "Bearer "@, between) && token_hidden(
                between,
                "bearer "@,
                bearer_redacted(s),
            ),
        json::parsed_json(s) is None ==> secrets_redacted(s) == bearer_redacted(s),
{
    let between = token_redacted(s, "Bearer "@);
    lemma_token_hidden(s, "Bearer "@);
    lemma_token_hidden(between, "bearer "@);
}

/// A text that is not JSON and names one spelling only: what stands around the token is kept, and
/// the token is replaced.
pub proof fn law_one_spelling_hides_its_token(
    front: Seq<char>,
    prefix: Seq<char>,
    token: Seq<char>,
    back: Seq<char>,
    other: Seq<char>,
)
    requires
        (prefix == "Bearer "@ && other == "bearer "@) || (prefix == "bearer "@ && other
            == "Bearer "@),
        json::parsed_json(front + prefix + token + back) is None,
        text::first_occurs_at(front + prefix + token + back, prefix, front.len() as int),
        !text::mentions(front + prefix + token + back, other),
        unbroken(token),
        breaks(back),
    ensures
        secrets_redacted(front + prefix + token + back) == front + prefix + "[redacted]"@ + back,
{
    let s = front + prefix + token + back;
    let from = (front + prefix).len() as int;
    let r = front + prefix + mask() + back;
    lemma_spellings();
    lemma_token_replaced(front, prefix, token, back);
    lemma_cut(front, prefix, token, back);
    assert forall|at: int| !#[trigger] text::occurs_at(r, other, at) by {
        if text::occurs_at(r, other, at) {
            lemma_occurrence_after_masking(s, from, from + token.len(), other, at);
        }
    }
}

/// A text that is not JSON and names both spellings, apart from each other: both tokens are
/// replaced, whichever comes first, and the rest is kept.
pub proof fn law_both_spellings_hide_their_tokens(
    front: Seq<char>,
    first: Seq<char>,
    token: Seq<char>,
    middle: Seq<char>,
    second: Seq<char>,
    other_token: Seq<char>,
    back: Seq<char>,
)
    requires
        (first == "Bearer "@ && second == "bearer "@) || (first == "bearer "@ && second
            == "Bearer "@),
        unbroken(token),
        unbroken(other_token),
        middle.len() > 0,
        breaks(middle),
        breaks(back),
        ({
            let s = front + first + token + middle + second + other_token + back;
            &&& json::parsed_json(s) is None
            &&& text::first_occurs_at(s, first, front.len() as int)
            &&& text::first_occurs_at(s, second, (front + first + token + middle).len() as int)
        }),
    ensures
        secrets_redacted(front + first + token + middle + second + other_token + back) == front
            + first + "[redacted]"@ + middle + second + "[redacted]"@ + back,
{
    let s = front + first + token + middle + second + other_token + back;
    let tail = middle + second + other_token + back;
    let head = front + first + token + middle;
    assert(s =~= front + first + token + tail);
    assert(s =~= head + second + other_token + back);
    lemma_spellings();
    if first == "Bearer "@ {
        lemma_token_replaced(front, first, token, tail);
        let r = front + first + mask() + tail;
        let masked = front + first + mask() + middle;
        assert(r =~= masked + second + other_token + back);
        let from = (front + first).len() as int;
        lemma_cut(front, first, token, tail);
        assert forall|at: int| at < masked.len() implies !#[trigger] text::occurs_at(
            r,
            second,
            at,
        ) by {
            if text::occurs_at(r, second, at) {
                lemma_occurrence_after_masking(s, from, from + token.len(), second, at);
            }
        }
        assert(r.subrange(masked.len() as int, (masked + second).len() as int) =~= second);
        lemma_token_replaced(masked, second, other_token, back);
        assert(masked + second + mask() + back =~= front + first + mask() + middle + second
            + mask() + back);
    } else {
        lemma_token_replaced(head, second, other_token, back);
        let r = head + second + mask() + back;
        let rest = middle + second + mask() + back;
        assert(r =~= front + first + token + rest);
        let from = (head + second).len() as int;
        lemma_cut(head, second, other_token, back);
        assert forall|at: int| at < front.len() implies !#[trigger] text::occurs_at(
            r,
            first,
            at,
        ) by {
            if text::occurs_at(r, first, at) {
                lemma_occurrence_after_masking(s, from, from + other_token.len(), first, at);
            }
        }
        assert(r.subrange(front.len() as int, (front + first).len() as int) =~= first);
        lemma_token_replaced(front, first, token, rest);
        assert(front + first + mask() + rest =~= front + first + mask() + middle + second + mask()
            + back);
    }
}

/// Whether a prefix stands at a position, and behind it the text `[redacted]` as a token.
pub open spec fn hidden_at(s: Seq<char>, prefix: Seq<char>, at: int) -> bool {
    &&& 0 <= at
    &&& at + prefix.len() + 10 <= s.len()
    &&& s.subrange(at, at + prefix.len() + 10) == prefix + "[redacted]"@
    &&& breaks(s.skip(at + prefix.len() + 10))
}

/// In a text that is not JSON, the spelling that is named first, be it the one or the other, still
/// stands where it stood, and the token behind it is hidden. What comes out never shows a token
/// behind the first `bearer `.
pub proof fn law_no_spelling_shows_its_token(s: Seq<char>)
    requires
        json::parsed_json(s) is None,
    ensures
        text::mentions(s, "Bearer "@) && (text::mentions(s, "bearer "@) ==> text::first_position(
            s,
            "Bearer "@,
        ) < text::first_position(s, "bearer "@)) ==> hidden_at(
            secrets_redacted(s),
            "Bearer "@,
            text::first_position(s, "Bearer "@),
        ),
        text::mentions(s, "bearer "@) && (text::mentions(s, "Bearer "@) ==> text::first_position(
            s,
            "bearer "@,
        ) < text::first_position(s, "Bearer "@)) ==> hidden_at(
            secrets_redacted(s),
            "bearer "@,
            text::first_position(s, "bearer "@),
        ),
        text::mentions(secrets_redacted(s), "bearer "@) ==> hidden_at(
            secrets_redacted(s),
            "bearer "@,
            text::first_position(secrets_redacted(s), "bearer "@),
        ),
{
    let upper = "Bearer "@;
    let lower = "bearer "@;
    lemma_spellings();
    let between = token_redacted(s, upper);
    let r = token_redacted(between, lower);
    lemma_hidden_where_named(s, upper);
    lemma_hidden_where_named(between, lower);
    law_token_is_masked(s, upper);
    law_token_is_masked(between, lower);
    if text::mentions(s, upper) {
        text::lemma_mentioned_first(s, upper);
        let at = text::first_position(s, upper);
        let from = at + upper.len();
        let end = token_end(s, from);
        lemma_token_end_stops(s, from);
        if text::mentions(s, lower) {
            text::lemma_mentioned_first(s, lower);
            let low = text::first_position(s, lower);
            if low < at {
                assert(low + lower.len() <= at) by {
                    if at < low + lower.len() {
                        assert(s.subrange(at, from)[0] == s[at]);
                        assert(s.subrange(low, low + lower.len())[at - low] == s[at]);
                    }
                }
                lemma_occurrence_after_masking(s, from, end, lower, low);
                assert forall|earlier: int| earlier < low implies !#[trigger] text::occurs_at(
                    between,
                    lower,
                    earlier,
                ) by {
                    lemma_occurrence_after_masking(s, from, end, lower, earlier);
                }
                text::lemma_first_position(between, lower, low);
            }
        }
        if text::mentions(s, lower) ==> at < text::first_position(s, lower) {
            if text::mentions(between, lower) {
                text::lemma_mentioned_first(between, lower);
                let low = text::first_position(between, lower);
                lemma_occurrence_after_masking(s, from, end, lower, low);
                assert(low >= from + 10) by {
                    if low < from + 10 {
                        assert(text::occurs_at(s, lower, low));
                        assert(low == at);
                        assert(s.subrange(at, from)[0] == s[at]);
                        assert(s.subrange(low, low + lower.len())[0] == s[at]);
                    }
                }
                assert(r.subrange(at, from + 10) =~= between.subrange(at, from + 10));
                assert(breaks(r.skip(from + 10))) by {
                    assert(r.skip(from + 10)[0] == r[from + 10]);
                    assert(r[from + 10] == between[from + 10]);
                    assert(between.skip(from + 10)[0] == between[from + 10]);
                }
            }
        }
    }
    if text::mentions(s, lower) && !text::mentions(s, upper) {
        assert(between == s);
    }
    if text::mentions(r, lower) {
        if text::mentions(between, lower) {
            text::lemma_mentioned_first(between, lower);
            text::lemma_first_position(r, lower, text::first_position(between, lower));
        } else {
            assert(r == between);
        }
    }
}

/// What is known of the two spellings and the mask: they end with a space, hold no bracket, and the
/// mask is unbroken.
proof fn lemma_spellings()
    ensures
        ends_plainly("Bearer "@),
        ends_plainly("bearer "@),
        "Bearer "@.len() == 7,
        "bearer "@.len() == 7,
        "Bearer "@[0] == 'B',
        forall|i: int| 0 <= i < 7 ==> "bearer "@[i] != 'B',
        mask().len() == 10,
        mask()[9] == ']',
        unbroken(mask()),
{
    reveal_strlit("Bearer ");
    reveal_strlit("bearer ");
    reveal_strlit("[redacted]");
}

spec fn ends_plainly(pattern: Seq<char>) -> bool {
    &&& pattern.len() > 0
    &&& text::is_space(pattern.last())
    &&& forall|i: int| 0 <= i < pattern.len() ==> #[trigger] pattern[i] != ']'
}

proof fn lemma_cut(front: Seq<char>, prefix: Seq<char>, token: Seq<char>, back: Seq<char>)
    ensures
        ({
            let s = front + prefix + token + back;
            let from = (front + prefix).len() as int;
            front + prefix + mask() + back == s.take(from) + mask() + s.skip(from + token.len())
        }),
{
    let s = front + prefix + token + back;
    let from = (front + prefix).len() as int;
    assert(s.take(from) =~= front + prefix);
    assert(s.skip(from + token.len()) =~= back);
}

proof fn lemma_occurrence_after_masking(
    s: Seq<char>,
    from: int,
    end: int,
    pattern: Seq<char>,
    at: int,
)
    requires
        0 <= from <= end <= s.len(),
        ends_plainly(pattern),
    ensures
        text::occurs_at(s.take(from) + mask() + s.skip(end), pattern, at) <==> {
            ||| at + pattern.len() <= from && text::occurs_at(s, pattern, at)
            ||| at >= from + 10 && text::occurs_at(s, pattern, at - from - 10 + end)
        },
{
    lemma_spellings();
    let r = s.take(from) + mask() + s.skip(end);
    let part = r.subrange(at, at + pattern.len());
    if text::occurs_at(r, pattern, at) {
        let last = at + pattern.len() - 1;
        assert(part[pattern.len() - 1] == r[last]);
        if from <= last < from + 10 {
            assert(r[last] == mask()[last - from]);
        }
        if last >= from + 10 && at < from + 10 {
            assert(r[from + 9] == mask()[9]);
            if at <= from + 9 {
                assert(part[from + 9 - at] == pattern[from + 9 - at]);
            }
        }
    }
    if 0 <= at && at + pattern.len() <= from {
        assert(part =~= s.subrange(at, at + pattern.len()));
    }
    if at >= from + 10 {
        let there = at - from - 10 + end;
        if at + pattern.len() <= r.len() {
            assert(part =~= s.subrange(there, there + pattern.len()));
        }
    }
}

proof fn lemma_token_replaced(
    front: Seq<char>,
    prefix: Seq<char>,
    token: Seq<char>,
    back: Seq<char>,
)
    requires
        text::first_occurs_at(front + prefix + token + back, prefix, front.len() as int),
        unbroken(token),
        breaks(back),
    ensures
        token_redacted(front + prefix + token + back, prefix) == front + prefix + mask() + back,
{
    let s = front + prefix + token + back;
    let at = front.len() as int;
    let from = (front + prefix).len() as int;
    let end = from + token.len();
    text::lemma_first_position(s, prefix, at);
    assert(text::occurs_at(s, prefix, at));
    assert forall|i: int| from <= i < end implies !text::is_space(#[trigger] s[i]) by {
        assert(s[i] == token[i - from]);
    }
    if end < s.len() {
        assert(s[end] == back[0]);
    }
    lemma_token_end(s, from, end);
    lemma_cut(front, prefix, token, back);
}

proof fn lemma_token_hidden(s: Seq<char>, prefix: Seq<char>)
    ensures
        token_hidden(s, prefix, token_redacted(s, prefix)),
{
    if text::mentions(s, prefix) {
        text::lemma_mentioned_first(s, prefix);
        let at = text::first_position(s, prefix);
        let from = at + prefix.len();
        let end = token_end(s, from);
        lemma_token_end_stops(s, from);
        let front = s.take(at);
        let token = s.subrange(from, end);
        let back = s.skip(end);
        let whole = front + prefix + token + back;
        assert forall|i: int| 0 <= i < s.len() implies s[i] == whole[i] by {
            if at <= i < from {
                assert(s.subrange(at, from)[i - at] == s[i]);
            }
        }
        assert(s =~= whole);
        assert(s.take(from) =~= front + prefix);
        assert(token_redacted(s, prefix) =~= front + prefix + "[redacted]"@ + back);
        assert forall|i: int| 0 <= i < token.len() implies !text::is_space(#[trigger] token[i]) by {
            assert(token[i] == s[from + i]);
        }
    }
}

proof fn lemma_hidden_where_named(s: Seq<char>, prefix: Seq<char>)
    ensures
        text::mentions(s, prefix) ==> hidden_at(
            token_redacted(s, prefix),
            prefix,
            text::first_position(s, prefix),
        ),
{
    lemma_spellings();
    if text::mentions(s, prefix) {
        text::lemma_mentioned_first(s, prefix);
        let at = text::first_position(s, prefix);
        let from = at + prefix.len();
        let end = token_end(s, from);
        lemma_token_end_stops(s, from);
        let r = token_redacted(s, prefix);
        assert(r.subrange(at, from + 10) =~= s.subrange(at, from) + mask());
        assert(r.skip(from + 10) =~= s.skip(end));
    }
}

} // verus!
