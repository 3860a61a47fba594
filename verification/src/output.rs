//! What an agent prints, line by line, as events.

use crate::json;
use crate::json::{Json, JsonTree};
use crate::text;
use vstd::prelude::*;

verus! {

/// The first of two values that is there.
pub open spec fn either<T>(first: Option<T>, second: Option<T>) -> Option<T> {
    match first {
        Some(value) => Some(value),
        None => second,
    }
}

/// The type of an event written as JSON: its text under `type`, and `event` if it has none.
pub open spec fn type_of(tree: JsonTree) -> Seq<char> {
    match tree.field("type"@) {
        Some(JsonTree::Text(name)) => name,
        _ => "event"@,
    }
}

/// What an item has to say: its `text`, else its `message`, else its `content`.
pub open spec fn item_content(item: JsonTree) -> Option<JsonTree> {
    either(item.field("text"@), either(item.field("message"@), item.field("content"@)))
}

/// What an event written as JSON has to say: what its `item` has to say, else its `message`, else
/// its `error`.
pub open spec fn content_of(tree: JsonTree) -> Option<JsonTree> {
    either(
        match tree.field("item"@) {
            Some(item) => item_content(item),
            None => None,
        },
        either(tree.field("message"@), tree.field("error"@)),
    )
}

/// A JSON value as text: a string is its own text, any other value is written as JSON.
pub open spec fn written(tree: JsonTree) -> Seq<char> {
    match tree {
        JsonTree::Text(s) => s,
        _ => json::pretty_json(tree),
    }
}

/// Type and text of an event written as JSON. `line` is its source.
pub open spec fn described(tree: JsonTree, line: Seq<char>) -> (Seq<char>, Seq<char>) {
    (
        type_of(tree),
        match content_of(tree) {
            Some(content) => written(content),
            None => line,
        },
    )
}

/// Type and text of the event that a printed line stands for. A line that is not JSON stands for
/// itself, with the stream as its type.
pub open spec fn output_event(line: Seq<char>, stream: Seq<char>) -> (Seq<char>, Seq<char>) {
    let line = text::trimmed(line);
    match json::parsed_json(line) {
        Some(tree) => described(tree, line),
        None => (stream, line),
    }
}

/// A JSON value as text.
pub fn value_text(value: &Json) -> (r: String)
    requires
        value.well_formed(),
    ensures
        r@ == written(value.tree()),
        *value matches Json::Text(s) ==> r@ == s@,
        !(*value is Text) ==> r@ == json::pretty_json(value.tree()),
{
    match value {
        Json::Text(s) => s.clone(),
        _ => value.pretty(),
    }
}

/// What an event written as JSON has to say.
pub fn content<'a>(value: &'a Json) -> (r: Option<&'a Json>)
    requires
        value.well_formed(),
    ensures
        content_of(value.tree()) == (match r {
            Some(content) => Some(content.tree()),
            None => None,
        }),
        r matches Some(content) ==> content.well_formed(),
{
    if let Some(item) = value.field("item") {
        if let Some(content) = item.field("text") {
            return Some(content);
        }
        if let Some(content) = item.field("message") {
            return Some(content);
        }
        if let Some(content) = item.field("content") {
            return Some(content);
        }
    }
    if let Some(content) = value.field("message") {
        return Some(content);
    }
    value.field("error")
}

/// Type and text of an event written as JSON. `line` is its source.
pub fn describe(value: &Json, line: &str) -> (r: (String, String))
    requires
        value.well_formed(),
    ensures
        (r.0@, r.1@) == described(value.tree(), line@),
        value.tree().field("type"@) matches Some(own) ==> (own matches JsonTree::Text(name) ==> r.0@
            == name),
        !(value.tree().field("type"@) is Some && value.tree().field("type"@)->0 is Text) ==> r.0@
            == "event"@,
{
    let event_type = match value.field("type") {
        Some(Json::Text(name)) => name.clone(),
        _ => "event".to_string(),
    };
    let text = match content(value) {
        Some(content) => value_text(content),
        None => line.to_string(),
    };
    (event_type, text)
}

/// Type and text of the event that a printed line stands for.
pub fn parse_output(line: &str, stream: &str) -> (r: (String, String))
    ensures
        (r.0@, r.1@) == output_event(line@, stream@),
        json::parsed_json(text::trimmed(line@)) is None ==> r.0@ == stream@ && r.1@
            == text::trimmed(line@),
{
    let trimmed = text::trim(line);
    match Json::parse(trimmed) {
        Some(value) => describe(&value, trimmed),
        None => (stream.to_string(), trimmed.to_string()),
    }
}

/// The type of an event written as JSON is the string under the key `type` of its own object,
/// whatever the item and the other keys hold; it is `event` if no string stands there.
pub proof fn law_the_type_is_the_lines_own(tree: JsonTree, line: Seq<char>)
    ensures
        tree.field("type"@) matches Some(value) ==> (value matches JsonTree::Text(name)
            ==> described(tree, line).0 == name),
        tree.field("type"@) matches Some(value) ==> (!(value is Text) ==> described(tree, line).0
            == "event"@),
        tree.field("type"@) is None ==> described(tree, line).0 == "event"@,
{
}

/// A line that is JSON, but for the white space around it, is described by its value.
pub proof fn law_json_lines_are_described(line: Seq<char>, stream: Seq<char>, tree: JsonTree)
    requires
        json::parsed_json(text::trimmed(line)) == Some(tree),
    ensures
        output_event(line, stream) == described(tree, text::trimmed(line)),
{
}

/// Two lines of JSON with the same under `type` have the same type, and two with the same under
/// `item`, `message` and `error` have the same text, if any of them has something to say.
pub proof fn law_type_and_text_depend_on_their_keys_alone(
    one: JsonTree,
    other: JsonTree,
    line: Seq<char>,
    other_line: Seq<char>,
)
    ensures
        one.field("type"@) == other.field("type"@) ==> described(one, line).0 == described(
            other,
            other_line,
        ).0,
        one.field("item"@) == other.field("item"@) && one.field("message"@) == other.field(
            "message"@,
        ) && one.field("error"@) == other.field("error"@) && (one.field("message"@) is Some
            || one.field("error"@) is Some) ==> described(one, line).1 == described(
            other,
            other_line,
        ).1,
{
}

/// Whether a text is that of a JSON value: a string is its own text, any other value is printed.
pub open spec fn speaks(value: JsonTree, said: Seq<char>) -> bool {
    if value is Text {
        said == value->Text_0
    } else {
        said == json::pretty_json(value)
    }
}

/// The text of an event written as JSON is what stands first, in this order: in its item under
/// `text`, `message` and `content`, then in its own object under `message` and `error`. If nothing
/// stands there, it is the line itself.
pub proof fn law_the_text_is_what_stands_first(tree: JsonTree, line: Seq<char>)
    ensures
        ({
            let said = described(tree, line).1;
            let item = tree.field("item"@);
            let in_item = |key: Seq<char>|
                if item is Some {
                    item->0.field(key)
                } else {
                    None
                };
            let text = in_item("text"@);
            let message = in_item("message"@);
            let content = in_item("content"@);
            let own_message = tree.field("message"@);
            let error = tree.field("error"@);
            &&& text is Some ==> speaks(text->0, said)
            &&& text is None && message is Some ==> speaks(message->0, said)
            &&& text is None && message is None && content is Some ==> speaks(content->0, said)
            &&& text is None && message is None && content is None ==> {
                &&& own_message is Some ==> speaks(own_message->0, said)
                &&& own_message is None && error is Some ==> speaks(error->0, said)
                &&& own_message is None && error is None ==> said == line
            }
        }),
{
}

/// What an event has to say is the value that stands first, in the same order.
pub proof fn law_the_content_is_what_stands_first(tree: JsonTree)
    ensures
        ({
            let item = tree.field("item"@);
            let spoken = item is Some && (item->0.field("text"@) is Some || item->0.field(
                "message"@,
            ) is Some || item->0.field("content"@) is Some);
            &&& spoken && item->0.field("text"@) is Some ==> content_of(tree) == item->0.field(
                "text"@,
            )
            &&& spoken && item->0.field("text"@) is None && item->0.field("message"@) is Some
                ==> content_of(tree) == item->0.field("message"@)
            &&& spoken && item->0.field("text"@) is None && item->0.field("message"@) is None
                ==> content_of(tree) == item->0.field("content"@)
            &&& !spoken && tree.field("message"@) is Some ==> content_of(tree) == tree.field(
                "message"@,
            )
            &&& !spoken && tree.field("message"@) is None ==> content_of(tree) == tree.field(
                "error"@,
            )
        }),
{
}

/// A line that is not JSON stands for itself, without the white space around it, with the name of
/// its stream as the type.
pub proof fn law_a_plain_line_stands_for_itself(line: Seq<char>, stream: Seq<char>)
    requires
        json::parsed_json(text::trimmed(line)) is None,
    ensures
        output_event(line, stream).0 == stream,
        output_event(line, stream).1 == text::trimmed(line),
{
}

} // verus!
