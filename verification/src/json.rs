//! JSON values: the library's own representation, and its tie to `serde_json`.

use vstd::prelude::*;

verus! {

/// `serde_json::Number`: a number as the parser read it. All that the library asks of it is whether
/// it is a floating-point number.
#[verifier::external_type_specification]
#[verifier::external_body]
pub struct ExNumber(serde_json::Number);

/// `serde_json::Value`: a JSON document of the outside crate. `value_tree` names what it holds.
#[verifier::external_type_specification]
#[verifier::external_body]
pub struct ExValue(serde_json::Value);

/// `serde_json::Error`: why a text is not JSON, or why a value could not be written.
#[verifier::external_type_specification]
#[verifier::external_body]
pub struct ExError(serde_json::Error);

/// What a JSON value means. An object is a map from keys to values.
pub ghost enum JsonTree {
    Null,
    Bool(bool),
    Number(serde_json::Number),
    Text(Seq<char>),
    Array(Seq<JsonTree>),
    Object(Map<Seq<char>, JsonTree>),
}

impl JsonTree {
    /// The value under `key`. Only an object has one.
    pub open spec fn field(self, key: Seq<char>) -> Option<JsonTree> {
        match self {
            JsonTree::Object(fields) => if fields.dom().contains(key) {
                Some(fields[key])
            } else {
                None
            },
            _ => None,
        }
    }

    /// Whether the value holds no floating-point number.
    pub open spec fn float_free(self) -> bool
        decreases self,
    {
        match self {
            JsonTree::Number(n) => !number_is_float(n),
            JsonTree::Array(items) => forall|i: int|
                0 <= i < items.len() ==> (#[trigger] items[i]).float_free(),
            JsonTree::Object(fields) => forall|key: Seq<char>| #[trigger]
                fields.dom().contains(key) ==> fields[key].float_free(),
            _ => true,
        }
    }

    /// Whether no more than `limit` arrays and objects stand inside each other.
    pub open spec fn nested_within(self, limit: nat) -> bool
        decreases self,
    {
        match self {
            JsonTree::Array(items) => limit > 0 && forall|i: int|
                0 <= i < items.len() ==> (#[trigger] items[i]).nested_within((limit - 1) as nat),
            JsonTree::Object(fields) => limit > 0 && forall|key: Seq<char>| #[trigger]
                fields.dom().contains(key) ==> fields[key].nested_within((limit - 1) as nat),
            _ => true,
        }
    }

    /// Whether no object in the value has the key that `serde_json` keeps for itself.
    pub open spec fn plain_keys(self) -> bool
        decreases self,
    {
        match self {
            JsonTree::Array(items) => forall|i: int|
                0 <= i < items.len() ==> (#[trigger] items[i]).plain_keys(),
            JsonTree::Object(fields) => {
                &&& !fields.dom().contains(raw_value_key())
                &&& forall|key: Seq<char>| #[trigger]
                    fields.dom().contains(key) ==> fields[key].plain_keys()
            },
            _ => true,
        }
    }

    /// Whether the value can be read back from what is printed of it: floating-point numbers may
    /// come back changed, arrays and objects that stand too deep are not read, and an object with
    /// the key that `serde_json` keeps for itself may be read as something else or not at all.
    pub open spec fn readable(self) -> bool {
        self.float_free() && self.plain_keys() && self.nested_within(max_nesting())
    }
}

/// How many arrays and objects may stand inside each other in a text that is read.
pub open spec fn max_nesting() -> nat {
    127
}

/// The key that `serde_json` keeps for itself. Where its feature `raw_value` is on, an object that
/// begins with this key is read as the document in the string under it.
pub open spec fn raw_value_key() -> Seq<char> {
    "$serde_json::private::RawValue"@
}

/// The object that comes of inserting the entries one after the other.
pub open spec fn object_of(entries: Seq<(Seq<char>, JsonTree)>) -> Map<Seq<char>, JsonTree>
    decreases entries.len(),
{
    if entries.len() == 0 {
        Map::empty()
    } else {
        object_of(entries.drop_last()).insert(entries.last().0, entries.last().1)
    }
}

/// Whether no two entries have the same key.
pub open spec fn distinct_keys<T>(entries: Seq<(String, T)>) -> bool {
    forall|i: int, j: int|
        0 <= i < j < entries.len() ==> (#[trigger] entries[i]).0@ != (#[trigger] entries[j]).0@
}

/// A JSON value.
pub enum Json {
    Null,
    Bool(bool),
    Number(serde_json::Number),
    Text(String),
    Array(Vec<Json>),
    Object(Vec<(String, Json)>),
}

impl Json {
    /// What the value means.
    pub open spec fn tree(self) -> JsonTree
        decreases self,
    {
        match self {
            Json::Null => JsonTree::Null,
            Json::Bool(b) => JsonTree::Bool(b),
            Json::Number(n) => JsonTree::Number(n),
            Json::Text(s) => JsonTree::Text(s@),
            Json::Array(items) => JsonTree::Array(item_trees(items@)),
            Json::Object(entries) => JsonTree::Object(object_of(entry_trees(entries@))),
        }
    }

    /// No object in the value has a key twice.
    pub open spec fn well_formed(self) -> bool
        decreases self,
    {
        match self {
            Json::Array(items) => forall|i: int|
                0 <= i < items@.len() ==> (#[trigger] items@[i]).well_formed(),
            Json::Object(entries) => {
                &&& distinct_keys(entries@)
                &&& forall|i: int|
                    0 <= i < entries@.len() ==> (#[trigger] entries@[i]).1.well_formed()
            },
            _ => true,
        }
    }
}

/// What the items of an array mean.
pub open spec fn item_trees(items: Seq<Json>) -> Seq<JsonTree>
    decreases items,
{
    Seq::new(
        items.len(),
        |i: int|
            if 0 <= i < items.len() {
                items[i].tree()
            } else {
                JsonTree::Null
            },
    )
}

/// What the entries of an object mean.
pub open spec fn entry_trees(entries: Seq<(String, Json)>) -> Seq<(Seq<char>, JsonTree)>
    decreases entries,
{
    Seq::new(
        entries.len(),
        |i: int|
            if 0 <= i < entries.len() {
                (entries[i].0@, entries[i].1.tree())
            } else {
                (Seq::empty(), JsonTree::Null)
            },
    )
}

/// What a `serde_json::Value` holds.
pub uninterp spec fn value_tree(value: serde_json::Value) -> JsonTree;

/// The outermost layer of a `serde_json::Value`.
enum Layer {
    Null,
    Bool(bool),
    Number(serde_json::Number),
    Text(String),
    Array(Vec<serde_json::Value>),
    Object(Vec<(String, serde_json::Value)>),
}

impl Layer {
    spec fn tree(self) -> JsonTree {
        match self {
            Layer::Null => JsonTree::Null,
            Layer::Bool(b) => JsonTree::Bool(b),
            Layer::Number(n) => JsonTree::Number(n),
            Layer::Text(s) => JsonTree::Text(s@),
            Layer::Array(items) => JsonTree::Array(
                Seq::new(items@.len(), |i: int| value_tree(items@[i])),
            ),
            Layer::Object(entries) => JsonTree::Object(
                object_of(
                    Seq::new(entries@.len(), |i: int| (entries@[i].0@, value_tree(entries@[i].1))),
                ),
            ),
        }
    }

    spec fn well_formed(self) -> bool {
        self matches Layer::Object(entries) ==> distinct_keys(entries@)
    }
}

/// Takes a `serde_json::Value` apart by its variants. The layer holds what the value held, and a
/// key of a `serde_json::Map` comes once.
#[verifier::external_body]
fn open_value(value: serde_json::Value) -> (layer: Layer)
    ensures
        layer.tree() == value_tree(value),
        layer.well_formed(),
{
    match value {
        serde_json::Value::Null => Layer::Null,
        serde_json::Value::Bool(b) => Layer::Bool(b),
        serde_json::Value::Number(n) => Layer::Number(n),
        serde_json::Value::String(s) => Layer::Text(s),
        serde_json::Value::Array(items) => Layer::Array(items),
        serde_json::Value::Object(fields) => Layer::Object(fields.into_iter().collect()),
    }
}

/// Puts a `serde_json::Value` together by its variants. The value holds what the layer held; a
/// `serde_json::Map` collected from entries with distinct keys holds them all.
#[verifier::external_body]
fn close_value(layer: Layer) -> (value: serde_json::Value)
    requires
        layer.well_formed(),
    ensures
        value_tree(value) == layer.tree(),
{
    match layer {
        Layer::Null => serde_json::Value::Null,
        Layer::Bool(b) => serde_json::Value::Bool(b),
        Layer::Number(n) => serde_json::Value::Number(n),
        Layer::Text(s) => serde_json::Value::String(s),
        Layer::Array(items) => serde_json::Value::Array(items),
        Layer::Object(entries) => serde_json::Value::Object(entries.into_iter().collect()),
    }
}

/// `Number::clone` gives back the same number.
pub assume_specification[ <serde_json::Number as Clone>::clone ](number: &serde_json::Number) -> (r:
    serde_json::Number)
    ensures
        r == *number,
;

/// Whether `serde_json` keeps a number as a floating-point number.
pub uninterp spec fn number_is_float(number: serde_json::Number) -> bool;

/// `Number::is_f64` tells a floating-point number from an integer.
pub assume_specification[ serde_json::Number::is_f64 ](number: &serde_json::Number) -> (r: bool)
    ensures
        r == number_is_float(*number),
;

/// What `serde_json::from_str` reads in a text; `None` where the text is not JSON.
pub uninterp spec fn parsed_json(text: Seq<char>) -> Option<JsonTree>;

/// `serde_json::from_str`, reading a `Value`: the outcome depends on the text alone.
#[verifier::external_body]
fn parse_value(text: &str) -> (r: Result<serde_json::Value, serde_json::Error>)
    ensures
        parsed_json(text@) == (match r {
            Ok(value) => Some(value_tree(value)),
            Err(_) => None,
        }),
{
    serde_json::from_str(text)
}

/// What `serde_json::to_string_pretty` writes for a value.
pub uninterp spec fn pretty_json(tree: JsonTree) -> Seq<char>;

/// `serde_json::to_string_pretty` of a `Value`. It does not fail: every key is a string, every
/// number is finite, and writing into a string cannot go wrong. The text depends on what the value
/// holds alone, since a `serde_json::Map` is walked in the order of its keys. Read by
/// `serde_json::from_str`, the text gives back the value, if that holds no floating-point number,
/// stays within the parser's recursion limit and has no object with the key that `serde_json` keeps
/// for itself. What any other text reads as is left unsaid.
#[verifier::external_body]
fn pretty_value(value: &serde_json::Value) -> (r: Result<String, serde_json::Error>)
    ensures
        r is Ok,
        r->Ok_0@ == pretty_json(value_tree(*value)),
        value_tree(*value).readable() ==> parsed_json(r->Ok_0@) == Some(value_tree(*value)),
{
    serde_json::to_string_pretty(value)
}

impl Json {
    fn from_value(value: serde_json::Value) -> (json: Json)
        ensures
            json.tree() == value_tree(value),
            json.well_formed(),
        decreases value_tree(value),
    {
        let ghost tree = value_tree(value);
        match open_value(value) {
            Layer::Null => Json::Null,
            Layer::Bool(b) => Json::Bool(b),
            Layer::Number(n) => Json::Number(n),
            Layer::Text(s) => Json::Text(s),
            Layer::Array(values) => {
                let ghost all = values@;
                let mut items: Vec<Json> = Vec::new();
                for v in iter: values
                    invariant
                        iter.seq() == all,
                        items@.len() == iter.index(),
                        tree == value_tree(value),
                        tree == JsonTree::Array(Seq::new(all.len(), |i: int| value_tree(all[i]))),
                        forall|i: int|
                            0 <= i < items@.len() ==> (#[trigger] items@[i]).tree() == value_tree(
                                all[i],
                            ),
                        forall|i: int|
                            0 <= i < items@.len() ==> (#[trigger] items@[i]).well_formed(),
                {
                    assert(decreases_to!(tree => tree->Array_0[iter.index()]));
                    items.push(Json::from_value(v));
                }
                assert(item_trees(items@) == tree->Array_0);
                Json::Array(items)
            },
            Layer::Object(values) => {
                let ghost all = values@;
                let ghost pairs = Seq::new(all.len(), |i: int| (all[i].0@, value_tree(all[i].1)));
                let mut entries: Vec<(String, Json)> = Vec::new();
                for entry in iter: values
                    invariant
                        iter.seq() == all,
                        entries@.len() == iter.index(),
                        tree == value_tree(value),
                        tree == JsonTree::Object(object_of(pairs)),
                        pairs == Seq::new(all.len(), |i: int| (all[i].0@, value_tree(all[i].1))),
                        distinct_keys(all),
                        forall|i: int|
                            0 <= i < entries@.len() ==> (#[trigger] entries@[i]).0 == all[i].0
                                && entries@[i].1.tree() == value_tree(all[i].1)
                                && entries@[i].1.well_formed(),
                {
                    proof {
                        lemma_object_holds(pairs, iter.index());
                        assert(decreases_to!(tree => tree->Object_0[entry.0@]));
                    }
                    let json = Json::from_value(entry.1);
                    entries.push((entry.0, json));
                }
                assert(entry_trees(entries@) == pairs);
                Json::Object(entries)
            },
        }
    }

    fn to_value(&self) -> (value: serde_json::Value)
        requires
            self.well_formed(),
        ensures
            value_tree(value) == self.tree(),
        decreases self,
    {
        match self {
            Json::Null => close_value(Layer::Null),
            Json::Bool(b) => close_value(Layer::Bool(*b)),
            Json::Number(n) => close_value(Layer::Number(n.clone())),
            Json::Text(s) => close_value(Layer::Text(s.clone())),
            Json::Array(items) => {
                let mut values: Vec<serde_json::Value> = Vec::new();
                let mut i: usize = 0;
                while i < items.len()
                    invariant
                        i <= items@.len(),
                        *self == Json::Array(*items),
                        forall|j: int|
                            0 <= j < items@.len() ==> (#[trigger] items@[j]).well_formed(),
                        values@.len() == i,
                        forall|j: int|
                            0 <= j < i ==> value_tree(#[trigger] values@[j]) == items@[j].tree(),
                    decreases items@.len() - i,
                {
                    assert(decreases_to!(self => self->Array_0@[i as int]));
                    values.push(items[i].to_value());
                    i = i + 1;
                }
                let layer = Layer::Array(values);
                assert(layer.tree()->Array_0 == item_trees(items@));
                close_value(layer)
            },
            Json::Object(entries) => {
                let mut values: Vec<(String, serde_json::Value)> = Vec::new();
                let mut i: usize = 0;
                while i < entries.len()
                    invariant
                        i <= entries@.len(),
                        *self == Json::Object(*entries),
                        self.well_formed(),
                        values@.len() == i,
                        forall|j: int|
                            0 <= j < i ==> (#[trigger] values@[j]).0@ == entries@[j].0@
                                && value_tree(values@[j].1) == entries@[j].1.tree(),
                    decreases entries@.len() - i,
                {
                    assert(entries@[i as int].1.well_formed());
                    values.push((entries[i].0.clone(), entries[i].1.to_value()));
                    i = i + 1;
                }
                let layer = Layer::Object(values);
                assert(Seq::new(
                    values@.len(),
                    |i: int| (values@[i].0@, value_tree(values@[i].1)),
                ) == entry_trees(entries@));
                close_value(layer)
            },
        }
    }

    /// Reads a text as JSON. `None` where it is not JSON.
    pub fn parse(text: &str) -> (r: Option<Json>)
        ensures
            parsed_json(text@) == (match r {
                Some(json) => Some(json.tree()),
                None => None,
            }),
            r matches Some(json) ==> json.well_formed(),
    {
        match parse_value(text) {
            Ok(value) => Some(Json::from_value(value)),
            Err(_) => None,
        }
    }

    /// The value as indented JSON.
    pub fn pretty(&self) -> (r: String)
        requires
            self.well_formed(),
        ensures
            r@ == pretty_json(self.tree()),
            self.tree().readable() ==> parsed_json(r@) == Some(self.tree()),
    {
        pretty_value(&self.to_value()).unwrap()
    }

    /// Whether the value holds a floating-point number.
    pub fn has_float(&self) -> (r: bool)
        requires
            self.well_formed(),
        ensures
            r == !self.tree().float_free(),
        decreases self,
    {
        match self {
            Json::Number(n) => n.is_f64(),
            Json::Array(items) => {
                let ghost trees = item_trees(items@);
                let mut i: usize = 0;
                while i < items.len()
                    invariant
                        i <= items@.len(),
                        *self == Json::Array(*items),
                        trees == item_trees(items@),
                        self.tree() == JsonTree::Array(trees),
                        forall|j: int|
                            0 <= j < items@.len() ==> (#[trigger] items@[j]).well_formed(),
                        forall|j: int| 0 <= j < i ==> (#[trigger] trees[j]).float_free(),
                    decreases items@.len() - i,
                {
                    assert(decreases_to!(self => self->Array_0@[i as int]));
                    if items[i].has_float() {
                        proof {
                            lemma_float_in_array(self.tree(), i as int);
                        }
                        return true;
                    }
                    i = i + 1;
                }
                false
            },
            Json::Object(entries) => {
                let ghost pairs = entry_trees(entries@);
                let ghost fields = object_of(pairs);
                let mut i: usize = 0;
                while i < entries.len()
                    invariant
                        i <= entries@.len(),
                        *self == Json::Object(*entries),
                        pairs == entry_trees(entries@),
                        fields == object_of(pairs),
                        self.tree() == JsonTree::Object(fields),
                        self.well_formed(),
                        distinct_keys(entries@),
                        forall|j: int| 0 <= j < i ==> (#[trigger] pairs[j]).1.float_free(),
                    decreases entries@.len() - i,
                {
                    assert(entries@[i as int].1.well_formed());
                    if entries[i].1.has_float() {
                        proof {
                            lemma_object_holds(pairs, i as int);
                            lemma_float_in_object(self.tree(), pairs[i as int].0);
                        }
                        return true;
                    }
                    assert(pairs[i as int].1.float_free());
                    i = i + 1;
                }
                proof {
                    assert forall|key: Seq<char>| #[trigger]
                        fields.dom().contains(key) implies fields[key].float_free() by {
                        lemma_object_keys(pairs);
                        let j = choose|j: int|
                            0 <= j < pairs.len() && (#[trigger] pairs[j]).0 == key;
                        lemma_object_holds(pairs, j);
                    }
                }
                false
            },
            _ => false,
        }
    }

    /// The value under `key`. Only an object has one.
    pub fn field(&self, key: &str) -> (r: Option<&Json>)
        ensures
            self.tree().field(key@) == (match r {
                Some(json) => Some(json.tree()),
                None => None,
            }),
            r matches Some(json) ==> (self.well_formed() ==> json.well_formed()),
    {
        match self {
            Json::Object(entries) => {
                let wanted = key.to_string();
                let ghost pairs = entry_trees(entries@);
                let mut i: usize = entries.len();
                while i > 0
                    invariant
                        i <= entries@.len(),
                        *self == Json::Object(*entries),
                        wanted@ == key@,
                        pairs == entry_trees(entries@),
                        forall|j: int| i <= j < entries@.len() ==> (#[trigger] pairs[j]).0 != key@,
                    decreases i,
                {
                    i = i - 1;
                    if entries[i].0 == wanted {
                        proof {
                            lemma_object_holds(pairs, i as int);
                        }
                        return Some(&entries[i].1);
                    }
                }
                proof {
                    lemma_object_keys(pairs);
                }
                None
            },
            _ => None,
        }
    }
}

proof fn lemma_float_in_array(tree: JsonTree, i: int)
    requires
        tree is Array,
        0 <= i < tree->Array_0.len(),
        !tree->Array_0[i].float_free(),
    ensures
        !tree.float_free(),
{
}

proof fn lemma_float_in_object(tree: JsonTree, key: Seq<char>)
    requires
        tree is Object,
        tree->Object_0.dom().contains(key),
        !tree->Object_0[key].float_free(),
    ensures
        !tree.float_free(),
{
}

/// The keys of the object are those of the entries.
proof fn lemma_object_keys(entries: Seq<(Seq<char>, JsonTree)>)
    ensures
        object_of(entries).dom().finite(),
        forall|key: Seq<char>|
            object_of(entries).dom().contains(key) <==> exists|i: int|
                0 <= i < entries.len() && (#[trigger] entries[i]).0 == key,
    decreases entries.len(),
{
    if entries.len() > 0 {
        lemma_object_keys(entries.drop_last());
        let rest = entries.drop_last();
        assert forall|key: Seq<char>| object_of(entries).dom().contains(key) <==> exists|i: int|
            0 <= i < entries.len() && (#[trigger] entries[i]).0 == key by {
            if object_of(rest).dom().contains(key) {
                let i = choose|i: int| 0 <= i < rest.len() && (#[trigger] rest[i]).0 == key;
                assert(entries[i].0 == key);
            }
            if exists|i: int| 0 <= i < entries.len() && (#[trigger] entries[i]).0 == key {
                let i = choose|i: int| 0 <= i < entries.len() && (#[trigger] entries[i]).0 == key;
                if i < rest.len() {
                    assert(rest[i].0 == key);
                }
            }
        }
    }
}

/// The last entry of a key is what the object holds under it.
proof fn lemma_object_holds(entries: Seq<(Seq<char>, JsonTree)>, at: int)
    requires
        0 <= at < entries.len(),
        forall|i: int| at < i < entries.len() ==> (#[trigger] entries[i]).0 != entries[at].0,
    ensures
        object_of(entries).dom().finite(),
        object_of(entries).dom().contains(entries[at].0),
        object_of(entries)[entries[at].0] == entries[at].1,
    decreases entries.len(),
{
    lemma_object_keys(entries);
    if at < entries.len() - 1 {
        assert(entries.last().0 != entries[at].0);
        lemma_object_holds(entries.drop_last(), at);
    }
}

/// A field is found in an object alone, and there it is the value under its key.
pub proof fn law_fields_are_those_of_the_object(tree: JsonTree, key: Seq<char>)
    ensures
        tree is Object && tree->Object_0.dom().contains(key) ==> tree.field(key) == Some(
            tree->Object_0[key],
        ),
        tree is Object && !tree->Object_0.dom().contains(key) ==> tree.field(key) is None,
        !(tree is Object) ==> tree.field(key) is None,
{
}

/// Whether no later entry has the key of this one.
pub open spec fn last_of_its_key(entries: Seq<(String, Json)>, at: int) -> bool {
    forall|i: int| at < i < entries.len() ==> (#[trigger] entries[i]).0@ != entries[at].0@
}

/// A value means what it holds: a scalar itself, an array its items in order, and an object under
/// each of its keys the value of that entry, the last one if a key comes more than once.
pub proof fn law_a_value_means_what_it_holds(json: Json)
    ensures
        json is Null ==> json.tree() is Null,
        json matches Json::Bool(b) ==> json.tree() == JsonTree::Bool(b),
        json matches Json::Number(n) ==> json.tree() == JsonTree::Number(n),
        json matches Json::Text(s) ==> json.tree() == JsonTree::Text(s@),
        json matches Json::Array(items) ==> {
            &&& json.tree() is Array
            &&& json.tree()->Array_0.len() == items@.len()
            &&& forall|i: int|
                0 <= i < items@.len() ==> #[trigger] json.tree()->Array_0[i] == items@[i].tree()
        },
        json matches Json::Object(entries) ==> {
            &&& json.tree() is Object
            &&& forall|i: int|
                0 <= i < entries@.len() && last_of_its_key(entries@, i) ==> json.tree().field(
                    (#[trigger] entries@[i]).0@,
                ) == Some(entries@[i].1.tree())
            &&& forall|key: Seq<char>| #[trigger]
                json.tree()->Object_0.dom().contains(key) ==> exists|i: int|
                    0 <= i < entries@.len() && (#[trigger] entries@[i]).0@ == key
        },
{
    if let Json::Object(entries) = json {
        let pairs = entry_trees(entries@);
        assert forall|i: int|
            0 <= i < entries@.len() && last_of_its_key(entries@, i) implies json.tree().field(
            (#[trigger] entries@[i]).0@,
        ) == Some(entries@[i].1.tree()) by {
            assert(pairs[i] == (entries@[i].0@, entries@[i].1.tree()));
            assert forall|j: int| i < j < pairs.len() implies (#[trigger] pairs[j]).0
                != pairs[i].0 by {
                assert(entries@[j].0@ != entries@[i].0@);
            }
            lemma_object_holds(pairs, i);
        }
        lemma_object_keys(pairs);
        assert forall|key: Seq<char>| #[trigger]
            json.tree()->Object_0.dom().contains(key) implies exists|i: int|
            0 <= i < entries@.len() && (#[trigger] entries@[i]).0@ == key by {
            let i = choose|i: int| 0 <= i < pairs.len() && (#[trigger] pairs[i]).0 == key;
            assert(entries@[i].0@ == key);
        }
    }
}

/// What can be read back is no less than this: a text, a truth value, nothing and an integer; an
/// array or an object of such values that are not nested too deep, if an object has no key that
/// `serde_json` keeps for itself.
pub proof fn law_what_can_be_read_back(tree: JsonTree, limit: nat)
    ensures
        tree is Null || tree is Bool || tree is Text ==> tree.float_free() && tree.plain_keys()
            && tree.nested_within(limit),
        tree matches JsonTree::Number(n) ==> (tree.float_free() <==> !number_is_float(n))
            && tree.plain_keys() && tree.nested_within(limit),
        tree matches JsonTree::Array(items) ==> {
            &&& (forall|i: int| 0 <= i < items.len() ==> (#[trigger] items[i]).float_free())
                ==> tree.float_free()
            &&& (forall|i: int| 0 <= i < items.len() ==> (#[trigger] items[i]).plain_keys())
                ==> tree.plain_keys()
            &&& (forall|i: int|
                0 <= i < items.len() ==> (#[trigger] items[i]).nested_within(limit))
                ==> tree.nested_within(limit + 1)
        },
        tree matches JsonTree::Object(fields) ==> {
            &&& (forall|key: Seq<char>| #[trigger]
                fields.dom().contains(key) ==> fields[key].float_free()) ==> tree.float_free()
            &&& (forall|key: Seq<char>| #[trigger]
                fields.dom().contains(key) ==> fields[key].plain_keys() && key
                    != "$serde_json::private::RawValue"@) ==> tree.plain_keys()
            &&& (forall|key: Seq<char>| #[trigger]
                fields.dom().contains(key) ==> fields[key].nested_within(limit))
                ==> tree.nested_within(limit + 1)
        },
        tree.float_free() && tree.plain_keys() && tree.nested_within(127) ==> tree.readable(),
{
}

/// A value holds a floating-point number exactly if it is one or one of its parts holds one.
pub proof fn law_floats_are_found_in_the_parts(tree: JsonTree)
    ensures
        tree is Number ==> (tree.float_free() <==> !number_is_float(tree->Number_0)),
        tree is Array ==> (tree.float_free() <==> forall|i: int|
            0 <= i < tree->Array_0.len() ==> (#[trigger] tree->Array_0[i]).float_free()),
        tree is Object ==> (tree.float_free() <==> forall|key: Seq<char>| #[trigger]
            tree->Object_0.dom().contains(key) ==> tree->Object_0[key].float_free()),
{
}

} // verus!
