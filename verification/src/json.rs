//! JSON values. The library works on values of its own; `serde_json` reads and writes the text.
use vstd::prelude::*;

use crate::number::{int_text, opt_int};
use crate::order::{
    lemma_text_before_total, lemma_text_before_transitive, lemma_text_not_before_itself, text_before,
    text_order, Order,
};
use crate::text::{opt_str, same, texts, Text};

verus! {

/// A JSON value.
#[derive(Debug)]
pub enum JsonValue {
    Null,
    Bool(bool),
    Number(serde_json::Number),
    String(String),
    Array(Vec<JsonValue>),
    Object(Vec<(String, JsonValue)>),
}

/// The mathematical value of a JSON value. An object is the sequence of its fields.
pub enum JsonView {
    Null,
    Bool(bool),
    Number(serde_json::Number),
    String(Text),
    Array(Seq<JsonView>),
    Object(Seq<(Text, JsonView)>),
}

/// `serde_json::Number`, carried through unread.
#[verifier::external_type_specification]
#[verifier::external_body]
pub struct ExNumber(serde_json::Number);

/// `serde_json::Value`, which only this module takes apart and puts together.
#[verifier::external_type_specification]
#[verifier::external_body]
pub struct ExValue(serde_json::Value);

/// The mathematical value of a JSON value.
pub open spec fn json_view(v: JsonValue) -> JsonView
    decreases v,
{
    match v {
        JsonValue::Null => JsonView::Null,
        JsonValue::Bool(b) => JsonView::Bool(b),
        JsonValue::Number(n) => JsonView::Number(n),
        JsonValue::String(s) => JsonView::String(s@),
        JsonValue::Array(items) => JsonView::Array(
            Seq::new(
                items@.len(),
                |i: int|
                    if 0 <= i < items@.len() {
                        json_view(items@[i])
                    } else {
                        JsonView::Null
                    },
            ),
        ),
        JsonValue::Object(fields) => JsonView::Object(
            Seq::new(
                fields@.len(),
                |i: int|
                    if 0 <= i < fields@.len() {
                        (fields@[i].0@, json_view(fields@[i].1))
                    } else {
                        (Seq::empty(), JsonView::Null)
                    },
            ),
        ),
    }
}

impl View for JsonValue {
    type V = JsonView;

    open spec fn view(&self) -> JsonView {
        json_view(*self)
    }
}

/// `serde_json::Number::clone`: the copy is the same number.
pub assume_specification[ <serde_json::Number as Clone>::clone ](
    n: &serde_json::Number,
) -> (r: serde_json::Number)
    ensures
        r == *n,
;

/// The values of the elements of an array.
pub open spec fn views(items: Seq<JsonValue>) -> Seq<JsonView> {
    items.map_values(|v: JsonValue| v@)
}

/// The values of the fields of an object.
pub open spec fn field_views(fields: Seq<(String, JsonValue)>) -> Seq<(Text, JsonView)> {
    fields.map_values(|f: (String, JsonValue)| (f.0@, f.1@))
}

/// The value of an array is made of the values of its elements.
pub broadcast proof fn lemma_array_view(items: Vec<JsonValue>)
    ensures
        #[trigger] JsonValue::Array(items)@ == JsonView::Array(views(items@)),
{
    let v = JsonValue::Array(items);
    assert(v@->Array_0 =~= views(items@));
}

/// The value of an object is made of the values of its fields.
pub broadcast proof fn lemma_object_view(fields: Vec<(String, JsonValue)>)
    ensures
        #[trigger] JsonValue::Object(fields)@ == JsonView::Object(field_views(fields@)),
{
    let v = JsonValue::Object(fields);
    assert forall|i: int| 0 <= i < fields@.len() implies v@->Object_0[i] == field_views(
        fields@,
    )[i] by {
        assert(v@->Object_0[i] == (fields@[i].0@, fields@[i].1@));
    }
    assert(v@->Object_0 =~= field_views(fields@));
}

impl Clone for JsonValue {
    fn clone(&self) -> (r: Self)
        ensures
            r@ == self@,
        decreases self,
    {
        broadcast use {lemma_array_view, lemma_object_view};

        match self {
            JsonValue::Null => JsonValue::Null,
            JsonValue::Bool(b) => JsonValue::Bool(*b),
            JsonValue::Number(n) => JsonValue::Number(n.clone()),
            JsonValue::String(s) => JsonValue::String(s.clone()),
            JsonValue::Array(items) => {
                let mut out: Vec<JsonValue> = Vec::new();
                let mut i: usize = 0;
                while i < items.len()
                    invariant
                        0 <= i <= items@.len(),
                        *self == JsonValue::Array(*items),
                        views(out@) == views(items@).take(i as int),
                    decreases items@.len() - i,
                {
                    let ghost before = out@;
                    proof {
                        assert(decreases_to!(*self => self->Array_0));
                        assert(decreases_to!(*items => items@));
                        assert(decreases_to!(items@ => items@[i as int]));
                    }
                    let item = items[i].clone();
                    proof {
                        assert(views(before.push(item)) =~= views(before).push(item@));
                        assert(views(items@).take(i + 1) =~= views(items@).take(i as int).push(
                            items@[i as int]@,
                        ));
                    }
                    out.push(item);
                    i += 1;
                }
                proof {
                    assert(views(items@).take(items@.len() as int) =~= views(items@));
                }
                JsonValue::Array(out)
            },
            JsonValue::Object(fields) => {
                let mut out: Vec<(String, JsonValue)> = Vec::new();
                let mut i: usize = 0;
                while i < fields.len()
                    invariant
                        0 <= i <= fields@.len(),
                        *self == JsonValue::Object(*fields),
                        field_views(out@) == field_views(fields@).take(i as int),
                    decreases fields@.len() - i,
                {
                    let ghost before = out@;
                    proof {
                        assert(decreases_to!(*self => self->Object_0));
                        assert(decreases_to!(*fields => fields@));
                        assert(decreases_to!(fields@ => fields@[i as int]));
                        assert(decreases_to!(fields@[i as int] => fields@[i as int].1));
                    }
                    let name = fields[i].0.clone();
                    let value = fields[i].1.clone();
                    proof {
                        assert(field_views(before.push((name, value))) =~= field_views(
                            before,
                        ).push((name@, value@)));
                        assert(field_views(fields@).take(i + 1) =~= field_views(fields@).take(
                            i as int,
                        ).push((fields@[i as int].0@, fields@[i as int].1@)));
                    }
                    out.push((name, value));
                    i += 1;
                }
                proof {
                    assert(field_views(fields@).take(fields@.len() as int) =~= field_views(fields@));
                }
                JsonValue::Object(out)
            },
        }
    }
}

/// What a `serde_json::Value` holds.
pub uninterp spec fn value_contents(v: serde_json::Value) -> JsonView;

/// The compact JSON text that `serde_json` writes for a value.
pub uninterp spec fn json_encoding(v: JsonView) -> Text;

/// The indented JSON text that `serde_json` writes for a value.
pub uninterp spec fn json_pretty(v: JsonView) -> Text;

/// The value that `serde_json` reads from a text, or its message where it reads none.
pub uninterp spec fn json_parsed(text: Text) -> Result<JsonView, Text>;

/// The `serde_json::Number` of an integer.
pub uninterp spec fn number_of(n: int) -> serde_json::Number;

/// One layer of a `serde_json::Value`.
pub enum JsonNode {
    Null,
    Bool(bool),
    Number(serde_json::Number),
    String(String),
    Array(Vec<serde_json::Value>),
    Object(Vec<(String, serde_json::Value)>),
}

/// The contents of the elements of an array.
pub open spec fn contents_of(items: Seq<serde_json::Value>) -> Seq<JsonView> {
    items.map_values(|v: serde_json::Value| value_contents(v))
}

/// The contents of the fields of an object.
pub open spec fn field_contents(fields: Seq<(String, serde_json::Value)>) -> Seq<(Text, JsonView)> {
    fields.map_values(|f: (String, serde_json::Value)| (f.0@, value_contents(f.1)))
}

/// The value that a layer stands for.
pub open spec fn node_view(node: JsonNode) -> JsonView {
    match node {
        JsonNode::Null => JsonView::Null,
        JsonNode::Bool(b) => JsonView::Bool(b),
        JsonNode::Number(n) => JsonView::Number(n),
        JsonNode::String(s) => JsonView::String(s@),
        JsonNode::Array(items) => JsonView::Array(contents_of(items@)),
        JsonNode::Object(fields) => JsonView::Object(field_contents(fields@)),
    }
}

/// Takes one layer off a `serde_json::Value`: the parts hold together what the value held, the
/// fields of an object in the order of its `serde_json::Map`.
#[verifier::external_body]
fn open_value(v: serde_json::Value) -> (r: JsonNode)
    ensures
        node_view(r) == value_contents(v),
{
    match v {
        serde_json::Value::Null => JsonNode::Null,
        serde_json::Value::Bool(b) => JsonNode::Bool(b),
        serde_json::Value::Number(n) => JsonNode::Number(n),
        serde_json::Value::String(s) => JsonNode::String(s),
        serde_json::Value::Array(items) => JsonNode::Array(items),
        serde_json::Value::Object(fields) => JsonNode::Object(fields.into_iter().collect()),
    }
}

/// The names ascend.
pub open spec fn names_ascend(fields: Seq<(Text, JsonView)>) -> bool {
    forall|i: int, j: int|
        0 <= i < j < fields.len() ==> text_before(
            (#[trigger] fields[i]).0,
            (#[trigger] fields[j]).0,
        )
}

/// Makes a `serde_json::Value` of one layer: it holds what the parts hold. A `serde_json::Map`
/// keeps its fields in the order of their names, so fields in that order stay as they are.
#[verifier::external_body]
fn build_value(node: JsonNode) -> (r: serde_json::Value)
    requires
        node matches JsonNode::Object(fields) ==> names_ascend(field_contents(fields@)),
    ensures
        value_contents(r) == node_view(node),
{
    match node {
        JsonNode::Null => serde_json::Value::Null,
        JsonNode::Bool(b) => serde_json::Value::Bool(b),
        JsonNode::Number(n) => serde_json::Value::Number(n),
        JsonNode::String(s) => serde_json::Value::String(s),
        JsonNode::Array(items) => serde_json::Value::Array(items),
        JsonNode::Object(fields) => serde_json::Value::Object(fields.into_iter().collect()),
    }
}

/// The value that `serde_json` reads from a text, where it reads one.
pub open spec fn parsed_value(text: Text) -> Option<JsonView> {
    match json_parsed(text) {
        Ok(v) => Some(v),
        Err(_) => None,
    }
}

/// The value is a list of strings.
pub open spec fn is_string_list(v: JsonView) -> bool {
    match v {
        JsonView::Array(items) => forall|i: int|
            0 <= i < items.len() ==> (#[trigger] items[i]) is String,
        _ => false,
    }
}

/// `serde_json::Value::to_string`: the compact text of what the value holds. `serde_json::from_str`
/// reads the text of a list of strings as that list again.
#[verifier::external_body]
fn value_text(v: &serde_json::Value) -> (r: String)
    ensures
        r@ == json_encoding(value_contents(*v)),
        is_string_list(value_contents(*v)) ==> parsed_value(r@) == Some(value_contents(*v)),
{
    v.to_string()
}

/// `serde_json::to_string_pretty`: the indented text of what the value holds. Writing a value into
/// memory does not fail.
#[verifier::external_body]
fn value_pretty(v: &serde_json::Value) -> (r: Result<String, String>)
    ensures
        r is Ok,
        r->Ok_0@ == json_pretty(value_contents(*v)),
{
    serde_json::to_string_pretty(v).map_err(|e| e.to_string())
}

/// `serde_json::from_str` for any JSON value: what it reads depends on the text alone.
#[verifier::external_body]
fn parse_value(text: &str) -> (r: Result<serde_json::Value, String>)
    ensures
        match r {
            Ok(v) => json_parsed(text@) == Ok::<JsonView, Text>(value_contents(v)),
            Err(e) => json_parsed(text@) == Err::<JsonView, Text>(e@),
        },
{
    serde_json::from_str(text).map_err(|e: serde_json::Error| e.to_string())
}

/// `serde_json::Number::from_i128`: the number of an integer from the range of `i64` and `u64`,
/// which is written in plain decimal; none for any other.
pub assume_specification[ serde_json::Number::from_i128 ](i: i128) -> (r: Option<serde_json::Number>)
    ensures
        r is Some <==> i64::MIN <= i <= u64::MAX,
        r matches Some(n) ==> n == number_of(i as int) && json_encoding(JsonView::Number(n))
            == int_text(i as int),
;

/// The value of an integer that has a number.
fn number_value(i: i128) -> (r: JsonValue)
    requires
        i64::MIN <= i <= u64::MAX,
    ensures
        r@ == JsonView::Number(number_of(i as int)),
        json_encoding(r@) == int_text(i as int),
{
    match serde_json::Number::from_i128(i) {
        Some(n) => JsonValue::Number(n),
        None => JsonValue::Null,
    }
}

/// The library's form of a `serde_json::Value`.
pub fn from_value(v: serde_json::Value) -> (r: JsonValue)
    ensures
        r@ == value_contents(v),
    decreases value_contents(v),
{
    broadcast use {lemma_array_view, lemma_object_view};

    let ghost whole = value_contents(v);
    match open_value(v) {
        JsonNode::Null => JsonValue::Null,
        JsonNode::Bool(b) => JsonValue::Bool(b),
        JsonNode::Number(n) => JsonValue::Number(n),
        JsonNode::String(s) => JsonValue::String(s),
        JsonNode::Array(items) => {
            let mut out: Vec<JsonValue> = Vec::new();
            let ghost all = contents_of(items@);
            for item in it: items
                invariant
                    it.seq() == items@,
                    all == contents_of(items@),
                    whole == JsonView::Array(all),
                    whole == value_contents(v),
                    views(out@) == all.take(it.index()),
            {
                proof {
                    assert(item == items@[it.index()]);
                    assert(all[it.index()] == value_contents(item));
                    assert(decreases_to!(whole => whole->Array_0));
                    assert(decreases_to!(all => all[it.index()]));
                }
                let value = from_value(item);
                proof {
                    assert(views(out@.push(value)) =~= views(out@).push(value@));
                    assert(all.take(it.index() + 1) =~= all.take(it.index()).push(
                        all[it.index()],
                    ));
                }
                out.push(value);
            }
            proof {
                assert(all.take(all.len() as int) =~= all);
            }
            JsonValue::Array(out)
        },
        JsonNode::Object(fields) => {
            let mut out: Vec<(String, JsonValue)> = Vec::new();
            let ghost all = field_contents(fields@);
            for field in it: fields
                invariant
                    it.seq() == fields@,
                    all == field_contents(fields@),
                    whole == JsonView::Object(all),
                    whole == value_contents(v),
                    field_views(out@) == all.take(it.index()),
            {
                proof {
                    assert(field == fields@[it.index()]);
                    assert(all[it.index()] == (field.0@, value_contents(field.1)));
                    assert(decreases_to!(whole => whole->Object_0));
                    assert(decreases_to!(all => all[it.index()]));
                    assert(decreases_to!(all[it.index()] => all[it.index()].1));
                }
                let (name, inner) = field;
                let value = from_value(inner);
                proof {
                    assert(field_views(out@.push((name, value))) =~= field_views(out@).push(
                        (name@, value@),
                    ));
                    assert(all.take(it.index() + 1) =~= all.take(it.index()).push(
                        all[it.index()],
                    ));
                }
                out.push((name, value));
            }
            proof {
                assert(all.take(all.len() as int) =~= all);
            }
            JsonValue::Object(out)
        },
    }
}

/// The fields with one more put in its place; it takes the place of one with its name.
pub open spec fn put_field(fields: Seq<(Text, JsonView)>, field: (Text, JsonView)) -> Seq<
    (Text, JsonView),
>
    decreases fields.len(),
{
    if fields.len() == 0 || text_before(fields.last().0, field.0) {
        fields.push(field)
    } else if fields.last().0 == field.0 {
        fields.drop_last().push(field)
    } else {
        put_field(fields.drop_last(), field).push(fields.last())
    }
}

/// The fields in the order of their names, of those with one name the last.
pub open spec fn object_fields(fields: Seq<(Text, JsonView)>) -> Seq<(Text, JsonView)>
    decreases fields.len(),
{
    if fields.len() == 0 {
        Seq::empty()
    } else {
        put_field(object_fields(fields.drop_last()), fields.last())
    }
}

proof fn lemma_put_field(fields: Seq<(Text, JsonView)>, field: (Text, JsonView))
    requires
        names_ascend(fields),
    ensures
        names_ascend(put_field(fields, field)),
        put_field(fields, field).len() > 0,
        fields.len() > 0 ==> put_field(fields, field).last().0 == (if text_before(
            fields.last().0,
            field.0,
        ) {
            field.0
        } else {
            fields.last().0
        }),
        fields.len() == 0 ==> put_field(fields, field).last() == field,
        forall|i: int|
            0 <= i < put_field(fields, field).len() ==> (#[trigger] put_field(fields, field)[i]).0
                == field.0 || exists|k: int|
                0 <= k < fields.len() && (#[trigger] fields[k]).0 == put_field(fields, field)[i].0,
    decreases fields.len(),
{
    let r = put_field(fields, field);
    if fields.len() == 0 {
    } else if text_before(fields.last().0, field.0) {
        assert forall|i: int, j: int| 0 <= i < j < r.len() implies text_before(
            (#[trigger] r[i]).0,
            (#[trigger] r[j]).0,
        ) by {
            if j == fields.len() {
                assert(r[i] == fields[i]);
                if i < fields.len() - 1 {
                    lemma_text_before_transitive(r[i].0, fields.last().0, field.0);
                }
            } else {
                assert(r[i] == fields[i] && r[j] == fields[j]);
            }
        }
        assert forall|i: int| 0 <= i < r.len() implies (#[trigger] r[i]).0 == field.0 || exists|
            k: int,
        |
            0 <= k < fields.len() && (#[trigger] fields[k]).0 == r[i].0 by {
            if i < fields.len() {
                assert(fields[i].0 == r[i].0);
            }
        }
    } else if fields.last().0 == field.0 {
        assert forall|i: int, j: int| 0 <= i < j < r.len() implies text_before(
            (#[trigger] r[i]).0,
            (#[trigger] r[j]).0,
        ) by {
            assert(r[i].0 == fields[i].0 && r[j].0 == fields[j].0);
        }
        assert forall|i: int| 0 <= i < r.len() implies (#[trigger] r[i]).0 == field.0 || exists|
            k: int,
        |
            0 <= k < fields.len() && (#[trigger] fields[k]).0 == r[i].0 by {
            assert(fields[i].0 == r[i].0);
        }
    } else {
        let init = fields.drop_last();
        lemma_put_field(init, field);
        let inner = put_field(init, field);
        lemma_text_before_total(fields.last().0, field.0);
        assert forall|i: int| 0 <= i < inner.len() implies text_before(
            (#[trigger] inner[i]).0,
            fields.last().0,
        ) by {
            if inner[i].0 != field.0 {
                let k = choose|k: int| 0 <= k < init.len() && (#[trigger] init[k]).0 == inner[i].0;
                assert(fields[k] == init[k]);
                assert(text_before(fields[k].0, fields[fields.len() - 1].0));
            }
        }
        assert forall|i: int, j: int| 0 <= i < j < r.len() implies text_before(
            (#[trigger] r[i]).0,
            (#[trigger] r[j]).0,
        ) by {
            if j == inner.len() {
                assert(r[i] == inner[i]);
            } else {
                assert(r[i] == inner[i] && r[j] == inner[j]);
            }
        }
        assert forall|i: int| 0 <= i < r.len() implies (#[trigger] r[i]).0 == field.0 || exists|
            k: int,
        |
            0 <= k < fields.len() && (#[trigger] fields[k]).0 == r[i].0 by {
            if i < inner.len() {
                assert(r[i] == inner[i]);
                if inner[i].0 != field.0 {
                    let k = choose|k: int|
                        0 <= k < init.len() && (#[trigger] init[k]).0 == inner[i].0;
                    assert(fields[k].0 == r[i].0);
                }
            } else {
                assert(fields[fields.len() - 1].0 == r[i].0);
            }
        }
    }
}

/// An object is written with its fields in the order of their names, each name once.
pub proof fn law_written_names_ascend(fields: Seq<(Text, JsonView)>)
    ensures
        names_ascend(object_fields(fields)),
    decreases fields.len(),
{
    if fields.len() > 0 {
        law_written_names_ascend(fields.drop_last());
        lemma_put_field(object_fields(fields.drop_last()), fields.last());
    }
}

/// The place where a field is put.
proof fn lemma_put_place(fields: Seq<(Text, JsonView)>, field: (Text, JsonView), place: int)
    requires
        0 <= place <= fields.len(),
        forall|j: int|
            place <= j < fields.len() ==> !text_before((#[trigger] fields[j]).0, field.0)
                && fields[j].0 != field.0,
        place > 0 ==> text_before(fields[place - 1].0, field.0) || fields[place - 1].0 == field.0,
    ensures
        put_field(fields, field) == (if place > 0 && fields[place - 1].0 == field.0 {
            fields.update(place - 1, field)
        } else {
            fields.insert(place, field)
        }),
    decreases fields.len(),
{
    if place == fields.len() {
        if place > 0 && fields[place - 1].0 == field.0 {
            lemma_text_not_before_itself(field.0);
            assert(fields.update(place - 1, field) =~= fields.drop_last().push(field));
        } else {
            assert(fields.insert(place, field) =~= fields.push(field));
        }
    } else {
        let init = fields.drop_last();
        assert(!text_before(fields[fields.len() - 1].0, field.0));
        lemma_put_place(init, field, place);
        if place > 0 && fields[place - 1].0 == field.0 {
            assert(fields.update(place - 1, field) =~= init.update(place - 1, field).push(
                fields.last(),
            ));
        } else {
            assert(fields.insert(place, field) =~= init.insert(place, field).push(fields.last()));
        }
    }
}

/// Puts a field in its place.
fn put_value(list: &mut Vec<(String, serde_json::Value)>, name: String, value: serde_json::Value)
    ensures
        field_contents(final(list)@) == put_field(
            field_contents(old(list)@),
            (name@, value_contents(value)),
        ),
{
    let ghost before = field_contents(list@);
    let ghost field = (name@, value_contents(value));
    let mut place: usize = list.len();
    let mut taken = false;
    while place > 0
        invariant_except_break
            !taken,
        invariant
            0 <= place <= list@.len(),
            before == field_contents(list@),
            field.0 == name@,
            forall|j: int|
                place <= j < before.len() ==> !text_before((#[trigger] before[j]).0, field.0)
                    && before[j].0 != field.0,
        ensures
            place > 0 ==> text_before(before[place - 1].0, field.0) || before[place - 1].0
                == field.0,
            taken == (place > 0 && before[place - 1].0 == field.0),
        decreases place,
    {
        proof {
            assert(before[place - 1].0 == list@[place - 1].0@);
        }
        match text_order(list[place - 1].0.as_str(), name.as_str()) {
            Order::Before => {
                break ;
            },
            Order::Same => {
                taken = true;
                break ;
            },
            Order::After => {
                proof {
                    if text_before(before[place - 1].0, field.0) {
                        lemma_text_before_transitive(field.0, before[place - 1].0, field.0);
                        lemma_text_not_before_itself(field.0);
                    }
                }
                place -= 1;
            },
        }
    }
    proof {
        lemma_put_place(before, field, place as int);
    }
    let ghost items = list@;
    if taken {
        list.set(place - 1, (name, value));
        proof {
            assert(field_contents(list@) =~= before.update(place - 1, field));
        }
    } else {
        list.insert(place, (name, value));
        proof {
            assert(field_contents(list@) =~= before.insert(place as int, field));
        }
    }
}

/// The value that is written: each object with its fields in the order of their names.
pub open spec fn normal(v: JsonView) -> JsonView
    decreases v,
{
    match v {
        JsonView::Array(items) => JsonView::Array(normal_items(items)),
        JsonView::Object(fields) => JsonView::Object(object_fields(normal_fields(fields))),
        other => other,
    }
}

/// The elements as they are written.
pub open spec fn normal_items(items: Seq<JsonView>) -> Seq<JsonView>
    decreases items,
{
    if items.len() == 0 {
        Seq::empty()
    } else {
        normal_items(items.subrange(0, items.len() - 1)).push(normal(items[items.len() - 1]))
    }
}

/// The fields as they are written, before they are put in order.
pub open spec fn normal_fields(fields: Seq<(Text, JsonView)>) -> Seq<(Text, JsonView)>
    decreases fields,
{
    if fields.len() == 0 {
        Seq::empty()
    } else {
        normal_fields(fields.subrange(0, fields.len() - 1)).push(
            (fields[fields.len() - 1].0, normal(fields[fields.len() - 1].1)),
        )
    }
}

/// The `serde_json::Value` of a value of the library.
pub fn to_value(v: &JsonValue) -> (r: serde_json::Value)
    ensures
        value_contents(r) == normal(v@),
    decreases v,
{
    broadcast use {lemma_array_view, lemma_object_view};

    match v {
        JsonValue::Null => build_value(JsonNode::Null),
        JsonValue::Bool(b) => build_value(JsonNode::Bool(*b)),
        JsonValue::Number(n) => build_value(JsonNode::Number(n.clone())),
        JsonValue::String(s) => build_value(JsonNode::String(s.clone())),
        JsonValue::Array(items) => {
            let mut out: Vec<serde_json::Value> = Vec::new();
            let ghost all = views(items@);
            proof {
                lemma_array_view(*items);
                assert(*v == JsonValue::Array(*items));
            }
            let mut i: usize = 0;
            while i < items.len()
                invariant
                    0 <= i <= items@.len(),
                    *v == JsonValue::Array(*items),
                    all == views(items@),
                    contents_of(out@) == normal_items(all.take(i as int)),
                decreases items@.len() - i,
            {
                proof {
                    assert(decreases_to!(*v => v->Array_0));
                    assert(decreases_to!(*items => items@));
                    assert(decreases_to!(items@ => items@[i as int]));
                }
                let item = to_value(&items[i]);
                proof {
                    assert(contents_of(out@.push(item)) =~= contents_of(out@).push(
                        value_contents(item),
                    ));
                    assert(all.take(i + 1).subrange(0, i as int) =~= all.take(i as int));
                }
                out.push(item);
                i += 1;
            }
            proof {
                assert(all.take(all.len() as int) =~= all);
            }
            build_value(JsonNode::Array(out))
        },
        JsonValue::Object(fields) => {
            let mut out: Vec<(String, serde_json::Value)> = Vec::new();
            let ghost all = field_views(fields@);
            proof {
                lemma_object_view(*fields);
                assert(*v == JsonValue::Object(*fields));
                assert(all.take(0) =~= Seq::<(Text, JsonView)>::empty());
                assert(field_contents(out@) =~= Seq::<(Text, JsonView)>::empty());
            }
            let mut i: usize = 0;
            while i < fields.len()
                invariant
                    0 <= i <= fields@.len(),
                    *v == JsonValue::Object(*fields),
                    all == field_views(fields@),
                    field_contents(out@) == object_fields(normal_fields(all.take(i as int))),
                decreases fields@.len() - i,
            {
                proof {
                    assert(decreases_to!(*v => v->Object_0));
                    assert(decreases_to!(*fields => fields@));
                    assert(decreases_to!(fields@ => fields@[i as int]));
                    assert(decreases_to!(fields@[i as int] => fields@[i as int].1));
                }
                let name = fields[i].0.clone();
                let value = to_value(&fields[i].1);
                proof {
                    assert(all.take(i + 1).subrange(0, i as int) =~= all.take(i as int));
                    assert(normal_fields(all.take(i + 1)).drop_last() =~= normal_fields(
                        all.take(i as int),
                    ));
                }
                put_value(&mut out, name, value);
                i += 1;
            }
            proof {
                assert(all.take(all.len() as int) =~= all);
                law_written_names_ascend(normal_fields(all));
            }
            build_value(JsonNode::Object(out))
        },
    }
}

/// A list of strings is written as it is.
proof fn lemma_string_list_is_normal(items: Seq<JsonView>)
    requires
        is_string_list(JsonView::Array(items)),
    ensures
        normal_items(items) == items,
    decreases items.len(),
{
    if items.len() > 0 {
        let init = items.subrange(0, items.len() - 1);
        assert forall|i: int| 0 <= i < init.len() implies (#[trigger] init[i]) is String by {
            assert(init[i] == items[i]);
        }
        lemma_string_list_is_normal(init);
        let last = items[items.len() - 1];
        assert(last is String);
        assert(normal(last) == last);
        assert(items =~= init.push(last));
    } else {
        assert(normal_items(items) =~= items);
    }
}

/// The compact JSON text of a value. That of a list of strings is read as that list again.
pub fn json_text(v: &JsonValue) -> (r: String)
    ensures
        r@ == json_encoding(normal(v@)),
        is_string_list(v@) ==> parsed_value(r@) == Some(v@),
{
    proof {
        if is_string_list(v@) {
            lemma_string_list_is_normal(v@->Array_0);
        }
    }
    value_text(&to_value(v))
}

/// The indented JSON text of a value.
pub fn json_pretty_text(v: &JsonValue) -> (r: String)
    ensures
        r@ == json_pretty(normal(v@)),
{
    match value_pretty(&to_value(v)) {
        Ok(s) => s,
        Err(e) => e,
    }
}

/// The value that a JSON text stands for, or the message of `serde_json` where it stands for none.
pub fn parse_json(text: &str) -> (r: Result<JsonValue, String>)
    ensures
        match r {
            Ok(v) => json_parsed(text@) == Ok::<JsonView, Text>(v@),
            Err(e) => json_parsed(text@) == Err::<JsonView, Text>(e@),
        },
{
    match parse_value(text) {
        Ok(v) => Ok(from_value(v)),
        Err(e) => Err(e),
    }
}

/// The number of strings in a list of strings; none where the value is no such list.
pub open spec fn string_count(v: Option<JsonView>) -> int {
    match v {
        Some(JsonView::Array(items)) => if is_string_list(JsonView::Array(items)) {
            items.len() as int
        } else {
            0
        },
        _ => 0,
    }
}

/// The number of strings in a list of strings.
pub fn count_strings(v: Option<&JsonValue>) -> (r: usize)
    ensures
        r == string_count(opt_view(v)),
{
    let items = match v {
        Some(JsonValue::Array(items)) => items,
        _ => {
            return 0;
        },
    };
    let ghost all = views(items@);
    proof {
        lemma_array_view(*items);
        assert(*v->0 == JsonValue::Array(*items));
    }
    let mut i: usize = 0;
    while i < items.len()
        invariant
            0 <= i <= items@.len(),
            all == views(items@),
            opt_view(v) == Some(JsonView::Array(all)),
            forall|k: int| 0 <= k < i ==> (#[trigger] all[k]) is String,
        decreases items@.len() - i,
    {
        proof {
            assert(all[i as int] == items@[i as int]@);
        }
        match &items[i] {
            JsonValue::String(_) => {},
            _ => {
                proof {
                    assert(!(all[i as int] is String));
                }
                return 0;
            },
        }
        i += 1;
    }
    items.len()
}

/// The number of strings in a JSON list of strings; none where the text is no such list.
pub fn string_list_len(text: &str) -> (r: usize)
    ensures
        r == string_count(parsed_value(text@)),
{
    match parse_json(text) {
        Ok(v) => count_strings(Some(&v)),
        Err(_) => 0,
    }
}

/// The field of a name: the first one that has it.
pub open spec fn named_field(fields: Seq<(Text, JsonView)>, name: Text) -> Option<JsonView>
    decreases fields.len(),
{
    if fields.len() == 0 {
        None
    } else if fields[0].0 == name {
        Some(fields[0].1)
    } else {
        named_field(fields.skip(1), name)
    }
}

/// The field of a name, which only an object has.
pub open spec fn json_get(v: JsonView, name: Text) -> Option<JsonView> {
    match v {
        JsonView::Object(fields) => named_field(fields, name),
        _ => None,
    }
}

/// The string that an optional value is.
pub open spec fn json_str(v: Option<JsonView>) -> Option<Text> {
    match v {
        Some(JsonView::String(s)) => Some(s),
        _ => None,
    }
}

/// The string in the field of a name.
pub open spec fn str_field(v: JsonView, name: Text) -> Option<Text> {
    json_str(json_get(v, name))
}

/// The elements in the field of a name, where it is an array.
pub open spec fn array_field(v: JsonView, name: Text) -> Option<Seq<JsonView>> {
    match json_get(v, name) {
        Some(JsonView::Array(items)) => Some(items),
        _ => None,
    }
}

/// The value of an optional reference.
pub open spec fn opt_view(v: Option<&JsonValue>) -> Option<JsonView> {
    match v {
        Some(w) => Some(w@),
        None => None,
    }
}

impl JsonValue {
    /// The field of a name.
    pub fn get(&self, name: &str) -> (r: Option<&JsonValue>)
        ensures
            opt_view(r) == json_get(self@, name@),
    {
        broadcast use lemma_object_view;

        match self {
            JsonValue::Object(fields) => {
                let ghost all = field_views(fields@);
                let mut i: usize = 0;
                proof {
                    lemma_object_view(*fields);
                    assert(*self == JsonValue::Object(*fields));
                    assert(all.skip(0) =~= all);
                }
                while i < fields.len()
                    invariant
                        0 <= i <= fields@.len(),
                        self@ == JsonView::Object(all),
                        all == field_views(fields@),
                        named_field(all, name@) == named_field(all.skip(i as int), name@),
                    decreases fields@.len() - i,
                {
                    proof {
                        assert(all.skip(i as int)[0] == (
                            fields@[i as int].0@,
                            fields@[i as int].1@,
                        ));
                        assert(all.skip(i as int).skip(1) =~= all.skip(i + 1));
                    }
                    if same(fields[i].0.as_str(), name) {
                        return Some(&fields[i].1);
                    }
                    i += 1;
                }
                None
            },
            _ => None,
        }
    }

    /// The string that the value is.
    pub fn as_str(&self) -> (r: Option<&str>)
        ensures
            opt_str(r) == json_str(Some(self@)),
    {
        match self {
            JsonValue::String(s) => Some(s.as_str()),
            _ => None,
        }
    }

    /// The string in the field of a name.
    pub fn get_str(&self, name: &str) -> (r: Option<&str>)
        ensures
            opt_str(r) == str_field(self@, name@),
    {
        match self.get(name) {
            Some(v) => v.as_str(),
            None => None,
        }
    }

    /// The elements in the field of a name, where it is an array.
    pub fn get_array(&self, name: &str) -> (r: Option<&Vec<JsonValue>>)
        ensures
            match r {
                Some(items) => array_field(self@, name@) == Some(views(items@)),
                None => array_field(self@, name@) is None,
            },
    {
        broadcast use lemma_array_view;

        match self.get(name) {
            Some(JsonValue::Array(items)) => Some(items),
            _ => None,
        }
    }

    /// The value of a whole number.
    pub fn integer(n: i64) -> (r: JsonValue)
        ensures
            r@ == JsonView::Number(number_of(n as int)),
            json_encoding(r@) == int_text(n as int),
    {
        number_value(n as i128)
    }

    /// The value of a size.
    pub fn count(n: usize) -> (r: JsonValue)
        ensures
            r@ == JsonView::Number(number_of(n as int)),
            json_encoding(r@) == int_text(n as int),
    {
        number_value(n as i128)
    }

    /// The value of an optional whole number: null where there is none.
    pub fn opt_integer(n: Option<i64>) -> (r: JsonValue)
        ensures
            r@ == json_opt_int(opt_int(n)),
    {
        match n {
            Some(v) => JsonValue::integer(v),
            None => JsonValue::Null,
        }
    }

    /// The value of a string.
    pub fn text(s: &str) -> (r: JsonValue)
        ensures
            r@ == JsonView::String(s@),
    {
        JsonValue::String(s.to_owned())
    }

    /// The value of an optional string: null where there is none.
    pub fn opt_text(s: &Option<String>) -> (r: JsonValue)
        ensures
            r@ == json_opt(crate::text::opt_text(*s)),
    {
        match s {
            Some(t) => JsonValue::String(t.clone()),
            None => JsonValue::Null,
        }
    }

    /// The array of some strings.
    pub fn text_list(list: &[String]) -> (r: JsonValue)
        ensures
            r@ == json_texts(texts(list@)),
    {
        broadcast use lemma_array_view;

        let mut out: Vec<JsonValue> = Vec::new();
        let mut i: usize = 0;
        let ghost all = texts(list@).map_values(|t: Text| JsonView::String(t));
        while i < list.len()
            invariant
                0 <= i <= list@.len(),
                all == texts(list@).map_values(|t: Text| JsonView::String(t)),
                views(out@) == all.take(i as int),
            decreases list@.len() - i,
        {
            let item = JsonValue::String(list[i].clone());
            proof {
                assert(views(out@.push(item)) =~= views(out@).push(item@));
                assert(all.take(i + 1) =~= all.take(i as int).push(all[i as int]));
            }
            out.push(item);
            i += 1;
        }
        proof {
            assert(all.take(all.len() as int) =~= all);
        }
        JsonValue::Array(out)
    }
}

/// The value of an optional string: null where there is none.
pub open spec fn json_opt(s: Option<Text>) -> JsonView {
    match s {
        Some(t) => JsonView::String(t),
        None => JsonView::Null,
    }
}

/// The value of an optional whole number: null where there is none.
pub open spec fn json_opt_int(n: Option<int>) -> JsonView {
    match n {
        Some(v) => JsonView::Number(number_of(v)),
        None => JsonView::Null,
    }
}

/// The array of some strings.
pub open spec fn json_texts(list: Seq<Text>) -> JsonView {
    JsonView::Array(list.map_values(|t: Text| JsonView::String(t)))
}

/// Fields being collected for an object.
pub struct Fields {
    pub fields: Vec<(String, JsonValue)>,
}

impl View for Fields {
    type V = Seq<(Text, JsonView)>;

    open spec fn view(&self) -> Seq<(Text, JsonView)> {
        field_views(self.fields@)
    }
}

impl Fields {
    /// No fields yet.
    pub fn new() -> (r: Fields)
        ensures
            r@ == Seq::<(Text, JsonView)>::empty(),
    {
        let r = Fields { fields: Vec::new() };
        proof {
            assert(r@ =~= Seq::<(Text, JsonView)>::empty());
        }
        r
    }

    /// Adds a field at the end.
    pub fn add(&mut self, name: &str, value: JsonValue)
        ensures
            final(self)@ == old(self)@.push((name@, value@)),
    {
        let ghost before = self.fields@;
        let key = name.to_owned();
        proof {
            assert(field_views(before.push((key, value))) =~= field_views(before).push(
                (name@, value@),
            ));
        }
        self.fields.push((key, value));
    }

    /// The object of the fields.
    pub fn object(self) -> (r: JsonValue)
        ensures
            r@ == JsonView::Object(self@),
    {
        broadcast use lemma_object_view;

        JsonValue::Object(self.fields)
    }
}

/// A field whose name no field before it has is the one of that name.
pub proof fn lemma_field_at(fields: Seq<(Text, JsonView)>, i: int)
    requires
        0 <= i < fields.len(),
        forall|j: int| 0 <= j < i ==> (#[trigger] fields[j]).0 != fields[i].0,
    ensures
        named_field(fields, fields[i].0) == Some(fields[i].1),
    decreases i,
{
    if i > 0 {
        let rest = fields.skip(1);
        assert(fields[0].0 != fields[i].0);
        assert(rest[i - 1] == fields[i]);
        assert forall|j: int| 0 <= j < i - 1 implies (#[trigger] rest[j]).0 != rest[i - 1].0 by {
            assert(rest[j] == fields[j + 1]);
        }
        lemma_field_at(rest, i - 1);
    }
}

/// A name that no field has is not found.
proof fn lemma_no_field(fields: Seq<(Text, JsonView)>, name: Text)
    requires
        forall|j: int| 0 <= j < fields.len() ==> (#[trigger] fields[j]).0 != name,
    ensures
        named_field(fields, name) is None,
    decreases fields.len(),
{
    if fields.len() > 0 {
        let rest = fields.skip(1);
        assert(fields[0].0 != name);
        assert forall|j: int| 0 <= j < rest.len() implies (#[trigger] rest[j]).0 != name by {
            assert(rest[j] == fields[j + 1]);
        }
        lemma_no_field(rest, name);
    }
}

/// The field of a name among fields and one more behind them.
proof fn lemma_named_push(fields: Seq<(Text, JsonView)>, field: (Text, JsonView), name: Text)
    ensures
        named_field(fields.push(field), name) == (match named_field(fields, name) {
            Some(v) => Some(v),
            None => if field.0 == name {
                Some(field.1)
            } else {
                None
            },
        }),
    decreases fields.len(),
{
    let all = fields.push(field);
    if fields.len() == 0 {
        assert(all[0] == field);
        assert(all.skip(1) =~= Seq::<(Text, JsonView)>::empty());
        assert(named_field(all.skip(1), name) is None);
    } else {
        assert(all[0] == fields[0]);
        assert(all.skip(1) =~= fields.skip(1).push(field));
        lemma_named_push(fields.skip(1), field, name);
    }
}

/// Names that ascend differ.
proof fn lemma_ascending_differ(fields: Seq<(Text, JsonView)>, i: int, j: int)
    requires
        names_ascend(fields),
        0 <= i < j < fields.len(),
    ensures
        fields[i].0 != fields[j].0,
{
    assert(text_before(fields[i].0, fields[j].0));
    lemma_text_not_before_itself(fields[i].0);
}

proof fn lemma_put_is_found(fields: Seq<(Text, JsonView)>, field: (Text, JsonView), name: Text)
    requires
        names_ascend(fields),
    ensures
        named_field(put_field(fields, field), name) == (if name == field.0 {
            Some(field.1)
        } else {
            named_field(fields, name)
        }),
    decreases fields.len(),
{
    if fields.len() == 0 || text_before(fields.last().0, field.0) {
        lemma_named_push(fields, field, name);
        if name == field.0 {
            assert forall|j: int| 0 <= j < fields.len() implies (#[trigger] fields[j]).0 != name by {
                let last = fields[fields.len() - 1];
                if j < fields.len() - 1 {
                    assert(text_before(fields[j].0, last.0));
                    lemma_text_before_transitive(fields[j].0, last.0, name);
                }
                lemma_text_not_before_itself(name);
            }
            lemma_no_field(fields, name);
        }
    } else {
        let init = fields.drop_last();
        let last = fields[fields.len() - 1];
        assert(fields =~= init.push(last));
        assert(names_ascend(init)) by {
            assert forall|i: int, j: int| 0 <= i < j < init.len() implies text_before(
                (#[trigger] init[i]).0,
                (#[trigger] init[j]).0,
            ) by {
                assert(init[i] == fields[i] && init[j] == fields[j]);
            }
        }
        lemma_named_push(init, last, name);
        assert forall|j: int| 0 <= j < init.len() implies (#[trigger] init[j]).0 != last.0 by {
            lemma_ascending_differ(fields, j, fields.len() - 1);
            assert(init[j] == fields[j]);
        }
        lemma_no_field(init, last.0);
        if last.0 == field.0 {
            lemma_named_push(init, field, name);
        } else {
            lemma_put_is_found(init, field, name);
            lemma_named_push(put_field(init, field), last, name);
        }
    }
}

/// An object is written with each of its fields; of those with one name the last one counts.
pub proof fn law_last_field_of_a_name_is_written(fields: Seq<(Text, JsonView)>, i: int)
    requires
        0 <= i < fields.len(),
        forall|j: int| i < j < fields.len() ==> (#[trigger] fields[j]).0 != fields[i].0,
    ensures
        named_field(object_fields(fields), fields[i].0) == Some(fields[i].1),
    decreases fields.len(),
{
    let init = fields.drop_last();
    law_written_names_ascend(init);
    lemma_put_is_found(object_fields(init), fields.last(), fields[i].0);
    if i < fields.len() - 1 {
        assert(fields[fields.len() - 1].0 != fields[i].0);
        assert(init[i] == fields[i]);
        assert forall|j: int| i < j < init.len() implies (#[trigger] init[j]).0 != init[i].0 by {
            assert(init[j] == fields[j]);
        }
        law_last_field_of_a_name_is_written(init, i);
    }
}

/// No name is written that no field has.
pub proof fn law_no_other_field_is_written(fields: Seq<(Text, JsonView)>, name: Text)
    requires
        forall|j: int| 0 <= j < fields.len() ==> (#[trigger] fields[j]).0 != name,
    ensures
        named_field(object_fields(fields), name) is None,
    decreases fields.len(),
{
    if fields.len() > 0 {
        let init = fields.drop_last();
        law_written_names_ascend(init);
        lemma_put_is_found(object_fields(init), fields.last(), name);
        assert(fields[fields.len() - 1].0 != name);
        assert forall|j: int| 0 <= j < init.len() implies (#[trigger] init[j]).0 != name by {
            assert(init[j] == fields[j]);
        }
        law_no_other_field_is_written(init, name);
    }
}

/// A list is written element by element, a string as it is.
pub proof fn law_elements_are_written(items: Seq<JsonView>, i: int)
    requires
        0 <= i < items.len(),
    ensures
        normal(JsonView::Array(items)) is Array,
        normal(JsonView::Array(items))->Array_0.len() == items.len(),
        normal(JsonView::Array(items))->Array_0[i] == normal(items[i]),
        items[i] is String || items[i] is Number || items[i] is Bool || items[i] is Null ==> normal(
            items[i],
        ) == items[i],
    decreases items.len(),
{
    lemma_normal_items_at(items, i);
}

proof fn lemma_normal_items_at(items: Seq<JsonView>, i: int)
    requires
        0 <= i < items.len(),
    ensures
        normal_items(items).len() == items.len(),
        normal_items(items)[i] == normal(items[i]),
    decreases items.len(),
{
    let init = items.subrange(0, items.len() - 1);
    if init.len() > 0 {
        if i < init.len() {
            lemma_normal_items_at(init, i);
            assert(init[i] == items[i]);
        } else {
            lemma_normal_items_at(init, 0);
        }
    } else {
        assert(normal_items(init) =~= Seq::<JsonView>::empty());
    }
}

/// The strings of a list of strings are counted one by one; anything else counts as none.
pub proof fn law_strings_are_counted(v: JsonView)
    ensures
        v matches JsonView::Array(items) ==> (forall|i: int|
            0 <= i < items.len() ==> (#[trigger] items[i]) is String) ==> string_count(Some(v))
            == items.len(),
        v matches JsonView::Array(items) ==> (exists|i: int|
            0 <= i < items.len() && !((#[trigger] items[i]) is String)) ==> string_count(Some(v))
            == 0,
        !(v is Array) ==> string_count(Some(v)) == 0,
        string_count(None) == 0,
{
}

} // verus!
