//! JSON values: read out of octets and written as text by `serde_json`, held here as plain data.
use serde_json::Value;
use vstd::prelude::*;

use crate::mic::Reading;
use crate::text;

verus! {

/// The JSON value of `serde_json`.
#[verifier::external_type_specification]
#[verifier::external_body]
pub struct ExValue(serde_json::Value);

/// A JSON value. The members of an object stand in the order in which `serde_json` walks them.
#[verifier::ext_equal]
pub enum JsonModel {
    Null,
    Bool(bool),
    Number(Reading),
    Text(Seq<char>),
    List(Seq<JsonModel>),
    Object(Seq<(Seq<char>, JsonModel)>),
}

/// What a value of `serde_json` holds.
pub uninterp spec fn contents(v: serde_json::Value) -> JsonModel;

/// What `serde_json::from_slice` reads out of octets, as a value without a schema.
pub uninterp spec fn json_read(octets: Seq<u8>) -> Option<JsonModel>;

/// Calls `serde_json::from_slice` for a `Value`. The outcome depends on the octets alone; which
/// octets are JSON is left unsaid.
#[verifier::external_body]
fn from_slice(octets: &[u8]) -> (r: Option<Value>)
    ensures
        match r {
            Some(v) => json_read(octets@) == Some(contents(v)),
            None => json_read(octets@) is None,
        },
{
    match serde_json::from_slice::<Value>(octets) {
        Ok(v) => Some(v),
        Err(_) => None,
    }
}

/// One layer of a value of `serde_json`. A number comes as `as_u64`, `as_i64` and the bits of
/// `as_f64` give it.
enum Layer<'a> {
    Null,
    Bool(bool),
    Number(Option<u64>, Option<i64>, Option<u64>),
    Text(&'a String),
    List(&'a Vec<Value>),
    Object(Vec<(&'a String, &'a Value)>),
}

/// Tells the variants of a `serde_json::Value` apart. The members of an object come in the order in
/// which `Map::iter` walks them. A number that is not negative is a `u64`; one that is negative is
/// an `i64` and no `u64`; one with a fraction or an exponent, or out of their range, is neither, and
/// `as_f64` gives it.
#[verifier::external_body]
fn layer<'a>(v: &'a Value) -> (r: Layer<'a>)
    ensures
        match contents(*v) {
            JsonModel::Null => r is Null,
            JsonModel::Bool(b) => r == Layer::Bool(b),
            JsonModel::Number(Reading::Unsigned(n)) => r is Number && r->Number_0 == Some(n),
            JsonModel::Number(Reading::Signed(n)) => r is Number && r->Number_0 is None
                && r->Number_1 == Some(n),
            JsonModel::Number(Reading::Float(n)) => r is Number && r->Number_0 is None
                && r->Number_1 is None && r->Number_2 == Some(n),
            JsonModel::Text(t) => r is Text && r->Text_0@ == t,
            JsonModel::List(items) => r is List && items == r->List_0@.map_values(
                |x: Value| contents(x),
            ),
            JsonModel::Object(members) => r is Object && members == r->Object_0@.map_values(
                |m: (&String, &Value)| (m.0@, contents(*m.1)),
            ),
        },
{
    match v {
        Value::Null => Layer::Null,
        Value::Bool(b) => Layer::Bool(*b),
        Value::Number(n) => {
            Layer::Number(n.as_u64(), n.as_i64(), n.as_f64().map(|x| x.to_bits()))
        },
        Value::String(s) => Layer::Text(s),
        Value::Array(a) => Layer::List(a),
        Value::Object(o) => Layer::Object(o.iter().collect()),
    }
}

/// Makes `Value::Null`.
#[verifier::external_body]
pub(crate) fn null() -> (r: Value)
    ensures
        contents(r) == JsonModel::Null,
{
    Value::Null
}

/// Makes a `Value::Bool`.
#[verifier::external_body]
pub(crate) fn boolean(b: bool) -> (r: Value)
    ensures
        contents(r) == JsonModel::Bool(b),
{
    Value::Bool(b)
}

/// Calls `Value::from` for a `u64`.
#[verifier::external_body]
pub(crate) fn unsigned(n: u64) -> (r: Value)
    ensures
        contents(r) == JsonModel::Number(Reading::Unsigned(n)),
{
    Value::from(n)
}

/// Makes a `Value::Array`.
#[verifier::external_body]
pub(crate) fn list(items: Vec<Value>) -> (r: Value)
    ensures
        contents(r) == JsonModel::List(items@.map_values(|x: Value| contents(x))),
{
    Value::Array(items)
}

/// Whether a text stands before another in the order of its characters' code points, which is the
/// order of `String`.
pub open spec fn text_less(a: Seq<char>, b: Seq<char>) -> bool
    decreases a.len(),
{
    if b.len() == 0 {
        false
    } else if a.len() == 0 {
        true
    } else if a[0] != b[0] {
        a[0] < b[0]
    } else {
        text_less(a.skip(1), b.skip(1))
    }
}

/// Whether each key stands before the next.
pub open spec fn ascending(members: Seq<(String, Value)>) -> bool {
    forall|i: int, j: int|
        0 <= i && j == i + 1 && j < members.len() ==> text_less(
            (#[trigger] members[i]).0@,
            (#[trigger] members[j]).0@,
        )
}

/// Collects members into a `serde_json::Map` and makes a `Value::Object` of it. A map walks its
/// members by ascending key, so members that come in that order keep it.
#[verifier::external_body]
pub(crate) fn object(members: Vec<(String, Value)>) -> (r: Value)
    requires
        ascending(members@),
    ensures
        contents(r) == JsonModel::Object(
            members@.map_values(|m: (String, Value)| (m.0@, contents(m.1))),
        ),
{
    Value::Object(members.into_iter().collect())
}

/// Whether a text is written without escapes: it holds no control character, no quote and no
/// backslash.
pub open spec fn plain_text(t: Seq<char>) -> bool {
    forall|i: int| 0 <= i < t.len() ==> (#[trigger] t[i]) >= ' ' && t[i] != '"' && t[i] != '\\'
}

/// Whether a value is made of plain texts and of numbers that are whole and not negative.
pub open spec fn plain(v: JsonModel) -> bool
    decreases v,
{
    match v {
        JsonModel::Null | JsonModel::Bool(_) => true,
        JsonModel::Number(n) => n is Unsigned,
        JsonModel::Text(t) => plain_text(t),
        JsonModel::List(items) => forall|i: int| 0 <= i < items.len() ==> plain(#[trigger] items[i]),
        JsonModel::Object(members) => forall|i: int|
            0 <= i < members.len() ==> plain_text((#[trigger] members[i]).0) && plain(members[i].1),
    }
}

/// A plain text between quotes.
pub open spec fn quoted(t: Seq<char>) -> Seq<char> {
    seq!['"'] + t + seq!['"']
}

/// How a plain value is written, without a space.
pub open spec fn spelled(v: JsonModel) -> Seq<char>
    decreases v,
{
    match v {
        JsonModel::Null => "null"@,
        JsonModel::Bool(b) => if b {
            "true"@
        } else {
            "false"@
        },
        JsonModel::Number(n) => text::decimal(n->Unsigned_0 as nat),
        JsonModel::Text(t) => quoted(t),
        JsonModel::List(items) => seq!['['] + spelled_items(items) + seq![']'],
        JsonModel::Object(members) => seq!['{'] + spelled_members(members) + seq!['}'],
    }
}

/// The items of a list, with commas between them.
pub open spec fn spelled_items(items: Seq<JsonModel>) -> Seq<char>
    decreases items,
{
    if items.len() == 0 {
        seq![]
    } else {
        spelled_items(items.drop_last()) + (if items.len() > 1 {
            seq![',']
        } else {
            seq![]
        }) + spelled(items.last())
    }
}

/// The members of an object, with commas between them.
pub open spec fn spelled_members(members: Seq<(Seq<char>, JsonModel)>) -> Seq<char>
    decreases members,
{
    if members.len() == 0 {
        seq![]
    } else {
        spelled_members(members.drop_last()) + (if members.len() > 1 {
            seq![',']
        } else {
            seq![]
        }) + quoted(members.last().0) + seq![':'] + spelled(members.last().1)
    }
}

/// Calls `to_string` of a `serde_json::Value`, which writes the compact format: no spaces, commas
/// between items and between members, a colon behind a key. Of a value that is not plain, the
/// spelling is left unsaid.
#[verifier::external_body]
pub(crate) fn to_text(v: &Value) -> (r: String)
    requires
        plain(contents(*v)),
    ensures
        r@ == spelled(contents(*v)),
{
    v.to_string()
}

/// A JSON value, as plain data.
#[derive(Debug, PartialEq, Eq)]
pub enum Json {
    Null,
    Bool(bool),
    Number(Reading),
    Text(String),
    List(Vec<Json>),
    Object(Vec<(String, Json)>),
}

/// A [`Json`], its texts and lists as sequences.
pub open spec fn model(j: Json) -> JsonModel
    decreases j,
{
    match j {
        Json::Null => JsonModel::Null,
        Json::Bool(b) => JsonModel::Bool(b),
        Json::Number(n) => JsonModel::Number(n),
        Json::Text(t) => JsonModel::Text(t@),
        Json::List(items) => JsonModel::List(item_models(items@)),
        Json::Object(members) => JsonModel::Object(member_models(members@)),
    }
}

/// The models of the items of a list.
pub open spec fn item_models(items: Seq<Json>) -> Seq<JsonModel>
    decreases items,
{
    if items.len() == 0 {
        seq![]
    } else {
        item_models(items.drop_last()).push(model(items.last()))
    }
}

/// The models of the members of an object.
pub open spec fn member_models(members: Seq<(String, Json)>) -> Seq<(Seq<char>, JsonModel)>
    decreases members,
{
    if members.len() == 0 {
        seq![]
    } else {
        member_models(members.drop_last()).push((members.last().0@, model(members.last().1)))
    }
}

impl View for Json {
    type V = JsonModel;

    open spec fn view(&self) -> JsonModel {
        model(*self)
    }
}

/// Item by item, a list of models is what the items' own models are.
pub proof fn items_have_their_models(items: Seq<Json>)
    ensures
        item_models(items).len() == items.len(),
        forall|i: int| 0 <= i < items.len() ==> #[trigger] item_models(items)[i] == items[i]@,
    decreases items.len(),
{
    if items.len() > 0 {
        items_have_their_models(items.drop_last());
    }
}

/// Member by member, a list of models is what the members' own models are.
pub proof fn members_have_their_models(members: Seq<(String, Json)>)
    ensures
        member_models(members).len() == members.len(),
        forall|i: int|
            0 <= i < members.len() ==> #[trigger] member_models(members)[i] == (
                members[i].0@,
                members[i].1@,
            ),
    decreases members.len(),
{
    if members.len() > 0 {
        members_have_their_models(members.drop_last());
    }
}

fn to_json(v: &Value) -> (r: Json)
    ensures
        r@ == contents(*v),
    decreases contents(*v),
{
    match layer(v) {
        Layer::Null => Json::Null,
        Layer::Bool(b) => Json::Bool(b),
        Layer::Number(whole, signed, float) => {
            if let Some(n) = whole {
                Json::Number(Reading::Unsigned(n))
            } else if let Some(n) = signed {
                Json::Number(Reading::Signed(n))
            } else if let Some(n) = float {
                Json::Number(Reading::Float(n))
            } else {
                Json::Null
            }
        },
        Layer::Text(t) => Json::Text(t.clone()),
        Layer::List(list) => {
            let ghost items = contents(*v)->List_0;
            let mut out: Vec<Json> = Vec::new();
            let mut i: usize = 0;
            while i < list.len()
                invariant
                    i <= list.len(),
                    contents(*v) == JsonModel::List(items),
                    items == list@.map_values(|x: Value| contents(x)),
                    item_models(out@) =~= items.take(i as int),
                decreases list.len() - i,
            {
                let ghost before = out@;
                assert(items[i as int] == contents(list@[i as int]));
                assert(decreases_to!(contents(*v) => contents(*v)->List_0));
                assert(decreases_to!(items => items[i as int]));
                let item = to_json(&list[i]);
                out.push(item);
                assert(out@.drop_last() =~= before);
                assert(items.take(i + 1) =~= items.take(i as int).push(items[i as int]));
                i = i + 1;
            }
            assert(items.take(i as int) =~= items);
            Json::List(out)
        },
        Layer::Object(entries) => {
            let ghost members = contents(*v)->Object_0;
            let mut out: Vec<(String, Json)> = Vec::new();
            let mut i: usize = 0;
            while i < entries.len()
                invariant
                    i <= entries.len(),
                    contents(*v) == JsonModel::Object(members),
                    members == entries@.map_values(
                        |m: (&String, &Value)| (m.0@, contents(*m.1)),
                    ),
                    member_models(out@) =~= members.take(i as int),
                decreases entries.len() - i,
            {
                let ghost before = out@;
                assert(members[i as int].1 == contents(*entries@[i as int].1));
                assert(decreases_to!(contents(*v) => contents(*v)->Object_0));
                assert(decreases_to!(members => members[i as int]));
                assert(decreases_to!(members[i as int] => members[i as int].1));
                let value = to_json(entries[i].1);
                out.push((entries[i].0.clone(), value));
                assert(out@.drop_last() =~= before);
                assert(members.take(i + 1) =~= members.take(i as int).push(members[i as int]));
                i = i + 1;
            }
            assert(members.take(i as int) =~= members);
            Json::Object(out)
        },
    }
}

/// Reads a JSON value out of octets; `None` where they are none.
pub fn parse_json(octets: &[u8]) -> (r: Option<Json>)
    ensures
        match r {
            Some(j) => json_read(octets@) == Some(j@),
            None => json_read(octets@) is None,
        },
{
    match from_slice(octets) {
        Some(v) => Some(to_json(&v)),
        None => None,
    }
}

// ---------------------------------------------------------------------------
// Laws
// ---------------------------------------------------------------------------

/// How values are written: the three words, numbers in decimal, texts between quotes, lists between
/// square brackets and objects between curly ones, with commas between what they hold and a colon behind
/// each key.
pub proof fn values_are_written_so(
    n: u64,
    t: Seq<char>,
    key: Seq<char>,
    v: JsonModel,
    items: Seq<JsonModel>,
    members: Seq<(Seq<char>, JsonModel)>,
)
    ensures
        spelled(JsonModel::Null) == seq!['n', 'u', 'l', 'l'],
        spelled(JsonModel::Bool(true)) == seq!['t', 'r', 'u', 'e'],
        spelled(JsonModel::Bool(false)) == seq!['f', 'a', 'l', 's', 'e'],
        spelled(JsonModel::Number(Reading::Unsigned(n))) == text::decimal(n as nat),
        spelled(JsonModel::Text(t)) == seq!['"'] + t + seq!['"'],
        spelled(JsonModel::List(seq![])) == seq!['[', ']'],
        spelled(JsonModel::Object(seq![])) == seq!['{', '}'],
        spelled(JsonModel::List(seq![v])) == seq!['['] + spelled(v) + seq![']'],
        spelled(JsonModel::Object(seq![(key, v)])) == seq!['{', '"'] + key + seq!['"', ':']
            + spelled(v) + seq!['}'],
        items.len() > 0 ==> spelled(JsonModel::List(items.push(v))) == spelled(
            JsonModel::List(items),
        ).drop_last() + seq![','] + spelled(v) + seq![']'],
        members.len() > 0 ==> spelled(JsonModel::Object(members.push((key, v)))) == spelled(
            JsonModel::Object(members),
        ).drop_last() + seq![',', '"'] + key + seq!['"', ':'] + spelled(v) + seq!['}'],
{
    reveal_strlit("null");
    reveal_strlit("true");
    reveal_strlit("false");
    reveal_with_fuel(spelled, 3);
    reveal_with_fuel(spelled_items, 3);
    reveal_with_fuel(spelled_members, 3);
    assert("null"@ =~= seq!['n', 'u', 'l', 'l']);
    assert("true"@ =~= seq!['t', 'r', 'u', 'e']);
    assert("false"@ =~= seq!['f', 'a', 'l', 's', 'e']);
    let none = Seq::<char>::empty();
    assert(seq!['['] + none + seq![']'] =~= seq!['[', ']']);
    assert(seq!['{'] + none + seq!['}'] =~= seq!['{', '}']);
    assert(seq![v].drop_last() =~= Seq::<JsonModel>::empty());
    assert(seq![(key, v)].drop_last() =~= Seq::<(Seq<char>, JsonModel)>::empty());
    assert(spelled_items(seq![v]) =~= spelled(v));
    assert(spelled_members(seq![(key, v)]) =~= quoted(key) + seq![':'] + spelled(v));
    assert(spelled(JsonModel::Object(seq![(key, v)])) =~= seq!['{', '"'] + key + seq!['"', ':']
        + spelled(v) + seq!['}']);
    if items.len() > 0 {
        assert(items.push(v).drop_last() =~= items);
        assert(spelled(JsonModel::List(items)).drop_last() =~= seq!['['] + spelled_items(items));
        assert(spelled(JsonModel::List(items.push(v))) =~= spelled(
            JsonModel::List(items),
        ).drop_last() + seq![','] + spelled(v) + seq![']']);
    }
    if members.len() > 0 {
        assert(members.push((key, v)).drop_last() =~= members);
        assert(spelled(JsonModel::Object(members)).drop_last() =~= seq!['{'] + spelled_members(
            members,
        ));
        assert(spelled(JsonModel::Object(members.push((key, v)))) =~= spelled(
            JsonModel::Object(members),
        ).drop_last() + seq![',', '"'] + key + seq!['"', ':'] + spelled(v) + seq!['}']);
    }
}

/// Texts are ordered by the first character in which they differ, and one that another begins with
/// stands before it; no text stands before itself.
pub proof fn texts_are_ordered_by_their_first_difference(
    common: Seq<char>,
    a: char,
    b: char,
    first: Seq<char>,
    second: Seq<char>,
)
    requires
        a != b,
    ensures
        text_less(common + seq![a] + first, common + seq![b] + second) <==> a < b,
        text_less(common, common + seq![b] + second),
        !text_less(common + seq![b] + second, common),
        !text_less(common, common),
    decreases common.len(),
{
    let x = common + seq![a] + first;
    let y = common + seq![b] + second;
    if common.len() > 0 {
        let less = common.skip(1);
        texts_are_ordered_by_their_first_difference(less, a, b, first, second);
        assert(x.skip(1) =~= less + seq![a] + first);
        assert(y.skip(1) =~= less + seq![b] + second);
        assert(x[0] == common[0] && y[0] == common[0]);
    } else {
        assert(x[0] == a && y[0] == b);
    }
}

} // verus!
