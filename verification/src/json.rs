//! JSON values as the daemon's decisions read them: members by key, text
//! values, and deep copies.
use vstd::prelude::*;

use crate::text::same_text;

verus! {

/// A JSON value. A number is kept as its literal text, which no decision
/// reads but which is handed back unchanged.
#[derive(Debug)]
pub enum JsonValue {
    Null,
    Bool(bool),
    Number(String),
    Str(String),
    Array(Vec<JsonValue>),
    /// Members in order; keys are distinct.
    Object(Vec<(String, JsonValue)>),
}

/// A JSON value as the specifications see it.
pub enum JsonView {
    Null,
    Bool(bool),
    Number(Seq<char>),
    Str(Seq<char>),
    Array(Seq<JsonView>),
    Object(Seq<(Seq<char>, JsonView)>),
}

/// The view of a JSON value.
pub open spec fn json_view(v: JsonValue) -> JsonView
    decreases v, 1nat,
{
    match v {
        JsonValue::Null => JsonView::Null,
        JsonValue::Bool(b) => JsonView::Bool(b),
        JsonValue::Number(n) => JsonView::Number(n@),
        JsonValue::Str(s) => JsonView::Str(s@),
        JsonValue::Array(items) => JsonView::Array(items_view(items@)),
        JsonValue::Object(entries) => JsonView::Object(members_view(entries@)),
    }
}

/// The views of a list of JSON values.
pub open spec fn items_view(items: Seq<JsonValue>) -> Seq<JsonView>
    decreases items, 0nat,
{
    if items.len() == 0 {
        Seq::empty()
    } else {
        items_view(items.drop_last()).push(json_view(items.last()))
    }
}

/// The views of a list of object members.
pub open spec fn members_view(entries: Seq<(String, JsonValue)>) -> Seq<(Seq<char>, JsonView)>
    decreases entries, 0nat,
{
    if entries.len() == 0 {
        Seq::empty()
    } else {
        members_view(entries.drop_last()).push((entries.last().0@, json_view(entries.last().1)))
    }
}

/// The member `key` of an object's members.
pub open spec fn member(entries: Seq<(String, JsonValue)>, key: Seq<char>) -> Option<JsonValue>
    decreases entries.len(),
{
    if entries.len() == 0 {
        None
    } else if entries[0].0@ == key {
        Some(entries[0].1)
    } else {
        member(entries.drop_first(), key)
    }
}

/// The member `key` of a value, when it is an object that has one.
pub open spec fn field(v: Option<JsonValue>, key: Seq<char>) -> Option<JsonValue> {
    match v {
        Some(JsonValue::Object(entries)) => member(entries@, key),
        _ => None,
    }
}

/// The text of a value, when it is a string.
pub open spec fn text_of(v: Option<JsonValue>) -> Option<Seq<char>> {
    match v {
        Some(JsonValue::Str(s)) => Some(s@),
        _ => None,
    }
}

/// The text of a value, or empty when it is not a string.
pub open spec fn text_or_empty(v: Option<JsonValue>) -> Seq<char> {
    match text_of(v) {
        Some(t) => t,
        None => Seq::empty(),
    }
}

/// The member `key` of a value, when it is an object that has one.
pub fn get_field<'a>(v: Option<&'a JsonValue>, key: &str) -> (r: Option<&'a JsonValue>)
    ensures
        match r {
            Some(x) => field(match v {
                Some(y) => Some(*y),
                None => None,
            }, key@) == Some(*x),
            None => field(match v {
                Some(y) => Some(*y),
                None => None,
            }, key@) is None,
        },
{
    match v {
        Some(JsonValue::Object(entries)) => {
            let ghost fv = field(match v {
                Some(y) => Some(*y),
                None => None,
            }, key@);
            assert(fv == member(entries@, key@));
            let mut i: usize = 0;
            assert(entries@.skip(0) =~= entries@);
            while i < entries.len()
                invariant
                    i <= entries.len(),
                    fv == member(entries@.skip(i as int), key@),
                    fv == field(match v {
                        Some(y) => Some(*y),
                        None => None,
                    }, key@),
                decreases entries.len() - i,
            {
                assert(entries@.skip(i as int).drop_first() =~= entries@.skip(i as int + 1));
                assert(entries@.skip(i as int)[0] == entries@[i as int]);
                if same_text(entries[i].0.as_str(), key) {
                    return Some(&entries[i].1);
                }
                i = i + 1;
            }
            None
        },
        _ => None,
    }
}

/// The text of a value, when it is a string.
pub fn get_text<'a>(v: Option<&'a JsonValue>) -> (r: Option<&'a String>)
    ensures
        match r {
            Some(s) => text_of(match v {
                Some(y) => Some(*y),
                None => None,
            }) == Some(s@),
            None => text_of(match v {
                Some(y) => Some(*y),
                None => None,
            }) is None,
        },
{
    match v {
        Some(JsonValue::Str(s)) => Some(s),
        _ => None,
    }
}

pub fn text_or_blank(v: Option<&JsonValue>) -> (r: String)
    ensures
        r@ == text_or_empty(match v {
            Some(y) => Some(*y),
            None => None,
        }),
{
    match get_text(v) {
        Some(s) => s.clone(),
        None => String::new(),
    }
}

/// Whether a value is a string equal to `t`.
pub fn text_is(v: Option<&JsonValue>, t: &str) -> (r: bool)
    ensures
        r == (text_of(match v {
            Some(y) => Some(*y),
            None => None,
        }) == Some(t@)),
{
    match get_text(v) {
        Some(s) => same_text(s.as_str(), t),
        None => false,
    }
}

impl JsonValue {
    /// A deep copy of the value.
    pub fn duplicate(&self) -> (r: JsonValue)
        ensures
            json_view(r) == json_view(*self),
        decreases *self,
    {
        match self {
            JsonValue::Null => JsonValue::Null,
            JsonValue::Bool(b) => JsonValue::Bool(*b),
            JsonValue::Number(n) => JsonValue::Number(n.clone()),
            JsonValue::Str(s) => JsonValue::Str(s.clone()),
            JsonValue::Array(items) => {
                let mut v: Vec<JsonValue> = Vec::new();
                let mut i: usize = 0;
                while i < items.len()
                    invariant
                        i <= items.len(),
                        *self == JsonValue::Array(*items),
                        items_view(v@) == items_view(items@.take(i as int)),
                    decreases items.len() - i,
                {
                    proof {
                        vstd::std_specs::vec::axiom_vec_index_decreases(*items, i as int);
                        assert(decreases_to!(*self => (*self)->Array_0));
                        assert(decreases_to!(*self => items[i as int]));
                    }
                    let x = items[i].duplicate();
                    let ghost before = v@;
                    v.push(x);
                    assert(v@.drop_last() =~= before);
                    assert(items@.take(i as int + 1).drop_last() =~= items@.take(i as int));
                    i = i + 1;
                }
                assert(items@.take(i as int) =~= items@);
                JsonValue::Array(v)
            },
            JsonValue::Object(entries) => {
                let mut v: Vec<(String, JsonValue)> = Vec::new();
                let mut i: usize = 0;
                while i < entries.len()
                    invariant
                        i <= entries.len(),
                        *self == JsonValue::Object(*entries),
                        members_view(v@) == members_view(entries@.take(i as int)),
                    decreases entries.len() - i,
                {
                    proof {
                        vstd::std_specs::vec::axiom_vec_index_decreases(*entries, i as int);
                        assert(decreases_to!(*self => (*self)->Object_0));
                        assert(decreases_to!(*self => entries[i as int]));
                        assert(decreases_to!(*self => entries[i as int].1));
                    }
                    let x = entries[i].1.duplicate();
                    let k = entries[i].0.clone();
                    let ghost before = v@;
                    v.push((k, x));
                    assert(v@.drop_last() =~= before);
                    assert(entries@.take(i as int + 1).drop_last() =~= entries@.take(i as int));
                    i = i + 1;
                }
                assert(entries@.take(i as int) =~= entries@);
                JsonValue::Object(v)
            },
        }
    }
}

// ---------------------------------------------------------------------------
// Reading by view
// ---------------------------------------------------------------------------

/// The view of an optional JSON value.
pub open spec fn opt_json_view(v: Option<JsonValue>) -> Option<JsonView> {
    match v {
        Some(x) => Some(json_view(x)),
        None => None,
    }
}

/// The views of a list are the views of its items, one for one.
pub proof fn lemma_items_view_index(items: Seq<JsonValue>)
    ensures
        items_view(items).len() == items.len(),
        forall|i: int| 0 <= i < items.len() ==> #[trigger] items_view(items)[i] == json_view(items[i]),
    decreases items.len(),
{
    if items.len() > 0 {
        lemma_items_view_index(items.drop_last());
    }
}

/// The views of an object's members are its members' keys and views, one
/// for one.
pub proof fn lemma_members_view_index(entries: Seq<(String, JsonValue)>)
    ensures
        members_view(entries).len() == entries.len(),
        forall|i: int|
            0 <= i < entries.len() ==> #[trigger] members_view(entries)[i] == (entries[i].0@, json_view(entries[i].1)),
    decreases entries.len(),
{
    if entries.len() > 0 {
        lemma_members_view_index(entries.drop_last());
    }
}

/// Members with the same views have members of the same view under each
/// key.
pub proof fn lemma_member_by_view(a: Seq<(String, JsonValue)>, b: Seq<(String, JsonValue)>, key: Seq<char>)
    requires
        members_view(a) == members_view(b),
    ensures
        opt_json_view(member(a, key)) == opt_json_view(member(b, key)),
    decreases a.len(),
{
    lemma_members_view_index(a);
    lemma_members_view_index(b);
    if a.len() > 0 {
        assert(members_view(a)[0] == members_view(b)[0]);
        if a[0].0@ != key {
            lemma_members_view_index(a.drop_first());
            lemma_members_view_index(b.drop_first());
            assert forall|i: int| 0 <= i < a.len() - 1 implies members_view(a.drop_first())[i] == members_view(
                b.drop_first(),
            )[i] by {
                assert(members_view(a)[i + 1] == members_view(b)[i + 1]);
            }
            assert(members_view(a.drop_first()) =~= members_view(b.drop_first()));
            lemma_member_by_view(a.drop_first(), b.drop_first(), key);
        }
    }
}

/// Values of the same view have members of the same view, and the same
/// text.
pub proof fn lemma_field_by_view(a: Option<JsonValue>, b: Option<JsonValue>, key: Seq<char>)
    requires
        opt_json_view(a) == opt_json_view(b),
    ensures
        opt_json_view(field(a, key)) == opt_json_view(field(b, key)),
        text_of(a) == text_of(b),
{
    match (a, b) {
        (Some(JsonValue::Object(ea)), Some(JsonValue::Object(eb))) => {
            lemma_member_by_view(ea@, eb@, key);
        },
        _ => {},
    }
}

// ---------------------------------------------------------------------------
// Reading JSON text
// ---------------------------------------------------------------------------

#[verifier::external_type_specification]
#[verifier::external_body]
pub struct ExSerdeValue(serde_json::Value);

/// The JSON value that `serde_json::from_str::<serde_json::Value>` reads
/// from a text (a number kept as the text `serde_json` writes it); `None`
/// where the text is not JSON.
pub uninterp spec fn json_of_text(text: Seq<char>) -> Option<JsonView>;

/// What a `serde_json::Value` holds, as a JSON view (a number as the text
/// `serde_json` writes it, an object's members in the order the value
/// iterates them).
pub uninterp spec fn value_view(v: serde_json::Value) -> JsonView;

/// The top level of a `serde_json::Value`, with its items still values.
#[derive(Debug)]
pub enum ValueParts {
    Null,
    Bool(bool),
    Number(String),
    Str(String),
    Array(Vec<serde_json::Value>),
    Object(Vec<(String, serde_json::Value)>),
}

/// The views of a list of `serde_json` values.
pub open spec fn values_view(vs: Seq<serde_json::Value>) -> Seq<JsonView> {
    vs.map_values(|x: serde_json::Value| value_view(x))
}

/// The views of a list of `serde_json` object members.
pub open spec fn value_members_view(ms: Seq<(String, serde_json::Value)>) -> Seq<(Seq<char>, JsonView)> {
    ms.map_values(|p: (String, serde_json::Value)| (p.0@, value_view(p.1)))
}

/// Calls `serde_json::from_str::<serde_json::Value>`; what it reads is
/// named by `json_of_text`, a function of the text alone.
#[verifier::external_body]
fn parse_value(text: &str) -> (r: Option<serde_json::Value>)
    ensures
        match r {
            Some(v) => json_of_text(text@) == Some(value_view(v)),
            None => json_of_text(text@) is None,
        },
{
    serde_json::from_str::<serde_json::Value>(text).ok()
}

/// Takes a `serde_json::Value` apart one level, variant for variant: a
/// number is written with its `Display` (`to_string`), an object's map is
/// turned into its members in iteration order.
#[verifier::external_body]
fn value_parts(v: serde_json::Value) -> (r: ValueParts)
    ensures
        match r {
            ValueParts::Null => value_view(v) == JsonView::Null,
            ValueParts::Bool(b) => value_view(v) == JsonView::Bool(b),
            ValueParts::Number(n) => value_view(v) == JsonView::Number(n@),
            ValueParts::Str(t) => value_view(v) == JsonView::Str(t@),
            ValueParts::Array(items) => value_view(v) == JsonView::Array(values_view(items@)),
            ValueParts::Object(ms) => value_view(v) == JsonView::Object(value_members_view(ms@)),
        },
{
    match v {
        serde_json::Value::Null => ValueParts::Null,
        serde_json::Value::Bool(b) => ValueParts::Bool(b),
        serde_json::Value::Number(n) => ValueParts::Number(n.to_string()),
        serde_json::Value::String(t) => ValueParts::Str(t),
        serde_json::Value::Array(items) => ValueParts::Array(items),
        serde_json::Value::Object(m) => ValueParts::Object(m.into_iter().collect()),
    }
}

/// Converts a `serde_json` value into the library's JSON value.
fn json_from_value(v: serde_json::Value) -> (r: JsonValue)
    ensures
        json_view(r) == value_view(v),
    decreases value_view(v),
{
    let ghost vv = value_view(v);
    match value_parts(v) {
        ValueParts::Null => JsonValue::Null,
        ValueParts::Bool(b) => JsonValue::Bool(b),
        ValueParts::Number(n) => JsonValue::Number(n),
        ValueParts::Str(t) => JsonValue::Str(t),
        ValueParts::Array(items) => {
            let ghost orig = items@;
            let mut rest = items;
            let total = rest.len();
            let mut out: Vec<JsonValue> = Vec::new();
            let mut k: usize = 0;
            while rest.len() > 0
                invariant
                    vv == value_view(v),
                    vv == JsonView::Array(values_view(orig)),
                    k <= orig.len() == total,
                    rest@ == orig.skip(k as int),
                    items_view(out@) == values_view(orig.take(k as int)),
                decreases rest@.len(),
            {
                let ghost r0 = rest@;
                let x = rest.remove(0);
                proof {
                    assert(x == orig[k as int]);
                    assert(values_view(orig)[k as int] == value_view(x));
                    assert(decreases_to!(vv => vv->Array_0));
                    assert(decreases_to!(vv => value_view(x)));
                }
                let j = json_from_value(x);
                let ghost before = out@;
                out.push(j);
                assert(out@.drop_last() =~= before);
                assert(values_view(orig.take(k as int + 1)) =~= values_view(orig.take(k as int)).push(value_view(x)));
                assert(rest@ =~= orig.skip(k as int + 1));
                k = k + 1;
            }
            assert(orig.take(k as int) =~= orig);
            JsonValue::Array(out)
        },
        ValueParts::Object(ms) => {
            let ghost orig = ms@;
            let mut rest = ms;
            let total = rest.len();
            let mut out: Vec<(String, JsonValue)> = Vec::new();
            let mut k: usize = 0;
            while rest.len() > 0
                invariant
                    vv == value_view(v),
                    vv == JsonView::Object(value_members_view(orig)),
                    k <= orig.len() == total,
                    rest@ == orig.skip(k as int),
                    members_view(out@) == value_members_view(orig.take(k as int)),
                decreases rest@.len(),
            {
                let (key, x) = rest.remove(0);
                proof {
                    assert((key, x) == orig[k as int]);
                    assert(value_members_view(orig)[k as int] == (key@, value_view(x)));
                    assert(decreases_to!(vv => vv->Object_0));
                    assert(decreases_to!(vv => value_members_view(orig)[k as int]));
                    assert(decreases_to!(vv => value_members_view(orig)[k as int].1));
                    assert(decreases_to!(vv => value_view(x)));
                }
                let ghost kv = key@;
                let j = json_from_value(x);
                let ghost before = out@;
                out.push((key, j));
                assert(out@.drop_last() =~= before);
                assert(value_members_view(orig.take(k as int + 1)) =~= value_members_view(orig.take(k as int)).push(
                    (kv, value_view(x)),
                ));
                assert(rest@ =~= orig.skip(k as int + 1));
                k = k + 1;
            }
            assert(orig.take(k as int) =~= orig);
            JsonValue::Object(out)
        },
    }
}

/// Reads a JSON text into the library's JSON value; `None` where the text
/// is not JSON.
pub fn parse_json_text(text: &str) -> (r: Option<JsonValue>)
    ensures
        match r {
            Some(j) => json_of_text(text@) == Some(json_view(j)),
            None => json_of_text(text@) is None,
        },
{
    match parse_value(text) {
        Some(v) => Some(json_from_value(v)),
        None => None,
    }
}

} // verus!
