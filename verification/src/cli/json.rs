//! JSON documents, as values: what `--json` output holds, laid out by the library and
//! written out by the program.
use vstd::prelude::*;

verus! {

/// A JSON document.
#[derive(Debug)]
pub enum JsonDoc {
    Null,
    Bool(bool),
    Num(u64),
    Str(String),
    Arr(Vec<JsonDoc>),
    Obj(Vec<(String, JsonDoc)>),
}

/// The value of a JSON document.
pub enum Json {
    Null,
    Bool(bool),
    Num(nat),
    Str(Seq<char>),
    Arr(Seq<Json>),
    Obj(Seq<(Seq<char>, Json)>),
}

/// The value of a JSON document.
pub open spec fn json_view(d: JsonDoc) -> Json
    decreases d, 0nat,
{
    match d {
        JsonDoc::Null => Json::Null,
        JsonDoc::Bool(b) => Json::Bool(b),
        JsonDoc::Num(n) => Json::Num(n as nat),
        JsonDoc::Str(s) => Json::Str(s@),
        JsonDoc::Arr(v) => {
            proof {
                assert(decreases_to!(v => v@));
            }
            Json::Arr(json_list(v@))
        },
        JsonDoc::Obj(v) => {
            proof {
                assert(decreases_to!(v => v@));
            }
            Json::Obj(json_fields(v@))
        },
    }
}

/// The values of a list of JSON documents.
pub open spec fn json_list(s: Seq<JsonDoc>) -> Seq<Json>
    decreases s, s.len(),
{
    if s.len() == 0 {
        seq![]
    } else {
        proof {
            assert(decreases_to!(s => s[s.len() - 1]));
        }
        json_list(s.drop_last()).push(json_view(s[s.len() - 1]))
    }
}

/// The values of the fields of a JSON object.
pub open spec fn json_fields(s: Seq<(String, JsonDoc)>) -> Seq<(Seq<char>, Json)>
    decreases s, s.len(),
{
    if s.len() == 0 {
        seq![]
    } else {
        proof {
            assert(decreases_to!(s => s[s.len() - 1]));
            assert(decreases_to!(s[s.len() - 1] => s[s.len() - 1].1));
        }
        json_fields(s.drop_last()).push((s[s.len() - 1].0@, json_view(s[s.len() - 1].1)))
    }
}

/// Add a field to the fields of an object under construction.
pub fn push_field(fields: &mut Vec<(String, JsonDoc)>, key: &str, value: JsonDoc)
    ensures
        json_fields(final(fields)@) == json_fields(old(fields)@).push((key@, json_view(value))),
{
    let ghost before = fields@;
    let ghost v = json_view(value);
    fields.push((key.to_string(), value));
    assert(fields@.drop_last() =~= before);
}

/// Add an item to the items of an array under construction.
pub fn push_item(items: &mut Vec<JsonDoc>, value: JsonDoc)
    ensures
        json_list(final(items)@) == json_list(old(items)@).push(json_view(value)),
{
    let ghost before = items@;
    items.push(value);
    assert(items@.drop_last() =~= before);
}

/// A string value.
pub fn json_str(s: &str) -> (r: JsonDoc)
    ensures
        json_view(r) == Json::Str(s@),
{
    JsonDoc::Str(s.to_string())
}

/// The JSON strings of a list of strings.
pub open spec fn str_items(v: Seq<String>) -> Seq<Json> {
    v.map_values(|s: String| Json::Str(s@))
}

/// An array of strings.
pub fn json_strings(v: &Vec<String>) -> (r: JsonDoc)
    ensures
        json_view(r) == Json::Arr(str_items(v@)),
{
    let mut items: Vec<JsonDoc> = Vec::new();
    let mut i: usize = 0;
    assert(json_list(items@) =~= str_items(v@.take(0)));
    while i < v.len()
        invariant
            i <= v@.len(),
            json_list(items@) == str_items(v@.take(i as int)),
        decreases v@.len() - i,
    {
        push_item(&mut items, json_str(v[i].as_str()));
        assert(str_items(v@.take(i + 1)) =~= str_items(v@.take(i as int)).push(Json::Str(v@[i as int]@)));
        i = i + 1;
    }
    assert(v@.take(i as int) =~= v@);
    JsonDoc::Arr(items)
}


} // verus!
