//! JSON values held as plain data, and the recursive removal of members
//! that carry no value.

use vstd::prelude::*;
use crate::text::{is_blank, str_is_blank};

verus! {

/// A JSON value. Numbers are kept in their textual form.
#[derive(Debug, PartialEq)]
pub enum JsonValue {
    Null,
    Bool(bool),
    Number(String),
    String(String),
    Array(Vec<JsonValue>),
    Object(Vec<(String, JsonValue)>),
}

/// The mathematical form of a `JsonValue`.
pub enum JsonModel {
    Null,
    Bool(bool),
    Number(Seq<char>),
    Str(Seq<char>),
    Array(Seq<JsonModel>),
    Object(Seq<(Seq<char>, JsonModel)>),
}

impl JsonValue {
    pub open spec fn model(self) -> JsonModel
        decreases self,
    {
        match self {
            JsonValue::Null => JsonModel::Null,
            JsonValue::Bool(b) => JsonModel::Bool(b),
            JsonValue::Number(n) => JsonModel::Number(n@),
            JsonValue::String(s) => JsonModel::Str(s@),
            JsonValue::Array(items) => JsonModel::Array(models(items@)),
            JsonValue::Object(members) => JsonModel::Object(member_models(members@)),
        }
    }
}

/// The models of a sequence of values.
pub open spec fn models(s: Seq<JsonValue>) -> Seq<JsonModel>
    decreases s,
{
    Seq::new(
        s.len(),
        |i: int|
            if 0 <= i < s.len() {
                s[i].model()
            } else {
                JsonModel::Null
            },
    )
}

/// The models of a sequence of object members.
pub open spec fn member_models(s: Seq<(String, JsonValue)>) -> Seq<(Seq<char>, JsonModel)>
    decreases s,
{
    Seq::new(
        s.len(),
        |i: int|
            if 0 <= i < s.len() {
                (s[i].0@, s[i].1.model())
            } else {
                (Seq::empty(), JsonModel::Null)
            },
    )
}

pub open spec fn opt_model(o: Option<JsonValue>) -> Option<JsonModel> {
    match o {
        Some(v) => Some(v.model()),
        None => None,
    }
}

/// What remains of a value once every member without a value is removed:
/// `null`, blank strings, and arrays and objects that are empty once cleaned
/// have no value; `false`, `0` and all other numbers and booleans keep theirs.
pub open spec fn clean_model(v: JsonModel) -> Option<JsonModel>
    decreases v,
{
    match v {
        JsonModel::Null => None,
        JsonModel::Str(s) => if is_blank(s) {
            None
        } else {
            Some(v)
        },
        JsonModel::Array(items) => {
            let kept = clean_items(items);
            if kept.len() == 0 {
                None
            } else {
                Some(JsonModel::Array(kept))
            }
        },
        JsonModel::Object(members) => {
            let kept = clean_members(members);
            if kept.len() == 0 {
                None
            } else {
                Some(JsonModel::Object(kept))
            }
        },
        _ => Some(v),
    }
}

/// The cleaned items that keep a value, in their order.
pub open spec fn clean_items(items: Seq<JsonModel>) -> Seq<JsonModel>
    decreases items,
{
    if items.len() == 0 {
        Seq::empty()
    } else {
        let rest = clean_items(items.drop_last());
        match clean_model(items.last()) {
            Some(c) => rest.push(c),
            None => rest,
        }
    }
}

/// The cleaned members that keep a value, in their order, with their keys.
pub open spec fn clean_members(members: Seq<(Seq<char>, JsonModel)>) -> Seq<(Seq<char>, JsonModel)>
    decreases members,
{
    if members.len() == 0 {
        Seq::empty()
    } else {
        let rest = clean_members(members.drop_last());
        match clean_model(members.last().1) {
            Some(c) => rest.push((members.last().0, c)),
            None => rest,
        }
    }
}

pub(crate) fn clean_json_ref(value: &JsonValue) -> (r: Option<JsonValue>)
    ensures
        opt_model(r) == clean_model(value.model()),
    decreases value,
{
    match value {
        JsonValue::Null => None,
        JsonValue::Bool(b) => Some(JsonValue::Bool(*b)),
        JsonValue::Number(n) => Some(JsonValue::Number(n.clone())),
        JsonValue::String(s) => {
            if str_is_blank(s.as_str()) {
                None
            } else {
                Some(JsonValue::String(s.clone()))
            }
        },
        JsonValue::Array(items) => {
            let mut kept: Vec<JsonValue> = Vec::new();
            let mut i: usize = 0;
            while i < items.len()
                invariant
                    *value == JsonValue::Array(*items),
                    i <= items.len(),
                    models(kept@) == clean_items(models(items@).subrange(0, i as int)),
                decreases items.len() - i,
            {
                assert(decreases_to!(*value => value->Array_0));
                assert(decreases_to!(*items => items@));
                assert(decreases_to!(items@ => items@[i as int]));
                let c = clean_json_ref(&items[i]);
                assert(models(items@).subrange(0, i + 1).drop_last() =~= models(items@).subrange(0, i as int));
                match c {
                    Some(x) => {
                        let ghost before = kept@;
                        kept.push(x);
                        assert(models(kept@) =~= models(before).push(x.model()));
                    },
                    None => {},
                }
                i += 1;
            }
            assert(models(items@).subrange(0, items@.len() as int) =~= models(items@));
            if kept.len() == 0 {
                None
            } else {
                Some(JsonValue::Array(kept))
            }
        },
        JsonValue::Object(members) => {
            let mut kept: Vec<(String, JsonValue)> = Vec::new();
            let mut i: usize = 0;
            while i < members.len()
                invariant
                    *value == JsonValue::Object(*members),
                    i <= members.len(),
                    member_models(kept@) == clean_members(member_models(members@).subrange(0, i as int)),
                decreases members.len() - i,
            {
                assert(decreases_to!(*value => value->Object_0));
                assert(decreases_to!(*members => members@));
                assert(decreases_to!(members@ => members@[i as int]));
                assert(decreases_to!(members@[i as int] => members@[i as int].1));
                let c = clean_json_ref(&members[i].1);
                assert(member_models(members@).subrange(0, i + 1).drop_last()
                    =~= member_models(members@).subrange(0, i as int));
                match c {
                    Some(x) => {
                        let ghost before = kept@;
                        let key = members[i].0.clone();
                        kept.push((key, x));
                        assert(member_models(kept@) =~= member_models(before).push((key@, x.model())));
                    },
                    None => {},
                }
                i += 1;
            }
            assert(member_models(members@).subrange(0, members@.len() as int) =~= member_models(members@));
            if kept.len() == 0 {
                None
            } else {
                Some(JsonValue::Object(kept))
            }
        },
    }
}

/// Cleaning keeps `false`, `true` and every number, `0` included.
pub proof fn lemma_clean_keeps_scalars(b: bool, n: Seq<char>)
    ensures
        clean_model(JsonModel::Bool(b)) == Some(JsonModel::Bool(b)),
        clean_model(JsonModel::Number(n)) == Some(JsonModel::Number(n)),
{
}

/// A cleaned value is clean: cleaning it again changes nothing.
pub proof fn lemma_clean_idempotent(v: JsonModel)
    ensures
        clean_model(v) matches Some(c) ==> clean_model(c) == Some(c),
    decreases v, 1nat,
{
    match v {
        JsonModel::Array(items) => {
            lemma_clean_items_idempotent(items);
        },
        JsonModel::Object(members) => {
            lemma_clean_members_idempotent(members);
        },
        _ => {},
    }
}

/// Cleaning the cleaned items again keeps them all.
pub proof fn lemma_clean_items_idempotent(items: Seq<JsonModel>)
    ensures
        clean_items(clean_items(items)) == clean_items(items),
    decreases items, 0nat,
{
    if items.len() > 0 {
        lemma_clean_items_idempotent(items.drop_last());
        lemma_clean_idempotent(items.last());
        let rest = clean_items(items.drop_last());
        match clean_model(items.last()) {
            Some(c) => {
                assert(rest.push(c).drop_last() =~= rest);
                assert(clean_items(rest.push(c)) == clean_items(rest).push(c));
            },
            None => {},
        }
    }
}

/// Cleaning the cleaned members again keeps them all.
pub proof fn lemma_clean_members_idempotent(members: Seq<(Seq<char>, JsonModel)>)
    ensures
        clean_members(clean_members(members)) == clean_members(members),
    decreases members, 0nat,
{
    if members.len() > 0 {
        lemma_clean_members_idempotent(members.drop_last());
        lemma_clean_idempotent(members.last().1);
        let rest = clean_members(members.drop_last());
        match clean_model(members.last().1) {
            Some(c) => {
                let m = (members.last().0, c);
                assert(rest.push(m).drop_last() =~= rest);
                assert(clean_members(rest.push(m)) == clean_members(rest).push(m));
            },
            None => {},
        }
    }
}

/// The value holds a value somewhere inside: a boolean, a number or a
/// string that is not blank.
pub open spec fn has_value(v: JsonModel) -> bool
    decreases v,
{
    match v {
        JsonModel::Null => false,
        JsonModel::Bool(_) => true,
        JsonModel::Number(_) => true,
        JsonModel::Str(s) => !is_blank(s),
        JsonModel::Array(items) => items_have_value(items),
        JsonModel::Object(members) => members_have_value(members),
    }
}

/// Some item holds a value.
pub open spec fn items_have_value(items: Seq<JsonModel>) -> bool
    decreases items,
{
    if items.len() == 0 {
        false
    } else {
        items_have_value(items.drop_last()) || has_value(items.last())
    }
}

/// Some member holds a value.
pub open spec fn members_have_value(members: Seq<(Seq<char>, JsonModel)>) -> bool
    decreases members,
{
    if members.len() == 0 {
        false
    } else {
        members_have_value(members.drop_last()) || has_value(members.last().1)
    }
}

/// Nothing without a value is left anywhere inside: no `null`, no blank
/// string, no empty array and no empty object.
pub open spec fn is_clean(v: JsonModel) -> bool
    decreases v,
{
    match v {
        JsonModel::Null => false,
        JsonModel::Bool(_) => true,
        JsonModel::Number(_) => true,
        JsonModel::Str(s) => !is_blank(s),
        JsonModel::Array(items) => items.len() > 0 && items_clean(items),
        JsonModel::Object(members) => members.len() > 0 && members_clean(members),
    }
}

/// Every item is clean.
pub open spec fn items_clean(items: Seq<JsonModel>) -> bool
    decreases items,
{
    if items.len() == 0 {
        true
    } else {
        items_clean(items.drop_last()) && is_clean(items.last())
    }
}

/// Every member's value is clean.
pub open spec fn members_clean(members: Seq<(Seq<char>, JsonModel)>) -> bool
    decreases members,
{
    if members.len() == 0 {
        true
    } else {
        members_clean(members.drop_last()) && is_clean(members.last().1)
    }
}

/// Cleaning removes everything without a value, at every depth: nothing is
/// left exactly when the value holds no boolean, no number and no non-blank
/// string anywhere, and what is left holds no `null`, no blank string and no
/// empty array or object anywhere.
pub proof fn lemma_clean_removes_empty(v: JsonModel)
    ensures
        clean_model(v) is None <==> !has_value(v),
        clean_model(v) matches Some(c) ==> is_clean(c),
    decreases v, 1nat,
{
    match v {
        JsonModel::Array(items) => {
            lemma_clean_items_remove_empty(items);
        },
        JsonModel::Object(members) => {
            lemma_clean_members_remove_empty(members);
        },
        _ => {},
    }
}

/// The cleaned items are all clean, and there are none exactly when no item holds a value.
pub proof fn lemma_clean_items_remove_empty(items: Seq<JsonModel>)
    ensures
        clean_items(items).len() == 0 <==> !items_have_value(items),
        items_clean(clean_items(items)),
    decreases items, 0nat,
{
    if items.len() > 0 {
        lemma_clean_items_remove_empty(items.drop_last());
        lemma_clean_removes_empty(items.last());
        let rest = clean_items(items.drop_last());
        match clean_model(items.last()) {
            Some(c) => {
                assert(rest.push(c).drop_last() =~= rest);
                assert(rest.push(c).last() == c);
            },
            None => {},
        }
    }
}

/// The cleaned members are all clean, and there are none exactly when no member holds a value.
pub proof fn lemma_clean_members_remove_empty(members: Seq<(Seq<char>, JsonModel)>)
    ensures
        clean_members(members).len() == 0 <==> !members_have_value(members),
        members_clean(clean_members(members)),
    decreases members, 0nat,
{
    if members.len() > 0 {
        lemma_clean_members_remove_empty(members.drop_last());
        lemma_clean_removes_empty(members.last().1);
        let rest = clean_members(members.drop_last());
        match clean_model(members.last().1) {
            Some(c) => {
                let m = (members.last().0, c);
                assert(rest.push(m).drop_last() =~= rest);
                assert(rest.push(m).last() == m);
            },
            None => {},
        }
    }
}

/// The values inside `v` in document order: every boolean, every number and
/// every string that is not blank, at any depth.
pub open spec fn leaves(v: JsonModel) -> Seq<JsonModel>
    decreases v,
{
    match v {
        JsonModel::Null => Seq::empty(),
        JsonModel::Str(s) => if is_blank(s) {
            Seq::empty()
        } else {
            seq![v]
        },
        JsonModel::Array(items) => items_leaves(items),
        JsonModel::Object(members) => members_leaves(members),
        _ => seq![v],
    }
}

/// The values inside the items, item after item.
pub open spec fn items_leaves(items: Seq<JsonModel>) -> Seq<JsonModel>
    decreases items,
{
    if items.len() == 0 {
        Seq::empty()
    } else {
        items_leaves(items.drop_last()) + leaves(items.last())
    }
}

/// The values inside the members, member after member.
pub open spec fn members_leaves(members: Seq<(Seq<char>, JsonModel)>) -> Seq<JsonModel>
    decreases members,
{
    if members.len() == 0 {
        Seq::empty()
    } else {
        members_leaves(members.drop_last()) + leaves(members.last().1)
    }
}

pub open spec fn opt_leaves(o: Option<JsonModel>) -> Seq<JsonModel> {
    match o {
        Some(v) => leaves(v),
        None => Seq::empty(),
    }
}

/// Cleaning keeps every value: each boolean (`false` too), each number (`0`
/// too) and each non-blank string at any depth stays, and they keep their
/// order, the order of array items included.
pub proof fn lemma_clean_keeps_values(v: JsonModel)
    ensures
        opt_leaves(clean_model(v)) == leaves(v),
    decreases v, 1nat,
{
    match v {
        JsonModel::Array(items) => {
            lemma_clean_items_keep_values(items);
        },
        JsonModel::Object(members) => {
            lemma_clean_members_keep_values(members);
        },
        _ => {},
    }
}

/// The cleaned items hold the values of the items, in order.
pub proof fn lemma_clean_items_keep_values(items: Seq<JsonModel>)
    ensures
        items_leaves(clean_items(items)) == items_leaves(items),
    decreases items, 0nat,
{
    if items.len() > 0 {
        lemma_clean_items_keep_values(items.drop_last());
        lemma_clean_keeps_values(items.last());
        let rest = clean_items(items.drop_last());
        match clean_model(items.last()) {
            Some(c) => {
                assert(rest.push(c).drop_last() =~= rest);
                assert(rest.push(c).last() == c);
            },
            None => {
                assert(items_leaves(items) =~= items_leaves(items.drop_last()));
            },
        }
    }
}

/// The cleaned members hold the values of the members, in order.
pub proof fn lemma_clean_members_keep_values(members: Seq<(Seq<char>, JsonModel)>)
    ensures
        members_leaves(clean_members(members)) == members_leaves(members),
    decreases members, 0nat,
{
    if members.len() > 0 {
        lemma_clean_members_keep_values(members.drop_last());
        lemma_clean_keeps_values(members.last().1);
        let rest = clean_members(members.drop_last());
        match clean_model(members.last().1) {
            Some(c) => {
                let m = (members.last().0, c);
                assert(rest.push(m).drop_last() =~= rest);
                assert(rest.push(m).last() == m);
            },
            None => {
                assert(members_leaves(members) =~= members_leaves(members.drop_last()));
            },
        }
    }
}

/// Removes, recursively, the members of `value` that carry no value.
/// `false` and `0` are values and stay; empty arrays and objects that are
/// empty once cleaned are removed.
pub fn clean_json_value(value: JsonValue) -> (r: Option<JsonValue>)
    ensures
        opt_model(r) == clean_model(value.model()),
{
    clean_json_ref(&value)
}

} // verus!
