//! Reading members of JSON objects.

use vstd::prelude::*;
use crate::json::{JsonValue, JsonModel, models, member_models};
use crate::order::chars_equal;
use crate::text::chars_of;

verus! {

/// The value of the first member named `key`.
pub open spec fn find_member(members: Seq<(Seq<char>, JsonModel)>, key: Seq<char>) -> Option<JsonModel>
    decreases members.len(),
{
    if members.len() == 0 {
        None
    } else if members[0].0 == key {
        Some(members[0].1)
    } else {
        find_member(members.drop_first(), key)
    }
}

/// `value.get(key)`: the member `key` of an object; nothing for other values.
pub open spec fn get_member(value: JsonModel, key: Seq<char>) -> Option<JsonModel> {
    match value {
        JsonModel::Object(members) => find_member(members, key),
        _ => None,
    }
}

/// `value.get(key).and_then(as_str)`: the member `key` when it is a string.
pub open spec fn get_str_member(value: JsonModel, key: Seq<char>) -> Option<Seq<char>> {
    match get_member(value, key) {
        Some(JsonModel::Str(s)) => Some(s),
        _ => None,
    }
}

/// The member `key` of an object value, when it is a string.
pub fn get_str_member_of(value: &JsonValue, key: &str) -> (r: Option<String>)
    ensures
        match r {
            Some(s) => get_str_member(value.model(), key@) == Some(s@),
            None => get_str_member(value.model(), key@) is None,
        },
{
    match value {
        JsonValue::Object(members) => {
            let k = chars_of(key);
            let ghost ms = member_models(members@);
            let mut i: usize = 0;
            assert(ms.subrange(0, ms.len() as int) =~= ms);
            assert(value.model() == JsonModel::Object(ms));
            while i < members.len()
                invariant
                    i <= members.len(),
                    ms == member_models(members@),
                    value.model() == JsonModel::Object(ms),
                    k@ == key@,
                    find_member(ms, key@) == find_member(ms.subrange(i as int, ms.len() as int), key@),
                decreases members.len() - i,
            {
                let ghost rest = ms.subrange(i as int, ms.len() as int);
                assert(rest[0] == ms[i as int]);
                assert(ms[i as int] == (members@[i as int].0@, members@[i as int].1.model()));
                let name = chars_of(members[i].0.as_str());
                if chars_equal(&name, &k) {
                    return match &members[i].1 {
                        JsonValue::String(s) => Some(s.clone()),
                        _ => None,
                    };
                }
                assert(rest.drop_first() =~= ms.subrange(i + 1, ms.len() as int));
                i += 1;
            }
            None
        },
        _ => None,
    }
}

} // verus!
