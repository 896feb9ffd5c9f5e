//! What the store's answers say of assets and of their indexed units.

use vstd::prelude::*;

use crate::json::{member_views, views, Json, Value};
use crate::text::same_text;

verus! {

/// The id that an object itself carries: its `asset_id`, or else its `id`, where that is text.
pub open spec fn own_id(j: Json) -> Option<Seq<char>> {
    match j.text_at("asset_id"@) {
        Some(s) => Some(s),
        None => j.text_at("id"@),
    }
}

/// The first id in a value: its own, or else the first one in what it holds, in order.
pub open spec fn asset_id(j: Json) -> Option<Seq<char>>
    decreases j,
{
    match own_id(j) {
        Some(s) => Some(s),
        None => match j {
            Json::Array(items) => first_id(items),
            Json::Object(members) => first_member_id(members),
            _ => None,
        },
    }
}

/// The first id in a run of values.
pub open spec fn first_id(items: Seq<Json>) -> Option<Seq<char>>
    decreases items,
{
    if items.len() == 0 {
        None
    } else {
        match asset_id(items[0]) {
            Some(s) => Some(s),
            None => first_id(items.drop_first()),
        }
    }
}

/// The first id in the values of a run of members.
pub open spec fn first_member_id(members: Seq<(Seq<char>, Json)>) -> Option<Seq<char>>
    decreases members,
{
    if members.len() == 0 {
        None
    } else {
        match asset_id(members[0].1) {
            Some(s) => Some(s),
            None => first_member_id(members.drop_first()),
        }
    }
}

/// `part` is `whole`, or stands somewhere inside it.
pub open spec fn is_within(part: Json, whole: Json) -> bool
    decreases whole,
{
    ||| part == whole
    ||| match whole {
        Json::Array(items) => exists|i: int|
            0 <= i < items.len() && is_within(part, #[trigger] items[i]),
        Json::Object(members) => exists|i: int|
            0 <= i < members.len() && is_within(part, (#[trigger] members[i]).1),
        _ => false,
    }
}

/// The value itself is the record of an indexed unit.
pub open spec fn is_unit(j: Json, kind: Seq<char>, key: Seq<char>) -> bool {
    j.text_at("unit_kind"@) == Some(kind) && j.text_at("unit_key"@) == Some(key)
}

/// The record of an indexed unit stands somewhere in a value.
pub open spec fn unit_within(j: Json, kind: Seq<char>, key: Seq<char>) -> bool
    decreases j,
{
    ||| is_unit(j, kind, key)
    ||| match j {
        Json::Array(items) => exists|i: int|
            0 <= i < items.len() && unit_within(#[trigger] items[i], kind, key),
        Json::Object(members) => exists|i: int|
            0 <= i < members.len() && unit_within((#[trigger] members[i]).1, kind, key),
        _ => false,
    }
}

/// The mark that a video has been indexed to its end stands somewhere in a value.
pub open spec fn completed(j: Json) -> bool {
    unit_within(j, "video_index_state"@, "complete"@)
}

/// The first id in a value, in the order in which it is written.
pub(crate) fn find_asset_id(value: &Value) -> (found: Option<String>)
    ensures
        match found {
            Some(s) => asset_id(value@) == Some(s@),
            None => asset_id(value@) is None,
        },
    decreases value,
{
    if let Some(id) = value.text_at("asset_id") {
        return Some(id.to_owned());
    }
    if let Some(id) = value.text_at("id") {
        return Some(id.to_owned());
    }
    match value {
        Value::Array(items) => {
            proof {
                crate::json::lemma_array_view(*items);
            }
            let ghost all = views(items@);
            assert(all.skip(0) == all);
            let mut i: usize = 0;
            while i < items.len()
                invariant
                    i <= items.len(),
                    *value == Value::Array(*items),
                    all == views(items@),
                    asset_id(value@) == first_id(all),
                    first_id(all) == first_id(all.skip(i as int)),
                decreases items.len() - i,
            {
                assert(decreases_to!(*value => value->Array_0@[i as int]));
                assert(all.skip(i as int)[0] == items@[i as int]@);
                if let Some(id) = find_asset_id(&items[i]) {
                    return Some(id);
                }
                assert(all.skip(i as int).drop_first() == all.skip(i + 1));
                i = i + 1;
            }
            None
        },
        Value::Object(members) => {
            proof {
                crate::json::lemma_object_view(*members);
            }
            let ghost all = member_views(members@);
            assert(all.skip(0) == all);
            let mut i: usize = 0;
            while i < members.len()
                invariant
                    i <= members.len(),
                    *value == Value::Object(*members),
                    all == member_views(members@),
                    asset_id(value@) == first_member_id(all),
                    first_member_id(all) == first_member_id(all.skip(i as int)),
                decreases members.len() - i,
            {
                assert(decreases_to!(*value => value->Object_0@[i as int].value));
                assert(all.skip(i as int)[0].1 == members@[i as int].value@);
                if let Some(id) = find_asset_id(&members[i].value) {
                    return Some(id);
                }
                assert(all.skip(i as int).drop_first() == all.skip(i + 1));
                i = i + 1;
            }
            None
        },
        _ => None,
    }
}

/// Whether the record of an indexed unit stands somewhere in a value.
pub(crate) fn find_unit(value: &Value, kind: &str, key: &str) -> (found: bool)
    ensures
        found == unit_within(value@, kind@, key@),
    decreases value,
{
    match value {
        Value::Array(items) => {
            proof {
                crate::json::lemma_array_view(*items);
            }
            let ghost all = views(items@);
            let mut i: usize = 0;
            while i < items.len()
                invariant
                    i <= items.len(),
                    *value == Value::Array(*items),
                    all == views(items@),
                    value@ == Json::Array(all),
                    forall|j: int| 0 <= j < i ==> !unit_within(#[trigger] all[j], kind@, key@),
                decreases items.len() - i,
            {
                assert(decreases_to!(*value => value->Array_0@[i as int]));
                assert(all[i as int] == items@[i as int]@);
                if find_unit(&items[i], kind, key) {
                    assert(value@->Array_0[i as int] == all[i as int]);
                    return true;
                }
                i = i + 1;
            }
            false
        },
        Value::Object(members) => {
            if let Some(found_kind) = value.text_at("unit_kind") {
                if let Some(found_key) = value.text_at("unit_key") {
                    if same_text(found_kind, kind) && same_text(found_key, key) {
                        return true;
                    }
                }
            }
            proof {
                crate::json::lemma_object_view(*members);
            }
            let ghost all = member_views(members@);
            let mut i: usize = 0;
            while i < members.len()
                invariant
                    i <= members.len(),
                    *value == Value::Object(*members),
                    all == member_views(members@),
                    value@ == Json::Object(all),
                    forall|j: int| 0 <= j < i ==> !unit_within((#[trigger] all[j]).1, kind@, key@),
                decreases members.len() - i,
            {
                assert(decreases_to!(*value => value->Object_0@[i as int].value));
                assert(all[i as int].1 == members@[i as int].value@);
                if find_unit(&members[i].value, kind, key) {
                    return true;
                }
                i = i + 1;
            }
            false
        },
        _ => false,
    }
}

/// An id is found exactly where some object in the value, at any depth, carries one; and what is
/// found is an id that such an object carries.
pub proof fn asset_id_is_found_anywhere(j: Json)
    ensures
        asset_id(j) is Some <==> exists|part: Json| #[trigger] is_within(part, j) && own_id(part) is Some,
        asset_id(j) is Some ==> exists|part: Json| #[trigger] is_within(part, j) && own_id(part) == asset_id(j),
    decreases j,
{
    if own_id(j) is Some {
        assert(is_within(j, j));
    } else {
        match j {
            Json::Array(items) => {
                lemma_first_id(items);
                if asset_id(j) is Some {
                    let (i, part) = choose|i: int, part: Json|
                        0 <= i < items.len() && #[trigger] is_within(part, items[i]) && own_id(part)
                            == first_id(items);
                    assert(is_within(part, j));
                }
                if exists|part: Json| #[trigger] is_within(part, j) && own_id(part) is Some {
                    let part = choose|part: Json| #[trigger] is_within(part, j) && own_id(part) is Some;
                    let i = choose|i: int| 0 <= i < items.len() && is_within(part, #[trigger] items[i]);
                    assert(is_within(part, items[i]));
                }
            },
            Json::Object(members) => {
                lemma_first_member_id(members);
                if asset_id(j) is Some {
                    let (i, part) = choose|i: int, part: Json|
                        0 <= i < members.len() && #[trigger] is_within(part, members[i].1)
                            && own_id(part) == first_member_id(members);
                    assert(is_within(part, j));
                }
                if exists|part: Json| #[trigger] is_within(part, j) && own_id(part) is Some {
                    let part = choose|part: Json| #[trigger] is_within(part, j) && own_id(part) is Some;
                    let i = choose|i: int|
                        0 <= i < members.len() && is_within(part, (#[trigger] members[i]).1);
                    assert(is_within(part, members[i].1));
                }
            },
            _ => {},
        }
    }
}

proof fn lemma_first_id(items: Seq<Json>)
    ensures
        first_id(items) is Some <==> exists|i: int, part: Json|
            0 <= i < items.len() && #[trigger] is_within(part, items[i]) && own_id(part) is Some,
        first_id(items) is Some ==> exists|i: int, part: Json|
            0 <= i < items.len() && #[trigger] is_within(part, items[i]) && own_id(part) == first_id(
                items,
            ),
    decreases items,
{
    if items.len() > 0 {
        asset_id_is_found_anywhere(items[0]);
        let rest = items.drop_first();
        lemma_first_id(rest);
        if asset_id(items[0]) is Some {
            let part = choose|part: Json|
                #[trigger] is_within(part, items[0]) && own_id(part) == asset_id(items[0]);
            assert(is_within(part, items[0]));
        } else {
            if first_id(rest) is Some {
                let (i, part) = choose|i: int, part: Json|
                    0 <= i < rest.len() && #[trigger] is_within(part, rest[i]) && own_id(part)
                        == first_id(rest);
                assert(rest[i] == items[i + 1]);
                assert(is_within(part, items[i + 1]));
            }
            assert forall|i: int, part: Json|
                0 <= i < items.len() && #[trigger] is_within(part, items[i]) && own_id(
                    part,
                ) is Some implies first_id(items) is Some by {
                if i > 0 {
                    assert(rest[i - 1] == items[i]);
                    assert(is_within(part, rest[i - 1]));
                }
            }
        }
    }
}

proof fn lemma_first_member_id(members: Seq<(Seq<char>, Json)>)
    ensures
        first_member_id(members) is Some <==> exists|i: int, part: Json|
            0 <= i < members.len() && #[trigger] is_within(part, members[i].1) && own_id(
                part,
            ) is Some,
        first_member_id(members) is Some ==> exists|i: int, part: Json|
            0 <= i < members.len() && #[trigger] is_within(part, members[i].1) && own_id(part)
                == first_member_id(members),
    decreases members,
{
    if members.len() > 0 {
        asset_id_is_found_anywhere(members[0].1);
        let rest = members.drop_first();
        lemma_first_member_id(rest);
        if asset_id(members[0].1) is Some {
            let part = choose|part: Json|
                #[trigger] is_within(part, members[0].1) && own_id(part) == asset_id(members[0].1);
            assert(is_within(part, members[0].1));
        } else {
            if first_member_id(rest) is Some {
                let (i, part) = choose|i: int, part: Json|
                    0 <= i < rest.len() && #[trigger] is_within(part, rest[i].1) && own_id(part)
                        == first_member_id(rest);
                assert(rest[i] == members[i + 1]);
                assert(is_within(part, members[i + 1].1));
            }
            assert forall|i: int, part: Json|
                0 <= i < members.len() && #[trigger] is_within(part, members[i].1) && own_id(
                    part,
                ) is Some implies first_member_id(members) is Some by {
                if i > 0 {
                    assert(rest[i - 1] == members[i]);
                    assert(is_within(part, rest[i - 1].1));
                }
            }
        }
    }
}

/// A unit counts as indexed exactly where some object in the value, at any depth, is its record.
pub proof fn unit_is_found_anywhere(j: Json, kind: Seq<char>, key: Seq<char>)
    ensures
        unit_within(j, kind, key) <==> exists|part: Json|
            #[trigger] is_within(part, j) && is_unit(part, kind, key),
    decreases j,
{
    if is_unit(j, kind, key) {
        assert(is_within(j, j));
    }
    match j {
        Json::Array(items) => {
            assert forall|i: int| 0 <= i < items.len() implies (unit_within(
                #[trigger] items[i],
                kind,
                key,
            ) <==> exists|part: Json|
                #[trigger] is_within(part, items[i]) && is_unit(part, kind, key)) by {
                unit_is_found_anywhere(items[i], kind, key);
            }
            if unit_within(j, kind, key) && !is_unit(j, kind, key) {
                let i = choose|i: int|
                    0 <= i < items.len() && unit_within(#[trigger] items[i], kind, key);
                let part = choose|part: Json|
                    #[trigger] is_within(part, items[i]) && is_unit(part, kind, key);
                assert(is_within(part, j));
            }
            if exists|part: Json| #[trigger] is_within(part, j) && is_unit(part, kind, key) {
                let part = choose|part: Json|
                    #[trigger] is_within(part, j) && is_unit(part, kind, key);
                if part != j {
                    let i = choose|i: int|
                        0 <= i < items.len() && is_within(part, #[trigger] items[i]);
                    assert(unit_within(items[i], kind, key));
                }
            }
        },
        Json::Object(members) => {
            assert forall|i: int| 0 <= i < members.len() implies (unit_within(
                (#[trigger] members[i]).1,
                kind,
                key,
            ) <==> exists|part: Json|
                #[trigger] is_within(part, members[i].1) && is_unit(part, kind, key)) by {
                unit_is_found_anywhere(members[i].1, kind, key);
            }
            if unit_within(j, kind, key) && !is_unit(j, kind, key) {
                let i = choose|i: int|
                    0 <= i < members.len() && unit_within((#[trigger] members[i]).1, kind, key);
                let part = choose|part: Json|
                    #[trigger] is_within(part, members[i].1) && is_unit(part, kind, key);
                assert(is_within(part, j));
            }
            if exists|part: Json| #[trigger] is_within(part, j) && is_unit(part, kind, key) {
                let part = choose|part: Json|
                    #[trigger] is_within(part, j) && is_unit(part, kind, key);
                if part != j {
                    let i = choose|i: int|
                        0 <= i < members.len() && is_within(part, (#[trigger] members[i]).1);
                    assert(unit_within(members[i].1, kind, key));
                }
            }
        },
        _ => {
            assert forall|part: Json| #[trigger] is_within(part, j) implies part == j by {}
        },
    }
}

/// A unit counts as stored exactly where some object, at any depth, has the wanted kind under
/// `unit_kind` and the wanted key under `unit_key`.
pub proof fn stored_unit_has_this_kind_and_key(answer: Json, kind: Seq<char>, key: Seq<char>)
    ensures
        unit_within(answer, kind, key) <==> exists|part: Json| #[trigger]
            is_within(part, answer) && part.text_at("unit_kind"@) == Some(kind) && part.text_at(
                "unit_key"@,
            ) == Some(key),
        completed(answer) <==> exists|part: Json| #[trigger]
            is_within(part, answer) && part.text_at("unit_kind"@) == Some("video_index_state"@)
                && part.text_at("unit_key"@) == Some("complete"@),
{
    unit_is_found_anywhere(answer, kind, key);
    unit_is_found_anywhere(answer, "video_index_state"@, "complete"@);
    if unit_within(answer, kind, key) {
        let part = choose|part: Json| #[trigger]
            is_within(part, answer) && is_unit(part, kind, key);
        assert(is_within(part, answer) && part.text_at("unit_key"@) == Some(key));
    }
    if completed(answer) {
        let part = choose|part: Json| #[trigger]
            is_within(part, answer) && is_unit(part, "video_index_state"@, "complete"@);
        assert(is_within(part, answer) && part.text_at("unit_key"@) == Some("complete"@));
    }
}

/// Nothing stands in a value but the value, what stands in the items of an array, and what stands in
/// the members of an object.
pub proof fn parts_are_reached_step_by_step(
    part: Json,
    whole: Json,
    items: Seq<Json>,
    members: Seq<(Seq<char>, Json)>,
)
    ensures
        is_within(whole, whole),
        is_within(part, Json::Array(items)) <==> part == Json::Array(items) || exists|i: int|
            0 <= i < items.len() && is_within(part, #[trigger] items[i]),
        is_within(part, Json::Object(members)) <==> part == Json::Object(members) || exists|i: int|
            0 <= i < members.len() && is_within(part, (#[trigger] members[i]).1),
        !(whole is Array) && !(whole is Object) ==> (is_within(part, whole) <==> part == whole),
{
    let list = Json::Array(items);
    if is_within(part, list) && part != list {
        let i = choose|i: int| 0 <= i < items.len() && is_within(part, #[trigger] items[i]);
        assert(is_within(part, items[i]));
    }
    if exists|i: int| 0 <= i < items.len() && is_within(part, #[trigger] items[i]) {
        let i = choose|i: int| 0 <= i < items.len() && is_within(part, #[trigger] items[i]);
        assert(list->Array_0[i] == items[i]);
        assert(is_within(part, list));
    }
    let object = Json::Object(members);
    if is_within(part, object) && part != object {
        let i = choose|i: int| 0 <= i < members.len() && is_within(part, (#[trigger] members[i]).1);
        assert(is_within(part, members[i].1));
    }
    if exists|i: int| 0 <= i < members.len() && is_within(part, (#[trigger] members[i]).1) {
        let i = choose|i: int| 0 <= i < members.len() && is_within(part, (#[trigger] members[i]).1);
        assert(object->Object_0[i] == members[i]);
        assert(is_within(part, object));
    }
}

/// The id of an object is its `asset_id`, or else its `id`; where it has neither as text, the first
/// found in its members. In an array it is the first found in the items.
pub proof fn ids_are_taken_in_order(
    j: Json,
    id: Seq<char>,
    item: Json,
    one: Seq<Json>,
    two: Seq<Json>,
)
    ensures
        j.text_at("asset_id"@) == Some(id) ==> asset_id(j) == Some(id),
        j.text_at("asset_id"@) is None && j.text_at("id"@) == Some(id) ==> asset_id(j) == Some(id),
        asset_id(Json::Array(seq![item])) == asset_id(item),
        asset_id(Json::Array(one + two)) == match asset_id(Json::Array(one)) {
            Some(found) => Some(found),
            None => asset_id(Json::Array(two)),
        },
        asset_id(Json::Array(Seq::empty())) is None,
        asset_id(Json::Object(Seq::empty())) is None,
        !(j is Array) && !(j is Object) ==> asset_id(j) is None,
{
    lemma_first_id_of_joined(one, two);
    let single = seq![item];
    assert(single[0] == item);
    assert(single.drop_first() =~= Seq::<Json>::empty());
    assert(first_id(single.drop_first()) is None);
    assert(first_id(single) == asset_id(item));
}

proof fn lemma_first_id_of_joined(one: Seq<Json>, two: Seq<Json>)
    ensures
        first_id(one + two) == match first_id(one) {
            Some(found) => Some(found),
            None => first_id(two),
        },
    decreases one.len(),
{
    if one.len() == 0 {
        assert(one + two =~= two);
    } else {
        assert((one + two).drop_first() =~= one.drop_first() + two);
        lemma_first_id_of_joined(one.drop_first(), two);
    }
}

/// In an object that has neither id as text the members are looked through in their order.
pub proof fn members_are_looked_through_in_order(
    first: (Seq<char>, Json),
    rest: Seq<(Seq<char>, Json)>,
)
    requires
        Json::Object(seq![first] + rest).text_at("asset_id"@) is None,
        Json::Object(seq![first] + rest).text_at("id"@) is None,
        Json::Object(rest).text_at("asset_id"@) is None,
        Json::Object(rest).text_at("id"@) is None,
    ensures
        asset_id(Json::Object(seq![first] + rest)) == match asset_id(first.1) {
            Some(found) => Some(found),
            None => asset_id(Json::Object(rest)),
        },
{
    assert((seq![first] + rest).drop_first() =~= rest);
}

/// An id is found exactly where some object, at any depth, has a text under `asset_id` or under `id`;
/// and what is found is the one of some such object, `asset_id` before `id`.
pub proof fn found_id_stands_in_the_answer(answer: Json)
    ensures
        asset_id(answer) is Some <==> exists|part: Json| #[trigger]
            is_within(part, answer) && (part.text_at("asset_id"@) is Some || part.text_at(
                "id"@,
            ) is Some),
        asset_id(answer) matches Some(id) ==> exists|part: Json| #[trigger]
            is_within(part, answer) && (part.text_at("asset_id"@) == Some(id) || (part.text_at(
                "asset_id"@,
            ) is None && part.text_at("id"@) == Some(id))),
{
    asset_id_is_found_anywhere(answer);
    if exists|part: Json| #[trigger]
        is_within(part, answer) && (part.text_at("asset_id"@) is Some || part.text_at(
            "id"@,
        ) is Some) {
        let part = choose|part: Json| #[trigger]
            is_within(part, answer) && (part.text_at("asset_id"@) is Some || part.text_at(
                "id"@,
            ) is Some);
        assert(is_within(part, answer) && own_id(part) is Some);
    }
    if asset_id(answer) is Some {
        let part = choose|part: Json| #[trigger]
            is_within(part, answer) && own_id(part) == asset_id(answer);
        assert(is_within(part, answer));
    }
}

} // verus!
