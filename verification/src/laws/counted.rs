//! What holds of who counts, of what is recorded, and of sorting.

use vstd::prelude::*;
use crate::model::MediaModel;
use crate::model::UserModel;

verus! {

/// Of several users with a name the last counts, and a name that nobody has stands for
/// nobody.
pub proof fn the_last_user_with_a_name_counts(users: Seq<UserModel>, u: int, name: Seq<char>)
    ensures
        0 <= u < users.len() && (forall|v: int|
            u < v < users.len() ==> (#[trigger] users[v]).name != users[u].name)
            ==> crate::audience::user_named(users, users[u].name) == Some(users[u])
            && crate::audience::id_named(users)(users[u].name) == Some(users[u].id),
        (forall|v: int| 0 <= v < users.len() ==> (#[trigger] users[v]).name != name)
            <==> crate::audience::user_named(users, name) is None,
        crate::audience::user_named(users, name) is None <==> crate::audience::id_named(users)(
            name,
        ) is None,
    decreases users.len(),
{
    if users.len() > 0 {
        let rest = users.drop_last();
        let last = users.len() - 1;
        the_last_user_with_a_name_counts(rest, u, name);
        assert(users[last] == users.last());
        if 0 <= u < last && (forall|v: int|
            u < v < users.len() ==> (#[trigger] users[v]).name != users[u].name) {
            assert(users[last].name != users[u].name);
            assert(rest[u] == users[u]);
            assert forall|v: int| u < v < rest.len() implies (#[trigger] rest[v]).name
                != rest[u].name by {
                assert(users[v].name != users[u].name);
            }
        }
        if forall|v: int| 0 <= v < users.len() ==> (#[trigger] users[v]).name != name {
            assert(users[last].name != name);
            assert forall|v: int| 0 <= v < rest.len() implies (#[trigger] rest[v]).name != name by {
                assert(users[v].name != name);
            }
        }
        if crate::audience::user_named(users, name) is None {
            assert forall|v: int| 0 <= v < users.len() implies (#[trigger] users[v]).name != name by {
                if v < last {
                    assert(rest[v].name != name);
                }
            }
        }
    }
}

/// Of several users with an id the first counts.
pub proof fn the_first_user_with_an_id_counts(users: Seq<UserModel>, u: int)
    requires
        0 <= u < users.len(),
        forall|v: int| 0 <= v < u ==> (#[trigger] users[v]).id != users[u].id,
    ensures
        crate::audience::user_with_id(users, users[u].id) == Some(users[u]),
    decreases users.len(),
{
    if u > 0 {
        assert(users[0].id != users[u].id);
        let rest = users.drop_first();
        assert forall|v: int| 0 <= v < u - 1 implies (#[trigger] rest[v]).id != rest[u - 1].id by {
            assert(users[v + 1].id != users[u].id);
        }
        the_first_user_with_an_id_counts(rest, u - 1);
    }
}

/// A user is found by id where one has it.
pub proof fn users_are_found_by_id(users: Seq<UserModel>, id: Seq<char>)
    ensures
        crate::audience::user_with_id(users, id) is Some <==> exists|v: int|
            0 <= v < users.len() && (#[trigger] users[v]).id == id,
        crate::audience::user_with_id(users, id) matches Some(user) ==> user.id == id
            && users.contains(user),
    decreases users.len(),
{
    if users.len() > 0 {
        let rest = users.drop_first();
        users_are_found_by_id(rest, id);
        if users[0].id == id {
            assert(users.contains(users[0]));
        } else {
            if crate::audience::user_with_id(rest, id) is Some {
                let user = crate::audience::user_with_id(rest, id)->0;
                let v = choose|v: int| 0 <= v < rest.len() && rest[v] == user;
                assert(users[v + 1] == user);
            }
            if exists|v: int| 0 <= v < users.len() && (#[trigger] users[v]).id == id {
                let v = choose|v: int| 0 <= v < users.len() && (#[trigger] users[v]).id == id;
                assert(rest[v - 1].id == id);
            }
        }
    }
}

/// Without names all users are meant, in order.
pub proof fn without_names_all_are_meant(users: Seq<UserModel>, u: int)
    ensures
        crate::audience::ids_meant(users, Seq::empty()).len() == users.len(),
        0 <= u < users.len() ==> crate::audience::ids_meant(users, Seq::empty())[u] == users[u].id,
        crate::audience::protectors(users, Seq::empty(), false) == crate::audience::ids_meant(
            users,
            Seq::empty(),
        ),
{
}

/// A further name adds at the end the id of the user who has it, if anybody does.
pub proof fn names_are_meant_in_order(
    users: Seq<UserModel>,
    names: Seq<Seq<char>>,
    name: Seq<char>,
)
    ensures
        names.len() > 0 ==> crate::audience::ids_meant(users, names.push(name))
            == match crate::audience::user_named(users, name) {
            Some(user) => crate::audience::ids_meant(users, names).push(user.id),
            None => crate::audience::ids_meant(users, names),
        },
        crate::audience::ids_meant(users, seq![name]) == match crate::audience::user_named(
            users,
            name,
        ) {
            Some(user) => seq![user.id],
            None => Seq::<Seq<char>>::empty(),
        },
        crate::audience::protectors(users, names, false) == crate::audience::ids_meant(users, names),
        crate::audience::protectors(users, names, true).len() == 0,
{
    let f = crate::audience::id_named(users);
    let more = names.push(name);
    assert(more.drop_last() =~= names);
    assert(more.filter_map(f) =~= match crate::audience::user_named(users, name) {
        Some(user) => names.filter_map(f).push(user.id),
        None => names.filter_map(f),
    });
    let one = seq![name];
    let none = one.drop_last();
    assert(none =~= Seq::empty());
    assert(none.filter_map(f) =~= Seq::empty());
    assert(one.filter_map(f) =~= match crate::audience::user_named(users, name) {
        Some(user) => seq![user.id],
        None => Seq::<Seq<char>>::empty(),
    });
}

/// The name that is reported as unknown is the first that nobody has.
pub proof fn the_first_unknown_name_is_reported(users: Seq<UserModel>, names: Seq<Seq<char>>, k: int)
    ensures
        0 <= k < names.len() && (forall|v: int|
            0 <= v < users.len() ==> (#[trigger] users[v]).name != names[k]) && (forall|j: int|
            0 <= j < k ==> exists|v: int|
                0 <= v < users.len() && (#[trigger] users[v]).name == #[trigger] names[j])
            ==> crate::audience::first_unknown(users, names) == Some(names[k]),
        (forall|j: int|
            0 <= j < names.len() ==> exists|v: int|
                0 <= v < users.len() && (#[trigger] users[v]).name == #[trigger] names[j])
            ==> crate::audience::first_unknown(users, names) is None,
    decreases names.len(),
{
    if names.len() > 0 {
        let rest = names.drop_first();
        the_last_user_with_a_name_counts(users, 0, names[0]);
        the_first_unknown_name_is_reported(users, rest, k - 1);
        if 0 < k < names.len() && (forall|v: int|
            0 <= v < users.len() ==> (#[trigger] users[v]).name != names[k]) && (forall|j: int|
            0 <= j < k ==> exists|v: int|
                0 <= v < users.len() && (#[trigger] users[v]).name == #[trigger] names[j]) {
            let v = choose|v: int|
                0 <= v < users.len() && (#[trigger] users[v]).name == names[0];
            assert(users[v].name == names[0]);
            assert(rest[k - 1] == names[k]);
            assert forall|j: int| 0 <= j < k - 1 implies exists|v: int|
                0 <= v < users.len() && (#[trigger] users[v]).name == #[trigger] rest[j] by {
                assert(rest[j] == names[j + 1]);
            }
        }
        if forall|j: int|
            0 <= j < names.len() ==> exists|v: int|
                0 <= v < users.len() && (#[trigger] users[v]).name == #[trigger] names[j] {
            let v = choose|v: int|
                0 <= v < users.len() && (#[trigger] users[v]).name == names[0];
            assert(users[v].name == names[0]);
            assert forall|j: int| 0 <= j < rest.len() implies exists|v: int|
                0 <= v < users.len() && (#[trigger] users[v]).name == #[trigger] rest[j] by {
                assert(rest[j] == names[j + 1]);
            }
        }
    }
}

/// What is recorded of a user are the ids of the items, no others.
pub proof fn recorded_are_the_items(items: Seq<MediaModel>, id: Seq<char>)
    ensures
        crate::history::play_dates(items).contains_key(id) <==> exists|i: int|
            0 <= i < items.len() && (#[trigger] items[i]).id == id,
        crate::history::item_ids(items).contains(id) <==> exists|i: int|
            0 <= i < items.len() && (#[trigger] items[i]).id == id,
{
    crate::laws::lineage::an_unknown_id_leads_nowhere(items, id);
    let ids = items.map_values(|item: MediaModel| item.id);
    if crate::history::item_ids(items).contains(id) {
        let k = choose|k: int| 0 <= k < ids.len() && ids[k] == id;
        assert(items[k].id == id);
    }
    if exists|i: int| 0 <= i < items.len() && (#[trigger] items[i]).id == id {
        let i = choose|i: int| 0 <= i < items.len() && (#[trigger] items[i]).id == id;
        assert(ids[i] == id);
    }
}

/// What is sorted is in order, and elements of which each may stand before the other keep
/// the order they had.
pub proof fn sorting_puts_in_order<M>(
    input: Seq<M>,
    output: Seq<M>,
    before: spec_fn(M, M) -> bool,
    i: int,
    j: int,
    x: M,
)
    requires
        crate::order::is_stable_sort(input, output, before),
    ensures
        0 <= i < j < output.len() ==> before(output[i], output[j]),
        output.filter(|y: M| before(x, y) && before(y, x)) == input.filter(
            |y: M| before(x, y) && before(y, x),
        ),
{
    assert(output.filter(crate::order::level_with(x, before)) == input.filter(
        crate::order::level_with(x, before),
    ));
    assert(crate::order::level_with(x, before) =~= (|y: M| before(x, y) && before(y, x)));
}

/// A sequence without repeats holds what the sequence with them holds, in the order in
/// which each first occurs.
pub proof fn repeats_are_left_out<A>(s: Seq<A>, a: A)
    ensures
        crate::grouping::distinct(Seq::<A>::empty()) == Seq::<A>::empty(),
        crate::grouping::distinct(s.push(a)) == if s.contains(a) {
            crate::grouping::distinct(s)
        } else {
            crate::grouping::distinct(s).push(a)
        },
{
    assert(s.push(a).drop_last() =~= s);
    crate::grouping::lemma_distinct(s);
    assert(crate::grouping::distinct(s).contains(a) <==> s.contains(a));
}

/// Of several plays of an item the one recorded last counts: with the date of the user,
/// or else that of the item.
pub proof fn the_last_play_recorded_counts(items: Seq<MediaModel>, i: int)
    requires
        0 <= i < items.len(),
        forall|j: int| i < j < items.len() ==> (#[trigger] items[j]).id != items[i].id,
    ensures
        crate::history::play_dates(items).contains_key(items[i].id),
        items[i].user_data matches Some(Some(date)) ==> crate::history::play_dates(
            items,
        )[items[i].id] == Some(date),
        !(items[i].user_data is Some && items[i].user_data->0 is Some)
            ==> crate::history::play_dates(items)[items[i].id] == items[i].last_played_date,
{
    crate::laws::lineage::an_item_is_found_by_its_id(items, i);
}

} // verus!
