//! Whose watching and whose favorites count.

use vstd::prelude::*;
use crate::model::JellyfinUser;
use crate::model::UserModel;

verus! {

/// The user called `name`; the last one where several are.
pub open spec fn user_named(users: Seq<UserModel>, name: Seq<char>) -> Option<UserModel>
    decreases users.len(),
{
    if users.len() == 0 {
        None
    } else if users.last().name == name {
        Some(users.last())
    } else {
        user_named(users.drop_last(), name)
    }
}

/// The user with the id `id`; the first one where several have it.
pub open spec fn user_with_id(users: Seq<UserModel>, id: Seq<char>) -> Option<UserModel>
    decreases users.len(),
{
    if users.len() == 0 {
        None
    } else if users[0].id == id {
        Some(users[0])
    } else {
        user_with_id(users.drop_first(), id)
    }
}

/// The id of the user called `name`.
pub open spec fn id_named(users: Seq<UserModel>) -> spec_fn(Seq<char>) -> Option<Seq<char>> {
    |name: Seq<char>|
        match user_named(users, name) {
            Some(user) => Some(user.id),
            None => None,
        }
}

/// The ids of `users`.
pub open spec fn ids_of(users: Seq<UserModel>) -> Seq<Seq<char>> {
    users.map_values(|user: UserModel| user.id)
}

/// The ids of the users that `names` stand for; of all users where there are no
/// names. A name that nobody has stands for nobody.
pub open spec fn ids_meant(users: Seq<UserModel>, names: Seq<Seq<char>>) -> Seq<Seq<char>> {
    if names.len() == 0 {
        ids_of(users)
    } else {
        names.filter_map(id_named(users))
    }
}

/// The ids of the users whose favorites are kept.
pub open spec fn protectors(
    users: Seq<UserModel>,
    protected_by: Seq<Seq<char>>,
    ignore_favorites: bool,
) -> Seq<Seq<char>> {
    if ignore_favorites {
        Seq::empty()
    } else {
        ids_meant(users, protected_by)
    }
}

/// The users who must have watched an item, and those whose favorites are kept.
#[derive(Debug)]
pub struct Audience {
    pub watched_ids: Vec<String>,
    pub protected_ids: Vec<String>,
    /// Whether users were named as protectors and none of them exists.
    pub protection_missing: bool,
}

/// The user called `name`.
pub fn find_user_named<'a>(users: &'a [JellyfinUser], name: &String) -> (user: Option<
    &'a JellyfinUser,
>)
    ensures
        user.deep_view() == user_named(users.deep_view(), name@),
{
    let ghost all = users.deep_view();
    let mut i: usize = users.len();
    assert(all.take(i as int) =~= all);
    while i > 0
        invariant
            i <= users.len(),
            all == users.deep_view(),
            user_named(all, name@) == user_named(all.take(i as int), name@),
        decreases i,
    {
        i -= 1;
        assert(all.take(i + 1).drop_last() =~= all.take(i as int));
        assert(all.take(i + 1).last() == users@[i as int].deep_view());
        if users[i].name == *name {
            return Some(&users[i]);
        }
    }
    None
}

/// The user with the id `id`.
pub fn find_user_with_id<'a>(users: &'a [JellyfinUser], id: &String) -> (user: Option<
    &'a JellyfinUser,
>)
    ensures
        user.deep_view() == user_with_id(users.deep_view(), id@),
{
    let ghost all = users.deep_view();
    let mut i: usize = 0;
    assert(all.skip(0) =~= all);
    while i < users.len()
        invariant
            i <= users.len(),
            all == users.deep_view(),
            user_with_id(all, id@) == user_with_id(all.skip(i as int), id@),
        decreases users.len() - i,
    {
        assert(all.skip(i as int).drop_first() =~= all.skip(i + 1));
        assert(all.skip(i as int)[0] == users@[i as int].deep_view());
        if users[i].id == *id {
            return Some(&users[i]);
        }
        i += 1;
    }
    None
}

/// The ids of the users that `names` stand for; of all users where there are no
/// names.
pub fn resolve_names(users: &[JellyfinUser], names: &[String]) -> (ids: Vec<String>)
    ensures
        ids.deep_view() == ids_meant(users.deep_view(), names.deep_view()),
{
    let ghost all = users.deep_view();
    let mut ids: Vec<String> = Vec::new();
    let mut i: usize = 0;
    if names.len() == 0 {
        while i < users.len()
            invariant
                i <= users.len(),
                all == users.deep_view(),
                ids.deep_view() == ids_of(all.take(i as int)),
            decreases users.len() - i,
        {
            let ghost before = ids.deep_view();
            ids.push(users[i].id.clone());
            assert(ids.deep_view() =~= before.push(all[i as int].id));
            assert(ids_of(all.take(i + 1)) =~= before.push(all[i as int].id));
            i += 1;
        }
        assert(all.take(i as int) =~= all);
    } else {
        let ghost wanted = names.deep_view();
        assert(ids.deep_view() =~= wanted.take(0).filter_map(id_named(all)));
        while i < names.len()
            invariant
                i <= names.len(),
                all == users.deep_view(),
                wanted == names.deep_view(),
                ids.deep_view() == wanted.take(i as int).filter_map(id_named(all)),
            decreases names.len() - i,
        {
            let ghost before = ids.deep_view();
            proof {
                wanted.lemma_filter_map_take_succ(id_named(all), i as int);
            }
            match find_user_named(users, &names[i]) {
                Some(user) => {
                    ids.push(user.id.clone());
                    assert(ids.deep_view() =~= before + seq![user.id@]);
                },
                None => {
                    assert(ids.deep_view() =~= before + Seq::empty());
                },
            }
            i += 1;
        }
        assert(wanted.take(i as int) =~= wanted);
    }
    ids
}

/// Finds out who counts. `None` where watchers were named and none of them exists:
/// then nothing is to be deleted.
pub fn choose_audience(
    users: &[JellyfinUser],
    watched_by: &[String],
    protected_by: &[String],
    ignore_favorites: bool,
) -> (audience: Option<Audience>)
    ensures
        audience is None <==> watched_by.deep_view().len() > 0 && ids_meant(
            users.deep_view(),
            watched_by.deep_view(),
        ).len() == 0,
        audience matches Some(a) ==> {
            &&& a.watched_ids.deep_view() == ids_meant(users.deep_view(), watched_by.deep_view())
            &&& a.protected_ids.deep_view() == protectors(
                users.deep_view(),
                protected_by.deep_view(),
                ignore_favorites,
            )
            &&& a.protection_missing <==> protected_by.deep_view().len() > 0
                && a.protected_ids.deep_view().len() == 0
        },
{
    let watched_ids = resolve_names(users, watched_by);
    if watched_by.len() > 0 && watched_ids.len() == 0 {
        return None;
    }
    let protected_ids = if ignore_favorites {
        let nobody: Vec<String> = Vec::new();
        assert(nobody.deep_view() =~= Seq::empty());
        nobody
    } else {
        resolve_names(users, protected_by)
    };
    let protection_missing: bool = protected_by.len() > 0 && protected_ids.len() == 0;
    Some(Audience { watched_ids, protected_ids, protection_missing })
}

/// The first of `names` that nobody has.
pub open spec fn first_unknown(users: Seq<UserModel>, names: Seq<Seq<char>>) -> Option<Seq<char>>
    decreases names.len(),
{
    if names.len() == 0 {
        None
    } else if user_named(users, names[0]) is None {
        Some(names[0])
    } else {
        first_unknown(users, names.drop_first())
    }
}

/// The first of `names` that nobody has.
pub fn find_unknown_user(users: &[JellyfinUser], names: &[String]) -> (name: Option<String>)
    ensures
        name.deep_view() == first_unknown(users.deep_view(), names.deep_view()),
{
    let ghost all = users.deep_view();
    let ghost wanted = names.deep_view();
    let mut i: usize = 0;
    assert(wanted.skip(0) =~= wanted);
    while i < names.len()
        invariant
            i <= names.len(),
            all == users.deep_view(),
            wanted == names.deep_view(),
            first_unknown(all, wanted) == first_unknown(all, wanted.skip(i as int)),
        decreases names.len() - i,
    {
        assert(wanted.skip(i as int).drop_first() =~= wanted.skip(i + 1));
        assert(wanted.skip(i as int)[0] == names@[i as int]@);
        match find_user_named(users, &names[i]) {
            Some(_) => {},
            None => {
                return Some(names[i].clone());
            },
        }
        i += 1;
    }
    None
}

} // verus!
