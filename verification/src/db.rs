//! What the backend makes of the rows its queries return: records or the
//! messages that say nothing was found, the ids of inserted rows, and the
//! lists it assembles from several queries.

use vstd::prelude::*;
use crate::cats::{CatDB, CatDisp, CatPlacesResponse, FeedingDB, FeedingInfo, BreedDB};
use crate::jwt::TokenDB;
use crate::posts::{CommentDisp, PostDisp, PostsContentDB};
use crate::text::{joined, decimal, u32_to_decimal};
use crate::time::Time;
use crate::user::{User, UserDB};

verus! {

/// The row a query found, or the message that says it found none.
pub fn row_or<T>(row: Option<T>, missing: &str) -> (r: Result<T, String>)
    ensures
        row matches Some(v) ==> r == Ok::<T, String>(v),
        row is None ==> (r matches Err(m) && m@ == missing@),
{
    match row {
        Some(v) => Ok(v),
        None => Err(String::from_str(missing)),
    }
}

/// The record of a token found by value, valid as of `now`; or the message
/// "no token found for <token>".
pub fn token_record(row: Option<(String, u32)>, token: &str, now: Time) -> (r: Result<TokenDB, String>)
    ensures
        row matches Some((t, uid)) ==> r matches Ok(rec) && rec.token == t && rec.uid == uid && rec.exp == now,
        row is None ==> (r matches Err(m) && m@ == "no token found for "@ + token@),
{
    match row {
        Some((t, uid)) => Ok(TokenDB { token: t, exp: now, uid }),
        None => Err(joined("no token found for ", token)),
    }
}

/// The record of user `uid` read from its columns, with an empty password;
/// or the message "no uid found for <uid>".
pub fn user_record(row: Option<(u32, String, u32, String, String)>, uid: u32) -> (r: Result<UserDB, String>)
    ensures
        row matches Some((userId, username, imageId, usernick, motto)) ==> r matches Ok(u) && u.userId == userId
            && u.username == username && u.imageId == imageId && u.usernick == usernick && u.motto == motto
            && u.passwd@ == Seq::<char>::empty(),
        row is None ==> (r matches Err(m) && m@ == "no uid found for "@ + decimal(uid as nat)),
{
    match row {
        Some((userId, username, imageId, usernick, motto)) => Ok(
            UserDB { userId, username, imageId, usernick, motto, passwd: String::new() },
        ),
        None => {
            let id = u32_to_decimal(uid);
            Err(joined("no uid found for ", id.as_str()))
        },
    }
}

/// The id of a freshly inserted row, cut to 32 bits.
pub fn insert_id(last_insert_id: u64) -> (r: u32)
    ensures
        r == last_insert_id as u32,
{
    last_insert_id as u32
}

/// The id of a breed after trying to insert it: the new row's id when the
/// insert went through, else the id of the breed of that name found instead;
/// "can not insert!" when there is neither.
pub fn breed_insert_result(inserted: Option<u64>, found: Option<BreedDB>) -> (r: Result<u32, String>)
    ensures
        inserted matches Some(id) ==> r == Ok::<u32, String>(id as u32),
        inserted is None && found is Some ==> r == Ok::<u32, String>(found->0.breedId),
        inserted is None && found is None ==> (r matches Err(m) && m@ == "can not insert!"@),
{
    match inserted {
        Some(id) => Ok(insert_id(id)),
        None => match found {
            Some(b) => Ok(b.breedId),
            None => Err(String::from_str("can not insert!")),
        },
    }
}

/// The cat `c` shown with its breed, or the error of the breed lookup.
pub fn cat_disp_result(c: CatDB, breed: Result<BreedDB, String>) -> (r: Result<CatDisp, String>)
    ensures
        breed matches Ok(b) ==> r matches Ok(d) && d.shows(c, b),
        breed matches Err(e) ==> r == Err::<CatDisp, String>(e),
{
    match breed {
        Ok(b) => Ok(CatDisp::from_db(c, b)),
        Err(e) => Err(e),
    }
}

/// A post assembled from its stored text, its author and the lists read
/// for it.
pub fn post_from_parts(
    id: u32,
    content: PostsContentDB,
    user: User,
    images: Vec<String>,
    comments: Vec<CommentDisp>,
    places: Vec<String>,
    cats: Vec<CatDB>,
) -> (r: PostDisp)
    ensures
        r.postId == id,
        r.text == content.postText,
        r.time == content.postTime,
        r.user == user,
        r.images == images,
        r.comments == comments,
        r.places == places,
        r.cats == cats,
{
    PostDisp { postId: id, user, images, comments, places, cats, text: content.postText, time: content.postTime }
}

/// The posts that loaded and have an id, in order: a post that failed to
/// load stands as the empty post, whose id 0 drops it.
pub open spec fn kept_posts(s: Seq<Option<PostDisp>>) -> Seq<PostDisp>
    decreases s.len(),
{
    if s.len() == 0 {
        Seq::empty()
    } else {
        let rest = kept_posts(s.drop_last());
        if s.last() matches Some(p) && p.postId != 0 {
            rest.push(s.last()->0)
        } else {
            rest
        }
    }
}

/// The list of posts from the results of loading each one.
pub fn collect_posts(loaded: Vec<Option<PostDisp>>) -> (r: Vec<PostDisp>)
    ensures
        r@ == kept_posts(loaded@),
{
    let ghost all = loaded@;
    let mut r: Vec<PostDisp> = Vec::new();
    for x in it: loaded.into_iter()
        invariant
            it.seq() == all,
            r@ == kept_posts(all.take(it.index() as int)),
    {
        let ghost k = it.index();
        assert(all.take(k + 1).drop_last() =~= all.take(k as int));
        assert(all.take(k + 1).last() == x);
        match x {
            Some(p) => {
                if p.postId != 0 {
                    r.push(p);
                }
            },
            None => {},
        }
    }
    assert(all.take(all.len() as int) =~= all);
    r
}

/// Every post in the list has an id other than 0.
pub proof fn law_kept_posts_have_ids(s: Seq<Option<PostDisp>>)
    ensures
        forall|k: int| 0 <= k < kept_posts(s).len() ==> (#[trigger] kept_posts(s)[k]).postId != 0,
        kept_posts(s).len() <= s.len(),
    decreases s.len(),
{
    if s.len() > 0 {
        law_kept_posts_have_ids(s.drop_last());
        let rest = kept_posts(s.drop_last());
        assert forall|k: int| 0 <= k < kept_posts(s).len() implies (#[trigger] kept_posts(s)[k]).postId != 0 by {
            if k < rest.len() {
                assert(kept_posts(s)[k] == rest[k]);
            }
        }
    }
}

/// The list of posts is exactly the loaded posts whose id is not 0, in the
/// order they were loaded, whatever their other fields: every such post is
/// listed, and nothing else is.
pub proof fn law_posts_with_ids_listed(s: Seq<Option<PostDisp>>)
    ensures
        kept_posts(s) == s.filter(|x: Option<PostDisp>| x matches Some(p) && p.postId != 0).map_values(
            |x: Option<PostDisp>| x->0,
        ),
        forall|k: int| 0 <= k < s.len() && (#[trigger] s[k]) is Some && s[k]->0.postId != 0 ==> kept_posts(
            s,
        ).contains(s[k]->0),
    decreases s.len(),
{
    reveal(Seq::filter);
    let pred = |x: Option<PostDisp>| x matches Some(p) && p.postId != 0;
    let f = |x: Option<PostDisp>| x->0;
    if s.len() > 0 {
        law_posts_with_ids_listed(s.drop_last());
        let sub = s.drop_last().filter(pred);
        if pred(s.last()) {
            assert(sub.push(s.last()).map_values(f) =~= sub.map_values(f).push(f(s.last())));
        }
    }
    assert forall|k: int| 0 <= k < s.len() && (#[trigger] s[k]) is Some && s[k]->0.postId != 0 implies kept_posts(
        s,
    ).contains(s[k]->0) by {
        s.lemma_filter_contains(pred, k);
        let j = choose|j: int| 0 <= j < s.filter(pred).len() && s.filter(pred)[j] == s[k];
        assert(kept_posts(s)[j] == f(s[k]));
    }
}

/// The cats that were seen somewhere, each with its places, in order: a
/// cat whose places could not be read counts as seen nowhere.
pub open spec fn seen_cats(s: Seq<(CatDB, Option<Vec<String>>)>) -> Seq<(CatDB, Seq<String>)>
    decreases s.len(),
{
    if s.len() == 0 {
        Seq::empty()
    } else {
        let rest = seen_cats(s.drop_last());
        if s.last().1 matches Some(p) && p@.len() > 0 {
            rest.push((s.last().0, s.last().1->0@))
        } else {
            rest
        }
    }
}

/// The map of cats from each cat and the result of reading its places.
pub fn cats_with_places(found: Vec<(CatDB, Option<Vec<String>>)>) -> (r: Vec<CatPlacesResponse>)
    ensures
        r@.map_values(|c: CatPlacesResponse| (c.cat, c.places@)) == seen_cats(found@),
{
    let ghost all = found@;
    let mut r: Vec<CatPlacesResponse> = Vec::new();
    for x in it: found.into_iter()
        invariant
            it.seq() == all,
            r@.map_values(|c: CatPlacesResponse| (c.cat, c.places@)) == seen_cats(all.take(it.index() as int)),
    {
        let ghost k = it.index();
        let ghost before = r@;
        assert(all.take(k + 1).drop_last() =~= all.take(k as int));
        assert(all.take(k + 1).last() == x);
        let (cat, places) = x;
        match places {
            Some(p) => {
                if p.len() > 0 {
                    let item = CatPlacesResponse { cat, places: p };
                    r.push(item);
                    assert(r@.map_values(|c: CatPlacesResponse| (c.cat, c.places@)) =~= before.map_values(
                        |c: CatPlacesResponse| (c.cat, c.places@),
                    ).push((item.cat, item.places@)));
                }
            },
            None => {},
        }
    }
    assert(all.take(all.len() as int) =~= all);
    r
}

/// Every cat on the map was seen at least once.
pub proof fn law_seen_cats_have_places(s: Seq<(CatDB, Option<Vec<String>>)>)
    ensures
        forall|k: int| 0 <= k < seen_cats(s).len() ==> (#[trigger] seen_cats(s)[k]).1.len() > 0,
    decreases s.len(),
{
    if s.len() > 0 {
        law_seen_cats_have_places(s.drop_last());
        let rest = seen_cats(s.drop_last());
        assert forall|k: int| 0 <= k < seen_cats(s).len() implies (#[trigger] seen_cats(s)[k]).1.len() > 0 by {
            if k < rest.len() {
                assert(seen_cats(s)[k] == rest[k]);
            }
        }
    }
}

/// The map holds exactly the cats whose places were read and are not empty,
/// each with those places, in order, whatever the cat's other fields: every
/// such cat is on the map, and nothing else is.
pub proof fn law_cats_with_places_listed(s: Seq<(CatDB, Option<Vec<String>>)>)
    ensures
        seen_cats(s) == s.filter(|x: (CatDB, Option<Vec<String>>)| x.1 is Some && x.1->0@.len() > 0).map_values(
            |x: (CatDB, Option<Vec<String>>)| (x.0, x.1->0@),
        ),
        forall|k: int| 0 <= k < s.len() && (#[trigger] s[k]).1 is Some && s[k].1->0@.len() > 0 ==> seen_cats(
            s,
        ).contains((s[k].0, s[k].1->0@)),
    decreases s.len(),
{
    reveal(Seq::filter);
    let pred = |x: (CatDB, Option<Vec<String>>)| x.1 is Some && x.1->0@.len() > 0;
    let f = |x: (CatDB, Option<Vec<String>>)| (x.0, x.1->0@);
    if s.len() > 0 {
        law_cats_with_places_listed(s.drop_last());
        let sub = s.drop_last().filter(pred);
        if pred(s.last()) {
            assert(sub.push(s.last()).map_values(f) =~= sub.map_values(f).push(f(s.last())));
        }
    }
    assert forall|k: int| 0 <= k < s.len() && (#[trigger] s[k]).1 is Some && s[k].1->0@.len() > 0 implies seen_cats(
        s,
    ).contains((s[k].0, s[k].1->0@)) by {
        s.lemma_filter_contains(pred, k);
        let j = choose|j: int| 0 <= j < s.filter(pred).len() && s.filter(pred)[j] == s[k];
        assert(seen_cats(s)[j] == f(s[k]));
    }
}

/// First step of the feeding list: each cat with an id other than 0, paired
/// with its last feeding (no feeding where none was found), in order.
pub open spec fn fed_cats(s: Seq<(CatDB, Option<FeedingDB>)>) -> Seq<(CatDB, Option<FeedingDB>)>
    decreases s.len(),
{
    if s.len() == 0 {
        Seq::empty()
    } else {
        let rest = fed_cats(s.drop_last());
        if s.last().0.catId > 0 {
            rest.push(s.last())
        } else {
            rest
        }
    }
}

/// Pairs each cat with an id with its last feeding, or with the empty
/// feeding where none was found.
pub fn feeding_candidates(found: Vec<(CatDB, Option<FeedingDB>)>) -> (r: Vec<(CatDB, FeedingDB)>)
    ensures
        r@.len() == fed_cats(found@).len(),
        forall|k: int| #![trigger r@[k]] 0 <= k < r@.len() ==> {
            &&& r@[k].0 == fed_cats(found@)[k].0
            &&& (fed_cats(found@)[k].1 matches Some(f) ==> r@[k].1 == f)
            &&& (fed_cats(found@)[k].1 is None ==> r@[k].1.is_default())
        },
{
    let ghost all = found@;
    let mut r: Vec<(CatDB, FeedingDB)> = Vec::new();
    for x in it: found.into_iter()
        invariant
            it.seq() == all,
            r@.len() == fed_cats(all.take(it.index() as int)).len(),
            forall|k: int| #![trigger r@[k]] 0 <= k < r@.len() ==> {
                &&& r@[k].0 == fed_cats(all.take(it.index() as int))[k].0
                &&& (fed_cats(all.take(it.index() as int))[k].1 matches Some(f) ==> r@[k].1 == f)
                &&& (fed_cats(all.take(it.index() as int))[k].1 is None ==> r@[k].1.is_default())
            },
    {
        let ghost k = it.index();
        let ghost prev = fed_cats(all.take(k as int));
        assert(all.take(k + 1).drop_last() =~= all.take(k as int));
        assert(all.take(k + 1).last() == x);
        let (cat, last) = x;
        if cat.catId > 0 {
            let f = match last {
                Some(f) => f,
                None => FeedingDB::default(),
            };
            r.push((cat, f));
            assert(fed_cats(all.take(k + 1)) == prev.push(x));
        }
    }
    assert(all.take(all.len() as int) =~= all);
    r
}

/// Second step of the feeding list: the rows whose feeder was found and has
/// an id other than 0, with that feeder, in order.
pub open spec fn with_known_feeder(s: Seq<(CatDB, FeedingDB, Option<User>)>) -> Seq<(CatDB, FeedingDB, User)>
    decreases s.len(),
{
    if s.len() == 0 {
        Seq::empty()
    } else {
        let rest = with_known_feeder(s.drop_last());
        if s.last().2 matches Some(u) && u.uid > 0 {
            rest.push((s.last().0, s.last().1, s.last().2->0))
        } else {
            rest
        }
    }
}

/// Keeps the rows whose feeder is a known user (a feeder that was not found
/// stands as the user with id 0).
pub fn with_feeders(found: Vec<(CatDB, FeedingDB, Option<User>)>) -> (r: Vec<(CatDB, FeedingDB, User)>)
    ensures
        r@ == with_known_feeder(found@),
{
    let ghost all = found@;
    let mut r: Vec<(CatDB, FeedingDB, User)> = Vec::new();
    for x in it: found.into_iter()
        invariant
            it.seq() == all,
            r@ == with_known_feeder(all.take(it.index() as int)),
    {
        let ghost k = it.index();
        assert(all.take(k + 1).drop_last() =~= all.take(k as int));
        assert(all.take(k + 1).last() == x);
        let (cat, f, user) = x;
        match user {
            Some(u) => {
                if u.uid > 0 {
                    r.push((cat, f, u));
                }
            },
            None => {},
        }
    }
    assert(all.take(all.len() as int) =~= all);
    r
}

/// Last step of the feeding list: the rows whose cat could be shown and has
/// an id other than 0, in order.
pub open spec fn shown_feedings(s: Seq<(Option<CatDisp>, FeedingDB, User)>) -> Seq<FeedingInfo>
    decreases s.len(),
{
    if s.len() == 0 {
        Seq::empty()
    } else {
        let rest = shown_feedings(s.drop_last());
        if s.last().0 matches Some(c) && c.catId > 0 {
            rest.push(FeedingInfo { cat: s.last().0->0, last: s.last().1, user: s.last().2 })
        } else {
            rest
        }
    }
}

/// The list of cats to feed from each row and the result of showing its
/// cat (a cat that could not be shown stands as the cat with id 0).
pub fn feeding_infos(found: Vec<(Option<CatDisp>, FeedingDB, User)>) -> (r: Vec<FeedingInfo>)
    ensures
        r@ == shown_feedings(found@),
{
    let ghost all = found@;
    let mut r: Vec<FeedingInfo> = Vec::new();
    for x in it: found.into_iter()
        invariant
            it.seq() == all,
            r@ == shown_feedings(all.take(it.index() as int)),
    {
        let ghost k = it.index();
        assert(all.take(k + 1).drop_last() =~= all.take(k as int));
        assert(all.take(k + 1).last() == x);
        let (cat, last, user) = x;
        match cat {
            Some(c) => {
                if c.catId > 0 {
                    r.push(FeedingInfo { cat: c, last, user });
                }
            },
            None => {},
        }
    }
    assert(all.take(all.len() as int) =~= all);
    r
}

/// The cats considered for feeding are exactly the cats with an id other
/// than 0, in order, each with its last feeding unchanged.
pub proof fn law_fed_cats_keep_rows(s: Seq<(CatDB, Option<FeedingDB>)>)
    ensures
        fed_cats(s) == s.filter(|x: (CatDB, Option<FeedingDB>)| x.0.catId > 0),
        forall|j: int| 0 <= j < s.len() && (#[trigger] s[j]).0.catId > 0 ==> fed_cats(s).contains(s[j]),
    decreases s.len(),
{
    reveal(Seq::filter);
    let pred = |x: (CatDB, Option<FeedingDB>)| x.0.catId > 0;
    if s.len() > 0 {
        law_fed_cats_keep_rows(s.drop_last());
    }
    assert forall|j: int| 0 <= j < s.len() && (#[trigger] s[j]).0.catId > 0 implies fed_cats(s).contains(s[j]) by {
        s.lemma_filter_contains(pred, j);
    }
}

/// The rows that pass the feeder step are exactly those whose feeder was
/// found as a user with an id other than 0, in order, with the cat and the
/// feeding of the row unchanged.
pub proof fn law_known_feeders_keep_rows(s: Seq<(CatDB, FeedingDB, Option<User>)>)
    ensures
        with_known_feeder(s) == s.filter(|x: (CatDB, FeedingDB, Option<User>)| x.2 is Some && x.2->0.uid > 0).map_values(
            |x: (CatDB, FeedingDB, Option<User>)| (x.0, x.1, x.2->0),
        ),
        forall|j: int| 0 <= j < s.len() && (#[trigger] s[j]).2 is Some && s[j].2->0.uid > 0 ==> with_known_feeder(
            s,
        ).contains((s[j].0, s[j].1, s[j].2->0)),
    decreases s.len(),
{
    reveal(Seq::filter);
    let pred = |x: (CatDB, FeedingDB, Option<User>)| x.2 is Some && x.2->0.uid > 0;
    let f = |x: (CatDB, FeedingDB, Option<User>)| (x.0, x.1, x.2->0);
    if s.len() > 0 {
        law_known_feeders_keep_rows(s.drop_last());
        let sub = s.drop_last().filter(pred);
        if pred(s.last()) {
            assert(sub.push(s.last()).map_values(f) =~= sub.map_values(f).push(f(s.last())));
        }
    }
    assert forall|j: int| 0 <= j < s.len() && (#[trigger] s[j]).2 is Some && s[j].2->0.uid > 0 implies with_known_feeder(
        s,
    ).contains((s[j].0, s[j].1, s[j].2->0)) by {
        s.lemma_filter_contains(pred, j);
        let i = choose|i: int| 0 <= i < s.filter(pred).len() && s.filter(pred)[i] == s[j];
        assert(with_known_feeder(s)[i] == f(s[j]));
    }
}

/// Every row that passes the feeder step has a known feeder.
pub proof fn law_feeders_known(s: Seq<(CatDB, FeedingDB, Option<User>)>)
    ensures
        forall|k: int| 0 <= k < with_known_feeder(s).len() ==> (#[trigger] with_known_feeder(s)[k]).2.uid > 0,
    decreases s.len(),
{
    if s.len() > 0 {
        law_feeders_known(s.drop_last());
        let rest = with_known_feeder(s.drop_last());
        assert forall|k: int| 0 <= k < with_known_feeder(s).len() implies (#[trigger] with_known_feeder(s)[k]).2.uid > 0 by {
            if k < rest.len() {
                assert(with_known_feeder(s)[k] == rest[k]);
            }
        }
    }
}

/// Every entry of the list of cats to feed shows a cat with an id, and
/// keeps the feeder it was given: when all feeders are known users, so are
/// the feeders of the list.
pub proof fn law_feedings_shown(s: Seq<(Option<CatDisp>, FeedingDB, User)>)
    ensures
        forall|k: int| 0 <= k < shown_feedings(s).len() ==> (#[trigger] shown_feedings(s)[k]).cat.catId > 0,
        (forall|j: int| 0 <= j < s.len() ==> (#[trigger] s[j]).2.uid > 0) ==> forall|k: int|
            0 <= k < shown_feedings(s).len() ==> (#[trigger] shown_feedings(s)[k]).user.uid > 0,
    decreases s.len(),
{
    if s.len() > 0 {
        let init = s.drop_last();
        law_feedings_shown(init);
        let rest = shown_feedings(init);
        if forall|j: int| 0 <= j < s.len() ==> (#[trigger] s[j]).2.uid > 0 {
            assert forall|j: int| 0 <= j < init.len() implies (#[trigger] init[j]).2.uid > 0 by {
                assert(init[j] == s[j]);
            }
            assert(s[s.len() - 1].2.uid > 0);
        }
        assert forall|k: int| 0 <= k < shown_feedings(s).len() implies (#[trigger] shown_feedings(s)[k]).cat.catId > 0 by {
            if k < rest.len() {
                assert(shown_feedings(s)[k] == rest[k]);
            }
        }
        if forall|j: int| 0 <= j < s.len() ==> (#[trigger] s[j]).2.uid > 0 {
            assert forall|k: int| 0 <= k < shown_feedings(s).len() implies (#[trigger] shown_feedings(s)[k]).user.uid > 0 by {
                if k < rest.len() {
                    assert(shown_feedings(s)[k] == rest[k]);
                }
            }
        }
    }
}

/// The list of cats to feed holds exactly the rows whose cat could be shown
/// and has an id other than 0, in order, each with the feeding and the
/// feeder of its row unchanged: every entry comes from such a row, and every
/// such row gives an entry.
pub proof fn law_feedings_keep_rows(s: Seq<(Option<CatDisp>, FeedingDB, User)>)
    ensures
        shown_feedings(s) == s.filter(|x: (Option<CatDisp>, FeedingDB, User)| x.0 is Some && x.0->0.catId > 0).map_values(
            |x: (Option<CatDisp>, FeedingDB, User)| FeedingInfo { cat: x.0->0, last: x.1, user: x.2 },
        ),
        forall|k: int| 0 <= k < shown_feedings(s).len() ==> exists|j: int| 0 <= j < s.len() && s[j] == (
            Some((#[trigger] shown_feedings(s)[k]).cat),
            shown_feedings(s)[k].last,
            shown_feedings(s)[k].user,
        ),
        forall|j: int| 0 <= j < s.len() && (#[trigger] s[j]).0 is Some && s[j].0->0.catId > 0 ==> shown_feedings(
            s,
        ).contains(FeedingInfo { cat: s[j].0->0, last: s[j].1, user: s[j].2 }),
    decreases s.len(),
{
    reveal(Seq::filter);
    let pred = |x: (Option<CatDisp>, FeedingDB, User)| x.0 is Some && x.0->0.catId > 0;
    let f = |x: (Option<CatDisp>, FeedingDB, User)| FeedingInfo { cat: x.0->0, last: x.1, user: x.2 };
    if s.len() > 0 {
        law_feedings_keep_rows(s.drop_last());
        let sub = s.drop_last().filter(pred);
        if pred(s.last()) {
            assert(sub.push(s.last()).map_values(f) =~= sub.map_values(f).push(f(s.last())));
        }
    }
    let out = s.filter(pred);
    assert forall|k: int| 0 <= k < shown_feedings(s).len() implies exists|j: int| 0 <= j < s.len() && s[j] == (
        Some((#[trigger] shown_feedings(s)[k]).cat),
        shown_feedings(s)[k].last,
        shown_feedings(s)[k].user,
    ) by {
        s.lemma_filter_pred(pred, k);
        assert(out.contains(out[k]));
        s.lemma_filter_contains_rev(pred, out[k]);
        let j = choose|j: int| 0 <= j < s.len() && s[j] == out[k];
        assert(shown_feedings(s)[k] == f(out[k]));
        assert(s[j] == (Some(shown_feedings(s)[k].cat), shown_feedings(s)[k].last, shown_feedings(s)[k].user));
    }
    assert forall|j: int| 0 <= j < s.len() && (#[trigger] s[j]).0 is Some && s[j].0->0.catId > 0 implies shown_feedings(
        s,
    ).contains(FeedingInfo { cat: s[j].0->0, last: s[j].1, user: s[j].2 }) by {
        s.lemma_filter_contains(pred, j);
        let i = choose|i: int| 0 <= i < out.len() && out[i] == s[j];
        assert(shown_feedings(s)[i] == f(s[j]));
    }
}

} // verus!
