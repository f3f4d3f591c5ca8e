//! What the frontend's forms send and show: login and register bodies,
//! new cats, breeds, feedings and posts, the picking of places and cats for
//! a post, and which chosen files still have to be uploaded.

use vstd::prelude::*;
use crate::cats::{BreedDB, BreedPost, CatDB, FeedingDB};
use crate::places::{PlaceDB, PlacePost};
use crate::posts::PostsPost;
use crate::text::{joined, decimal, parse_u32, spec_parse_u32, same_text, u32_to_decimal};
use crate::time::Time;
use crate::user::{LoginPost, RegisterPost, User};

verus! {

/// The SHA-256 digest of the UTF-8 bytes of `input`, as lower-case hex.
pub uninterp spec fn sha256_hex(input: Seq<char>) -> Seq<char>;

/// A lower-case hexadecimal digit.
pub open spec fn is_lower_hex(c: char) -> bool {
    ('0' <= c && c <= '9') || ('a' <= c && c <= 'f')
}

/// Calls `sha256::digest` on the text. Claimed: it returns `sha256_hex(input)`,
/// which is 64 lower-case hex digits (the crate hex-encodes the 32 bytes of
/// the digest with `hex::encode`).
#[verifier::external_body]
fn sha256_digest(input: &str) -> (r: String)
    ensures
        r@ == sha256_hex(input@),
        r@.len() == 64,
        forall|i: int| 0 <= i < 64 ==> is_lower_hex(#[trigger] r@[i]),
{
    sha256::digest(input)
}

/// The login request for a user name and a password: the password travels
/// only as its SHA-256 digest.
pub fn login_post(username: String, passwd: &str) -> (r: LoginPost)
    ensures
        r.username == username,
        r.passwd@ == sha256_hex(passwd@),
        r.passwd@.len() == 64,
{
    LoginPost { username, passwd: sha256_digest(passwd) }
}

/// Id of the image that new users get as their head picture: the first
/// image of a fresh database.
pub const DEFAULT_HEAD: u32 = 1;

/// The register request for a new user: no id yet, the default head
/// picture, and the password as its SHA-256 digest.
pub fn register_post(username: String, passwd: &str, usernick: String, motto: String) -> (r: RegisterPost)
    ensures
        r.user.username == username,
        r.user.uid == 0,
        r.user.head == DEFAULT_HEAD,
        r.user.usernick == usernick,
        r.user.motto == motto,
        r.passwd@ == sha256_hex(passwd@),
{
    RegisterPost {
        user: User { username, uid: 0, head: DEFAULT_HEAD, usernick, motto },
        passwd: sha256_digest(passwd),
    }
}

/// The number a form field holds, or 0 where it holds no `u32`.
pub open spec fn field_id(s: Seq<char>) -> u32 {
    match spec_parse_u32(s) {
        Some(n) => n,
        None => 0,
    }
}

/// The feeding that the feeding form registers for user `uid`: the cat and
/// place ids read from their fields (0 where unreadable).
pub fn feeding_from_form(uid: u32, feed_time: Time, food: String, amount: String, cat: &str, place: &str) -> (r: FeedingDB)
    ensures
        r.catId == field_id(cat@),
        r.userId == uid,
        r.placeId == field_id(place@),
        r.feedTime == feed_time,
        r.feedFood == food,
        r.feedAmount == amount,
{
    let catId = match parse_u32(cat) {
        Some(n) => n,
        None => 0,
    };
    let placeId = match parse_u32(place) {
        Some(n) => n,
        None => 0,
    };
    FeedingDB { catId, userId: uid, placeId, feedTime: feed_time, feedFood: food, feedAmount: amount }
}

/// The cat that the cat form registers: no id yet, at school, with no
/// whereabouts or health notes.
pub fn new_cat(breedId: u32, name: String, foundTime: Time, source: String) -> (r: CatDB)
    ensures
        r.catId == 0,
        r.breedId == breedId,
        r.name == name,
        r.foundTime == foundTime,
        r.source == source,
        r.atSchool,
        r.whereabouts@ == Seq::<char>::empty(),
        r.health@ == Seq::<char>::empty(),
{
    CatDB {
        catId: 0,
        breedId,
        name,
        foundTime,
        source,
        atSchool: true,
        whereabouts: String::new(),
        health: String::new(),
    }
}

/// The breed that the breed form adds, unless its name is empty.
pub fn breed_post(name: String, desc: String) -> (r: Option<BreedPost>)
    ensures
        name@.len() == 0 ==> r is None,
        name@.len() > 0 ==> r == Some(BreedPost { name, desc }),
{
    if name.unicode_len() == 0 {
        None
    } else {
        Some(BreedPost { name, desc })
    }
}

/// Whether the breed page reloads once a breed was sent and the id it has
/// in the database came back: only for an id above 1, the id that a failed
/// request or an empty form stands for being 0 or 1.
pub fn reload_after_breed(id: u32) -> (r: bool)
    ensures
        r == (id > 1),
{
    id > 1
}

/// The place that the place form adds, unless its text is empty.
pub fn place_post(details: String) -> (r: Option<PlacePost>)
    ensures
        details@.len() == 0 ==> r is None,
        details@.len() > 0 ==> r == Some(PlacePost { details }),
{
    if details.unicode_len() == 0 {
        None
    } else {
        Some(PlacePost { details })
    }
}

/// Whether the post page reloads once a new place was sent and `code` came
/// back as the reply's code: for every code but 0.
pub fn reload_after_place(code: usize) -> (r: bool)
    ensures
        r == (code != 0),
{
    code != 0
}

/// The description of the last breed whose id, in decimal, is `choice`.
pub open spec fn chosen_desc(breeds: Seq<BreedDB>, choice: Seq<char>) -> Option<Seq<char>>
    decreases breeds.len(),
{
    if breeds.len() == 0 {
        None
    } else if decimal(breeds.last().breedId as nat) == choice {
        Some(breeds.last().breedDesc@)
    } else {
        chosen_desc(breeds.drop_last(), choice)
    }
}

/// The description to show for the breed chosen in the breed list.
pub fn breed_desc_for(breeds: &Vec<BreedDB>, choice: &str) -> (r: Option<String>)
    ensures
        r matches Some(d) ==> chosen_desc(breeds@, choice@) == Some(d@),
        r is None ==> chosen_desc(breeds@, choice@) is None,
{
    let mut i = breeds.len();
    assert(breeds@.take(i as int) =~= breeds@);
    while i > 0
        invariant
            i <= breeds@.len(),
            chosen_desc(breeds@, choice@) == chosen_desc(breeds@.take(i as int), choice@),
        decreases i,
    {
        let b = &breeds[i - 1];
        let id = u32_to_decimal(b.breedId);
        assert(breeds@.take(i as int).last() == breeds@[i - 1]);
        assert(breeds@.take(i as int).drop_last() =~= breeds@.take(i - 1));
        if same_text(id.as_str(), choice) {
            return Some(b.breedDesc.clone());
        }
        i = i - 1;
    }
    None
}

/// Choosing a breed shows the description of the last breed whose id, in
/// decimal, is the choice, whatever that description is (an empty one
/// included); where no breed has that id, nothing is shown.
pub proof fn law_chosen_breed_desc(breeds: Seq<BreedDB>, choice: Seq<char>)
    ensures
        forall|j: int| 0 <= j < breeds.len() && decimal((#[trigger] breeds[j]).breedId as nat) == choice && (forall|
            k: int,
        | j < k < breeds.len() ==> decimal(breeds[k].breedId as nat) != choice) ==> chosen_desc(breeds, choice)
            == Some(breeds[j].breedDesc@),
        (forall|k: int| 0 <= k < breeds.len() ==> decimal((#[trigger] breeds[k]).breedId as nat) != choice)
            ==> chosen_desc(breeds, choice) is None,
    decreases breeds.len(),
{
    if breeds.len() > 0 {
        let init = breeds.drop_last();
        law_chosen_breed_desc(init, choice);
        let n = breeds.len() - 1;
        assert forall|j: int| 0 <= j < breeds.len() && decimal((#[trigger] breeds[j]).breedId as nat) == choice && (
        forall|k: int| j < k < breeds.len() ==> decimal(breeds[k].breedId as nat) != choice) implies chosen_desc(
            breeds,
            choice,
        ) == Some(breeds[j].breedDesc@) by {
            if j < n {
                assert(decimal(breeds[n].breedId as nat) != choice);
                assert(init[j] == breeds[j]);
                assert forall|k: int| j < k < init.len() implies decimal(init[k].breedId as nat) != choice by {
                    assert(init[k] == breeds[k]);
                }
            }
        }
        if forall|k: int| 0 <= k < breeds.len() ==> decimal((#[trigger] breeds[k]).breedId as nat) != choice {
            assert(decimal(breeds[n].breedId as nat) != choice);
            assert forall|k: int| 0 <= k < init.len() implies decimal((#[trigger] init[k]).breedId as nat) != choice by {
                assert(init[k] == breeds[k]);
            }
        }
    }
}

/// The same place: equal ids and details.
pub open spec fn same_place(a: PlaceDB, b: PlaceDB) -> bool {
    a.id == b.id && a.details@ == b.details@
}

/// `p` is among `list`.
pub open spec fn has_place(list: Seq<PlaceDB>, p: PlaceDB) -> bool {
    exists|k: int| 0 <= k < list.len() && same_place(#[trigger] list[k], p)
}

/// The places whose id, in decimal, is `choice` and that were not chosen
/// before, in list order.
pub open spec fn newly_chosen_places(places: Seq<PlaceDB>, chosen: Seq<PlaceDB>, choice: Seq<char>) -> Seq<PlaceDB>
    decreases places.len(),
{
    if places.len() == 0 {
        Seq::empty()
    } else {
        let rest = newly_chosen_places(places.drop_last(), chosen, choice);
        let p = places.last();
        if decimal(p.id as nat) == choice && !has_place(chosen, p) {
            rest.push(p)
        } else {
            rest
        }
    }
}

fn contains_place(list: &Vec<PlaceDB>, p: &PlaceDB) -> (r: bool)
    ensures
        r == has_place(list@, *p),
{
    let n = list.len();
    for i in 0..n
        invariant
            n == list@.len(),
            forall|k: int| 0 <= k < i ==> !same_place(#[trigger] list@[k], *p),
    {
        if list[i].id == p.id && same_text(list[i].details.as_str(), p.details.as_str()) {
            assert(same_place(list@[i as int], *p));
            return true;
        }
    }
    false
}

/// The places chosen for a post after picking the one with id `choice`:
/// those chosen before, then each place of that id not chosen before.
pub fn select_place(places: &Vec<PlaceDB>, chosen: &Vec<PlaceDB>, choice: &str) -> (r: Vec<PlaceDB>)
    ensures
        r@ == chosen@ + newly_chosen_places(places@, chosen@, choice@),
{
    let mut r: Vec<PlaceDB> = Vec::new();
    let m = chosen.len();
    for i in 0..m
        invariant
            m == chosen@.len(),
            r@ == chosen@.take(i as int),
    {
        r.push(chosen[i].copy());
        assert(r@ == chosen@.take(i + 1));
    }
    assert(chosen@.take(m as int) =~= chosen@);
    let n = places.len();
    for i in 0..n
        invariant
            n == places@.len(),
            r@ == chosen@ + newly_chosen_places(places@.take(i as int), chosen@, choice@),
    {
        let p = &places[i];
        assert(places@.take(i + 1).drop_last() =~= places@.take(i as int));
        assert(places@.take(i + 1).last() == *p);
        let id = u32_to_decimal(p.id);
        if same_text(id.as_str(), choice) && !contains_place(chosen, p) {
            r.push(p.copy());
            assert(r@ =~= chosen@ + newly_chosen_places(places@.take(i + 1), chosen@, choice@));
        }
    }
    assert(places@.take(n as int) =~= places@);
    r
}

/// The same cat: all fields equal.
pub open spec fn same_cat(a: CatDB, b: CatDB) -> bool {
    &&& a.catId == b.catId
    &&& a.breedId == b.breedId
    &&& a.name@ == b.name@
    &&& a.foundTime == b.foundTime
    &&& a.source@ == b.source@
    &&& a.atSchool == b.atSchool
    &&& a.whereabouts@ == b.whereabouts@
    &&& a.health@ == b.health@
}

/// `c` is among `list`.
pub open spec fn has_cat(list: Seq<CatDB>, c: CatDB) -> bool {
    exists|k: int| 0 <= k < list.len() && same_cat(#[trigger] list[k], c)
}

/// The cats whose id, in decimal, is `choice` and that were not chosen
/// before, in list order.
pub open spec fn newly_chosen_cats(cats: Seq<CatDB>, chosen: Seq<CatDB>, choice: Seq<char>) -> Seq<CatDB>
    decreases cats.len(),
{
    if cats.len() == 0 {
        Seq::empty()
    } else {
        let rest = newly_chosen_cats(cats.drop_last(), chosen, choice);
        let c = cats.last();
        if decimal(c.catId as nat) == choice && !has_cat(chosen, c) {
            rest.push(c)
        } else {
            rest
        }
    }
}

fn equal_cats(a: &CatDB, b: &CatDB) -> (r: bool)
    ensures
        r == same_cat(*a, *b),
{
    a.catId == b.catId && a.breedId == b.breedId && same_text(a.name.as_str(), b.name.as_str())
        && a.foundTime.secs == b.foundTime.secs && a.foundTime.nanos == b.foundTime.nanos
        && same_text(a.source.as_str(), b.source.as_str()) && a.atSchool == b.atSchool
        && same_text(a.whereabouts.as_str(), b.whereabouts.as_str())
        && same_text(a.health.as_str(), b.health.as_str())
}

fn contains_cat(list: &Vec<CatDB>, c: &CatDB) -> (r: bool)
    ensures
        r == has_cat(list@, *c),
{
    let n = list.len();
    for i in 0..n
        invariant
            n == list@.len(),
            forall|k: int| 0 <= k < i ==> !same_cat(#[trigger] list@[k], *c),
    {
        if equal_cats(&list[i], c) {
            return true;
        }
    }
    false
}

/// The cats chosen for a post after picking the one with id `choice`:
/// those chosen before, then each cat of that id not chosen before.
pub fn select_cat(cats: &Vec<CatDB>, chosen: &Vec<CatDB>, choice: &str) -> (r: Vec<CatDB>)
    ensures
        r@ == chosen@ + newly_chosen_cats(cats@, chosen@, choice@),
{
    let mut r: Vec<CatDB> = Vec::new();
    let m = chosen.len();
    for i in 0..m
        invariant
            m == chosen@.len(),
            r@ == chosen@.take(i as int),
    {
        r.push(chosen[i].copy());
        assert(r@ == chosen@.take(i + 1));
    }
    assert(chosen@.take(m as int) =~= chosen@);
    let n = cats.len();
    for i in 0..n
        invariant
            n == cats@.len(),
            r@ == chosen@ + newly_chosen_cats(cats@.take(i as int), chosen@, choice@),
    {
        let c = &cats[i];
        assert(cats@.take(i + 1).drop_last() =~= cats@.take(i as int));
        assert(cats@.take(i + 1).last() == *c);
        let id = u32_to_decimal(c.catId);
        if same_text(id.as_str(), choice) && !contains_cat(chosen, c) {
            r.push(c.copy());
            assert(r@ =~= chosen@ + newly_chosen_cats(cats@.take(i + 1), chosen@, choice@));
        }
    }
    assert(cats@.take(n as int) =~= cats@);
    r
}

/// Picking a place a second time adds nothing: every place of that id is
/// already chosen after the first time.
pub proof fn law_select_place_twice(places: Seq<PlaceDB>, chosen: Seq<PlaceDB>, choice: Seq<char>)
    ensures
        newly_chosen_places(places, chosen + newly_chosen_places(places, chosen, choice), choice).len() == 0,
{
    let after = chosen + newly_chosen_places(places, chosen, choice);
    assert forall|k: int| 0 <= k < places.len() && decimal(places[k].id as nat) == choice implies has_place(
        after,
        #[trigger] places[k],
    ) by {
        lemma_chosen_place(places, chosen, choice, k);
        if has_place(chosen, places[k]) {
            let j = choose|j: int| 0 <= j < chosen.len() && same_place(#[trigger] chosen[j], places[k]);
            assert(after[j] == chosen[j]);
        } else {
            let new = newly_chosen_places(places, chosen, choice);
            let j = choose|j: int| 0 <= j < new.len() && same_place(#[trigger] new[j], places[k]);
            assert(after[chosen.len() + j] == new[j]);
        }
    }
    lemma_none_new_places(places, after, choice);
}

/// A place of the chosen id is chosen before or newly chosen.
proof fn lemma_chosen_place(places: Seq<PlaceDB>, chosen: Seq<PlaceDB>, choice: Seq<char>, k: int)
    requires
        0 <= k < places.len(),
        decimal(places[k].id as nat) == choice,
    ensures
        has_place(chosen, places[k]) || has_place(newly_chosen_places(places, chosen, choice), places[k]),
    decreases places.len(),
{
    let rest = newly_chosen_places(places.drop_last(), chosen, choice);
    if k < places.len() - 1 {
        lemma_chosen_place(places.drop_last(), chosen, choice, k);
        assert(places.drop_last()[k] == places[k]);
        if !has_place(chosen, places[k]) {
            let j = choose|j: int| 0 <= j < rest.len() && same_place(#[trigger] rest[j], places[k]);
            assert(newly_chosen_places(places, chosen, choice)[j] == rest[j]);
        }
    } else {
        if !has_place(chosen, places[k]) {
            let new = newly_chosen_places(places, chosen, choice);
            assert(new[rest.len() as int] == places[k]);
            assert(same_place(new[rest.len() as int], places[k]));
        }
    }
}

/// Nothing is newly chosen when every place of the chosen id already is.
proof fn lemma_none_new_places(places: Seq<PlaceDB>, chosen: Seq<PlaceDB>, choice: Seq<char>)
    requires
        forall|k: int| 0 <= k < places.len() && decimal(places[k].id as nat) == choice ==> has_place(
            chosen,
            #[trigger] places[k],
        ),
    ensures
        newly_chosen_places(places, chosen, choice).len() == 0,
    decreases places.len(),
{
    if places.len() > 0 {
        let init = places.drop_last();
        assert forall|k: int| 0 <= k < init.len() && decimal(init[k].id as nat) == choice implies has_place(
            chosen,
            #[trigger] init[k],
        ) by {
            assert(init[k] == places[k]);
        }
        lemma_none_new_places(init, chosen, choice);
        if decimal(places.last().id as nat) == choice {
            assert(has_place(chosen, places[places.len() - 1]));
        }
    }
}

/// The places chosen after a run of picks, one id per pick, starting from
/// `chosen`.
pub open spec fn places_after_picks(places: Seq<PlaceDB>, chosen: Seq<PlaceDB>, picks: Seq<Seq<char>>) -> Seq<PlaceDB>
    decreases picks.len(),
{
    if picks.len() == 0 {
        chosen
    } else {
        let before = places_after_picks(places, chosen, picks.drop_last());
        before + newly_chosen_places(places, before, picks.last())
    }
}

/// No two places of `places` share an id.
pub open spec fn distinct_place_ids(places: Seq<PlaceDB>) -> bool {
    forall|i: int, j: int| 0 <= i < j < places.len() ==> #[trigger] places[i].id != #[trigger] places[j].id
}

/// No place occurs twice in `list`.
pub open spec fn no_repeated_places(list: Seq<PlaceDB>) -> bool {
    forall|i: int, j: int| 0 <= i < j < list.len() ==> !same_place(#[trigger] list[i], #[trigger] list[j])
}

/// Every place of `list` is one of `places`.
pub open spec fn places_within(list: Seq<PlaceDB>, places: Seq<PlaceDB>) -> bool {
    forall|i: int| 0 <= i < list.len() ==> has_place(places, #[trigger] list[i])
}

/// The newly chosen places are places of the list, none chosen before, and
/// none twice where the list's ids are distinct.
proof fn lemma_new_places_fresh(places: Seq<PlaceDB>, chosen: Seq<PlaceDB>, choice: Seq<char>)
    requires
        distinct_place_ids(places),
    ensures
        places_within(newly_chosen_places(places, chosen, choice), places),
        no_repeated_places(newly_chosen_places(places, chosen, choice)),
        forall|j: int| 0 <= j < newly_chosen_places(places, chosen, choice).len() ==> !has_place(
            chosen,
            #[trigger] newly_chosen_places(places, chosen, choice)[j],
        ),
    decreases places.len(),
{
    if places.len() > 0 {
        let init = places.drop_last();
        assert(distinct_place_ids(init)) by {
            assert forall|i: int, j: int| 0 <= i < j < init.len() implies #[trigger] init[i].id != #[trigger] init[j].id by {
                assert(init[i] == places[i] && init[j] == places[j]);
            }
        }
        lemma_new_places_fresh(init, chosen, choice);
        let rest = newly_chosen_places(init, chosen, choice);
        let new = newly_chosen_places(places, chosen, choice);
        assert forall|j: int| 0 <= j < rest.len() implies has_place(places, #[trigger] rest[j]) && rest[j].id
            != places.last().id by {
            let k = choose|k: int| 0 <= k < init.len() && same_place(#[trigger] init[k], rest[j]);
            assert(places[k] == init[k]);
            assert(places[k].id != places[places.len() - 1].id);
        }
        if new != rest {
            assert(new == rest.push(places.last()));
            assert(same_place(places[places.len() - 1], places.last()));
            assert forall|i: int| 0 <= i < new.len() implies has_place(places, #[trigger] new[i]) by {
                if i < rest.len() {
                    assert(new[i] == rest[i]);
                } else {
                    assert(new[i] == places[places.len() - 1]);
                }
            }
            assert forall|i: int, j: int| 0 <= i < j < new.len() implies !same_place(#[trigger] new[i], #[trigger] new[j]) by {
                assert(new[i] == rest[i]);
                if j < rest.len() {
                    assert(new[j] == rest[j]);
                }
            }
            assert forall|j: int| 0 <= j < new.len() implies !has_place(chosen, #[trigger] new[j]) by {
                if j < rest.len() {
                    assert(new[j] == rest[j]);
                }
            }
        }
    }
}

/// However many places are picked one after another, no place is chosen
/// twice and every chosen place is one of the fetched places, provided the
/// fetched places have distinct ids and the picking starts from such a
/// choice (such as none).
pub proof fn law_picked_places_distinct(places: Seq<PlaceDB>, chosen: Seq<PlaceDB>, picks: Seq<Seq<char>>)
    requires
        distinct_place_ids(places),
        no_repeated_places(chosen),
        places_within(chosen, places),
    ensures
        no_repeated_places(places_after_picks(places, chosen, picks)),
        places_within(places_after_picks(places, chosen, picks), places),
    decreases picks.len(),
{
    if picks.len() > 0 {
        law_picked_places_distinct(places, chosen, picks.drop_last());
        let before = places_after_picks(places, chosen, picks.drop_last());
        let new = newly_chosen_places(places, before, picks.last());
        lemma_new_places_fresh(places, before, picks.last());
        let after = before + new;
        assert forall|i: int| 0 <= i < after.len() implies has_place(places, #[trigger] after[i]) by {
            if i < before.len() {
                assert(after[i] == before[i]);
            } else {
                assert(after[i] == new[i - before.len()]);
            }
        }
        assert forall|i: int, j: int| 0 <= i < j < after.len() implies !same_place(#[trigger] after[i], #[trigger] after[j]) by {
            if j < before.len() {
                assert(after[i] == before[i] && after[j] == before[j]);
            } else if i < before.len() {
                assert(after[i] == before[i] && after[j] == new[j - before.len()]);
                assert(!has_place(before, new[j - before.len()]));
            } else {
                assert(after[i] == new[i - before.len()] && after[j] == new[j - before.len()]);
            }
        }
    }
}

/// Picking a cat a second time adds nothing: every cat of that id is
/// already chosen after the first time.
pub proof fn law_select_cat_twice(cats: Seq<CatDB>, chosen: Seq<CatDB>, choice: Seq<char>)
    ensures
        newly_chosen_cats(cats, chosen + newly_chosen_cats(cats, chosen, choice), choice).len() == 0,
{
    let after = chosen + newly_chosen_cats(cats, chosen, choice);
    assert forall|k: int| 0 <= k < cats.len() && decimal(cats[k].catId as nat) == choice implies has_cat(
        after,
        #[trigger] cats[k],
    ) by {
        lemma_chosen_cat(cats, chosen, choice, k);
        if has_cat(chosen, cats[k]) {
            let j = choose|j: int| 0 <= j < chosen.len() && same_cat(#[trigger] chosen[j], cats[k]);
            assert(after[j] == chosen[j]);
        } else {
            let new = newly_chosen_cats(cats, chosen, choice);
            let j = choose|j: int| 0 <= j < new.len() && same_cat(#[trigger] new[j], cats[k]);
            assert(after[chosen.len() + j] == new[j]);
        }
    }
    lemma_none_new_cats(cats, after, choice);
}

/// A cat of the chosen id is chosen before or newly chosen.
proof fn lemma_chosen_cat(cats: Seq<CatDB>, chosen: Seq<CatDB>, choice: Seq<char>, k: int)
    requires
        0 <= k < cats.len(),
        decimal(cats[k].catId as nat) == choice,
    ensures
        has_cat(chosen, cats[k]) || has_cat(newly_chosen_cats(cats, chosen, choice), cats[k]),
    decreases cats.len(),
{
    let rest = newly_chosen_cats(cats.drop_last(), chosen, choice);
    if k < cats.len() - 1 {
        lemma_chosen_cat(cats.drop_last(), chosen, choice, k);
        assert(cats.drop_last()[k] == cats[k]);
        if !has_cat(chosen, cats[k]) {
            let j = choose|j: int| 0 <= j < rest.len() && same_cat(#[trigger] rest[j], cats[k]);
            assert(newly_chosen_cats(cats, chosen, choice)[j] == rest[j]);
        }
    } else {
        if !has_cat(chosen, cats[k]) {
            let new = newly_chosen_cats(cats, chosen, choice);
            assert(new[rest.len() as int] == cats[k]);
            assert(same_cat(new[rest.len() as int], cats[k]));
        }
    }
}

/// Nothing is newly chosen when every cat of the chosen id already is.
proof fn lemma_none_new_cats(cats: Seq<CatDB>, chosen: Seq<CatDB>, choice: Seq<char>)
    requires
        forall|k: int| 0 <= k < cats.len() && decimal(cats[k].catId as nat) == choice ==> has_cat(
            chosen,
            #[trigger] cats[k],
        ),
    ensures
        newly_chosen_cats(cats, chosen, choice).len() == 0,
    decreases cats.len(),
{
    if cats.len() > 0 {
        let init = cats.drop_last();
        assert forall|k: int| 0 <= k < init.len() && decimal(init[k].catId as nat) == choice implies has_cat(
            chosen,
            #[trigger] init[k],
        ) by {
            assert(init[k] == cats[k]);
        }
        lemma_none_new_cats(init, chosen, choice);
        if decimal(cats.last().catId as nat) == choice {
            assert(has_cat(chosen, cats[cats.len() - 1]));
        }
    }
}

/// The cats chosen after a run of picks, one id per pick, starting from
/// `chosen`.
pub open spec fn cats_after_picks(cats: Seq<CatDB>, chosen: Seq<CatDB>, picks: Seq<Seq<char>>) -> Seq<CatDB>
    decreases picks.len(),
{
    if picks.len() == 0 {
        chosen
    } else {
        let before = cats_after_picks(cats, chosen, picks.drop_last());
        before + newly_chosen_cats(cats, before, picks.last())
    }
}

/// No two cats of `cats` share an id.
pub open spec fn distinct_cat_ids(cats: Seq<CatDB>) -> bool {
    forall|i: int, j: int| 0 <= i < j < cats.len() ==> #[trigger] cats[i].catId != #[trigger] cats[j].catId
}

/// No cat occurs twice in `list`.
pub open spec fn no_repeated_cats(list: Seq<CatDB>) -> bool {
    forall|i: int, j: int| 0 <= i < j < list.len() ==> !same_cat(#[trigger] list[i], #[trigger] list[j])
}

/// Every cat of `list` is one of `cats`.
pub open spec fn cats_within(list: Seq<CatDB>, cats: Seq<CatDB>) -> bool {
    forall|i: int| 0 <= i < list.len() ==> has_cat(cats, #[trigger] list[i])
}

/// The newly chosen cats are cats of the list, none chosen before, and
/// none twice where the list's ids are distinct.
proof fn lemma_new_cats_fresh(cats: Seq<CatDB>, chosen: Seq<CatDB>, choice: Seq<char>)
    requires
        distinct_cat_ids(cats),
    ensures
        cats_within(newly_chosen_cats(cats, chosen, choice), cats),
        no_repeated_cats(newly_chosen_cats(cats, chosen, choice)),
        forall|j: int| 0 <= j < newly_chosen_cats(cats, chosen, choice).len() ==> !has_cat(
            chosen,
            #[trigger] newly_chosen_cats(cats, chosen, choice)[j],
        ),
    decreases cats.len(),
{
    if cats.len() > 0 {
        let init = cats.drop_last();
        assert(distinct_cat_ids(init)) by {
            assert forall|i: int, j: int| 0 <= i < j < init.len() implies #[trigger] init[i].catId != #[trigger] init[j].catId by {
                assert(init[i] == cats[i] && init[j] == cats[j]);
            }
        }
        lemma_new_cats_fresh(init, chosen, choice);
        let rest = newly_chosen_cats(init, chosen, choice);
        let new = newly_chosen_cats(cats, chosen, choice);
        assert forall|j: int| 0 <= j < rest.len() implies has_cat(cats, #[trigger] rest[j]) && rest[j].catId
            != cats.last().catId by {
            let k = choose|k: int| 0 <= k < init.len() && same_cat(#[trigger] init[k], rest[j]);
            assert(cats[k] == init[k]);
            assert(cats[k].catId != cats[cats.len() - 1].catId);
        }
        if new != rest {
            assert(new == rest.push(cats.last()));
            assert(same_cat(cats[cats.len() - 1], cats.last()));
            assert forall|i: int| 0 <= i < new.len() implies has_cat(cats, #[trigger] new[i]) by {
                if i < rest.len() {
                    assert(new[i] == rest[i]);
                } else {
                    assert(new[i] == cats[cats.len() - 1]);
                }
            }
            assert forall|i: int, j: int| 0 <= i < j < new.len() implies !same_cat(#[trigger] new[i], #[trigger] new[j]) by {
                assert(new[i] == rest[i]);
                if j < rest.len() {
                    assert(new[j] == rest[j]);
                }
            }
            assert forall|j: int| 0 <= j < new.len() implies !has_cat(chosen, #[trigger] new[j]) by {
                if j < rest.len() {
                    assert(new[j] == rest[j]);
                }
            }
        }
    }
}

/// However many cats are picked one after another, no cat is chosen
/// twice and every chosen cat is one of the fetched cats, provided the
/// fetched cats have distinct ids and the picking starts from such a
/// choice (such as none).
pub proof fn law_picked_cats_distinct(cats: Seq<CatDB>, chosen: Seq<CatDB>, picks: Seq<Seq<char>>)
    requires
        distinct_cat_ids(cats),
        no_repeated_cats(chosen),
        cats_within(chosen, cats),
    ensures
        no_repeated_cats(cats_after_picks(cats, chosen, picks)),
        cats_within(cats_after_picks(cats, chosen, picks), cats),
    decreases picks.len(),
{
    if picks.len() > 0 {
        law_picked_cats_distinct(cats, chosen, picks.drop_last());
        let before = cats_after_picks(cats, chosen, picks.drop_last());
        let new = newly_chosen_cats(cats, before, picks.last());
        lemma_new_cats_fresh(cats, before, picks.last());
        let after = before + new;
        assert forall|i: int| 0 <= i < after.len() implies has_cat(cats, #[trigger] after[i]) by {
            if i < before.len() {
                assert(after[i] == before[i]);
            } else {
                assert(after[i] == new[i - before.len()]);
            }
        }
        assert forall|i: int, j: int| 0 <= i < j < after.len() implies !same_cat(#[trigger] after[i], #[trigger] after[j]) by {
            if j < before.len() {
                assert(after[i] == before[i] && after[j] == before[j]);
            } else if i < before.len() {
                assert(after[i] == before[i] && after[j] == new[j - before.len()]);
                assert(!has_cat(before, new[j - before.len()]));
            } else {
                assert(after[i] == new[i - before.len()] && after[j] == new[j - before.len()]);
            }
        }
    }
}

/// The body of a new post: its text and images, and the ids of the chosen
/// places and cats, in the order they were chosen.
pub fn new_post(text: String, images: Vec<String>, places: &Vec<PlaceDB>, cats: &Vec<CatDB>) -> (r: PostsPost)
    ensures
        r.text == text,
        r.images == images,
        r.places@ == places@.map_values(|p: PlaceDB| p.id),
        r.cats@ == cats@.map_values(|c: CatDB| c.catId),
{
    let mut place_ids: Vec<u32> = Vec::new();
    let n = places.len();
    for i in 0..n
        invariant
            n == places@.len(),
            place_ids@ == places@.take(i as int).map_values(|p: PlaceDB| p.id),
    {
        place_ids.push(places[i].id);
        assert(places@.take(i + 1).map_values(|p: PlaceDB| p.id) =~= places@.take(i as int).map_values(
            |p: PlaceDB| p.id,
        ).push(places@[i as int].id));
    }
    assert(places@.take(n as int) =~= places@);
    let mut cat_ids: Vec<u32> = Vec::new();
    let m = cats.len();
    for i in 0..m
        invariant
            m == cats@.len(),
            cat_ids@ == cats@.take(i as int).map_values(|c: CatDB| c.catId),
    {
        cat_ids.push(cats[i].catId);
        assert(cats@.take(i + 1).map_values(|c: CatDB| c.catId) =~= cats@.take(i as int).map_values(
            |c: CatDB| c.catId,
        ).push(cats@[i as int].catId));
    }
    assert(cats@.take(m as int) =~= cats@);
    PostsPost { text, images, places: place_ids, cats: cat_ids }
}

/// The name a user goes by: the nick name, or the user name where the nick
/// name is empty.
pub open spec fn spec_display_name(u: User) -> Seq<char> {
    if u.usernick@.len() > 0 { u.usernick@ } else { u.username@ }
}

/// The name a user goes by.
pub fn display_name(u: &User) -> (r: String)
    ensures
        r@ == spec_display_name(*u),
{
    if u.usernick.unicode_len() > 0 {
        u.usernick.clone()
    } else {
        u.username.clone()
    }
}

/// How a user is labelled under posts and comments: `[<uid>]<name>`.
pub fn user_label(u: &User) -> (r: String)
    ensures
        r@ == "["@ + decimal(u.uid as nat) + "]"@ + spec_display_name(*u),
{
    let id = u32_to_decimal(u.uid);
    let a = joined("[", id.as_str());
    let b = joined(a.as_str(), "]");
    let name = display_name(u);
    joined(b.as_str(), name.as_str())
}

/// The texts of a list of strings.
pub open spec fn texts(v: Seq<String>) -> Seq<Seq<char>> {
    v.map_values(|s: String| s@)
}

/// The chosen files that were not uploaded before, in the order chosen.
pub open spec fn fresh_files(names: Seq<Seq<char>>, uploaded: Set<Seq<char>>) -> Seq<Seq<char>>
    decreases names.len(),
{
    if names.len() == 0 {
        Seq::empty()
    } else {
        let rest = fresh_files(names.drop_last(), uploaded);
        if uploaded.contains(names.last()) { rest } else { rest.push(names.last()) }
    }
}

fn contains_text(list: &Vec<String>, t: &str) -> (r: bool)
    ensures
        r == texts(list@).contains(t@),
{
    let n = list.len();
    for i in 0..n
        invariant
            n == list@.len(),
            forall|k: int| 0 <= k < i ==> list@[k]@ != t@,
    {
        if same_text(list[i].as_str(), t) {
            assert(texts(list@)[i as int] == t@);
            return true;
        }
    }
    assert forall|k: int| 0 <= k < texts(list@).len() implies texts(list@)[k] != t@ by {
        assert(texts(list@)[k] == list@[k]@);
    }
    false
}

/// Of the files chosen for upload, those still to send, and the names of
/// all files sent once these are: the names sent before, then each new name
/// once.
pub fn files_to_upload(names: &Vec<String>, uploaded: &Vec<String>) -> (r: (Vec<String>, Vec<String>))
    ensures
        texts(r.0@) == fresh_files(texts(names@), texts(uploaded@).to_set()),
        texts(r.1@).to_set() == texts(uploaded@).to_set() + texts(r.0@).to_set(),
        texts(uploaded@).no_duplicates() ==> texts(r.1@).no_duplicates(),
{
    let ghost up = texts(uploaded@).to_set();
    let mut ready: Vec<String> = Vec::new();
    let n = names.len();
    for i in 0..n
        invariant
            n == names@.len(),
            up == texts(uploaded@).to_set(),
            texts(ready@) == fresh_files(texts(names@.take(i as int)), up),
    {
        let name = &names[i];
        assert(texts(names@.take(i + 1)).drop_last() =~= texts(names@.take(i as int)));
        assert(texts(names@.take(i + 1)).last() == name@);
        let seen = contains_text(uploaded, name.as_str());
        assert(seen == up.contains(name@));
        if !seen {
            let ghost before = ready@;
            ready.push(name.clone());
            assert(texts(ready@) =~= texts(before).push(name@));
        }
    }
    assert(names@.take(n as int) =~= names@);
    let mut all: Vec<String> = Vec::new();
    let m = uploaded.len();
    for i in 0..m
        invariant
            m == uploaded@.len(),
            texts(all@) == texts(uploaded@.take(i as int)),
    {
        let ghost before = all@;
        all.push(uploaded[i].clone());
        assert(all@ == before.push(uploaded@[i as int]));
        assert(uploaded@.take(i + 1) =~= uploaded@.take(i as int).push(uploaded@[i as int]));
        assert(texts(all@) =~= texts(before).push(uploaded@[i as int]@));
        assert(texts(uploaded@.take(i + 1)) =~= texts(uploaded@.take(i as int)).push(uploaded@[i as int]@));
    }
    assert(uploaded@.take(m as int) =~= uploaded@);
    let k = ready.len();
    for j in 0..k
        invariant
            k == ready@.len(),
            texts(all@).to_set() == texts(uploaded@).to_set() + texts(ready@.take(j as int)).to_set(),
            texts(uploaded@).no_duplicates() ==> texts(all@).no_duplicates(),
    {
        let name = &ready[j];
        let ghost before = all@;
        assert(texts(ready@.take(j + 1)) =~= texts(ready@.take(j as int)).push(name@));
        if !contains_text(&all, name.as_str()) {
            all.push(name.clone());
            assert(texts(all@) =~= texts(before).push(name@));
            proof {
                texts(before).lemma_push_to_set_commute(name@);
            }
            assert(texts(all@).to_set() =~= texts(before).to_set().insert(name@));
        } else {
            assert(texts(before).to_set().contains(name@));
        }
        proof {
            texts(ready@.take(j as int)).lemma_push_to_set_commute(name@);
        }
        assert(texts(ready@.take(j + 1)).to_set() =~= texts(ready@.take(j as int)).to_set().insert(name@));
    }
    assert(ready@.take(k as int) =~= ready@);
    (ready, all)
}

/// No file that still has to be sent was sent before.
pub proof fn law_fresh_files_are_new(names: Seq<Seq<char>>, uploaded: Set<Seq<char>>)
    ensures
        forall|k: int| 0 <= k < fresh_files(names, uploaded).len() ==> !uploaded.contains(
            #[trigger] fresh_files(names, uploaded)[k],
        ),
    decreases names.len(),
{
    if names.len() > 0 {
        law_fresh_files_are_new(names.drop_last(), uploaded);
        let rest = fresh_files(names.drop_last(), uploaded);
        assert forall|k: int| 0 <= k < fresh_files(names, uploaded).len() implies !uploaded.contains(
            #[trigger] fresh_files(names, uploaded)[k],
        ) by {
            if k < rest.len() {
                assert(fresh_files(names, uploaded)[k] == rest[k]);
            }
        }
    }
}

/// The files to send are exactly the chosen names not uploaded before, in
/// the order they were chosen, however many there are: every such name is
/// sent, and nothing else is.
pub proof fn law_every_fresh_file_sent(names: Seq<Seq<char>>, uploaded: Set<Seq<char>>)
    ensures
        fresh_files(names, uploaded) == names.filter(|n: Seq<char>| !uploaded.contains(n)),
        forall|k: int| 0 <= k < names.len() && !uploaded.contains(#[trigger] names[k]) ==> fresh_files(
            names,
            uploaded,
        ).contains(names[k]),
    decreases names.len(),
{
    reveal(Seq::filter);
    let pred = |n: Seq<char>| !uploaded.contains(n);
    if names.len() > 0 {
        law_every_fresh_file_sent(names.drop_last(), uploaded);
    }
    assert forall|k: int| 0 <= k < names.len() && !uploaded.contains(#[trigger] names[k]) implies fresh_files(
        names,
        uploaded,
    ).contains(names[k]) by {
        names.lemma_filter_contains(pred, k);
    }
}

} // verus!
