//! Cats, breeds and feedings.

use vstd::prelude::*;
use crate::time::Time;
use crate::user::User;

verus! {

/// A cat as stored in the `Cat` table.
#[derive(Clone, Debug)]
pub struct CatDB {
    pub catId: u32,
    pub breedId: u32,
    pub name: String,
    pub foundTime: Time,
    pub source: String,
    pub atSchool: bool,
    pub whereabouts: String,
    pub health: String,
}

/// A cat with its breed resolved, as shown to users.
#[derive(Clone, Debug)]
pub struct CatDisp {
    pub catId: u32,
    pub breed: BreedDB,
    pub name: String,
    pub foundTime: Time,
    pub source: String,
    pub atSchool: bool,
    pub whereabouts: String,
    pub health: String,
}

/// A cat and the places where it was seen.
#[derive(Clone, Debug)]
pub struct CatPlacesResponse {
    pub cat: CatDB,
    pub places: Vec<String>,
}

/// A breed as stored in the `CatBreed` table.
#[derive(Clone, Debug)]
pub struct BreedDB {
    pub breedId: u32,
    pub breedName: String,
    pub breedDesc: String,
}

/// The body of a request that adds a breed.
#[derive(Clone, Debug)]
pub struct BreedPost {
    pub name: String,
    pub desc: String,
}

/// A feeding as stored in the `Feed` table.
#[derive(Clone, Debug)]
pub struct FeedingDB {
    pub catId: u32,
    pub userId: u32,
    pub placeId: u32,
    pub feedTime: Time,
    pub feedFood: String,
    pub feedAmount: String,
}

/// A cat, its last feeding and the user who fed it.
#[derive(Clone, Debug)]
pub struct FeedingInfo {
    pub cat: CatDisp,
    pub last: FeedingDB,
    pub user: User,
}

impl BreedDB {
    pub open spec fn is_default(self) -> bool {
        &&& self.breedId == 0
        &&& self.breedName@ == Seq::<char>::empty()
        &&& self.breedDesc@ == Seq::<char>::empty()
    }
}

impl Default for BreedDB {
    fn default() -> (r: Self)
        ensures
            r.is_default(),
    {
        BreedDB { breedId: 0, breedName: String::new(), breedDesc: String::new() }
    }
}

impl CatDisp {
    /// The placeholder shown before a cat is loaded: id 0, empty texts,
    /// the default breed, found at the epoch, not at school.
    pub open spec fn is_default(self) -> bool {
        &&& self.catId == 0
        &&& self.breed.is_default()
        &&& self.name@ == Seq::<char>::empty()
        &&& self.foundTime == Time { secs: 0, nanos: 0 }
        &&& self.source@ == Seq::<char>::empty()
        &&& !self.atSchool
        &&& self.whereabouts@ == Seq::<char>::empty()
        &&& self.health@ == Seq::<char>::empty()
    }

    /// `self` shows cat `c` with breed `breed`.
    pub open spec fn shows(self, c: CatDB, breed: BreedDB) -> bool {
        &&& self.catId == c.catId
        &&& self.breed == breed
        &&& self.name == c.name
        &&& self.foundTime == c.foundTime
        &&& self.source == c.source
        &&& self.atSchool == c.atSchool
        &&& self.whereabouts == c.whereabouts
        &&& self.health == c.health
    }

    /// The stored cat `c` shown with its breed.
    pub fn from_db(c: CatDB, breed: BreedDB) -> (r: Self)
        ensures
            r.shows(c, breed),
    {
        CatDisp {
            catId: c.catId,
            breed,
            name: c.name,
            foundTime: c.foundTime,
            source: c.source,
            atSchool: c.atSchool,
            whereabouts: c.whereabouts,
            health: c.health,
        }
    }
}

impl Default for CatDisp {
    fn default() -> (r: Self)
        ensures
            r.is_default(),
    {
        CatDisp {
            catId: 0,
            breed: BreedDB::default(),
            name: String::new(),
            foundTime: Time::epoch(),
            source: String::new(),
            atSchool: false,
            whereabouts: String::new(),
            health: String::new(),
        }
    }
}

impl CatDB {
    /// A field-by-field copy.
    pub fn copy(&self) -> (r: Self)
        ensures
            r == *self,
    {
        CatDB {
            catId: self.catId,
            breedId: self.breedId,
            name: self.name.clone(),
            foundTime: self.foundTime,
            source: self.source.clone(),
            atSchool: self.atSchool,
            whereabouts: self.whereabouts.clone(),
            health: self.health.clone(),
        }
    }
}

impl Default for CatDB {
    /// The cat that a fresh database starts with: cat 1 of breed 1,
    /// named "喵", found at the epoch.
    fn default() -> (r: Self)
        ensures
            r.catId == 1,
            r.breedId == 1,
            r.name@ == "喵"@,
            r.foundTime == (Time { secs: 0, nanos: 0 }),
            r.source@ == Seq::<char>::empty(),
            !r.atSchool,
            r.whereabouts@ == Seq::<char>::empty(),
            r.health@ == Seq::<char>::empty(),
    {
        CatDB {
            catId: 1,
            breedId: 1,
            name: String::from_str("喵"),
            foundTime: Time::epoch(),
            source: String::new(),
            atSchool: false,
            whereabouts: String::new(),
            health: String::new(),
        }
    }
}

impl FeedingDB {
    /// No feeding: all ids 0, at the epoch, with empty texts.
    pub open spec fn is_default(self) -> bool {
        &&& self.catId == 0
        &&& self.userId == 0
        &&& self.placeId == 0
        &&& self.feedTime == Time { secs: 0, nanos: 0 }
        &&& self.feedFood@ == Seq::<char>::empty()
        &&& self.feedAmount@ == Seq::<char>::empty()
    }
}

impl Default for FeedingDB {
    fn default() -> (r: Self)
        ensures
            r.is_default(),
    {
        FeedingDB {
            catId: 0,
            userId: 0,
            placeId: 0,
            feedTime: Time::epoch(),
            feedFood: String::new(),
            feedAmount: String::new(),
        }
    }
}

impl Default for FeedingInfo {
    fn default() -> (r: Self)
        ensures
            r.cat.is_default(),
            r.last.is_default(),
            r.user.uid == 0,
            r.user.username@ == Seq::<char>::empty(),
            r.user.head == 0,
            r.user.usernick@ == Seq::<char>::empty(),
            r.user.motto@ == Seq::<char>::empty(),
    {
        FeedingInfo { cat: CatDisp::default(), last: FeedingDB::default(), user: User::default() }
    }
}

} // verus!
