use school_cats::cats::{BreedDB, CatDB, CatDisp, FeedingDB, FeedingInfo};
use school_cats::places::PlaceDB;
use school_cats::posts::{CommentDisp, PostDisp, PostsContentDB};
use school_cats::time::{chrono2sys, expires_at, form_time, time_fmt, time_from_millis, DateTimeParts, Time};
use school_cats::user::{User, UserDB};
use school_cats::{Empty, Response};

fn cat() -> CatDB {
    CatDB {
        catId: 3,
        breedId: 2,
        name: "咪".to_string(),
        foundTime: Time { secs: 10, nanos: 20 },
        source: "gate".to_string(),
        atSchool: true,
        whereabouts: "lab".to_string(),
        health: "ok".to_string(),
    }
}

fn user() -> User {
    User { username: "amy".to_string(), uid: 9, head: 4, usernick: "A".to_string(), motto: "meow".to_string() }
}

#[test]
fn cat_copy_keeps_every_field() {
    let c = cat();
    let d = c.copy();
    assert_eq!((d.catId, d.breedId, d.atSchool, d.foundTime), (3, 2, true, Time { secs: 10, nanos: 20 }));
    assert_eq!((d.name.as_str(), d.source.as_str(), d.whereabouts.as_str(), d.health.as_str()), ("咪", "gate", "lab", "ok"));
}

#[test]
fn cat_defaults() {
    let c = CatDB::default();
    assert_eq!((c.catId, c.breedId, c.name.as_str(), c.atSchool), (1, 1, "喵", false));
    let d = CatDisp::default();
    assert_eq!((d.catId, d.breed.breedId, d.name.as_str()), (0, 0, ""));
    let f = FeedingDB::default();
    assert_eq!((f.catId, f.userId, f.placeId, f.feedFood.as_str()), (0, 0, 0, ""));
    let i = FeedingInfo::default();
    assert_eq!((i.cat.catId, i.user.uid), (0, 0));
}

#[test]
fn cat_shown_with_breed() {
    let b = BreedDB { breedId: 2, breedName: "橘猫".to_string(), breedDesc: "orange".to_string() };
    let d = CatDisp::from_db(cat(), b);
    assert_eq!((d.catId, d.breed.breedId, d.breed.breedName.as_str(), d.name.as_str()), (3, 2, "橘猫", "咪"));
    assert_eq!(d.foundTime, Time { secs: 10, nanos: 20 });
}

#[test]
fn place_copy() {
    let p = PlaceDB { id: 5, details: "三食堂门口".to_string() };
    let q = p.copy();
    assert_eq!((q.id, q.details.as_str()), (5, "三食堂门口"));
}

#[test]
fn post_copy_and_identity() {
    let p = PostDisp {
        postId: 8,
        text: "hi".to_string(),
        time: Time { secs: 1, nanos: 0 },
        user: user(),
        images: vec!["a.png".to_string()],
        comments: vec![CommentDisp { user: user(), text: "nice".to_string() }],
        places: vec!["x".to_string(), "y".to_string()],
        cats: vec![cat()],
    };
    let q = p.copy();
    assert_eq!(q.postId, 8);
    assert_eq!(q.images, vec!["a.png".to_string()]);
    assert_eq!(q.places, vec!["x".to_string(), "y".to_string()]);
    assert_eq!(q.comments[0].text, "nice");
    assert_eq!(q.cats[0].name, "咪");
    assert!(p == q);
    let mut other = PostDisp::default();
    assert!(p != other);
    other.postId = 8;
    assert!(p == other);
}

#[test]
fn post_defaults() {
    let p = PostDisp::default();
    assert_eq!((p.postId, p.text.as_str(), p.images.len(), p.user.uid), (0, "", 0, 0));
    let c = PostsContentDB::default();
    assert_eq!((c.postId, c.userId), (0, 0));
}

#[test]
fn user_record_round_trip() {
    let u = user();
    let db = UserDB::from_user(u.clone(), u.uid, "hash");
    assert_eq!((db.userId, db.imageId, db.passwd.as_str(), db.username.as_str()), (9, 4, "hash", "amy"));
    let back = User::from(db);
    assert_eq!((back.uid, back.head, back.username.as_str(), back.usernick.as_str(), back.motto.as_str()), (9, 4, "amy", "A", "meow"));
}

#[test]
fn user_record_under_new_id() {
    let db = UserDB::from_user(user(), 0, "p");
    assert_eq!(db.userId, 0);
    assert_eq!(User::from(db).uid, 0);
}

#[test]
fn remove_passwd_clears_only_the_password() {
    let db = UserDB::from_user(user(), 9, "secret");
    let cleared = db.remove_passwd();
    assert_eq!(cleared.passwd, "");
    assert_eq!((cleared.userId, cleared.username.as_str(), cleared.motto.as_str()), (9, "amy", "meow"));
}

#[test]
fn response_constructors() {
    let r = Response::ok(5u32);
    assert_eq!((r.code, r.msg.as_str(), r.data), (200, "ok", 5));
    let r = Response::error("bad", 1u8);
    assert_eq!((r.code, r.msg.as_str(), r.data), (400, "bad", 1));
    let r = Response::default_error(vec![1]);
    assert_eq!((r.code, r.msg.as_str()), (400, "error"));
    let r = Response::new(201, "made", "x");
    assert_eq!((r.code, r.msg.as_str(), r.data), (201, "made", "x"));
    let r: Response<Empty> = Response::err();
    assert_eq!((r.code, r.msg.as_str()), (400, "error"));
}

#[test]
fn time_from_millis_values() {
    assert_eq!(time_from_millis(1500), Time { secs: 1, nanos: 500_000_000 });
    assert_eq!(time_from_millis(0), Time { secs: 0, nanos: 0 });
    let wrapped = time_from_millis(-1);
    assert_eq!(wrapped, Time { secs: u64::MAX / 1000, nanos: (u64::MAX % 1000) as u32 * 1_000_000 });
    assert_eq!(Time::epoch(), Time { secs: 0, nanos: 0 });
}

#[test]
fn chrono_time_to_time() {
    let d = DateTimeParts { year: 2022, month: 11, day: 1, hour: 8, minute: 30, second: 0, nano: 250_000_000 };
    assert_eq!(chrono2sys(d), Some(Time { secs: 1667291400, nanos: 250_000_000 }));
    let epoch = DateTimeParts { year: 1970, month: 1, day: 1, hour: 0, minute: 0, second: 0, nano: 0 };
    assert_eq!(chrono2sys(epoch), Some(Time { secs: 0, nanos: 0 }));
    let leap_day = DateTimeParts { year: 2024, month: 2, day: 29, hour: 23, minute: 59, second: 59, nano: 999_999_999 };
    assert_eq!(chrono2sys(leap_day), Some(Time { secs: 1709251199, nanos: 999_000_000 }));
}

#[test]
fn chrono_time_before_epoch_wraps() {
    let d = DateTimeParts { year: 1969, month: 12, day: 31, hour: 23, minute: 59, second: 59, nano: 999_000_000 };
    assert_eq!(chrono2sys(d), Some(time_from_millis(-1)));
}

#[test]
fn chrono_time_rejects_invalid_parts() {
    let feb30 = DateTimeParts { year: 2023, month: 2, day: 30, hour: 0, minute: 0, second: 0, nano: 0 };
    assert_eq!(chrono2sys(feb30), None);
    let hour24 = DateTimeParts { year: 2023, month: 1, day: 1, hour: 24, minute: 0, second: 0, nano: 0 };
    assert_eq!(chrono2sys(hour24), None);
}

#[test]
fn expiry_is_later_by_the_lifetime() {
    assert_eq!(expires_at(Time { secs: 100, nanos: 7 }, 3600), Time { secs: 3700, nanos: 7 });
}

#[test]
fn form_times_are_china_time() {
    assert_eq!(form_time("2022-11-01T16:30"), Some(Time { secs: 1667291400, nanos: 0 }));
    assert_eq!(form_time("2022-11-01"), None);
    assert_eq!(form_time("2022-13-01T16:30"), None);
}

fn parts(year: i32, month: u32, day: u32, hour: u32, minute: u32) -> DateTimeParts {
    DateTimeParts { year, month, day, hour, minute, second: 0, nano: 0 }
}

#[test]
fn time_fmt_values() {
    assert_eq!(time_fmt(parts(2023, 4, 5, 7, 9)), "2023-04-05T07:09");
    assert_eq!(time_fmt(parts(2022, 11, 30, 23, 59)), "2022-11-30T23:59");
    assert_eq!(time_fmt(parts(987, 1, 1, 0, 0)), "0987-01-01T00:00");
    assert_eq!(time_fmt(parts(-1, 1, 1, 0, 0)), "-0001-01-01T00:00");
    assert_eq!(time_fmt(parts(12345, 1, 1, 0, 0)), "+12345-01-01T00:00");
}

#[test]
fn time_fmt_agrees_with_chrono() {
    for (y, mo, d, h, mi) in [(2023, 4, 5, 7, 9), (5, 12, 31, 23, 0), (-44, 3, 15, 12, 30), (10000, 2, 29, 1, 1), (1970, 1, 1, 0, 0)] {
        let dt = chrono::NaiveDate::from_ymd_opt(y, mo, d).unwrap().and_hms_opt(h, mi, 0).unwrap();
        assert_eq!(time_fmt(parts(y, mo, d, h, mi)), dt.format("%Y-%m-%dT%H:%M").to_string());
    }
}
