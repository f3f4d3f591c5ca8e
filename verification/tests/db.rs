use school_cats::cats::{BreedDB, CatDB, CatDisp, FeedingDB};
use school_cats::db::{
    breed_insert_result, cat_disp_result, cats_with_places, collect_posts, feeding_candidates, feeding_infos,
    insert_id, post_from_parts, row_or, token_record, user_record, with_feeders,
};
use school_cats::posts::{PostDisp, PostsContentDB};
use school_cats::time::Time;
use school_cats::user::User;

fn cat(id: u32) -> CatDB {
    CatDB { catId: id, name: format!("c{}", id), ..CatDB::default() }
}

fn user(uid: u32) -> User {
    User { uid, ..User::default() }
}

fn post(id: u32) -> PostDisp {
    PostDisp { postId: id, ..PostDisp::default() }
}

#[test]
fn rows_or_messages() {
    assert_eq!(row_or(Some(3u32), "not found"), Ok(3));
    assert_eq!(row_or::<u32>(None, "not found"), Err("not found".to_string()));
    let t = token_record(Some(("tok".to_string(), 4)), "tok", Time { secs: 5, nanos: 0 }).unwrap();
    assert_eq!((t.token.as_str(), t.uid, t.exp.secs), ("tok", 4, 5));
    assert_eq!(token_record(None, "abc", Time::epoch()).unwrap_err(), "no token found for abc");
    let u = user_record(Some((2, "n".to_string(), 1, "k".to_string(), "m".to_string())), 2).unwrap();
    assert_eq!((u.userId, u.passwd.as_str(), u.imageId), (2, "", 1));
    assert_eq!(user_record(None, 17).unwrap_err(), "no uid found for 17");
}

#[test]
fn insert_ids_are_cut_to_32_bits() {
    assert_eq!(insert_id(5), 5);
    assert_eq!(insert_id((1u64 << 32) + 5), 5);
}

#[test]
fn breed_insert_outcomes() {
    assert_eq!(breed_insert_result(Some(6), None), Ok(6));
    let b = BreedDB { breedId: 3, breedName: "x".to_string(), breedDesc: String::new() };
    assert_eq!(breed_insert_result(None, Some(b)), Ok(3));
    assert_eq!(breed_insert_result(None, None), Err("can not insert!".to_string()));
}

#[test]
fn cat_shown_or_breed_error() {
    let b = BreedDB { breedId: 2, breedName: "b".to_string(), breedDesc: String::new() };
    let d: CatDisp = cat_disp_result(cat(1), Ok(b)).unwrap();
    assert_eq!((d.catId, d.breed.breedId), (1, 2));
    assert_eq!(cat_disp_result(cat(1), Err("no breed found!".to_string())).unwrap_err(), "no breed found!");
}

#[test]
fn post_parts() {
    let c = PostsContentDB { postId: 9, userId: 1, postTime: Time { secs: 3, nanos: 0 }, postText: "t".to_string() };
    let p = post_from_parts(9, c, user(1), vec!["i".to_string()], vec![], vec!["p".to_string()], vec![cat(2)]);
    assert_eq!((p.postId, p.text.as_str(), p.time.secs, p.user.uid, p.images.len(), p.cats[0].catId), (9, "t", 3, 1, 1, 2));
}

#[test]
fn failed_and_empty_posts_are_left_out() {
    let got = collect_posts(vec![Some(post(3)), None, Some(post(0)), Some(post(1))]);
    assert_eq!(got.iter().map(|p| p.postId).collect::<Vec<_>>(), vec![3, 1]);
    assert!(collect_posts(vec![]).is_empty());
}

#[test]
fn cats_map_keeps_cats_seen_somewhere() {
    let got = cats_with_places(vec![
        (cat(1), Some(vec!["a".to_string()])),
        (cat(2), Some(vec![])),
        (cat(3), None),
        (cat(4), Some(vec!["b".to_string(), "c".to_string()])),
    ]);
    assert_eq!(got.iter().map(|c| (c.cat.catId, c.places.len())).collect::<Vec<_>>(), vec![(1, 1), (4, 2)]);
}

#[test]
fn feeding_list_steps() {
    let f = FeedingDB { catId: 1, userId: 5, feedFood: "fish".to_string(), ..FeedingDB::default() };
    let cands = feeding_candidates(vec![(cat(0), Some(f.clone())), (cat(1), Some(f.clone())), (cat(2), None)]);
    assert_eq!(cands.iter().map(|c| (c.0.catId, c.1.userId)).collect::<Vec<_>>(), vec![(1, 5), (2, 0)]);
    let rows = with_feeders(vec![
        (cat(1), f.clone(), Some(user(5))),
        (cat(2), FeedingDB::default(), None),
        (cat(3), FeedingDB::default(), Some(user(0))),
    ]);
    assert_eq!(rows.iter().map(|r| (r.0.catId, r.2.uid)).collect::<Vec<_>>(), vec![(1, 5)]);
    let shown = CatDisp { catId: 1, ..CatDisp::default() };
    let infos = feeding_infos(vec![
        (Some(shown), f.clone(), user(5)),
        (None, f.clone(), user(6)),
        (Some(CatDisp::default()), f, user(7)),
    ]);
    assert_eq!(infos.iter().map(|i| (i.cat.catId, i.user.uid, i.last.feedFood.as_str())).collect::<Vec<_>>(), vec![(1, 5, "fish")]);
}
