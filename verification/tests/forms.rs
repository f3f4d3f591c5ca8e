use school_cats::cats::{BreedDB, CatDB};
use school_cats::forms::{
    breed_desc_for, breed_post, display_name, feeding_from_form, files_to_upload, login_post, new_cat, new_post,
    place_post, register_post, reload_after_breed, reload_after_place, select_cat, select_place, user_label, DEFAULT_HEAD,
};
use school_cats::places::PlaceDB;
use school_cats::time::Time;
use school_cats::user::User;

fn s(x: &str) -> String {
    x.to_string()
}

fn place(id: u32, d: &str) -> PlaceDB {
    PlaceDB { id, details: s(d) }
}

#[test]
fn passwords_travel_hashed() {
    let p = login_post(s("amy"), "hello");
    assert_eq!(p.username, "amy");
    assert_eq!(p.passwd, "2cf24dba5fb0a30e26e83b2ac5b9e29e1b161e5c1fa7425e73043362938b9824");
    let r = register_post(s("amy"), "hello", s("A"), s("m"));
    assert_eq!((r.user.uid, r.user.head, r.user.usernick.as_str()), (0, DEFAULT_HEAD, "A"));
    assert_eq!(r.passwd, p.passwd);
}

#[test]
fn feeding_form_ids() {
    let f = feeding_from_form(5, Time { secs: 9, nanos: 0 }, s("fish"), s("1 can"), "12", "x");
    assert_eq!((f.catId, f.userId, f.placeId, f.feedTime.secs, f.feedFood.as_str()), (12, 5, 0, 9, "fish"));
}

#[test]
fn cat_and_breed_forms() {
    let c = new_cat(2, s("咪"), Time { secs: 1, nanos: 0 }, s("gate"));
    assert_eq!((c.catId, c.breedId, c.atSchool, c.health.as_str()), (0, 2, true, ""));
    assert!(breed_post(s(""), s("d")).is_none());
    assert_eq!(breed_post(s("n"), s("d")).unwrap().desc, "d");
    assert!(place_post(s("")).is_none());
    assert_eq!(place_post(s("三食堂")).unwrap().details, "三食堂");
}

#[test]
fn breed_description_of_choice() {
    let bs = vec![
        BreedDB { breedId: 1, breedName: s("a"), breedDesc: s("first") },
        BreedDB { breedId: 12, breedName: s("b"), breedDesc: s("twelve") },
        BreedDB { breedId: 1, breedName: s("c"), breedDesc: s("again") },
    ];
    assert_eq!(breed_desc_for(&bs, "1"), Some(s("again")));
    assert_eq!(breed_desc_for(&bs, "12"), Some(s("twelve")));
    assert_eq!(breed_desc_for(&bs, "01"), None);
}

#[test]
fn picking_places() {
    let places = vec![place(1, "a"), place(2, "b"), place(1, "c")];
    let chosen = select_place(&places, &vec![], "1");
    assert_eq!(chosen.iter().map(|p| p.details.as_str()).collect::<Vec<_>>(), vec!["a", "c"]);
    let again = select_place(&places, &chosen, "1");
    assert_eq!(again.len(), 2);
    let more = select_place(&places, &chosen, "2");
    assert_eq!(more.iter().map(|p| p.id).collect::<Vec<_>>(), vec![1, 1, 2]);
    assert_eq!(select_place(&places, &chosen, "7").len(), 2);
}

#[test]
fn picking_cats() {
    let cats = vec![CatDB { catId: 4, ..CatDB::default() }, CatDB { catId: 5, ..CatDB::default() }];
    let chosen = select_cat(&cats, &vec![], "5");
    assert_eq!(chosen.iter().map(|c| c.catId).collect::<Vec<_>>(), vec![5]);
    assert_eq!(select_cat(&cats, &chosen, "5").len(), 1);
}

#[test]
fn picks_in_any_order_never_repeat() {
    let places = vec![place(1, "a"), place(2, "b"), place(3, "c")];
    let mut chosen: Vec<PlaceDB> = vec![];
    for pick in ["2", "1", "2", "9", "1", "3", "3", "x"] {
        chosen = select_place(&places, &chosen, pick);
    }
    assert_eq!(chosen.iter().map(|p| p.id).collect::<Vec<_>>(), vec![2, 1, 3]);
    let cats = vec![CatDB { catId: 4, ..CatDB::default() }, CatDB { catId: 5, ..CatDB::default() }];
    let mut picked: Vec<CatDB> = vec![];
    for pick in ["5", "5", "4", "6", "4"] {
        picked = select_cat(&cats, &picked, pick);
    }
    assert_eq!(picked.iter().map(|c| c.catId).collect::<Vec<_>>(), vec![5, 4]);
}

#[test]
fn new_post_body() {
    let cats = vec![CatDB { catId: 4, ..CatDB::default() }];
    let p = new_post(s("t"), vec![s("i")], &vec![place(3, "x"), place(1, "y")], &cats);
    assert_eq!((p.places.clone(), p.cats.clone(), p.images.len()), (vec![3, 1], vec![4], 1));
}

#[test]
fn uploads_skip_sent_files() {
    let (ready, all) = files_to_upload(&vec![s("a.png"), s("b.png"), s("a.png"), s("c.jpg")], &vec![s("b.png")]);
    assert_eq!(ready, vec![s("a.png"), s("a.png"), s("c.jpg")]);
    assert_eq!(all, vec![s("b.png"), s("a.png"), s("c.jpg")]);
}

#[test]
fn names_and_labels() {
    let mut u = User { username: s("amy"), uid: 7, head: 1, usernick: s("小A"), motto: s("") };
    assert_eq!(display_name(&u), "小A");
    assert_eq!(user_label(&u), "[7]小A");
    u.usernick = s("");
    assert_eq!(user_label(&u), "[7]amy");
}

#[test]
fn reload_decisions() {
    assert!(reload_after_place(200));
    assert!(reload_after_place(400));
    assert!(!reload_after_place(0));
    assert!(reload_after_breed(2));
    assert!(!reload_after_breed(1));
    assert!(!reload_after_breed(0));
}
