//! Posts about cats, with their images, places, cats and comments.

use vstd::prelude::*;
use crate::cats::CatDB;
use crate::time::Time;
use crate::user::{User, copy_user};

verus! {

/// The body of a request that publishes a post.
#[derive(Clone, Debug)]
pub struct PostsPost {
    pub text: String,
    pub images: Vec<String>,
    pub places: Vec<u32>,
    pub cats: Vec<u32>,
}

impl Default for PostsPost {
    fn default() -> (r: Self)
        ensures
            r.text@ == Seq::<char>::empty(),
            r.images@.len() == 0,
            r.places@.len() == 0,
            r.cats@.len() == 0,
    {
        PostsPost { text: String::new(), images: Vec::new(), places: Vec::new(), cats: Vec::new() }
    }
}

/// The text of a post as stored in the `PostContent` table.
#[derive(Clone, Debug)]
pub struct PostsContentDB {
    pub postId: u32,
    pub userId: u32,
    pub postTime: Time,
    pub postText: String,
}

impl Default for PostsContentDB {
    fn default() -> (r: Self)
        ensures
            r.postId == 0,
            r.userId == 0,
            r.postTime == (Time { secs: 0, nanos: 0 }),
            r.postText@ == Seq::<char>::empty(),
    {
        PostsContentDB { postId: 0, userId: 0, postTime: Time::epoch(), postText: String::new() }
    }
}

/// A comment as stored in the `CommentContent` table.
#[derive(Clone, Debug)]
pub struct CommentDB {
    pub commentId: u32,
    pub userId: u32,
    pub commentText: String,
}

impl Default for CommentDB {
    fn default() -> (r: Self)
        ensures
            r.commentId == 0,
            r.userId == 0,
            r.commentText@ == Seq::<char>::empty(),
    {
        CommentDB { commentId: 0, userId: 0, commentText: String::new() }
    }
}

/// The body of a request that comments on post `id`.
#[derive(Clone, Debug)]
pub struct CommentPost {
    pub id: u32,
    pub text: String,
}

/// A comment with its author, as shown under a post.
#[derive(Clone, Debug)]
pub struct CommentDisp {
    pub user: User,
    pub text: String,
}

impl Default for CommentDisp {
    fn default() -> (r: Self)
        ensures
            r.user.uid == 0,
            r.user.head == 0,
            r.user.username@ == Seq::<char>::empty(),
            r.user.usernick@ == Seq::<char>::empty(),
            r.user.motto@ == Seq::<char>::empty(),
            r.text@ == Seq::<char>::empty(),
    {
        CommentDisp { user: User::default(), text: String::new() }
    }
}

/// A post with everything that is shown with it.
#[derive(Clone, Debug)]
pub struct PostDisp {
    pub postId: u32,
    pub text: String,
    pub time: Time,
    pub user: User,
    pub images: Vec<String>,
    pub comments: Vec<CommentDisp>,
    pub places: Vec<String>,
    pub cats: Vec<CatDB>,
}

/// A copy of a list of strings.
pub fn copy_strings(v: &Vec<String>) -> (r: Vec<String>)
    ensures
        r@ == v@,
{
    let mut r: Vec<String> = Vec::new();
    let n = v.len();
    for i in 0..n
        invariant
            n == v.len(),
            r@ == v@.take(i as int),
    {
        r.push(v[i].clone());
        assert(r@ == v@.take(i + 1));
    }
    assert(v@.take(n as int) == v@);
    r
}

fn copy_comments(v: &Vec<CommentDisp>) -> (r: Vec<CommentDisp>)
    ensures
        r@ == v@,
{
    let mut r: Vec<CommentDisp> = Vec::new();
    let n = v.len();
    for i in 0..n
        invariant
            n == v.len(),
            r@ == v@.take(i as int),
    {
        let c = CommentDisp { user: copy_user(&v[i].user), text: v[i].text.clone() };
        r.push(c);
        assert(r@ == v@.take(i + 1));
    }
    assert(v@.take(n as int) == v@);
    r
}

fn copy_cats(v: &Vec<CatDB>) -> (r: Vec<CatDB>)
    ensures
        r@ == v@,
{
    let mut r: Vec<CatDB> = Vec::new();
    let n = v.len();
    for i in 0..n
        invariant
            n == v.len(),
            r@ == v@.take(i as int),
    {
        r.push(v[i].copy());
        assert(r@ == v@.take(i + 1));
    }
    assert(v@.take(n as int) == v@);
    r
}

impl PostDisp {
    /// `self` and `other` hold the same values, field by field and list by list.
    pub open spec fn same_contents(self, other: PostDisp) -> bool {
        &&& self.postId == other.postId
        &&& self.text == other.text
        &&& self.time == other.time
        &&& self.user == other.user
        &&& self.images@ == other.images@
        &&& self.comments@ == other.comments@
        &&& self.places@ == other.places@
        &&& self.cats@ == other.cats@
    }

    /// A field-by-field copy.
    pub fn copy(&self) -> (r: Self)
        ensures
            r.same_contents(*self),
    {
        let r = PostDisp {
            postId: self.postId,
            text: self.text.clone(),
            time: self.time,
            user: copy_user(&self.user),
            images: copy_strings(&self.images),
            comments: copy_comments(&self.comments),
            places: copy_strings(&self.places),
            cats: copy_cats(&self.cats),
        };
        r
    }

    /// The placeholder for a post that could not be loaded: post 0 by the
    /// default user, at the epoch, with nothing in it.
    pub open spec fn is_default(self) -> bool {
        &&& self.postId == 0
        &&& self.text@ == Seq::<char>::empty()
        &&& self.time == Time { secs: 0, nanos: 0 }
        &&& self.user.uid == 0
        &&& self.user.head == 0
        &&& self.user.username@ == Seq::<char>::empty()
        &&& self.user.usernick@ == Seq::<char>::empty()
        &&& self.user.motto@ == Seq::<char>::empty()
        &&& self.images@.len() == 0
        &&& self.comments@.len() == 0
        &&& self.places@.len() == 0
        &&& self.cats@.len() == 0
    }
}

impl Default for PostDisp {
    fn default() -> (r: Self)
        ensures
            r.is_default(),
    {
        PostDisp {
            postId: 0,
            text: String::new(),
            time: Time::epoch(),
            user: User::default(),
            images: Vec::new(),
            comments: Vec::new(),
            places: Vec::new(),
            cats: Vec::new(),
        }
    }
}

/// Two posts are the same post when their ids are equal.
impl PartialEq for PostDisp {
    fn eq(&self, other: &Self) -> (r: bool) {
        self.postId == other.postId
    }
}

impl vstd::std_specs::cmp::PartialEqSpecImpl for PostDisp {
    open spec fn obeys_eq_spec() -> bool {
        true
    }

    open spec fn eq_spec(&self, other: &PostDisp) -> bool {
        same_post(*self, *other)
    }
}

/// Two posts are the same post when their ids are equal.
pub open spec fn same_post(a: PostDisp, b: PostDisp) -> bool {
    a.postId == b.postId
}

/// Being the same post is an equivalence relation.
pub proof fn law_same_post_is_equivalence(a: PostDisp, b: PostDisp, c: PostDisp)
    ensures
        same_post(a, a),
        same_post(a, b) == same_post(b, a),
        same_post(a, b) && same_post(b, c) ==> same_post(a, c),
{
}

} // verus!
