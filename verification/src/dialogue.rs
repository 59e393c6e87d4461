//! A conversation: posts in the order of time, their authors, and the frame in
//! which a stored conversation stands.
use std::collections::HashMap;
use vstd::prelude::*;
use vstd::slice::slice_subrange;
use vstd::std_specs::iter::IteratorSpec;
use vstd::utf8::*;

use crate::bytes::{
    be, be_reads_back, lemma_pow256, of_be, of_be_writes_back, push_all, push_be, read_be,
    same_bytes,
};
use crate::text::{chars_of, same_chars};

verus! {

broadcast use vstd::std_specs::hash::group_hash_axioms;

/// The most bytes that are read of a stored conversation.
pub const MAX_BYTES: usize = 65536;

/// The most posts that a conversation keeps; the oldest go.
pub const MAX_POSTS: usize = 256;

/// The estimated size to which a conversation is kept, well under `MAX_BYTES`: a
/// longer one would be cut when it is read.
pub const BYTE_BUDGET: usize = 56 * 1024;

/// What a post takes besides its text, generously.
pub const PER_POST_OVERHEAD: usize = 128;

/// What a conversation takes besides its title and posts, generously.
pub const BASE_OVERHEAD: usize = 512;

/// The name under which the user's own posts stand.
pub const SELF_AUTHOR: &'static str = "me";

// ---------------------------------------------------------------------------
// The frame of a stored conversation
// ---------------------------------------------------------------------------

/// What a stored conversation begins with.
pub const ENVELOPE_MAGIC: [u8; 4] = [0x43, 0x48, 0x64, 0x31];

/// Bytes before the body of a stored conversation.
pub const ENVELOPE_HEADER: usize = 12;

/// The checksum after one more byte.
pub open spec fn checksum_step(h: u32, b: u8) -> u32 {
    (h ^ (b as u32)).wrapping_mul(0x0100_0193)
}

/// The FNV-1a checksum, 32 bits wide.
pub open spec fn fnv1a(data: Seq<u8>) -> u32
    decreases data.len(),
{
    if data.len() == 0 {
        0x811c_9dc5
    } else {
        checksum_step(fnv1a(data.drop_last()), data.last())
    }
}

/// The FNV-1a checksum, 32 bits wide.
pub fn checksum(data: &[u8]) -> (r: u32)
    ensures
        r == fnv1a(data@),
{
    let mut h: u32 = 0x811c_9dc5;
    let mut i: usize = 0;
    while i < data.len()
        invariant
            i <= data@.len(),
            h == fnv1a(data@.take(i as int)),
        decreases data@.len() - i,
    {
        assert(data@.take(i + 1).drop_last() =~= data@.take(i as int));
        h = (h ^ (data[i] as u32)).wrapping_mul(0x0100_0193);
        i += 1;
    }
    assert(data@.take(data@.len() as int) =~= data@);
    h
}

/// A body in its frame: the magic, the length, the checksum, the body.
pub open spec fn framed(body: Seq<u8>) -> Seq<u8> {
    ENVELOPE_MAGIC@ + be(body.len(), 4) + be(fnv1a(body) as nat, 4) + body
}

/// Frames a body.
pub fn frame_body(body: &[u8]) -> (r: Vec<u8>)
    ensures
        r@ == framed(body@),
{
    let mut val: Vec<u8> = Vec::new();
    push_all(&mut val, ENVELOPE_MAGIC.as_slice());
    push_be(&mut val, body.len() as u64, 4);
    push_be(&mut val, checksum(body) as u64, 4);
    push_all(&mut val, body);
    assert(val@ =~= framed(body@));
    val
}

/// The body in a frame; what follows it is left alone. Nothing where the frame is
/// missing, not whole, or does not match its checksum.
pub open spec fn unframed(val: Seq<u8>) -> Option<Seq<u8>> {
    if val.len() < ENVELOPE_HEADER || val.take(4) != ENVELOPE_MAGIC@ {
        None
    } else {
        let n = of_be(val.subrange(4, 8));
        let body = val.subrange(12, (12 + n) as int);
        if n > val.len() - 12 || fnv1a(body) != of_be(val.subrange(8, 12)) {
            None
        } else {
            Some(body)
        }
    }
}

/// The body in a frame.
pub fn unframe_body(val: &[u8]) -> (r: Option<&[u8]>)
    ensures
        match r {
            Some(b) => unframed(val@) == Some(b@),
            None => unframed(val@) is None,
        },
{
    if val.len() < ENVELOPE_HEADER {
        return None;
    }
    let magic = slice_subrange(val, 0, 4);
    assert(magic@ =~= val@.take(4));
    if !same_bytes(magic, ENVELOPE_MAGIC.as_slice()) {
        return None;
    }
    let len_bytes = slice_subrange(val, 4, 8);
    let crc_bytes = slice_subrange(val, 8, 12);
    proof {
        of_be_writes_back(len_bytes@);
        of_be_writes_back(crc_bytes@);
        lemma_pow256();
    }
    let n = read_be(len_bytes) as usize;
    let crc = read_be(crc_bytes);
    if n > val.len() - ENVELOPE_HEADER {
        return None;
    }
    let body = slice_subrange(val, 12, 12 + n);
    if checksum(body) as u64 != crc {
        return None;
    }
    Some(body)
}

/// A framed body comes back as it was, whatever was stored behind it before.
pub proof fn framed_body_reads_back(body: Seq<u8>, stale: Seq<u8>)
    requires
        body.len() < 0x1_0000_0000,
    ensures
        unframed(framed(body) + stale) == Some(body),
{
    let val = framed(body) + stale;
    lemma_pow256();
    be_reads_back(body.len(), 4);
    be_reads_back(fnv1a(body) as nat, 4);
    assert(val.take(4) =~= ENVELOPE_MAGIC@);
    assert(val.subrange(4, 8) =~= be(body.len(), 4));
    assert(val.subrange(8, 12) =~= be(fnv1a(body) as nat, 4));
    assert(val.subrange(12, (12 + body.len()) as int) =~= body);
}

// ---------------------------------------------------------------------------
// Authors and posts
// ---------------------------------------------------------------------------

/// How an author's posts are shown.
#[derive(Debug, Clone, Copy, PartialEq, Eq, Structural)]
pub struct AuthorFlags {
    pub bold: bool,
    pub hidden: bool,
    pub right: bool,
}

/// An author of posts.
#[derive(Debug)]
pub struct Author {
    pub name: String,
    pub flags: AuthorFlags,
}

impl Author {
    /// An author without flags.
    pub fn new(name: &str) -> (r: Author)
        ensures
            r.name@ == name@,
            r.flags == (AuthorFlags { bold: false, hidden: false, right: false }),
    {
        Author {
            name: String::from_str(name),
            flags: AuthorFlags { bold: false, hidden: false, right: false },
        }
    }
}

/// The space that a post takes on the screen.
#[derive(Debug, Clone, Copy, PartialEq, Eq, Structural)]
pub struct Bounds {
    pub width: u32,
    pub height: u32,
}

/// A post.
#[derive(Debug)]
pub struct Post {
    pub author_id: u16,
    pub timestamp: u64,
    pub text: String,
    /// Its space on the screen, where that was measured.
    pub bounding_box: Option<Bounds>,
}

/// A post as plain mathematics.
#[verifier::ext_equal]
pub struct PostModel {
    pub author_id: u16,
    pub timestamp: u64,
    pub text: Seq<char>,
    pub bounding_box: Option<Bounds>,
}

impl View for Post {
    type V = PostModel;

    open spec fn view(&self) -> PostModel {
        PostModel {
            author_id: self.author_id,
            timestamp: self.timestamp,
            text: self.text@,
            bounding_box: self.bounding_box,
        }
    }
}

pub open spec fn post_models(v: Seq<Post>) -> Seq<PostModel> {
    v.map_values(|p: Post| p@)
}

/// Why a conversation refuses.
#[derive(Debug, Clone, Copy, PartialEq, Eq, Structural)]
pub enum DialogueError {
    /// No more authors can be told apart.
    MaxAuthorsExceeded,
    /// There is no post there.
    PostIndexOutOfRange,
}

/// A conversation.
#[derive(Debug)]
pub struct Dialogue {
    pub title: String,
    /// The posts, the oldest first.
    pub posts: Vec<Post>,
    /// The authors by number.
    pub authors: HashMap<u16, Author>,
    /// The numbers of authors by name, each name once.
    pub author_lookup: Vec<(String, u16)>,
    /// The time of the newest post; when the conversation began while it has none.
    pub last_timestamp: u64,
    /// The last number that was given to an author.
    pub last_author_id: u16,
}

/// Posts in the order of time.
pub open spec fn in_time_order(posts: Seq<PostModel>) -> bool {
    forall|i: int, j: int|
        0 <= i < j < posts.len() ==> (#[trigger] posts[i]).timestamp <= (
        #[trigger] posts[j]).timestamp
}

/// The number that `name` has from index `i` on.
pub open spec fn lookup_from(l: Seq<(String, u16)>, name: Seq<char>, i: int) -> Option<u16>
    decreases l.len() - i,
{
    if i >= l.len() {
        None
    } else if l[i].0@ == name {
        Some(l[i].1)
    } else {
        lookup_from(l, name, i + 1)
    }
}

/// How many posts, from the first on, are no later than `ts`, in posts by time.
pub open spec fn place_after(posts: Seq<PostModel>, ts: u64) -> int
    decreases posts.len(),
{
    if posts.len() == 0 {
        0
    } else if posts.last().timestamp <= ts {
        posts.len() as int
    } else {
        place_after(posts.drop_last(), ts)
    }
}

/// The estimated size of posts.
pub open spec fn posts_size(posts: Seq<PostModel>) -> nat
    decreases posts.len(),
{
    if posts.len() == 0 {
        0
    } else {
        posts_size(posts.drop_last()) + encode_utf8(posts.last().text).len()
            + PER_POST_OVERHEAD as nat
    }
}

/// The estimated size of a conversation.
pub open spec fn estimated_size(title: Seq<char>, posts: Seq<PostModel>) -> nat {
    encode_utf8(title).len() + BASE_OVERHEAD as nat + posts_size(posts)
}

/// The newest posts within the budget; the newest one in any case.
pub open spec fn budgeted(title: Seq<char>, posts: Seq<PostModel>) -> Seq<PostModel>
    decreases posts.len(),
{
    if estimated_size(title, posts) > BYTE_BUDGET && posts.len() > 1 {
        budgeted(title, posts.skip(1))
    } else {
        posts
    }
}

/// The newest `MAX_POSTS` posts.
pub open spec fn capped(posts: Seq<PostModel>) -> Seq<PostModel> {
    if posts.len() > MAX_POSTS {
        posts.skip(posts.len() - MAX_POSTS)
    } else {
        posts
    }
}

/// The posts after one more: behind all that are no later, within the limits. The
/// first post of a conversation is taken without a measure and without a look at
/// the limits.
pub open spec fn with_post(title: Seq<char>, posts: Seq<PostModel>, p: PostModel) -> Seq<PostModel> {
    if posts.len() == 0 {
        seq![PostModel { bounding_box: None, ..p }]
    } else {
        budgeted(title, capped(posts.insert(place_after(posts, p.timestamp), p)))
    }
}

/// The first post from `i` on of the author at the time, or the number of posts.
pub open spec fn find_from(posts: Seq<PostModel>, author_id: u16, ts: u64, i: int) -> int
    decreases posts.len() - i,
{
    if i >= posts.len() {
        posts.len() as int
    } else if posts[i].timestamp == ts && posts[i].author_id == author_id {
        i
    } else {
        find_from(posts, author_id, ts, i + 1)
    }
}

impl Dialogue {
    /// Posts stand by time, and there are not too many; the time of the newest is kept.
    /// Names stand once, each with a number of its own that is not zero, and the authors
    /// that they number exist.
    pub open spec fn wf(&self) -> bool {
        &&& in_time_order(post_models(self.posts@))
        &&& self.posts@.len() <= MAX_POSTS
        &&& self.posts@.len() > 0 ==> self.last_timestamp == self.posts@.last().timestamp
        &&& forall|i: int, j: int|
            0 <= i < j < self.author_lookup@.len() ==> (#[trigger] self.author_lookup@[i]).0@ != (
            #[trigger] self.author_lookup@[j]).0@ && self.author_lookup@[i].1
                != self.author_lookup@[j].1
        &&& forall|i: int|
            0 <= i < self.author_lookup@.len() ==> 0 < (#[trigger] self.author_lookup@[i]).1
                <= self.last_author_id && self.authors@.contains_key(self.author_lookup@[i].1)
    }

    /// The number of the author called `name`.
    pub open spec fn id_of(&self, name: Seq<char>) -> Option<u16> {
        lookup_from(self.author_lookup@, name, 0)
    }

    /// A conversation with one author, the user, and no posts.
    pub fn new(title: &str, now: u64) -> (r: Dialogue)
        ensures
            r.wf(),
            r.title@ == title@,
            r.posts@.len() == 0,
            r.author_lookup@.len() == 0,
            r.last_timestamp == now,
            r.last_author_id == 1,
            r.authors@.dom() == set![0u16],
            r.authors@[0].name@ == "me"@,
            r.authors@[0].flags == (AuthorFlags { bold: false, hidden: false, right: false }),
    {
        let mut authors: HashMap<u16, Author> = HashMap::new();
        authors.insert(0, Author::new("me"));
        assert(authors@.dom() =~= set![0u16]);
        Dialogue {
            title: String::from_str(title),
            posts: Vec::new(),
            authors,
            author_lookup: Vec::new(),
            last_timestamp: now,
            last_author_id: 1,
        }
    }

    /// The number of a known author.
    fn known_author(&self, name: &str) -> (r: Option<u16>)
        ensures
            r == self.id_of(name@),
    {
        let n = chars_of(name);
        let mut i: usize = 0;
        while i < self.author_lookup.len()
            invariant
                i <= self.author_lookup@.len(),
                n@ == name@,
                self.id_of(name@) == lookup_from(self.author_lookup@, name@, i as int),
            decreases self.author_lookup@.len() - i,
        {
            let have = chars_of(self.author_lookup[i].0.as_str());
            if same_chars(have.as_slice(), n.as_slice()) {
                return Some(self.author_lookup[i].1);
            }
            i += 1;
        }
        None
    }

    /// Gives out the next number for an author; none where all are given out.
    pub fn author_id_next(&mut self) -> (r: Option<u16>)
        ensures
            r == (if old(self).last_author_id < u16::MAX {
                Some((old(self).last_author_id + 1) as u16)
            } else {
                None
            }),
            *final(self) == (Dialogue {
                last_author_id: if old(self).last_author_id < u16::MAX {
                    (old(self).last_author_id + 1) as u16
                } else {
                    old(self).last_author_id
                },
                ..*old(self)
            }),
    {
        if self.last_author_id < u16::MAX {
            self.last_author_id = self.last_author_id + 1;
            Some(self.last_author_id)
        } else {
            None
        }
    }
}

/// Names in front stay where they are.
proof fn lemma_lookup_push(l: Seq<(String, u16)>, e: (String, u16), name: Seq<char>, i: int)
    requires
        0 <= i <= l.len(),
    ensures
        lookup_from(l.push(e), name, i) == (match lookup_from(l, name, i) {
            Some(id) => Some(id),
            None => if e.0@ == name {
                Some(e.1)
            } else {
                None
            },
        }),
    decreases l.len() - i,
{
    if i < l.len() {
        assert(l.push(e)[i] == l[i]);
        lemma_lookup_push(l, e, name, i + 1);
    } else {
        reveal_with_fuel(lookup_from, 2);
    }
}

proof fn lemma_lookup_none(l: Seq<(String, u16)>, name: Seq<char>, i: int)
    requires
        0 <= i <= l.len(),
        lookup_from(l, name, i) is None,
    ensures
        forall|k: int| i <= k < l.len() ==> (#[trigger] l[k]).0@ != name,
    decreases l.len() - i,
{
    if i < l.len() {
        lemma_lookup_none(l, name, i + 1);
    }
}

proof fn lemma_lookup_some(l: Seq<(String, u16)>, name: Seq<char>, i: int)
    requires
        0 <= i <= l.len(),
        lookup_from(l, name, i) is Some,
    ensures
        exists|k: int|
            i <= k < l.len() && (#[trigger] l[k]).0@ == name && Some(l[k].1) == lookup_from(
                l,
                name,
                i,
            ),
    decreases l.len() - i,
{
    if l[i].0@ != name {
        lemma_lookup_some(l, name, i + 1);
    } else {
        assert(l[i].0@ == name);
    }
}

/// After `before`, the author called `author` has the number `id`: the one they had, or
/// else the next. The user's own posts stand on the right.
pub open spec fn numbered(before: Dialogue, after: Dialogue, author: Seq<char>, id: u16) -> bool {
    &&& after.id_of(author) == Some(id)
    &&& match before.id_of(author) {
        Some(known) => {
            &&& id == known
            &&& after.author_lookup == before.author_lookup
            &&& after.last_author_id == before.last_author_id
            &&& after.authors@[id].name@ == before.authors@[id].name@
            &&& after.authors@[id].flags == (AuthorFlags {
                right: before.authors@[id].flags.right || author == SELF_AUTHOR@,
                ..before.authors@[id].flags
            })
        },
        None => {
            &&& id == before.last_author_id + 1
            &&& after.last_author_id == id
            &&& after.authors@[id].name@ == author
            &&& after.authors@[id].flags == (AuthorFlags {
                bold: false,
                hidden: false,
                right: author == SELF_AUTHOR@,
            })
            &&& forall|other: Seq<char>| #[trigger]
                after.id_of(other) == if other == author {
                    Some(id)
                } else {
                    before.id_of(other)
                }
        },
    }
    &&& after.authors@.contains_key(id)
    &&& after.authors@.remove(id) == before.authors@.remove(id)
}

impl Dialogue {
    /// The number of the author called `author`, who gets one where there was none;
    /// nothing where all are given out. The user's own posts stand on the right.
    pub fn author_id(&mut self, author: &str) -> (r: Option<u16>)
        requires
            old(self).wf(),
        ensures
            final(self).wf(),
            final(self).title == old(self).title,
            final(self).posts == old(self).posts,
            final(self).last_timestamp == old(self).last_timestamp,
            r is None <==> old(self).id_of(author@) is None && old(self).last_author_id == u16::MAX,
            r is None ==> *final(self) == *old(self),
            r matches Some(id) ==> numbered(*old(self), *final(self), author@, id),
    {
        let own = {
            let a = chars_of(author);
            let b = chars_of(SELF_AUTHOR);
            same_chars(a.as_slice(), b.as_slice())
        };
        let ghost l0 = self.author_lookup@;
        let ghost a0 = self.authors@;
        match self.known_author(author) {
            Some(id) => {
                proof {
                    lemma_lookup_some(l0, author@, 0);
                    assert(a0.contains_key(id));
                }
                if own {
                    let flagged = match self.authors.get(&id) {
                        Some(a) => Author {
                            name: a.name.clone(),
                            flags: AuthorFlags {
                                bold: a.flags.bold,
                                hidden: a.flags.hidden,
                                right: true,
                            },
                        },
                        None => Author::new(author),
                    };
                    self.authors.insert(id, flagged);
                    assert(self.authors@.remove(id) =~= a0.remove(id));
                    assert(self.authors@.dom() =~= a0.dom());
                }
                Some(id)
            },
            None => {
                let id = match self.author_id_next() {
                    Some(id) => id,
                    None => {
                        return None;
                    },
                };
                let mut a = Author::new(author);
                if own {
                    a.flags = AuthorFlags { bold: false, hidden: false, right: true };
                }
                self.authors.insert(id, a);
                self.author_lookup.push((String::from_str(author), id));
                proof {
                    let e = self.author_lookup@.last();
                    assert(self.author_lookup@ == l0.push(e));
                    lemma_lookup_none(l0, author@, 0);
                    assert forall|other: Seq<char>| #[trigger] self.id_of(other) == if other
                        == author@ {
                        Some(id)
                    } else {
                        old(self).id_of(other)
                    } by {
                        lemma_lookup_push(l0, e, other, 0);
                        if old(self).id_of(other) is Some && other == author@ {
                            assert(false);
                        }
                    }
                    assert(self.authors@.remove(id) =~= a0.remove(id));
                    assert forall|i: int, j: int| 0 <= i < j < self.author_lookup@.len() implies (
                    #[trigger] self.author_lookup@[i]).0@ != (
                    #[trigger] self.author_lookup@[j]).0@ && self.author_lookup@[i].1
                        != self.author_lookup@[j].1 by {
                        if j < l0.len() {
                            assert(self.author_lookup@[i] == l0[i]);
                            assert(self.author_lookup@[j] == l0[j]);
                        } else {
                            assert(self.author_lookup@[i] == l0[i]);
                        }
                    }
                    assert forall|i: int| 0 <= i < self.author_lookup@.len() implies 0 < (
                    #[trigger] self.author_lookup@[i]).1 <= self.last_author_id
                        && self.authors@.contains_key(self.author_lookup@[i].1) by {
                        if i < l0.len() {
                            assert(self.author_lookup@[i] == l0[i]);
                        }
                    }
                }
                Some(id)
            },
        }
    }

    /// The author with a number.
    pub fn author(&self, id: u16) -> (r: Option<&Author>)
        ensures
            match r {
                Some(a) => self.authors@.contains_key(id) && *a == self.authors@[id],
                None => !self.authors@.contains_key(id),
            },
    {
        self.authors.get(&id)
    }
}

// ---------------------------------------------------------------------------
// Adding a post
// ---------------------------------------------------------------------------

proof fn lemma_place_after(posts: Seq<PostModel>, ts: u64)
    requires
        in_time_order(posts),
    ensures
        0 <= place_after(posts, ts) <= posts.len(),
        forall|i: int| 0 <= i < place_after(posts, ts) ==> (#[trigger] posts[i]).timestamp <= ts,
        forall|i: int| place_after(posts, ts) <= i < posts.len() ==> ts < (
        #[trigger] posts[i]).timestamp,
    decreases posts.len(),
{
    if posts.len() > 0 {
        let d = posts.drop_last();
        assert(in_time_order(d)) by {
            assert forall|i: int, j: int| 0 <= i < j < d.len() implies (#[trigger] d[i]).timestamp
                <= (#[trigger] d[j]).timestamp by {
                assert(d[i] == posts[i] && d[j] == posts[j]);
            }
        }
        if posts.last().timestamp <= ts {
            assert forall|i: int| 0 <= i < posts.len() implies (#[trigger] posts[i]).timestamp
                <= ts by {
                if i < posts.len() - 1 {
                    assert(posts[i].timestamp <= posts[posts.len() - 1].timestamp);
                }
            }
        } else {
            lemma_place_after(d, ts);
            let k = place_after(posts, ts);
            assert forall|i: int| 0 <= i < k implies (#[trigger] posts[i]).timestamp <= ts by {
                assert(d[i] == posts[i]);
            }
            assert forall|i: int| k <= i < posts.len() implies ts < (
            #[trigger] posts[i]).timestamp by {
                if i < d.len() {
                    assert(d[i] == posts[i]);
                }
            }
        }
    }
}

proof fn lemma_insert_in_order(posts: Seq<PostModel>, p: PostModel)
    requires
        in_time_order(posts),
    ensures
        in_time_order(posts.insert(place_after(posts, p.timestamp), p)),
{
    lemma_place_after(posts, p.timestamp);
    let k = place_after(posts, p.timestamp);
    let t = posts.insert(k, p);
    assert forall|i: int, j: int| 0 <= i < j < t.len() implies (#[trigger] t[i]).timestamp <= (
    #[trigger] t[j]).timestamp by {
        let i0 = if i < k {
            i
        } else {
            i - 1
        };
        let j0 = if j < k {
            j
        } else {
            j - 1
        };
        if i != k && j != k {
            assert(t[i] == posts[i0] && t[j] == posts[j0]);
        } else if i == k {
            assert(t[j] == posts[j0]);
        } else {
            assert(t[i] == posts[i0]);
        }
    }
}

proof fn lemma_skip_in_order(posts: Seq<PostModel>, n: int)
    requires
        in_time_order(posts),
        0 <= n <= posts.len(),
    ensures
        in_time_order(posts.skip(n)),
{
    let t = posts.skip(n);
    assert forall|i: int, j: int| 0 <= i < j < t.len() implies (#[trigger] t[i]).timestamp <= (
    #[trigger] t[j]).timestamp by {
        assert(t[i] == posts[i + n] && t[j] == posts[j + n]);
    }
}

/// The size of posts is that of the first and of the rest.
proof fn lemma_posts_size_front(posts: Seq<PostModel>)
    requires
        posts.len() > 0,
    ensures
        posts_size(posts) == encode_utf8(posts[0].text).len() + PER_POST_OVERHEAD + posts_size(
            posts.skip(1),
        ),
    decreases posts.len(),
{
    if posts.len() == 1 {
        assert(posts.drop_last() =~= Seq::<PostModel>::empty());
        assert(posts.skip(1) =~= Seq::<PostModel>::empty());
    } else {
        let d = posts.drop_last();
        lemma_posts_size_front(d);
        assert(d.skip(1) =~= posts.skip(1).drop_last());
        assert(posts.skip(1).last() == posts.last());
        assert(d[0] == posts[0]);
    }
}

/// What the budget leaves is the newest posts, at least one of them, and within the
/// budget unless it is a single one.
pub proof fn budget_keeps_the_newest(title: Seq<char>, posts: Seq<PostModel>)
    requires
        posts.len() > 0,
    ensures
        ({
            let b = budgeted(title, posts);
            &&& 0 < b.len() <= posts.len()
            &&& b == posts.skip(posts.len() - b.len())
            &&& b.last() == posts.last()
            &&& estimated_size(title, b) <= BYTE_BUDGET || b.len() == 1
        }),
    decreases posts.len(),
{
    if estimated_size(title, posts) > BYTE_BUDGET && posts.len() > 1 {
        let t = posts.skip(1);
        budget_keeps_the_newest(title, t);
        let b = budgeted(title, t);
        assert(t.skip(t.len() - b.len()) =~= posts.skip(posts.len() - b.len()));
    } else {
        assert(posts.skip(0) =~= posts);
    }
}

/// `after` is `before` with a post by `author`, who has a number from now on if not
/// before.
pub open spec fn added(
    before: Dialogue,
    after: Dialogue,
    author: Seq<char>,
    timestamp: u64,
    text: Seq<char>,
    bounds: Option<Bounds>,
) -> bool {
    &&& after.title == before.title
    &&& after.id_of(author) is Some
    &&& numbered(before, after, author, after.id_of(author)->0)
    &&& post_models(after.posts@) == with_post(
        before.title@,
        post_models(before.posts@),
        (PostModel { author_id: after.id_of(author)->0, timestamp, text, bounding_box: bounds }),
    )
    &&& after.posts@.len() > 0
    &&& after.last_timestamp == after.posts@.last().timestamp
}

impl Dialogue {
    /// Drops the oldest posts until the estimated size is within the budget; the
    /// newest post stays in any case.
    pub fn enforce_byte_budget(&mut self)
        requires
            old(self).posts@.len() <= MAX_POSTS + 1,
        ensures
            post_models(final(self).posts@) == budgeted(
                old(self).title@,
                post_models(old(self).posts@),
            ),
            final(self).title == old(self).title,
            final(self).authors == old(self).authors,
            final(self).author_lookup == old(self).author_lookup,
            final(self).last_timestamp == old(self).last_timestamp,
            final(self).last_author_id == old(self).last_author_id,
    {
        let ghost all = post_models(self.posts@);
        let base: u128 = self.title.as_str().as_bytes().len() as u128 + BASE_OVERHEAD as u128;
        let mut total: u128 = base;
        let mut i: usize = 0;
        while i < self.posts.len()
            invariant
                i <= self.posts@.len() <= MAX_POSTS + 1,
                *self == *old(self),
                all == post_models(self.posts@),
                base <= 0x1_0000_0000_0000_0200,
                total == base + posts_size(all.take(i as int)),
                total <= base + i * 0x1_0000_0000_0000_0080,
            decreases self.posts@.len() - i,
        {
            proof {
                let t = all.take(i + 1);
                assert(t.drop_last() =~= all.take(i as int));
                assert(t.last() == self.posts@[i as int]@);
            }
            let size: u128 = self.posts[i].text.as_str().as_bytes().len() as u128
                + PER_POST_OVERHEAD as u128;
            total = total + size;
            i += 1;
        }
        assert(all.take(all.len() as int) =~= all);
        while total > BYTE_BUDGET as u128 && self.posts.len() > 1
            invariant
                total == base + posts_size(post_models(self.posts@)),
                base == encode_utf8(self.title@).len() + BASE_OVERHEAD,
                budgeted(self.title@, post_models(self.posts@)) == budgeted(self.title@, all),
                self.title == old(self).title,
                self.authors == old(self).authors,
                self.author_lookup == old(self).author_lookup,
                self.last_timestamp == old(self).last_timestamp,
                self.last_author_id == old(self).last_author_id,
            decreases self.posts@.len(),
        {
            let ghost m = post_models(self.posts@);
            proof {
                lemma_posts_size_front(m);
                assert(m[0] == self.posts@[0]@);
            }
            let size: u128 = self.posts[0].text.as_str().as_bytes().len() as u128
                + PER_POST_OVERHEAD as u128;
            total = total - size;
            self.posts.remove(0);
            assert(post_models(self.posts@) =~= m.skip(1));
        }
    }

    /// Puts a post into a conversation that has some.
    fn insert_post(&mut self, new: Post)
        requires
            old(self).wf(),
            old(self).posts@.len() > 0,
        ensures
            final(self).wf(),
            post_models(final(self).posts@) == with_post(
                old(self).title@,
                post_models(old(self).posts@),
                new@,
            ),
            final(self).posts@.len() > 0,
            final(self).title == old(self).title,
            final(self).authors == old(self).authors,
            final(self).author_lookup == old(self).author_lookup,
            final(self).last_author_id == old(self).last_author_id,
    {
        let ghost all = post_models(self.posts@);
        let ghost p = new@;
        let timestamp = new.timestamp;
        let mut k: usize = self.posts.len();
        assert(all.take(k as int) =~= all);
        while k > 0 && self.posts[k - 1].timestamp > timestamp
            invariant
                k <= self.posts@.len(),
                all == post_models(self.posts@),
                place_after(all, timestamp) == place_after(all.take(k as int), timestamp),
            decreases k,
        {
            proof {
                let t = all.take(k as int);
                assert(t.last() == self.posts@[k - 1]@);
                assert(t.drop_last() =~= all.take(k - 1));
            }
            k -= 1;
        }
        proof {
            if k > 0 {
                assert(all.take(k as int).last() == self.posts@[k - 1]@);
            }
            lemma_insert_in_order(all, p);
        }
        self.posts.insert(k, new);
        let ghost grown = post_models(self.posts@);
        assert(grown =~= all.insert(k as int, p));
        if self.posts.len() > MAX_POSTS {
            self.posts.remove(0);
            assert(post_models(self.posts@) =~= grown.skip(1));
        }
        let ghost cut = post_models(self.posts@);
        proof {
            assert(cut =~= capped(grown));
            lemma_skip_in_order(grown, grown.len() - cut.len());
            assert(grown.skip(grown.len() - cut.len()) =~= cut);
            budget_keeps_the_newest(self.title@, cut);
            let b = budgeted(self.title@, cut);
            lemma_skip_in_order(cut, cut.len() - b.len());
        }
        self.enforce_byte_budget();
        proof {
            assert(post_models(self.posts@).len() == self.posts@.len());
        }
        self.last_timestamp = self.posts[self.posts.len() - 1].timestamp;
    }

    /// The author is known, or there is a number left for a new one.
    pub open spec fn takes_author(&self, author: Seq<char>) -> bool {
        self.id_of(author) is Some || self.last_author_id < u16::MAX
    }

    /// Adds a post in the order of time, behind those of the same time. `bounds` is
    /// its space on the screen, where that was measured.
    pub fn post_add(
        &mut self,
        author: &str,
        timestamp: u64,
        text: &str,
        bounds: Option<Bounds>,
    ) -> (r: Result<(), DialogueError>)
        requires
            old(self).wf(),
        ensures
            final(self).wf(),
            match r {
                Err(e) => {
                    &&& e == DialogueError::MaxAuthorsExceeded
                    &&& old(self).id_of(author@) is None
                    &&& old(self).last_author_id == u16::MAX
                    &&& *final(self) == *old(self)
                },
                Ok(_) => old(self).takes_author(author@) && added(
                    *old(self),
                    *final(self),
                    author@,
                    timestamp,
                    text@,
                    bounds,
                ),
            },
    {
        let ghost all = post_models(self.posts@);
        let author_id = match self.author_id(author) {
            Some(id) => id,
            None => {
                return Err(DialogueError::MaxAuthorsExceeded);
            },
        };
        let ghost mid = *self;
        proof {
            assert forall|other: Seq<char>| other != author@ implies #[trigger] mid.id_of(other)
                == old(self).id_of(other) by {}
        }
        let new_text = String::from_str(text);
        let ghost p = PostModel { author_id, timestamp, text: text@, bounding_box: bounds };
        if self.posts.len() == 0 {
            let new = Post { author_id, timestamp, text: new_text, bounding_box: None };
            self.posts.push(new);
            self.last_timestamp = timestamp;
            proof {
                assert(new@ == PostModel { bounding_box: None, ..p });
                assert(post_models(self.posts@) =~= with_post(self.title@, all, p));
                assert forall|other: Seq<char>| other != author@ implies #[trigger] self.id_of(other)
                    == old(self).id_of(other) by {
                    assert(mid.id_of(other) == old(self).id_of(other));
                }
                assert(self.id_of(author@) == mid.id_of(author@));
            }
            return Ok(());
        }
        let new = Post { author_id, timestamp, text: new_text, bounding_box: bounds };
        assert(new@ == p);
        self.insert_post(new);
        proof {
            assert forall|other: Seq<char>| other != author@ implies #[trigger] self.id_of(other)
                == old(self).id_of(other) by {
                assert(mid.id_of(other) == old(self).id_of(other));
            }
            assert(self.id_of(author@) == mid.id_of(author@));
        }
        Ok(())
    }
}

// ---------------------------------------------------------------------------
// Finding and changing posts
// ---------------------------------------------------------------------------

/// Where the first post of an author at a time stands.
pub open spec fn found_at(posts: Seq<PostModel>, author_id: Option<u16>, ts: u64) -> Option<int> {
    match author_id {
        Some(id) => if find_from(posts, id, ts, 0) < posts.len() {
            Some(find_from(posts, id, ts, 0))
        } else {
            None
        },
        None => None,
    }
}

/// What `find_from` answers, said without recursion.
pub proof fn lemma_find_from(posts: Seq<PostModel>, author_id: u16, ts: u64, i: int)
    requires
        0 <= i <= posts.len(),
    ensures
        ({
            let k = find_from(posts, author_id, ts, i);
            &&& i <= k <= posts.len()
            &&& k < posts.len() ==> posts[k].timestamp == ts && posts[k].author_id == author_id
            &&& forall|j: int|
                i <= j < k ==> (#[trigger] posts[j]).timestamp != ts || posts[j].author_id
                    != author_id
        }),
    decreases posts.len() - i,
{
    if i < posts.len() && !(posts[i].timestamp == ts && posts[i].author_id == author_id) {
        lemma_find_from(posts, author_id, ts, i + 1);
    }
}

impl Dialogue {
    /// Where the first post of an author at a time stands.
    pub fn post_find(&self, author: &str, timestamp: u64) -> (r: Option<usize>)
        requires
            self.wf(),
        ensures
            match r {
                Some(i) => found_at(post_models(self.posts@), self.id_of(author@), timestamp)
                    == Some(i as int) && i < self.posts@.len(),
                None => found_at(
                    post_models(self.posts@),
                    self.id_of(author@),
                    timestamp,
                ) is None,
            },
    {
        let id = match self.known_author(author) {
            Some(id) => id,
            None => {
                return None;
            },
        };
        let ghost m = post_models(self.posts@);
        let mut i: usize = 0;
        while i < self.posts.len()
            invariant
                i <= self.posts@.len(),
                m == post_models(self.posts@),
                in_time_order(m),
                self.id_of(author@) == Some(id),
                find_from(m, id, timestamp, 0) == find_from(m, id, timestamp, i as int),
            decreases self.posts@.len() - i,
        {
            let p = &self.posts[i];
            assert(m[i as int] == p@);
            if p.timestamp > timestamp {
                proof {
                    lemma_find_from(m, id, timestamp, i as int);
                    let k = find_from(m, id, timestamp, i as int);
                    if k < m.len() && k > i {
                        assert(m[i as int].timestamp <= m[k].timestamp);
                    }
                }
                return None;
            }
            if p.timestamp == timestamp && p.author_id == id {
                return Some(i);
            }
            i += 1;
        }
        None
    }

    /// Replaces the text of the first post of an author at a time; `bounds` is its
    /// new space on the screen, where that was measured. False where there is none.
    pub fn post_update(
        &mut self,
        author: &str,
        timestamp: u64,
        new_text: &str,
        bounds: Option<Bounds>,
    ) -> (r: bool)
        requires
            old(self).wf(),
        ensures
            final(self).wf(),
            ({
                let m = post_models(old(self).posts@);
                match found_at(m, old(self).id_of(author@), timestamp) {
                    Some(i) => r && post_models(final(self).posts@) == m.update(
                        i,
                        (PostModel { text: new_text@, bounding_box: bounds, ..m[i] }),
                    ),
                    None => !r && *final(self) == *old(self),
                }
            }),
            final(self).title == old(self).title,
            final(self).authors == old(self).authors,
            final(self).author_lookup == old(self).author_lookup,
            final(self).last_timestamp == old(self).last_timestamp,
            final(self).last_author_id == old(self).last_author_id,
    {
        let i = match self.post_find(author, timestamp) {
            Some(i) => i,
            None => {
                return false;
            },
        };
        let ghost m = post_models(self.posts@);
        let author_id = self.posts[i].author_id;
        proof {
            lemma_find_from(m, self.id_of(author@)->0, timestamp, 0);
            assert(m[i as int] == self.posts@[i as int]@);
        }
        let updated = Post {
            author_id,
            timestamp,
            text: String::from_str(new_text),
            bounding_box: bounds,
        };
        self.posts.set(i, updated);
        proof {
            let t = post_models(self.posts@);
            assert(t =~= m.update(
                i as int,
                PostModel { text: new_text@, bounding_box: bounds, ..m[i as int] },
            ));
            assert forall|x: int, y: int| 0 <= x < y < t.len() implies (
            #[trigger] t[x]).timestamp <= (#[trigger] t[y]).timestamp by {
                assert(t[x].timestamp == m[x].timestamp && t[y].timestamp == m[y].timestamp);
                assert(m[x].timestamp <= m[y].timestamp);
            }
        }
        true
    }

    /// Takes a post out; the newest of those left counts as the last.
    pub fn post_del(&mut self, index: usize) -> (r: Result<(), DialogueError>)
        requires
            old(self).wf(),
        ensures
            final(self).wf(),
            match r {
                Ok(_) => index < old(self).posts@.len() && final(self).posts@ == old(
                    self,
                ).posts@.remove(index as int),
                Err(e) => e == DialogueError::PostIndexOutOfRange && index >= old(
                    self,
                ).posts@.len() && *final(self) == *old(self),
            },
            final(self).title == old(self).title,
            final(self).authors == old(self).authors,
            final(self).author_lookup == old(self).author_lookup,
            final(self).last_timestamp == (if final(self).posts@.len() > 0 {
                final(self).posts@.last().timestamp
            } else {
                old(self).last_timestamp
            }),
            final(self).last_author_id == old(self).last_author_id,
    {
        if index < self.posts.len() {
            let ghost m = post_models(self.posts@);
            self.posts.remove(index);
            proof {
                let t = post_models(self.posts@);
                assert(t =~= m.remove(index as int));
                assert forall|x: int, y: int| 0 <= x < y < t.len() implies (
                #[trigger] t[x]).timestamp <= (#[trigger] t[y]).timestamp by {
                    let x0 = if x < index {
                        x
                    } else {
                        x + 1
                    };
                    let y0 = if y < index {
                        y
                    } else {
                        y + 1
                    };
                    assert(t[x] == m[x0] && t[y] == m[y0]);
                }
            }
            if self.posts.len() > 0 {
                self.last_timestamp = self.posts[self.posts.len() - 1].timestamp;
            }
            Ok(())
        } else {
            Err(DialogueError::PostIndexOutOfRange)
        }
    }

    /// The post at an index.
    pub fn post_get(&self, index: usize) -> (r: Option<&Post>)
        ensures
            match r {
                Some(p) => index < self.posts@.len() && *p == self.posts@[index as int],
                None => index >= self.posts@.len(),
            },
    {
        if index < self.posts.len() {
            Some(&self.posts[index])
        } else {
            None
        }
    }

    /// The index of the newest post.
    pub fn post_last(&self) -> (r: Option<usize>)
        ensures
            match r {
                Some(i) => i == self.posts@.len() - 1,
                None => self.posts@.len() == 0,
            },
    {
        if self.posts.len() == 0 {
            None
        } else {
            Some(self.posts.len() - 1)
        }
    }

    /// The posts, the oldest first.
    pub fn posts_as_slice(&self) -> (r: &[Post])
        ensures
            r@ == self.posts@,
    {
        self.posts.as_slice()
    }

    /// An iterator over the posts, the oldest first.
    pub fn posts(&self) -> (r: core::slice::Iter<'_, Post>)
        ensures
            IteratorSpec::remaining(&r) == self.posts@.as_ref(),
    {
        self.posts.as_slice().iter()
    }

    /// The posts, the oldest first, to be changed in place.
    pub fn posts_as_slice_mut(&mut self) -> (r: &mut [Post])
        ensures
            r@ == old(self).posts@,
            final(self).posts@ == final(r)@,
            final(self).title == old(self).title,
            final(self).authors == old(self).authors,
            final(self).author_lookup == old(self).author_lookup,
            final(self).last_timestamp == old(self).last_timestamp,
            final(self).last_author_id == old(self).last_author_id,
    {
        self.posts.as_mut_slice()
    }

    /// Forgets the space that posts take on the screen; it is measured anew where
    /// they show.
    pub fn forget_bounds(&mut self)
        requires
            old(self).wf(),
        ensures
            final(self).wf(),
            post_models(final(self).posts@) == post_models(old(self).posts@).map_values(
                |p: PostModel| PostModel { bounding_box: None, ..p },
            ),
            final(self).title == old(self).title,
            final(self).authors == old(self).authors,
            final(self).author_lookup == old(self).author_lookup,
            final(self).last_timestamp == old(self).last_timestamp,
            final(self).last_author_id == old(self).last_author_id,
    {
        let ghost m = post_models(self.posts@);
        let ghost t = m.map_values(|p: PostModel| PostModel { bounding_box: None, ..p });
        let mut i: usize = 0;
        while i < self.posts.len()
            invariant
                i <= self.posts@.len(),
                self.posts@.len() == m.len(),
                t == m.map_values(|p: PostModel| PostModel { bounding_box: None, ..p }),
                forall|k: int| 0 <= k < i ==> (#[trigger] self.posts@[k])@ == t[k],
                forall|k: int| i <= k < m.len() ==> (#[trigger] self.posts@[k])@ == m[k],
                self.title == old(self).title,
                self.authors == old(self).authors,
                self.author_lookup == old(self).author_lookup,
                self.last_timestamp == old(self).last_timestamp,
                self.last_author_id == old(self).last_author_id,
            decreases self.posts@.len() - i,
        {
            let p = Post {
                author_id: self.posts[i].author_id,
                timestamp: self.posts[i].timestamp,
                text: self.posts[i].text.clone(),
                bounding_box: None,
            };
            self.posts.set(i, p);
            i += 1;
        }
        proof {
            let n = post_models(self.posts@);
            assert(n =~= t);
            assert forall|x: int, y: int| 0 <= x < y < n.len() implies (
            #[trigger] n[x]).timestamp <= (#[trigger] n[y]).timestamp by {
                assert(m[x].timestamp <= m[y].timestamp);
            }
        }
    }
}

// ---------------------------------------------------------------------------
// What holds of every conversation
// ---------------------------------------------------------------------------

/// A new post is kept unless it is older than all that fit: the newest post of the
/// conversation is always there, posts stand by time, and there are never more than
/// `MAX_POSTS`.
pub proof fn posts_stay_in_order_and_bounded(
    title: Seq<char>,
    posts: Seq<PostModel>,
    p: PostModel,
)
    requires
        in_time_order(posts),
        posts.len() <= MAX_POSTS,
    ensures
        ({
            let t = with_post(title, posts, p);
            &&& in_time_order(t)
            &&& 0 < t.len() <= MAX_POSTS
            &&& posts.len() > 0 ==> estimated_size(title, t) <= BYTE_BUDGET || t.len() == 1
            &&& posts.len() > 0 && posts.last().timestamp <= p.timestamp ==> t.last() == p
            &&& posts.len() > 0 && posts.last().timestamp > p.timestamp ==> t.last()
                == posts.last()
        }),
{
    if posts.len() > 0 {
        lemma_place_after(posts, p.timestamp);
        lemma_insert_in_order(posts, p);
        let k = place_after(posts, p.timestamp);
        let grown = posts.insert(k, p);
        let cut = capped(grown);
        if posts.last().timestamp <= p.timestamp {
            assert(k == posts.len());
            assert(grown.last() == p);
        } else {
            assert(k < posts.len());
            assert(grown.last() == posts.last());
        }
        lemma_skip_in_order(grown, grown.len() - cut.len());
        assert(grown.skip(grown.len() - cut.len()) =~= cut);
        budget_keeps_the_newest(title, cut);
        let b = budgeted(title, cut);
        lemma_skip_in_order(cut, cut.len() - b.len());
    }
}

/// A post that was just added as the newest of its conversation is found by its
/// author and time.
pub proof fn added_post_is_found(title: Seq<char>, posts: Seq<PostModel>, p: PostModel)
    requires
        in_time_order(posts),
        posts.len() <= MAX_POSTS,
        posts.len() > 0 ==> posts.last().timestamp <= p.timestamp,
    ensures
        found_at(with_post(title, posts, p), Some(p.author_id), p.timestamp) is Some,
{
    posts_stay_in_order_and_bounded(title, posts, p);
    let t = with_post(title, posts, p);
    lemma_find_from(t, p.author_id, p.timestamp, 0);
    let k = find_from(t, p.author_id, p.timestamp, 0);
    if k == t.len() {
        assert(t[t.len() - 1] == t.last());
    }
}

/// The number of an author is theirs for good: whoever asks for a number, those who had
/// one keep it, and nobody else gets it. It is never zero, the number of the user whose
/// device it is, and there is an author with it.
pub proof fn author_numbers_last(
    before: Dialogue,
    after: Dialogue,
    name: Seq<char>,
    id: u16,
    author: Seq<char>,
    given: u16,
)
    requires
        before.wf(),
        before.id_of(name) == Some(id),
        numbered(before, after, author, given),
    ensures
        id != 0,
        given != 0,
        after.id_of(name) == Some(id),
        given == id <==> author == name,
        after.authors@.contains_key(id),
        after.authors@.contains_key(given),
{
    let l = before.author_lookup@;
    lemma_lookup_some(l, name, 0);
    let k = choose|k: int|
        0 <= k < l.len() && (#[trigger] l[k]).0@ == name && Some(l[k].1) == lookup_from(l, name, 0);
    if before.id_of(author) is Some {
        lemma_lookup_some(l, author, 0);
        let j = choose|j: int|
            0 <= j < l.len() && (#[trigger] l[j]).0@ == author && Some(l[j].1) == lookup_from(
                l,
                author,
                0,
            );
        if author != name {
            assert(j != k);
            assert(l[j].1 != l[k].1);
        }
    }
    if id != given {
        assert(before.authors@.remove(given).contains_key(id));
        assert(after.authors@.remove(given).contains_key(id));
    }
}

/// The last time that a conversation keeps is that of its newest post, after any post
/// that was added.
pub proof fn last_time_is_that_of_the_newest_post(
    before: Dialogue,
    after: Dialogue,
    author: Seq<char>,
    timestamp: u64,
    text: Seq<char>,
    bounds: Option<Bounds>,
)
    requires
        before.wf(),
        added(before, after, author, timestamp, text, bounds),
    ensures
        after.last_timestamp == if before.posts@.len() > 0 && before.last_timestamp > timestamp {
            before.last_timestamp
        } else {
            timestamp
        },
{
    let m = post_models(before.posts@);
    let p = PostModel {
        author_id: after.id_of(author)->0,
        timestamp,
        text,
        bounding_box: bounds,
    };
    posts_stay_in_order_and_bounded(before.title@, m, p);
    let t = post_models(after.posts@);
    assert(t.last() == after.posts@.last()@);
    if m.len() > 0 {
        assert(m.last() == before.posts@.last()@);
    }
}

} // verus!
