//! What a conversation keeps of its posts, and how it is kept between runs.
use vstd::prelude::*;
use vstd::utf8::encode_utf8;

use crate::dialogue::{
    added, budgeted, capped, estimated_size, find_from, fnv1a, found_at, framed, in_time_order,
    lookup_from, numbered, place_after, post_models, unframed, with_post, Bounds, Dialogue,
    PostModel,
};
use crate::laws::msgpack::{
    four, numbers_are_read_highest_byte_first, numbers_stand_highest_byte_first, of_four,
};

verus! {

/// The checksum of the envelope starts from a fixed number; each byte is mixed in and
/// the sum multiplied by the prime, in 32 bits.
pub proof fn the_checksum_mixes_each_byte(data: Seq<u8>, b: u8)
    ensures
        fnv1a(Seq::empty()) == 0x811c9dc5,
        fnv1a(data.push(b)) == (fnv1a(data) ^ (b as u32)).wrapping_mul(16777619),
{
    assert(data.push(b).drop_last() =~= data);
}

/// An envelope is `CHd1`, the length and the checksum of the body in four bytes each,
/// and the body.
pub proof fn an_envelope_is_laid_out(body: Seq<u8>)
    ensures
        framed(body) == seq![0x43u8, 0x48, 0x64, 0x31] + four(body.len() as int) + four(
            fnv1a(body) as int,
        ) + body,
{
    numbers_stand_highest_byte_first(body.len());
    numbers_stand_highest_byte_first(fnv1a(body) as nat);
    assert(crate::dialogue::ENVELOPE_MAGIC@ =~= seq![0x43u8, 0x48, 0x64, 0x31]);
}

/// An envelope is opened only where it begins with its sign, holds all of its body, and
/// the checksum is right; what follows the body does not count.
pub proof fn a_damaged_envelope_stays_shut(val: Seq<u8>)
    ensures
        unframed(val) is Some <==> {
            &&& val.len() >= 12
            &&& val[0] == 0x43 && val[1] == 0x48 && val[2] == 0x64 && val[3] == 0x31
            &&& 12 + of_four(val, 4) <= val.len()
            &&& fnv1a(val.subrange(12, 12 + of_four(val, 4))) == of_four(val, 8)
        },
        unframed(val) matches Some(body) ==> body == val.subrange(12, 12 + of_four(val, 4)),
{
    let magic = seq![0x43u8, 0x48, 0x64, 0x31];
    assert(crate::dialogue::ENVELOPE_MAGIC@ =~= magic);
    if val.len() >= 12 {
        numbers_are_read_highest_byte_first(val, 4);
        numbers_are_read_highest_byte_first(val, 8);
        if val.take(4) == magic {
            assert(val.take(4)[0] == magic[0] && val.take(4)[1] == magic[1] && val.take(4)[2]
                == magic[2] && val.take(4)[3] == magic[3]);
        }
        if val[0] == 0x43 && val[1] == 0x48 && val[2] == 0x64 && val[3] == 0x31 {
            assert(val.take(4) =~= magic);
        }
    }
}

/// The size of a conversation is that of its title and 512, and for each post that of
/// its text and 128.
pub proof fn sizes_add_up(title: Seq<char>, posts: Seq<PostModel>, p: PostModel)
    ensures
        estimated_size(title, Seq::empty()) == encode_utf8(title).len() + 512,
        estimated_size(title, posts.push(p)) == estimated_size(title, posts) + encode_utf8(
            p.text,
        ).len() + 128,
{
    assert(posts.push(p).drop_last() =~= posts);
}

/// The budget of 57344 is kept by dropping the oldest posts, and no more of them than
/// it takes: with one post more it would be passed. A single post always stays.
pub proof fn the_budget_drops_no_more_than_it_must(title: Seq<char>, posts: Seq<PostModel>)
    requires
        posts.len() > 0,
    ensures
        ({
            let b = budgeted(title, posts);
            &&& 0 < b.len() <= posts.len()
            &&& b == posts.skip(posts.len() - b.len())
            &&& b.len() == 1 || estimated_size(title, b) <= 57344
            &&& b.len() < posts.len() ==> estimated_size(
                title,
                posts.skip(posts.len() - b.len() - 1),
            ) > 57344
        }),
    decreases posts.len(),
{
    if estimated_size(title, posts) > 57344 && posts.len() > 1 {
        let t = posts.skip(1);
        the_budget_drops_no_more_than_it_must(title, t);
        let b = budgeted(title, t);
        assert(t.skip(t.len() - b.len()) =~= posts.skip(posts.len() - b.len()));
        if b.len() < t.len() {
            assert(t.skip(t.len() - b.len() - 1) =~= posts.skip(posts.len() - b.len() - 1));
        } else {
            assert(posts.skip(0) =~= posts);
        }
    } else {
        assert(posts.skip(0) =~= posts);
    }
}

proof fn lemma_place(posts: Seq<PostModel>, ts: u64)
    requires
        in_time_order(posts),
    ensures
        ({
            let k = place_after(posts, ts);
            &&& 0 <= k <= posts.len()
            &&& forall|i: int| 0 <= i < k ==> (#[trigger] posts[i]).timestamp <= ts
            &&& forall|i: int| k <= i < posts.len() ==> (#[trigger] posts[i]).timestamp > ts
        }),
    decreases posts.len(),
{
    if posts.len() > 0 {
        if posts.last().timestamp <= ts {
            assert forall|i: int| 0 <= i < posts.len() implies (#[trigger] posts[i]).timestamp
                <= ts by {
                assert(posts[posts.len() - 1].timestamp <= ts);
            }
        } else {
            let front = posts.drop_last();
            assert(in_time_order(front)) by {
                assert forall|i: int, j: int| 0 <= i < j < front.len() implies (
                #[trigger] front[i]).timestamp <= (#[trigger] front[j]).timestamp by {
                    assert(front[i] == posts[i] && front[j] == posts[j]);
                }
            }
            lemma_place(front, ts);
            let k = place_after(front, ts);
            assert forall|i: int| 0 <= i < k implies (#[trigger] posts[i]).timestamp <= ts by {
                assert(front[i] == posts[i]);
            }
            assert forall|i: int| k <= i < posts.len() implies (#[trigger] posts[i]).timestamp
                > ts by {
                if i < front.len() {
                    assert(front[i] == posts[i]);
                }
            }
        }
    }
}

/// A post goes behind those that are not later and before those that are, as it is,
/// and the others stay in their order. Where there is room for it nothing is dropped:
/// that is, under 256 posts and within the budget. The first post of a conversation
/// takes no bounds.
pub proof fn a_post_goes_to_its_time(title: Seq<char>, posts: Seq<PostModel>, p: PostModel)
    requires
        in_time_order(posts),
    ensures
        ({
            let k = place_after(posts, p.timestamp);
            let grown = posts.insert(k, p);
            &&& 0 <= k <= posts.len()
            &&& forall|i: int| 0 <= i < k ==> (#[trigger] posts[i]).timestamp <= p.timestamp
            &&& forall|i: int|
                k <= i < posts.len() ==> (#[trigger] posts[i]).timestamp > p.timestamp
            &&& posts.len() == 0 ==> with_post(title, posts, p) == seq![
                PostModel { bounding_box: None, ..p },
            ]
            &&& 0 < posts.len() < 256 && estimated_size(title, grown) <= 57344 ==> with_post(
                title,
                posts,
                p,
            ) == grown
            &&& posts.len() == 256 && estimated_size(title, grown.skip(1)) <= 57344 ==> with_post(
                title,
                posts,
                p,
            ) == grown.skip(1)
            &&& posts.len() == 256 ==> exists|n: int|
                1 <= n < grown.len() && with_post(title, posts, p) == #[trigger] grown.skip(n)
        }),
{
    lemma_place(posts, p.timestamp);
    let k = place_after(posts, p.timestamp);
    let grown = posts.insert(k, p);
    if posts.len() == 256 {
        let cut = grown.skip(1);
        assert(capped(grown) == cut);
        the_budget_drops_no_more_than_it_must(title, cut);
        let b = budgeted(title, cut);
        assert(cut.skip(cut.len() - b.len()) =~= grown.skip(grown.len() - b.len()));
        assert(with_post(title, posts, p) == grown.skip(grown.len() - b.len()));
    }
}

/// A post is found by its author and its time, the first of them; without such a post,
/// or without such an author, none is.
pub proof fn a_post_is_found_by_author_and_time(posts: Seq<PostModel>, id: u16, ts: u64)
    ensures
        found_at(posts, None, ts) is None,
        match found_at(posts, Some(id), ts) {
            Some(k) => {
                &&& 0 <= k < posts.len()
                &&& posts[k].author_id == id && posts[k].timestamp == ts
                &&& forall|i: int|
                    0 <= i < k ==> !((#[trigger] posts[i]).author_id == id && posts[i].timestamp
                        == ts)
            },
            None => forall|i: int|
                0 <= i < posts.len() ==> !((#[trigger] posts[i]).author_id == id
                    && posts[i].timestamp == ts),
        },
{
    lemma_found(posts, id, ts, 0);
}

proof fn lemma_found(posts: Seq<PostModel>, id: u16, ts: u64, i: int)
    requires
        0 <= i <= posts.len(),
    ensures
        ({
            let k = find_from(posts, id, ts, i);
            &&& i <= k <= posts.len()
            &&& k < posts.len() ==> posts[k].author_id == id && posts[k].timestamp == ts
            &&& forall|j: int|
                i <= j < k ==> !((#[trigger] posts[j]).author_id == id && posts[j].timestamp == ts)
        }),
    decreases posts.len() - i,
{
    if i < posts.len() {
        lemma_found(posts, id, ts, i + 1);
    }
}

/// An author has the number that stands beside their name.
pub proof fn an_author_has_the_number_of_the_name(
    l: Seq<(String, u16)>,
    name: Seq<char>,
    i: int,
)
    requires
        0 <= i <= l.len(),
    ensures
        match lookup_from(l, name, i) {
            Some(id) => exists|k: int| i <= k < l.len() && (#[trigger] l[k]).0@ == name && l[k].1
                == id,
            None => forall|k: int| i <= k < l.len() ==> (#[trigger] l[k]).0@ != name,
        },
    decreases l.len() - i,
{
    if i < l.len() && l[i].0@ != name {
        an_author_has_the_number_of_the_name(l, name, i + 1);
        if lookup_from(l, name, i + 1) is Some {
            let id = lookup_from(l, name, i + 1)->0;
            let k = choose|k: int|
                i + 1 <= k < l.len() && (#[trigger] l[k]).0@ == name && l[k].1 == id;
            assert(l[k].0@ == name);
        }
    } else if i < l.len() {
        assert(l[i].0@ == name);
    }
}

/// Our own posts stand to the right: those of the author `me`, and of a new author no
/// others; a new author is neither bold nor hidden and gets the next number.
pub proof fn own_posts_stand_to_the_right(
    before: Dialogue,
    after: Dialogue,
    author: Seq<char>,
    id: u16,
)
    requires
        numbered(before, after, author, id),
    ensures
        before.id_of(author) is None ==> {
            &&& id == before.last_author_id + 1
            &&& after.authors@[id].name@ == author
            &&& after.authors@[id].flags.right <==> author == seq!['m', 'e']
            &&& !after.authors@[id].flags.bold
            &&& !after.authors@[id].flags.hidden
        },
        before.id_of(author) is Some ==> before.id_of(author) == Some(id),
        author == seq!['m', 'e'] ==> after.authors@[id].flags.right,
{
    reveal_strlit("me");
    assert("me"@ =~= seq!['m', 'e']);
}

/// Who has a number keeps it, and so does their name; a new author is one more. Nothing
/// changes of any other author.
pub proof fn authors_keep_their_numbers(
    before: Dialogue,
    after: Dialogue,
    author: Seq<char>,
    id: u16,
    other: Seq<char>,
    number: u16,
)
    requires
        numbered(before, after, author, id),
        other != author,
        number != id,
    ensures
        after.id_of(author) == Some(id),
        after.authors@.contains_key(id),
        after.id_of(other) == before.id_of(other),
        before.authors@.contains_key(number) <==> after.authors@.contains_key(number),
        before.authors@.contains_key(number) ==> after.authors@[number] == before.authors@[number],
        before.id_of(author) is Some ==> {
            &&& after.last_author_id == before.last_author_id
            &&& after.authors@[id].name@ == before.authors@[id].name@
            &&& after.authors@[id].flags.bold == before.authors@[id].flags.bold
            &&& after.authors@[id].flags.hidden == before.authors@[id].flags.hidden
            &&& before.authors@[id].flags.right ==> after.authors@[id].flags.right
            &&& author != seq!['m', 'e'] ==> after.authors@[id].flags.right
                == before.authors@[id].flags.right
        },
        before.id_of(author) is None ==> after.last_author_id == id,
{
    reveal_strlit("me");
    assert("me"@ =~= seq!['m', 'e']);
    assert(after.authors@.remove(id).contains_key(number) == after.authors@.contains_key(number));
    assert(before.authors@.remove(id).contains_key(number) == before.authors@.contains_key(
        number,
    ));
    if before.authors@.contains_key(number) {
        assert(after.authors@.remove(id)[number] == after.authors@[number]);
        assert(before.authors@.remove(id)[number] == before.authors@[number]);
    }
}

/// A post that is added is the author's, with its time, its text and its bounds, among the
/// posts that were there; the title stays, and the time of the conversation is that of its
/// last post.
pub proof fn an_added_post_is_the_authors(
    before: Dialogue,
    after: Dialogue,
    author: Seq<char>,
    timestamp: u64,
    text: Seq<char>,
    bounds: Option<Bounds>,
)
    requires
        added(before, after, author, timestamp, text, bounds),
    ensures
        after.title@ == before.title@,
        after.id_of(author) matches Some(id) && numbered(before, after, author, id)
            && post_models(after.posts@) == with_post(
            before.title@,
            post_models(before.posts@),
            (PostModel { author_id: id, timestamp, text, bounding_box: bounds }),
        ),
        after.posts@.len() > 0 && after.last_timestamp == after.posts@.last().timestamp,
{
}

} // verus!
