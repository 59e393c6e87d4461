//! The open conversation on the screen: which one it is, which post is selected, and
//! what is done to it.
use vstd::prelude::*;

use crate::dialogue::{
    added, found_at, post_models, AuthorFlags, Bounds, Dialogue, DialogueError, Post, PostModel,
};
use crate::layout::{post_select, selection, Edge, PostLayout};
use crate::text::{chars_of, same_chars};

verus! {

/// The open conversation.
pub struct Ui {
    /// The key under which it is stored.
    pub key: Option<String>,
    pub dialogue: Option<Dialogue>,
    /// The selected post.
    pub selected: Option<usize>,
    /// The posts that show.
    pub range: Vec<usize>,
    /// Whether they are drawn from the top down.
    pub topdown: bool,
}

/// What came of reading a stored conversation.
pub enum Stored {
    /// It is not there, not readable, or its frame is not sound.
    Missing,
    /// Its frame is sound, its body is not.
    Undecodable,
    Found(Dialogue),
}

/// What became of a post.
#[derive(Debug, Clone, Copy, PartialEq, Eq, Structural)]
pub enum Posted {
    Added,
    /// It belongs to another conversation.
    Elsewhere,
    NoKey,
    NoDialogue,
}

/// The last post, where there is one.
pub open spec fn last_of(d: Option<Dialogue>) -> Option<usize> {
    match d {
        Some(d) => if d.posts@.len() > 0 {
            Some((d.posts@.len() - 1) as usize)
        } else {
            None
        },
        None => None,
    }
}

impl Ui {
    /// The conversation is well formed.
    pub open spec fn wf(&self) -> bool {
        self.dialogue matches Some(d) ==> d.wf()
    }

    /// What becomes of a post for the conversation `id`; one without an `id` is for
    /// the open one.
    pub open spec fn fate_of(&self, id: Seq<char>) -> Posted {
        match self.key {
            None => Posted::NoKey,
            Some(k) => if self.dialogue is None {
                Posted::NoDialogue
            } else if id.len() == 0 || id == k@ {
                Posted::Added
            } else {
                Posted::Elsewhere
            },
        }
    }

    /// Nothing open.
    pub fn new() -> (r: Ui)
        ensures
            r.wf(),
            r.key is None,
            r.dialogue is None,
            r.selected is None,
            r.range@.len() == 0,
            !r.topdown,
    {
        Ui { key: None, dialogue: None, selected: None, range: Vec::new(), topdown: false }
    }

    /// Another conversation is to be opened.
    pub fn dialogue_set(&mut self, key: Option<String>)
        ensures
            *final(self) == (Ui { key, ..*old(self) }),
    {
        self.key = key;
    }

    /// Takes what was read of the stored conversation. The spaces of its posts are
    /// measured anew, and the newest show. Nothing changes where it is missing: the
    /// answer says so.
    pub fn dialogue_read(&mut self, stored: Stored) -> (found: bool)
        requires
            old(self).wf(),
            stored matches Stored::Found(d) ==> d.wf(),
        ensures
            final(self).wf(),
            found == !(stored is Missing),
            final(self).key == old(self).key,
            match stored {
                Stored::Missing => *final(self) == *old(self),
                Stored::Undecodable => *final(self) == (Ui { dialogue: None, ..*old(self) }),
                Stored::Found(d) => {
                    &&& final(self).dialogue matches Some(e) && e.title == d.title && e.authors
                        == d.authors && e.author_lookup == d.author_lookup && e.last_timestamp
                        == d.last_timestamp && e.last_author_id == d.last_author_id && post_models(
                        e.posts@,
                    ) == post_models(d.posts@).map_values(
                        |p: PostModel| PostModel { bounding_box: None, ..p },
                    )
                    &&& final(self).selected == last_of(Some(d))
                    &&& final(self).range@.len() == 0
                    &&& !final(self).topdown
                },
            },
    {
        match stored {
            Stored::Missing => false,
            Stored::Undecodable => {
                self.dialogue = None;
                true
            },
            Stored::Found(d) => {
                let mut d = d;
                let ghost before = post_models(d.posts@);
                self.selected = d.post_last();
                d.forget_bounds();
                proof {
                    assert(post_models(d.posts@) =~= before.map_values(
                        |p: PostModel| PostModel { bounding_box: None, ..p },
                    ));
                }
                self.dialogue = Some(d);
                self.range = Vec::new();
                self.topdown = false;
                true
            },
        }
    }

    /// Opens an empty conversation in place of a missing one, named by its key. The
    /// answer says whether there is one to be stored.
    pub fn dialogue_create(&mut self, now: u64) -> (created: bool)
        requires
            old(self).wf(),
        ensures
            final(self).wf(),
            created == old(self).key is Some,
            !created ==> *final(self) == *old(self),
            created ==> {
                &&& final(self).dialogue matches Some(d) && d.title@ == (old(self).key->0)@
                    && d.posts@.len() == 0 && d.author_lookup@.len() == 0 && d.last_timestamp == now
                    && d.last_author_id == 1 && d.authors@.dom() == set![0u16]
                    && d.authors@[0].name@ == "me"@ && d.authors@[0].flags == (AuthorFlags {
                    bold: false,
                    hidden: false,
                    right: false,
                })
                &&& final(self).key == old(self).key
                &&& final(self).selected == old(self).selected
                &&& final(self).range == old(self).range
                &&& final(self).topdown == old(self).topdown
            },
    {
        let d = match &self.key {
            Some(k) => Dialogue::new(k.as_str(), now),
            None => {
                return false;
            },
        };
        self.dialogue = Some(d);
        true
    }

    /// Adds a post to the open conversation, if it is for that.
    pub fn post_add(
        &mut self,
        dialogue_id: &str,
        author: &str,
        timestamp: u64,
        text: &str,
        bounds: Option<Bounds>,
    ) -> (r: Posted)
        requires
            old(self).wf(),
            old(self).fate_of(dialogue_id@) == Posted::Added ==> (
            old(self).dialogue->0).takes_author(author@),
        ensures
            final(self).wf(),
            r == old(self).fate_of(dialogue_id@),
            r != Posted::Added ==> *final(self) == *old(self),
            r == Posted::Added ==> {
                &&& final(self).dialogue matches Some(d) && added(
                    old(self).dialogue->0,
                    d,
                    author@,
                    timestamp,
                    text@,
                    bounds,
                )
                &&& final(self).key == old(self).key
                &&& final(self).selected == old(self).selected
                &&& final(self).range == old(self).range
                &&& final(self).topdown == old(self).topdown
            },
    {
        let here = match &self.key {
            Some(k) => {
                let id = chars_of(dialogue_id);
                let own = chars_of(k.as_str());
                id.len() == 0 || same_chars(id.as_slice(), own.as_slice())
            },
            None => {
                return Posted::NoKey;
            },
        };
        if self.dialogue.is_none() {
            return Posted::NoDialogue;
        }
        if !here {
            return Posted::Elsewhere;
        }
        if let Some(mut d) = self.dialogue.take() {
            let done = d.post_add(author, timestamp, text, bounds);
            assert(done is Ok);
            self.dialogue = Some(d);
        }
        Posted::Added
    }

    /// Removes a post.
    pub fn post_del(&mut self, index: usize) -> (r: Option<Result<(), DialogueError>>)
        requires
            old(self).wf(),
        ensures
            final(self).wf(),
            r is None <==> old(self).dialogue is None,
            !(r matches Some(Ok(_))) ==> *final(self) == *old(self),
            r matches Some(Err(e)) ==> e == DialogueError::PostIndexOutOfRange && index >= (
            old(self).dialogue->0).posts@.len(),
            r matches Some(Ok(_)) ==> {
                let before = old(self).dialogue->0;
                &&& index < before.posts@.len()
                &&& final(self).dialogue matches Some(d) && d.posts@ == before.posts@.remove(
                    index as int,
                ) && d.title == before.title && d.authors == before.authors && d.author_lookup
                    == before.author_lookup && d.last_author_id == before.last_author_id
                    && d.last_timestamp == (if d.posts@.len() > 0 {
                    d.posts@.last().timestamp
                } else {
                    before.last_timestamp
                })
                &&& final(self).key == old(self).key
                &&& final(self).selected == old(self).selected
                &&& final(self).range == old(self).range
                &&& final(self).topdown == old(self).topdown
            },
    {
        match self.dialogue.take() {
            Some(mut d) => {
                let r = d.post_del(index);
                self.dialogue = Some(d);
                Some(r)
            },
            None => None,
        }
    }

    /// Replaces the text of the post by `author` at `timestamp`, if there is one.
    pub fn post_update(
        &mut self,
        author: &str,
        timestamp: u64,
        text: &str,
        bounds: Option<Bounds>,
    ) -> (r: bool)
        requires
            old(self).wf(),
        ensures
            final(self).wf(),
            r == (old(self).place_of(author@, timestamp) is Some),
            !r ==> *final(self) == *old(self),
            r ==> {
                let before = old(self).dialogue->0;
                let m = post_models(before.posts@);
                let i = old(self).place_of(author@, timestamp)->0;
                &&& final(self).dialogue matches Some(d) && post_models(d.posts@) == m.update(
                    i,
                    (PostModel { text: text@, bounding_box: bounds, ..m[i] }),
                ) && d.title == before.title && d.authors == before.authors && d.author_lookup
                    == before.author_lookup && d.last_author_id == before.last_author_id
                    && d.last_timestamp == before.last_timestamp
                &&& final(self).key == old(self).key
                &&& final(self).selected == old(self).selected
                &&& final(self).range == old(self).range
                &&& final(self).topdown == old(self).topdown
            },
    {
        match self.dialogue.take() {
            Some(mut d) => {
                let r = d.post_update(author, timestamp, text, bounds);
                self.dialogue = Some(d);
                r
            },
            None => false,
        }
    }

    /// Where the post by `author` at `timestamp` stands.
    pub open spec fn place_of(&self, author: Seq<char>, timestamp: u64) -> Option<int> {
        match self.dialogue {
            Some(d) => found_at(post_models(d.posts@), d.id_of(author), timestamp),
            None => None,
        }
    }

    /// Where the post by `author` at `timestamp` stands.
    pub fn post_find(&self, author: &str, timestamp: u64) -> (r: Option<usize>)
        requires
            self.wf(),
        ensures
            match r {
                Some(i) => self.place_of(author@, timestamp) == Some(i as int),
                None => self.place_of(author@, timestamp) is None,
            },
    {
        match &self.dialogue {
            Some(d) => d.post_find(author, timestamp),
            None => None,
        }
    }

    pub fn post_get(&self, index: usize) -> (r: Option<&Post>)
        ensures
            match r {
                Some(p) => self.dialogue matches Some(d) && index < d.posts@.len() && *p
                    == d.posts@[index as int],
                None => self.dialogue matches Some(d) ==> index >= d.posts@.len(),
            },
    {
        match &self.dialogue {
            Some(d) => d.post_get(index),
            None => None,
        }
    }

    /// Selects a post; the answer says whether an edge was reached.
    pub fn post_select(&mut self, index: usize) -> (r: Edge)
        ensures
            (final(self).selected, r) == selection(
                index,
                old(self).selected,
                last_of(old(self).dialogue),
            ),
            *final(self) == (Ui { selected: final(self).selected, ..*old(self) }),
    {
        let last = match &self.dialogue {
            Some(d) => d.post_last(),
            None => None,
        };
        let (selected, edge) = post_select(index, self.selected, last);
        self.selected = selected;
        edge
    }

    /// Takes the posts that show from a finished search.
    pub fn take_layout(&mut self, l: PostLayout)
        ensures
            *final(self) == (Ui { range: l.range, topdown: l.topdown, ..*old(self) }),
    {
        self.range = l.range;
        self.topdown = l.topdown;
    }
}

} // verus!
