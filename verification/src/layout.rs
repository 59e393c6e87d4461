//! Laying posts out on the screen: which of them show, in which direction, and
//! where each one goes.
use vstd::prelude::*;

use crate::chat_api::{POST_SELECTED_NEXT, POST_SELECTED_PREV};

verus! {

// ---------------------------------------------------------------------------
// Selecting a post
// ---------------------------------------------------------------------------

/// What selecting ran into.
#[derive(Debug, Clone, Copy, PartialEq, Eq, Structural)]
pub enum Edge {
    Inside,
    /// The top of the posts was reached.
    Top,
    /// The bottom of the posts was reached.
    Bottom,
}

/// The selected post after `index` was asked for, of posts up to `last`.
pub open spec fn selection(index: usize, selected: Option<usize>, last: Option<usize>) -> (
    Option<usize>,
    Edge,
) {
    match last {
        None => (None, Edge::Inside),
        Some(l) => match selected {
            Some(s) => if index == POST_SELECTED_NEXT {
                if s >= l {
                    (Some(l), Edge::Bottom)
                } else {
                    (Some((s + 1) as usize), Edge::Inside)
                }
            } else if index == POST_SELECTED_PREV {
                if s == 0 {
                    (Some(s), Edge::Top)
                } else {
                    (Some((s - 1) as usize), Edge::Inside)
                }
            } else {
                (
                    Some(
                        if index < l {
                            index
                        } else {
                            l
                        },
                    ),
                    Edge::Inside,
                )
            },
            None => (
                Some(
                    if index < l {
                        index
                    } else {
                        l
                    },
                ),
                Edge::Inside,
            ),
        },
    }
}

/// Selects the next post, the one before, or any other.
pub fn post_select(index: usize, selected: Option<usize>, last: Option<usize>) -> (r: (
    Option<usize>,
    Edge,
))
    ensures
        r == selection(index, selected, last),
{
    let l = match last {
        Some(l) => l,
        None => {
            return (None, Edge::Inside);
        },
    };
    if let Some(s) = selected {
        if index == POST_SELECTED_NEXT {
            return if s >= l {
                (Some(l), Edge::Bottom)
            } else {
                (Some(s + 1), Edge::Inside)
            };
        }
        if index == POST_SELECTED_PREV {
            return if s == 0 {
                (Some(s), Edge::Top)
            } else {
                (Some(s - 1), Edge::Inside)
            };
        }
    }
    if index < l {
        (Some(index), Edge::Inside)
    } else {
        (Some(l), Edge::Inside)
    }
}

// ---------------------------------------------------------------------------
// Which posts show
// ---------------------------------------------------------------------------

/// The posts that show, in the order in which they are drawn, and the direction.
pub struct PostLayout {
    pub range: Vec<usize>,
    pub topdown: bool,
}

/// A search for the posts that show: from one post on, towards newer ones or towards
/// older ones, until the screen is full.
pub struct Search {
    /// The post to begin with.
    pub start: usize,
    /// Towards newer posts, from the top of the screen down; else towards older
    /// ones, from the bottom up.
    pub topdown: bool,
    /// How many posts there are.
    pub count: usize,
    /// The height of the screen.
    pub screen: u32,
    /// The heights of the posts looked at.
    pub heights: Vec<u32>,
    /// The height that they take together, where they fit.
    pub used: u64,
    /// The last post looked at did not fit.
    pub full: bool,
}

/// The height that posts take together.
pub open spec fn together(hs: Seq<u32>) -> nat
    decreases hs.len(),
{
    if hs.len() == 0 {
        0
    } else {
        together(hs.drop_last()) + hs.last() as nat
    }
}

/// The least of `range`, or zero.
pub open spec fn least_of(range: Seq<usize>) -> usize
    decreases range.len(),
{
    if range.len() == 0 {
        0
    } else if range.len() == 1 {
        range[0]
    } else {
        let m = least_of(range.drop_last());
        if range.last() < m {
            range.last()
        } else {
            m
        }
    }
}

/// Where a search begins, and in which direction: at the selected post, towards
/// newer ones only where it lies above what showed; without a selection, at the
/// newest post.
pub open spec fn search_from(selected: Option<usize>, range: Seq<usize>, count: nat) -> (int, bool) {
    match selected {
        Some(s) => (s as int, range.len() > 0 && s <= least_of(range)),
        None => (
            if count > 0 {
                count - 1
            } else {
                0
            },
            false,
        ),
    }
}

/// Whether the posts that show have to be searched for anew: the selected post is
/// not among them.
pub open spec fn search_required(selected: Option<usize>, range: Seq<usize>) -> bool {
    match selected {
        Some(s) => !range.contains(s),
        None => true,
    }
}

/// `n` posts from `start` on, towards newer ones.
pub open spec fn upward(start: int, n: int) -> Seq<usize> {
    Seq::new(
        if n > 0 {
            n as nat
        } else {
            0
        },
        |i: int| (start + i) as usize,
    )
}

/// `n` posts from `start` on, towards older ones.
pub open spec fn downward(start: int, n: int) -> Seq<usize> {
    Seq::new(
        if n > 0 {
            n as nat
        } else {
            0
        },
        |i: int| (start - i) as usize,
    )
}

impl Search {
    /// How many posts there are to look at.
    pub open spec fn window(&self) -> int {
        if self.topdown {
            self.count - self.start
        } else if self.count > 0 {
            self.start + 1
        } else {
            0
        }
    }

    /// All posts looked at fit, but for the last where the screen is full.
    pub open spec fn wf(&self) -> bool {
        &&& self.count > 0 ==> self.start < self.count
        &&& self.count == 0 ==> self.start == 0
        &&& self.heights@.len() <= self.window()
        &&& self.full ==> self.heights@.len() > 0 && together(self.heights@) > self.screen
            && together(self.heights@.drop_last()) <= self.screen
        &&& !self.full ==> together(self.heights@) <= self.screen && self.used == together(
            self.heights@,
        )
    }

    /// The posts that show: those that fit, and from the bottom up also the one
    /// that did not fit any more, cut off at the top. Where the screen is not full,
    /// all of them, and so where from the top down not even the first fits.
    pub open spec fn shown(&self) -> Seq<usize> {
        let n = self.heights@.len() as int;
        if self.full && !self.topdown {
            downward(self.start as int, n)
        } else if self.full && n > 1 {
            upward(self.start as int, n - 1)
        } else if self.topdown {
            upward(self.start as int, self.count - self.start)
        } else {
            downward(self.start as int, self.window())
        }
    }

    /// Begins a search, where one is required.
    pub fn begin(
        selected: Option<usize>,
        range: &Vec<usize>,
        count: usize,
        screen: u32,
    ) -> (r: Option<Search>)
        requires
            selected matches Some(s) ==> s < count,
        ensures
            r is Some <==> search_required(selected, range@),
            r matches Some(q) ==> {
                &&& q.wf()
                &&& (q.start as int, q.topdown) == search_from(selected, range@, count as nat)
                &&& q.count == count
                &&& q.screen == screen
                &&& q.heights@.len() == 0
                &&& !q.full
            },
    {
        let mut least: usize = 0;
        let mut among = false;
        let mut i: usize = 0;
        assert(range@.take(0) =~= Seq::<usize>::empty());
        while i < range.len()
            invariant
                i <= range@.len(),
                least == least_of(range@.take(i as int)),
                among <==> (selected is Some && range@.take(i as int).contains(selected->0)),
            decreases range@.len() - i,
        {
            proof {
                let t = range@.take(i + 1);
                assert(t.drop_last() =~= range@.take(i as int));
                assert(t == range@.take(i as int).push(range@[i as int]));
                if selected is Some {
                    let s = selected->0;
                    if range@.take(i as int).contains(s) {
                        let k = choose|k: int|
                            0 <= k < range@.take(i as int).len() && range@.take(i as int)[k] == s;
                        assert(t[k] == s);
                    }
                    if t.contains(s) && range@[i as int] != s {
                        let k = choose|k: int| 0 <= k < t.len() && t[k] == s;
                        assert(range@.take(i as int)[k] == s);
                    }
                    if range@[i as int] == s {
                        assert(t[i as int] == s);
                    }
                }
            }
            if i == 0 || range[i] < least {
                least = range[i];
            }
            if let Some(s) = selected {
                if range[i] == s {
                    among = true;
                }
            }
            i += 1;
        }
        assert(range@.take(range@.len() as int) =~= range@);
        if among {
            return None;
        }
        let (start, topdown) = match selected {
            Some(s) => (s, range.len() > 0 && s <= least),
            None => (
                if count > 0 {
                    count - 1
                } else {
                    0
                },
                false,
            ),
        };
        Some(
            Search { start, topdown, count, screen, heights: Vec::new(), used: 0, full: false },
        )
    }

    /// The next post to look at; none where the search is over.
    pub fn next_post(&self) -> (r: Option<usize>)
        requires
            self.wf(),
        ensures
            match r {
                Some(k) => !self.full && self.heights@.len() < self.window() && k < self.count && k
                    == (if self.topdown {
                    self.start + self.heights@.len()
                } else {
                    self.start - self.heights@.len()
                }),
                None => self.full || self.heights@.len() == self.window(),
            },
    {
        if self.full || self.count == 0 {
            return None;
        }
        let n = self.heights.len();
        if self.topdown {
            if n < self.count - self.start {
                Some(self.start + n)
            } else {
                None
            }
        } else {
            if n <= self.start {
                Some(self.start - n)
            } else {
                None
            }
        }
    }

    /// The next post is `h` high, with the space around it.
    pub fn measured(&mut self, h: u32)
        requires
            old(self).wf(),
            !old(self).full,
            old(self).heights@.len() < old(self).window(),
        ensures
            final(self).wf(),
            final(self).heights@ == old(self).heights@.push(h),
            final(self).full == (together(old(self).heights@) + h > old(self).screen),
            final(self).start == old(self).start,
            final(self).topdown == old(self).topdown,
            final(self).count == old(self).count,
            final(self).screen == old(self).screen,
    {
        let ghost hs = self.heights@;
        self.heights.push(h);
        assert(self.heights@.drop_last() =~= hs);
        if self.used + h as u64 > self.screen as u64 {
            self.full = true;
        } else {
            self.used = self.used + h as u64;
        }
    }

    /// The posts that show.
    pub fn finish(self) -> (r: PostLayout)
        requires
            self.wf(),
            self.full || self.heights@.len() == self.window(),
        ensures
            r.range@ == self.shown(),
            r.topdown == self.topdown,
            self.count > 0 ==> r.range@.len() > 0,
            forall|i: int| 0 <= i < r.range@.len() ==> (#[trigger] r.range@[i]) < self.count,
            self.count > 0 ==> r.range@[0] == self.start,
    {
        let n = self.heights.len();
        let up: bool;
        let len: usize;
        if self.full && !self.topdown {
            up = false;
            len = n;
        } else if self.full && n > 1 {
            up = true;
            len = n - 1;
        } else if self.topdown {
            up = true;
            len = self.count - self.start;
        } else {
            up = false;
            len = if self.count > 0 {
                self.start + 1
            } else {
                0
            };
        }
        let mut range: Vec<usize> = Vec::new();
        let mut i: usize = 0;
        while i < len
            invariant
                i <= len,
                range@.len() == i,
                len > 0 ==> self.start < self.count,
                up ==> self.start + len <= self.count,
                !up ==> len <= self.start + 1,
                forall|k: int|
                    0 <= k < i ==> #[trigger] range@[k] == (if up {
                        self.start + k
                    } else {
                        self.start - k
                    }),
            decreases len - i,
        {
            if up {
                range.push(self.start + i);
            } else {
                range.push(self.start - i);
            }
            i += 1;
        }
        assert(range@ =~= self.shown());
        PostLayout { range, topdown: self.topdown }
    }
}

/// After a search the selected post shows, and it shows first.
pub proof fn selected_post_shows(q: Search)
    requires
        q.wf(),
        q.count > 0,
        q.full || q.heights@.len() == q.window(),
    ensures
        q.shown().len() > 0,
        q.shown()[0] == q.start,
        search_required(Some(q.start), q.shown()) == false,
{
    assert(q.shown()[0] == q.start);
    assert(q.shown().contains(q.start));
}

// ---------------------------------------------------------------------------
// Where posts go
// ---------------------------------------------------------------------------

/// The measures of the screen.
#[derive(Clone, Copy)]
pub struct Screen {
    pub status_height: i64,
    /// The height below the status bar.
    pub height: i64,
    /// The space between two bubbles.
    pub space: i64,
    /// The margin around a bubble.
    pub margin: i64,
}

impl Screen {
    /// Measures of a screen, generously.
    pub open spec fn wf(&self) -> bool {
        &&& 0 <= self.status_height <= 0xffff_ffff
        &&& 0 <= self.height <= 0xffff_ffff
        &&& 0 <= self.space <= 0xffff_ffff
        &&& 0 <= self.margin <= 0xffff_ffff
    }

    /// Where the first post goes: below the status bar, or at the bottom.
    pub fn first_y(&self, topdown: bool) -> (y: i64)
        requires
            self.wf(),
        ensures
            y == (if topdown {
                self.status_height + self.margin
            } else {
                self.status_height + self.height - self.margin
            }),
    {
        if topdown {
            self.status_height + self.margin
        } else {
            self.status_height + self.height - self.margin
        }
    }

    /// Where the next post goes, after one of height `h` at `y`; none where that one
    /// ran over the edge of the screen.
    pub fn next_y(&self, topdown: bool, y: i64, h: u32) -> (r: Option<i64>)
        requires
            self.wf(),
            -0x10_0000_0000 <= y <= 0x10_0000_0000,
        ensures
            ({
                let edge = if topdown {
                    y + h
                } else {
                    y - h
                };
                match r {
                    Some(n) => self.status_height <= edge <= self.status_height + self.height && n
                        == (if topdown {
                        edge + self.space + self.margin
                    } else {
                        edge - self.space - self.margin
                    }),
                    None => edge < self.status_height || edge > self.status_height + self.height,
                }
            }),
    {
        let edge: i64 = if topdown {
            y + h as i64
        } else {
            y - h as i64
        };
        if edge > self.height + self.status_height || edge < self.status_height {
            return None;
        }
        if topdown {
            Some(edge + self.space + self.margin)
        } else {
            Some(edge - self.space - self.margin)
        }
    }
}

// ---------------------------------------------------------------------------
// The status bar
// ---------------------------------------------------------------------------

/// Milliseconds between two steps of the busy animation, at least.
pub const BUSY_ANIMATION_RATE_MS: u64 = 200;

/// The status bar: its text, the text for when nothing is going on, and the busy
/// animation.
pub struct StatusBar {
    pub text: String,
    pub idle_text: String,
    pub animation: Option<u32>,
    pub last_update_ms: u64,
}

impl StatusBar {
    pub fn new(idle: &str) -> (r: StatusBar)
        ensures
            r.text@.len() == 0,
            r.idle_text@ == idle@,
            r.animation is None,
            r.last_update_ms == 0,
    {
        StatusBar {
            text: String::new(),
            idle_text: String::from_str(idle),
            animation: None,
            last_update_ms: 0,
        }
    }

    /// Whether the busy animation runs.
    pub fn is_busy(&self) -> (r: bool)
        ensures
            r == (self.animation is Some),
    {
        self.animation.is_some()
    }

    /// Sets the text, which is always drawn.
    pub fn set_status_text(&mut self, msg: &str)
        ensures
            final(self).text@ == msg@,
            final(self).idle_text == old(self).idle_text,
            final(self).animation == old(self).animation,
            final(self).last_update_ms == old(self).last_update_ms,
    {
        self.text = String::from_str(msg);
    }

    /// Sets the text for when nothing is going on; nothing is drawn.
    pub fn set_status_idle_text(&mut self, msg: &str)
        ensures
            final(self).idle_text@ == msg@,
            final(self).text == old(self).text,
            final(self).animation == old(self).animation,
            final(self).last_update_ms == old(self).last_update_ms,
    {
        self.idle_text = String::from_str(msg);
    }

    /// Runs the busy animation from its start, or stops it and goes back to the idle
    /// text. Whether to draw at once.
    pub fn set_busy_state(&mut self, run: bool) -> (draw: bool)
        ensures
            draw == (!run && old(self).animation is Some),
            final(self).animation == (if run {
                Some(0u32)
            } else {
                None
            }),
            final(self).text@ == (if draw {
                old(self).idle_text@
            } else {
                old(self).text@
            }),
            final(self).idle_text == old(self).idle_text,
            final(self).last_update_ms == old(self).last_update_ms,
    {
        if run {
            self.animation = Some(0);
            false
        } else {
            let was = self.animation.is_some();
            self.animation = None;
            if was {
                self.text = self.idle_text.clone();
            }
            was
        }
    }

    /// Whether a step of the busy animation is due; if so, it is taken to be drawn
    /// now.
    pub fn redraw_busy(&mut self, now_ms: u64) -> (due: bool)
        requires
            old(self).last_update_ms <= now_ms,
        ensures
            due == (now_ms - old(self).last_update_ms > BUSY_ANIMATION_RATE_MS),
            *final(self) == (StatusBar {
                last_update_ms: if due {
                    now_ms
                } else {
                    old(self).last_update_ms
                },
                ..*old(self)
            }),
    {
        if now_ms - self.last_update_ms > BUSY_ANIMATION_RATE_MS {
            self.last_update_ms = now_ms;
            true
        } else {
            false
        }
    }
}

} // verus!
