//! A document on the screen: which lines show, where the cursor stands, and how it
//! scrolls.
//!
//! The height of a line has to be measured by whoever draws it. Where a step needs
//! a height that is not known yet, it changes nothing and names the line; once the
//! height is set, the step can be taken again.
use vstd::prelude::*;

use crate::chat_api::{DocLine, DOC_KIND_DIVIDER, DOC_KIND_LINK};

verus! {

/// The most lines that a document has.
pub const DOC_MAX_LINES: usize = 2048;

/// The height of a divider and of an empty line.
pub const DOC_DIVIDER_HEIGHT: u32 = 12;

/// A document and the reader's place in it.
pub struct DocState {
    pub title: String,
    pub lines: Vec<DocLine>,
    /// The heights that were measured.
    pub heights: Vec<Option<u32>>,
    /// The first line on the screen.
    pub top: usize,
    /// The line with the cursor.
    pub cursor: usize,
    /// The first line that the last drawing did not show whole.
    pub next_top: usize,
}

/// What a screen has room for.
#[derive(Clone, Copy)]
pub struct Viewport {
    /// The height there is.
    pub budget: u32,
    /// The space between two lines.
    pub space: u32,
}

/// The line `i` is a link.
pub open spec fn is_link(lines: Seq<DocLine>, i: int) -> bool {
    0 <= i < lines.len() && lines[i].kind == DOC_KIND_LINK
}

/// How many lines from `i` on fit, after `n` lines took `used`: all that end within
/// the budget, and the first one in any case. A missing height is named.
pub open spec fn fitting(
    heights: Seq<Option<u32>>,
    v: Viewport,
    i: int,
    used: nat,
    n: nat,
) -> Result<nat, int>
    decreases heights.len() - i,
{
    if i < 0 || i >= heights.len() {
        Ok(n)
    } else {
        match heights[i] {
            None => Err(i),
            Some(h) => if used + h + v.space > v.budget && n > 0 {
                Ok(n)
            } else {
                fitting(heights, v, i + 1, used + h as nat + v.space as nat, n + 1)
            },
        }
    }
}

/// How many lines from `top` on fit, one at least.
pub open spec fn visible(heights: Seq<Option<u32>>, v: Viewport, top: int) -> Result<nat, int> {
    match fitting(heights, v, top, 0, 0) {
        Ok(n) => Ok(
            if n > 1 {
                n
            } else {
                1
            },
        ),
        Err(i) => Err(i),
    }
}

/// The first link at or after `i` and before `end`.
pub open spec fn link_after(lines: Seq<DocLine>, i: int, end: int) -> Option<int>
    decreases end - i,
{
    if i >= end {
        None
    } else if is_link(lines, i) {
        Some(i)
    } else {
        link_after(lines, i + 1, end)
    }
}

/// The last link at or after `start` and before `i`.
pub open spec fn link_before(lines: Seq<DocLine>, start: int, i: int) -> Option<int>
    decreases i - start,
{
    if i <= start {
        None
    } else if is_link(lines, i - 1) {
        Some(i - 1)
    } else {
        link_before(lines, start, i - 1)
    }
}

/// The line a screenful above `i`, of which `used` is taken already.
pub open spec fn screen_above(heights: Seq<Option<u32>>, v: Viewport, i: int, used: nat) -> Result<
    int,
    int,
>
    decreases i,
{
    if i <= 0 {
        Ok(0int)
    } else {
        match heights[i - 1] {
            None => Err(i - 1),
            Some(h) => if used + h + v.space > v.budget {
                Ok(i)
            } else {
                screen_above(heights, v, i - 1, used + h as nat + v.space as nat)
            },
        }
    }
}

pub open spec fn least(a: int, b: int) -> int {
    if a < b {
        a
    } else {
        b
    }
}

pub open spec fn greatest(a: int, b: int) -> int {
    if a > b {
        a
    } else {
        b
    }
}

/// The new top line of a page up or down; none at the edge of the document.
pub open spec fn page_top(d: DocState, v: Viewport, down: bool) -> Result<Option<int>, int> {
    let total = d.lines@.len() as int;
    if total == 0 {
        Ok(None)
    } else if down {
        if d.next_top >= total {
            Ok(None)
        } else {
            let t = least(greatest(d.next_top as int, d.top + 1), total - 1);
            Ok(
                if t == d.top {
                    None
                } else {
                    Some(t)
                },
            )
        }
    } else {
        match screen_above(d.heights@, v, d.top as int, 0) {
            Err(i) => Err(i),
            Ok(t) => Ok(
                if t == d.top {
                    None
                } else {
                    Some(t)
                },
            ),
        }
    }
}

/// The place after a page up or down: the new top line, with the cursor on it.
pub open spec fn paged(d: DocState, v: Viewport, down: bool) -> Result<(int, int), int> {
    match page_top(d, v, down) {
        Err(i) => Err(i),
        Ok(None) => Ok((d.top as int, d.cursor as int)),
        Ok(Some(t)) => Ok((t, t)),
    }
}

/// The place after a page up or down in search of a link: the new top line, and the
/// cursor on the nearest link of the new screen, else on its top line.
pub open spec fn paged_to_link(d: DocState, v: Viewport, down: bool) -> Result<(int, int), int> {
    match page_top(d, v, down) {
        Err(i) => Err(i),
        Ok(None) => Ok((d.top as int, d.cursor as int)),
        Ok(Some(t)) => match visible(d.heights@, v, t) {
            Err(i) => Err(i),
            Ok(n) => {
                let end = least(t + n, d.lines@.len() as int);
                let landing = if down {
                    link_after(d.lines@, t, end)
                } else {
                    link_before(d.lines@, t, end)
                };
                Ok(
                    (
                        t,
                        match landing {
                            Some(k) => k,
                            None => t,
                        },
                    ),
                )
            },
        },
    }
}

/// The place after a step of the cursor: on the next link of the screen in that
/// direction, else a page on and on the nearest link there.
pub open spec fn stepped(d: DocState, v: Viewport, next: bool) -> Result<(int, int), int> {
    let total = d.lines@.len() as int;
    if total == 0 {
        Ok((d.top as int, d.cursor as int))
    } else {
        match visible(d.heights@, v, d.top as int) {
            Err(i) => Err(i),
            Ok(n) => {
                let end = least(d.top + n, total);
                let target = if next {
                    link_after(d.lines@, greatest(d.cursor + 1, d.top as int), end)
                } else {
                    link_before(d.lines@, d.top as int, least(d.cursor as int, end))
                };
                match target {
                    Some(k) => Ok((d.top as int, k)),
                    None => paged_to_link(d, v, next),
                }
            },
        }
    }
}

/// The top line from `top` on with which the cursor is on the screen.
pub open spec fn top_for_cursor(heights: Seq<Option<u32>>, v: Viewport, cursor: int, top: int) -> Result<
    int,
    int,
>
    decreases heights.len() - top,
{
    if top + 1 >= heights.len() {
        Ok(top)
    } else {
        match visible(heights, v, top) {
            Err(i) => Err(i),
            Ok(n) => if cursor >= top + n {
                top_for_cursor(heights, v, cursor, top + 1)
            } else {
                Ok(top)
            },
        }
    }
}

impl DocState {
    /// There is a place for the height of every line, and not too many lines.
    pub open spec fn wf(&self) -> bool {
        &&& self.heights@.len() == self.lines@.len()
        &&& self.lines@.len() <= DOC_MAX_LINES
        &&& self.top <= DOC_MAX_LINES
        &&& self.cursor <= DOC_MAX_LINES
        &&& self.next_top <= DOC_MAX_LINES
        &&& self.lines@.len() > 0 ==> self.top < self.lines@.len()
    }

    /// All but the place is the same.
    pub open spec fn same_page(&self, other: DocState) -> bool {
        &&& self.title == other.title
        &&& self.lines == other.lines
        &&& self.heights == other.heights
        &&& self.next_top == other.next_top
    }

    /// An empty document.
    pub fn new(title: &str) -> (r: DocState)
        ensures
            r.wf(),
            r.title@ == title@,
            r.lines@.len() == 0,
            r.heights@.len() == 0,
            r.top == 0,
            r.cursor == 0,
            r.next_top == 0,
    {
        DocState {
            title: String::from_str(title),
            lines: Vec::new(),
            heights: Vec::new(),
            top: 0,
            cursor: 0,
            next_top: 0,
        }
    }

    /// Adds lines, as many as there is room for.
    pub fn append(&mut self, lines: Vec<DocLine>)
        requires
            old(self).wf(),
            old(self).top == 0,
        ensures
            final(self).wf(),
            final(self).lines@ == (old(self).lines@ + lines@).take(
                least((old(self).lines@ + lines@).len() as int, DOC_MAX_LINES as int),
            ),
            final(self).heights@.take(old(self).lines@.len() as int) == old(self).heights@,
            forall|i: int|
                old(self).lines@.len() <= i < final(self).lines@.len() ==> (
                #[trigger] final(self).heights@[i]) is None,
            final(self).title == old(self).title,
            final(self).top == old(self).top,
            final(self).cursor == old(self).cursor,
            final(self).next_top == old(self).next_top,
    {
        let ghost l0 = self.lines@;
        let ghost h0 = self.heights@;
        let mut i: usize = 0;
        assert(l0 + lines@.take(0) =~= l0);
        assert(h0.take(l0.len() as int) =~= h0);
        while i < lines.len() && self.lines.len() < DOC_MAX_LINES
            invariant
                i <= lines@.len(),
                self.lines@ == l0 + lines@.take(i as int),
                self.heights@.len() == self.lines@.len(),
                self.lines@.len() <= DOC_MAX_LINES,
                self.heights@.take(l0.len() as int) == h0,
                forall|k: int|
                    l0.len() <= k < self.lines@.len() ==> (#[trigger] self.heights@[k]) is None,
                self.title == old(self).title,
                self.top == old(self).top,
                self.cursor == old(self).cursor,
                self.next_top == old(self).next_top,
            decreases lines@.len() - i,
        {
            let ghost h = self.heights@;
            self.lines.push(lines[i].clone());
            self.heights.push(None);
            assert(l0 + lines@.take(i + 1) =~= (l0 + lines@.take(i as int)).push(lines@[i as int]));
            assert(self.heights@.take(l0.len() as int) =~= h.take(l0.len() as int));
            i += 1;
        }
        proof {
            let all = l0 + lines@;
            assert(self.lines@ =~= all.take(least(all.len() as int, DOC_MAX_LINES as int)));
        }
    }

    /// The height of a line that needs no measuring.
    pub fn fixed_height(line: &DocLine) -> (r: Option<u32>)
        ensures
            r == (if line.kind == DOC_KIND_DIVIDER || line.text@.len() == 0 {
                Some(DOC_DIVIDER_HEIGHT)
            } else {
                None
            }),
    {
        if line.kind == DOC_KIND_DIVIDER || line.text.as_str().is_empty() {
            Some(DOC_DIVIDER_HEIGHT)
        } else {
            None
        }
    }

    /// Sets the height of a line.
    pub fn set_height(&mut self, i: usize, h: u32)
        requires
            old(self).wf(),
            i < old(self).lines@.len(),
        ensures
            final(self).wf(),
            final(self).heights@ == old(self).heights@.update(i as int, Some(h)),
            final(self).title == old(self).title,
            final(self).lines == old(self).lines,
            final(self).top == old(self).top,
            final(self).cursor == old(self).cursor,
            final(self).next_top == old(self).next_top,
    {
        self.heights.set(i, Some(h));
    }

    /// How many lines from `top` on fit on the screen.
    pub fn doc_visible_count(&self, v: Viewport, top: usize) -> (r: Result<usize, usize>)
        requires
            self.wf(),
            top <= DOC_MAX_LINES,
        ensures
            match r {
                Ok(n) => visible(self.heights@, v, top as int) == Ok::<nat, int>(n as nat) && 1
                    <= n <= DOC_MAX_LINES,
                Err(i) => visible(self.heights@, v, top as int) == Err::<nat, int>(i as int) && i
                    < self.lines@.len() && self.heights@[i as int] is None,
            },
    {
        let mut used: u64 = 0;
        let mut n: usize = 0;
        let mut i: usize = top;
        while i < self.heights.len()
            invariant
                top <= i,
                self.wf(),
                n == i - top,
                n <= self.heights@.len() || n == 0,
                i <= self.heights@.len() || n == 0,
                n == 0 ==> used == 0,
                used <= 0x2_0000_0000,
                fitting(self.heights@, v, top as int, 0, 0) == fitting(
                    self.heights@,
                    v,
                    i as int,
                    used as nat,
                    n as nat,
                ),
            decreases self.heights@.len() - i,
        {
            match self.heights[i] {
                None => {
                    return Err(i);
                },
                Some(h) => {
                    let grown: u64 = used + h as u64 + v.space as u64;
                    if grown > v.budget as u64 && n > 0 {
                        return Ok(n);
                    }
                    used = grown;
                },
            }
            i += 1;
            n += 1;
        }
        if n > 1 {
            Ok(n)
        } else {
            Ok(1)
        }
    }

    /// Whether the line `i` is a link.
    pub fn doc_is_link(&self, i: usize) -> (r: bool)
        ensures
            r == is_link(self.lines@, i as int),
    {
        i < self.lines.len() && self.lines[i].kind == DOC_KIND_LINK
    }

    fn first_link(&self, start: usize, end: usize) -> (r: Option<usize>)
        ensures
            match r {
                Some(k) => link_after(self.lines@, start as int, end as int) == Some(k as int)
                    && start <= k < end,
                None => link_after(self.lines@, start as int, end as int) is None,
            },
    {
        let mut i: usize = start;
        while i < end
            invariant
                start <= i,
                link_after(self.lines@, start as int, end as int) == link_after(
                    self.lines@,
                    i as int,
                    end as int,
                ),
            decreases end - i,
        {
            if self.doc_is_link(i) {
                return Some(i);
            }
            i += 1;
        }
        None
    }

    fn last_link(&self, start: usize, end: usize) -> (r: Option<usize>)
        ensures
            match r {
                Some(k) => link_before(self.lines@, start as int, end as int) == Some(k as int)
                    && start <= k < end,
                None => link_before(self.lines@, start as int, end as int) is None,
            },
    {
        let mut i: usize = end;
        while i > start
            invariant
                i <= end,
                link_before(self.lines@, start as int, end as int) == link_before(
                    self.lines@,
                    start as int,
                    i as int,
                ),
            decreases i,
        {
            if self.doc_is_link(i - 1) {
                return Some(i - 1);
            }
            i -= 1;
        }
        None
    }

    /// The line a screenful above the top line.
    fn above(&self, v: Viewport) -> (r: Result<usize, usize>)
        requires
            self.wf(),
            self.lines@.len() > 0,
        ensures
            match r {
                Ok(t) => screen_above(self.heights@, v, self.top as int, 0) == Ok::<int, int>(
                    t as int,
                ) && t <= self.top,
                Err(i) => screen_above(self.heights@, v, self.top as int, 0) == Err::<int, int>(
                    i as int,
                ) && i < self.lines@.len() && self.heights@[i as int] is None,
            },
    {
        let mut used: u64 = 0;
        let mut i: usize = self.top;
        while i > 0
            invariant
                i <= self.top,
                self.wf(),
                self.top < self.heights@.len(),
                used <= v.budget,
                screen_above(self.heights@, v, self.top as int, 0) == screen_above(
                    self.heights@,
                    v,
                    i as int,
                    used as nat,
                ),
            decreases i,
        {
            match self.heights[i - 1] {
                None => {
                    return Err(i - 1);
                },
                Some(h) => {
                    let grown: u64 = used + h as u64 + v.space as u64;
                    if grown > v.budget as u64 {
                        return Ok(i);
                    }
                    used = grown;
                },
            }
            i -= 1;
        }
        Ok(0)
    }

    /// The new top line of a page up or down; none at the edge of the document. A
    /// missing height is named.
    fn next_page(&self, v: Viewport, down: bool) -> (r: Result<Option<usize>, usize>)
        requires
            self.wf(),
        ensures
            match r {
                Ok(Some(t)) => page_top(*self, v, down) == Ok::<Option<int>, int>(Some(t as int))
                    && t < self.lines@.len(),
                Ok(None) => page_top(*self, v, down) == Ok::<Option<int>, int>(None),
                Err(i) => page_top(*self, v, down) == Err::<Option<int>, int>(i as int) && i
                    < self.lines@.len() && self.heights@[i as int] is None,
            },
    {
        let total = self.lines.len();
        if total == 0 {
            return Ok(None);
        }
        let new_top: usize = if down {
            if self.next_top >= total {
                return Ok(None);
            }
            let mut t = self.next_top;
            if t < self.top + 1 {
                t = self.top + 1;
            }
            if t > total - 1 {
                t = total - 1;
            }
            t
        } else {
            match self.above(v) {
                Ok(t) => t,
                Err(i) => {
                    return Err(i);
                },
            }
        };
        if new_top == self.top {
            Ok(None)
        } else {
            Ok(Some(new_top))
        }
    }

    /// Scrolls by a screenful, with the cursor on the new top line; nothing happens at
    /// the edge of the document. Where a height is missing, nothing changes and its line
    /// is named.
    pub fn doc_page(&mut self, v: Viewport, down: bool) -> (r: Result<(), usize>)
        requires
            old(self).wf(),
        ensures
            final(self).wf(),
            final(self).same_page(*old(self)),
            match r {
                Ok(_) => paged(*old(self), v, down) == Ok::<(int, int), int>(
                    (final(self).top as int, final(self).cursor as int),
                ),
                Err(i) => {
                    &&& paged(*old(self), v, down) == Err::<(int, int), int>(i as int)
                    &&& i < old(self).lines@.len() && old(self).heights@[i as int] is None
                    &&& *final(self) == *old(self)
                },
            },
    {
        match self.next_page(v, down) {
            Ok(Some(t)) => {
                self.top = t;
                self.cursor = t;
                Ok(())
            },
            Ok(None) => Ok(()),
            Err(i) => Err(i),
        }
    }

    /// Scrolls by a screenful, with the cursor on the nearest link of the new screen.
    fn page_to_link(&mut self, v: Viewport, down: bool) -> (r: Result<(), usize>)
        requires
            old(self).wf(),
        ensures
            final(self).wf(),
            final(self).same_page(*old(self)),
            match r {
                Ok(_) => paged_to_link(*old(self), v, down) == Ok::<(int, int), int>(
                    (final(self).top as int, final(self).cursor as int),
                ),
                Err(i) => {
                    &&& paged_to_link(*old(self), v, down) == Err::<(int, int), int>(i as int)
                    &&& i < old(self).lines@.len() && old(self).heights@[i as int] is None
                    &&& *final(self) == *old(self)
                },
            },
    {
        let total = self.lines.len();
        let new_top = match self.next_page(v, down) {
            Ok(Some(t)) => t,
            Ok(None) => {
                return Ok(());
            },
            Err(i) => {
                return Err(i);
            },
        };
        let n = match self.doc_visible_count(v, new_top) {
            Ok(n) => n,
            Err(i) => {
                return Err(i);
            },
        };
        let end = if new_top + n < total {
            new_top + n
        } else {
            total
        };
        let landing = if down {
            self.first_link(new_top, end)
        } else {
            self.last_link(new_top, end)
        };
        self.top = new_top;
        self.cursor = match landing {
            Some(k) => k,
            None => new_top,
        };
        Ok(())
    }

    /// Moves the cursor to the next link on the screen in a direction; where there is
    /// none, scrolls by a screenful, to the nearest link there. Where a height is missing, nothing changes
    /// and its line is named.
    pub fn doc_cursor(&mut self, v: Viewport, next: bool) -> (r: Result<(), usize>)
        requires
            old(self).wf(),
        ensures
            final(self).wf(),
            final(self).same_page(*old(self)),
            match r {
                Ok(_) => stepped(*old(self), v, next) == Ok::<(int, int), int>(
                    (final(self).top as int, final(self).cursor as int),
                ),
                Err(i) => {
                    &&& stepped(*old(self), v, next) == Err::<(int, int), int>(i as int)
                    &&& i < old(self).lines@.len() && old(self).heights@[i as int] is None
                    &&& *final(self) == *old(self)
                },
            },
    {
        let total = self.lines.len();
        if total == 0 {
            return Ok(());
        }
        let n = match self.doc_visible_count(v, self.top) {
            Ok(n) => n,
            Err(i) => {
                return Err(i);
            },
        };
        let end = if self.top + n < total {
            self.top + n
        } else {
            total
        };
        let target = if next {
            let start = if self.cursor + 1 > self.top {
                self.cursor + 1
            } else {
                self.top
            };
            self.first_link(start, end)
        } else {
            let stop = if self.cursor < end {
                self.cursor
            } else {
                end
            };
            self.last_link(self.top, stop)
        };
        match target {
            Some(k) => {
                self.cursor = k;
                Ok(())
            },
            None => self.page_to_link(v, next),
        }
    }

    /// The link under the cursor.
    pub fn doc_selected_link(&self) -> (r: Option<u16>)
        ensures
            r == (if is_link(self.lines@, self.cursor as int) {
                Some(self.lines@[self.cursor as int].link_id)
            } else {
                None
            }),
    {
        if self.doc_is_link(self.cursor) {
            Some(self.lines[self.cursor].link_id)
        } else {
            None
        }
    }

    /// Scrolls so that the cursor is on the screen. Where a height is missing,
    /// nothing changes and its line is named.
    pub fn keep_cursor_visible(&mut self, v: Viewport) -> (r: Result<(), usize>)
        requires
            old(self).wf(),
            old(self).lines@.len() > 0,
        ensures
            final(self).wf(),
            final(self).same_page(*old(self)),
            final(self).cursor == old(self).cursor,
            ({
                let start = least(
                    least(old(self).top as int, old(self).lines@.len() - 1),
                    old(self).cursor as int,
                );
                match r {
                    Ok(_) => top_for_cursor(
                        old(self).heights@,
                        v,
                        old(self).cursor as int,
                        start,
                    ) == Ok::<int, int>(final(self).top as int),
                    Err(i) => {
                        &&& top_for_cursor(
                            old(self).heights@,
                            v,
                            old(self).cursor as int,
                            start,
                        ) == Err::<int, int>(i as int)
                        &&& i < old(self).lines@.len() && old(self).heights@[i as int] is None
                        &&& *final(self) == *old(self)
                    },
                }
            }),
    {
        let total = self.lines.len();
        let mut top: usize = if self.top < total - 1 {
            self.top
        } else {
            total - 1
        };
        if self.cursor < top {
            top = self.cursor;
        }
        let ghost start = top as int;
        loop
            invariant
                self.wf(),
                *self == *old(self),
                total == self.lines@.len(),
                total > 0,
                top < total,
                start == least(
                    least(old(self).top as int, old(self).lines@.len() - 1),
                    old(self).cursor as int,
                ),
                top_for_cursor(self.heights@, v, self.cursor as int, start) == top_for_cursor(
                    self.heights@,
                    v,
                    self.cursor as int,
                    top as int,
                ),
            ensures
                *self == *old(self),
                top < total,
                top_for_cursor(self.heights@, v, self.cursor as int, start) == Ok::<int, int>(
                    top as int,
                ),
            decreases total - top,
        {
            if top + 1 >= total {
                break;
            }
            match self.doc_visible_count(v, top) {
                Err(i) => {
                    return Err(i);
                },
                Ok(n) => {
                    if self.cursor >= top + n {
                        top += 1;
                    } else {
                        break;
                    }
                },
            }
        }
        self.top = top;
        Ok(())
    }
}

// ---------------------------------------------------------------------------
// Drawing
// ---------------------------------------------------------------------------

/// A drawing of a document, line by line.
pub struct Drawing {
    /// The first line.
    pub top: usize,
    /// Where it went.
    pub y0: i64,
    /// The heights of the lines drawn.
    pub drawn: Vec<u32>,
    /// Where the next line goes.
    pub y: i64,
    /// The first line that did not show whole, or the number of lines.
    pub next_top: usize,
    pub total: usize,
    pub bottom: i64,
    pub space: u32,
}

/// Where the line behind drawn lines of the heights `hs` goes.
pub open spec fn drawn_to(y0: int, space: int, hs: Seq<u32>) -> int
    decreases hs.len(),
{
    if hs.len() == 0 {
        y0
    } else {
        drawn_to(y0, space, hs.drop_last()) + hs.last() + space
    }
}

/// Line `k` of those drawn showed whole.
pub open spec fn shows_whole(y0: int, space: int, bottom: int, hs: Seq<u32>, k: int) -> bool {
    drawn_to(y0, space, hs.take(k)) + hs[k] <= bottom
}

/// A coordinate on a screen, generously.
pub open spec fn on_screen(y: int) -> bool {
    -0x8000_0000 <= y <= 0x7fff_ffff
}

impl Drawing {
    /// Line `k` of those drawn showed whole.
    pub open spec fn whole(&self, k: int) -> bool {
        shows_whole(self.y0 as int, self.space as int, self.bottom as int, self.drawn@, k)
    }

    /// The drawing has noted the first line that did not show whole.
    pub open spec fn wf(&self) -> bool {
        &&& self.top + self.drawn@.len() <= self.total <= DOC_MAX_LINES
        &&& self.y == drawn_to(self.y0 as int, self.space as int, self.drawn@)
        &&& on_screen(self.y0 as int)
        &&& on_screen(self.bottom as int)
        &&& self.y0 <= self.y <= 0x3_0000_0000
        &&& forall|k: int|
            0 <= k < self.drawn@.len() && self.top + k < self.next_top ==> #[trigger] self.whole(k)
        &&& self.next_top == self.total || (self.top <= self.next_top < self.top
            + self.drawn@.len() && !self.whole(self.next_top - self.top))
    }

    /// A drawing of the lines from the top line on, between two coordinates.
    pub fn begin(d: &DocState, y0: i64, bottom: i64, space: u32) -> (r: Drawing)
        requires
            d.wf(),
            on_screen(y0 as int),
            on_screen(bottom as int),
            d.lines@.len() > 0,
        ensures
            r.wf(),
            r.drawn@.len() == 0,
            r.top == d.top,
            r.y0 == y0,
            r.total == d.lines@.len(),
            r.bottom == bottom,
            r.space == space,
    {
        Drawing {
            top: d.top,
            y0,
            drawn: Vec::new(),
            y: y0,
            next_top: d.lines.len(),
            total: d.lines.len(),
            bottom,
            space,
        }
    }

    /// The next line to draw, and where; none where the screen is full or the
    /// document over.
    pub fn next_line(&self) -> (r: Option<(usize, i64)>)
        requires
            self.wf(),
        ensures
            r == (if self.top + self.drawn@.len() < self.total && self.y < self.bottom {
                Some(((self.top + self.drawn@.len()) as usize, self.y))
            } else {
                None
            }),
    {
        let i = self.top + self.drawn.len();
        if i < self.total && self.y < self.bottom {
            Some((i, self.y))
        } else {
            None
        }
    }

    /// The next line was drawn and is `h` high.
    pub fn drew(&mut self, h: u32)
        requires
            old(self).wf(),
            old(self).top + old(self).drawn@.len() < old(self).total,
            old(self).y < old(self).bottom,
        ensures
            final(self).wf(),
            final(self).drawn@ == old(self).drawn@.push(h),
            final(self).top == old(self).top,
            final(self).y0 == old(self).y0,
            final(self).total == old(self).total,
            final(self).bottom == old(self).bottom,
            final(self).space == old(self).space,
    {
        let i = self.top + self.drawn.len();
        let ghost hs = self.drawn@;
        let ghost before = *self;
        if self.next_top == self.total && self.y + h as i64 > self.bottom {
            self.next_top = i;
        }
        self.y = self.y + h as i64 + self.space as i64;
        self.drawn.push(h);
        proof {
            let now = self.drawn@;
            assert(now.drop_last() =~= hs);
            assert(now.take(hs.len() as int) =~= hs);
            assert forall|k: int| 0 <= k < hs.len() implies self.whole(k) == before.whole(k) by {
                assert(now.take(k) =~= hs.take(k));
            }
            assert forall|k: int| 0 <= k < now.len() && self.top + k < self.next_top implies
                #[trigger] self.whole(k) by {
                if k < hs.len() {
                    assert(before.whole(k));
                }
            }
        }
    }

    /// The drawing is over: where a page down leads, the first line that did not
    /// show whole.
    pub fn finish(&self) -> (r: usize)
        requires
            self.wf(),
            self.top + self.drawn@.len() == self.total || self.y >= self.bottom,
        ensures
            r <= self.total,
            // Everything before it showed whole.
            forall|k: int|
                0 <= k && self.top + k < r ==> k < self.drawn@.len() && #[trigger] self.whole(k),
            // It did not show whole, or was not drawn at all.
            r < self.total ==> r >= self.top && (r - self.top < self.drawn@.len() ==> !self.whole(
                r - self.top,
            )),
            // Nothing is left where all showed whole.
            r == self.total ==> self.top + self.drawn@.len() == self.total,
    {
        let i = self.top + self.drawn.len();
        if self.next_top == self.total && i < self.total {
            i
        } else {
            self.next_top
        }
    }
}

impl DocState {
    /// Takes the end of a drawing.
    pub fn drawn(&mut self, next_top: usize)
        requires
            old(self).wf(),
            next_top <= old(self).lines@.len(),
        ensures
            final(self).wf(),
            *final(self) == (DocState { next_top, ..*old(self) }),
    {
        self.next_top = next_top;
    }
}

/// A page down skips no line: it leads to the first line that the last drawing did
/// not show whole, or one line on where that is the top line itself; and it leads
/// nowhere only where the whole rest showed.
pub proof fn paging_down_skips_no_line(d: DocState, v: Viewport)
    requires
        d.wf(),
        d.lines@.len() > 0,
        d.next_top >= d.top,
    ensures
        match page_top(d, v, true) {
            Ok(Some(t)) => d.top < t && (t <= d.next_top || t == d.top + 1) && t < d.lines@.len(),
            Ok(None) => d.next_top >= d.lines@.len() || d.top == d.lines@.len() - 1,
            Err(_) => false,
        },
{
}

// ---------------------------------------------------------------------------
// The document shown, the one being made, and the one set aside
// ---------------------------------------------------------------------------

/// The documents of a screen.
pub struct Documents {
    /// The one shown.
    pub document: Option<DocState>,
    /// The one being made.
    pub staging: Option<DocState>,
    /// The one set aside.
    pub suspended: Option<DocState>,
}

/// The documents after the one shown was set aside.
pub open spec fn set_aside(d: Documents) -> Documents {
    Documents {
        document: None,
        staging: None,
        suspended: if d.document is Some {
            d.document
        } else {
            d.suspended
        },
    }
}

/// The documents after the one set aside was brought back.
pub open spec fn brought_back(d: Documents) -> Documents {
    if d.suspended is Some {
        Documents { document: d.suspended, suspended: None, ..d }
    } else {
        d
    }
}

impl Documents {
    pub open spec fn wf(&self) -> bool {
        &&& self.document matches Some(d) ==> d.wf()
        &&& self.staging matches Some(d) ==> d.wf() && d.top == 0
        &&& self.suspended matches Some(d) ==> d.wf()
    }

    pub fn new() -> (r: Documents)
        ensures
            r.wf(),
            r == (Documents { document: None, staging: None, suspended: None }),
    {
        Documents { document: None, staging: None, suspended: None }
    }

    /// Whether a document is shown.
    pub fn doc_active(&self) -> (r: bool)
        ensures
            r == (self.document is Some),
    {
        self.document.is_some()
    }

    /// Begins a document; what is shown stays.
    pub fn doc_begin(&mut self, title: &str)
        requires
            old(self).wf(),
        ensures
            final(self).wf(),
            final(self).document == old(self).document,
            final(self).suspended == old(self).suspended,
            final(self).staging matches Some(d) && d.title@ == title@ && d.lines@.len() == 0
                && d.top == 0 && d.cursor == 0 && d.next_top == 0,
    {
        self.staging = Some(DocState::new(title));
    }

    /// Adds lines to the document being made, as many as there is room for.
    pub fn doc_append(&mut self, lines: Vec<DocLine>)
        requires
            old(self).wf(),
        ensures
            final(self).wf(),
            final(self).document == old(self).document,
            final(self).suspended == old(self).suspended,
            match (old(self).staging, final(self).staging) {
                (Some(a), Some(b)) => {
                    &&& b.title == a.title
                    &&& b.lines@ == (a.lines@ + lines@).take(
                        least((a.lines@ + lines@).len() as int, DOC_MAX_LINES as int),
                    )
                    &&& b.heights@.take(a.lines@.len() as int) == a.heights@
                    &&& forall|i: int|
                        a.lines@.len() <= i < b.lines@.len() ==> (#[trigger] b.heights@[i]) is None
                    &&& b.top == a.top && b.cursor == a.cursor && b.next_top == a.next_top
                },
                (None, None) => true,
                _ => false,
            },
    {
        if let Some(mut d) = self.staging.take() {
            d.append(lines);
            self.staging = Some(d);
        }
    }

    /// Shows the document being made; one set aside is forgotten. Whether the line
    /// for typing is to be hidden.
    pub fn doc_show(&mut self) -> (hide: bool)
        requires
            old(self).wf(),
        ensures
            final(self).wf(),
            hide == (old(self).staging is Some && old(self).document is None),
            *final(self) == (if old(self).staging is Some {
                Documents { document: old(self).staging, staging: None, suspended: None }
            } else {
                *old(self)
            }),
    {
        if let Some(d) = self.staging.take() {
            let entering = self.document.is_none();
            self.document = Some(d);
            self.suspended = None;
            entering
        } else {
            false
        }
    }

    /// Leaves the documents. Whether the line for typing is to be shown.
    pub fn doc_clear(&mut self) -> (show: bool)
        ensures
            final(self).wf(),
            show == (old(self).document is Some),
            *final(self) == (Documents { document: None, staging: None, suspended: None }),
    {
        let show = self.document.is_some();
        self.document = None;
        self.staging = None;
        self.suspended = None;
        show
    }

    /// Sets the document aside. Whether the line for typing is to be shown.
    pub fn doc_suspend(&mut self) -> (show: bool)
        requires
            old(self).wf(),
        ensures
            final(self).wf(),
            show == (old(self).document is Some),
            *final(self) == set_aside(*old(self)),
    {
        self.staging = None;
        if let Some(d) = self.document.take() {
            self.suspended = Some(d);
            true
        } else {
            false
        }
    }

    /// Brings the document back that was set aside. False where there is none.
    pub fn doc_resume(&mut self) -> (r: bool)
        requires
            old(self).wf(),
        ensures
            final(self).wf(),
            r == (old(self).suspended is Some),
            *final(self) == brought_back(*old(self)),
    {
        match self.suspended.take() {
            Some(d) => {
                self.document = Some(d);
                true
            },
            None => false,
        }
    }
}

/// A document that was set aside comes back exactly as it was, with its place.
pub proof fn resume_undoes_suspend(d: Documents)
    requires
        d.document is Some,
    ensures
        brought_back(set_aside(d)).document == d.document,
{
}

} // verus!
