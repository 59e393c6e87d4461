//! What a screen shows of a page and of a conversation, and where the keys lead.
use vstd::prelude::*;

use crate::chat_api::DocLine;
use crate::document::{
    brought_back, drawn_to, fitting, is_link, link_after, link_before, page_top, paged,
    paged_to_link, screen_above, set_aside, shows_whole, stepped, top_for_cursor, visible,
    DocState, Documents, Viewport,
};
use crate::layout::{least_of, search_from, search_required, selection, together, Edge, Search};

verus! {

/// The height of `n` lines from line `i` on, with the space behind each.
pub open spec fn stacked(heights: Seq<Option<u32>>, v: Viewport, i: int, n: int) -> int
    decreases n,
{
    if n <= 0 {
        0
    } else {
        stacked(heights, v, i, n - 1) + heights[i + n - 1]->0 + v.space
    }
}

proof fn lemma_stacked_front(heights: Seq<Option<u32>>, v: Viewport, i: int, n: int)
    requires
        n > 0,
    ensures
        stacked(heights, v, i, n) == heights[i]->0 + v.space + stacked(heights, v, i + 1, n - 1),
    decreases n,
{
    if n > 1 {
        lemma_stacked_front(heights, v, i, n - 1);
    } else {
        assert(stacked(heights, v, i, 0) == 0);
        assert(stacked(heights, v, i + 1, 0) == 0);
    }
}

proof fn lemma_fitting(heights: Seq<Option<u32>>, v: Viewport, i: int, used: nat, n: nat)
    requires
        0 <= i <= heights.len(),
        n > 0,
    ensures
        match fitting(heights, v, i, used, n) {
            Ok(m) => {
                &&& m >= n
                &&& i + (m - n) <= heights.len()
                &&& forall|k: int| i <= k < i + (m - n) ==> (#[trigger] heights[k]) is Some
                &&& m == n || used + stacked(heights, v, i, m - n) <= v.budget
                &&& i + (m - n) < heights.len() ==> heights[i + (m - n)] is Some && used + stacked(
                    heights,
                    v,
                    i,
                    m - n + 1,
                ) > v.budget
            },
            Err(k) => i <= k < heights.len() && heights[k] is None,
        },
    decreases heights.len() - i,
{
    if i < heights.len() && heights[i] is Some {
        let h = heights[i]->0;
        if used + h + v.space > v.budget {
            lemma_stacked_front(heights, v, i, 1);
            assert(stacked(heights, v, i + 1, 0) == 0);
        } else {
            lemma_fitting(heights, v, i + 1, used + h as nat + v.space as nat, n + 1);
            match fitting(heights, v, i, used, n) {
                Ok(m) => {
                    lemma_stacked_front(heights, v, i, m - n);
                    lemma_stacked_front(heights, v, i, m - n + 1);
                },
                Err(_) => {},
            }
        }
    }
}

/// A screen shows as many lines from its top as fit its height with the space behind
/// each, at least one, and no fewer than fit: the next line would not. Where a height
/// that matters is not measured, that line is named.
pub proof fn a_screen_shows_what_fits(heights: Seq<Option<u32>>, v: Viewport, top: int)
    requires
        0 <= top < heights.len(),
    ensures
        match visible(heights, v, top) {
            Ok(n) => {
                &&& n >= 1
                &&& top + n <= heights.len()
                &&& n == 1 || stacked(heights, v, top, n as int) <= v.budget
                &&& top + n < heights.len() ==> stacked(heights, v, top, n as int + 1) > v.budget
                &&& forall|k: int| top <= k < top + n ==> (#[trigger] heights[k]) is Some
            },
            Err(k) => top <= k < heights.len() && heights[k] is None,
        },
{
    match heights[top] {
        None => {},
        Some(h) => {
            let used = h as nat + v.space as nat;
            lemma_fitting(heights, v, top + 1, used, 1);
            assert(fitting(heights, v, top, 0, 0) == fitting(heights, v, top + 1, used, 1));
            match fitting(heights, v, top + 1, used, 1) {
                Ok(n) => {
                    lemma_stacked_front(heights, v, top, n as int);
                    lemma_stacked_front(heights, v, top, n as int + 1);
                },
                Err(_) => {},
            }
        },
    }
}

/// The screen above a line begins as far up as the lines before that line fit.
pub proof fn the_screen_above_is_as_full_as_can_be(
    heights: Seq<Option<u32>>,
    v: Viewport,
    i: int,
    used: nat,
)
    requires
        0 <= i <= heights.len(),
    ensures
        match screen_above(heights, v, i, used) {
            Ok(t) => {
                &&& 0 <= t <= i
                &&& t == i || used + stacked(heights, v, t, i - t) <= v.budget
                &&& t > 0 ==> used + stacked(heights, v, t - 1, i - t + 1) > v.budget
            },
            Err(k) => 0 <= k < i && heights[k] is None,
        },
    decreases i,
{
    if i > 0 {
        match heights[i - 1] {
            None => {},
            Some(h) => {
                let more = used + h as nat + v.space as nat;
                if used + h + v.space > v.budget {
                    assert(stacked(heights, v, i - 1, 0) == 0);
                    assert(stacked(heights, v, i - 1, 1) == h + v.space);
                } else {
                    the_screen_above_is_as_full_as_can_be(heights, v, i - 1, more);
                    match screen_above(heights, v, i - 1, more) {
                        Ok(t) => {
                            assert(stacked(heights, v, t, i - t) == stacked(
                                heights,
                                v,
                                t,
                                i - 1 - t,
                            ) + h + v.space);
                            assert(stacked(heights, v, t - 1, i - t + 1) == stacked(
                                heights,
                                v,
                                t - 1,
                                i - t,
                            ) + h + v.space);
                        },
                        Err(_) => {},
                    }
                }
            },
        }
    }
}

/// The next link is the first one from there on, the link before the last one before
/// there; a link is a line of kind 2.
pub proof fn links_are_found_in_both_directions(lines: Seq<DocLine>, start: int, end: int)
    requires
        0 <= start <= end <= lines.len(),
    ensures
        match link_after(lines, start, end) {
            Some(k) => start <= k < end && lines[k].kind == 2 && forall|j: int|
                start <= j < k ==> (#[trigger] lines[j]).kind != 2,
            None => forall|j: int| start <= j < end ==> (#[trigger] lines[j]).kind != 2,
        },
        match link_before(lines, start, end) {
            Some(k) => start <= k < end && lines[k].kind == 2 && forall|j: int|
                k < j < end ==> (#[trigger] lines[j]).kind != 2,
            None => forall|j: int| start <= j < end ==> (#[trigger] lines[j]).kind != 2,
        },
    decreases end - start,
{
    lemma_link_after(lines, start, end);
    lemma_link_before(lines, start, end);
}

proof fn lemma_link_after(lines: Seq<DocLine>, i: int, end: int)
    requires
        0 <= i <= end <= lines.len(),
    ensures
        match link_after(lines, i, end) {
            Some(k) => i <= k < end && lines[k].kind == 2 && forall|j: int|
                i <= j < k ==> (#[trigger] lines[j]).kind != 2,
            None => forall|j: int| i <= j < end ==> (#[trigger] lines[j]).kind != 2,
        },
    decreases end - i,
{
    if i < end && !is_link(lines, i) {
        lemma_link_after(lines, i + 1, end);
    }
}

proof fn lemma_link_before(lines: Seq<DocLine>, start: int, i: int)
    requires
        0 <= start <= i <= lines.len(),
    ensures
        match link_before(lines, start, i) {
            Some(k) => start <= k < i && lines[k].kind == 2 && forall|j: int|
                k < j < i ==> (#[trigger] lines[j]).kind != 2,
            None => forall|j: int| start <= j < i ==> (#[trigger] lines[j]).kind != 2,
        },
    decreases i - start,
{
    if start < i && !is_link(lines, i - 1) {
        lemma_link_before(lines, start, i - 1);
    }
}

/// A page down goes to the first line that did not show whole, but at least one line
/// and no further than the last; a page up to the screen above. The cursor goes to the
/// new top line; where there is no way on, nothing moves.
pub proof fn pages_turn(d: DocState, v: Viewport)
    requires
        d.wf(),
        d.lines@.len() > 0,
    ensures
        d.next_top >= d.lines@.len() ==> paged(d, v, true) == Ok::<(int, int), int>(
            (d.top as int, d.cursor as int),
        ),
        d.top < d.next_top < d.lines@.len() ==> paged(d, v, true) == Ok::<(int, int), int>(
            (d.next_top as int, d.next_top as int),
        ),
        d.next_top <= d.top < d.lines@.len() - 1 ==> paged(d, v, true) == Ok::<(int, int), int>(
            (d.top + 1, d.top + 1),
        ),
        match screen_above(d.heights@, v, d.top as int, 0) {
            Ok(t) => paged(d, v, false) == Ok::<(int, int), int>(
                if t == d.top {
                    (d.top as int, d.cursor as int)
                } else {
                    (t, t)
                },
            ),
            Err(k) => paged(d, v, false) == Err::<(int, int), int>(k),
        },
{
}

/// The cursor goes to the next link on the screen, or to the one before; only where the
/// screen has none a page is turned, to the first link of the new screen going down and
/// to the last going up, or to its top line where it has none either.
pub proof fn the_cursor_goes_from_link_to_link(d: DocState, v: Viewport, n: nat)
    requires
        d.wf(),
        d.lines@.len() > 0,
        visible(d.heights@, v, d.top as int) == Ok::<nat, int>(n),
        d.top + n <= d.lines@.len(),
    ensures
        ({
            let from: int = if d.cursor + 1 > d.top {
                d.cursor + 1
            } else {
                d.top as int
            };
            &&& forall|k: int|
                #![trigger d.lines@[k]]
                from <= k < d.top + n && d.lines@[k].kind == 2 && (forall|j: int|
                    from <= j < k ==> (#[trigger] d.lines@[j]).kind != 2) ==> stepped(d, v, true)
                    == Ok::<(int, int), int>((d.top as int, k))
            &&& (forall|j: int| from <= j < d.top + n ==> (#[trigger] d.lines@[j]).kind != 2)
                ==> stepped(d, v, true) == paged_to_link(d, v, true)
        }),
        ({
            let to: int = if d.cursor < d.top + n {
                d.cursor as int
            } else {
                d.top + n
            };
            &&& forall|k: int|
                #![trigger d.lines@[k]]
                d.top <= k < to && d.lines@[k].kind == 2 && (forall|j: int|
                    k < j < to ==> (#[trigger] d.lines@[j]).kind != 2) ==> stepped(d, v, false)
                    == Ok::<(int, int), int>((d.top as int, k))
            &&& (forall|j: int| d.top <= j < to ==> (#[trigger] d.lines@[j]).kind != 2)
                ==> stepped(d, v, false) == paged_to_link(d, v, false)
        }),
{
    let from: int = if d.cursor + 1 > d.top {
        d.cursor + 1
    } else {
        d.top as int
    };
    let to: int = if d.cursor < d.top + n {
        d.cursor as int
    } else {
        d.top + n
    };
    if from <= d.top + n {
        lemma_link_after(d.lines@, from, d.top + n);
    }
    if d.top <= to {
        lemma_link_before(d.lines@, d.top as int, to);
    }
}

/// A turned page shows the screen that paging leads to, with the cursor on its first
/// link going down, on its last going up, and on its top line where it has none.
pub proof fn a_turned_page_lands_on_a_link(d: DocState, v: Viewport, down: bool, t: int, n: nat)
    requires
        d.wf(),
        page_top(d, v, down) == Ok::<Option<int>, int>(Some(t)),
        visible(d.heights@, v, t) == Ok::<nat, int>(n),
        0 <= t,
        t + n <= d.lines@.len(),
    ensures
        ({
            match paged_to_link(d, v, down) {
                Ok((top, cursor)) => {
                    &&& top == t
                    &&& (forall|j: int| t <= j < t + n ==> (#[trigger] d.lines@[j]).kind != 2)
                        ==> cursor == t
                    &&& down ==> forall|k: int|
                        #![trigger d.lines@[k]]
                        t <= k < t + n && d.lines@[k].kind == 2 ==> cursor <= k
                            && d.lines@[cursor].kind == 2
                    &&& !down ==> forall|k: int|
                        #![trigger d.lines@[k]]
                        t <= k < t + n && d.lines@[k].kind == 2 ==> k <= cursor
                            && d.lines@[cursor].kind == 2
                },
                Err(_) => false,
            }
        }),
{
    lemma_link_after(d.lines@, t, t + n);
    lemma_link_before(d.lines@, t, t + n);
}

/// The top line follows the cursor down no further than it must.
pub proof fn the_top_follows_the_cursor(
    heights: Seq<Option<u32>>,
    v: Viewport,
    cursor: int,
    top: int,
)
    requires
        0 <= top < heights.len(),
        top <= cursor,
    ensures
        match top_for_cursor(heights, v, cursor, top) {
            Ok(t) => {
                &&& top <= t < heights.len()
                &&& t + 1 < heights.len() ==> (visible(heights, v, t) matches Ok(n) && cursor < t
                    + n)
                &&& t > top ==> (visible(heights, v, t - 1) matches Ok(n) && cursor >= t - 1 + n)
            },
            Err(_) => true,
        },
    decreases heights.len() - top,
{
    if top + 1 < heights.len() {
        match visible(heights, v, top) {
            Ok(n) => if cursor >= top + n {
                a_screen_shows_what_fits(heights, v, top);
                the_top_follows_the_cursor(heights, v, cursor, top + 1);
            },
            Err(_) => {},
        }
    }
}

/// Each line is drawn below the one before it and the space; it shows whole where its
/// lower edge is on the screen.
pub proof fn lines_are_drawn_downward(y0: int, space: int, bottom: int, hs: Seq<u32>, h: u32)
    ensures
        drawn_to(y0, space, Seq::empty()) == y0,
        drawn_to(y0, space, hs.push(h)) == drawn_to(y0, space, hs) + h + space,
        shows_whole(y0, space, bottom, hs.push(h), hs.len() as int) <==> drawn_to(y0, space, hs)
            + h <= bottom,
{
    assert(hs.push(h).drop_last() =~= hs);
    assert(hs.push(h).take(hs.len() as int) =~= hs);
}

/// A page set aside comes back; one in the making is dropped, and one that was set aside
/// before stays where none is shown.
pub proof fn a_page_set_aside_comes_back(d: Documents)
    ensures
        set_aside(d).document is None && set_aside(d).staging is None,
        d.document is Some ==> set_aside(d).suspended == d.document && brought_back(
            set_aside(d),
        ).document == d.document && brought_back(set_aside(d)).suspended is None,
        d.document is None ==> set_aside(d).suspended == d.suspended,
        d.suspended is None ==> brought_back(d) == d,
        brought_back(d).staging == d.staging,
{
}

/// The selection moves by one, and tells where it meets an end; an index is taken as it
/// is, up to the last post. Without posts nothing is selected.
pub proof fn the_selection_moves(index: usize, s: usize, l: usize)
    requires
        index < usize::MAX - 1,
    ensures
        selection(usize::MAX, Some(s), Some(l)) == (if s < l {
            (Some((s + 1) as usize), Edge::Inside)
        } else {
            (Some(l), Edge::Bottom)
        }),
        selection((usize::MAX - 1) as usize, Some(s), Some(l)) == (if s > 0 {
            (Some((s - 1) as usize), Edge::Inside)
        } else {
            (Some(0usize), Edge::Top)
        }),
        forall|was: Option<usize>| #[trigger]
            selection(index, was, Some(l)) == (
                Some(
                    if index <= l {
                        index
                    } else {
                        l
                    },
                ),
                Edge::Inside,
            ),
        forall|was: Option<usize>| #[trigger]
            selection(index, was, None) == (None::<usize>, Edge::Inside),
{
}

/// The posts of a screen take the height of each together. The search begins at the
/// selected post, downward where that is not below the first one shown; without a
/// selection at the newest, upward. It is made where the selected post does not show.
pub proof fn the_search_begins_at_the_selection(
    hs: Seq<u32>,
    h: u32,
    range: Seq<usize>,
    s: usize,
    count: nat,
)
    ensures
        together(Seq::empty()) == 0,
        together(hs.push(h)) == together(hs) + h,
        search_from(Some(s), range, count).0 == s,
        range.len() == 0 ==> !search_from(Some(s), range, count).1,
        range.len() > 0 ==> (search_from(Some(s), range, count).1 <==> forall|i: int|
            0 <= i < range.len() ==> s <= #[trigger] range[i]),
        count > 0 ==> search_from(None, range, count) == (count - 1, false),
        search_required(None, range),
        search_required(Some(s), range) <==> !(exists|i: int|
            0 <= i < range.len() && #[trigger] range[i] == s),
{
    assert(hs.push(h).drop_last() =~= hs);
    if range.len() > 0 {
        lemma_least(range);
        let m = least_of(range);
        if s <= m {
        } else {
            let i = choose|i: int| 0 <= i < range.len() && #[trigger] range[i] == m;
            assert(!(s <= range[i]));
        }
    }
}

proof fn lemma_least(range: Seq<usize>)
    requires
        range.len() > 0,
    ensures
        forall|i: int| 0 <= i < range.len() ==> least_of(range) <= #[trigger] range[i],
        exists|i: int| 0 <= i < range.len() && #[trigger] range[i] == least_of(range),
    decreases range.len(),
{
    if range.len() > 1 {
        let front = range.drop_last();
        lemma_least(front);
        let m = least_of(front);
        assert forall|i: int| 0 <= i < range.len() implies least_of(range)
            <= #[trigger] range[i] by {
            if i < front.len() {
                assert(front[i] == range[i]);
            }
        }
        if range.last() < m {
            assert(range[range.len() - 1] == least_of(range));
        } else {
            let i = choose|i: int| 0 <= i < front.len() && #[trigger] front[i] == m;
            assert(range[i] == m);
        }
    } else {
        assert(range[0] == least_of(range));
    }
}

/// The posts that show are neighbours, from the first of the search on: newer ones below
/// where the search goes down, older ones above where it goes up. A screen that is not
/// full shows all there are in that direction.
pub proof fn the_posts_shown_are_neighbours(q: Search, k: int)
    requires
        q.wf(),
        0 <= k < q.shown().len(),
    ensures
        q.topdown ==> q.shown()[k] == q.start + k,
        !q.topdown && k <= q.start ==> q.shown()[k] == q.start - k,
        !q.full && q.topdown ==> q.shown().len() == q.count - q.start,
        !q.full && !q.topdown && q.count > 0 ==> q.shown().len() == q.start + 1,
        q.full && !q.topdown ==> q.shown().len() == q.heights@.len(),
        q.full && q.topdown && q.heights@.len() > 1 ==> q.shown().len() == q.heights@.len() - 1,
{
}

/// An empty page has nowhere to go, and a height that is not known is asked for before
/// the cursor moves.
pub proof fn an_empty_page_stays(d: DocState, v: Viewport, down: bool)
    requires
        d.wf(),
    ensures
        d.lines@.len() == 0 ==> paged(d, v, down) == Ok::<(int, int), int>(
            (d.top as int, d.cursor as int),
        ) && stepped(d, v, down) == Ok::<(int, int), int>((d.top as int, d.cursor as int)),
        d.lines@.len() > 0 ==> (visible(d.heights@, v, d.top as int) matches Err(i) ==> stepped(
            d,
            v,
            down,
        ) == Err::<(int, int), int>(i)),
        page_top(d, v, down) == Ok::<Option<int>, int>(None) ==> paged_to_link(d, v, down) == Ok::<
            (int, int),
            int,
        >((d.top as int, d.cursor as int)),
{
}

/// Without a selection the first move selects the last post.
pub proof fn the_first_move_selects_the_last(l: usize, range: Seq<usize>)
    requires
        l < usize::MAX - 1,
    ensures
        selection(usize::MAX, None, Some(l)) == (Some(l), Edge::Inside),
        selection((usize::MAX - 1) as usize, None, Some(l)) == (Some(l), Edge::Inside),
        selection(usize::MAX, None, None) == (None::<usize>, Edge::Inside),
        search_from(None, range, 0) == (0int, false),
{
}

/// A single post that takes more than the screen shows with all that are newer where the
/// search goes down, and alone where it goes up.
pub proof fn a_post_larger_than_the_screen(q: Search)
    requires
        q.wf(),
        q.full,
        q.heights@.len() == 1,
    ensures
        q.topdown ==> q.shown().len() == q.count - q.start,
        !q.topdown ==> q.shown().len() == 1,
{
}

} // verus!
