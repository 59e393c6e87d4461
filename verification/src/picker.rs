//! Lists to pick from: peers, contacts, addresses and nodes, in their order and with
//! their labels.
use vstd::prelude::*;
use vstd::slice::slice_subrange;

use crate::address::Address;
use crate::book::Book;
use crate::hex::{hex, hex_text};
use crate::micron::{truncate_utf8, within};
use crate::storage::{found_models, Found, FoundModel};
use crate::text::{
    chars_of, decimal_text, decimal_up_to, join2, join3, parse_decimal, push_decimal, same_chars,
    string_of, trim, trimmed,
};

verus! {

/// The most entries in a list of announces.
pub const ANNOUNCE_LIST_MAX: usize = 32;

/// The longest display name, in bytes.
pub const DISPLAY_NAME_MAX: usize = 32;

/// What `str::to_lowercase` makes of a text.
pub uninterp spec fn lowercase_of(s: Seq<char>) -> Seq<char>;

/// `str::to_lowercase`: the text in lower case. Which text that is depends on the
/// text alone; what Unicode says of it is left unsaid.
#[verifier::external_body]
pub(crate) fn to_lowercase(s: &str) -> (r: String)
    ensures
        r@ == lowercase_of(s@),
{
    s.to_lowercase()
}

// ---------------------------------------------------------------------------
// Order
// ---------------------------------------------------------------------------

/// An entry: a larger weight comes first, and among the same the name in lower case
/// decides.
pub struct Entry {
    pub addr: Address,
    pub name: String,
    pub weight: u64,
    pub low: Vec<char>,
}

/// An entry as plain mathematics.
#[verifier::ext_equal]
pub struct EntryModel {
    pub addr: Address,
    pub name: Seq<char>,
    pub weight: u64,
    pub low: Seq<char>,
}

impl View for Entry {
    type V = EntryModel;

    open spec fn view(&self) -> EntryModel {
        EntryModel { addr: self.addr, name: self.name@, weight: self.weight, low: self.low@ }
    }
}

pub open spec fn entry_models(v: Seq<Entry>) -> Seq<EntryModel> {
    v.map_values(|e: Entry| e@)
}

/// `a` comes before `b` in a dictionary.
pub open spec fn earlier(a: Seq<char>, b: Seq<char>) -> bool
    decreases a.len(),
{
    if b.len() == 0 {
        false
    } else if a.len() == 0 {
        true
    } else if a[0] != b[0] {
        (a[0] as u32) < (b[0] as u32)
    } else {
        earlier(a.skip(1), b.skip(1))
    }
}

/// `a` comes before `b` in a list.
pub open spec fn ahead(a: EntryModel, b: EntryModel) -> bool {
    a.weight > b.weight || (a.weight == b.weight && earlier(a.low, b.low))
}

/// Where `e` goes among the first `n` of an ordered list: behind all that it does not
/// come before.
pub open spec fn slot(s: Seq<EntryModel>, e: EntryModel, n: int) -> int
    decreases n,
{
    if n <= 0 {
        0
    } else if ahead(e, s[n - 1]) {
        slot(s, e, n - 1)
    } else {
        n
    }
}

/// The list in order; entries of the same rank stay as they were.
pub open spec fn ordered(s: Seq<EntryModel>) -> Seq<EntryModel>
    decreases s.len(),
{
    if s.len() == 0 {
        s
    } else {
        let t = ordered(s.drop_last());
        t.insert(slot(t, s.last(), t.len() as int), s.last())
    }
}

proof fn lemma_slot(s: Seq<EntryModel>, e: EntryModel, n: int)
    requires
        0 <= n <= s.len(),
    ensures
        0 <= slot(s, e, n) <= n,
        slot(s, e, n) > 0 ==> !ahead(e, s[slot(s, e, n) - 1]),
        forall|i: int| slot(s, e, n) <= i < n ==> ahead(e, #[trigger] s[i]),
    decreases n,
{
    if n > 0 && ahead(e, s[n - 1]) {
        lemma_slot(s, e, n - 1);
    }
}

fn is_earlier(a: &[char], b: &[char]) -> (r: bool)
    ensures
        r == earlier(a@, b@),
{
    let mut i: usize = 0;
    assert(a@.skip(0) =~= a@);
    assert(b@.skip(0) =~= b@);
    while i < a.len() && i < b.len() && a[i] == b[i]
        invariant
            i <= a@.len(),
            i <= b@.len(),
            earlier(a@, b@) == earlier(a@.skip(i as int), b@.skip(i as int)),
        decreases a@.len() - i,
    {
        assert(a@.skip(i as int).skip(1) =~= a@.skip(i + 1));
        assert(b@.skip(i as int).skip(1) =~= b@.skip(i + 1));
        i += 1;
    }
    if i >= b.len() {
        return false;
    }
    if i >= a.len() {
        return true;
    }
    (a[i] as u32) < (b[i] as u32)
}

/// Puts the list in order.
pub fn order(entries: Vec<Entry>) -> (r: Vec<Entry>)
    ensures
        entry_models(r@) == ordered(entry_models(entries@)),
{
    let ghost all = entry_models(entries@);
    let mut rest = entries;
    let mut out: Vec<Entry> = Vec::new();
    let ghost mut done: int = 0;
    assert(entry_models(out@) =~= all.take(0));
    assert(all.skip(0) =~= all);
    while rest.len() > 0
        invariant
            0 <= done <= all.len(),
            entry_models(rest@) == all.skip(done),
            entry_models(out@) == ordered(all.take(done)),
        decreases rest@.len(),
    {
        proof {
            assert(entry_models(rest@).len() == rest@.len());
            assert(all.skip(done).len() == all.len() - done);
        }
        let ghost r0 = entry_models(rest@);
        let e = rest.remove(0);
        let ghost t = entry_models(out@);
        assert(entry_models(rest@) =~= r0.skip(1));
        assert(r0[0] == e@);
        let mut n: usize = out.len();
        while n > 0 && (e.weight > out[n - 1].weight || (e.weight == out[n - 1].weight
            && is_earlier(e.low.as_slice(), out[n - 1].low.as_slice())))
            invariant
                n <= out@.len(),
                t == entry_models(out@),
                slot(t, e@, t.len() as int) == slot(t, e@, n as int),
            decreases n,
        {
            assert(t[n - 1] == out@[n - 1]@);
            n -= 1;
        }
        proof {
            if n > 0 {
                assert(t[n - 1] == out@[n - 1]@);
            }
        }
        out.insert(n, e);
        proof {
            assert(entry_models(out@) =~= t.insert(n as int, e@));
            assert(all.take(done + 1).drop_last() =~= all.take(done));
            assert(all.take(done + 1).last() == e@);
            assert(all.skip(done).skip(1) =~= all.skip(done + 1));
            done = done + 1;
        }
    }
    proof {
        assert(entry_models(rest@).len() == 0);
        assert(all.skip(done).len() == 0);
        assert(all.take(done) =~= all);
    }
    out
}

proof fn lemma_earlier_one_way(a: Seq<char>, b: Seq<char>)
    ensures
        !(earlier(a, b) && earlier(b, a)),
    decreases a.len(),
{
    if a.len() > 0 && b.len() > 0 {
        lemma_earlier_one_way(a.skip(1), b.skip(1));
    }
}

/// Not later than something not later than `c` is not later than `c`.
proof fn lemma_not_later(a: Seq<char>, b: Seq<char>, c: Seq<char>)
    requires
        !earlier(b, a),
        !earlier(c, b),
    ensures
        !earlier(c, a),
    decreases a.len(),
{
    if a.len() > 0 {
        assert(b.len() > 0);
        assert(c.len() > 0);
        if a[0] == b[0] && b[0] == c[0] {
            lemma_not_later(a.skip(1), b.skip(1), c.skip(1));
        } else {
            assert(a[0] as u32 <= b[0] as u32);
            assert(b[0] as u32 <= c[0] as u32);
            vstd::utf8::char_u32_cast(a[0], a[0] as u32);
            vstd::utf8::char_u32_cast(b[0], b[0] as u32);
            assert(a[0] != c[0]);
        }
    }
}

/// A list in order has no entry behind one that it comes before, and holds what the
/// list held.
pub proof fn ordered_list_is_in_order(s: Seq<EntryModel>)
    ensures
        ordered(s).to_multiset() == s.to_multiset(),
        ordered(s).len() == s.len(),
        forall|i: int, j: int|
            0 <= i < j < s.len() ==> !ahead(#[trigger] ordered(s)[j], #[trigger] ordered(s)[i]),
    decreases s.len(),
{
    broadcast use vstd::seq_lib::group_to_multiset_ensures;

    if s.len() > 0 {
        let d = s.drop_last();
        let e = s.last();
        ordered_list_is_in_order(d);
        let t = ordered(d);
        lemma_slot(t, e, t.len() as int);
        let k = slot(t, e, t.len() as int);
        let o = t.insert(k, e);
        assert(d.push(e) =~= s);
        assert(o.to_multiset() =~= t.to_multiset().insert(e));
        assert forall|i: int, j: int| 0 <= i < j < o.len() implies !ahead(
            #[trigger] o[j],
            #[trigger] o[i],
        ) by {
            let i0 = if i < k {
                i
            } else {
                i - 1
            };
            let j0 = if j < k {
                j
            } else {
                j - 1
            };
            if i != k && j != k {
                assert(o[i] == t[i0] && o[j] == t[j0]);
            } else if i == k {
                // `e` comes before everything behind it.
                assert(o[j] == t[j0]);
                assert(ahead(e, t[j0]));
                lemma_earlier_one_way(e.low, t[j0].low);
            } else {
                // `e` comes before nothing in front of it.
                assert(o[i] == t[i0]);
                assert(!ahead(e, t[k - 1]));
                if i0 < k - 1 {
                    assert(!ahead(t[k - 1], t[i0]));
                    if t[i0].weight == t[k - 1].weight && t[k - 1].weight == e.weight {
                        lemma_not_later(t[i0].low, t[k - 1].low, e.low);
                    }
                }
            }
        }
    } else {
        assert(ordered(s) =~= s);
    }
}

// ---------------------------------------------------------------------------
// Lists
// ---------------------------------------------------------------------------

/// Peers or nodes as they announced themselves, with the time as their weight.
pub open spec fn announced(s: Seq<(Address, (String, u64))>) -> Seq<EntryModel> {
    s.map_values(
        |e: (Address, (String, u64))|
            EntryModel { addr: e.0, name: e.1.0@, weight: e.1.1, low: Seq::empty() },
    )
}

/// The first `n` of `s`, or all of them.
pub open spec fn first_of<T>(s: Seq<T>, n: nat) -> Seq<T> {
    if s.len() > n {
        s.take(n as int)
    } else {
        s
    }
}

fn announced_entries(seen: &Book<(String, u64)>) -> (r: Vec<Entry>)
    ensures
        entry_models(r@) == announced(seen.entries@),
{
    let mut out: Vec<Entry> = Vec::new();
    let mut i: usize = 0;
    while i < seen.entries.len()
        invariant
            i <= seen.entries@.len(),
            out@.len() == i,
            forall|k: int| 0 <= k < i ==> (#[trigger] out@[k])@ == announced(seen.entries@)[k],
        decreases seen.entries@.len() - i,
    {
        let e = &seen.entries[i];
        let low: Vec<char> = Vec::new();
        assert(low@ =~= Seq::<char>::empty());
        let x = Entry { addr: e.0, name: e.1.0.clone(), weight: e.1.1, low };
        assert(x@ == announced(seen.entries@)[i as int]);
        out.push(x);
        i += 1;
    }
    assert(entry_models(out@) =~= announced(seen.entries@));
    out
}

/// The announces, the latest first, as many as a list takes.
pub fn announce_list(seen: &Book<(String, u64)>) -> (r: Vec<Entry>)
    ensures
        entry_models(r@) == first_of(
            ordered(announced(seen.entries@)),
            ANNOUNCE_LIST_MAX as nat,
        ),
{
    let mut all = order(announced_entries(seen));
    let ghost a = entry_models(all@);
    if all.len() > ANNOUNCE_LIST_MAX {
        all.truncate(ANNOUNCE_LIST_MAX);
        assert(entry_models(all@) =~= a.take(ANNOUNCE_LIST_MAX as int));
    }
    all
}

/// The number of unread messages of a peer.
pub open spec fn unread_count(unread: Map<Address, u32>, a: Address) -> u32 {
    if unread.contains_key(a) {
        unread[a]
    } else {
        0
    }
}

/// Contacts, with the number of unread messages as their weight.
pub open spec fn contacts_by_unread(
    s: Seq<(Address, String)>,
    unread: Map<Address, u32>,
) -> Seq<EntryModel> {
    s.map_values(
        |e: (Address, String)|
            EntryModel {
                addr: e.0,
                name: e.1@,
                weight: unread_count(unread, e.0) as u64,
                low: lowercase_of(e.1@),
            },
    )
}

/// The name in a list of contacts: with the number of unread messages, if there are
/// any.
pub open spec fn badged(name: Seq<char>, unread: u64) -> Seq<char> {
    if unread == 0 {
        name
    } else {
        name + " ["@ + decimal_text(unread as nat) + "]"@
    }
}

/// The contacts: those with the most unread messages first, then by name. The names
/// carry the numbers.
pub fn contact_list(contacts: &Book<String>, unread: &Book<u32>) -> (r: Vec<Entry>)
    requires
        unread.wf(),
    ensures
        entry_models(r@) == ordered(contacts_by_unread(contacts.entries@, unread@)).map_values(
            |e: EntryModel| EntryModel { name: badged(e.name, e.weight), ..e },
        ),
{
    let ghost want = contacts_by_unread(contacts.entries@, unread@);
    let mut all: Vec<Entry> = Vec::new();
    let mut i: usize = 0;
    while i < contacts.entries.len()
        invariant
            i <= contacts.entries@.len(),
            unread.wf(),
            want == contacts_by_unread(contacts.entries@, unread@),
            all@.len() == i,
            forall|k: int| 0 <= k < i ==> (#[trigger] all@[k])@ == want[k],
        decreases contacts.entries@.len() - i,
    {
        let e = &contacts.entries[i];
        let n: u32 = match unread.get(&e.0) {
            Some(n) => *n,
            None => 0,
        };
        let low = to_lowercase(e.1.as_str());
        let x = Entry {
            addr: e.0,
            name: e.1.clone(),
            weight: n as u64,
            low: chars_of(low.as_str()),
        };
        assert(x@ == want[i as int]);
        all.push(x);
        i += 1;
    }
    assert(entry_models(all@) =~= want);
    let sorted = order(all);
    let ghost o = entry_models(sorted@);
    let ghost b = o.map_values(
        |e: EntryModel| EntryModel { name: badged(e.name, e.weight), ..e },
    );
    let mut out: Vec<Entry> = Vec::new();
    let mut j: usize = 0;
    while j < sorted.len()
        invariant
            j <= sorted@.len(),
            o == entry_models(sorted@),
            b == o.map_values(|e: EntryModel| EntryModel { name: badged(e.name, e.weight), ..e }),
            out@.len() == j,
            forall|k: int| 0 <= k < j ==> (#[trigger] out@[k])@ == b[k],
        decreases sorted@.len() - j,
    {
        let e = &sorted[j];
        assert(o[j as int] == e@);
        let name = if e.weight == 0 {
            e.name.clone()
        } else {
            let mut s = join2(e.name.as_str(), " [");
            push_decimal(&mut s, e.weight);
            s.append("]");
            s
        };
        let low = copy_chars(e.low.as_slice());
        let x = Entry { addr: e.addr, name, weight: e.weight, low };
        assert(x@ =~= b[j as int]);
        out.push(x);
        j += 1;
    }
    assert(entry_models(out@) =~= b);
    out
}

fn copy_chars(s: &[char]) -> (r: Vec<char>)
    ensures
        r@ == s@,
{
    let mut r: Vec<char> = Vec::new();
    let mut i: usize = 0;
    while i < s.len()
        invariant
            i <= s@.len(),
            r@ == s@.take(i as int),
        decreases s@.len() - i,
    {
        r.push(s[i]);
        assert(s@.take(i + 1) =~= s@.take(i as int).push(s@[i as int]));
        i += 1;
    }
    assert(s@.take(s@.len() as int) =~= s@);
    r
}

/// The contacts by name.
pub fn rename_list(contacts: &Book<String>) -> (r: Vec<Entry>)
    ensures
        entry_models(r@) == ordered(
            contacts_by_unread(contacts.entries@, Map::<Address, u32>::empty()),
        ),
{
    let none: Book<u32> = Book::new();
    let sorted = contact_list(contacts, &none);
    proof {
        let o = ordered(contacts_by_unread(contacts.entries@, none@));
        lemma_weightless(contacts.entries@);
        ordered_list_is_in_order(contacts_by_unread(contacts.entries@, none@));
        lemma_ordered_weightless(contacts_by_unread(contacts.entries@, none@));
        assert(entry_models(sorted@) =~= o);
    }
    sorted
}

proof fn lemma_weightless(s: Seq<(Address, String)>)
    ensures
        forall|i: int|
            0 <= i < s.len() ==> (#[trigger] contacts_by_unread(
                s,
                Map::<Address, u32>::empty(),
            )[i]).weight == 0,
{
}

proof fn lemma_ordered_weightless(s: Seq<EntryModel>)
    requires
        forall|i: int| 0 <= i < s.len() ==> (#[trigger] s[i]).weight == 0,
    ensures
        forall|i: int| 0 <= i < ordered(s).len() ==> (#[trigger] ordered(s)[i]).weight == 0,
    decreases s.len(),
{
    if s.len() > 0 {
        let d = s.drop_last();
        assert forall|i: int| 0 <= i < d.len() implies (#[trigger] d[i]).weight == 0 by {
            assert(d[i] == s[i]);
        }
        lemma_ordered_weightless(d);
        let t = ordered(d);
        lemma_slot(t, s.last(), t.len() as int);
    }
}

/// Nodes that announced themselves and are not saved.
pub open spec fn unsaved(s: Seq<EntryModel>, saved: Map<Address, String>) -> Seq<EntryModel> {
    s.filter(|e: EntryModel| !saved.contains_key(e.addr))
}

/// Saved nodes, in the order of their addresses.
pub open spec fn saved_entries(s: Seq<(Address, String)>) -> Seq<EntryModel> {
    s.map_values(
        |e: (Address, String)|
            EntryModel { addr: e.0, name: e.1@, weight: 0, low: Seq::empty() },
    )
}

/// The nodes to browse: the saved ones, then the others, the latest announce first,
/// as many as a list takes.
pub fn node_list(saved: &Book<String>, seen: &Book<(String, u64)>) -> (r: Vec<Entry>)
    requires
        saved.wf(),
    ensures
        entry_models(r@) == first_of(
            saved_entries(saved.entries@) + ordered(unsaved(announced(seen.entries@), saved@)),
            ANNOUNCE_LIST_MAX as nat,
        ),
{
    let all = announced_entries(seen);
    let ghost a = announced(seen.entries@);
    let ghost keep = |e: EntryModel| !saved@.contains_key(e.addr);
    let mut fresh: Vec<Entry> = Vec::new();
    let mut i: usize = 0;
    assert(entry_models(fresh@) =~= a.take(0).filter(keep));
    while i < all.len()
        invariant
            i <= all@.len(),
            saved.wf(),
            a == entry_models(all@),
            keep == (|e: EntryModel| !saved@.contains_key(e.addr)),
            entry_models(fresh@) == a.take(i as int).filter(keep),
        decreases all@.len() - i,
    {
        let e = &all[i];
        proof {
            let t = a.take(i + 1);
            assert(t.drop_last() =~= a.take(i as int));
            assert(t.last() == e@);
            reveal(Seq::filter);
        }
        if !saved.contains(&e.addr) {
            let ghost f = entry_models(fresh@);
            let x = Entry {
                addr: e.addr,
                name: e.name.clone(),
                weight: e.weight,
                low: copy_chars(e.low.as_slice()),
            };
            assert(x@ =~= e@);
            fresh.push(x);
            assert(entry_models(fresh@) =~= f.push(e@));
        }
        i += 1;
    }
    assert(a.take(a.len() as int) =~= a);
    let mut sorted = order(fresh);
    let ghost o = entry_models(sorted@);
    let ghost sv = saved_entries(saved.entries@);
    let mut out: Vec<Entry> = Vec::new();
    let mut j: usize = 0;
    while j < saved.entries.len()
        invariant
            j <= saved.entries@.len(),
            sv == saved_entries(saved.entries@),
            out@.len() == j,
            forall|k: int| 0 <= k < j ==> (#[trigger] out@[k])@ == sv[k],
        decreases saved.entries@.len() - j,
    {
        let e = &saved.entries[j];
        let low: Vec<char> = Vec::new();
        assert(low@ =~= Seq::<char>::empty());
        let x = Entry { addr: e.0, name: e.1.clone(), weight: 0, low };
        assert(x@ == sv[j as int]);
        out.push(x);
        j += 1;
    }
    assert(entry_models(out@) =~= sv);
    let ghost first = out@;
    let ghost second = sorted@;
    out.append(&mut sorted);
    let ghost b = entry_models(out@);
    assert(b =~= sv + o);
    if out.len() > ANNOUNCE_LIST_MAX {
        out.truncate(ANNOUNCE_LIST_MAX);
        assert(entry_models(out@) =~= b.take(ANNOUNCE_LIST_MAX as int));
    }
    out
}

/// Addresses that came in messages, the newest first, each with who sent it.
pub open spec fn importable(s: Seq<FoundModel>) -> Seq<(Seq<u8>, Seq<char>)> {
    s.reverse().map_values(|x: FoundModel| (x.0, "from "@ + x.1))
}

/// The addresses that can be imported, the newest first.
pub fn import_list(found: &Vec<Found>) -> (r: Vec<Entry>)
    ensures
        r@.len() == found@.len(),
        forall|i: int|
            0 <= i < r@.len() ==> (#[trigger] r@[i]).addr@ == importable(found_models(found@))[i].0
                && r@[i].name@ == importable(found_models(found@))[i].1,
{
    let ghost want = importable(found_models(found@));
    let mut out: Vec<Entry> = Vec::new();
    let mut i: usize = found.len();
    while i > 0
        invariant
            i <= found@.len(),
            want == importable(found_models(found@)),
            out@.len() == found@.len() - i,
            forall|k: int|
                0 <= k < out@.len() ==> (#[trigger] out@[k]).addr@ == want[k].0 && out@[k].name@
                    == want[k].1,
        decreases i,
    {
        let e = &found[i - 1];
        let x = Entry {
            addr: e.0,
            name: join2("from ", e.1.as_str()),
            weight: 0,
            low: Vec::new(),
        };
        assert(want[found@.len() - i] == (e.0@, "from "@ + e.1@));
        out.push(x);
        i -= 1;
    }
    out
}

/// The label of an entry: its name and the start of its address.
pub open spec fn entry_label(e: EntryModel) -> Seq<char> {
    e.name + " ("@ + hex_text(e.addr@.take(4)) + ")"@
}

/// The label of an entry.
pub fn label(e: &Entry) -> (r: String)
    ensures
        r@ == entry_label(e@),
{
    let head = slice_subrange(e.addr.as_slice(), 0, 4);
    assert(head@ =~= e.addr@.take(4));
    let mut s = join2(e.name.as_str(), " (");
    let h = hex(head);
    s.append(h.as_str());
    s.append(")");
    s
}

/// The first entry from `i` on whose label is `choice`.
pub open spec fn picked_from(s: Seq<EntryModel>, choice: Seq<char>, i: int) -> Option<int>
    decreases s.len() - i,
{
    if i >= s.len() {
        None
    } else if entry_label(s[i]) == choice {
        Some(i)
    } else {
        picked_from(s, choice, i + 1)
    }
}

/// The entry that was chosen by its label; `cancel` is the label of the way out, which
/// stands first in the list.
pub fn pick_peer(entries: &Vec<Entry>, choice: &str, cancel: &str) -> (r: Option<usize>)
    ensures
        match r {
            Some(k) => choice@ != cancel@ && picked_from(entry_models(entries@), choice@, 0) == Some(
                k as int,
            ) && k < entries@.len(),
            None => choice@ == cancel@ || picked_from(
                entry_models(entries@),
                choice@,
                0,
            ) is None,
        },
{
    let c = chars_of(choice);
    let way_out = chars_of(cancel);
    if same_chars(c.as_slice(), way_out.as_slice()) {
        return None;
    }
    let ghost m = entry_models(entries@);
    let mut i: usize = 0;
    while i < entries.len()
        invariant
            i <= entries@.len(),
            m == entry_models(entries@),
            c@ == choice@,
            choice@ != cancel@,
            picked_from(m, choice@, 0) == picked_from(m, choice@, i as int),
        decreases entries@.len() - i,
    {
        assert(m[i as int] == entries@[i as int]@);
        let l = label(&entries[i]);
        let lc = chars_of(l.as_str());
        if same_chars(lc.as_slice(), c.as_slice()) {
            return Some(i);
        }
        i += 1;
    }
    None
}

// ---------------------------------------------------------------------------
// What the user types
// ---------------------------------------------------------------------------

/// The display name that was typed: trimmed and cut to its length; nothing where it
/// is empty or the name already.
pub fn new_display_name(typed: &str, current: &str) -> (r: Option<String>)
    ensures
        ({
            let name = within(trimmed(typed@), DISPLAY_NAME_MAX as nat);
            match r {
                Some(n) => n@ == name && name.len() > 0 && name != current@,
                None => name.len() == 0 || name == current@,
            }
        }),
{
    let t = chars_of(typed);
    let name = truncate_utf8(trim(t.as_slice()), DISPLAY_NAME_MAX);
    let c = chars_of(current);
    if name.len() == 0 || same_chars(name, c.as_slice()) {
        None
    } else {
        Some(string_of(name))
    }
}

/// The contact's name that was typed: trimmed; nothing where it is empty or the name
/// already.
pub fn new_contact_name(typed: &str, current: &str) -> (r: Option<String>)
    ensures
        ({
            let name = trimmed(typed@);
            match r {
                Some(n) => n@ == name && name.len() > 0 && name != current@,
                None => name.len() == 0 || name == current@,
            }
        }),
{
    let t = chars_of(typed);
    let name = trim(t.as_slice());
    let c = chars_of(current);
    if name.len() == 0 || same_chars(name, c.as_slice()) {
        None
    } else {
        Some(string_of(name))
    }
}

/// The name for an imported address: what was typed, trimmed, or the address.
pub fn imported_name(typed: &str, addr: &Address) -> (r: String)
    ensures
        r@ == (if trimmed(typed@).len() > 0 {
            trimmed(typed@)
        } else {
            hex_text(addr@)
        }),
{
    let t = chars_of(typed);
    let name = trim(t.as_slice());
    if name.len() == 0 {
        hex(addr.as_slice())
    } else {
        string_of(name)
    }
}

/// The parts before and after the last colon.
pub open spec fn at_last_colon(s: Seq<char>) -> Option<(Seq<char>, Seq<char>)> {
    let k = crate::connection::last_before(s, ':', s.len() as int);
    if k < 0 {
        None
    } else {
        Some((s.take(k), s.skip(k + 1)))
    }
}

/// The parts before and after the last colon.
fn split_last_colon(s: &[char]) -> (r: Option<(Vec<char>, Vec<char>)>)
    ensures
        match r {
            Some((a, b)) => at_last_colon(s@) == Some((a@, b@)),
            None => at_last_colon(s@) is None,
        },
{
    let mut n: usize = s.len();
    while n > 0 && s[n - 1] != ':'
        invariant
            n <= s@.len(),
            crate::connection::last_before(s@, ':', n as int) == crate::connection::last_before(
                s@,
                ':',
                s@.len() as int,
            ),
        decreases n,
    {
        n -= 1;
    }
    if n == 0 {
        return None;
    }
    let a = slice_subrange(s, 0, n - 1);
    let b = slice_subrange(s, n, s.len());
    assert(a@ =~= s@.take(n - 1));
    assert(b@ =~= s@.skip(n as int));
    Some((copy_chars(a), copy_chars(b)))
}

/// What came of setting the hub.
pub enum HubInput {
    Hub(String),
    /// The host is empty.
    NoHost,
    /// This is no port.
    BadPort(String),
}

/// The host of the hub as it is set.
pub open spec fn hub_host(hub: Seq<char>) -> Seq<char> {
    match at_last_colon(hub) {
        Some((h, _)) => h,
        None => hub,
    }
}

/// The host and port that were typed: an empty host keeps the one that is set, an empty
/// port is the usual one, and a colon in the host parts off a port.
pub open spec fn hub_typed(hub: Seq<char>, host: Seq<char>, port: Seq<char>) -> (
    Seq<char>,
    Seq<char>,
) {
    let h = if trimmed(host).len() == 0 {
        hub_host(hub)
    } else {
        trimmed(host)
    };
    let p = if trimmed(port).len() == 0 {
        "4242"@
    } else {
        trimmed(port)
    };
    match at_last_colon(h) {
        Some((a, b)) => (a, b),
        None => (h, p),
    }
}

/// A port: a number from one to 65535.
pub open spec fn is_port(p: Seq<char>) -> bool {
    match decimal_up_to(p, 65535) {
        Some(n) => n > 0,
        None => false,
    }
}

/// Sets the hub from what was typed into the fields for host and port.
pub fn hub_from_input(hub: &str, host: &str, port: &str) -> (r: HubInput)
    ensures
        ({
            let (h, p) = hub_typed(hub@, host@, port@);
            match r {
                HubInput::NoHost => h.len() == 0,
                HubInput::BadPort(bad) => h.len() > 0 && !is_port(p) && bad@ == p,
                HubInput::Hub(s) => h.len() > 0 && is_port(p) && s@ == h + ":"@ + p,
            }
        }),
{
    let hub_chars = chars_of(hub);
    let cur_host = match split_last_colon(hub_chars.as_slice()) {
        Some((h, _)) => h,
        None => hub_chars,
    };
    let host_chars = chars_of(host);
    let port_chars = chars_of(port);
    let typed_host = trim(host_chars.as_slice());
    let typed_port = trim(port_chars.as_slice());
    let h0 = if typed_host.len() == 0 {
        cur_host
    } else {
        copy_chars(typed_host)
    };
    let p0 = if typed_port.len() == 0 {
        chars_of("4242")
    } else {
        copy_chars(typed_port)
    };
    let (h, p) = match split_last_colon(h0.as_slice()) {
        Some((a, b)) => (a, b),
        None => (h0, p0),
    };
    if h.len() == 0 {
        return HubInput::NoHost;
    }
    let ok = match parse_decimal(p.as_slice(), 65535) {
        Some(n) => n > 0,
        None => false,
    };
    let port_text = string_of(p.as_slice());
    if !ok {
        return HubInput::BadPort(port_text);
    }
    HubInput::Hub(join3(string_of(h.as_slice()).as_str(), ":", port_text.as_str()))
}

/// A hub that was set is one that can be dialled, with the host and port that were
/// typed.
pub proof fn hub_that_was_set_can_be_dialled(h: Seq<char>, p: Seq<char>)
    requires
        is_port(p),
        !p.contains(':'),
    ensures
        crate::connection::hub_parts(h + seq![':'] + p) == Some((h, decimal_up_to(p, 65535)->0)),
{
    let hub = h + seq![':'] + p;
    lemma_last_colon(h, p, p.len() as int);
    assert(hub.take(h.len() as int) =~= h);
    assert(hub.skip(h.len() as int + 1) =~= p);
}

proof fn lemma_last_colon(h: Seq<char>, p: Seq<char>, n: int)
    requires
        !p.contains(':'),
        0 <= n <= p.len(),
    ensures
        crate::connection::last_before(h + seq![':'] + p, ':', h.len() + 1 + n) == h.len(),
    decreases n,
{
    let hub = h + seq![':'] + p;
    if n > 0 {
        assert(hub[h.len() + n] == p[n - 1]);
        assert(p.contains(p[n - 1]));
        lemma_last_colon(h, p, n - 1);
    } else {
        assert(hub[h.len() as int] == ':');
    }
}

/// The stamp cost that is configured, thirteen where it is no number.
pub fn propagation_cost(configured: &str) -> (r: u32)
    ensures
        r == (match decimal_up_to(configured@, 0xffff_ffff) {
            Some(n) => n,
            None => 13,
        }),
{
    let c = chars_of(configured);
    match parse_decimal(c.as_slice(), 0xffff_ffff) {
        Some(n) => n as u32,
        None => 13,
    }
}

/// The propagation node that is configured, if there is one.
pub fn propagation_node(configured: &str) -> (r: Option<Address>)
    ensures
        match r {
            Some(a) => crate::address::address_written(configured@) == Some(a@),
            None => configured@.len() == 0 || crate::address::address_written(
                configured@,
            ) is None,
        },
{
    if configured.is_empty() {
        return None;
    }
    crate::address::parse_addr(configured)
}

} // verus!
