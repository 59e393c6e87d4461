//! The lists that are picked from: their order, their length and what their entries
//! say.
use vstd::prelude::*;

use crate::address::Address;
use crate::hex::hex_text;
use crate::picker::{
    ahead, announced, badged, contacts_by_unread, earlier, entry_label, first_of, importable,
    lowercase_of, ordered, picked_from, saved_entries, slot, unsaved, EntryModel,
};
use crate::storage::FoundModel;
use crate::text::decimal_text;

verus! {

/// Names stand as in a dictionary, by the first character that differs; what a name
/// begins with comes before it.
pub proof fn names_stand_as_in_a_dictionary(
    same: Seq<char>,
    c: char,
    x: Seq<char>,
    d: char,
    y: Seq<char>,
)
    requires
        c != d,
    ensures
        !earlier(same, same),
        earlier(same, same.push(c) + x),
        !earlier(same.push(c) + x, same),
        earlier(same.push(c) + x, same.push(d) + y) <==> (c as u32) < (d as u32),
    decreases same.len(),
{
    let a = same.push(c) + x;
    let b = same.push(d) + y;
    if same.len() == 0 {
        assert(a[0] == c && b[0] == d);
    } else {
        names_stand_as_in_a_dictionary(same.skip(1), c, x, d, y);
        assert(a.skip(1) =~= same.skip(1).push(c) + x);
        assert(b.skip(1) =~= same.skip(1).push(d) + y);
        assert(a[0] == same[0] && b[0] == same[0]);
    }
}

/// An entry comes ahead by its weight, and among equals by its name in lower case.
pub proof fn weight_comes_before_name(a: EntryModel, b: EntryModel)
    ensures
        a.weight > b.weight ==> ahead(a, b) && !ahead(b, a),
        a.weight == b.weight ==> (ahead(a, b) <==> earlier(a.low, b.low)),
{
}

/// Putting a list in order keeps entries that tie in the order they had: a new one goes
/// in behind all that it does not come ahead of.
pub proof fn ties_keep_their_order(s: Seq<EntryModel>, e: EntryModel)
    ensures
        ordered(Seq::empty()) == Seq::<EntryModel>::empty(),
        ({
            let t = ordered(s);
            let k = slot(t, e, t.len() as int);
            &&& 0 <= k <= t.len()
            &&& ordered(s.push(e)) == t.insert(k, e)
            &&& k > 0 ==> !ahead(e, t[k - 1])
            &&& forall|i: int| k <= i < t.len() ==> ahead(e, #[trigger] t[i])
        }),
{
    assert(s.push(e).drop_last() =~= s);
    let t = ordered(s);
    lemma_slot(t, e, t.len() as int);
}

proof fn lemma_slot(t: Seq<EntryModel>, e: EntryModel, n: int)
    requires
        0 <= n <= t.len(),
    ensures
        ({
            let k = slot(t, e, n);
            &&& 0 <= k <= n
            &&& k > 0 ==> !ahead(e, t[k - 1])
            &&& forall|i: int| k <= i < n ==> ahead(e, #[trigger] t[i])
        }),
    decreases n,
{
    if n > 0 && ahead(e, t[n - 1]) {
        lemma_slot(t, e, n - 1);
    }
}

/// Announced peers weigh by when they were heard, contacts by their unread messages and
/// among equals by their names; each entry keeps its address and its name.
pub proof fn entries_weigh(
    heard: Seq<(Address, (String, u64))>,
    contacts: Seq<(Address, String)>,
    unread: Map<Address, u32>,
    k: int,
)
    ensures
        announced(heard).len() == heard.len(),
        contacts_by_unread(contacts, unread).len() == contacts.len(),
        saved_entries(contacts).len() == contacts.len(),
        0 <= k < heard.len() ==> {
            let e = announced(heard)[k];
            e.addr == heard[k].0 && e.name == heard[k].1.0@ && e.weight == heard[k].1.1
                && e.low.len() == 0
        },
        0 <= k < contacts.len() ==> {
            let e = contacts_by_unread(contacts, unread)[k];
            let a = contacts[k].0;
            &&& e.addr == a && e.name == contacts[k].1@ && e.low == lowercase_of(contacts[k].1@)
            &&& unread.contains_key(a) ==> e.weight == unread[a]
            &&& !unread.contains_key(a) ==> e.weight == 0
        },
        0 <= k < contacts.len() ==> {
            let e = saved_entries(contacts)[k];
            e.addr == contacts[k].0 && e.name == contacts[k].1@ && e.weight == 0
        },
{
}

/// A list is cut to its first entries.
pub proof fn a_list_is_cut_at_the_end(s: Seq<EntryModel>, n: nat)
    ensures
        s.len() <= n ==> first_of(s, n) == s,
        s.len() > n ==> first_of(s, n) == s.subrange(0, n as int),
{
    if s.len() > n {
        assert(s.take(n as int) =~= s.subrange(0, n as int));
    }
}

/// Nodes that are saved are not listed as announced.
pub proof fn saved_nodes_are_listed_once(
    s: Seq<EntryModel>,
    e: EntryModel,
    saved: Map<Address, String>,
)
    ensures
        unsaved(Seq::empty(), saved) == Seq::<EntryModel>::empty(),
        unsaved(s.push(e), saved) == (if saved.contains_key(e.addr) {
            unsaved(s, saved)
        } else {
            unsaved(s, saved).push(e)
        }),
{
    reveal(Seq::filter);
    assert(s.push(e).drop_last() =~= s);
}

/// Addresses that were found are offered the newest first, each with whom it came from.
pub proof fn the_newest_found_comes_first(s: Seq<FoundModel>, k: int)
    requires
        0 <= k < s.len(),
    ensures
        importable(s).len() == s.len(),
        importable(s)[k].0 == s[s.len() - 1 - k].0,
        importable(s)[k].1 == seq!['f', 'r', 'o', 'm', ' '] + s[s.len() - 1 - k].1,
{
    reveal_strlit("from ");
    assert("from "@ =~= seq!['f', 'r', 'o', 'm', ' ']);
}

/// An entry says its name and the first eight digits of its address; a name with unread
/// messages bears their number.
pub proof fn entries_say(e: EntryModel, name: Seq<char>, n: u64)
    ensures
        entry_label(e) == e.name + seq![' ', '('] + hex_text(e.addr@).take(8) + seq![')'],
        badged(name, 0) == name,
        n > 0 ==> badged(name, n) == name + seq![' ', '['] + decimal_text(n as nat) + seq![']'],
{
    reveal_strlit(" (");
    reveal_strlit(")");
    reveal_strlit(" [");
    reveal_strlit("]");
    assert(" ("@ =~= seq![' ', '(']);
    assert(")"@ =~= seq![')']);
    assert(" ["@ =~= seq![' ', '[']);
    assert("]"@ =~= seq![']']);
    assert(e.addr@.len() == 16);
    assert(hex_text(e.addr@.take(4)) =~= hex_text(e.addr@).take(8));
}

/// What is picked is the first entry that says so.
pub proof fn the_first_such_entry_is_picked(s: Seq<EntryModel>, choice: Seq<char>, i: int)
    requires
        0 <= i <= s.len(),
    ensures
        match picked_from(s, choice, i) {
            Some(k) => {
                &&& i <= k < s.len()
                &&& entry_label(s[k]) == choice
                &&& forall|j: int| i <= j < k ==> entry_label(#[trigger] s[j]) != choice
            },
            None => forall|j: int| i <= j < s.len() ==> entry_label(#[trigger] s[j]) != choice,
        },
    decreases s.len() - i,
{
    if i < s.len() && entry_label(s[i]) != choice {
        the_first_such_entry_is_picked(s, choice, i + 1);
    }
}

} // verus!
