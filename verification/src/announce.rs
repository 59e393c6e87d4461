//! What an announce says of its sender: a name and a stamp cost.
use vstd::prelude::*;

use crate::address::Address;
use crate::hex::{hex, hex_text};
use crate::msgpack::{decode, decoded, Model, Value};
use crate::text::{chars_of, lossy_string, string_of, text_of, trim, trimmed};

verus! {

/// The data is an array in MessagePack, not a bare name.
pub open spec fn is_packed(app_data: Seq<u8>) -> bool {
    app_data.len() > 0 && (0x90 <= app_data[0] <= 0x9f || app_data[0] == 0xdc)
}

/// The elements of packed data.
pub open spec fn elements(app_data: Seq<u8>) -> Option<Seq<Model>> {
    match decoded(app_data, 0) {
        Ok((Model::Array(a), _)) => Some(a),
        _ => None,
    }
}

/// The name as it was announced: the first element of packed data, else the data
/// itself.
pub open spec fn raw_name(app_data: Seq<u8>) -> Option<Seq<char>> {
    if !is_packed(app_data) {
        Some(text_of(app_data))
    } else {
        match elements(app_data) {
            Some(a) => if a.len() == 0 {
                None
            } else {
                match a[0] {
                    Model::Bin(b) => Some(text_of(b)),
                    Model::Str(s) => Some(s),
                    _ => None,
                }
            },
            None => None,
        }
    }
}

/// `s` without its zero characters.
pub open spec fn without_zeros(s: Seq<char>) -> Seq<char> {
    s.filter(|c: char| c != '\0')
}

/// The display name in the data of a delivery announce, if there is a usable one.
pub open spec fn display_name(app_data: Seq<u8>) -> Option<Seq<char>> {
    if app_data.len() == 0 {
        None
    } else {
        match raw_name(app_data) {
            Some(raw) => {
                let name = trimmed(without_zeros(raw));
                if name.len() == 0 {
                    None
                } else {
                    Some(name)
                }
            },
            None => None,
        }
    }
}

/// The characters of `s` but for the zero characters.
fn drop_zeros(s: &[char]) -> (r: Vec<char>)
    ensures
        r@ == without_zeros(s@),
{
    let ghost keep = |c: char| c != '\0';
    let mut r: Vec<char> = Vec::new();
    let mut i: usize = 0;
    assert(s@.take(0).filter(keep) =~= Seq::<char>::empty());
    while i < s.len()
        invariant
            i <= s@.len(),
            keep == (|c: char| c != '\0'),
            r@ == s@.take(i as int).filter(keep),
        decreases s@.len() - i,
    {
        proof {
            let t = s@.take(i + 1);
            assert(t.drop_last() =~= s@.take(i as int));
            assert(t.last() == s@[i as int]);
            reveal(Seq::filter);
        }
        if s[i] != '\0' {
            r.push(s[i]);
        }
        i += 1;
    }
    assert(s@.take(s@.len() as int) =~= s@);
    r
}

fn is_packed_data(app_data: &[u8]) -> (r: bool)
    ensures
        r == is_packed(app_data@),
{
    app_data.len() > 0 && ((0x90 <= app_data[0] && app_data[0] <= 0x9f) || app_data[0] == 0xdc)
}

fn announced_name(app_data: &[u8]) -> (r: Option<String>)
    ensures
        match r {
            Some(s) => raw_name(app_data@) == Some(s@),
            None => raw_name(app_data@) is None,
        },
{
    if !is_packed_data(app_data) {
        return Some(lossy_string(app_data));
    }
    match decode(app_data) {
        Ok(Value::Array(a)) => {
            let ghost m = Value::Array(a)@->Array_0;
            if a.len() == 0 {
                return None;
            }
            assert(m[0] == a@[0]@);
            match &a[0] {
                Value::Bin(b) => Some(lossy_string(b.as_slice())),
                Value::Str(s) => Some(s.clone()),
                _ => None,
            }
        },
        _ => None,
    }
}

/// The display name in the data of a delivery announce.
pub fn lxmf_display_name(app_data: &[u8]) -> (r: Option<String>)
    ensures
        match r {
            Some(s) => display_name(app_data@) == Some(s@),
            None => display_name(app_data@) is None,
        },
{
    if app_data.len() == 0 {
        return None;
    }
    match announced_name(app_data) {
        Some(raw) => {
            let chars = chars_of(raw.as_str());
            let kept = drop_zeros(chars.as_slice());
            let name = trim(kept.as_slice());
            if name.len() == 0 {
                None
            } else {
                Some(string_of(name))
            }
        },
        None => None,
    }
}

/// The stamp cost in the data of a delivery announce: the second element of packed
/// data, if it is a positive integer; its lowest 32 bits count.
pub open spec fn stamp_cost(app_data: Seq<u8>) -> Option<u32> {
    if !is_packed(app_data) {
        None
    } else {
        match elements(app_data) {
            Some(a) => if a.len() < 2 {
                None
            } else {
                match a[1] {
                    Model::Int(c) => if c > 0 {
                        Some(c as u32)
                    } else {
                        None
                    },
                    _ => None,
                }
            },
            None => None,
        }
    }
}

/// The stamp cost in the data of a delivery announce.
pub fn lxmf_stamp_cost(app_data: &[u8]) -> (r: Option<u32>)
    ensures
        r == stamp_cost(app_data@),
{
    if !is_packed_data(app_data) {
        return None;
    }
    match decode(app_data) {
        Ok(Value::Array(a)) => {
            let ghost m = Value::Array(a)@->Array_0;
            if a.len() < 2 {
                return None;
            }
            assert(m[1] == a@[1]@);
            match &a[1] {
                Value::Int(c) => if *c > 0 {
                    Some(#[verifier::truncate] (*c as u32))
                } else {
                    None
                },
                _ => None,
            }
        },
        _ => None,
    }
}

/// The name of a node that serves pages: the announced data as text, trimmed, or
/// the node's address where that is empty.
pub open spec fn announced_node_name(app_data: Seq<u8>, node: Seq<u8>) -> Seq<char> {
    let name = trimmed(text_of(app_data));
    if name.len() == 0 {
        hex_text(node)
    } else {
        name
    }
}

/// The name of a node that serves pages.
pub fn node_name(app_data: &[u8], node: &Address) -> (r: String)
    ensures
        r@ == announced_node_name(app_data@, node@),
{
    let text = lossy_string(app_data);
    let chars = chars_of(text.as_str());
    let name = trim(chars.as_slice());
    if name.len() == 0 {
        hex(node.as_slice())
    } else {
        string_of(name)
    }
}

} // verus!
