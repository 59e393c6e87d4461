//! MessagePack for the types that LXMF uses: nil, booleans, integers, doubles,
//! strings, byte strings, arrays, and maps with integer keys.
use vstd::prelude::*;
use vstd::slice::slice_subrange;
use vstd::utf8::*;

use crate::bytes::{
    be, be_reads_back, lemma_pow256, of_be, of_be_writes_back, pow256, push_all, push_be, read_be,
    to_vec,
};
use crate::float::{double_of_int, int_to_double, widen, widened};
use crate::text::{lossy_string, text_of, text_reads_back};

verus! {

#[derive(Debug, PartialEq)]
pub enum Value {
    Nil,
    Bool(bool),
    Int(i64),
    /// A double, as its IEEE 754 bit pattern.
    F64(u64),
    Str(String),
    Bin(Vec<u8>),
    Array(Vec<Value>),
    /// A map with integer keys (LXMF field keys are small integers).
    Dict(IntMap),
    /// A map with string keys, in the author's order; it is written only, the
    /// decoder takes integer keys alone. Used for the data of a request, such as
    /// a page's variables.
    StrMap(Vec<(String, Value)>),
}

/// A map with integer keys: its entries by ascending key, each key once.
#[derive(Debug, PartialEq)]
pub struct IntMap {
    pub entries: Vec<(i64, Value)>,
}

/// A value as plain mathematics; a map is its entries by ascending key.
#[verifier::ext_equal]
pub enum Model {
    Nil,
    Bool(bool),
    Int(i64),
    F64(u64),
    Str(Seq<char>),
    Bin(Seq<u8>),
    Array(Seq<Model>),
    Dict(Seq<(i64, Model)>),
    StrMap(Seq<(Seq<char>, Model)>),
}

/// The model of a value.
pub open spec fn model(v: Value) -> Model
    decreases v,
{
    match v {
        Value::Nil => Model::Nil,
        Value::Bool(b) => Model::Bool(b),
        Value::Int(n) => Model::Int(n),
        Value::F64(f) => Model::F64(f),
        Value::Str(s) => Model::Str(s@),
        Value::Bin(b) => Model::Bin(b@),
        Value::Array(a) => Model::Array(
            Seq::new(
                a@.len(),
                |i: int|
                    if 0 <= i < a@.len() {
                        model(a@[i])
                    } else {
                        Model::Nil
                    },
            ),
        ),
        Value::Dict(m) => Model::Dict(
            Seq::new(
                m.entries@.len(),
                |i: int|
                    if 0 <= i < m.entries@.len() {
                        (m.entries@[i].0, model(m.entries@[i].1))
                    } else {
                        (0i64, Model::Nil)
                    },
            ),
        ),
        Value::StrMap(m) => Model::StrMap(
            Seq::new(
                m@.len(),
                |i: int|
                    if 0 <= i < m@.len() {
                        (m@[i].0@, model(m@[i].1))
                    } else {
                        (Seq::empty(), Model::Nil)
                    },
            ),
        ),
    }
}

impl View for Value {
    type V = Model;

    open spec fn view(&self) -> Model {
        model(*self)
    }
}

impl View for IntMap {
    type V = Seq<(i64, Model)>;

    open spec fn view(&self) -> Seq<(i64, Model)> {
        Seq::new(
            self.entries@.len(),
            |i: int|
                if 0 <= i < self.entries@.len() {
                    (self.entries@[i].0, model(self.entries@[i].1))
                } else {
                    (0i64, Model::Nil)
                },
        )
    }
}

/// Keys ascend, so each stands once.
pub open spec fn ascending(m: Seq<(i64, Model)>) -> bool {
    forall|i: int, j: int| 0 <= i < j < m.len() ==> (#[trigger] m[i]).0 < (#[trigger] m[j]).0
}

/// The map with `v` under the key `k`, in place of what stood there.
pub open spec fn put(m: Seq<(i64, Model)>, k: i64, v: Model) -> Seq<(i64, Model)>
    decreases m.len(),
{
    if m.len() == 0 {
        seq![(k, v)]
    } else if k < m[0].0 {
        seq![(k, v)] + m
    } else if k == m[0].0 {
        m.update(0, (k, v))
    } else {
        seq![m[0]] + put(m.skip(1), k, v)
    }
}

/// What stands under the key `k`.
pub open spec fn lookup(m: Seq<(i64, Model)>, k: i64) -> Option<Model>
    decreases m.len(),
{
    if m.len() == 0 {
        None
    } else if m[0].0 == k {
        Some(m[0].1)
    } else {
        lookup(m.skip(1), k)
    }
}

/// Where a key stands or would stand.
proof fn lemma_put(m: Seq<(i64, Model)>, k: i64, v: Model, p: int)
    requires
        0 <= p <= m.len(),
        forall|i: int| 0 <= i < p ==> (#[trigger] m[i]).0 < k,
        p < m.len() ==> k <= m[p].0,
    ensures
        put(m, k, v) == if p < m.len() && m[p].0 == k {
            m.update(p, (k, v))
        } else {
            m.insert(p, (k, v))
        },
    decreases m.len(),
{
    if m.len() == 0 {
        assert(put(m, k, v) =~= m.insert(p, (k, v)));
    } else if p == 0 {
        if k < m[0].0 {
            assert(seq![(k, v)] + m =~= m.insert(0, (k, v)));
        }
    } else {
        let t = m.skip(1);
        assert(m[0].0 < k);
        assert forall|i: int| 0 <= i < p - 1 implies (#[trigger] t[i]).0 < k by {
            assert(t[i] == m[i + 1]);
        }
        lemma_put(t, k, v, p - 1);
        if p < m.len() && m[p].0 == k {
            assert(seq![m[0]] + t.update(p - 1, (k, v)) =~= m.update(p, (k, v)));
        } else {
            assert(seq![m[0]] + t.insert(p - 1, (k, v)) =~= m.insert(p, (k, v)));
        }
    }
}

impl IntMap {
    /// Keys ascend, so each stands once.
    pub open spec fn wf(&self) -> bool {
        ascending(self@)
    }

    /// The map with nothing in it.
    pub fn new() -> (r: IntMap)
        ensures
            r@ == Seq::<(i64, Model)>::empty(),
            r.wf(),
    {
        let r = IntMap { entries: Vec::new() };
        assert(r@ =~= Seq::<(i64, Model)>::empty());
        r
    }

    pub fn len(&self) -> (r: usize)
        ensures
            r == self@.len(),
    {
        self.entries.len()
    }

    pub fn is_empty(&self) -> (r: bool)
        ensures
            r == (self@.len() == 0),
    {
        self.entries.len() == 0
    }

    /// The index of the first key not under `k`.
    fn place(&self, k: i64) -> (p: usize)
        requires
            self.wf(),
        ensures
            p <= self.entries@.len(),
            forall|i: int| 0 <= i < p ==> (#[trigger] self@[i]).0 < k,
            p < self.entries@.len() ==> k <= self@[p as int].0,
    {
        let mut p: usize = 0;
        while p < self.entries.len() && self.entries[p].0 < k
            invariant
                p <= self.entries@.len(),
                forall|i: int| 0 <= i < p ==> (#[trigger] self@[i]).0 < k,
            decreases self.entries@.len() - p,
        {
            p += 1;
        }
        p
    }

    /// Puts `v` under the key `k`.
    pub fn insert(&mut self, k: i64, v: Value)
        requires
            old(self).wf(),
        ensures
            final(self).wf(),
            final(self)@ == put(old(self)@, k, v@),
    {
        let ghost m = self@;
        let p = self.place(k);
        proof {
            lemma_put(m, k, v@, p as int);
        }
        if p < self.entries.len() && self.entries[p].0 == k {
            let ghost e0 = self.entries@;
            self.entries.set(p, (k, v));
            assert(self.entries@ == e0.update(p as int, (k, v)));
            assert(self@ =~= m.update(p as int, (k, v@)));
        } else {
            let ghost e0 = self.entries@;
            self.entries.insert(p, (k, v));
            assert(self.entries@ == e0.insert(p as int, (k, v)));
            assert(self@ =~= m.insert(p as int, (k, v@)));
            assert forall|i: int, j: int| 0 <= i < j < self@.len() implies (#[trigger] self@[i]).0
                < (#[trigger] self@[j]).0 by {
                let i0 = if i < p {
                    i
                } else {
                    i - 1
                };
                let j0 = if j < p {
                    j
                } else {
                    j - 1
                };
                if i != p && j != p {
                    assert(m[i0].0 < m[j0].0);
                } else if j == p {
                    assert(m[i].0 < k);
                } else {
                    assert(p < m.len());
                    if j0 > p {
                        assert(m[p as int].0 < m[j0].0);
                    }
                }
            }
        }
    }

    /// What stands under the key `k`.
    pub fn get(&self, k: i64) -> (r: Option<&Value>)
        ensures
            match r {
                Some(v) => lookup(self@, k) == Some(v@),
                None => lookup(self@, k) is None,
            },
    {
        let mut i: usize = 0;
        assert(self@.skip(0) =~= self@);
        while i < self.entries.len()
            invariant
                i <= self.entries@.len(),
                lookup(self@, k) == lookup(self@.skip(i as int), k),
            decreases self.entries@.len() - i,
        {
            assert(self@.skip(i as int)[0] == self@[i as int]);
            assert(self@.skip(i as int).skip(1) =~= self@.skip(i + 1));
            if self.entries[i].0 == k {
                return Some(&self.entries[i].1);
            }
            i += 1;
        }
        None
    }
}

/// What was put under a key is found there, and nothing else changes.
pub proof fn found_after_put(m: Seq<(i64, Model)>, k: i64, v: Model, other: i64)
    requires
        ascending(m),
    ensures
        lookup(put(m, k, v), k) == Some(v),
        other != k ==> lookup(put(m, k, v), other) == lookup(m, other),
    decreases m.len(),
{
    let t = m.skip(1);
    if m.len() == 0 {
        assert(put(m, k, v).skip(1) =~= m);
    } else if k < m[0].0 {
        assert(put(m, k, v).skip(1) =~= m);
    } else if k == m[0].0 {
        assert(put(m, k, v).skip(1) =~= t);
    } else {
        assert forall|i: int, j: int| 0 <= i < j < t.len() implies (#[trigger] t[i]).0 < (
        #[trigger] t[j]).0 by {
            assert(t[i] == m[i + 1] && t[j] == m[j + 1]);
        }
        found_after_put(t, k, v, other);
        assert(put(m, k, v).skip(1) =~= put(t, k, v));
    }
}

/// The bytes of a byte string or of a string.
pub open spec fn bin_of(m: Model) -> Option<Seq<u8>> {
    match m {
        Model::Bin(b) => Some(b),
        Model::Str(s) => Some(encode_utf8(s)),
        _ => None,
    }
}

/// The bits of a double, or of the double nearest to an integer.
pub open spec fn double_of(m: Model) -> Option<nat> {
    match m {
        Model::F64(f) => Some(f as nat),
        Model::Int(n) => Some(double_of_int(n as int)),
        _ => None,
    }
}

impl Value {
    /// The bytes of a byte string or of a string.
    pub fn as_bin(&self) -> (r: Option<&[u8]>)
        ensures
            match r {
                Some(b) => bin_of(self@) == Some(b@),
                None => bin_of(self@) is None,
            },
    {
        match self {
            Value::Bin(b) => Some(b.as_slice()),
            Value::Str(s) => Some(s.as_str().as_bytes()),
            _ => None,
        }
    }

    /// The bits of a double, or of the double nearest to an integer.
    pub fn as_f64(&self) -> (r: Option<u64>)
        ensures
            match r {
                Some(f) => double_of(self@) == Some(f as nat),
                None => double_of(self@) is None,
            },
    {
        match self {
            Value::F64(f) => Some(*f),
            Value::Int(n) => Some(int_to_double(*n)),
            _ => None,
        }
    }

    /// The elements of an array.
    pub fn as_array(&self) -> (r: Option<&[Value]>)
        ensures
            match r {
                Some(a) => self@ == Model::Array(Seq::new(a@.len(), |i: int| a@[i]@)),
                None => !(self@ is Array),
            },
    {
        match self {
            Value::Array(a) => {
                assert(self@->Array_0 =~= Seq::new(a@.len(), |i: int| a@[i]@));
                Some(a.as_slice())
            },
            _ => None,
        }
    }
}

#[verifier::loop_isolation(false)]
fn copied(v: &Value) -> (r: Value)
    ensures
        r@ == v@,
    decreases v,
{
    match v {
        Value::Nil => Value::Nil,
        Value::Bool(b) => Value::Bool(*b),
        Value::Int(n) => Value::Int(*n),
        Value::F64(f) => Value::F64(*f),
        Value::Str(s) => Value::Str(s.clone()),
        Value::Bin(b) => Value::Bin(to_vec(b.as_slice())),
        Value::Array(a) => {
            let mut c: Vec<Value> = Vec::new();
            let mut i: usize = 0;
            while i < a.len()
                invariant
                    i <= a@.len(),
                    c@.len() == i,
                    *v == Value::Array(*a),
                    forall|k: int| 0 <= k < i ==> (#[trigger] c@[k])@ == a@[k]@,
                decreases a@.len() - i,
            {
                assert(decreases_to!(*a => a[i as int]));
                c.push(copied(&a[i]));
                i += 1;
            }
            let r = Value::Array(c);
            assert(r@->Array_0 =~= v@->Array_0);
            r
        },
        Value::Dict(m) => {
            let mut c: Vec<(i64, Value)> = Vec::new();
            let mut i: usize = 0;
            while i < m.entries.len()
                invariant
                    i <= m.entries@.len(),
                    c@.len() == i,
                    *v == Value::Dict(*m),
                    forall|k: int|
                        0 <= k < i ==> (#[trigger] c@[k]).0 == m.entries@[k].0 && c@[k].1@
                            == m.entries@[k].1@,
                decreases m.entries@.len() - i,
            {
                let e = &m.entries[i];
                assert(decreases_to!(m.entries => m.entries[i as int]));
                c.push((e.0, copied(&e.1)));
                i += 1;
            }
            let r = Value::Dict(IntMap { entries: c });
            assert(r@->Dict_0 =~= v@->Dict_0);
            r
        },
        Value::StrMap(m) => {
            let mut c: Vec<(String, Value)> = Vec::new();
            let mut i: usize = 0;
            while i < m.len()
                invariant
                    i <= m@.len(),
                    c@.len() == i,
                    *v == Value::StrMap(*m),
                    forall|k: int|
                        0 <= k < i ==> (#[trigger] c@[k]).0@ == m@[k].0@ && c@[k].1@ == m@[k].1@,
                decreases m@.len() - i,
            {
                let e = &m[i];
                assert(decreases_to!(*m => m[i as int]));
                c.push((e.0.clone(), copied(&e.1)));
                i += 1;
            }
            let r = Value::StrMap(c);
            assert(r@->StrMap_0 =~= v@->StrMap_0);
            r
        },
    }
}

impl Clone for IntMap {
    fn clone(&self) -> (r: IntMap)
        ensures
            r@ == self@,
    {
        let mut c: Vec<(i64, Value)> = Vec::new();
        let mut i: usize = 0;
        while i < self.entries.len()
            invariant
                i <= self.entries@.len(),
                c@.len() == i,
                forall|k: int|
                    0 <= k < i ==> (#[trigger] c@[k]).0 == self.entries@[k].0 && c@[k].1@
                        == self.entries@[k].1@,
            decreases self.entries@.len() - i,
        {
            let e = &self.entries[i];
            c.push((e.0, copied(&e.1)));
            i += 1;
        }
        let r = IntMap { entries: c };
        assert(r@ =~= self@);
        r
    }
}

impl Clone for Value {
    fn clone(&self) -> (r: Value)
        ensures
            r@ == self@,
    {
        copied(self)
    }
}

// ---------------------------------------------------------------------------
// Writing
// ---------------------------------------------------------------------------

/// The shortest form of an integer.
pub open spec fn int_bytes(n: int) -> Seq<u8> {
    if 0 <= n < 0x80 {
        seq![n as u8]
    } else if 0 <= n <= 0xff {
        seq![0xccu8] + be(n as nat, 1)
    } else if 0 <= n <= 0xffff {
        seq![0xcdu8] + be(n as nat, 2)
    } else if 0 <= n <= 0xffff_ffff {
        seq![0xceu8] + be(n as nat, 4)
    } else if 0 <= n {
        seq![0xcfu8] + be(n as nat, 8)
    } else if n >= -32 {
        seq![(n + 0x100) as u8]
    } else if n >= -0x80 {
        seq![0xd0u8] + be((n + 0x100) as nat, 1)
    } else if n >= -0x8000 {
        seq![0xd1u8] + be((n + 0x1_0000) as nat, 2)
    } else if n >= -0x8000_0000 {
        seq![0xd2u8] + be((n + 0x1_0000_0000) as nat, 4)
    } else {
        seq![0xd3u8] + be((n + 0x1_0000_0000_0000_0000) as nat, 8)
    }
}

/// What stands before the bytes of a string. A length beyond 32 bits is cut to
/// them.
pub open spec fn str_head(n: nat) -> Seq<u8> {
    if n < 32 {
        seq![(0xa0 + n) as u8]
    } else if n <= 0xff {
        seq![0xd9u8] + be(n, 1)
    } else if n <= 0xffff {
        seq![0xdau8] + be(n, 2)
    } else {
        seq![0xdbu8] + be(n, 4)
    }
}

/// What stands before the bytes of a byte string.
pub open spec fn bin_head(n: nat) -> Seq<u8> {
    if n <= 0xff {
        seq![0xc4u8] + be(n, 1)
    } else if n <= 0xffff {
        seq![0xc5u8] + be(n, 2)
    } else {
        seq![0xc6u8] + be(n, 4)
    }
}

/// What stands before the elements of an array.
pub open spec fn array_head(n: nat) -> Seq<u8> {
    if n < 16 {
        seq![(0x90 + n) as u8]
    } else if n <= 0xffff {
        seq![0xdcu8] + be(n, 2)
    } else {
        seq![0xddu8] + be(n, 4)
    }
}

/// What stands before the entries of a map.
pub open spec fn map_head(n: nat) -> Seq<u8> {
    if n < 16 {
        seq![(0x80 + n) as u8]
    } else if n <= 0xffff {
        seq![0xdeu8] + be(n, 2)
    } else {
        seq![0xdfu8] + be(n, 4)
    }
}

/// A string: its head, then its UTF-8 form.
pub open spec fn str_bytes(s: Seq<char>) -> Seq<u8> {
    str_head(encode_utf8(s).len()) + encode_utf8(s)
}

/// The MessagePack form of a value.
pub open spec fn encoded(m: Model) -> Seq<u8>
    decreases m,
{
    match m {
        Model::Nil => seq![0xc0u8],
        Model::Bool(false) => seq![0xc2u8],
        Model::Bool(true) => seq![0xc3u8],
        Model::Int(n) => int_bytes(n as int),
        Model::F64(f) => seq![0xcbu8] + be(f as nat, 8),
        Model::Str(s) => str_bytes(s),
        Model::Bin(b) => bin_head(b.len()) + b,
        Model::Array(a) => array_head(a.len()) + all_encoded(a),
        Model::Dict(e) => map_head(e.len()) + entries_encoded(e),
        Model::StrMap(e) => map_head(e.len()) + named_encoded(e),
    }
}

/// The forms of several values in a row.
pub open spec fn all_encoded(a: Seq<Model>) -> Seq<u8>
    decreases a,
{
    if a.len() == 0 {
        Seq::empty()
    } else {
        encoded(a[0]) + all_encoded(a.subrange(1, a.len() as int))
    }
}

/// The forms of keys and values in a row.
pub open spec fn entries_encoded(e: Seq<(i64, Model)>) -> Seq<u8>
    decreases e,
{
    if e.len() == 0 {
        Seq::empty()
    } else {
        int_bytes(e[0].0 as int) + encoded(e[0].1) + entries_encoded(e.subrange(1, e.len() as int))
    }
}

/// The forms of names and values in a row.
pub open spec fn named_encoded(e: Seq<(Seq<char>, Model)>) -> Seq<u8>
    decreases e,
{
    if e.len() == 0 {
        Seq::empty()
    } else {
        str_bytes(e[0].0) + encoded(e[0].1) + named_encoded(e.subrange(1, e.len() as int))
    }
}

/// Writes an unsigned integer in its shortest form.
pub fn write_u(out: &mut Vec<u8>, n: u64)
    ensures
        final(out)@ == old(out)@ + int_bytes(n as int),
{
    let ghost o = out@;
    if n < 0x80 {
        out.push(n as u8);
    } else if n <= 0xff {
        out.push(0xcc);
        push_be(out, n, 1);
    } else if n <= 0xffff {
        out.push(0xcd);
        push_be(out, n, 2);
    } else if n <= 0xffff_ffff {
        out.push(0xce);
        push_be(out, n, 4);
    } else {
        out.push(0xcf);
        push_be(out, n, 8);
    }
    assert(out@ =~= o + int_bytes(n as int));
}

/// Writes an integer in its shortest form.
pub fn write_i(out: &mut Vec<u8>, n: i64)
    ensures
        final(out)@ == old(out)@ + int_bytes(n as int),
{
    let ghost o = out@;
    if n >= 0 {
        write_u(out, n as u64);
    } else if n >= -32 {
        out.push((n + 0x100) as u8);
    } else if n >= -0x80 {
        out.push(0xd0);
        push_be(out, (n + 0x100) as u64, 1);
    } else if n >= -0x8000 {
        out.push(0xd1);
        push_be(out, (n + 0x1_0000) as u64, 2);
    } else if n >= -0x8000_0000 {
        out.push(0xd2);
        push_be(out, (n + 0x1_0000_0000) as u64, 4);
    } else {
        out.push(0xd3);
        push_be(out, (n as i128 + 0x1_0000_0000_0000_0000) as u64, 8);
    }
    assert(out@ =~= o + int_bytes(n as int));
}

fn write_str(out: &mut Vec<u8>, s: &str)
    ensures
        final(out)@ == old(out)@ + str_bytes(s@),
{
    let ghost o = out@;
    let b = s.as_bytes();
    let n = b.len();
    if n < 32 {
        out.push((0xa0 + n) as u8);
    } else if n <= 0xff {
        out.push(0xd9);
        push_be(out, n as u64, 1);
    } else if n <= 0xffff {
        out.push(0xda);
        push_be(out, n as u64, 2);
    } else {
        out.push(0xdb);
        push_be(out, n as u64, 4);
    }
    push_all(out, b);
    assert(out@ =~= o + (str_head(n as nat) + b@));
}

fn write_map_head(out: &mut Vec<u8>, n: usize)
    ensures
        final(out)@ == old(out)@ + map_head(n as nat),
{
    let ghost o = out@;
    if n < 16 {
        out.push((0x80 + n) as u8);
    } else if n <= 0xffff {
        out.push(0xde);
        push_be(out, n as u64, 2);
    } else {
        out.push(0xdf);
        push_be(out, n as u64, 4);
    }
    assert(out@ =~= o + map_head(n as nat));
}

/// Writes the head of a byte string and the bytes.
fn write_bin(out: &mut Vec<u8>, b: &[u8])
    ensures
        final(out)@ == old(out)@ + (bin_head(b@.len()) + b@),
{
    let ghost o = out@;
    let n = b.len();
    if n <= 0xff {
        out.push(0xc4);
        push_be(out, n as u64, 1);
    } else if n <= 0xffff {
        out.push(0xc5);
        push_be(out, n as u64, 2);
    } else {
        out.push(0xc6);
        push_be(out, n as u64, 4);
    }
    push_all(out, b);
    assert(out@ =~= o + (bin_head(n as nat) + b@));
}

fn write_array_head(out: &mut Vec<u8>, n: usize)
    ensures
        final(out)@ == old(out)@ + array_head(n as nat),
{
    let ghost o = out@;
    if n < 16 {
        out.push((0x90 + n) as u8);
    } else if n <= 0xffff {
        out.push(0xdc);
        push_be(out, n as u64, 2);
    } else {
        out.push(0xdd);
        push_be(out, n as u64, 4);
    }
    assert(out@ =~= o + array_head(n as nat));
}

/// Writes the elements of an array.
#[verifier::loop_isolation(false)]
fn write_items(a: &Vec<Value>, out: &mut Vec<u8>)
    ensures
        final(out)@ == old(out)@ + all_encoded(Value::Array(*a)@->Array_0),
    decreases a,
{
    let ghost o = out@;
    let ghost m = Value::Array(*a)@->Array_0;
    let mut i: usize = 0;
    assert(m.subrange(0, m.len() as int) =~= m);
    while i < a.len()
        invariant
            i <= a@.len(),
            m.len() == a@.len(),
            out@ + all_encoded(m.subrange(i as int, m.len() as int)) == o + all_encoded(m),
        decreases a@.len() - i,
    {
        let ghost o1 = out@;
        let ghost rest = m.subrange(i as int, m.len() as int);
        let ghost later = m.subrange(i + 1, m.len() as int);
        assert(decreases_to!(*a => a[i as int]));
        encode_into(&a[i], out);
        assert(rest[0] == a@[i as int]@);
        assert(rest.subrange(1, rest.len() as int) =~= later);
        assert(o1 + (encoded(rest[0]) + all_encoded(later)) =~= o1 + encoded(rest[0]) + all_encoded(
            later,
        ));
        i += 1;
    }
    assert(all_encoded(m.subrange(i as int, m.len() as int)) =~= Seq::<u8>::empty());
    assert(out@ =~= out@ + Seq::<u8>::empty());
}

/// Writes the keys and values of a map.
#[verifier::loop_isolation(false)]
fn write_entries(d: &Vec<(i64, Value)>, out: &mut Vec<u8>)
    ensures
        final(out)@ == old(out)@ + entries_encoded(
            Value::Dict(IntMap { entries: *d })@->Dict_0,
        ),
    decreases d,
{
    let ghost o = out@;
    let ghost m = Value::Dict(IntMap { entries: *d })@->Dict_0;
    let mut i: usize = 0;
    assert(m.subrange(0, m.len() as int) =~= m);
    while i < d.len()
        invariant
            i <= d@.len(),
            m.len() == d@.len(),
            out@ + entries_encoded(m.subrange(i as int, m.len() as int)) == o + entries_encoded(m),
        decreases d@.len() - i,
    {
        let ghost o1 = out@;
        let ghost rest = m.subrange(i as int, m.len() as int);
        let ghost later = m.subrange(i + 1, m.len() as int);
        assert(decreases_to!(*d => d[i as int]));
        let e = &d[i];
        write_i(out, e.0);
        encode_into(&e.1, out);
        assert(rest[0] == (e.0, e.1@));
        assert(rest.subrange(1, rest.len() as int) =~= later);
        let ghost k = int_bytes(e.0 as int);
        let ghost x = encoded(e.1@);
        assert(o1 + (k + x + entries_encoded(later)) =~= o1 + k + x + entries_encoded(later));
        i += 1;
    }
    assert(entries_encoded(m.subrange(i as int, m.len() as int)) =~= Seq::<u8>::empty());
    assert(out@ =~= out@ + Seq::<u8>::empty());
}

/// Writes the names and values of a map.
#[verifier::loop_isolation(false)]
fn write_named(d: &Vec<(String, Value)>, out: &mut Vec<u8>)
    ensures
        final(out)@ == old(out)@ + named_encoded(Value::StrMap(*d)@->StrMap_0),
    decreases d,
{
    let ghost o = out@;
    let ghost m = Value::StrMap(*d)@->StrMap_0;
    let mut i: usize = 0;
    assert(m.subrange(0, m.len() as int) =~= m);
    while i < d.len()
        invariant
            i <= d@.len(),
            m.len() == d@.len(),
            out@ + named_encoded(m.subrange(i as int, m.len() as int)) == o + named_encoded(m),
        decreases d@.len() - i,
    {
        let ghost o1 = out@;
        let ghost rest = m.subrange(i as int, m.len() as int);
        let ghost later = m.subrange(i + 1, m.len() as int);
        assert(decreases_to!(*d => d[i as int]));
        let e = &d[i];
        write_str(out, e.0.as_str());
        encode_into(&e.1, out);
        assert(rest[0] == (e.0@, e.1@));
        assert(rest.subrange(1, rest.len() as int) =~= later);
        let ghost k = str_bytes(e.0@);
        let ghost x = encoded(e.1@);
        assert(o1 + (k + x + named_encoded(later)) =~= o1 + k + x + named_encoded(later));
        i += 1;
    }
    assert(named_encoded(m.subrange(i as int, m.len() as int)) =~= Seq::<u8>::empty());
    assert(out@ =~= out@ + Seq::<u8>::empty());
}

/// Writes a value.
pub fn encode_into(v: &Value, out: &mut Vec<u8>)
    ensures
        final(out)@ == old(out)@ + encoded(v@),
    decreases v,
{
    let ghost o = out@;
    match v {
        Value::Nil => {
            out.push(0xc0);
            assert(out@ =~= o + seq![0xc0u8]);
        },
        Value::Bool(b) => {
            if *b {
                out.push(0xc3);
                assert(out@ =~= o + seq![0xc3u8]);
            } else {
                out.push(0xc2);
                assert(out@ =~= o + seq![0xc2u8]);
            }
        },
        Value::Int(n) => {
            write_i(out, *n);
        },
        Value::F64(f) => {
            out.push(0xcb);
            push_be(out, *f, 8);
            assert(out@ =~= o + (seq![0xcbu8] + be(*f as nat, 8)));
        },
        Value::Str(s) => {
            write_str(out, s.as_str());
        },
        Value::Bin(b) => {
            write_bin(out, b.as_slice());
        },
        Value::Array(a) => {
            write_array_head(out, a.len());
            write_items(a, out);
            assert(out@ =~= o + (array_head(a@.len()) + all_encoded(v@->Array_0)));
        },
        Value::Dict(d) => {
            write_map_head(out, d.entries.len());
            write_entries(&d.entries, out);
            assert(out@ =~= o + (map_head(d.entries@.len()) + entries_encoded(v@->Dict_0)));
        },
        Value::StrMap(d) => {
            write_map_head(out, d.len());
            write_named(d, out);
            assert(out@ =~= o + (map_head(d@.len()) + named_encoded(v@->StrMap_0)));
        },
    }
}

/// The MessagePack form of a value.
pub fn encode(v: &Value) -> (r: Vec<u8>)
    ensures
        r@ == encoded(v@),
{
    let mut out: Vec<u8> = Vec::new();
    encode_into(v, &mut out);
    assert(Seq::<u8>::empty() + encoded(v@) =~= encoded(v@));
    out
}

// ---------------------------------------------------------------------------
// Reading
// ---------------------------------------------------------------------------

/// Why bytes are not a value.
#[derive(Debug)]
pub struct DecodeError(pub &'static str);

/// The ways in which bytes fail to be a value.
pub enum Fault {
    End,
    Kind,
    ArrayLength,
    Key,
}

/// What a fault is called.
pub open spec fn fault_text(f: Fault) -> Seq<char> {
    match f {
        Fault::End => "unexpected end of msgpack input"@,
        Fault::Kind => "unsupported msgpack type"@,
        Fault::ArrayLength => "msgpack array length exceeds remaining input"@,
        Fault::Key => "non-integer map key"@,
    }
}

/// The number of `w` bytes at `i`, if the input has them.
pub open spec fn number_at(b: Seq<u8>, i: int, w: int) -> Option<nat> {
    if i + w <= b.len() {
        Some(of_be(b.subrange(i, i + w)))
    } else {
        None
    }
}

/// The integer that `w` bytes with the value `n` stand for with a sign.
pub open spec fn signed(n: nat, w: nat) -> int {
    if 2 * n >= pow256(w) {
        n - pow256(w)
    } else {
        n as int
    }
}

/// An unsigned integer of `w` bytes at `i`.
pub open spec fn unsigned_at(b: Seq<u8>, i: int, w: int) -> Result<(Model, int), Fault> {
    match number_at(b, i, w) {
        Some(n) => Ok((Model::Int(n as i64), i + w)),
        None => Err(Fault::End),
    }
}

/// A signed integer of `w` bytes at `i`.
pub open spec fn signed_at(b: Seq<u8>, i: int, w: int) -> Result<(Model, int), Fault> {
    match number_at(b, i, w) {
        Some(n) => Ok((Model::Int(signed(n, w as nat) as i64), i + w)),
        None => Err(Fault::End),
    }
}

/// A string of `n` bytes at `i`.
pub open spec fn str_at(b: Seq<u8>, i: int, n: int) -> Result<(Model, int), Fault> {
    if i + n <= b.len() {
        Ok((Model::Str(text_of(b.subrange(i, i + n))), i + n))
    } else {
        Err(Fault::End)
    }
}

/// A byte string of `n` bytes at `i`.
pub open spec fn bin_at(b: Seq<u8>, i: int, n: int) -> Result<(Model, int), Fault> {
    if i + n <= b.len() {
        Ok((Model::Bin(b.subrange(i, i + n)), i + n))
    } else {
        Err(Fault::End)
    }
}

/// A single or double at `i`, of four or eight bytes.
pub open spec fn float_at(b: Seq<u8>, i: int, w: int) -> Result<(Model, int), Fault> {
    match number_at(b, i, w) {
        Some(n) => Ok(
            (
                Model::F64(
                    if w == 4 {
                        widened(n)
                    } else {
                        n
                    } as u64,
                ),
                i + w,
            ),
        ),
        None => Err(Fault::End),
    }
}

/// The value at index `i`, with the index after it.
pub open spec fn decoded(b: Seq<u8>, i: int) -> Result<(Model, int), Fault>
    decreases b.len() - i, 0nat,
{
    if i < 0 || i >= b.len() {
        Err(Fault::End)
    } else {
        let c = b[i];
        let j = i + 1;
        if c < 0x80 {
            Ok((Model::Int(c as i64), j))
        } else if c < 0x90 {
            map_at(b, j, c - 0x80, Seq::empty())
        } else if c < 0xa0 {
            array_at(b, j, c - 0x90)
        } else if c < 0xc0 {
            str_at(b, j, c - 0xa0)
        } else if c == 0xc0 {
            Ok((Model::Nil, j))
        } else if c == 0xc2 {
            Ok((Model::Bool(false), j))
        } else if c == 0xc3 {
            Ok((Model::Bool(true), j))
        } else if 0xc4 <= c <= 0xc6 {
            let w: int = size_width((c - 0xc4) as u8);
            match number_at(b, j, w) {
                Some(n) => bin_at(b, j + w, n as int),
                None => Err(Fault::End),
            }
        } else if c == 0xca {
            float_at(b, j, 4)
        } else if c == 0xcb {
            float_at(b, j, 8)
        } else if c == 0xcc {
            unsigned_at(b, j, 1)
        } else if c == 0xcd {
            unsigned_at(b, j, 2)
        } else if c == 0xce {
            unsigned_at(b, j, 4)
        } else if c == 0xcf {
            signed_at(b, j, 8)
        } else if c == 0xd0 {
            signed_at(b, j, 1)
        } else if c == 0xd1 {
            signed_at(b, j, 2)
        } else if c == 0xd2 {
            signed_at(b, j, 4)
        } else if c == 0xd3 {
            signed_at(b, j, 8)
        } else if 0xd9 <= c <= 0xdb {
            let w: int = size_width((c - 0xd9) as u8);
            match number_at(b, j, w) {
                Some(n) => str_at(b, j + w, n as int),
                None => Err(Fault::End),
            }
        } else if c == 0xdc || c == 0xdd {
            let w: int = size_width((c - 0xdb) as u8);
            match number_at(b, j, w) {
                Some(n) => array_at(b, j + w, n as int),
                None => Err(Fault::End),
            }
        } else if c == 0xde || c == 0xdf {
            let w: int = size_width((c - 0xdd) as u8);
            match number_at(b, j, w) {
                Some(n) => map_at(b, j + w, n as int, Seq::empty()),
                None => Err(Fault::End),
            }
        } else if c >= 0xe0 {
            Ok((Model::Int((c - 0x100) as i64), j))
        } else {
            Err(Fault::Kind)
        }
    }
}

/// How many bytes a size takes in the three widths there are.
pub open spec fn size_width(k: u8) -> int {
    if k == 0 {
        1
    } else if k == 1 {
        2
    } else {
        4
    }
}

/// An array of `n` values at `i`. Each takes a byte at least, so a count over
/// what is left of the input is refused at once.
pub open spec fn array_at(b: Seq<u8>, i: int, n: int) -> Result<(Model, int), Fault>
    decreases b.len() - i, 2nat,
{
    if n > b.len() - i {
        Err(Fault::ArrayLength)
    } else {
        match items_at(b, i, n, Seq::empty()) {
            Ok((a, j)) => Ok((Model::Array(a), j)),
            Err(f) => Err(f),
        }
    }
}

/// `n` values from `i` on, behind those in `made`.
pub open spec fn items_at(b: Seq<u8>, i: int, n: int, made: Seq<Model>) -> Result<
    (Seq<Model>, int),
    Fault,
>
    decreases b.len() - i, 1nat,
{
    if n <= 0 {
        Ok((made, i))
    } else {
        match decoded(b, i) {
            Err(f) => Err(f),
            Ok((m, j)) => if j <= i || j > b.len() {
                Err(Fault::End)
            } else {
                items_at(b, j, n - 1, made.push(m))
            },
        }
    }
}

/// `n` entries from `i` on, put into `made` one after the other.
pub open spec fn map_at(b: Seq<u8>, i: int, n: int, made: Seq<(i64, Model)>) -> Result<
    (Model, int),
    Fault,
>
    decreases b.len() - i, 1nat,
{
    if n <= 0 {
        Ok((Model::Dict(made), i))
    } else {
        match decoded(b, i) {
            Err(f) => Err(f),
            Ok((Model::Int(k), j)) => if j <= i || j > b.len() {
                Err(Fault::End)
            } else {
                match decoded(b, j) {
                    Err(f) => Err(f),
                    Ok((m, l)) => if l <= j || l > b.len() {
                        Err(Fault::End)
                    } else {
                        map_at(b, l, n - 1, put(made, k, m))
                    },
                }
            },
            Ok(_) => Err(Fault::Key),
        }
    }
}

/// A value ends behind its start and inside the input.
pub proof fn lemma_decoded_moves_on(b: Seq<u8>, i: int)
    requires
        0 <= i,
    ensures
        decoded(b, i) matches Ok((m, j)) ==> i < j <= b.len(),
    decreases b.len() - i, 0nat,
{
    if i < b.len() {
        let c = b[i];
        if 0x80 <= c < 0x90 {
            lemma_map_moves_on(b, i + 1, c - 0x80, Seq::empty());
        } else if 0x90 <= c < 0xa0 {
            lemma_items_moves_on(b, i + 1, c - 0x90, Seq::empty());
        } else if c == 0xdc || c == 0xdd {
            let w: int = size_width((c - 0xdb) as u8);
            if i + 1 + w <= b.len() {
                let n = of_be(b.subrange(i + 1, i + 1 + w));
                lemma_items_moves_on(b, i + 1 + w, n as int, Seq::empty());
            }
        } else if c == 0xde || c == 0xdf {
            let w: int = size_width((c - 0xdd) as u8);
            if i + 1 + w <= b.len() {
                let n = of_be(b.subrange(i + 1, i + 1 + w));
                lemma_map_moves_on(b, i + 1 + w, n as int, Seq::empty());
            }
        }
    }
}

proof fn lemma_items_moves_on(b: Seq<u8>, i: int, n: int, made: Seq<Model>)
    requires
        0 <= i <= b.len(),
    ensures
        items_at(b, i, n, made) matches Ok((a, j)) ==> i <= j <= b.len(),
    decreases b.len() - i, 1nat,
{
    if n > 0 {
        lemma_decoded_moves_on(b, i);
        match decoded(b, i) {
            Ok((m, j)) => {
                lemma_items_moves_on(b, j, n - 1, made.push(m));
            },
            Err(f) => {},
        }
    }
}

proof fn lemma_map_moves_on(b: Seq<u8>, i: int, n: int, made: Seq<(i64, Model)>)
    requires
        0 <= i <= b.len(),
    ensures
        map_at(b, i, n, made) matches Ok((m, j)) ==> i <= j <= b.len(),
    decreases b.len() - i, 1nat,
{
    if n > 0 {
        lemma_decoded_moves_on(b, i);
        match decoded(b, i) {
            Ok((Model::Int(k), j)) => {
                lemma_decoded_moves_on(b, j);
                match decoded(b, j) {
                    Ok((m, l)) => {
                        lemma_map_moves_on(b, l, n - 1, put(made, k, m));
                    },
                    Err(f) => {},
                }
            },
            _ => {},
        }
    }
}

/// The input with the index up to which it was read.
struct Parser<'a> {
    b: &'a [u8],
    i: usize,
}

/// `got`, read up to `end`, is what `want` says.
spec fn agrees(got: Result<Value, DecodeError>, end: int, want: Result<(Model, int), Fault>) -> bool {
    match (got, want) {
        (Ok(v), Ok((m, j))) => v@ == m && end == j,
        (Err(e), Err(f)) => e.0@ == fault_text(f),
        _ => false,
    }
}

fn end_of_input() -> (e: DecodeError)
    ensures
        e.0@ == fault_text(Fault::End),
{
    DecodeError("unexpected end of msgpack input")
}

impl<'a> Parser<'a> {
    spec fn wf(&self) -> bool {
        self.i <= self.b@.len()
    }

    /// The next `n` bytes.
    fn take(&mut self, n: usize) -> (r: Option<&'a [u8]>)
        requires
            old(self).wf(),
        ensures
            final(self).wf(),
            final(self).b == old(self).b,
            match r {
                Some(s) => old(self).i + n <= old(self).b@.len() && s@ == old(self).b@.subrange(
                    old(self).i as int,
                    old(self).i + n,
                ) && final(self).i == old(self).i + n,
                None => old(self).i + n > old(self).b@.len() && final(self).i == old(self).i,
            },
    {
        if n > self.b.len() - self.i {
            return None;
        }
        let s = slice_subrange(self.b, self.i, self.i + n);
        self.i = self.i + n;
        Some(s)
    }

    /// The next number of `w` bytes.
    fn number(&mut self, w: usize) -> (r: Option<u64>)
        requires
            old(self).wf(),
            1 <= w <= 8,
        ensures
            final(self).wf(),
            final(self).b == old(self).b,
            match r {
                Some(n) => number_at(old(self).b@, old(self).i as int, w as int) == Some(n as nat)
                    && n < pow256(w as nat) && final(self).i == old(self).i + w,
                None => number_at(old(self).b@, old(self).i as int, w as int) is None,
            },
    {
        match self.take(w) {
            Some(s) => {
                proof {
                    of_be_writes_back(s@);
                }
                Some(read_be(s))
            },
            None => None,
        }
    }

    /// The next byte.
    fn u8(&mut self) -> (r: Option<u8>)
        requires
            old(self).wf(),
        ensures
            final(self).wf(),
            final(self).b == old(self).b,
            match r {
                Some(c) => old(self).i < old(self).b@.len() && c == old(self).b@[old(self).i as int]
                    && final(self).i == old(self).i + 1,
                None => old(self).i >= old(self).b@.len(),
            },
    {
        match self.take(1) {
            Some(s) => Some(s[0]),
            None => None,
        }
    }

    fn unsigned(&mut self, w: usize) -> (r: Result<Value, DecodeError>)
        requires
            old(self).wf(),
            w == 1 || w == 2 || w == 4,
        ensures
            final(self).wf(),
            final(self).b == old(self).b,
            agrees(
                r,
                final(self).i as int,
                unsigned_at(old(self).b@, old(self).i as int, w as int),
            ),
    {
        proof {
            lemma_pow256();
        }
        match self.number(w) {
            Some(n) => Ok(Value::Int(n as i64)),
            None => Err(end_of_input()),
        }
    }

    fn signed(&mut self, w: usize) -> (r: Result<Value, DecodeError>)
        requires
            old(self).wf(),
            w == 1 || w == 2 || w == 4 || w == 8,
        ensures
            final(self).wf(),
            final(self).b == old(self).b,
            agrees(r, final(self).i as int, signed_at(old(self).b@, old(self).i as int, w as int)),
    {
        proof {
            lemma_pow256();
        }
        match self.number(w) {
            Some(n) => {
                let full: i128 = if w == 1 {
                    0x100
                } else if w == 2 {
                    0x1_0000
                } else if w == 4 {
                    0x1_0000_0000
                } else {
                    0x1_0000_0000_0000_0000
                };
                let v: i128 = if 2 * (n as i128) >= full {
                    n as i128 - full
                } else {
                    n as i128
                };
                Ok(Value::Int(v as i64))
            },
            None => Err(end_of_input()),
        }
    }

    fn str_n(&mut self, n: usize) -> (r: Result<Value, DecodeError>)
        requires
            old(self).wf(),
        ensures
            final(self).wf(),
            final(self).b == old(self).b,
            agrees(r, final(self).i as int, str_at(old(self).b@, old(self).i as int, n as int)),
    {
        match self.take(n) {
            Some(s) => Ok(Value::Str(lossy_string(s))),
            None => Err(end_of_input()),
        }
    }

    fn bin_n(&mut self, n: usize) -> (r: Result<Value, DecodeError>)
        requires
            old(self).wf(),
        ensures
            final(self).wf(),
            final(self).b == old(self).b,
            agrees(r, final(self).i as int, bin_at(old(self).b@, old(self).i as int, n as int)),
    {
        match self.take(n) {
            Some(s) => Ok(Value::Bin(to_vec(s))),
            None => Err(end_of_input()),
        }
    }

    /// The next size of `w` bytes.
    fn size(&mut self, w: usize) -> (r: Option<usize>)
        requires
            old(self).wf(),
            w == 1 || w == 2 || w == 4,
        ensures
            final(self).wf(),
            final(self).b == old(self).b,
            match r {
                Some(n) => number_at(old(self).b@, old(self).i as int, w as int) == Some(n as nat)
                    && final(self).i == old(self).i + w,
                None => number_at(old(self).b@, old(self).i as int, w as int) is None,
            },
    {
        proof {
            lemma_pow256();
        }
        match self.number(w) {
            Some(n) => Some(n as usize),
            None => None,
        }
    }

    /// The next value.
    fn value(&mut self) -> (r: Result<Value, DecodeError>)
        requires
            old(self).wf(),
        ensures
            final(self).wf(),
            final(self).b == old(self).b,
            agrees(r, final(self).i as int, decoded(old(self).b@, old(self).i as int)),
        decreases old(self).b@.len() - old(self).i, 0nat,
    {
        let c = match self.u8() {
            Some(c) => c,
            None => {
                return Err(end_of_input());
            },
        };
        if c < 0x80 {
            Ok(Value::Int(c as i64))
        } else if c < 0x90 {
            self.map((c - 0x80) as usize)
        } else if c < 0xa0 {
            self.array((c - 0x90) as usize)
        } else if c < 0xc0 {
            self.str_n((c - 0xa0) as usize)
        } else if c >= 0xe0 {
            Ok(Value::Int(c as i64 - 0x100))
        } else {
            self.tagged(c)
        }
    }

    /// The value behind a tag that is no short form.
    fn tagged(&mut self, c: u8) -> (r: Result<Value, DecodeError>)
        requires
            old(self).wf(),
            0xc0 <= c < 0xe0,
            old(self).i > 0,
            old(self).b@[old(self).i - 1] == c,
        ensures
            final(self).wf(),
            final(self).b == old(self).b,
            agrees(r, final(self).i as int, decoded(old(self).b@, old(self).i - 1)),
        decreases old(self).b@.len() - old(self).i, 3nat,
    {
        if c == 0xc0 {
            Ok(Value::Nil)
        } else if c == 0xc2 {
            Ok(Value::Bool(false))
        } else if c == 0xc3 {
            Ok(Value::Bool(true))
        } else if c == 0xc4 || c == 0xc5 || c == 0xc6 {
            let w: usize = if c == 0xc4 {
                1
            } else if c == 0xc5 {
                2
            } else {
                4
            };
            match self.size(w) {
                Some(n) => self.bin_n(n),
                None => Err(end_of_input()),
            }
        } else if c == 0xca {
            proof {
                lemma_pow256();
            }
            match self.number(4) {
                Some(n) => Ok(Value::F64(widen(n as u32))),
                None => Err(end_of_input()),
            }
        } else if c == 0xcb {
            match self.number(8) {
                Some(n) => Ok(Value::F64(n)),
                None => Err(end_of_input()),
            }
        } else if c == 0xcc {
            self.unsigned(1)
        } else if c == 0xcd {
            self.unsigned(2)
        } else if c == 0xce {
            self.unsigned(4)
        } else if c == 0xcf || c == 0xd3 {
            self.signed(8)
        } else if c == 0xd0 {
            self.signed(1)
        } else if c == 0xd1 {
            self.signed(2)
        } else if c == 0xd2 {
            self.signed(4)
        } else if c == 0xd9 || c == 0xda || c == 0xdb {
            let w: usize = if c == 0xd9 {
                1
            } else if c == 0xda {
                2
            } else {
                4
            };
            match self.size(w) {
                Some(n) => self.str_n(n),
                None => Err(end_of_input()),
            }
        } else if c == 0xdc || c == 0xdd {
            let w: usize = if c == 0xdc {
                2
            } else {
                4
            };
            match self.size(w) {
                Some(n) => self.array(n),
                None => Err(end_of_input()),
            }
        } else if c == 0xde || c == 0xdf {
            let w: usize = if c == 0xde {
                2
            } else {
                4
            };
            match self.size(w) {
                Some(n) => self.map(n),
                None => Err(end_of_input()),
            }
        } else {
            Err(DecodeError("unsupported msgpack type"))
        }
    }

    /// An array of `n` values.
    #[verifier::loop_isolation(false)]
    fn array(&mut self, n: usize) -> (r: Result<Value, DecodeError>)
        requires
            old(self).wf(),
        ensures
            final(self).wf(),
            final(self).b == old(self).b,
            agrees(r, final(self).i as int, array_at(old(self).b@, old(self).i as int, n as int)),
        decreases old(self).b@.len() - old(self).i, 2nat,
    {
        if n > self.b.len() - self.i {
            return Err(DecodeError("msgpack array length exceeds remaining input"));
        }
        let ghost b = self.b@;
        let ghost start = self.i as int;
        let mut v: Vec<Value> = Vec::new();
        let ghost mut made: Seq<Model> = Seq::empty();
        let mut k: usize = 0;
        while k < n
            invariant
                k <= n,
                self.wf(),
                self.b@ == b,
                self.b == old(self).b,
                start <= self.i,
                v@.len() == made.len(),
                forall|x: int| 0 <= x < made.len() ==> (#[trigger] v@[x])@ == made[x],
                items_at(b, self.i as int, n - k, made) == items_at(
                    b,
                    start,
                    n as int,
                    Seq::empty(),
                ),
            decreases n - k,
        {
            proof {
                lemma_decoded_moves_on(b, self.i as int);
            }
            match self.value() {
                Ok(x) => {
                    proof {
                        made = made.push(x@);
                    }
                    v.push(x);
                },
                Err(e) => {
                    return Err(e);
                },
            }
            k += 1;
        }
        let r = Value::Array(v);
        assert(r@->Array_0 =~= made);
        Ok(r)
    }

    /// A map of `n` entries.
    #[verifier::loop_isolation(false)]
    fn map(&mut self, n: usize) -> (r: Result<Value, DecodeError>)
        requires
            old(self).wf(),
        ensures
            final(self).wf(),
            final(self).b == old(self).b,
            agrees(
                r,
                final(self).i as int,
                map_at(old(self).b@, old(self).i as int, n as int, Seq::empty()),
            ),
        decreases old(self).b@.len() - old(self).i, 2nat,
    {
        let ghost b = self.b@;
        let ghost start = self.i as int;
        let mut m = IntMap::new();
        let mut k: usize = 0;
        while k < n
            invariant
                k <= n,
                self.wf(),
                self.b@ == b,
                self.b == old(self).b,
                start <= self.i,
                m.wf(),
                map_at(b, self.i as int, n - k, m@) == map_at(b, start, n as int, Seq::empty()),
            decreases n - k,
        {
            proof {
                lemma_decoded_moves_on(b, self.i as int);
            }
            let key = match self.value() {
                Ok(Value::Int(x)) => x,
                Ok(_) => {
                    return Err(DecodeError("non-integer map key"));
                },
                Err(e) => {
                    return Err(e);
                },
            };
            proof {
                lemma_decoded_moves_on(b, self.i as int);
            }
            match self.value() {
                Ok(x) => {
                    m.insert(key, x);
                },
                Err(e) => {
                    return Err(e);
                },
            }
            k += 1;
        }
        let r = Value::Dict(m);
        assert(r@->Dict_0 =~= m@);
        Ok(r)
    }
}

/// Reads the value at the start of `bytes`; what follows it is left alone.
pub fn decode(bytes: &[u8]) -> (r: Result<Value, DecodeError>)
    ensures
        match r {
            Ok(v) => decoded(bytes@, 0) matches Ok((m, end)) && m == v@,
            Err(e) => decoded(bytes@, 0) matches Err(f) && e.0@ == fault_text(f),
        },
{
    let mut p = Parser { b: bytes, i: 0 };
    p.value()
}

// ---------------------------------------------------------------------------
// What is written reads back
// ---------------------------------------------------------------------------

/// A value that the decoder can give back: no map with string keys, sizes under
/// two to the 32, and ascending keys.
pub open spec fn storable(m: Model) -> bool
    decreases m,
{
    match m {
        Model::Str(s) => encode_utf8(s).len() < 0x1_0000_0000,
        Model::Bin(b) => b.len() < 0x1_0000_0000,
        Model::Array(a) => {
            &&& a.len() < 0x1_0000_0000
            &&& forall|i: int| 0 <= i < a.len() ==> storable(#[trigger] a[i])
        },
        Model::Dict(e) => {
            &&& e.len() < 0x1_0000_0000
            &&& ascending(e)
            &&& forall|i: int| 0 <= i < e.len() ==> storable((#[trigger] e[i]).1)
        },
        Model::StrMap(_) => false,
        _ => true,
    }
}

/// `part` stands in `b` at `i`.
pub open spec fn stands_at(b: Seq<u8>, i: int, part: Seq<u8>) -> bool {
    0 <= i && i + part.len() <= b.len() && b.subrange(i, i + part.len()) == part
}

/// Two parts in a row stand one behind the other.
pub proof fn lemma_stands_split(b: Seq<u8>, i: int, x: Seq<u8>, y: Seq<u8>)
    requires
        stands_at(b, i, x + y),
    ensures
        stands_at(b, i, x),
        stands_at(b, i + x.len(), y),
{
    let s = b.subrange(i, i + (x + y).len());
    assert(s == x + y);
    assert(b.subrange(i, i + x.len()) =~= s.subrange(0, x.len() as int));
    assert(s.subrange(0, x.len() as int) =~= x);
    assert(b.subrange(i + x.len(), i + x.len() + y.len()) =~= s.subrange(
        x.len() as int,
        (x + y).len() as int,
    ));
    assert(s.subrange(x.len() as int, (x + y).len() as int) =~= y);
}

/// A tag and a number of `w` bytes read back.
proof fn lemma_tag_and_number(b: Seq<u8>, i: int, tag: u8, n: nat, w: nat)
    requires
        stands_at(b, i, seq![tag] + be(n, w)),
        n < pow256(w),
    ensures
        b[i] == tag,
        number_at(b, i + 1, w as int) == Some(n),
        (seq![tag] + be(n, w)).len() == 1 + w,
{
    be_reads_back(n, w);
    lemma_stands_split(b, i, seq![tag], be(n, w));
    assert(b.subrange(i, i + 1)[0] == tag);
}

proof fn lemma_one_byte(b: Seq<u8>, i: int, tag: u8)
    requires
        stands_at(b, i, seq![tag]),
    ensures
        b[i] == tag,
        i < b.len(),
{
    assert(b.subrange(i, i + 1)[0] == tag);
}

proof fn lemma_int_reads_back(n: i64, b: Seq<u8>, i: int)
    requires
        stands_at(b, i, int_bytes(n as int)),
    ensures
        decoded(b, i) == Ok::<(Model, int), Fault>(
            (Model::Int(n), i + int_bytes(n as int).len()),
        ),
        int_bytes(n as int).len() > 0,
{
    lemma_pow256();
    let v = n as int;
    if 0 <= v < 0x80 {
        lemma_one_byte(b, i, v as u8);
    } else if 0 <= v <= 0xff {
        lemma_tag_and_number(b, i, 0xcc, v as nat, 1);
    } else if 0 <= v <= 0xffff {
        lemma_tag_and_number(b, i, 0xcd, v as nat, 2);
    } else if 0 <= v <= 0xffff_ffff {
        lemma_tag_and_number(b, i, 0xce, v as nat, 4);
    } else if 0 <= v {
        lemma_tag_and_number(b, i, 0xcf, v as nat, 8);
    } else if v >= -32 {
        lemma_one_byte(b, i, (v + 0x100) as u8);
    } else if v >= -0x80 {
        lemma_tag_and_number(b, i, 0xd0, (v + 0x100) as nat, 1);
    } else if v >= -0x8000 {
        lemma_tag_and_number(b, i, 0xd1, (v + 0x1_0000) as nat, 2);
    } else if v >= -0x8000_0000 {
        lemma_tag_and_number(b, i, 0xd2, (v + 0x1_0000_0000) as nat, 4);
    } else {
        lemma_tag_and_number(b, i, 0xd3, (v + 0x1_0000_0000_0000_0000) as nat, 8);
    }
}

proof fn lemma_encoded_not_empty(m: Model)
    ensures
        encoded(m).len() > 0,
{
    match m {
        Model::Int(n) => {},
        _ => {},
    }
}

proof fn lemma_all_encoded_len(a: Seq<Model>)
    ensures
        all_encoded(a).len() >= a.len(),
    decreases a.len(),
{
    if a.len() > 0 {
        lemma_encoded_not_empty(a[0]);
        lemma_all_encoded_len(a.subrange(1, a.len() as int));
    }
}

proof fn lemma_str_reads_back(s: Seq<char>, b: Seq<u8>, i: int)
    requires
        encode_utf8(s).len() < 0x1_0000_0000,
        stands_at(b, i, str_bytes(s)),
    ensures
        decoded(b, i) == Ok::<(Model, int), Fault>((Model::Str(s), i + str_bytes(s).len())),
{
    let u = encode_utf8(s);
    let n = u.len();
    lemma_pow256();
    lemma_stands_split(b, i, str_head(n), u);
    text_reads_back(s);
    if n < 32 {
        lemma_one_byte(b, i, (0xa0 + n) as u8);
    } else if n <= 0xff {
        lemma_tag_and_number(b, i, 0xd9, n, 1);
    } else if n <= 0xffff {
        lemma_tag_and_number(b, i, 0xda, n, 2);
    } else {
        lemma_tag_and_number(b, i, 0xdb, n, 4);
    }
}

proof fn lemma_bin_reads_back(u: Seq<u8>, b: Seq<u8>, i: int)
    requires
        u.len() < 0x1_0000_0000,
        stands_at(b, i, bin_head(u.len()) + u),
    ensures
        decoded(b, i) == Ok::<(Model, int), Fault>(
            (Model::Bin(u), i + (bin_head(u.len()) + u).len()),
        ),
{
    let n = u.len();
    lemma_pow256();
    lemma_stands_split(b, i, bin_head(n), u);
    if n <= 0xff {
        lemma_tag_and_number(b, i, 0xc4, n, 1);
    } else if n <= 0xffff {
        lemma_tag_and_number(b, i, 0xc5, n, 2);
    } else {
        lemma_tag_and_number(b, i, 0xc6, n, 4);
    }
}

/// A storable value reads back from wherever its form stands, and reading ends
/// where the form ends.
pub proof fn value_reads_back(m: Model, b: Seq<u8>, i: int)
    requires
        storable(m),
        stands_at(b, i, encoded(m)),
    ensures
        decoded(b, i) == Ok::<(Model, int), Fault>((m, i + encoded(m).len())),
    decreases m,
{
    lemma_pow256();
    match m {
        Model::Nil => {
            lemma_one_byte(b, i, 0xc0);
        },
        Model::Bool(x) => {
            lemma_one_byte(
                b,
                i,
                if x {
                    0xc3
                } else {
                    0xc2
                },
            );
        },
        Model::Int(n) => {
            lemma_int_reads_back(n, b, i);
        },
        Model::F64(f) => {
            lemma_tag_and_number(b, i, 0xcb, f as nat, 8);
        },
        Model::Str(s) => {
            lemma_str_reads_back(s, b, i);
        },
        Model::Bin(u) => {
            lemma_bin_reads_back(u, b, i);
        },
        Model::Array(a) => {
            let n = a.len();
            let head = array_head(n);
            lemma_stands_split(b, i, head, all_encoded(a));
            lemma_all_encoded_len(a);
            if n < 16 {
                lemma_one_byte(b, i, (0x90 + n) as u8);
            } else if n <= 0xffff {
                lemma_tag_and_number(b, i, 0xdc, n, 2);
            } else {
                lemma_tag_and_number(b, i, 0xdd, n, 4);
            }
            items_read_back(a, b, i + head.len(), Seq::empty());
            assert(Seq::<Model>::empty() + a =~= a);
        },
        Model::Dict(e) => {
            let n = e.len();
            let head = map_head(n);
            lemma_stands_split(b, i, head, entries_encoded(e));
            if n < 16 {
                lemma_one_byte(b, i, (0x80 + n) as u8);
            } else if n <= 0xffff {
                lemma_tag_and_number(b, i, 0xde, n, 2);
            } else {
                lemma_tag_and_number(b, i, 0xdf, n, 4);
            }
            assert(Seq::<(i64, Model)>::empty() + e =~= e);
            entries_read_back(e, b, i + head.len(), Seq::empty());
        },
        Model::StrMap(_) => {},
    }
}

proof fn items_read_back(a: Seq<Model>, b: Seq<u8>, i: int, made: Seq<Model>)
    requires
        forall|k: int| 0 <= k < a.len() ==> storable(#[trigger] a[k]),
        stands_at(b, i, all_encoded(a)),
    ensures
        items_at(b, i, a.len() as int, made) == Ok::<(Seq<Model>, int), Fault>(
            (made + a, i + all_encoded(a).len()),
        ),
    decreases a,
{
    if a.len() > 0 {
        let rest = a.subrange(1, a.len() as int);
        lemma_stands_split(b, i, encoded(a[0]), all_encoded(rest));
        lemma_encoded_not_empty(a[0]);
        value_reads_back(a[0], b, i);
        items_read_back(rest, b, i + encoded(a[0]).len(), made.push(a[0]));
        assert(made.push(a[0]) + rest =~= made + a);
    } else {
        assert(made + a =~= made);
    }
}

proof fn entries_read_back(e: Seq<(i64, Model)>, b: Seq<u8>, i: int, made: Seq<(i64, Model)>)
    requires
        ascending(made + e),
        forall|k: int| 0 <= k < e.len() ==> storable((#[trigger] e[k]).1),
        stands_at(b, i, entries_encoded(e)),
    ensures
        map_at(b, i, e.len() as int, made) == Ok::<(Model, int), Fault>(
            (Model::Dict(made + e), i + entries_encoded(e).len()),
        ),
    decreases e,
{
    if e.len() > 0 {
        let rest = e.subrange(1, e.len() as int);
        let key = int_bytes(e[0].0 as int);
        let val = encoded(e[0].1);
        lemma_stands_split(b, i, key + val, entries_encoded(rest));
        lemma_stands_split(b, i, key, val);
        lemma_int_reads_back(e[0].0, b, i);
        lemma_encoded_not_empty(e[0].1);
        value_reads_back(e[0].1, b, i + key.len());
        let all = made + e;
        assert forall|k: int| 0 <= k < made.len() implies (#[trigger] made[k]).0 < e[0].0 by {
            assert(all[k].0 < all[made.len() as int].0);
        }
        lemma_put(made, e[0].0, e[0].1, made.len() as int);
        assert(made.insert(made.len() as int, e[0]) =~= made.push(e[0]));
        assert(made.push(e[0]) + rest =~= all);
        entries_read_back(rest, b, i + key.len() + val.len(), made.push(e[0]));
    } else {
        assert(made + e =~= made);
    }
}

/// Decoding what was encoded gives the value back, whatever follows it.
pub proof fn encoded_reads_back(m: Model, tail: Seq<u8>)
    requires
        storable(m),
    ensures
        decoded(encoded(m) + tail, 0) == Ok::<(Model, int), Fault>((m, encoded(m).len() as int)),
{
    let b = encoded(m) + tail;
    assert(b.subrange(0, encoded(m).len() as int) =~= encoded(m));
    value_reads_back(m, b, 0);
}

/// The part of `b` from `i` to `j` is the same where `b` is cut behind it.
proof fn lemma_part_of_longer(b: Seq<u8>, n: int, i: int, j: int)
    requires
        0 <= i <= j <= n <= b.len(),
    ensures
        b.take(n).subrange(i, j) == b.subrange(i, j),
{
    assert(b.take(n).subrange(i, j) =~= b.subrange(i, j));
}

/// What is read of the first `n` bytes is read of all of them.
proof fn lemma_decoded_of_longer(b: Seq<u8>, n: int, i: int)
    requires
        0 <= i,
        0 <= n <= b.len(),
    ensures
        decoded(b.take(n), i) is Ok ==> decoded(b, i) == decoded(b.take(n), i),
    decreases n - i, 0nat,
{
    let p = b.take(n);
    if i < n {
        let c = b[i];
        let j = i + 1;
        assert(p[i] == c);
        if 0x80 <= c < 0x90 {
            lemma_map_of_longer(b, n, j, c - 0x80, Seq::empty());
        } else if 0x90 <= c < 0xa0 {
            lemma_items_of_longer(b, n, j, c - 0x90, Seq::empty());
        } else if 0xa0 <= c < 0xc0 {
            if j + (c - 0xa0) <= n {
                lemma_part_of_longer(b, n, j, j + (c - 0xa0));
            }
        } else if 0xc4 <= c <= 0xc6 || 0xd9 <= c <= 0xdb {
            let w: int = if c <= 0xc6 {
                size_width((c - 0xc4) as u8)
            } else {
                size_width((c - 0xd9) as u8)
            };
            if j + w <= n {
                lemma_part_of_longer(b, n, j, j + w);
                let size = of_be(b.subrange(j, j + w));
                if j + w + size <= n {
                    lemma_part_of_longer(b, n, j + w, j + w + size);
                }
            }
        } else if 0xca <= c <= 0xd3 {
            let w: int = if c == 0xcc || c == 0xd0 {
                1
            } else if c == 0xcd || c == 0xd1 {
                2
            } else if c == 0xca || c == 0xce || c == 0xd2 {
                4
            } else {
                8
            };
            if j + w <= n {
                lemma_part_of_longer(b, n, j, j + w);
            }
        } else if 0xdc <= c <= 0xdf {
            let w: int = if c <= 0xdd {
                size_width((c - 0xdb) as u8)
            } else {
                size_width((c - 0xdd) as u8)
            };
            if j + w <= n {
                lemma_part_of_longer(b, n, j, j + w);
                let count = of_be(b.subrange(j, j + w));
                if c <= 0xdd {
                    lemma_items_of_longer(b, n, j + w, count as int, Seq::empty());
                } else {
                    lemma_map_of_longer(b, n, j + w, count as int, Seq::empty());
                }
            }
        }
    }
}

proof fn lemma_items_of_longer(b: Seq<u8>, n: int, i: int, count: int, made: Seq<Model>)
    requires
        0 <= i,
        0 <= n <= b.len(),
    ensures
        items_at(b.take(n), i, count, made) is Ok ==> items_at(b, i, count, made) == items_at(
            b.take(n),
            i,
            count,
            made,
        ),
    decreases n - i, 1nat,
{
    if count > 0 {
        lemma_decoded_of_longer(b, n, i);
        match decoded(b.take(n), i) {
            Ok((m, j)) => if i < j <= n {
                lemma_items_of_longer(b, n, j, count - 1, made.push(m));
            },
            Err(_) => {},
        }
    }
}

proof fn lemma_map_of_longer(b: Seq<u8>, n: int, i: int, count: int, made: Seq<(i64, Model)>)
    requires
        0 <= i,
        0 <= n <= b.len(),
    ensures
        map_at(b.take(n), i, count, made) is Ok ==> map_at(b, i, count, made) == map_at(
            b.take(n),
            i,
            count,
            made,
        ),
    decreases n - i, 1nat,
{
    if count > 0 {
        lemma_decoded_of_longer(b, n, i);
        match decoded(b.take(n), i) {
            Ok((Model::Int(k), j)) => if i < j <= n {
                lemma_decoded_of_longer(b, n, j);
                match decoded(b.take(n), j) {
                    Ok((m, l)) => if j < l <= n {
                        lemma_map_of_longer(b, n, l, count - 1, put(made, k, m));
                    },
                    Err(_) => {},
                }
            },
            _ => {},
        }
    }
}

/// A value that is cut short is refused, wherever it is cut.
pub proof fn cut_value_is_refused(m: Model, n: int)
    requires
        storable(m),
        0 <= n < encoded(m).len(),
    ensures
        decoded(encoded(m).take(n), 0) is Err,
{
    let b = encoded(m);
    encoded_reads_back(m, Seq::empty());
    assert(b + Seq::<u8>::empty() =~= b);
    lemma_decoded_of_longer(b, n, 0);
    lemma_decoded_moves_on(b.take(n), 0);
}

/// The maps of a value have ascending keys, down to the last.
pub open spec fn keys_ascend(m: Model) -> bool
    decreases m,
{
    match m {
        Model::Array(a) => forall|i: int| 0 <= i < a.len() ==> keys_ascend(#[trigger] a[i]),
        Model::Dict(e) => {
            &&& ascending(e)
            &&& forall|i: int| 0 <= i < e.len() ==> keys_ascend((#[trigger] e[i]).1)
        },
        Model::StrMap(_) => false,
        _ => true,
    }
}

proof fn lemma_put_keeps(m: Seq<(i64, Model)>, k: i64, v: Model)
    requires
        keys_ascend(Model::Dict(m)),
        keys_ascend(v),
    ensures
        keys_ascend(Model::Dict(put(m, k, v))),
        m.len() > 0 ==> put(m, k, v)[0].0 == if k < m[0].0 {
            k
        } else {
            m[0].0
        },
        m.len() == 0 ==> put(m, k, v)[0].0 == k,
    decreases m.len(),
{
    let p = put(m, k, v);
    if m.len() > 0 && k > m[0].0 {
        let t = m.skip(1);
        assert forall|i: int, j: int| 0 <= i < j < t.len() implies (#[trigger] t[i]).0 < (
        #[trigger] t[j]).0 by {
            assert(t[i] == m[i + 1] && t[j] == m[j + 1]);
        }
        assert forall|i: int| 0 <= i < t.len() implies keys_ascend((#[trigger] t[i]).1) by {
            assert(t[i] == m[i + 1]);
        }
        lemma_put_keeps(t, k, v);
        let q = put(t, k, v);
        assert(q[0].0 > m[0].0) by {
            if t.len() > 0 {
                assert(t[0] == m[1]);
            }
        }
        assert forall|i: int, j: int| 0 <= i < j < p.len() implies (#[trigger] p[i]).0 < (
        #[trigger] p[j]).0 by {
            if i > 0 {
                assert(p[i] == q[i - 1] && p[j] == q[j - 1]);
            } else {
                assert(p[j] == q[j - 1]);
                if j > 1 {
                    assert(q[0].0 < q[j - 1].0);
                }
            }
        }
        assert forall|i: int| 0 <= i < p.len() implies keys_ascend((#[trigger] p[i]).1) by {
            if i > 0 {
                assert(p[i] == q[i - 1]);
            } else {
                assert(p[0] == m[0]);
            }
        }
    } else if m.len() > 0 && k < m[0].0 {
        assert forall|i: int, j: int| 0 <= i < j < p.len() implies (#[trigger] p[i]).0 < (
        #[trigger] p[j]).0 by {
            assert(p[j] == m[j - 1]);
            if i > 0 {
                assert(p[i] == m[i - 1]);
            } else if j > 1 {
                assert(m[0].0 < m[j - 1].0);
            }
        }
        assert forall|i: int| 0 <= i < p.len() implies keys_ascend((#[trigger] p[i]).1) by {
            if i > 0 {
                assert(p[i] == m[i - 1]);
            }
        }
    } else if m.len() > 0 {
        assert forall|i: int| 0 <= i < p.len() implies keys_ascend((#[trigger] p[i]).1) by {
            if i > 0 {
                assert(p[i] == m[i]);
            }
        }
    }
}

/// The maps of every decoded value have ascending keys.
pub proof fn decoded_keys_ascend(b: Seq<u8>, i: int)
    ensures
        decoded(b, i) matches Ok((m, j)) ==> keys_ascend(m),
    decreases b.len() - i, 0nat,
{
    if 0 <= i < b.len() {
        let c = b[i];
        if 0x80 <= c < 0x90 {
            map_keys_ascend(b, i + 1, c - 0x80, Seq::empty());
        } else if 0x90 <= c < 0xa0 {
            items_keys_ascend(b, i + 1, c - 0x90, Seq::empty());
        } else if c == 0xdc || c == 0xdd {
            let w: int = size_width((c - 0xdb) as u8);
            if i + 1 + w <= b.len() {
                let n = of_be(b.subrange(i + 1, i + 1 + w));
                items_keys_ascend(b, i + 1 + w, n as int, Seq::empty());
            }
        } else if c == 0xde || c == 0xdf {
            let w: int = size_width((c - 0xdd) as u8);
            if i + 1 + w <= b.len() {
                let n = of_be(b.subrange(i + 1, i + 1 + w));
                map_keys_ascend(b, i + 1 + w, n as int, Seq::empty());
            }
        }
    }
}

proof fn items_keys_ascend(b: Seq<u8>, i: int, n: int, made: Seq<Model>)
    requires
        forall|k: int| 0 <= k < made.len() ==> keys_ascend(#[trigger] made[k]),
    ensures
        items_at(b, i, n, made) matches Ok((a, j)) ==> keys_ascend(Model::Array(a)),
    decreases b.len() - i, 1nat,
{
    if n > 0 {
        decoded_keys_ascend(b, i);
        match decoded(b, i) {
            Ok((m, j)) => {
                if i < j <= b.len() {
                    items_keys_ascend(b, j, n - 1, made.push(m));
                }
            },
            Err(f) => {},
        }
    }
}

proof fn map_keys_ascend(b: Seq<u8>, i: int, n: int, made: Seq<(i64, Model)>)
    requires
        keys_ascend(Model::Dict(made)),
    ensures
        map_at(b, i, n, made) matches Ok((m, j)) ==> keys_ascend(m),
    decreases b.len() - i, 1nat,
{
    if n > 0 {
        match decoded(b, i) {
            Ok((Model::Int(k), j)) => {
                if i < j <= b.len() {
                    decoded_keys_ascend(b, j);
                    match decoded(b, j) {
                        Ok((m, l)) => {
                            if j < l <= b.len() {
                                lemma_put_keeps(made, k, m);
                                map_keys_ascend(b, l, n - 1, put(made, k, m));
                            }
                        },
                        Err(f) => {},
                    }
                }
            },
            _ => {},
        }
    }
}

} // verus!
