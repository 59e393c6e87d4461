//! The bytes of MessagePack, form by form, as they are written and as they are read.
use vstd::prelude::*;
use vstd::utf8::encode_utf8;

use crate::bytes::{be, of_be};
use crate::float::{double_of_int, widened};
use crate::msgpack::{
    all_encoded, array_at, bin_of, decoded, double_of, encoded, entries_encoded, map_at,
    named_encoded, Fault, Model,
};
use crate::text::text_of;

verus! {

/// The two bytes of `n`, the high one first.
pub open spec fn two(n: int) -> Seq<u8> {
    seq![(n / 0x100 % 0x100) as u8, (n % 0x100) as u8]
}

/// The four bytes of `n`, the highest first.
pub open spec fn four(n: int) -> Seq<u8> {
    seq![
        (n / 0x100_0000 % 0x100) as u8,
        (n / 0x1_0000 % 0x100) as u8,
        (n / 0x100 % 0x100) as u8,
        (n % 0x100) as u8,
    ]
}

/// The eight bytes of `n`, the highest first.
pub open spec fn eight(n: int) -> Seq<u8> {
    four(n / 0x1_0000_0000) + four(n % 0x1_0000_0000)
}

/// What two bytes stand for.
pub open spec fn of_two(b: Seq<u8>, i: int) -> int {
    b[i] * 0x100 + b[i + 1]
}

/// What four bytes stand for.
pub open spec fn of_four(b: Seq<u8>, i: int) -> int {
    of_two(b, i) * 0x1_0000 + of_two(b, i + 2)
}

/// What eight bytes stand for.
pub open spec fn of_eight(b: Seq<u8>, i: int) -> int {
    of_four(b, i) * 0x1_0000_0000 + of_four(b, i + 4)
}

/// Numbers are written with the highest byte first.
pub proof fn numbers_stand_highest_byte_first(n: nat)
    ensures
        be(n, 1) == seq![(n % 0x100) as u8],
        be(n, 2) == two(n as int),
        be(n, 4) == four(n as int),
        be(n, 8) == eight(n as int),
{
    reveal_with_fuel(be, 9);
    let q = n / 0x1_0000_0000;
    let r = n % 0x1_0000_0000;
    assert(n / 256 / 256 == n / 0x1_0000);
    assert(n / 256 / 256 / 256 == n / 0x100_0000);
    assert(n / 256 / 256 / 256 / 256 == q);
    assert(be(n, 1) =~= seq![(n % 0x100) as u8]);
    assert(be(n, 2) =~= two(n as int));
    assert(be(n, 4) =~= four(n as int));
    assert(q / 256 / 256 == q / 0x1_0000);
    assert(q / 256 / 256 / 256 == q / 0x100_0000);
    assert(be(q, 4) =~= four(q as int));
    assert(r % 0x100 == n % 0x100);
    assert(r / 0x100 % 0x100 == n / 0x100 % 0x100);
    assert(r / 0x1_0000 % 0x100 == n / 0x1_0000 % 0x100);
    assert(r / 0x100_0000 % 0x100 == n / 0x100_0000 % 0x100);
    assert(four(r as int) =~= four(n as int));
    assert(be(n, 8) =~= be(q, 4) + four(n as int));
}

/// And they are read so.
pub proof fn numbers_are_read_highest_byte_first(b: Seq<u8>, i: int)
    requires
        0 <= i,
    ensures
        i + 1 <= b.len() ==> of_be(b.subrange(i, i + 1)) == b[i],
        i + 2 <= b.len() ==> of_be(b.subrange(i, i + 2)) == of_two(b, i),
        i + 4 <= b.len() ==> of_be(b.subrange(i, i + 4)) == of_four(b, i),
        i + 8 <= b.len() ==> of_be(b.subrange(i, i + 8)) == of_eight(b, i),
{
    reveal_with_fuel(of_be, 9);
    assert forall|k: int| 1 <= k && i + k <= b.len() implies (#[trigger] b.subrange(
        i,
        i + k,
    )).drop_last() == b.subrange(i, i + k - 1) && b.subrange(i, i + k).last() == b[i + k - 1] by {
        assert(b.subrange(i, i + k).drop_last() =~= b.subrange(i, i + k - 1));
    }
    if i + 1 <= b.len() {
        assert(of_be(b.subrange(i, i + 1)) == of_be(b.subrange(i, i + 0)) * 256 + b[i]);
    }
    if i + 2 <= b.len() {
        assert(of_be(b.subrange(i, i + 2)) == of_be(b.subrange(i, i + 1)) * 256 + b[i + 1]);
    }
    if i + 4 <= b.len() {
        assert(of_be(b.subrange(i, i + 3)) == of_be(b.subrange(i, i + 2)) * 256 + b[i + 2]);
        assert(of_be(b.subrange(i, i + 4)) == of_be(b.subrange(i, i + 3)) * 256 + b[i + 3]);
    }
    if i + 8 <= b.len() {
        assert(of_be(b.subrange(i, i + 5)) == of_be(b.subrange(i, i + 4)) * 256 + b[i + 4]);
        assert(of_be(b.subrange(i, i + 6)) == of_be(b.subrange(i, i + 5)) * 256 + b[i + 5]);
        assert(of_be(b.subrange(i, i + 7)) == of_be(b.subrange(i, i + 6)) * 256 + b[i + 6]);
        assert(of_be(b.subrange(i, i + 8)) == of_be(b.subrange(i, i + 7)) * 256 + b[i + 7]);
    }
}

/// A byte string is written as `c4`, `c5` or `c6`, its length in one, two or four
/// bytes, and its bytes.
pub proof fn byte_strings_are_written(b: Seq<u8>)
    ensures
        b.len() <= 0xff ==> encoded(Model::Bin(b)) == seq![0xc4u8, b.len() as u8] + b,
        0x100 <= b.len() <= 0xffff ==> encoded(Model::Bin(b)) == seq![0xc5u8] + two(
            b.len() as int,
        ) + b,
        0x1_0000 <= b.len() <= 0xffff_ffff ==> encoded(Model::Bin(b)) == seq![0xc6u8] + four(
            b.len() as int,
        ) + b,
{
    numbers_stand_highest_byte_first(b.len());
    if b.len() <= 0xff {
        assert(seq![0xc4u8] + be(b.len(), 1) + b =~= seq![0xc4u8, b.len() as u8] + b);
    }
}

/// A text is written as its UTF-8 bytes behind `a0` plus its length where that is under
/// 32, else behind `d9`, `da` or `db` and its length in one, two or four bytes.
pub proof fn texts_are_written(s: Seq<char>)
    ensures
        ({
            let u = encode_utf8(s);
            let written = encoded(Model::Str(s));
            &&& u.len() < 32 ==> written == seq![(0xa0 + u.len()) as u8] + u
            &&& 32 <= u.len() <= 0xff ==> written == seq![0xd9u8, u.len() as u8] + u
            &&& 0x100 <= u.len() <= 0xffff ==> written == seq![0xdau8] + two(u.len() as int) + u
            &&& 0x1_0000 <= u.len() <= 0xffff_ffff ==> written == seq![0xdbu8] + four(
                u.len() as int,
            ) + u
        }),
{
    let u = encode_utf8(s);
    numbers_stand_highest_byte_first(u.len());
    if 32 <= u.len() <= 0xff {
        assert(seq![0xd9u8] + be(u.len(), 1) + u =~= seq![0xd9u8, u.len() as u8] + u);
    }
}

/// An integer takes the shortest form: one byte from -32 to 127, else a tag and one,
/// two, four or eight bytes, `cc` to `cf` for the positive ones and `d0` to `d3`, in
/// two's complement, for the negative.
pub proof fn integers_are_written(n: i64)
    ensures
        ({
            let written = encoded(Model::Int(n));
            &&& 0 <= n <= 127 ==> written == seq![n as u8]
            &&& 128 <= n <= 255 ==> written == seq![0xccu8, n as u8]
            &&& 256 <= n <= 0xffff ==> written == seq![0xcdu8] + two(n as int)
            &&& 0x1_0000 <= n <= 0xffff_ffff ==> written == seq![0xceu8] + four(n as int)
            &&& 0x1_0000_0000 <= n ==> written == seq![0xcfu8] + eight(n as int)
            &&& -32 <= n < 0 ==> written == seq![(256 + n) as u8]
            &&& -128 <= n < -32 ==> written == seq![0xd0u8, (256 + n) as u8]
            &&& -0x8000 <= n < -128 ==> written == seq![0xd1u8] + two(0x1_0000 + n)
            &&& -0x8000_0000 <= n < -0x8000 ==> written == seq![0xd2u8] + four(0x1_0000_0000 + n)
            &&& n < -0x8000_0000 ==> written == seq![0xd3u8] + eight(0x1_0000_0000_0000_0000 + n)
        }),
{
    if n >= 0 {
        numbers_stand_highest_byte_first(n as nat);
        assert(128 <= n <= 255 ==> seq![0xccu8] + be(n as nat, 1) =~= seq![0xccu8, n as u8]);
    } else if n >= -128 {
        numbers_stand_highest_byte_first((n + 0x100) as nat);
        assert(seq![0xd0u8] + be((n + 0x100) as nat, 1) =~= seq![0xd0u8, (256 + n) as u8]);
    } else if n >= -0x8000 {
        numbers_stand_highest_byte_first((n + 0x1_0000) as nat);
    } else if n >= -0x8000_0000 {
        numbers_stand_highest_byte_first((n + 0x1_0000_0000) as nat);
    } else {
        numbers_stand_highest_byte_first((n + 0x1_0000_0000_0000_0000) as nat);
    }
}

/// Nil is `c0`, false `c2`, true `c3`, and a floating-point number `cb` and the eight
/// bytes of its bits.
pub proof fn plain_values_are_written(bits: u64)
    ensures
        encoded(Model::Nil) == seq![0xc0u8],
        encoded(Model::Bool(false)) == seq![0xc2u8],
        encoded(Model::Bool(true)) == seq![0xc3u8],
        encoded(Model::F64(bits)) == seq![0xcbu8] + eight(bits as int),
{
    numbers_stand_highest_byte_first(bits as nat);
}

/// An array is a head and its elements one after the other: the head is `90` plus
/// their number where that is under 16, else `dc` or `dd` and the number in two or four
/// bytes.
pub proof fn arrays_are_written(a: Seq<Model>, last: Model)
    ensures
        ({
            let n = a.len() as int;
            let written = encoded(Model::Array(a));
            &&& n < 16 ==> written == seq![(0x90 + n) as u8] + all_encoded(a)
            &&& 16 <= n <= 0xffff ==> written == seq![0xdcu8] + two(n) + all_encoded(a)
            &&& 0x1_0000 <= n <= 0xffff_ffff ==> written == seq![0xddu8] + four(n) + all_encoded(a)
        }),
        all_encoded(Seq::empty()) == Seq::<u8>::empty(),
        all_encoded(a.push(last)) == all_encoded(a) + encoded(last),
    decreases a.len(),
{
    numbers_stand_highest_byte_first(a.len());
    let longer = a.push(last);
    if a.len() == 0 {
        let tail = longer.subrange(1, longer.len() as int);
        assert(tail.len() == 0);
        assert(all_encoded(longer) == encoded(longer[0]) + all_encoded(tail));
        assert(all_encoded(longer) =~= all_encoded(a) + encoded(last));
    } else {
        let rest = a.subrange(1, a.len() as int);
        arrays_are_written(rest, last);
        assert(longer.subrange(1, longer.len() as int) =~= rest.push(last));
        assert(all_encoded(longer) =~= all_encoded(a) + encoded(last));
    }
}

/// A map with integer keys is a head and its entries one after the other, each key
/// before its value: the head is `80` plus their number where that is under 16, else
/// `de` or `df` and the number in two or four bytes.
pub proof fn maps_are_written(e: Seq<(i64, Model)>, key: i64, value: Model)
    ensures
        ({
            let n = e.len() as int;
            let written = encoded(Model::Dict(e));
            &&& n < 16 ==> written == seq![(0x80 + n) as u8] + entries_encoded(e)
            &&& 16 <= n <= 0xffff ==> written == seq![0xdeu8] + two(n) + entries_encoded(e)
            &&& 0x1_0000 <= n <= 0xffff_ffff ==> written == seq![0xdfu8] + four(n)
                + entries_encoded(e)
        }),
        entries_encoded(Seq::empty()) == Seq::<u8>::empty(),
        entries_encoded(e.push((key, value))) == entries_encoded(e) + encoded(Model::Int(key))
            + encoded(value),
    decreases e.len(),
{
    numbers_stand_highest_byte_first(e.len());
    let longer = e.push((key, value));
    if e.len() == 0 {
        let tail = longer.subrange(1, longer.len() as int);
        assert(tail.len() == 0);
        assert(entries_encoded(longer) == encoded(Model::Int(longer[0].0)) + encoded(longer[0].1)
            + entries_encoded(tail));
        assert(entries_encoded(longer) =~= entries_encoded(e) + encoded(Model::Int(key)) + encoded(
            value,
        ));
    } else {
        let rest = e.subrange(1, e.len() as int);
        maps_are_written(rest, key, value);
        assert(longer.subrange(1, longer.len() as int) =~= rest.push((key, value)));
        assert(entries_encoded(longer) =~= entries_encoded(e) + encoded(Model::Int(key)) + encoded(
            value,
        ));
    }
}

/// A map with text keys is written in the same way, each key as a text.
pub proof fn named_maps_are_written(e: Seq<(Seq<char>, Model)>, key: Seq<char>, value: Model)
    ensures
        ({
            let n = e.len() as int;
            let written = encoded(Model::StrMap(e));
            &&& n < 16 ==> written == seq![(0x80 + n) as u8] + named_encoded(e)
            &&& 16 <= n <= 0xffff ==> written == seq![0xdeu8] + two(n) + named_encoded(e)
            &&& 0x1_0000 <= n <= 0xffff_ffff ==> written == seq![0xdfu8] + four(n) + named_encoded(
                e,
            )
        }),
        named_encoded(Seq::empty()) == Seq::<u8>::empty(),
        named_encoded(e.push((key, value))) == named_encoded(e) + encoded(Model::Str(key))
            + encoded(value),
    decreases e.len(),
{
    numbers_stand_highest_byte_first(e.len());
    let longer = e.push((key, value));
    if e.len() == 0 {
        let tail = longer.subrange(1, longer.len() as int);
        assert(tail.len() == 0);
        assert(named_encoded(longer) == encoded(Model::Str(longer[0].0)) + encoded(longer[0].1)
            + named_encoded(tail));
        assert(named_encoded(longer) =~= named_encoded(e) + encoded(Model::Str(key)) + encoded(
            value,
        ));
    } else {
        let rest = e.subrange(1, e.len() as int);
        named_maps_are_written(rest, key, value);
        assert(longer.subrange(1, longer.len() as int) =~= rest.push((key, value)));
        assert(named_encoded(longer) =~= named_encoded(e) + encoded(Model::Str(key)) + encoded(
            value,
        ));
    }
}

/// What stands where `n` bytes from `j` on are read: the bytes where they are all
/// there, else the end of the input.
pub open spec fn bytes_or_end(b: Seq<u8>, j: int, n: int) -> Result<(Model, int), Fault> {
    if j + n <= b.len() {
        Ok((Model::Bin(b.subrange(j, j + n)), j + n))
    } else {
        Err(Fault::End)
    }
}

/// The same for a text.
pub open spec fn text_or_end(b: Seq<u8>, j: int, n: int) -> Result<(Model, int), Fault> {
    if j + n <= b.len() {
        Ok((Model::Str(text_of(b.subrange(j, j + n))), j + n))
    } else {
        Err(Fault::End)
    }
}

/// `c4`, `c5` and `c6` are read as a byte string whose length stands in the next one,
/// two or four bytes.
pub proof fn byte_strings_are_read(b: Seq<u8>, i: int)
    requires
        0 <= i < b.len(),
        0xc4 <= b[i] <= 0xc6,
    ensures
        b[i] == 0xc4 ==> decoded(b, i) == (if i + 2 <= b.len() {
            bytes_or_end(b, i + 2, b[i + 1] as int)
        } else {
            Err(Fault::End)
        }),
        b[i] == 0xc5 ==> decoded(b, i) == (if i + 3 <= b.len() {
            bytes_or_end(b, i + 3, of_two(b, i + 1))
        } else {
            Err(Fault::End)
        }),
        b[i] == 0xc6 ==> decoded(b, i) == (if i + 5 <= b.len() {
            bytes_or_end(b, i + 5, of_four(b, i + 1))
        } else {
            Err(Fault::End)
        }),
{
    numbers_are_read_highest_byte_first(b, i + 1);
}

/// `a0` to `bf` are read as a text of so many bytes over `a0`; `d9`, `da` and `db` as
/// one whose length stands in the next one, two or four bytes.
pub proof fn texts_are_read(b: Seq<u8>, i: int)
    requires
        0 <= i < b.len(),
    ensures
        0xa0 <= b[i] <= 0xbf ==> decoded(b, i) == text_or_end(b, i + 1, b[i] - 0xa0),
        b[i] == 0xd9 ==> decoded(b, i) == (if i + 2 <= b.len() {
            text_or_end(b, i + 2, b[i + 1] as int)
        } else {
            Err(Fault::End)
        }),
        b[i] == 0xda ==> decoded(b, i) == (if i + 3 <= b.len() {
            text_or_end(b, i + 3, of_two(b, i + 1))
        } else {
            Err(Fault::End)
        }),
        b[i] == 0xdb ==> decoded(b, i) == (if i + 5 <= b.len() {
            text_or_end(b, i + 5, of_four(b, i + 1))
        } else {
            Err(Fault::End)
        }),
{
    numbers_are_read_highest_byte_first(b, i + 1);
}

/// `n` as a number in two's complement with `range` values.
pub open spec fn in_range(n: int, range: int) -> int {
    if n < range / 2 {
        n
    } else {
        n - range
    }
}

/// The integers are read back in each of their forms: one byte up to `7f` and from
/// `e0` on, `cc` to `cf` and `d0` to `d3` with one, two, four or eight bytes. What `cf`
/// holds beyond the range wraps.
pub proof fn integers_are_read(b: Seq<u8>, i: int)
    requires
        0 <= i < b.len(),
    ensures
        b[i] <= 0x7f ==> decoded(b, i) == Ok::<(Model, int), Fault>(
            (Model::Int(b[i] as i64), i + 1),
        ),
        b[i] >= 0xe0 ==> decoded(b, i) == Ok::<(Model, int), Fault>(
            (Model::Int((b[i] - 0x100) as i64), i + 1),
        ),
        (b[i] == 0xcc || b[i] == 0xd0) && i + 2 > b.len() ==> decoded(b, i) is Err,
        (b[i] == 0xcd || b[i] == 0xd1) && i + 3 > b.len() ==> decoded(b, i) is Err,
        (b[i] == 0xce || b[i] == 0xd2) && i + 5 > b.len() ==> decoded(b, i) is Err,
        (b[i] == 0xcf || b[i] == 0xd3) && i + 9 > b.len() ==> decoded(b, i) is Err,
        i + 2 <= b.len() && b[i] == 0xcc ==> decoded(b, i) == Ok::<(Model, int), Fault>(
            (Model::Int(b[i + 1] as i64), i + 2),
        ),
        i + 3 <= b.len() && b[i] == 0xcd ==> decoded(b, i) == Ok::<(Model, int), Fault>(
            (Model::Int(of_two(b, i + 1) as i64), i + 3),
        ),
        i + 5 <= b.len() && b[i] == 0xce ==> decoded(b, i) == Ok::<(Model, int), Fault>(
            (Model::Int(of_four(b, i + 1) as i64), i + 5),
        ),
        i + 9 <= b.len() && (b[i] == 0xcf || b[i] == 0xd3) ==> decoded(b, i) == Ok::<
            (Model, int),
            Fault,
        >((Model::Int(in_range(of_eight(b, i + 1), 0x1_0000_0000_0000_0000) as i64), i + 9)),
        i + 2 <= b.len() && b[i] == 0xd0 ==> decoded(b, i) == Ok::<(Model, int), Fault>(
            (Model::Int(in_range(b[i + 1] as int, 0x100) as i64), i + 2),
        ),
        i + 3 <= b.len() && b[i] == 0xd1 ==> decoded(b, i) == Ok::<(Model, int), Fault>(
            (Model::Int(in_range(of_two(b, i + 1), 0x1_0000) as i64), i + 3),
        ),
        i + 5 <= b.len() && b[i] == 0xd2 ==> decoded(b, i) == Ok::<(Model, int), Fault>(
            (Model::Int(in_range(of_four(b, i + 1), 0x1_0000_0000) as i64), i + 5),
        ),
{
    numbers_are_read_highest_byte_first(b, i + 1);
    crate::bytes::lemma_pow256();
    reveal_with_fuel(crate::bytes::pow256, 9);
}

/// `c0` is read as nil, `c2` as false, `c3` as true, `ca` as the single-precision
/// number of four bytes, widened, and `cb` as the number whose bits stand in eight.
/// `c1`, `c7` to `c9` and `d4` to `d8` are refused.
pub proof fn plain_values_are_read(b: Seq<u8>, i: int)
    requires
        0 <= i < b.len(),
    ensures
        b[i] == 0xc0 ==> decoded(b, i) == Ok::<(Model, int), Fault>((Model::Nil, i + 1)),
        b[i] == 0xc2 ==> decoded(b, i) == Ok::<(Model, int), Fault>((Model::Bool(false), i + 1)),
        b[i] == 0xc3 ==> decoded(b, i) == Ok::<(Model, int), Fault>((Model::Bool(true), i + 1)),
        b[i] == 0xca ==> decoded(b, i) == (if i + 5 <= b.len() {
            Ok((Model::F64(widened(of_four(b, i + 1) as nat) as u64), i + 5))
        } else {
            Err(Fault::End)
        }),
        b[i] == 0xcb ==> decoded(b, i) == (if i + 9 <= b.len() {
            Ok((Model::F64(of_eight(b, i + 1) as u64), i + 9))
        } else {
            Err(Fault::End)
        }),
        b[i] == 0xc1 || 0xc7 <= b[i] <= 0xc9 || 0xd4 <= b[i] <= 0xd8 ==> decoded(b, i) == Err::<
            (Model, int),
            Fault,
        >(Fault::Kind),
{
    numbers_are_read_highest_byte_first(b, i + 1);
}

/// `90` to `9f` are read as an array of so many elements over `90`, `dc` and `dd` as
/// one whose number stands in the next two or four bytes; `80` to `8f`, `de` and `df`
/// in the same way as a map. An array of no elements is empty, and one that claims more
/// elements than there are bytes left is refused.
pub proof fn collections_are_read(b: Seq<u8>, i: int)
    requires
        0 <= i < b.len(),
    ensures
        0x90 <= b[i] <= 0x9f ==> decoded(b, i) == array_at(b, i + 1, b[i] - 0x90),
        b[i] == 0xdc && i + 3 <= b.len() ==> decoded(b, i) == array_at(
            b,
            i + 3,
            of_two(b, i + 1),
        ),
        b[i] == 0xdd && i + 5 <= b.len() ==> decoded(b, i) == array_at(
            b,
            i + 5,
            of_four(b, i + 1),
        ),
        0x80 <= b[i] <= 0x8f ==> decoded(b, i) == map_at(b, i + 1, b[i] - 0x80, Seq::empty()),
        b[i] == 0xde && i + 3 <= b.len() ==> decoded(b, i) == map_at(
            b,
            i + 3,
            of_two(b, i + 1),
            Seq::empty(),
        ),
        b[i] == 0xdf && i + 5 <= b.len() ==> decoded(b, i) == map_at(
            b,
            i + 5,
            of_four(b, i + 1),
            Seq::empty(),
        ),
        (b[i] == 0xdc || b[i] == 0xde) && i + 3 > b.len() ==> decoded(b, i) == Err::<
            (Model, int),
            Fault,
        >(Fault::End),
        (b[i] == 0xdd || b[i] == 0xdf) && i + 5 > b.len() ==> decoded(b, i) == Err::<
            (Model, int),
            Fault,
        >(Fault::End),
        array_at(b, i, 0) == Ok::<(Model, int), Fault>((Model::Array(Seq::empty()), i)),
        forall|n: int|
            i + n > b.len() ==> #[trigger] array_at(b, i, n) == Err::<(Model, int), Fault>(
                Fault::ArrayLength,
            ),
{
    numbers_are_read_highest_byte_first(b, i + 1);
}

/// A byte string and the UTF-8 of a text can be taken for bytes, and nothing else; a
/// floating-point number and an integer for a number, and nothing else.
pub proof fn only_bytes_are_bytes(m: Model)
    ensures
        bin_of(m) == (match m {
            Model::Bin(b) => Some(b),
            Model::Str(s) => Some(encode_utf8(s)),
            _ => None,
        }),
        double_of(m) is Some <==> m is F64 || m is Int,
        m matches Model::F64(bits) ==> double_of(m) == Some(bits as nat),
        m matches Model::Int(n) ==> double_of(m) == Some(double_of_int(n as int)),
{
}

} // verus!
