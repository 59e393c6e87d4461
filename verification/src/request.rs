//! Requests over a link and the replies to them.
use vstd::prelude::*;
use vstd::utf8::*;

use crate::bytes::to_vec;
use crate::float::{double_of_int, u64_to_double};
use crate::msgpack::{decode, decoded, encode, encoded, model, Model, Value};
use crate::sha256::{sha256_truncated, truncated_hash};

verus! {

/// A request made at `now` to the handler of `path`, with `data` as its argument.
pub open spec fn request_model(now: u64, path: Seq<char>, data: Model) -> Model {
    Model::Array(
        seq![
            Model::F64(double_of_int(now as int) as u64),
            Model::Bin(sha256_truncated(encode_utf8(path))),
            data,
        ],
    )
}

/// A request made at `now` to the handler of `path`, with `data` as its argument.
pub fn rns_request(now: u64, path: &str, data: Value) -> (r: Vec<u8>)
    ensures
        r@ == encoded(request_model(now, path@, data@)),
{
    let hash = truncated_hash(path.as_bytes());
    let mut a: Vec<Value> = Vec::new();
    a.push(Value::F64(u64_to_double(now)));
    a.push(Value::Bin(to_vec(hash.as_slice())));
    a.push(data);
    let v = Value::Array(a);
    proof {
        reveal_with_fuel(model, 2);
        assert(v@->Array_0 =~= request_model(now, path@, data@)->Array_0);
    }
    encode(&v)
}

/// What a reply holds: the second element of an array, behind the identifier of
/// the request.
pub open spec fn reply_of(payload: Seq<u8>) -> Option<Model> {
    match decoded(payload, 0) {
        Ok((Model::Array(a), _)) => if a.len() < 2 {
            None
        } else {
            Some(a[1])
        },
        _ => None,
    }
}

/// What a reply holds.
pub fn parse_rns_response(payload: &[u8]) -> (r: Option<Value>)
    ensures
        match r {
            Some(v) => reply_of(payload@) == Some(v@),
            None => reply_of(payload@) is None,
        },
{
    match decode(payload) {
        Ok(Value::Array(a)) => {
            let ghost m = Value::Array(a)@->Array_0;
            if a.len() < 2 {
                return None;
            }
            assert(m[1] == a@[1]@);
            Some(a[1].clone())
        },
        _ => None,
    }
}

} // verus!
