//! The store protocol's tagged wire representation, and the `null`
//! sentinel that stands for an absent optional field.

use vstd::prelude::*;

verus! {

use crate::num::dec_i64;

/// A wire-level value: what the store hands back on the read path and
/// what the encoded argument streams denote. `Bulk` carries raw bytes;
/// `Simple` carries a textual status line, also held as bytes.
pub enum WireValue {
    Nil,
    Bulk(Vec<u8>),
    Simple(Vec<u8>),
    Int(i64),
    Array(Vec<WireValue>),
    Pairs(Vec<(WireValue, WireValue)>),
}

/// The four sentinel bytes `null`.
pub open spec fn null_seq() -> Seq<u8> {
    seq![110u8, 117u8, 108u8, 108u8]
}

/// A wire value counts as the null sentinel in any of three scalar
/// forms: `Nil`, the bulk bytes `null`, or the status line `null`.
pub open spec fn spec_is_sentinel(v: WireValue) -> bool {
    match v {
        WireValue::Nil => true,
        WireValue::Bulk(b) => b@ == null_seq(),
        WireValue::Simple(s) => s@ == null_seq(),
        _ => false,
    }
}

/// What a wire value yields when converted to a lookup key: scalar
/// bytes verbatim, an integer as its decimal rendering, nothing else.
pub open spec fn spec_key_bytes(v: WireValue) -> Option<Seq<u8>> {
    match v {
        WireValue::Bulk(b) => Some(b@),
        WireValue::Simple(s) => Some(s@),
        WireValue::Int(i) => Some(dec_i64(i as int)),
        _ => None,
    }
}

/// The literal sentinel argument, freshly allocated.
pub fn null_arg() -> (r: Vec<u8>)
    ensures
        r@ == null_seq(),
{
    let mut v: Vec<u8> = Vec::new();
    v.push(110u8);
    v.push(117u8);
    v.push(108u8);
    v.push(108u8);
    proof {
        assert(v@ =~= null_seq());
    }
    v
}

/// Compare two byte strings for equality of contents.
pub fn bytes_eq(a: &Vec<u8>, b: &Vec<u8>) -> (r: bool)
    ensures
        r == (a@ == b@),
{
    if a.len() != b.len() {
        return false;
    }
    let mut i: usize = 0;
    while i < a.len()
        invariant
            0 <= i <= a@.len(),
            a@.len() == b@.len(),
            forall|j: int| 0 <= j < i ==> a@[j] == b@[j],
        decreases a@.len() - i,
    {
        if a[i] != b[i] {
            return false;
        }
        i += 1;
    }
    proof {
        assert(a@ =~= b@);
    }
    true
}

/// Copy a byte string.
pub fn bytes_clone(a: &Vec<u8>) -> (r: Vec<u8>)
    ensures
        r@ == a@,
{
    let mut v: Vec<u8> = Vec::new();
    let mut i: usize = 0;
    while i < a.len()
        invariant
            0 <= i <= a@.len(),
            v@ == a@.take(i as int),
        decreases a@.len() - i,
    {
        v.push(a[i]);
        i += 1;
        proof {
            assert(v@ =~= a@.take(i as int));
        }
    }
    proof {
        assert(a@.take(a@.len() as int) =~= a@);
    }
    v
}

/// Test a byte string against the sentinel bytes.
pub fn bytes_is_null(b: &Vec<u8>) -> (r: bool)
    ensures
        r == (b@ == null_seq()),
{
    if b.len() != 4 {
        return false;
    }
    let r = b[0] == 110 && b[1] == 117 && b[2] == 108 && b[3] == 108;
    proof {
        if r {
            assert(b@ =~= null_seq());
        }
    }
    r
}

/// Test a wire value for the null sentinel, in its three scalar forms.
pub fn is_null_sentinel(v: &WireValue) -> (r: bool)
    ensures
        r == spec_is_sentinel(*v),
{
    match v {
        WireValue::Nil => true,
        WireValue::Bulk(b) => bytes_is_null(b),
        WireValue::Simple(s) => bytes_is_null(s),
        _ => false,
    }
}

/// Convert a wire value to a lookup key, exactly as [`spec_key_bytes`]
/// describes.
pub fn key_bytes(v: &WireValue) -> (r: Option<Vec<u8>>)
    ensures
        match r {
            Some(b) => spec_key_bytes(*v) == Some(b@),
            None => spec_key_bytes(*v) is None,
        },
{
    match v {
        WireValue::Bulk(b) => Some(bytes_clone(b)),
        WireValue::Simple(s) => Some(bytes_clone(s)),
        WireValue::Int(i) => Some(crate::num::fmt_i64(*i)),
        _ => None,
    }
}

} // verus!
