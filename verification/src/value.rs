//! Leaf field values and their scalar conversions: every leaf encodes to
//! one or more byte-string arguments, and decodes back from a scalar (or,
//! for word lists, an array) wire value.

use vstd::prelude::*;

verus! {

use crate::num::{dec_i64, spec_parse_i64, parse_i64, fmt_i64};
use crate::wire::WireValue;

/// The declared type of a field's value.
#[derive(Clone, Copy, PartialEq, Eq, Debug, Structural)]
pub enum FieldType {
    Int,
    Boolean,
    Text,
    Words,
}

/// A runtime leaf value. `Words` is a multi-part value: it expands to one
/// argument per word on the flat encoding path.
#[derive(Clone, PartialEq, Eq, Debug)]
pub enum FieldData {
    Int(i64),
    Boolean(bool),
    Text(Vec<u8>),
    Words(Vec<Vec<u8>>),
}

/// A present value failed to convert to the field's declared type.
#[derive(Clone, Copy, PartialEq, Eq, Debug, Structural)]
pub struct ConversionError {
    pub expected: FieldType,
}

/// The mathematical model of a leaf value.
#[verifier::ext_equal]
pub enum FieldM {
    Int(int),
    Boolean(bool),
    Text(Seq<u8>),
    Words(Seq<Seq<u8>>),
}

/// The model of a runtime leaf value.
pub open spec fn fd_model(d: FieldData) -> FieldM {
    match d {
        FieldData::Int(i) => FieldM::Int(i as int),
        FieldData::Boolean(b) => FieldM::Boolean(b),
        FieldData::Text(t) => FieldM::Text(t@),
        FieldData::Words(ws) => FieldM::Words(ws.deep_view()),
    }
}

/// A runtime value inhabits a declared type.
pub open spec fn fd_has_type(d: FieldData, t: FieldType) -> bool {
    match d {
        FieldData::Int(_) => t == FieldType::Int,
        FieldData::Boolean(_) => t == FieldType::Boolean,
        FieldData::Text(_) => t == FieldType::Text,
        FieldData::Words(_) => t == FieldType::Words,
    }
}

/// The flat arguments a leaf value expands to: integers in decimal,
/// booleans as `1`/`0`, text verbatim, and one argument per word.
pub open spec fn value_args_m(m: FieldM) -> Seq<Seq<u8>> {
    match m {
        FieldM::Int(i) => seq![dec_i64(i)],
        FieldM::Boolean(b) => seq![if b { seq![49u8] } else { seq![48u8] }],
        FieldM::Text(t) => seq![t],
        FieldM::Words(ws) => ws,
    }
}

/// The text a scalar wire value carries, where it carries any.
pub open spec fn is_wire_text(v: WireValue) -> bool {
    v is Bulk || v is Simple
}

pub open spec fn wire_text(v: WireValue) -> Seq<u8> {
    match v {
        WireValue::Bulk(b) => b@,
        WireValue::Simple(s) => s@,
        _ => Seq::empty(),
    }
}

/// What converting a wire value to a declared type yields: the scalar
/// conversion rules of the decode path.
pub open spec fn spec_convert(v: WireValue, t: FieldType) -> Result<FieldM, ConversionError> {
    match t {
        FieldType::Int => match v {
            WireValue::Int(i) => Ok(FieldM::Int(i as int)),
            WireValue::Bulk(b) => match spec_parse_i64(b@) {
                Some(n) => Ok(FieldM::Int(n)),
                None => Err(ConversionError { expected: t }),
            },
            WireValue::Simple(s) => match spec_parse_i64(s@) {
                Some(n) => Ok(FieldM::Int(n)),
                None => Err(ConversionError { expected: t }),
            },
            _ => Err(ConversionError { expected: t }),
        },
        FieldType::Boolean => match v {
            WireValue::Int(i) => if i == 0 {
                Ok(FieldM::Boolean(false))
            } else if i == 1 {
                Ok(FieldM::Boolean(true))
            } else {
                Err(ConversionError { expected: t })
            },
            WireValue::Bulk(b) => if b@ == seq![49u8] {
                Ok(FieldM::Boolean(true))
            } else if b@ == seq![48u8] {
                Ok(FieldM::Boolean(false))
            } else {
                Err(ConversionError { expected: t })
            },
            WireValue::Simple(s) => if s@ == seq![49u8] {
                Ok(FieldM::Boolean(true))
            } else if s@ == seq![48u8] {
                Ok(FieldM::Boolean(false))
            } else {
                Err(ConversionError { expected: t })
            },
            _ => Err(ConversionError { expected: t }),
        },
        FieldType::Text => match v {
            WireValue::Bulk(b) => Ok(FieldM::Text(b@)),
            WireValue::Simple(s) => Ok(FieldM::Text(s@)),
            _ => Err(ConversionError { expected: t }),
        },
        FieldType::Words => match v {
            WireValue::Array(items) => if forall|i: int|
                0 <= i < items@.len() ==> is_wire_text(#[trigger] items@[i]) {
                Ok(FieldM::Words(Seq::new(items@.len(), |i: int| wire_text(items@[i]))))
            } else {
                Err(ConversionError { expected: t })
            },
            WireValue::Bulk(b) => Ok(FieldM::Words(seq![b@])),
            WireValue::Simple(s) => Ok(FieldM::Words(seq![s@])),
            _ => Err(ConversionError { expected: t }),
        },
    }
}

/// The model of a conversion result.
pub open spec fn conv_model(r: Result<FieldData, ConversionError>) -> Result<
    FieldM,
    ConversionError,
> {
    match r {
        Ok(d) => Ok(fd_model(d)),
        Err(e) => Err(e),
    }
}

/// How many flat arguments a leaf value expands to.
pub fn value_arg_count(d: &FieldData) -> (n: usize)
    ensures
        n == value_args_m(fd_model(*d)).len(),
{
    match d {
        FieldData::Int(_) => 1,
        FieldData::Boolean(_) => 1,
        FieldData::Text(_) => 1,
        FieldData::Words(ws) => ws.len(),
    }
}

/// Expand a leaf value to its flat arguments, exactly as
/// [`value_args_m`] describes.
pub fn encode_value(d: &FieldData) -> (r: Vec<Vec<u8>>)
    ensures
        r.deep_view() == value_args_m(fd_model(*d)),
{
    match d {
        FieldData::Int(i) => {
            let mut out: Vec<Vec<u8>> = Vec::new();
            out.push(fmt_i64(*i));
            proof {
                assert(out.deep_view() =~~= value_args_m(fd_model(*d)));
            }
            out
        }
        FieldData::Boolean(b) => {
            let mut arg: Vec<u8> = Vec::new();
            if *b {
                arg.push(49u8);
            } else {
                arg.push(48u8);
            }
            let mut out: Vec<Vec<u8>> = Vec::new();
            proof {
                if *b {
                    assert(arg@ =~= seq![49u8]);
                } else {
                    assert(arg@ =~= seq![48u8]);
                }
            }
            out.push(arg);
            proof {
                assert(out.deep_view() =~~= value_args_m(fd_model(*d)));
            }
            out
        }
        FieldData::Text(t) => {
            let mut out: Vec<Vec<u8>> = Vec::new();
            out.push(crate::wire::bytes_clone(t));
            proof {
                assert(out.deep_view() =~~= value_args_m(fd_model(*d)));
            }
            out
        }
        FieldData::Words(ws) => {
            let mut out: Vec<Vec<u8>> = Vec::new();
            let mut i: usize = 0;
            while i < ws.len()
                invariant
                    0 <= i <= ws@.len(),
                    out@.len() == i,
                    forall|j: int| 0 <= j < i ==> #[trigger] out@[j]@ == ws@[j]@,
                decreases ws@.len() - i,
            {
                out.push(crate::wire::bytes_clone(&ws[i]));
                i += 1;
            }
            proof {
                let dv = out.deep_view();
                let tv = ws.deep_view();
                assert forall|j: int| 0 <= j < tv.len() implies dv[j] == tv[j] by {
                    assert(out@[j]@ == ws@[j]@);
                    assert(out@[j].deep_view() =~= ws@[j].deep_view());
                }
                assert(dv =~= tv);
            }
            out
        }
    }
}

/// Convert a wire value to a declared type, exactly as [`spec_convert`]
/// describes.
pub fn decode_value(v: &WireValue, t: FieldType) -> (r: Result<FieldData, ConversionError>)
    ensures
        conv_model(r) == spec_convert(*v, t),
{
    match t {
        FieldType::Int => match v {
            WireValue::Int(i) => Ok(FieldData::Int(*i)),
            WireValue::Bulk(b) => match parse_i64(b) {
                Some(n) => Ok(FieldData::Int(n)),
                None => Err(ConversionError { expected: t }),
            },
            WireValue::Simple(s) => match parse_i64(s) {
                Some(n) => Ok(FieldData::Int(n)),
                None => Err(ConversionError { expected: t }),
            },
            _ => Err(ConversionError { expected: t }),
        },
        FieldType::Boolean => match v {
            WireValue::Int(i) => if *i == 0 {
                Ok(FieldData::Boolean(false))
            } else if *i == 1 {
                Ok(FieldData::Boolean(true))
            } else {
                Err(ConversionError { expected: t })
            },
            WireValue::Bulk(b) => decode_boolean_bytes(b, t),
            WireValue::Simple(s) => decode_boolean_bytes(s, t),
            _ => Err(ConversionError { expected: t }),
        },
        FieldType::Text => match v {
            WireValue::Bulk(b) => Ok(FieldData::Text(crate::wire::bytes_clone(b))),
            WireValue::Simple(s) => Ok(FieldData::Text(crate::wire::bytes_clone(s))),
            _ => Err(ConversionError { expected: t }),
        },
        FieldType::Words => match v {
            WireValue::Array(items) => decode_words(items, t),
            WireValue::Bulk(b) => {
                let mut ws: Vec<Vec<u8>> = Vec::new();
                ws.push(crate::wire::bytes_clone(b));
                proof {
                    assert(ws.deep_view() =~~= seq![b@]);
                }
                Ok(FieldData::Words(ws))
            }
            WireValue::Simple(s) => {
                let mut ws: Vec<Vec<u8>> = Vec::new();
                ws.push(crate::wire::bytes_clone(s));
                proof {
                    assert(ws.deep_view() =~~= seq![s@]);
                }
                Ok(FieldData::Words(ws))
            }
            _ => Err(ConversionError { expected: t }),
        },
    }
}

/// Decode the byte forms `1` and `0` of a boolean.
fn decode_boolean_bytes(b: &Vec<u8>, t: FieldType) -> (r: Result<FieldData, ConversionError>)
    requires
        t == FieldType::Boolean,
    ensures
        conv_model(r) == (if b@ == seq![49u8] {
            Ok::<FieldM, ConversionError>(FieldM::Boolean(true))
        } else if b@ == seq![48u8] {
            Ok::<FieldM, ConversionError>(FieldM::Boolean(false))
        } else {
            Err::<FieldM, ConversionError>(ConversionError { expected: t })
        }),
{
    if b.len() == 1 && b[0] == 49 {
        proof {
            assert(b@ =~= seq![49u8]);
        }
        Ok(FieldData::Boolean(true))
    } else if b.len() == 1 && b[0] == 48 {
        proof {
            assert(b@ =~= seq![48u8]);
        }
        Ok(FieldData::Boolean(false))
    } else {
        proof {
            assert(b@ != seq![49u8] && b@ != seq![48u8]) by {
                if b@ == seq![49u8] || b@ == seq![48u8] {
                    assert(b@.len() == 1);
                }
            }
        }
        Err(ConversionError { expected: t })
    }
}

/// Decode a word list from an array of scalar wire values.
fn decode_words(items: &Vec<WireValue>, t: FieldType) -> (r: Result<FieldData, ConversionError>)
    requires
        t == FieldType::Words,
    ensures
        conv_model(r) == (if forall|i: int|
            0 <= i < items@.len() ==> is_wire_text(#[trigger] items@[i]) {
            Ok::<FieldM, ConversionError>(
                FieldM::Words(Seq::new(items@.len(), |i: int| wire_text(items@[i]))),
            )
        } else {
            Err::<FieldM, ConversionError>(ConversionError { expected: t })
        }),
{
    let mut ws: Vec<Vec<u8>> = Vec::new();
    let mut i: usize = 0;
    while i < items.len()
        invariant
            0 <= i <= items@.len(),
            ws@.len() == i,
            forall|j: int| 0 <= j < i ==> is_wire_text(#[trigger] items@[j]),
            forall|j: int| 0 <= j < i ==> #[trigger] ws@[j]@ == wire_text(items@[j]),
        decreases items@.len() - i,
    {
        match &items[i] {
            WireValue::Bulk(b) => {
                ws.push(crate::wire::bytes_clone(b));
            }
            WireValue::Simple(s) => {
                ws.push(crate::wire::bytes_clone(s));
            }
            _ => {
                proof {
                    assert(!is_wire_text(items@[i as int]));
                }
                return Err(ConversionError { expected: t });
            }
        }
        i += 1;
    }
    proof {
        let dv = ws.deep_view();
        let tv = Seq::new(items@.len(), |j: int| wire_text(items@[j]));
        assert forall|j: int| 0 <= j < tv.len() implies dv[j] == tv[j] by {
            assert(ws@[j]@ == wire_text(items@[j]));
            assert(ws@[j].deep_view() =~= wire_text(items@[j]));
        }
        assert(dv =~= tv);
    }
    Ok(FieldData::Words(ws))
}

/// Converting a value's own single flat argument, seen as bulk bytes on
/// the wire, yields the value back.
pub proof fn lemma_convert_encoded(d: FieldData, w: WireValue, t: FieldType)
    requires
        fd_has_type(d, t),
        value_args_m(fd_model(d)).len() == 1,
        w matches WireValue::Bulk(b) && b@ == value_args_m(fd_model(d))[0],
    ensures
        spec_convert(w, t) == Ok::<FieldM, ConversionError>(fd_model(d)),
{
    match d {
        FieldData::Int(i) => {
            crate::num::lemma_parse_dec_i64(i as int);
        }
        FieldData::Boolean(b) => {
            assert(seq![49u8] != seq![48u8]) by {
                assert(seq![49u8][0] != seq![48u8][0]);
            }
        }
        FieldData::Text(tv) => {}
        FieldData::Words(ws) => {
            assert(ws.deep_view() =~~= seq![ws.deep_view()[0]]);
            assert(spec_convert(w, t) matches Ok(m) && m =~= fd_model(d));
        }
    }
}

} // verus!
