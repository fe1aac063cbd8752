//! The decoder: ingest one wire value as a record. A Named record comes
//! as an even-length array of alternating keys and values or as a direct
//! pair list; either is grouped into a key/value bag (later entries win
//! on duplicate keys) and the descriptor table is walked against it. A
//! Positional record comes as an array of exactly one element per field.
//! Every failure aborts the whole decode; no partial record escapes.

use vstd::prelude::*;

verus! {

use crate::schema::{
    DescriptorTable, Record, RecordKind, DescM, table_descs, rec_model, record_wf, slot_model,
};
use crate::value::{
    FieldM, ConversionError, spec_convert, decode_value, fd_has_type, conv_model,
};
use crate::wire::{WireValue, spec_is_sentinel, is_null_sentinel, spec_key_bytes, key_bytes};

/// Why a top-level wire value was not record-shaped.
#[derive(Clone, Copy, PartialEq, Eq, Debug, Structural)]
pub enum ShapeDetail {
    /// Not an array, pair list, or nil at all; names the kind the
    /// table expected.
    NotRecord { expected: RecordKind },
    /// A Named record array must pair keys with values.
    OddPairList { len: usize },
    /// A Positional record array must have one element per field.
    WrongArity { expected: usize, actual: usize },
    /// The key of the pair at this position could not become a string.
    KeyNotText { pair: usize },
}

/// A decode failure. Every variant aborts the whole decode.
#[derive(PartialEq, Eq, Debug)]
pub enum DecodeError {
    ShapeError(ShapeDetail),
    NullRecordError,
    MissingFieldError { field: Vec<u8> },
    FieldTypeError { field: Vec<u8>, cause: ConversionError },
    ElementTypeError { index: usize, cause: ConversionError },
}

/// The mathematical model of a decode failure.
#[verifier::ext_equal]
pub enum ErrM {
    ShapeError(ShapeDetail),
    NullRecordError,
    MissingFieldError(Seq<u8>),
    FieldTypeError(Seq<u8>, ConversionError),
    ElementTypeError(int, ConversionError),
}

pub open spec fn err_model(e: DecodeError) -> ErrM {
    match e {
        DecodeError::ShapeError(d) => ErrM::ShapeError(d),
        DecodeError::NullRecordError => ErrM::NullRecordError,
        DecodeError::MissingFieldError { field } => ErrM::MissingFieldError(field@),
        DecodeError::FieldTypeError { field, cause } => ErrM::FieldTypeError(field@, cause),
        DecodeError::ElementTypeError { index, cause } => ErrM::ElementTypeError(
            index as int,
            cause,
        ),
    }
}

/// The bag built from the first `n` key/value pairs of an alternating
/// array: each key converted to a string, each value kept as it stands.
pub open spec fn bag_prefix_arr(items: Seq<WireValue>, n: int) -> Result<
    Seq<(Seq<u8>, WireValue)>,
    ErrM,
>
    decreases n,
{
    if n <= 0 {
        Ok(Seq::empty())
    } else {
        match bag_prefix_arr(items, n - 1) {
            Err(e) => Err(e),
            Ok(bag) => match spec_key_bytes(items[2 * (n - 1)]) {
                None => Err(ErrM::ShapeError(ShapeDetail::KeyNotText { pair: (n - 1) as usize })),
                Some(k) => Ok(bag.push((k, items[2 * (n - 1) + 1]))),
            },
        }
    }
}

pub open spec fn spec_build_bag_arr(items: Seq<WireValue>) -> Result<
    Seq<(Seq<u8>, WireValue)>,
    ErrM,
> {
    bag_prefix_arr(items, items.len() as int / 2)
}

/// The bag built from the first `n` entries of a direct pair list.
pub open spec fn bag_prefix_pairs(prs: Seq<(WireValue, WireValue)>, n: int) -> Result<
    Seq<(Seq<u8>, WireValue)>,
    ErrM,
>
    decreases n,
{
    if n <= 0 {
        Ok(Seq::empty())
    } else {
        match bag_prefix_pairs(prs, n - 1) {
            Err(e) => Err(e),
            Ok(bag) => match spec_key_bytes(prs[n - 1].0) {
                None => Err(ErrM::ShapeError(ShapeDetail::KeyNotText { pair: (n - 1) as usize })),
                Some(k) => Ok(bag.push((k, prs[n - 1].1))),
            },
        }
    }
}

pub open spec fn spec_build_bag_pairs(prs: Seq<(WireValue, WireValue)>) -> Result<
    Seq<(Seq<u8>, WireValue)>,
    ErrM,
> {
    bag_prefix_pairs(prs, prs.len() as int)
}

/// Look a wire name up in a bag: the last entry under that name wins.
pub open spec fn bag_lookup(bag: Seq<(Seq<u8>, WireValue)>, name: Seq<u8>) -> Option<WireValue>
    decreases bag.len(),
{
    if bag.len() == 0 {
        None
    } else if bag.last().0 == name {
        Some(bag.last().1)
    } else {
        bag_lookup(bag.drop_last(), name)
    }
}

/// What one descriptor resolves to against a bag: absent optional fields
/// and sentinel values become empty slots, a missing required field or a
/// failed conversion aborts.
pub open spec fn spec_decode_field(d: DescM, bag: Seq<(Seq<u8>, WireValue)>) -> Result<
    Option<FieldM>,
    ErrM,
> {
    match bag_lookup(bag, d.name) {
        None => if d.optional {
            Ok(None)
        } else {
            Err(ErrM::MissingFieldError(d.name))
        },
        Some(v) => if d.optional && spec_is_sentinel(v) {
            Ok(None)
        } else {
            match spec_convert(v, d.ftype) {
                Ok(m) => Ok(Some(m)),
                Err(c) => Err(ErrM::FieldTypeError(d.name, c)),
            }
        },
    }
}

/// The slots of the first `n` descriptors against a bag; the first
/// failing field, in table order, aborts.
pub open spec fn fields_prefix(t: DescriptorTable, bag: Seq<(Seq<u8>, WireValue)>, n: int) -> Result<
    Seq<Option<FieldM>>,
    ErrM,
>
    decreases n,
{
    if n <= 0 {
        Ok(Seq::empty())
    } else {
        match fields_prefix(t, bag, n - 1) {
            Err(e) => Err(e),
            Ok(s) => match spec_decode_field(table_descs(t)[n - 1], bag) {
                Err(e) => Err(e),
                Ok(v) => Ok(s.push(v)),
            },
        }
    }
}

pub open spec fn spec_decode_named(t: DescriptorTable, bag: Seq<(Seq<u8>, WireValue)>) -> Result<
    Seq<Option<FieldM>>,
    ErrM,
> {
    fields_prefix(t, bag, t.fields@.len() as int)
}

/// The slots of the first `n` positional elements; the first failing
/// element aborts with its index.
pub open spec fn elems_prefix(t: DescriptorTable, items: Seq<WireValue>, n: int) -> Result<
    Seq<Option<FieldM>>,
    ErrM,
>
    decreases n,
{
    if n <= 0 {
        Ok(Seq::empty())
    } else {
        match elems_prefix(t, items, n - 1) {
            Err(e) => Err(e),
            Ok(s) => match spec_convert(items[n - 1], table_descs(t)[n - 1].ftype) {
                Err(c) => Err(ErrM::ElementTypeError(n - 1, c)),
                Ok(m) => Ok(s.push(Some(m))),
            },
        }
    }
}

pub open spec fn spec_decode_positional(t: DescriptorTable, items: Seq<WireValue>) -> Result<
    Seq<Option<FieldM>>,
    ErrM,
> {
    elems_prefix(t, items, t.fields@.len() as int)
}

/// What decoding one wire value against a table yields: the slot models
/// of the record, or the first error.
pub open spec fn spec_decode(t: DescriptorTable, v: WireValue) -> Result<
    Seq<Option<FieldM>>,
    ErrM,
> {
    match t.kind {
        RecordKind::Unit => Ok(Seq::empty()),
        RecordKind::Named => match v {
            WireValue::Array(items) => if items@.len() % 2 == 0 {
                match spec_build_bag_arr(items@) {
                    Err(e) => Err(e),
                    Ok(bag) => spec_decode_named(t, bag),
                }
            } else {
                Err(ErrM::ShapeError(ShapeDetail::OddPairList { len: items@.len() as usize }))
            },
            WireValue::Pairs(prs) => match spec_build_bag_pairs(prs@) {
                Err(e) => Err(e),
                Ok(bag) => spec_decode_named(t, bag),
            },
            WireValue::Nil => Err(ErrM::NullRecordError),
            _ => Err(ErrM::ShapeError(ShapeDetail::NotRecord { expected: RecordKind::Named })),
        },
        RecordKind::Positional => match v {
            WireValue::Array(items) => if items@.len() == t.fields@.len() {
                spec_decode_positional(t, items@)
            } else {
                Err(
                    ErrM::ShapeError(
                        ShapeDetail::WrongArity {
                            expected: t.fields@.len() as usize,
                            actual: items@.len() as usize,
                        },
                    ),
                )
            },
            WireValue::Nil => Err(ErrM::NullRecordError),
            _ => Err(ErrM::ShapeError(ShapeDetail::NotRecord { expected: RecordKind::Positional })),
        },
    }
}

/// The model of a decode result.
pub open spec fn decoded_model(r: Result<Record, DecodeError>) -> Result<
    Seq<Option<FieldM>>,
    ErrM,
> {
    match r {
        Ok(rec) => Ok(rec_model(rec)),
        Err(e) => Err(err_model(e)),
    }
}

/// An error in a bag-building fold persists to every longer prefix.
pub proof fn lemma_bag_arr_err(items: Seq<WireValue>, i: int, j: int)
    requires
        0 <= i <= j,
        bag_prefix_arr(items, i) is Err,
    ensures
        bag_prefix_arr(items, j) == bag_prefix_arr(items, i),
    decreases j - i,
{
    if i < j {
        lemma_bag_arr_err(items, i, j - 1);
    }
}

pub proof fn lemma_bag_pairs_err(prs: Seq<(WireValue, WireValue)>, i: int, j: int)
    requires
        0 <= i <= j,
        bag_prefix_pairs(prs, i) is Err,
    ensures
        bag_prefix_pairs(prs, j) == bag_prefix_pairs(prs, i),
    decreases j - i,
{
    if i < j {
        lemma_bag_pairs_err(prs, i, j - 1);
    }
}

/// An error while walking the descriptors persists to the whole walk.
pub proof fn lemma_fields_err(t: DescriptorTable, bag: Seq<(Seq<u8>, WireValue)>, i: int, j: int)
    requires
        0 <= i <= j,
        fields_prefix(t, bag, i) is Err,
    ensures
        fields_prefix(t, bag, j) == fields_prefix(t, bag, i),
    decreases j - i,
{
    if i < j {
        lemma_fields_err(t, bag, i, j - 1);
    }
}

pub proof fn lemma_elems_err(t: DescriptorTable, items: Seq<WireValue>, i: int, j: int)
    requires
        0 <= i <= j,
        elems_prefix(t, items, i) is Err,
    ensures
        elems_prefix(t, items, j) == elems_prefix(t, items, i),
    decreases j - i,
{
    if i < j {
        lemma_elems_err(t, items, i, j - 1);
    }
}

/// The model of an executable bag: key views paired with the referenced
/// wire values.
pub open spec fn bag_model(bag: Seq<(Vec<u8>, &WireValue)>) -> Seq<(Seq<u8>, WireValue)> {
    Seq::new(bag.len(), |i: int| (bag[i].0@, *bag[i].1))
}

/// Group an alternating key/value array into a bag.
fn build_bag_arr<'a>(items: &'a Vec<WireValue>) -> (r: Result<
    Vec<(Vec<u8>, &'a WireValue)>,
    DecodeError,
>)
    requires
        items@.len() % 2 == 0,
    ensures
        match r {
            Ok(bag) => spec_build_bag_arr(items@) == Ok::<_, ErrM>(bag_model(bag@)),
            Err(e) => spec_build_bag_arr(items@) == Err::<Seq<(Seq<u8>, WireValue)>, _>(err_model(e)),
        },
{
    let total = items.len();
    let half = total / 2;
    let mut bag: Vec<(Vec<u8>, &WireValue)> = Vec::new();
    let mut i: usize = 0;
    proof {
        vstd::arithmetic::div_mod::lemma_fundamental_div_mod(items@.len() as int, 2);
        assert(bag_model(bag@) =~= Seq::<(Seq<u8>, WireValue)>::empty());
    }
    while i < half
        invariant
            0 <= i <= half,
            half == items@.len() as int / 2,
            items@.len() % 2 == 0,
            items@.len() as int == 2 * half,
            items@.len() <= usize::MAX,
            bag_prefix_arr(items@, i as int) == Ok::<_, ErrM>(bag_model(bag@)),
        decreases half - i,
    {
        proof {
            assert(2 * (i as int) + 1 < items@.len());
        }
        let k: usize = 2 * i;
        match key_bytes(&items[k]) {
            None => {
                proof {
                    lemma_bag_arr_err(items@, i as int + 1, half as int);
                }
                return Err(
                    DecodeError::ShapeError(ShapeDetail::KeyNotText { pair: i }),
                );
            }
            Some(kb) => {
                bag.push((kb, &items[k + 1]));
            }
        }
        i += 1;
        proof {
            assert(bag_model(bag@) =~= bag_prefix_arr(items@, i as int)->Ok_0);
        }
    }
    Ok(bag)
}

/// Group a direct pair list into a bag.
fn build_bag_pairs<'a>(prs: &'a Vec<(WireValue, WireValue)>) -> (r: Result<
    Vec<(Vec<u8>, &'a WireValue)>,
    DecodeError,
>)
    ensures
        match r {
            Ok(bag) => spec_build_bag_pairs(prs@) == Ok::<_, ErrM>(bag_model(bag@)),
            Err(e) => spec_build_bag_pairs(prs@) == Err::<Seq<(Seq<u8>, WireValue)>, _>(err_model(e)),
        },
{
    let mut bag: Vec<(Vec<u8>, &WireValue)> = Vec::new();
    let mut i: usize = 0;
    proof {
        assert(bag_model(bag@) =~= Seq::<(Seq<u8>, WireValue)>::empty());
    }
    while i < prs.len()
        invariant
            0 <= i <= prs@.len(),
            bag_prefix_pairs(prs@, i as int) == Ok::<_, ErrM>(bag_model(bag@)),
        decreases prs@.len() - i,
    {
        match key_bytes(&prs[i].0) {
            None => {
                proof {
                    lemma_bag_pairs_err(prs@, i as int + 1, prs@.len() as int);
                }
                return Err(
                    DecodeError::ShapeError(ShapeDetail::KeyNotText { pair: i }),
                );
            }
            Some(kb) => {
                bag.push((kb, &prs[i].1));
            }
        }
        i += 1;
        proof {
            assert(bag_model(bag@) =~= bag_prefix_pairs(prs@, i as int)->Ok_0);
        }
    }
    Ok(bag)
}

/// Find the last entry under a name.
fn bag_get<'a>(bag: &Vec<(Vec<u8>, &'a WireValue)>, name: &Vec<u8>) -> (r: Option<&'a WireValue>)
    ensures
        match r {
            Some(v) => bag_lookup(bag_model(bag@), name@) == Some(*v),
            None => bag_lookup(bag_model(bag@), name@) is None,
        },
{
    let mut i: usize = bag.len();
    proof {
        assert(bag_model(bag@).take(bag@.len() as int) =~= bag_model(bag@));
    }
    while i > 0
        invariant
            0 <= i <= bag@.len(),
            bag_lookup(bag_model(bag@), name@) == bag_lookup(
                bag_model(bag@).take(i as int),
                name@,
            ),
        decreases i,
    {
        i -= 1;
        let hit = crate::wire::bytes_eq(&bag[i].0, name);
        proof {
            let bm = bag_model(bag@);
            assert(bm.take(i as int + 1).drop_last() =~= bm.take(i as int));
            assert(bm.take(i as int + 1).last() == bm[i as int]);
        }
        if hit {
            return Some(bag[i].1);
        }
    }
    proof {
        assert(bag_model(bag@).take(0) =~= Seq::<(Seq<u8>, WireValue)>::empty());
    }
    None
}

/// The model of the slots built so far.
pub open spec fn slots_model(s: Seq<Option<crate::value::FieldData>>) -> Seq<Option<FieldM>> {
    Seq::new(s.len(), |i: int| slot_model(s[i]))
}

/// Walk the descriptor table against a bag.
fn decode_named(t: &DescriptorTable, bag: &Vec<(Vec<u8>, &WireValue)>) -> (r: Result<
    Record,
    DecodeError,
>)
    requires
        t.kind == RecordKind::Named,
    ensures
        decoded_model(r) == spec_decode_named(*t, bag_model(bag@)),
        r matches Ok(rec) ==> record_wf(*t, rec),
{
    let ghost bm = bag_model(bag@);
    let ghost n = t.fields@.len() as int;
    let mut slots: Vec<Option<crate::value::FieldData>> = Vec::new();
    let mut i: usize = 0;
    proof {
        assert(slots_model(slots@) =~= Seq::<Option<FieldM>>::empty());
    }
    while i < t.fields.len()
        invariant
            0 <= i <= t.fields@.len(),
            t.kind == RecordKind::Named,
            bm == bag_model(bag@),
            n == t.fields@.len() as int,
            slots@.len() == i,
            fields_prefix(*t, bm, i as int) == Ok::<_, ErrM>(slots_model(slots@)),
            forall|j: int| 0 <= j < i ==> match #[trigger] slots@[j] {
                Some(d) => fd_has_type(d, t.fields@[j].ftype),
                None => t.fields@[j].optional,
            },
        decreases t.fields@.len() - i,
    {
        let ghost d = table_descs(*t)[i as int];
        match bag_get(bag, &t.fields[i].name) {
            None => {
                if t.fields[i].optional {
                    slots.push(None);
                } else {
                    proof {
                        lemma_fields_err(*t, bm, i as int + 1, n);
                    }
                    return Err(
                        DecodeError::MissingFieldError {
                            field: crate::wire::bytes_clone(&t.fields[i].name),
                        },
                    );
                }
            }
            Some(v) => {
                if t.fields[i].optional && is_null_sentinel(v) {
                    slots.push(None);
                } else {
                    match decode_value(v, t.fields[i].ftype) {
                        Ok(dv) => {
                            proof {
                                assert(conv_model(Ok::<_, ConversionError>(dv))
                                    == spec_convert(*v, d.ftype));
                            }
                            slots.push(Some(dv));
                        }
                        Err(c) => {
                            proof {
                                lemma_fields_err(*t, bm, i as int + 1, n);
                            }
                            return Err(
                                DecodeError::FieldTypeError {
                                    field: crate::wire::bytes_clone(&t.fields[i].name),
                                    cause: c,
                                },
                            );
                        }
                    }
                }
            }
        }
        i += 1;
        proof {
            assert(slots_model(slots@) =~= fields_prefix(*t, bm, i as int)->Ok_0);
        }
    }
    let rec = Record { slots };
    proof {
        assert(rec_model(rec) =~= slots_model(rec.slots@));
    }
    Ok(rec)
}

/// Convert a positional array element by element.
fn decode_positional(t: &DescriptorTable, items: &Vec<WireValue>) -> (r: Result<
    Record,
    DecodeError,
>)
    requires
        t.kind == RecordKind::Positional,
        items@.len() == t.fields@.len(),
    ensures
        decoded_model(r) == spec_decode_positional(*t, items@),
        r matches Ok(rec) ==> record_wf(*t, rec),
{
    let ghost n = t.fields@.len() as int;
    let mut slots: Vec<Option<crate::value::FieldData>> = Vec::new();
    let mut i: usize = 0;
    proof {
        assert(slots_model(slots@) =~= Seq::<Option<FieldM>>::empty());
    }
    while i < t.fields.len()
        invariant
            0 <= i <= t.fields@.len(),
            t.kind == RecordKind::Positional,
            items@.len() == t.fields@.len(),
            n == t.fields@.len() as int,
            slots@.len() == i,
            elems_prefix(*t, items@, i as int) == Ok::<_, ErrM>(slots_model(slots@)),
            forall|j: int| 0 <= j < i ==> match #[trigger] slots@[j] {
                Some(d) => fd_has_type(d, t.fields@[j].ftype),
                None => false,
            },
        decreases t.fields@.len() - i,
    {
        match decode_value(&items[i], t.fields[i].ftype) {
            Ok(dv) => {
                slots.push(Some(dv));
            }
            Err(c) => {
                proof {
                    lemma_elems_err(*t, items@, i as int + 1, n);
                }
                return Err(DecodeError::ElementTypeError { index: i, cause: c });
            }
        }
        i += 1;
        proof {
            assert(slots_model(slots@) =~= elems_prefix(*t, items@, i as int)->Ok_0);
        }
    }
    let rec = Record { slots };
    proof {
        assert(rec_model(rec) =~= slots_model(rec.slots@));
    }
    Ok(rec)
}

/// Decode one wire value against a descriptor table, exactly as
/// [`spec_decode`] describes: the decode succeeds if and only if the
/// wire value has an accepted shape and every field resolves, and every
/// failure names its field, index, or the offending shape.
pub fn decode(t: &DescriptorTable, v: &WireValue) -> (r: Result<Record, DecodeError>)
    ensures
        decoded_model(r) == spec_decode(*t, *v),
        r matches Ok(rec) ==> rec.slots@.len() == t.fields@.len() || t.kind == RecordKind::Unit,
        r matches Ok(rec) ==> (t.kind == RecordKind::Unit || record_wf(*t, rec)),
{
    match t.kind {
        RecordKind::Unit => {
            let rec = Record { slots: Vec::new() };
            proof {
                assert(rec_model(rec) =~= Seq::<Option<FieldM>>::empty());
            }
            Ok(rec)
        }
        RecordKind::Named => match v {
            WireValue::Array(items) => {
                if items.len() % 2 != 0 {
                    return Err(
                        DecodeError::ShapeError(ShapeDetail::OddPairList { len: items.len() }),
                    );
                }
                match build_bag_arr(items) {
                    Err(e) => Err(e),
                    Ok(bag) => decode_named(t, &bag),
                }
            }
            WireValue::Pairs(prs) => match build_bag_pairs(prs) {
                Err(e) => Err(e),
                Ok(bag) => decode_named(t, &bag),
            },
            WireValue::Nil => Err(DecodeError::NullRecordError),
            _ => Err(
                DecodeError::ShapeError(ShapeDetail::NotRecord { expected: RecordKind::Named }),
            ),
        },
        RecordKind::Positional => match v {
            WireValue::Array(items) => {
                if items.len() != t.fields.len() {
                    return Err(
                        DecodeError::ShapeError(
                            ShapeDetail::WrongArity {
                                expected: t.fields.len(),
                                actual: items.len(),
                            },
                        ),
                    );
                }
                decode_positional(t, items)
            }
            WireValue::Nil => Err(DecodeError::NullRecordError),
            _ => Err(
                DecodeError::ShapeError(
                    ShapeDetail::NotRecord { expected: RecordKind::Positional },
                ),
            ),
        },
    }
}

} // verus!
