//! The codec's laws, proved once and for all records: round-tripping
//! through the flat and the pair encodings, sentinel symmetry, the
//! missing-required-field error, and shape rejection.
//!
//! The round trips hold for every record whose present values each
//! expand to exactly one argument ([`one_arg_slots`]) and whose present
//! optional values do not themselves encode as the sentinel
//! ([`sentinel_free`]): a multi-argument value shifts the key/value
//! pairing of the flat stream, and a present optional `null` is
//! indistinguishable from absence — both lossy by the wire format's own
//! design.

use vstd::prelude::*;

verus! {

use crate::schema::{DescriptorTable, Record, RecordKind, DescM, table_descs, rec_model, record_wf, table_wf};
use crate::value::{FieldM, value_args_m, fd_model, fd_has_type, lemma_convert_encoded, spec_convert};
use crate::wire::{WireValue, null_seq, spec_is_sentinel, spec_key_bytes};
use crate::encode::{slot_args, field_contrib, spec_flat_prefix, spec_encode_flat, spec_encode_pairs, space_join};
use crate::decode::{
    ErrM, ShapeDetail, bag_prefix_arr, bag_prefix_pairs, bag_lookup, spec_decode_field,
    fields_prefix, spec_decode_named, elems_prefix, spec_decode,
};

/// Every present slot of the record expands to exactly one argument.
pub open spec fn one_arg_slots(r: Record) -> bool {
    forall|i: int| 0 <= i < rec_model(r).len() ==> match #[trigger] rec_model(r)[i] {
        Some(m) => value_args_m(m).len() == 1,
        None => true,
    }
}

/// No present optional slot encodes to the single sentinel argument.
pub open spec fn sentinel_free(t: DescriptorTable, r: Record) -> bool {
    forall|i: int| 0 <= i < rec_model(r).len() ==> match #[trigger] rec_model(r)[i] {
        Some(m) => table_descs(t)[i].optional ==> value_args_m(m) != seq![null_seq()],
        None => true,
    }
}

/// A wire value carrying exactly these bulk bytes.
pub open spec fn bulk_eq(v: WireValue, b: Seq<u8>) -> bool {
    match v {
        WireValue::Bulk(x) => x@ == b,
        _ => false,
    }
}

/// A wire array whose elements are exactly these bulk arguments.
pub open spec fn wire_flat_of(w: WireValue, args: Seq<Seq<u8>>) -> bool {
    match w {
        WireValue::Array(items) => items@.len() == args.len() && forall|i: int|
            0 <= i < args.len() ==> bulk_eq(#[trigger] items@[i], args[i]),
        _ => false,
    }
}

/// A wire pair list whose keys and values are exactly these bulk pairs.
pub open spec fn wire_pairs_of(w: WireValue, pairs: Seq<(Seq<u8>, Seq<u8>)>) -> bool {
    match w {
        WireValue::Pairs(prs) => prs@.len() == pairs.len() && forall|i: int|
            0 <= i < pairs.len() ==> bulk_eq((#[trigger] prs@[i]).0, pairs[i].0)
                && bulk_eq(prs@[i].1, pairs[i].1),
        _ => false,
    }
}

/// Sentinel symmetry, encode side: an absent optional field contributes
/// its wire name and then exactly one argument, the four sentinel bytes.
pub proof fn lemma_absent_encodes_sentinel(d: DescM)
    ensures
        slot_args(None) == seq![null_seq()],
        field_contrib(RecordKind::Named, d, None) =~= seq![d.name, null_seq()],
{
}

/// Sentinel symmetry, decode side: a bag entry under an optional field's
/// name that is the sentinel, in any of its three scalar forms, decodes
/// to absence — never to an error.
pub proof fn lemma_sentinel_decodes_absent(d: DescM, bag: Seq<(Seq<u8>, WireValue)>)
    requires
        d.optional,
        bag_lookup(bag, d.name) matches Some(v) && spec_is_sentinel(v),
    ensures
        spec_decode_field(d, bag) == Ok::<Option<FieldM>, ErrM>(None),
{
}

/// A required field whose name the bag lacks fails with
/// `MissingFieldError` naming that field.
pub proof fn lemma_missing_required(d: DescM, bag: Seq<(Seq<u8>, WireValue)>)
    requires
        !d.optional,
        bag_lookup(bag, d.name) is None,
    ensures
        spec_decode_field(d, bag) == Err::<Option<FieldM>, ErrM>(ErrM::MissingFieldError(d.name)),
{
}

/// And the whole decode aborts with that error: if the fields before
/// field `k` resolve, a required field `k` missing from the bag is the
/// error of the whole record.
pub proof fn lemma_missing_required_aborts(
    t: DescriptorTable,
    bag: Seq<(Seq<u8>, WireValue)>,
    k: int,
)
    requires
        0 <= k < t.fields@.len(),
        fields_prefix(t, bag, k) is Ok,
        !table_descs(t)[k].optional,
        bag_lookup(bag, table_descs(t)[k].name) is None,
    ensures
        spec_decode_named(t, bag) == Err::<Seq<Option<FieldM>>, ErrM>(
            ErrM::MissingFieldError(table_descs(t)[k].name),
        ),
{
    assert(fields_prefix(t, bag, k + 1) == Err::<Seq<Option<FieldM>>, ErrM>(
        ErrM::MissingFieldError(table_descs(t)[k].name),
    ));
    crate::decode::lemma_fields_err(t, bag, k + 1, t.fields@.len() as int);
}

/// Shape rejection: an odd-length array can never be a Named record.
pub proof fn lemma_odd_array_rejected(t: DescriptorTable, w: WireValue)
    requires
        t.kind == RecordKind::Named,
        w matches WireValue::Array(items) && items@.len() % 2 != 0,
    ensures
        spec_decode(t, w) matches Err(e) && e matches ErrM::ShapeError(s)
            && s matches ShapeDetail::OddPairList { len } && len == w->Array_0@.len() as usize,
{
}

/// Shape rejection: a Positional record of arity `n` refuses an array of
/// any other length, reporting both lengths.
pub proof fn lemma_wrong_arity_rejected(t: DescriptorTable, w: WireValue)
    requires
        t.kind == RecordKind::Positional,
        w matches WireValue::Array(items) && items@.len() != t.fields@.len(),
    ensures
        spec_decode(t, w) matches Err(e) && e matches ErrM::ShapeError(s)
            && s matches ShapeDetail::WrongArity { expected, actual }
            && expected == t.fields@.len() as usize && actual == w->Array_0@.len() as usize,
{
}

/// The shape of a Named flat encoding under one-argument slots: two
/// arguments per field, the wire name at every even index and the slot's
/// single argument at every odd one.
pub proof fn lemma_flat_shape(t: DescriptorTable, r: Record, k: int)
    requires
        t.kind == RecordKind::Named,
        record_wf(t, r),
        one_arg_slots(r),
        0 <= k <= t.fields@.len(),
    ensures
        spec_flat_prefix(t, r, k).len() == 2 * k,
        forall|j: int| 0 <= j < k ==> #[trigger] spec_flat_prefix(t, r, k)[2 * j]
            == table_descs(t)[j].name,
        forall|j: int| 0 <= j < k ==> #[trigger] spec_flat_prefix(t, r, k)[2 * j + 1]
            == slot_args(rec_model(r)[j])[0],
    decreases k,
{
    if k > 0 {
        lemma_flat_shape(t, r, k - 1);
        let pre = spec_flat_prefix(t, r, k - 1);
        let d = table_descs(t)[k - 1];
        let s = rec_model(r)[k - 1];
        assert(slot_args(s).len() == 1);
        let step = field_contrib(t.kind, d, s);
        assert(step == seq![d.name] + slot_args(s));
        assert(step.len() == 2);
        assert(step[0] == d.name);
        assert(step[1] == slot_args(s)[0]);
        let cur = spec_flat_prefix(t, r, k);
        assert(cur == pre + step);
        assert forall|j: int| 0 <= j < k implies #[trigger] cur[2 * j] == table_descs(t)[j].name
            && cur[2 * j + 1] == slot_args(rec_model(r)[j])[0] by {
            if j < k - 1 {
                assert(cur[2 * j] == pre[2 * j]);
                assert(cur[2 * j + 1] == pre[2 * j + 1]);
            } else {
                assert(cur[2 * j] == step[0]);
                assert(cur[2 * j + 1] == step[1]);
            }
        }
    }
}

/// The shape of a Positional flat encoding under one-argument slots:
/// one argument per field, in declaration order.
pub proof fn lemma_flat_shape_positional(t: DescriptorTable, r: Record, k: int)
    requires
        t.kind == RecordKind::Positional,
        record_wf(t, r),
        one_arg_slots(r),
        0 <= k <= t.fields@.len(),
    ensures
        spec_flat_prefix(t, r, k).len() == k,
        forall|j: int| 0 <= j < k ==> #[trigger] spec_flat_prefix(t, r, k)[j]
            == slot_args(rec_model(r)[j])[0],
    decreases k,
{
    if k > 0 {
        lemma_flat_shape_positional(t, r, k - 1);
        let pre = spec_flat_prefix(t, r, k - 1);
        let s = rec_model(r)[k - 1];
        assert(slot_args(s).len() == 1);
        let cur = spec_flat_prefix(t, r, k);
        assert forall|j: int| 0 <= j < k implies #[trigger] cur[j]
            == slot_args(rec_model(r)[j])[0] by {
            if j < k - 1 {
                assert(cur[j] == pre[j]);
            } else {
                assert(cur[j] == field_contrib(t.kind, table_descs(t)[k - 1], s)[0]);
            }
        }
    }
}

/// Building the bag of a flat-encoded Named record succeeds and yields
/// one entry per field: the wire name, and the slot's single argument as
/// bulk bytes.
proof fn lemma_bag_of_flat(t: DescriptorTable, r: Record, items: Seq<WireValue>, m: int)
    requires
        t.kind == RecordKind::Named,
        record_wf(t, r),
        one_arg_slots(r),
        items.len() == spec_encode_flat(t, r).len(),
        forall|i: int| 0 <= i < items.len() ==> bulk_eq(
            #[trigger] items[i],
            spec_encode_flat(t, r)[i],
        ),
        0 <= m <= t.fields@.len(),
    ensures
        bag_prefix_arr(items, m) matches Ok(bag) && bag.len() == m && (forall|j: int|
            0 <= j < m ==> (#[trigger] bag[j]).0 == table_descs(t)[j].name) && (forall|j: int|
            0 <= j < m ==> bulk_eq((#[trigger] bag[j]).1, slot_args(rec_model(r)[j])[0])),
    decreases m,
{
    lemma_flat_shape(t, r, t.fields@.len() as int);
    if m > 0 {
        lemma_bag_of_flat(t, r, items, m - 1);
        let key_item = items[2 * (m - 1)];
        let val_item = items[2 * (m - 1) + 1];
        assert(bulk_eq(key_item, spec_encode_flat(t, r)[2 * (m - 1)]));
        assert(spec_encode_flat(t, r)[2 * (m - 1)] == table_descs(t)[m - 1].name);
        assert(spec_key_bytes(key_item) == Some(table_descs(t)[m - 1].name));
        assert(bulk_eq(val_item, slot_args(rec_model(r)[m - 1])[0]));
    }
}

/// Looking a key up in a bag with pairwise distinct keys finds exactly
/// that key's entry.
pub proof fn lemma_lookup_distinct(bag: Seq<(Seq<u8>, WireValue)>, i: int)
    requires
        forall|a: int, b: int| 0 <= a < b < bag.len() ==> (#[trigger] bag[a]).0 != (
        #[trigger] bag[b]).0,
        0 <= i < bag.len(),
    ensures
        bag_lookup(bag, bag[i].0) == Some(bag[i].1),
    decreases bag.len(),
{
    let last = bag.len() - 1;
    if i == last {
    } else {
        assert(bag[last].0 != bag[i].0);
        let sub = bag.drop_last();
        assert(sub[i] == bag[i]);
        lemma_lookup_distinct(sub, i);
    }
}

/// Walking the descriptors against the bag of an encoding reproduces
/// the record's slots exactly.
proof fn lemma_decode_fields_encoded(
    t: DescriptorTable,
    r: Record,
    bag: Seq<(Seq<u8>, WireValue)>,
    k: int,
)
    requires
        t.kind == RecordKind::Named,
        table_wf(t),
        record_wf(t, r),
        one_arg_slots(r),
        sentinel_free(t, r),
        bag.len() == t.fields@.len(),
        forall|j: int| 0 <= j < bag.len() ==> (#[trigger] bag[j]).0 == table_descs(t)[j].name,
        forall|j: int| 0 <= j < bag.len() ==> bulk_eq(
            (#[trigger] bag[j]).1,
            slot_args(rec_model(r)[j])[0],
        ),
        0 <= k <= t.fields@.len(),
    ensures
        fields_prefix(t, bag, k) == Ok::<Seq<Option<FieldM>>, ErrM>(rec_model(r).take(k)),
    decreases k,
{
    if k > 0 {
        lemma_decode_fields_encoded(t, r, bag, k - 1);
        let j = k - 1;
        let d = table_descs(t)[j];
        // The bag's keys are pairwise distinct because the table's are.
        assert forall|a: int, b: int| 0 <= a < b < bag.len() implies (#[trigger] bag[a]).0 != (
        #[trigger] bag[b]).0 by {
            assert(t.fields@[a].name@ != t.fields@[b].name@);
        }
        lemma_lookup_distinct(bag, j);
        assert(bag_lookup(bag, d.name) == Some(bag[j].1));
        let v = bag[j].1;
        let s = rec_model(r)[j];
        assert(bulk_eq(v, slot_args(s)[0]));
        match r.slots@[j] {
            None => {
                assert(s is None);
                assert(slot_args(s) == seq![null_seq()]);
                assert(spec_is_sentinel(v));
                assert(d.optional);
                assert(spec_decode_field(d, bag) == Ok::<Option<FieldM>, ErrM>(None));
            }
            Some(data) => {
                assert(s == Some(fd_model(data)));
                let m = fd_model(data);
                assert(value_args_m(m).len() == 1);
                if d.optional {
                    assert(!spec_is_sentinel(v)) by {
                        if spec_is_sentinel(v) {
                            assert(value_args_m(m)[0] == null_seq());
                            assert(value_args_m(m) =~= seq![null_seq()]);
                        }
                    }
                }
                assert(fd_has_type(data, d.ftype));
                lemma_convert_encoded(data, v, d.ftype);
                assert(spec_convert(v, d.ftype) == Ok::<FieldM, crate::value::ConversionError>(m));
                assert(spec_decode_field(d, bag) == Ok::<Option<FieldM>, ErrM>(Some(m)));
            }
        }
        assert(rec_model(r).take(k) =~= rec_model(r).take(k - 1).push(rec_model(r)[j]));
    } else {
        assert(rec_model(r).take(0) =~= Seq::<Option<FieldM>>::empty());
    }
}

/// Round trip through the flat encoding: decoding a wire array that
/// carries exactly the flat arguments of a Named record, each as bulk
/// bytes, yields the record back — for any mix of present and absent
/// optional fields.
pub proof fn lemma_flat_round_trip(t: DescriptorTable, r: Record, w: WireValue)
    requires
        t.kind == RecordKind::Named,
        table_wf(t),
        record_wf(t, r),
        one_arg_slots(r),
        sentinel_free(t, r),
        wire_flat_of(w, spec_encode_flat(t, r)),
    ensures
        spec_decode(t, w) == Ok::<Seq<Option<FieldM>>, ErrM>(rec_model(r)),
{
    let n = t.fields@.len() as int;
    lemma_flat_shape(t, r, n);
    match w {
        WireValue::Array(items) => {
            assert(items@.len() == 2 * n);
            assert(items@.len() % 2 == 0);
            lemma_bag_of_flat(t, r, items@, n);
            assert(items@.len() as int / 2 == n);
            let bag = bag_prefix_arr(items@, n)->Ok_0;
            lemma_decode_fields_encoded(t, r, bag, n);
            assert(rec_model(r).take(n) =~= rec_model(r));
        }
        _ => {}
    }
}

/// Building the bag of a pair-encoded Named record, under one-argument
/// slots, also yields one entry per field with the slot's argument: the
/// space-join of a single argument is that argument itself.
proof fn lemma_bag_of_pairs(t: DescriptorTable, r: Record, prs: Seq<(WireValue, WireValue)>, m: int)
    requires
        t.kind == RecordKind::Named,
        record_wf(t, r),
        one_arg_slots(r),
        prs.len() == t.fields@.len(),
        forall|i: int| 0 <= i < prs.len() ==> bulk_eq(
            (#[trigger] prs[i]).0,
            spec_encode_pairs(t, r)[i].0,
        ) && bulk_eq(prs[i].1, spec_encode_pairs(t, r)[i].1),
        0 <= m <= t.fields@.len(),
    ensures
        bag_prefix_pairs(prs, m) matches Ok(bag) && bag.len() == m && (forall|j: int|
            0 <= j < m ==> (#[trigger] bag[j]).0 == table_descs(t)[j].name) && (forall|j: int|
            0 <= j < m ==> bulk_eq((#[trigger] bag[j]).1, slot_args(rec_model(r)[j])[0])),
    decreases m,
{
    if m > 0 {
        lemma_bag_of_pairs(t, r, prs, m - 1);
        let j = m - 1;
        assert(spec_encode_pairs(t, r)[j].0 == table_descs(t)[j].name);
        assert(spec_key_bytes(prs[j].0) == Some(table_descs(t)[j].name));
        let sa = slot_args(rec_model(r)[j]);
        assert(sa.len() == 1);
        assert(space_join(sa) == sa[0]);
        assert(spec_encode_pairs(t, r)[j].1 == sa[0]);
    }
}

/// Round trip through the pair encoding: decoding a wire pair list that
/// carries exactly the pair encoding of a Named record, keys and values
/// as bulk bytes, yields the record back.
pub proof fn lemma_pairs_round_trip(t: DescriptorTable, r: Record, w: WireValue)
    requires
        t.kind == RecordKind::Named,
        table_wf(t),
        record_wf(t, r),
        one_arg_slots(r),
        sentinel_free(t, r),
        wire_pairs_of(w, spec_encode_pairs(t, r)),
    ensures
        spec_decode(t, w) == Ok::<Seq<Option<FieldM>>, ErrM>(rec_model(r)),
{
    let n = t.fields@.len() as int;
    match w {
        WireValue::Pairs(prs) => {
            lemma_bag_of_pairs(t, r, prs@, n);
            let bag = bag_prefix_pairs(prs@, n)->Ok_0;
            lemma_decode_fields_encoded(t, r, bag, n);
            assert(rec_model(r).take(n) =~= rec_model(r));
        }
        _ => {}
    }
}

/// Converting each element of a flat-encoded Positional record back
/// reproduces the record's slots exactly.
proof fn lemma_decode_elems_encoded(t: DescriptorTable, r: Record, items: Seq<WireValue>, k: int)
    requires
        t.kind == RecordKind::Positional,
        record_wf(t, r),
        one_arg_slots(r),
        items.len() == t.fields@.len(),
        forall|j: int| 0 <= j < items.len() ==> bulk_eq(
            #[trigger] items[j],
            slot_args(rec_model(r)[j])[0],
        ),
        0 <= k <= t.fields@.len(),
    ensures
        elems_prefix(t, items, k) == Ok::<Seq<Option<FieldM>>, ErrM>(rec_model(r).take(k)),
    decreases k,
{
    if k > 0 {
        lemma_decode_elems_encoded(t, r, items, k - 1);
        let j = k - 1;
        let d = table_descs(t)[j];
        match r.slots@[j] {
            None => {
                // record_wf confines absence to the Named kind.
                assert(false);
            }
            Some(data) => {
                let m = fd_model(data);
                assert(rec_model(r)[j] == Some(m));
                assert(fd_has_type(data, d.ftype));
                lemma_convert_encoded(data, items[j], d.ftype);
                assert(spec_convert(items[j], d.ftype) == Ok::<
                    FieldM,
                    crate::value::ConversionError,
                >(m));
            }
        }
        assert(rec_model(r).take(k) =~= rec_model(r).take(k - 1).push(rec_model(r)[j]));
    } else {
        assert(rec_model(r).take(0) =~= Seq::<Option<FieldM>>::empty());
    }
}

/// Round trip for a Positional record: decoding a wire array that
/// carries exactly its flat arguments, one per field, yields the record
/// back.
pub proof fn lemma_positional_round_trip(t: DescriptorTable, r: Record, w: WireValue)
    requires
        t.kind == RecordKind::Positional,
        record_wf(t, r),
        one_arg_slots(r),
        wire_flat_of(w, spec_encode_flat(t, r)),
    ensures
        spec_decode(t, w) == Ok::<Seq<Option<FieldM>>, ErrM>(rec_model(r)),
{
    let n = t.fields@.len() as int;
    lemma_flat_shape_positional(t, r, n);
    match w {
        WireValue::Array(items) => {
            assert(items@.len() == n);
            lemma_decode_elems_encoded(t, r, items@, n);
            assert(rec_model(r).take(n) =~= rec_model(r));
        }
        _ => {}
    }
}

} // verus!
