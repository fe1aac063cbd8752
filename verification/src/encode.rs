//! The two encoders: a record flattened to an ordered byte-string
//! argument stream (names interleaved for the Named kind), and a record
//! as (name, value) pairs with multi-argument values collapsed into one
//! space-joined blob.

use vstd::prelude::*;

verus! {

use crate::schema::{
    DescriptorTable, Record, RecordKind, DescM, table_descs, rec_model, record_wf,
};
use crate::value::{FieldM, value_args_m, encode_value, value_arg_count};
use crate::wire::null_seq;

/// The flat arguments one slot contributes: an absent optional field is
/// exactly one sentinel argument, a present value its own arguments.
pub open spec fn slot_args(s: Option<FieldM>) -> Seq<Seq<u8>> {
    match s {
        None => seq![null_seq()],
        Some(m) => value_args_m(m),
    }
}

/// What one field contributes to the flat stream: its wire name first
/// for the Named kind, bare values for the Positional kind, nothing for
/// the Unit kind.
pub open spec fn field_contrib(kind: RecordKind, d: DescM, s: Option<FieldM>) -> Seq<Seq<u8>> {
    match kind {
        RecordKind::Named => seq![d.name] + slot_args(s),
        RecordKind::Positional => slot_args(s),
        RecordKind::Unit => Seq::empty(),
    }
}

/// The flat encoding of the first `n` fields, in table order.
pub open spec fn spec_flat_prefix(t: DescriptorTable, r: Record, n: int) -> Seq<Seq<u8>>
    decreases n,
{
    if n <= 0 {
        Seq::empty()
    } else {
        spec_flat_prefix(t, r, n - 1)
            + field_contrib(t.kind, table_descs(t)[n - 1], rec_model(r)[n - 1])
    }
}

/// The flat encoding of a whole record.
pub open spec fn spec_encode_flat(t: DescriptorTable, r: Record) -> Seq<Seq<u8>> {
    spec_flat_prefix(t, r, t.fields@.len() as int)
}

/// Longer prefixes never emit fewer arguments.
pub proof fn lemma_flat_prefix_len_mono(t: DescriptorTable, r: Record, i: int, j: int)
    requires
        0 <= i <= j,
    ensures
        spec_flat_prefix(t, r, i).len() <= spec_flat_prefix(t, r, j).len(),
    decreases j,
{
    if i < j {
        lemma_flat_prefix_len_mono(t, r, i, j - 1);
    }
}

/// A Unit-kind record encodes to nothing.
pub proof fn lemma_flat_prefix_unit(t: DescriptorTable, r: Record, n: int)
    requires
        t.kind == RecordKind::Unit,
    ensures
        spec_flat_prefix(t, r, n) == Seq::<Seq<u8>>::empty(),
    decreases n,
{
    if n > 0 {
        lemma_flat_prefix_unit(t, r, n - 1);
        assert(spec_flat_prefix(t, r, n) =~= Seq::<Seq<u8>>::empty());
    } else {
        assert(spec_flat_prefix(t, r, n) =~= Seq::<Seq<u8>>::empty());
    }
}

/// Copy the arguments of `args` onto the end of `out`.
fn append_args(out: &mut Vec<Vec<u8>>, args: &Vec<Vec<u8>>)
    ensures
        final(out)@.len() == old(out)@.len() + args@.len(),
        final(out).deep_view() == old(out).deep_view() + args.deep_view(),
{
    let mut j: usize = 0;
    while j < args.len()
        invariant
            0 <= j <= args@.len(),
            out@.len() == old(out)@.len() + j,
            forall|k: int| 0 <= k < old(out)@.len() ==> #[trigger] out@[k] == old(out)@[k],
            forall|k: int| 0 <= k < j ==> #[trigger] out@[old(out)@.len() + k]@ == args@[k]@,
        decreases args@.len() - j,
    {
        out.push(crate::wire::bytes_clone(&args[j]));
        j += 1;
    }
    proof {
        let dv = out.deep_view();
        let tv = old(out).deep_view() + args.deep_view();
        assert forall|k: int| 0 <= k < tv.len() implies dv[k] == tv[k] by {
            if k < old(out)@.len() {
                assert(out@[k] == old(out)@[k]);
            } else {
                let k2 = k - old(out)@.len();
                assert(out@[old(out)@.len() + k2]@ == args@[k2]@);
                assert(out@[k].deep_view() =~= args@[k2].deep_view());
            }
        }
        assert(dv =~= tv);
    }
}

/// Flat-encode a record against its table: per field, in table order,
/// the wire name (Named kind), then the value's own arguments or the
/// single `null` sentinel for an absent optional field.
pub fn encode_flat(t: &DescriptorTable, r: &Record) -> (out: Vec<Vec<u8>>)
    requires
        record_wf(*t, *r),
    ensures
        out.deep_view() == spec_encode_flat(*t, *r),
{
    let mut out: Vec<Vec<u8>> = Vec::new();
    let is_named = match t.kind {
        RecordKind::Named => true,
        _ => false,
    };
    let is_unit = match t.kind {
        RecordKind::Unit => true,
        _ => false,
    };
    if is_unit {
        proof {
            lemma_flat_prefix_unit(*t, *r, t.fields@.len() as int);
            assert(out.deep_view() =~= spec_encode_flat(*t, *r));
        }
        return out;
    }
    let mut i: usize = 0;
    while i < t.fields.len()
        invariant
            0 <= i <= t.fields@.len(),
            record_wf(*t, *r),
            is_named == (t.kind == RecordKind::Named),
            t.kind != RecordKind::Unit,
            out.deep_view() == spec_flat_prefix(*t, *r, i as int),
        decreases t.fields@.len() - i,
    {
        let ghost dv0 = out.deep_view();
        let ghost d = table_descs(*t)[i as int];
        let ghost s = rec_model(*r)[i as int];
        if is_named {
            out.push(crate::wire::bytes_clone(&t.fields[i].name));
            proof {
                let dv1 = out.deep_view();
                assert forall|k: int| 0 <= k < dv1.len() implies dv1[k] == (dv0
                    + seq![d.name])[k] by {
                    if k == dv0.len() {
                        assert(out@[k].deep_view() =~= d.name);
                    }
                }
                assert(dv1 =~= dv0 + seq![d.name]);
            }
        }
        let ghost dv1 = out.deep_view();
        match &r.slots[i] {
            Some(v) => {
                let args = encode_value(v);
                append_args(&mut out, &args);
                proof {
                    assert(out.deep_view() == dv1 + value_args_m(
                        crate::value::fd_model(*v),
                    ));
                    assert(slot_args(s) == value_args_m(crate::value::fd_model(*v)));
                }
            }
            None => {
                out.push(crate::wire::null_arg());
                proof {
                    let dv2 = out.deep_view();
                    assert forall|k: int| 0 <= k < dv2.len() implies dv2[k] == (dv1
                        + seq![null_seq()])[k] by {
                        if k == dv1.len() {
                            assert(out@[k].deep_view() =~= null_seq());
                        }
                    }
                    assert(dv2 =~= dv1 + seq![null_seq()]);
                    assert(slot_args(s) == seq![null_seq()]);
                }
            }
        }
        i += 1;
        proof {
            assert(out.deep_view() =~= spec_flat_prefix(*t, *r, i as int)) by {
                assert(spec_flat_prefix(*t, *r, i as int) == spec_flat_prefix(
                    *t,
                    *r,
                    i as int - 1,
                ) + field_contrib(t.kind, d, s));
                if is_named {
                    assert(field_contrib(t.kind, d, s) == seq![d.name] + slot_args(s));
                    assert(out.deep_view() =~= (dv0 + seq![d.name]) + slot_args(s));
                    assert((dv0 + seq![d.name]) + slot_args(s) =~= dv0 + (seq![d.name]
                        + slot_args(s)));
                } else {
                    assert(field_contrib(t.kind, d, s) == slot_args(s));
                }
            }
        }
    }
    proof {
        assert(out.deep_view() == spec_encode_flat(*t, *r));
    }
    out
}

/// Count the flat arguments of a record without materializing them,
/// field by field exactly as [`encode_flat`] emits them. The bound on
/// the total is a machine limit: the count is returned as one `usize`.
pub fn num_flat_args(t: &DescriptorTable, r: &Record) -> (n: usize)
    requires
        record_wf(*t, *r),
        spec_encode_flat(*t, *r).len() <= usize::MAX,
    ensures
        n == spec_encode_flat(*t, *r).len(),
{
    let is_named = match t.kind {
        RecordKind::Named => true,
        _ => false,
    };
    let is_unit = match t.kind {
        RecordKind::Unit => true,
        _ => false,
    };
    if is_unit {
        proof {
            lemma_flat_prefix_unit(*t, *r, t.fields@.len() as int);
        }
        return 0;
    }
    let mut count: usize = 0;
    let mut i: usize = 0;
    while i < t.fields.len()
        invariant
            0 <= i <= t.fields@.len(),
            record_wf(*t, *r),
            spec_encode_flat(*t, *r).len() <= usize::MAX,
            is_named == (t.kind == RecordKind::Named),
            t.kind != RecordKind::Unit,
            count == spec_flat_prefix(*t, *r, i as int).len(),
        decreases t.fields@.len() - i,
    {
        let ghost d = table_descs(*t)[i as int];
        let ghost s = rec_model(*r)[i as int];
        proof {
            lemma_flat_prefix_len_mono(*t, *r, i as int + 1, t.fields@.len() as int);
            assert(spec_flat_prefix(*t, *r, i as int + 1).len() == count
                + field_contrib(t.kind, d, s).len());
        }
        if is_named {
            count += 1;
        }
        match &r.slots[i] {
            Some(v) => {
                let k = value_arg_count(v);
                proof {
                    assert(slot_args(s).len() == k);
                }
                count += k;
            }
            None => {
                proof {
                    assert(slot_args(s).len() == 1);
                }
                count += 1;
            }
        }
        i += 1;
    }
    count
}

/// The pair value of one slot: its flat arguments joined with a single
/// space byte; one argument stands verbatim, an absent optional field
/// yields the four sentinel bytes.
pub open spec fn space_join(args: Seq<Seq<u8>>) -> Seq<u8>
    decreases args.len(),
{
    if args.len() == 0 {
        Seq::empty()
    } else if args.len() == 1 {
        args[0]
    } else {
        space_join(args.drop_last()) + seq![32u8] + args.last()
    }
}

/// The pair encoding of a record: one (wire name, joined value) pair per
/// field, in table order.
pub open spec fn spec_encode_pairs(t: DescriptorTable, r: Record) -> Seq<(Seq<u8>, Seq<u8>)> {
    Seq::new(
        t.fields@.len(),
        |i: int| (table_descs(t)[i].name, space_join(slot_args(rec_model(r)[i]))),
    )
}

/// The model of an encoded pair list.
pub open spec fn pairs_model(out: Seq<(Vec<u8>, Vec<u8>)>) -> Seq<(Seq<u8>, Seq<u8>)> {
    Seq::new(out.len(), |i: int| (out[i].0@, out[i].1@))
}

/// Copy the bytes of `b` onto the end of `out`.
fn append_bytes(out: &mut Vec<u8>, b: &Vec<u8>)
    ensures
        final(out)@ == old(out)@ + b@,
{
    let mut j: usize = 0;
    while j < b.len()
        invariant
            0 <= j <= b@.len(),
            out@ == old(out)@ + b@.take(j as int),
        decreases b@.len() - j,
    {
        out.push(b[j]);
        j += 1;
        proof {
            assert(out@ =~= old(out)@ + b@.take(j as int));
        }
    }
    proof {
        assert(old(out)@ + b@.take(b@.len() as int) =~= old(out)@ + b@);
    }
}

/// Join flat arguments with a single space byte, as [`space_join`]
/// describes.
fn join_args(args: &Vec<Vec<u8>>) -> (r: Vec<u8>)
    ensures
        r@ == space_join(args.deep_view()),
{
    let mut out: Vec<u8> = Vec::new();
    let mut i: usize = 0;
    proof {
        assert(args.deep_view().take(0) =~= Seq::<Seq<u8>>::empty());
    }
    while i < args.len()
        invariant
            0 <= i <= args@.len(),
            out@ == space_join(args.deep_view().take(i as int)),
        decreases args@.len() - i,
    {
        if i > 0 {
            out.push(32u8);
        }
        append_bytes(&mut out, &args[i]);
        i += 1;
        proof {
            let dv = args.deep_view();
            let tk = dv.take(i as int);
            assert(args@[i - 1].deep_view() =~= args@[i - 1]@);
            assert(tk.last() == dv[i - 1]);
            if i == 1 {
                assert(space_join(tk) == tk[0]);
                assert(out@ =~= space_join(tk));
            } else {
                assert(tk.drop_last() =~= dv.take(i as int - 1));
                assert(space_join(tk) == space_join(dv.take(i as int - 1)) + seq![32u8]
                    + dv[i - 1]);
                assert(out@ =~= space_join(tk));
            }
        }
    }
    proof {
        assert(args.deep_view().take(args@.len() as int) =~= args.deep_view());
    }
    out
}

/// Pair-encode a Named-kind record: per field, in table order, the wire
/// name and the space-joined value, the sentinel for an absent optional
/// field. Joining is lossy by design: one argument containing a space is
/// indistinguishable from two arguments.
pub fn encode_pairs(t: &DescriptorTable, r: &Record) -> (out: Vec<(Vec<u8>, Vec<u8>)>)
    requires
        record_wf(*t, *r),
        t.kind == RecordKind::Named,
    ensures
        pairs_model(out@) == spec_encode_pairs(*t, *r),
{
    let mut out: Vec<(Vec<u8>, Vec<u8>)> = Vec::new();
    let mut i: usize = 0;
    while i < t.fields.len()
        invariant
            0 <= i <= t.fields@.len(),
            record_wf(*t, *r),
            t.kind == RecordKind::Named,
            out@.len() == i,
            forall|j: int| 0 <= j < i ==> (#[trigger] out@[j]).0@ == table_descs(*t)[j].name
                && out@[j].1@ == space_join(slot_args(rec_model(*r)[j])),
        decreases t.fields@.len() - i,
    {
        let name = crate::wire::bytes_clone(&t.fields[i].name);
        let joined = match &r.slots[i] {
            Some(v) => {
                let args = encode_value(v);
                let j = join_args(&args);
                proof {
                    assert(slot_args(rec_model(*r)[i as int]) == value_args_m(
                        crate::value::fd_model(*v),
                    ));
                }
                j
            }
            None => {
                let n = crate::wire::null_arg();
                proof {
                    let sa = slot_args(rec_model(*r)[i as int]);
                    assert(sa == seq![null_seq()]);
                    assert(space_join(sa) == null_seq());
                }
                n
            }
        };
        out.push((name, joined));
        i += 1;
        proof {
            assert(out@[i - 1].0@ == table_descs(*t)[i - 1].name);
            assert(out@[i - 1].1@ == space_join(slot_args(rec_model(*r)[i - 1])));
        }
    }
    proof {
        assert(pairs_model(out@) =~= spec_encode_pairs(*t, *r));
    }
    out
}

} // verus!
