//! Field descriptor tables: the per-type, immutable metadata that both
//! codec directions walk, and the naming rules that build it from raw
//! field metadata. A record instance is a slot per descriptor, where an
//! empty slot is an absent optional field.

use vstd::prelude::*;

verus! {

use crate::value::{FieldType, FieldData, FieldM, fd_model, fd_has_type};

/// The shape of a record type: key/value encoded, order encoded, or a
/// fieldless marker.
#[derive(Clone, Copy, PartialEq, Eq, Debug, Structural)]
pub enum RecordKind {
    Named,
    Positional,
    Unit,
}

/// One serialized field: its wire-visible name (meaningful for the
/// `Named` kind only), whether its type admits absence, and its declared
/// leaf type.
#[derive(PartialEq, Eq, Debug)]
pub struct FieldDescriptor {
    pub name: Vec<u8>,
    pub optional: bool,
    pub ftype: FieldType,
}

/// The per-type descriptor table, built once and read-only thereafter.
#[derive(PartialEq, Eq, Debug)]
pub struct DescriptorTable {
    pub kind: RecordKind,
    pub fields: Vec<FieldDescriptor>,
}

/// A record instance, aligned slot-for-slot with a descriptor table.
/// `None` is an absent optional field.
#[derive(PartialEq, Eq, Debug)]
pub struct Record {
    pub slots: Vec<Option<FieldData>>,
}

/// The mathematical model of a descriptor.
#[verifier::ext_equal]
pub struct DescM {
    pub name: Seq<u8>,
    pub optional: bool,
    pub ftype: FieldType,
}

pub open spec fn desc_model(d: FieldDescriptor) -> DescM {
    DescM { name: d.name@, optional: d.optional, ftype: d.ftype }
}

pub open spec fn descs_of(fs: Seq<FieldDescriptor>) -> Seq<DescM> {
    Seq::new(fs.len(), |i: int| desc_model(fs[i]))
}

/// The model of a table: its descriptors in order.
pub open spec fn table_descs(t: DescriptorTable) -> Seq<DescM> {
    descs_of(t.fields@)
}

/// The model of one slot.
pub open spec fn slot_model(s: Option<FieldData>) -> Option<FieldM> {
    match s {
        Some(d) => Some(fd_model(d)),
        None => None,
    }
}

/// The model of a record: its slots in order.
pub open spec fn rec_model(r: Record) -> Seq<Option<FieldM>> {
    Seq::new(r.slots@.len(), |i: int| slot_model(r.slots@[i]))
}

/// The table invariant: a Named table has no duplicate wire names, and a
/// Unit table has no fields at all.
pub open spec fn table_wf(t: DescriptorTable) -> bool {
    &&& t.kind == RecordKind::Named ==> forall|i: int, j: int|
        0 <= i < j < t.fields@.len() ==> t.fields@[i].name@ != t.fields@[j].name@
    &&& t.kind == RecordKind::Unit ==> t.fields@.len() == 0
}

/// A record fits a table: one slot per descriptor, a filled slot holds a
/// value of the declared type, and only a Named optional field may be
/// absent.
pub open spec fn record_wf(t: DescriptorTable, r: Record) -> bool {
    &&& r.slots@.len() == t.fields@.len()
    &&& forall|i: int| 0 <= i < t.fields@.len() ==> match #[trigger] r.slots@[i] {
        Some(d) => fd_has_type(d, t.fields@[i].ftype),
        None => t.fields@[i].optional && t.kind == RecordKind::Named,
    }
}

/// ASCII lowercase letter.
pub open spec fn is_lower(b: u8) -> bool {
    97 <= b <= 122
}

/// The snake-to-camel case transform: an underscore followed by a
/// lowercase letter is dropped and the letter upper-cased; every other
/// byte is kept as it stands.
pub open spec fn camel(s: Seq<u8>) -> Seq<u8>
    decreases s.len(),
{
    if s.len() == 0 {
        Seq::empty()
    } else if s[0] == 95 && s.len() >= 2 && is_lower(s[1]) {
        seq![(s[1] - 32) as u8] + camel(s.subrange(2, s.len() as int))
    } else {
        seq![s[0]] + camel(s.subrange(1, s.len() as int))
    }
}

/// Apply the snake-to-camel transform to a byte string.
pub fn snake_to_camel(s: &Vec<u8>) -> (r: Vec<u8>)
    ensures
        r@ == camel(s@),
{
    let mut out: Vec<u8> = Vec::new();
    let mut i: usize = 0;
    proof {
        assert(s@.subrange(0, s@.len() as int) =~= s@);
        assert(Seq::<u8>::empty() + camel(s@) =~= camel(s@));
    }
    while i < s.len()
        invariant
            0 <= i <= s@.len(),
            camel(s@) == out@ + camel(s@.subrange(i as int, s@.len() as int)),
        decreases s@.len() - i,
    {
        let ghost suf = s@.subrange(i as int, s@.len() as int);
        let ghost pre = out@;
        if s[i] == 95 && i + 1 < s.len() && 97 <= s[i + 1] && s[i + 1] <= 122 {
            out.push(s[i + 1] - 32);
            i += 2;
            proof {
                let suf2 = s@.subrange(i as int, s@.len() as int);
                assert(suf.subrange(2, suf.len() as int) =~= suf2);
                assert(camel(suf) == seq![(suf[1] - 32) as u8] + camel(suf2));
                assert(out@ == pre.push((suf[1] - 32) as u8));
                assert(out@ + camel(suf2) =~= pre + camel(suf));
            }
        } else {
            out.push(s[i]);
            i += 1;
            proof {
                let suf2 = s@.subrange(i as int, s@.len() as int);
                assert(suf.subrange(1, suf.len() as int) =~= suf2);
                assert(camel(suf) == seq![suf[0]] + camel(suf2));
                assert(out@ + camel(suf2) =~= pre + camel(suf));
            }
        }
    }
    proof {
        assert(s@.subrange(s@.len() as int, s@.len() as int) =~= Seq::<u8>::empty());
        assert(out@ + camel(Seq::<u8>::empty()) =~= out@);
    }
    out
}

/// The rename rule a record type declares for all its fields.
#[derive(Clone, Copy, PartialEq, Eq, Debug, Structural)]
pub enum RenameRule {
    Keep,
    SnakeToCamel,
}

/// Raw per-field metadata, before naming resolution: the field's own
/// name, an optional field-level rename that wins outright, a skip
/// directive, and the structurally derived optionality.
pub struct RawField {
    pub source_name: Vec<u8>,
    pub rename: Option<Vec<u8>>,
    pub skip: bool,
    pub optional: bool,
    pub ftype: FieldType,
}

pub open spec fn apply_rule(rule: RenameRule, s: Seq<u8>) -> Seq<u8> {
    match rule {
        RenameRule::Keep => s,
        RenameRule::SnakeToCamel => camel(s),
    }
}

/// The wire name a raw field resolves to: its own rename directive if
/// present, else the type-level rule applied to its source name.
pub open spec fn spec_wire_name(rule: RenameRule, f: RawField) -> Seq<u8> {
    match f.rename {
        Some(r) => r@,
        None => apply_rule(rule, f.source_name@),
    }
}

/// Resolution for the Named kind: skipped fields are removed, the rest
/// keep their order and get their resolved wire names.
pub open spec fn spec_resolve_named(rule: RenameRule, raw: Seq<RawField>) -> Seq<DescM>
    decreases raw.len(),
{
    if raw.len() == 0 {
        Seq::empty()
    } else {
        let rest = spec_resolve_named(rule, raw.drop_last());
        let f = raw.last();
        if f.skip {
            rest
        } else {
            rest.push(DescM { name: spec_wire_name(rule, f), optional: f.optional, ftype: f.ftype })
        }
    }
}

/// Resolution for the Positional kind: fields are never renamed and
/// never skipped; names stay the source names and are not consulted.
pub open spec fn spec_resolve_positional(raw: Seq<RawField>) -> Seq<DescM> {
    Seq::new(
        raw.len(),
        |i: int| DescM { name: raw[i].source_name@, optional: raw[i].optional, ftype: raw[i].ftype },
    )
}

/// What resolution yields for each kind.
pub open spec fn spec_resolve(kind: RecordKind, rule: RenameRule, raw: Seq<RawField>) -> Seq<
    DescM,
> {
    match kind {
        RecordKind::Named => spec_resolve_named(rule, raw),
        RecordKind::Positional => spec_resolve_positional(raw),
        RecordKind::Unit => Seq::empty(),
    }
}

/// Resolve the wire name of one raw field.
fn resolve_name(rule: RenameRule, f: &RawField) -> (r: Vec<u8>)
    ensures
        r@ == spec_wire_name(rule, *f),
{
    match &f.rename {
        Some(n) => crate::wire::bytes_clone(n),
        None => match rule {
            RenameRule::Keep => crate::wire::bytes_clone(&f.source_name),
            RenameRule::SnakeToCamel => snake_to_camel(&f.source_name),
        },
    }
}

/// Build the descriptor table of a record type from its raw field
/// metadata. Resolution is pure and infallible; whether the result also
/// satisfies [`table_wf`] (no duplicate resolved names) is the type
/// author's obligation, stated separately.
pub fn build_table(kind: RecordKind, rule: RenameRule, raw: &Vec<RawField>) -> (t: DescriptorTable)
    requires
        kind == RecordKind::Unit ==> raw@.len() == 0,
    ensures
        t.kind == kind,
        table_descs(t) == spec_resolve(kind, rule, raw@),
{
    let mut fields: Vec<FieldDescriptor> = Vec::new();
    match kind {
        RecordKind::Unit => {}
        RecordKind::Named => {
            let mut i: usize = 0;
            while i < raw.len()
                invariant
                    0 <= i <= raw@.len(),
                    descs_of(fields@) == spec_resolve_named(rule, raw@.take(i as int)),
                decreases raw@.len() - i,
            {
                let ghost pre = fields@;
                if !raw[i].skip {
                    let name = resolve_name(rule, &raw[i]);
                    fields.push(FieldDescriptor { name, optional: raw[i].optional, ftype: raw[i].ftype });
                }
                i += 1;
                proof {
                    let tk = raw@.take(i as int);
                    assert(tk.drop_last() =~= raw@.take(i as int - 1));
                    assert(tk.last() == raw@[i as int - 1]);
                    assert(descs_of(fields@) =~= spec_resolve_named(rule, tk));
                }
            }
            proof {
                assert(raw@.take(raw@.len() as int) =~= raw@);
            }
        }
        RecordKind::Positional => {
            let mut i: usize = 0;
            while i < raw.len()
                invariant
                    0 <= i <= raw@.len(),
                    fields@.len() == i,
                    forall|j: int| 0 <= j < i ==> #[trigger] desc_model(fields@[j])
                        == spec_resolve_positional(raw@)[j],
                decreases raw@.len() - i,
            {
                let name = crate::wire::bytes_clone(&raw[i].source_name);
                fields.push(FieldDescriptor { name, optional: raw[i].optional, ftype: raw[i].ftype });
                i += 1;
            }
            proof {
                assert(descs_of(fields@) =~= spec_resolve_positional(raw@));
            }
        }
    }
    let t = DescriptorTable { kind, fields };
    proof {
        if kind == RecordKind::Unit {
            assert(table_descs(t) =~= Seq::<DescM>::empty());
        }
    }
    t
}

} // verus!
