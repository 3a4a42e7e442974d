//! Schema-driven payload codec: every opcode's payload is described by an
//! ordered list of (field name, wire type); one generic routine decodes a
//! field-keyed record against such a schema, and one encodes it. Unknown keys
//! in a record are skipped; a required field that is missing or of the wrong
//! wire type fails the whole record.
use vstd::prelude::*;

use crate::protocol::user::{
    spec_project_from_fields, proj_schema, proj_schema_vec, project_fields, project_from_fields,
    ProjectData, ProjectDataS,
};
use crate::wire::{
    enc_arrhdr, enc_bin, enc_binhdr, enc_maphdr, enc_str, enc_strhdr, enc_uint,
    lemma_parse_arrhdr_enc, lemma_parse_bin_enc, lemma_parse_maphdr_enc, lemma_parse_str_enc,
    parse_arrhdr, parse_bin, parse_maphdr, parse_str, parse_uint, skip_value, spec_parse_arrhdr,
    spec_parse_bin, spec_parse_maphdr, spec_parse_str, spec_parse_uint, spec_skip_value,
    write_arrhdr, write_binbytes, write_maphdr, write_strbytes, write_uint,
};

verus! {

use vstd::utf8::{valid_utf8, decode_utf8, encode_utf8};

/// The wire type a schema declares for a field.
#[derive(Clone, Copy, Debug, PartialEq, Eq)]
pub enum WireType {
    /// A text string.
    Str,
    /// An unsigned integer.
    UInt,
    /// A raw byte blob.
    Bin,
    /// A list of project rows.
    Projects,
}

/// A decoded field value.
#[derive(Clone, Debug, PartialEq)]
pub enum FieldValue {
    Str(String),
    UInt(u64),
    Bin(Vec<u8>),
    Projects(Vec<ProjectData>),
}

/// Mathematical model of a field value.
pub enum FieldValueS {
    Str(Seq<char>),
    UInt(u64),
    Bin(Seq<u8>),
    Projects(Seq<ProjectDataS>),
}

impl View for FieldValue {
    type V = FieldValueS;

    open spec fn view(&self) -> FieldValueS {
        match self {
            FieldValue::Str(s) => FieldValueS::Str(s@),
            FieldValue::UInt(n) => FieldValueS::UInt(*n),
            FieldValue::Bin(b) => FieldValueS::Bin(b@),
            FieldValue::Projects(ps) => FieldValueS::Projects(
                ps@.map_values(|p: ProjectData| p@),
            ),
        }
    }
}

pub open spec fn schema_view(schema: Seq<(Vec<u8>, WireType)>) -> Seq<(Seq<u8>, WireType)> {
    schema.map_values(|p: (Vec<u8>, WireType)| (p.0@, p.1))
}

pub open spec fn fields_view(vals: Seq<FieldValue>) -> Seq<FieldValueS> {
    vals.map_values(|f: FieldValue| f@)
}

pub open spec fn acc_view(acc: Seq<Option<FieldValue>>) -> Seq<Option<FieldValueS>> {
    acc.map_values(
        |o: Option<FieldValue>|
            match o {
                Option::None => None,
                Option::Some(f) => Some(f@),
            },
    )
}

/// The first schema index whose field name is `kb`.
pub open spec fn key_index(schema: Seq<(Seq<u8>, WireType)>, kb: Seq<u8>) -> Option<int>
    decreases schema.len(),
{
    if schema.len() == 0 {
        None
    } else if schema[0].0 == kb {
        Some(0)
    } else {
        match key_index(schema.skip(1), kb) {
            None => None,
            Some(k) => Some(k + 1),
        }
    }
}

// ===== decoding =====

/// Reads one field value of the declared wire type.
pub open spec fn spec_parse_field(ty: WireType, s: Seq<u8>) -> Option<(FieldValueS, Seq<u8>)>
    decreases s.len(), 3int,
{
    match ty {
        WireType::Str => match spec_parse_str(s) {
            None => None,
            Some((b, r)) => if valid_utf8(b) {
                Some((FieldValueS::Str(decode_utf8(b)), r))
            } else {
                None
            },
        },
        WireType::UInt => match spec_parse_uint(s) {
            None => None,
            Some((n, r)) => Some((FieldValueS::UInt(n), r)),
        },
        WireType::Bin => match spec_parse_bin(s) {
            None => None,
            Some((b, r)) => Some((FieldValueS::Bin(b), r)),
        },
        WireType::Projects => match spec_parse_projects(s) {
            None => None,
            Some((ps, r)) => Some((FieldValueS::Projects(ps), r)),
        },
    }
}

/// Reads a list of project rows: an array of records.
pub open spec fn spec_parse_projects(s: Seq<u8>) -> Option<(Seq<ProjectDataS>, Seq<u8>)>
    decreases s.len(), 2int,
{
    match spec_parse_arrhdr(s) {
        None => None,
        Some((n, r)) => if r.len() < s.len() {
            spec_parse_project_items(r, n as nat, Seq::empty())
        } else {
            None
        },
    }
}

/// Reads `n` consecutive project records, appending to `acc`.
pub open spec fn spec_parse_project_items(s: Seq<u8>, n: nat, acc: Seq<ProjectDataS>) -> Option<
    (Seq<ProjectDataS>, Seq<u8>),
>
    decreases s.len(), 1int, n,
{
    if n == 0 {
        Some((acc, s))
    } else {
        match spec_decode_record(s, proj_schema()) {
            None => None,
            Some((vals, r)) => match spec_project_from_fields(vals) {
                None => None,
                Some(p) => if r.len() < s.len() {
                    spec_parse_project_items(r, (n - 1) as nat, acc.push(p))
                } else {
                    None
                },
            },
        }
    }
}

/// Walks `n` record pairs: a pair whose key names a schema field must carry a
/// value of the declared type and assigns that field (the last occurrence
/// wins); any other pair is skipped whole.
pub open spec fn spec_walk_pairs(
    s: Seq<u8>,
    n: nat,
    schema: Seq<(Seq<u8>, WireType)>,
    acc: Seq<Option<FieldValueS>>,
) -> Option<(Seq<Option<FieldValueS>>, Seq<u8>)>
    decreases s.len(), 4int, n,
{
    if n == 0 {
        Some((acc, s))
    } else {
        match spec_parse_str(s) {
            Some((kb, r1)) => if r1.len() < s.len() {
                match key_index(schema, kb) {
                    Some(fi) => match spec_parse_field(schema[fi].1, r1) {
                        None => None,
                        Some((v, r2)) => if r2.len() < s.len() {
                            spec_walk_pairs(r2, (n - 1) as nat, schema, acc.update(fi, Some(v)))
                        } else {
                            None
                        },
                    },
                    None => match spec_skip_value(r1) {
                        None => None,
                        Some(r2) => if r2.len() < s.len() {
                            spec_walk_pairs(r2, (n - 1) as nat, schema, acc)
                        } else {
                            None
                        },
                    },
                }
            } else {
                None
            },
            None => match spec_skip_value(s) {
                None => None,
                Some(r1) => match spec_skip_value(r1) {
                    None => None,
                    Some(r2) => if r2.len() < s.len() {
                        spec_walk_pairs(r2, (n - 1) as nat, schema, acc)
                    } else {
                        None
                    },
                },
            },
        }
    }
}

/// All schema fields assigned.
pub open spec fn acc_complete(acc: Seq<Option<FieldValueS>>) -> bool {
    forall|k: int| 0 <= k < acc.len() ==> acc[k] is Some
}

pub open spec fn acc_values(acc: Seq<Option<FieldValueS>>) -> Seq<FieldValueS> {
    Seq::new(acc.len(), |k: int| acc[k]->Some_0)
}

/// Reads one field-keyed record against `schema`: a map whose pairs are
/// walked in order; succeeds exactly when the map parses, every declared
/// field is present with its declared type, and unknown pairs are
/// well-formed (they are then ignored).
pub open spec fn spec_decode_record(s: Seq<u8>, schema: Seq<(Seq<u8>, WireType)>) -> Option<
    (Seq<FieldValueS>, Seq<u8>),
>
    decreases s.len(), 0int,
{
    match spec_parse_maphdr(s) {
        None => None,
        Some((n, r)) => if r.len() < s.len() {
            match spec_walk_pairs(r, n as nat, schema, Seq::new(schema.len(), |k: int| None)) {
                None => None,
                Some((acc, rest)) => if acc_complete(acc) {
                    Some((acc_values(acc), rest))
                } else {
                    None
                },
            }
        } else {
            None
        },
    }
}

// ===== decoding, executable =====

/// Relies on `String::from_utf8`: it succeeds exactly on valid UTF-8 input
/// and yields the decoding of those bytes.
#[verifier::external_body]
fn bytes_to_string(v: Vec<u8>) -> (r: Option<String>)
    ensures
        r is Some <==> valid_utf8(v@),
        r matches Some(st) ==> st@ == decode_utf8(v@),
{
    String::from_utf8(v).ok()
}

/// Byte-wise equality of two byte strings.
pub fn keys_eq(a: &[u8], b: &[u8]) -> (r: bool)
    ensures
        r == (a@ == b@),
{
    if a.len() != b.len() {
        return false;
    }
    let mut k: usize = 0;
    while k < a.len()
        invariant
            k <= a@.len(),
            a@.len() == b@.len(),
            forall|j: int| 0 <= j < k ==> a@[j] == b@[j],
        decreases a@.len() - k,
    {
        if a[k] != b[k] {
            return false;
        }
        k = k + 1;
    }
    proof {
        assert(a@ =~= b@);
    }
    true
}

/// Where `key_index` answers, its answer is the first matching entry.
#[verifier::rlimit(100)]
#[verifier::spinoff_prover]
pub proof fn lemma_key_index_char(schema: Seq<(Seq<u8>, WireType)>, kb: Seq<u8>)
    ensures
        match key_index(schema, kb) {
            None => forall|j: int| 0 <= j < schema.len() ==> (#[trigger] schema[j]).0 != kb,
            Some(fi) => 0 <= fi < schema.len() && schema[fi].0 == kb && (forall|j: int|
                0 <= j < fi ==> (#[trigger] schema[j]).0 != kb),
        },
    decreases schema.len(),
{
    if schema.len() == 0 {
    } else if schema[0].0 == kb {
    } else {
        lemma_key_index_char(schema.skip(1), kb);
        assert(forall|j: int|
            1 <= j < schema.len() ==> (#[trigger] schema[j]).0 == schema.skip(1)[j - 1].0);
    }
}

/// Finds the schema entry named `kb`.
pub fn find_key(schema: &Vec<(Vec<u8>, WireType)>, kb: &Vec<u8>) -> (r: Option<usize>)
    ensures
        match r {
            None => key_index(schema_view(schema@), kb@) is None,
            Some(fi) => fi < schema@.len() && key_index(schema_view(schema@), kb@) == Some(
                fi as int,
            ),
        },
{
    let ghost sv = schema_view(schema@);
    let mut k: usize = 0;
    while k < schema.len()
        invariant
            k <= schema@.len(),
            sv == schema_view(schema@),
            forall|j: int| 0 <= j < k ==> (#[trigger] sv[j]).0 != kb@,
        decreases schema@.len() - k,
    {
        if keys_eq(schema[k].0.as_slice(), kb.as_slice()) {
            proof {
                lemma_key_index_char(sv, kb@);
                assert(sv[k as int].0 == kb@);
                if key_index(sv, kb@) is None {
                    assert(sv[k as int].0 != kb@);
                } else {
                    let fi = key_index(sv, kb@)->Some_0;
                    if fi < k {
                        assert(sv[fi].0 != kb@);
                    }
                    if k < fi {
                        assert(sv[k as int].0 != kb@);
                    }
                }
            }
            return Some(k);
        }
        k = k + 1;
    }
    proof {
        lemma_key_index_char(sv, kb@);
        if key_index(sv, kb@) is Some {
            let fi = key_index(sv, kb@)->Some_0;
            assert(sv[fi].0 == kb@);
            assert(sv[fi].0 != kb@);
        }
    }
    None
}

/// Reads one field value of the declared wire type at position `i`.
pub fn parse_field(ty: WireType, s: &[u8], i: usize) -> (r: Option<(FieldValue, usize)>)
    requires
        i <= s@.len(),
    ensures
        match r {
            None => spec_parse_field(ty, s@.skip(i as int)) is None,
            Some((v, j)) => i < j <= s@.len() && spec_parse_field(ty, s@.skip(i as int)) == Some(
                (v@, s@.skip(j as int)),
            ),
        },
    decreases s@.len() - i, 3int,
{
    match ty {
        WireType::Str => match parse_str(s, i) {
            None => None,
            Some((b, j)) => {
                let ghost gb = b@;
                match bytes_to_string(b) {
                    None => None,
                    Some(st) => Some((FieldValue::Str(st), j)),
                }
            },
        },
        WireType::UInt => match parse_uint(s, i) {
            None => None,
            Some((n, j)) => Some((FieldValue::UInt(n), j)),
        },
        WireType::Bin => match parse_bin(s, i) {
            None => None,
            Some((b, j)) => Some((FieldValue::Bin(b), j)),
        },
        WireType::Projects => match parse_projects(s, i) {
            None => None,
            Some((ps, j)) => Some((FieldValue::Projects(ps), j)),
        },
    }
}

/// Reads a list of project rows at position `i`.
pub fn parse_projects(s: &[u8], i: usize) -> (r: Option<(Vec<ProjectData>, usize)>)
    requires
        i <= s@.len(),
    ensures
        match r {
            None => spec_parse_projects(s@.skip(i as int)) is None,
            Some((ps, j)) => i < j <= s@.len() && spec_parse_projects(s@.skip(i as int)) == Some(
                (ps@.map_values(|p: ProjectData| p@), s@.skip(j as int)),
            ),
        },
    decreases s@.len() - i, 2int,
{
    match parse_arrhdr(s, i) {
        None => None,
        Some((n, j)) => parse_project_items(s, j, n),
    }
}

/// Reads `n` consecutive project records starting at position `i`.
fn parse_project_items(s: &[u8], i: usize, n: u64) -> (r: Option<(Vec<ProjectData>, usize)>)
    requires
        i <= s@.len(),
    ensures
        match r {
            None => spec_parse_project_items(s@.skip(i as int), n as nat, Seq::empty()) is None,
            Some((ps, j)) => i <= j <= s@.len() && spec_parse_project_items(
                s@.skip(i as int),
                n as nat,
                Seq::empty(),
            ) == Some((ps@.map_values(|p: ProjectData| p@), s@.skip(j as int))),
        },
    decreases s@.len() - i, 1int,
{
    let pschema = proj_schema_vec();
    let mut ps: Vec<ProjectData> = Vec::new();
    let mut cur: usize = i;
    let mut k: u64 = n;
    proof {
        assert(ps@.map_values(|p: ProjectData| p@) =~= Seq::<ProjectDataS>::empty());
    }
    while k > 0
        invariant
            i <= cur <= s@.len(),
            pschema@.map_values(|p: (Vec<u8>, WireType)| (p.0@, p.1)) == proj_schema(),
            spec_parse_project_items(s@.skip(i as int), n as nat, Seq::empty())
                == spec_parse_project_items(
                s@.skip(cur as int),
                k as nat,
                ps@.map_values(|p: ProjectData| p@),
            ),
        decreases k,
    {
        let ghost pre = ps@.map_values(|p: ProjectData| p@);
        match decode_record(s, cur, &pschema) {
            None => {
                return None;
            },
            Some((vals, j)) => {
                let ghost gvals = vals@.map_values(|f: FieldValue| f@);
                match project_from_fields(vals) {
                    None => {
                        return None;
                    },
                    Some(p) => {
                        proof {
                            assert(s@.skip(j as int).len() < s@.skip(cur as int).len());
                        }
                        ps.push(p);
                        proof {
                            assert(ps@.map_values(|p: ProjectData| p@) =~= pre.push(p@));
                        }
                        cur = j;
                        k = k - 1;
                    },
                }
            },
        }
    }
    Some((ps, cur))
}

/// Walks `n` record pairs at position `i`, assigning schema fields into
/// `acc`.
fn walk_pairs(
    s: &[u8],
    i: usize,
    n: u64,
    schema: &Vec<(Vec<u8>, WireType)>,
    acc: &mut Vec<Option<FieldValue>>,
) -> (r: Option<usize>)
    requires
        i <= s@.len(),
        old(acc)@.len() == schema@.len(),
    ensures
        match r {
            None => spec_walk_pairs(
                s@.skip(i as int),
                n as nat,
                schema_view(schema@),
                acc_view(old(acc)@),
            ) is None,
            Some(j) => i <= j <= s@.len() && spec_walk_pairs(
                s@.skip(i as int),
                n as nat,
                schema_view(schema@),
                acc_view(old(acc)@),
            ) == Some((acc_view(final(acc)@), s@.skip(j as int))),
        },
    decreases s@.len() - i, 4int,
{
    let ghost sv = schema_view(schema@);
    let mut cur: usize = i;
    let mut k: u64 = n;
    while k > 0
        invariant
            i <= cur <= s@.len(),
            acc@.len() == schema@.len(),
            sv == schema_view(schema@),
            spec_walk_pairs(s@.skip(i as int), n as nat, sv, acc_view(old(acc)@))
                == spec_walk_pairs(s@.skip(cur as int), k as nat, sv, acc_view(acc@)),
        decreases k,
    {
        let ghost pre_acc = acc_view(acc@);
        match parse_str(s, cur) {
            Some((kb, j1)) => {
                proof {
                    assert(s@.skip(j1 as int).len() < s@.skip(cur as int).len());
                }
                match find_key(schema, &kb) {
                    Some(fi) => {
                        proof {
                            assert(sv[fi as int] == (schema@[fi as int].0@, schema@[fi as int].1));
                        }
                        match parse_field(schema[fi].1, s, j1) {
                            None => {
                                return None;
                            },
                            Some((v, j2)) => {
                                proof {
                                    assert(s@.skip(j2 as int).len() < s@.skip(cur as int).len());
                                }
                                let ghost gv = v@;
                                acc.set(fi, Some(v));
                                proof {
                                    assert(acc_view(acc@) =~= pre_acc.update(
                                        fi as int,
                                        Some(gv),
                                    ));
                                }
                                cur = j2;
                                k = k - 1;
                            },
                        }
                    },
                    None => {
                        match skip_value(s, j1) {
                            None => {
                                return None;
                            },
                            Some(j2) => {
                                proof {
                                    assert(s@.skip(j2 as int).len() < s@.skip(
                                        cur as int,
                                    ).len());
                                }
                                cur = j2;
                                k = k - 1;
                            },
                        }
                    },
                }
            },
            None => {
                match skip_value(s, cur) {
                    None => {
                        return None;
                    },
                    Some(j1) => {
                        match skip_value(s, j1) {
                            None => {
                                return None;
                            },
                            Some(j2) => {
                                proof {
                                    assert(s@.skip(j2 as int).len() < s@.skip(
                                        cur as int,
                                    ).len());
                                }
                                cur = j2;
                                k = k - 1;
                            },
                        }
                    },
                }
            },
        }
    }
    Some(cur)
}

/// Takes the collected assignments out of `acc`; fails when a field was
/// never assigned.
fn unwrap_acc(acc: Vec<Option<FieldValue>>) -> (r: Option<Vec<FieldValue>>)
    ensures
        match r {
            None => !acc_complete(acc_view(acc@)),
            Some(vals) => acc_complete(acc_view(acc@)) && fields_view(vals@) == acc_values(
                acc_view(acc@),
            ),
        },
{
    let ghost g0 = acc@;
    let mut vals: Vec<FieldValue> = Vec::new();
    let mut it = acc;
    while it.len() > 0
        invariant
            g0 == acc@,
            vals@.len() + it@.len() == g0.len(),
            it@ == g0.subrange(vals@.len() as int, g0.len() as int),
            forall|j: int| 0 <= j < vals@.len() ==> (#[trigger] g0[j]) is Some,
            forall|j: int| 0 <= j < vals@.len() ==> #[trigger] vals@[j] == g0[j]->Some_0,
        decreases it@.len(),
    {
        let ghost pre = it@;
        let ghost prevals = vals@;
        let picked = it.remove(0);
        proof {
            assert(pre[0] == g0[prevals.len() as int]);
            assert(it@ =~= g0.subrange(prevals.len() as int + 1, g0.len() as int));
        }
        match picked {
            None => {
                proof {
                    assert(acc_view(g0)[prevals.len() as int] is None);
                    assert(!acc_complete(acc_view(g0)));
                }
                return None;
            },
            Some(v) => {
                vals.push(v);
                proof {
                    assert(g0[prevals.len() as int] is Some);
                    assert forall|j: int| 0 <= j < vals@.len() implies #[trigger] vals@[j] == g0[
                        j]->Some_0 by {
                        if j < prevals.len() {
                            assert(vals@[j] == prevals[j]);
                        } else {
                            assert(vals@[j] == v);
                        }
                    }
                }
            },
        }
    }
    proof {
        assert(g0 == acc@);
        assert forall|j: int| 0 <= j < acc_view(g0).len() implies acc_view(g0)[j] is Some by {
            assert(g0[j] is Some);
            assert(acc_view(g0)[j] == Some(g0[j]->Some_0@));
        }
        assert(acc_complete(acc_view(g0)));
        assert forall|j: int|
            0 <= j < g0.len() implies fields_view(vals@)[j] == acc_values(acc_view(g0))[j] by {
            assert(vals@[j] == g0[j]->Some_0);
        }
        assert(fields_view(vals@) =~= acc_values(acc_view(g0)));
    }
    Some(vals)
}

/// Reads one field-keyed record against `schema` at position `i`.
pub fn decode_record(s: &[u8], i: usize, schema: &Vec<(Vec<u8>, WireType)>) -> (r: Option<
    (Vec<FieldValue>, usize),
>)
    requires
        i <= s@.len(),
    ensures
        match r {
            None => spec_decode_record(s@.skip(i as int), schema_view(schema@)) is None,
            Some((vals, j)) => i < j <= s@.len() && spec_decode_record(
                s@.skip(i as int),
                schema_view(schema@),
            ) == Some((fields_view(vals@), s@.skip(j as int))),
        },
    decreases s@.len() - i, 0int,
{
    match parse_maphdr(s, i) {
        None => None,
        Some((n, j)) => {
            proof {
                assert(s@.skip(j as int).len() < s@.skip(i as int).len());
            }
            let mut acc: Vec<Option<FieldValue>> = Vec::new();
            let mut k: usize = 0;
            while k < schema.len()
                invariant
                    k <= schema@.len(),
                    acc@.len() == k,
                    forall|j2: int| 0 <= j2 < k ==> acc@[j2] is None,
                decreases schema@.len() - k,
            {
                acc.push(None);
                k = k + 1;
            }
            proof {
                assert(acc_view(acc@) =~= Seq::new(
                    schema_view(schema@).len(),
                    |k2: int| None::<FieldValueS>,
                ));
            }
            match walk_pairs(s, j, n, schema, &mut acc) {
                None => None,
                Some(j2) => match unwrap_acc(acc) {
                    None => None,
                    Some(vals) => Some((vals, j2)),
                },
            }
        },
    }
}

// ===== encoding =====

/// One encoded scalar field value; a project list has no scalar encoding.
pub open spec fn enc_scalar_field(v: FieldValueS) -> Seq<u8> {
    match v {
        FieldValueS::Str(cs) => enc_str(encode_utf8(cs)),
        FieldValueS::UInt(n) => enc_uint(n),
        FieldValueS::Bin(b) => enc_bin(b),
        FieldValueS::Projects(_) => Seq::empty(),
    }
}

/// The encoded pairs of a record whose values are all scalar.
pub open spec fn enc_pairs_scalar(
    schema: Seq<(Seq<u8>, WireType)>,
    vals: Seq<FieldValueS>,
) -> Seq<u8>
    decreases schema.len(),
{
    if schema.len() == 0 {
        Seq::empty()
    } else {
        enc_str(schema[0].0) + enc_scalar_field(vals[0]) + enc_pairs_scalar(
            schema.skip(1),
            vals.skip(1),
        )
    }
}

/// One encoded project row, written out field by field; equal to the generic
/// record encoding of its fields (`lemma_enc_project_as_record`).
pub open spec fn enc_project(p: ProjectDataS) -> Seq<u8> {
    enc_maphdr(5) + enc_str(crate::protocol::user::id_key()) + enc_uint(p.id as u64) + enc_str(
        crate::protocol::user::title_key(),
    ) + enc_str(encode_utf8(p.title)) + enc_str(crate::protocol::user::lastedit_key()) + enc_uint(
        p.lastedit,
    ) + enc_str(crate::protocol::user::created_key()) + enc_uint(p.created) + enc_str(
        crate::protocol::user::imgid_key(),
    ) + enc_uint(p.imgid as u64)
}

pub open spec fn enc_project_items(ps: Seq<ProjectDataS>) -> Seq<u8>
    decreases ps.len(),
{
    if ps.len() == 0 {
        Seq::empty()
    } else {
        enc_project(ps[0]) + enc_project_items(ps.skip(1))
    }
}

/// One encoded field value, shortest form.
pub open spec fn enc_field(v: FieldValueS) -> Seq<u8> {
    match v {
        FieldValueS::Str(cs) => enc_str(encode_utf8(cs)),
        FieldValueS::UInt(n) => enc_uint(n),
        FieldValueS::Bin(b) => enc_bin(b),
        FieldValueS::Projects(ps) => enc_arrhdr(ps.len() as u64) + enc_project_items(ps),
    }
}

/// The encoded pairs of a record, fields in schema order.
pub open spec fn enc_pairs(schema: Seq<(Seq<u8>, WireType)>, vals: Seq<FieldValueS>) -> Seq<u8>
    decreases schema.len(),
{
    if schema.len() == 0 {
        Seq::empty()
    } else {
        enc_str(schema[0].0) + enc_field(vals[0]) + enc_pairs(schema.skip(1), vals.skip(1))
    }
}

/// One encoded record: map header plus its pairs in schema order.
pub open spec fn enc_record(schema: Seq<(Seq<u8>, WireType)>, vals: Seq<FieldValueS>) -> Seq<u8> {
    enc_maphdr(schema.len() as u64) + enc_pairs(schema, vals)
}

/// The value has the declared wire type.
pub open spec fn type_matches(ty: WireType, v: FieldValueS) -> bool {
    match v {
        FieldValueS::Str(_) => ty == WireType::Str,
        FieldValueS::UInt(_) => ty == WireType::UInt,
        FieldValueS::Bin(_) => ty == WireType::Bin,
        FieldValueS::Projects(_) => ty == WireType::Projects,
    }
}

/// The encoding of `v` fits the wire's length limits.
pub open spec fn enc_fits(v: FieldValueS) -> bool {
    match v {
        FieldValueS::Str(cs) => encode_utf8(cs).len() <= 0xffffffff,
        FieldValueS::UInt(_) => true,
        FieldValueS::Bin(b) => b.len() <= 0xffffffff,
        FieldValueS::Projects(ps) => ps.len() <= 0xffffffff && (forall|k: int|
            0 <= k < ps.len() ==> #[trigger] project_fits(ps[k])),
    }
}

/// A field value of the declared type whose encoding fits the wire.
pub open spec fn field_fits(ty: WireType, v: FieldValueS) -> bool {
    type_matches(ty, v) && enc_fits(v)
}

pub open spec fn project_fits(p: ProjectDataS) -> bool {
    encode_utf8(p.title).len() <= 0xffffffff
}

/// The values match the schema and fit the wire.
pub open spec fn vals_fit(schema: Seq<(Seq<u8>, WireType)>, vals: Seq<FieldValueS>) -> bool {
    vals.len() == schema.len() && (forall|k: int|
        0 <= k < schema.len() ==> #[trigger] field_fits(schema[k].1, vals[k]))
}

// ===== encoding, executable =====

/// Runtime check that the encoding of `v` fits the wire's length limits.
pub fn check_enc_fits(v: &FieldValue) -> (r: bool)
    ensures
        r == enc_fits(v@),
{
    match v {
        FieldValue::Str(s) => (s.as_str().as_bytes().len() as u64) <= 0xffffffff,
        FieldValue::UInt(_) => true,
        FieldValue::Bin(b) => (b.len() as u64) <= 0xffffffff,
        FieldValue::Projects(ps) => {
            if (ps.len() as u64) > 0xffffffff {
                proof {
                    assert(ps@.map_values(|p: ProjectData| p@).len() == ps@.len());
                }
                return false;
            }
            let ghost psv = ps@.map_values(|p: ProjectData| p@);
            let mut k: usize = 0;
            while k < ps.len()
                invariant
                    k <= ps@.len(),
                    v@ == FieldValueS::Projects(psv),
                    psv.len() == ps@.len() <= 0xffffffff,
                    psv == ps@.map_values(|p: ProjectData| p@),
                    forall|j: int| 0 <= j < k ==> #[trigger] project_fits(psv[j]),
                decreases ps@.len() - k,
            {
                if (ps[k].title.as_str().as_bytes().len() as u64) > 0xffffffff {
                    proof {
                        assert(psv[k as int] == ps@[k as int]@);
                        assert(!project_fits(psv[k as int]));
                    }
                    return false;
                }
                proof {
                    assert(psv[k as int] == ps@[k as int]@);
                    assert(project_fits(psv[k as int]));
                }
                k = k + 1;
            }
            true
        },
    }
}

/// Appends one encoded project row to `out`.
#[verifier::rlimit(80)]
pub fn write_project(out: &mut Vec<u8>, p: &ProjectData)
    requires
        project_fits(p@),
    ensures
        final(out)@ == old(out)@ + enc_project(p@),
{
    proof {
        reveal_strlit("id");
        reveal_strlit("title");
        reveal_strlit("lastedit");
        reveal_strlit("created");
        reveal_strlit("imgid");
        vstd::utf8::is_ascii_chars_encode_utf8("id"@);
        vstd::utf8::is_ascii_chars_encode_utf8("title"@);
        vstd::utf8::is_ascii_chars_encode_utf8("lastedit"@);
        vstd::utf8::is_ascii_chars_encode_utf8("created"@);
        vstd::utf8::is_ascii_chars_encode_utf8("imgid"@);
    }
    write_maphdr(out, 5);
    write_strbytes(out, "id".as_bytes());
    write_uint(out, p.id as u64);
    write_strbytes(out, "title".as_bytes());
    write_strbytes(out, p.title.as_str().as_bytes());
    write_strbytes(out, "lastedit".as_bytes());
    write_uint(out, p.lastedit);
    write_strbytes(out, "created".as_bytes());
    write_uint(out, p.created);
    write_strbytes(out, "imgid".as_bytes());
    write_uint(out, p.imgid as u64);
    proof {
        assert(out@ =~= old(out)@ + enc_project(p@));
    }
}

/// `enc_project_items` of one more row appends that row's encoding.
#[verifier::rlimit(100)]
#[verifier::spinoff_prover]
pub proof fn lemma_enc_project_items_snoc(ps: Seq<ProjectDataS>, k: int)
    requires
        0 <= k < ps.len(),
    ensures
        enc_project_items(ps.take(k + 1)) == enc_project_items(ps.take(k)) + enc_project(ps[k]),
    decreases k,
{
    let a = ps.take(k + 1);
    let b = ps.take(k);
    if k == 0 {
        assert(a =~= seq![ps[0]]);
        assert(b =~= Seq::empty());
        assert(a.skip(1) =~= Seq::<ProjectDataS>::empty());
        assert(enc_project_items(a) =~= enc_project(ps[0]) + enc_project_items(a.skip(1)));
        assert(enc_project_items(a) =~= enc_project_items(b) + enc_project(ps[k]));
    } else {
        let t = ps.skip(1);
        lemma_enc_project_items_snoc(t, k - 1);
        assert(a.skip(1) =~= t.take(k));
        assert(b.skip(1) =~= t.take(k - 1));
        assert(a[0] == ps[0] && b[0] == ps[0]);
        assert(t[k - 1] == ps[k]);
        assert(enc_project_items(a) == enc_project(ps[0]) + enc_project_items(t.take(k)));
        assert(enc_project_items(b) == enc_project(ps[0]) + enc_project_items(t.take(k - 1)));
        assert(enc_project_items(a) =~= enc_project_items(b) + enc_project(ps[k]));
    }
}

/// Appends one encoded field value to `out`.
pub fn write_field(out: &mut Vec<u8>, v: &FieldValue)
    requires
        enc_fits(v@),
    ensures
        final(out)@ == old(out)@ + enc_field(v@),
{
    match v {
        FieldValue::Str(s) => {
            write_strbytes(out, s.as_str().as_bytes());
        },
        FieldValue::UInt(n) => {
            write_uint(out, *n);
        },
        FieldValue::Bin(b) => {
            write_binbytes(out, b.as_slice());
        },
        FieldValue::Projects(ps) => {
            let ghost psv = ps@.map_values(|p: ProjectData| p@);
            write_arrhdr(out, ps.len() as u64);
            let ghost base = out@;
            let mut k: usize = 0;
            proof {
                assert(enc_project_items(psv.take(0)) =~= Seq::<u8>::empty());
                assert(base + enc_project_items(psv.take(0)) =~= base);
            }
            while k < ps.len()
                invariant
                    k <= ps@.len(),
                    psv == ps@.map_values(|p: ProjectData| p@),
                    forall|j: int| 0 <= j < psv.len() ==> #[trigger] project_fits(psv[j]),
                    out@ == base + enc_project_items(psv.take(k as int)),
                decreases ps@.len() - k,
            {
                proof {
                    assert(psv[k as int] == ps@[k as int]@);
                    assert(project_fits(psv[k as int]));
                }
                write_project(out, &ps[k]);
                proof {
                    lemma_enc_project_items_snoc(psv, k as int);
                    assert(out@ =~= base + enc_project_items(psv.take(k + 1)));
                }
                k = k + 1;
            }
            proof {
                assert(psv.take(psv.len() as int) =~= psv);
                assert(out@ =~= old(out)@ + enc_field(v@));
            }
        },
    }
}

/// Appends one encoded record (fields in schema order) to `out`.
pub fn write_record(out: &mut Vec<u8>, schema: &Vec<(Vec<u8>, WireType)>, vals: &Vec<FieldValue>)
    requires
        vals@.len() == schema@.len(),
        schema@.len() <= 0xffffffff,
        forall|k: int| 0 <= k < vals@.len() ==> enc_fits(#[trigger] fields_view(vals@)[k]),
        forall|k: int| 0 <= k < schema@.len() ==> (#[trigger] schema@[k]).0@.len() <= 0xffffffff,
    ensures
        final(out)@ == old(out)@ + enc_record(schema_view(schema@), fields_view(vals@)),
{
    let ghost sv = schema_view(schema@);
    let ghost fv = fields_view(vals@);
    write_maphdr(out, schema.len() as u64);
    let ghost base = out@;
    proof {
        assert(sv.skip(0) =~= sv);
        assert(fv.skip(0) =~= fv);
    }
    let mut k: usize = 0;
    while k < schema.len()
        invariant
            k <= schema@.len(),
            vals@.len() == schema@.len(),
            sv == schema_view(schema@),
            fv == fields_view(vals@),
            forall|j: int| 0 <= j < vals@.len() ==> enc_fits(#[trigger] fields_view(vals@)[j]),
            forall|j: int|
                0 <= j < schema@.len() ==> (#[trigger] schema@[j]).0@.len() <= 0xffffffff,
            out@ + enc_pairs(sv.skip(k as int), fv.skip(k as int)) == base + enc_pairs(sv, fv),
        decreases schema@.len() - k,
    {
        let ghost pre = out@;
        proof {
            assert(enc_fits(fv[k as int]));
            assert(fv[k as int] == vals@[k as int]@);
            assert(sv[k as int].0 == schema@[k as int].0@);
        }
        write_strbytes(out, schema[k].0.as_slice());
        write_field(out, &vals[k]);
        proof {
            let rest = sv.skip(k as int);
            assert(rest[0] == sv[k as int]);
            assert(rest.skip(1) =~= sv.skip(k + 1));
            assert(fv.skip(k as int).skip(1) =~= fv.skip(k + 1));
            assert(fv.skip(k as int)[0] == fv[k as int]);
            assert(enc_pairs(sv.skip(k as int), fv.skip(k as int)) =~= enc_str(sv[k as int].0)
                + enc_field(fv[k as int]) + enc_pairs(sv.skip(k + 1), fv.skip(k + 1)));
            assert(out@ + enc_pairs(sv.skip(k + 1), fv.skip(k + 1)) =~= pre + enc_pairs(
                sv.skip(k as int),
                fv.skip(k as int),
            ));
        }
        k = k + 1;
    }
    proof {
        assert(sv.skip(sv.len() as int) =~= Seq::<(Seq<u8>, WireType)>::empty());
        assert(fv.skip(fv.len() as int) =~= Seq::<FieldValueS>::empty());
        assert(enc_pairs(sv.skip(sv.len() as int), fv.skip(fv.len() as int))
            =~= Seq::<u8>::empty());
        assert(out@ =~= out@ + Seq::<u8>::empty());
        assert(out@ =~= old(out)@ + enc_record(sv, fv));
    }
}

// ===== round trip: reading back what was written =====

/// No two schema fields share a name.
pub open spec fn keys_distinct(schema: Seq<(Seq<u8>, WireType)>) -> bool {
    forall|i: int, j: int|
        0 <= i < j < schema.len() ==> (#[trigger] schema[i]).0 != (#[trigger] schema[j]).0
}

/// Every schema field name fits a wire string.
pub open spec fn keys_fit(schema: Seq<(Seq<u8>, WireType)>) -> bool {
    forall|k: int| 0 <= k < schema.len() ==> (#[trigger] schema[k]).0.len() <= 0xffffffff
}

/// Every encoded field value takes at least one byte.
#[verifier::rlimit(100)]
#[verifier::spinoff_prover]
pub proof fn lemma_enc_field_nonempty(v: FieldValueS)
    ensures
        enc_field(v).len() >= 1,
{
    match v {
        FieldValueS::Str(cs) => {
            assert(enc_strhdr(encode_utf8(cs).len() as u64).len() >= 1);
        },
        FieldValueS::UInt(n) => {
            assert(enc_uint(n).len() >= 1);
        },
        FieldValueS::Bin(b) => {
            assert(enc_binhdr(b.len() as u64).len() >= 1);
        },
        FieldValueS::Projects(ps) => {
            assert(enc_arrhdr(ps.len() as u64).len() >= 1);
        },
    }
}

/// Reading back one written scalar field value.
#[verifier::rlimit(100)]
#[verifier::spinoff_prover]
pub proof fn lemma_parse_field_enc_scalar(ty: WireType, v: FieldValueS, rest: Seq<u8>)
    requires
        field_fits(ty, v),
        ty != WireType::Projects,
    ensures
        spec_parse_field(ty, enc_field(v) + rest) == Some((v, rest)),
{
    match v {
        FieldValueS::Str(cs) => {
            let b = encode_utf8(cs);
            lemma_parse_str_enc(b, rest);
            vstd::utf8::encode_utf8_valid_utf8(cs);
            vstd::utf8::encode_utf8_decode_utf8(cs);
        },
        FieldValueS::UInt(n) => {
            crate::wire::lemma_parse_uint_enc(n, rest);
        },
        FieldValueS::Bin(b) => {
            lemma_parse_bin_enc(b, rest);
        },
        FieldValueS::Projects(ps) => {
        },
    }
}

/// Walking the written pairs of a record assigns exactly the written values.
#[verifier::rlimit(100)]
pub proof fn lemma_walk_pairs_enc(
    schema: Seq<(Seq<u8>, WireType)>,
    vals: Seq<FieldValueS>,
    k: int,
    acc: Seq<Option<FieldValueS>>,
    rest: Seq<u8>,
)
    requires
        0 <= k <= schema.len(),
        vals.len() == schema.len(),
        acc.len() == schema.len(),
        keys_distinct(schema),
        keys_fit(schema),
        forall|j: int, r: Seq<u8>|
            k <= j < schema.len() ==> #[trigger] spec_parse_field(
                schema[j].1,
                enc_field(vals[j]) + r,
            ) == Some((vals[j], r)),
    ensures
        spec_walk_pairs(
            enc_pairs(schema.skip(k), vals.skip(k)) + rest,
            (schema.len() - k) as nat,
            schema,
            acc,
        ) == Some(
            (
                Seq::new(
                    schema.len() as nat,
                    |i: int| if i >= k { Some(vals[i]) } else { acc[i] },
                ),
                rest,
            ),
        ),
    decreases schema.len() - k,
{
    if k == schema.len() {
        assert(schema.skip(k).len() == 0);
        assert(enc_pairs(schema.skip(k), vals.skip(k)) + rest =~= rest);
        assert(Seq::new(
            schema.len() as nat,
            |i: int| if i >= k { Some(vals[i]) } else { acc[i] },
        ) =~= acc);
    } else {
        let sk = schema.skip(k);
        let vk = vals.skip(k);
        let key = schema[k].0;
        let v = vals[k];
        assert(sk[0] == schema[k]);
        assert(vk[0] == vals[k]);
        assert(sk.skip(1) =~= schema.skip(k + 1));
        assert(vk.skip(1) =~= vals.skip(k + 1));
        let tail2 = enc_pairs(schema.skip(k + 1), vals.skip(k + 1)) + rest;
        let tail1 = enc_field(v) + tail2;
        let s = enc_pairs(sk, vk) + rest;
        assert(enc_pairs(sk, vk) == enc_str(key) + enc_field(v) + enc_pairs(
            sk.skip(1),
            vk.skip(1),
        ));
        assert(s =~= enc_str(key) + tail1);
        assert(key.len() <= 0xffffffff);
        lemma_parse_str_enc(key, tail1);
        assert(enc_strhdr(key.len() as u64).len() >= 1);
        assert(tail1.len() < s.len());
        lemma_key_index_char(schema, key);
        if key_index(schema, key) is None {
            assert(schema[k].0 != key);
        }
        let fi = key_index(schema, key)->Some_0;
        if fi < k {
            assert(schema[fi].0 != schema[k].0);
        }
        if k < fi {
            assert(schema[k].0 != key);
        }
        assert(key_index(schema, key) == Some(k));
        assert(spec_parse_field(schema[k].1, enc_field(vals[k]) + tail2) == Some(
            (vals[k], tail2),
        ));
        lemma_enc_field_nonempty(v);
        assert(tail2.len() < s.len());
        lemma_walk_pairs_enc(schema, vals, k + 1, acc.update(k, Some(v)), rest);
        assert(Seq::new(
            schema.len() as nat,
            |i: int| if i >= k + 1 { Some(vals[i]) } else { acc.update(k, Some(v))[i] },
        ) =~= Seq::new(schema.len() as nat, |i: int| if i >= k { Some(vals[i]) } else { acc[i] }));
    }
}

/// Reading back one written record whose fields are all scalar.
#[verifier::rlimit(100)]
#[verifier::spinoff_prover]
pub proof fn lemma_decode_enc_record_scalar(
    schema: Seq<(Seq<u8>, WireType)>,
    vals: Seq<FieldValueS>,
    rest: Seq<u8>,
)
    requires
        keys_distinct(schema),
        keys_fit(schema),
        schema.len() <= 0xffffffff,
        vals_fit(schema, vals),
        forall|k: int| 0 <= k < schema.len() ==> (#[trigger] schema[k]).1 != WireType::Projects,
    ensures
        spec_decode_record(enc_record(schema, vals) + rest, schema) == Some((vals, rest)),
{
    assert forall|j: int, r: Seq<u8>|
        0 <= j < schema.len() implies #[trigger] spec_parse_field(
        schema[j].1,
        enc_field(vals[j]) + r,
    ) == Some((vals[j], r)) by {
        assert(field_fits(schema[j].1, vals[j]));
        lemma_parse_field_enc_scalar(schema[j].1, vals[j], r);
    }
    lemma_decode_enc_record_inner(schema, vals, rest);
}

/// Reading back one written record, given that each written field reads back.
#[verifier::rlimit(100)]
#[verifier::spinoff_prover]
proof fn lemma_decode_enc_record_inner(
    schema: Seq<(Seq<u8>, WireType)>,
    vals: Seq<FieldValueS>,
    rest: Seq<u8>,
)
    requires
        keys_distinct(schema),
        keys_fit(schema),
        schema.len() <= 0xffffffff,
        vals.len() == schema.len(),
        forall|j: int, r: Seq<u8>|
            0 <= j < schema.len() ==> #[trigger] spec_parse_field(
                schema[j].1,
                enc_field(vals[j]) + r,
            ) == Some((vals[j], r)),
    ensures
        spec_decode_record(enc_record(schema, vals) + rest, schema) == Some((vals, rest)),
{
    let n = schema.len();
    let pairs = enc_pairs(schema, vals);
    let s = enc_record(schema, vals) + rest;
    assert(s =~= enc_maphdr(n as u64) + (pairs + rest));
    lemma_parse_maphdr_enc(n as u64, pairs + rest);
    assert(enc_maphdr(n as u64).len() >= 1);
    assert((pairs + rest).len() < s.len());
    assert(schema.skip(0) =~= schema);
    assert(vals.skip(0) =~= vals);
    let acc0 = Seq::new(n, |i: int| None::<FieldValueS>);
    lemma_walk_pairs_enc(schema, vals, 0, acc0, rest);
    let accf = Seq::new(n, |i: int| if i >= 0 { Some(vals[i]) } else { acc0[i] });
    assert(acc_complete(accf));
    assert(acc_values(accf) =~= vals);
}

/// For scalar values the scalar pair encoding is the general one.
#[verifier::rlimit(100)]
#[verifier::spinoff_prover]
pub proof fn lemma_enc_pairs_scalar(schema: Seq<(Seq<u8>, WireType)>, vals: Seq<FieldValueS>)
    requires
        vals.len() == schema.len(),
        forall|k: int| 0 <= k < vals.len() ==> !((#[trigger] vals[k]) is Projects),
    ensures
        enc_pairs_scalar(schema, vals) == enc_pairs(schema, vals),
    decreases schema.len(),
{
    if schema.len() == 0 {
    } else {
        assert(enc_scalar_field(vals[0]) == enc_field(vals[0]));
        assert forall|k: int|
            0 <= k < vals.skip(1).len() implies !((#[trigger] vals.skip(1)[k]) is Projects) by {
            assert(vals.skip(1)[k] == vals[k + 1]);
        }
        lemma_enc_pairs_scalar(schema.skip(1), vals.skip(1));
    }
}

/// A project row's encoding is the general record encoding of its fields.
#[verifier::rlimit(100)]
#[verifier::spinoff_prover]
pub proof fn lemma_enc_project_as_record(p: ProjectDataS)
    ensures
        enc_project(p) == enc_record(proj_schema(), project_fields(p)),
{
    let sch = proj_schema();
    let fv = project_fields(p);
    assert forall|k: int| 0 <= k < fv.len() implies !((#[trigger] fv[k]) is Projects) by {}
    lemma_enc_pairs_scalar(sch, fv);
    let m = enc_maphdr(5);
    let a0 = enc_str(sch[0].0);
    let b0 = enc_scalar_field(fv[0]);
    let a1 = enc_str(sch[1].0);
    let b1 = enc_scalar_field(fv[1]);
    let a2 = enc_str(sch[2].0);
    let b2 = enc_scalar_field(fv[2]);
    let a3 = enc_str(sch[3].0);
    let b3 = enc_scalar_field(fv[3]);
    let a4 = enc_str(sch[4].0);
    let b4 = enc_scalar_field(fv[4]);
    let s1 = sch.skip(1);
    let f1 = fv.skip(1);
    let s2 = sch.skip(2);
    let f2 = fv.skip(2);
    let s3 = sch.skip(3);
    let f3 = fv.skip(3);
    let s4 = sch.skip(4);
    let f4 = fv.skip(4);
    assert(s1.skip(1) =~= s2 && f1.skip(1) =~= f2);
    assert(s2.skip(1) =~= s3 && f2.skip(1) =~= f3);
    assert(s3.skip(1) =~= s4 && f3.skip(1) =~= f4);
    assert(s4.skip(1).len() == 0 && f4.skip(1).len() == 0);
    assert(s1[0] == sch[1] && s2[0] == sch[2] && s3[0] == sch[3] && s4[0] == sch[4]);
    assert(f1[0] == fv[1] && f2[0] == fv[2] && f3[0] == fv[3] && f4[0] == fv[4]);
    assert(enc_pairs_scalar(s4.skip(1), f4.skip(1)) =~= Seq::<u8>::empty());
    let r4 = enc_pairs_scalar(s4, f4);
    assert(r4 == enc_str(s4[0].0) + enc_scalar_field(f4[0]) + enc_pairs_scalar(
        s4.skip(1),
        f4.skip(1),
    ));
    assert(r4 =~= a4 + b4);
    let r3 = enc_pairs_scalar(s3, f3);
    assert(r3 == a3 + b3 + r4);
    let r2 = enc_pairs_scalar(s2, f2);
    assert(r2 == a2 + b2 + r3);
    let r1 = enc_pairs_scalar(s1, f1);
    assert(r1 == a1 + b1 + r2);
    let r0 = enc_pairs_scalar(sch, fv);
    assert(r0 == a0 + b0 + r1);
    // reassociate m + ((a0 + b0) + r1) into the written order
    vstd::seq_lib::lemma_concat_associative(m, a0 + b0, r1);
    vstd::seq_lib::lemma_concat_associative(m, a0, b0);
    let l2 = m + a0 + b0;
    assert(m + r0 == l2 + r1);
    vstd::seq_lib::lemma_concat_associative(l2, a1 + b1, r2);
    vstd::seq_lib::lemma_concat_associative(l2, a1, b1);
    let l4 = l2 + a1 + b1;
    assert(m + r0 == l4 + r2);
    vstd::seq_lib::lemma_concat_associative(l4, a2 + b2, r3);
    vstd::seq_lib::lemma_concat_associative(l4, a2, b2);
    let l6 = l4 + a2 + b2;
    assert(m + r0 == l6 + r3);
    vstd::seq_lib::lemma_concat_associative(l6, a3 + b3, r4);
    vstd::seq_lib::lemma_concat_associative(l6, a3, b3);
    let l8 = l6 + a3 + b3;
    assert(m + r0 == l8 + r4);
    vstd::seq_lib::lemma_concat_associative(l8, a4, b4);
    let l10 = l8 + a4 + b4;
    assert(m + r0 == l10);
    assert(b0 == enc_uint(p.id as u64));
    assert(b1 == enc_str(encode_utf8(p.title)));
    assert(enc_project(p) == l10);
}

/// The project-row schema has distinct, fitting field names, all scalar.
#[verifier::rlimit(100)]
#[verifier::spinoff_prover]
pub proof fn lemma_proj_schema_facts()
    ensures
        keys_distinct(proj_schema()),
        keys_fit(proj_schema()),
        forall|k: int|
            0 <= k < proj_schema().len() ==> (#[trigger] proj_schema()[k]).1 != WireType::Projects,
{
    reveal_strlit("id");
    reveal_strlit("title");
    reveal_strlit("lastedit");
    reveal_strlit("created");
    reveal_strlit("imgid");
    vstd::utf8::is_ascii_chars_encode_utf8("id"@);
    vstd::utf8::is_ascii_chars_encode_utf8("title"@);
    vstd::utf8::is_ascii_chars_encode_utf8("lastedit"@);
    vstd::utf8::is_ascii_chars_encode_utf8("created"@);
    vstd::utf8::is_ascii_chars_encode_utf8("imgid"@);
    let sch = proj_schema();
    assert(crate::protocol::user::id_key().len() == 2);
    assert(crate::protocol::user::title_key().len() == 5);
    assert(crate::protocol::user::lastedit_key().len() == 8);
    assert(crate::protocol::user::created_key().len() == 7);
    assert(crate::protocol::user::imgid_key().len() == 5);
    assert(crate::protocol::user::title_key()[0] == 't' as u8);
    assert(crate::protocol::user::imgid_key()[0] == 'i' as u8);
    assert forall|i: int, j: int|
        0 <= i < j < sch.len() implies (#[trigger] sch[i]).0 != (#[trigger] sch[j]).0 by {
        if sch[i].0.len() == sch[j].0.len() {
            assert(sch[i].0[0] != sch[j].0[0]);
        }
    }
}

/// Reading back one written project row, and its fields name it back.
#[verifier::rlimit(100)]
#[verifier::spinoff_prover]
pub proof fn lemma_project_roundtrip(p: ProjectDataS, rest: Seq<u8>)
    requires
        project_fits(p),
    ensures
        spec_decode_record(enc_project(p) + rest, proj_schema()) == Some(
            (project_fields(p), rest),
        ),
        spec_project_from_fields(project_fields(p)) == Some(p),
{
    lemma_proj_schema_facts();
    lemma_enc_project_as_record(p);
    let sch = proj_schema();
    let fv = project_fields(p);
    assert forall|k: int| 0 <= k < sch.len() implies #[trigger] field_fits(sch[k].1, fv[k]) by {
        if k == 1 {
            assert(fv[1] == FieldValueS::Str(p.title));
        }
    }
    lemma_decode_enc_record_scalar(sch, fv, rest);
    assert(spec_project_from_fields(fv)->Some_0 == p);
}

/// Reading back a written run of project rows.
#[verifier::rlimit(100)]
#[verifier::spinoff_prover]
pub proof fn lemma_parse_project_items_enc(
    ps: Seq<ProjectDataS>,
    acc: Seq<ProjectDataS>,
    rest: Seq<u8>,
)
    requires
        forall|k: int| 0 <= k < ps.len() ==> #[trigger] project_fits(ps[k]),
    ensures
        spec_parse_project_items(enc_project_items(ps) + rest, ps.len() as nat, acc) == Some(
            (acc + ps, rest),
        ),
    decreases ps.len(),
{
    if ps.len() == 0 {
        assert(enc_project_items(ps) + rest =~= rest);
        assert(acc + ps =~= acc);
    } else {
        let p = ps[0];
        let tail = enc_project_items(ps.skip(1)) + rest;
        let s = enc_project_items(ps) + rest;
        assert(s =~= enc_project(p) + tail);
        lemma_project_roundtrip(p, tail);
        assert(enc_maphdr(5).len() >= 1);
        assert(enc_project(p).len() >= 1);
        assert(tail.len() < s.len());
        assert forall|k: int|
            0 <= k < ps.skip(1).len() implies #[trigger] project_fits(ps.skip(1)[k]) by {
            assert(ps.skip(1)[k] == ps[k + 1]);
        }
        lemma_parse_project_items_enc(ps.skip(1), acc.push(p), rest);
        assert(acc.push(p) + ps.skip(1) =~= acc + ps);
    }
}

/// Reading back one written field value of any wire type.
#[verifier::rlimit(60)]
#[verifier::spinoff_prover]
pub proof fn lemma_parse_field_enc(ty: WireType, v: FieldValueS, rest: Seq<u8>)
    requires
        field_fits(ty, v),
    ensures
        spec_parse_field(ty, enc_field(v) + rest) == Some((v, rest)),
{
    match v {
        FieldValueS::Projects(ps) => {
            let items = enc_project_items(ps);
            let s = enc_field(v) + rest;
            assert(s =~= enc_arrhdr(ps.len() as u64) + (items + rest));
            lemma_parse_arrhdr_enc(ps.len() as u64, items + rest);
            assert(enc_arrhdr(ps.len() as u64).len() >= 1);
            assert((items + rest).len() < s.len());
            lemma_parse_project_items_enc(ps, Seq::empty(), rest);
            assert(Seq::empty() + ps =~= ps);
        },
        _ => {
            lemma_parse_field_enc_scalar(ty, v, rest);
        },
    }
}

/// Reading back one written record of any shape.
#[verifier::rlimit(100)]
#[verifier::spinoff_prover]
pub proof fn lemma_decode_enc_record(
    schema: Seq<(Seq<u8>, WireType)>,
    vals: Seq<FieldValueS>,
    rest: Seq<u8>,
)
    requires
        keys_distinct(schema),
        keys_fit(schema),
        schema.len() <= 0xffffffff,
        vals_fit(schema, vals),
    ensures
        spec_decode_record(enc_record(schema, vals) + rest, schema) == Some((vals, rest)),
{
    assert forall|j: int, r: Seq<u8>|
        0 <= j < schema.len() implies #[trigger] spec_parse_field(
        schema[j].1,
        enc_field(vals[j]) + r,
    ) == Some((vals[j], r)) by {
        assert(field_fits(schema[j].1, vals[j]));
        lemma_parse_field_enc(schema[j].1, vals[j], r);
    }
    lemma_decode_enc_record_inner(schema, vals, rest);
}

// ===== decoded values have their declared types =====

/// A value read by `spec_parse_field` has the declared type.
pub proof fn lemma_parse_field_type(ty: WireType, s: Seq<u8>)
    ensures
        spec_parse_field(ty, s) matches Some((v, r)) ==> type_matches(ty, v),
{
}

/// Walking pairs preserves "every assigned field has its declared type".
#[verifier::rlimit(100)]
#[verifier::spinoff_prover]
pub proof fn lemma_walk_pairs_types(
    s: Seq<u8>,
    n: nat,
    schema: Seq<(Seq<u8>, WireType)>,
    acc: Seq<Option<FieldValueS>>,
)
    requires
        acc.len() == schema.len(),
        forall|k: int|
            0 <= k < schema.len() ==> (#[trigger] acc[k]) is Some ==> type_matches(
                schema[k].1,
                acc[k]->Some_0,
            ),
    ensures
        spec_walk_pairs(s, n, schema, acc) matches Some((acc2, r)) ==> acc2.len() == schema.len()
            && (forall|k: int|
            0 <= k < schema.len() ==> (#[trigger] acc2[k]) is Some ==> type_matches(
                schema[k].1,
                acc2[k]->Some_0,
            )),
    decreases s.len(), 5int, n,
{
    if n == 0 {
    } else {
        match spec_parse_str(s) {
            Some((kb, r1)) => {
                if r1.len() < s.len() {
                    match key_index(schema, kb) {
                        Some(fi) => {
                            lemma_key_index_char(schema, kb);
                            match spec_parse_field(schema[fi].1, r1) {
                                None => {},
                                Some((v, r2)) => {
                                    if r2.len() < s.len() {
                                        lemma_parse_field_type(schema[fi].1, r1);
                                        let acc1 = acc.update(fi, Some(v));
                                        assert forall|k: int|
                                            0 <= k < schema.len() && (#[trigger] acc1[k])
                                            is Some implies type_matches(
                                            schema[k].1,
                                            acc1[k]->Some_0,
                                        ) by {
                                            if k != fi {
                                                assert(acc1[k] == acc[k]);
                                            }
                                        }
                                        lemma_walk_pairs_types(
                                            r2,
                                            (n - 1) as nat,
                                            schema,
                                            acc1,
                                        );
                                    }
                                },
                            }
                        },
                        None => {
                            match spec_skip_value(r1) {
                                None => {},
                                Some(r2) => {
                                    if r2.len() < s.len() {
                                        lemma_walk_pairs_types(r2, (n - 1) as nat, schema, acc);
                                    }
                                },
                            }
                        },
                    }
                }
            },
            None => {
                match spec_skip_value(s) {
                    None => {},
                    Some(r1) => {
                        match spec_skip_value(r1) {
                            None => {},
                            Some(r2) => {
                                if r2.len() < s.len() {
                                    lemma_walk_pairs_types(r2, (n - 1) as nat, schema, acc);
                                }
                            },
                        }
                    },
                }
            },
        }
    }
}

/// A decoded record's values have the schema's declared types.
#[verifier::rlimit(100)]
#[verifier::spinoff_prover]
pub proof fn lemma_decode_record_types(s: Seq<u8>, schema: Seq<(Seq<u8>, WireType)>)
    ensures
        spec_decode_record(s, schema) matches Some((vals, r)) ==> vals.len() == schema.len() && (
        forall|k: int|
            0 <= k < schema.len() ==> type_matches((#[trigger] schema[k]).1, vals[k])),
{
    match spec_parse_maphdr(s) {
        None => {},
        Some((n, r)) => {
            if r.len() < s.len() {
                let acc0 = Seq::new(schema.len(), |k: int| None::<FieldValueS>);
                lemma_walk_pairs_types(r, n as nat, schema, acc0);
                match spec_walk_pairs(r, n as nat, schema, acc0) {
                    None => {},
                    Some((acc2, rest)) => {
                        if acc_complete(acc2) {
                            assert forall|k: int|
                                0 <= k < schema.len() implies type_matches(
                                (#[trigger] schema[k]).1,
                                acc_values(acc2)[k],
                            ) by {
                                assert(acc2[k] is Some);
                                assert(acc_values(acc2)[k] == acc2[k]->Some_0);
                            }
                        }
                    },
                }
            }
        },
    }
}

/// Takes the single value out of a one-field record's values.
pub fn take1(vals: Vec<FieldValue>) -> (r: FieldValue)
    requires
        vals@.len() == 1,
    ensures
        r@ == fields_view(vals@)[0],
{
    let mut v = vals;
    v.pop().unwrap()
}

/// Takes the two values out of a two-field record's values, in order.
pub fn take2(vals: Vec<FieldValue>) -> (r: (FieldValue, FieldValue))
    requires
        vals@.len() == 2,
    ensures
        r.0@ == fields_view(vals@)[0],
        r.1@ == fields_view(vals@)[1],
{
    let mut v = vals;
    let b = v.pop().unwrap();
    let a = v.pop().unwrap();
    (a, b)
}

// ===== forward compatibility and strict validation =====

/// The bytes are one complete wire value: reading past one value consumes
/// exactly them.
pub open spec fn complete_value(v: Seq<u8>) -> bool {
    forall|rest: Seq<u8>| #[trigger] spec_skip_value(v + rest) == Some(rest)
}

/// Unknown keys are ignored: a record pair whose key names no schema field
/// contributes nothing to the walk, wherever in the record it stands (the
/// walk reaches every pair as the first remaining one).
#[verifier::rlimit(100)]
#[verifier::spinoff_prover]
pub proof fn lemma_walk_skips_unknown_pair(
    s: Seq<u8>,
    n: nat,
    schema: Seq<(Seq<u8>, WireType)>,
    acc: Seq<Option<FieldValueS>>,
    kb: Seq<u8>,
    vb: Seq<u8>,
)
    requires
        key_index(schema, kb) is None,
        kb.len() <= 0xffffffff,
        complete_value(vb),
        vb.len() >= 1,
    ensures
        spec_walk_pairs(enc_str(kb) + vb + s, n + 1, schema, acc) == spec_walk_pairs(
            s,
            n,
            schema,
            acc,
        ),
{
    let t = enc_str(kb) + vb + s;
    assert(t =~= enc_str(kb) + (vb + s));
    lemma_parse_str_enc(kb, vb + s);
    assert(enc_strhdr(kb.len() as u64).len() >= 1);
    assert((vb + s).len() < t.len());
    assert(spec_skip_value(vb + s) == Some(s));
    assert(s.len() < t.len());
}

/// A mistyped required field fails the whole record: a pair whose key names
/// a schema field but whose value does not read as the declared wire type
/// fails the walk.
#[verifier::rlimit(100)]
#[verifier::spinoff_prover]
pub proof fn lemma_mistyped_field_fails(
    s: Seq<u8>,
    n: nat,
    schema: Seq<(Seq<u8>, WireType)>,
    acc: Seq<Option<FieldValueS>>,
    kb: Seq<u8>,
    vb: Seq<u8>,
)
    requires
        key_index(schema, kb) matches Some(fi) && spec_parse_field(
            schema[fi].1,
            vb + s,
        ) is None,
        kb.len() <= 0xffffffff,
    ensures
        spec_walk_pairs(enc_str(kb) + vb + s, n + 1, schema, acc) is None,
{
    let t = enc_str(kb) + vb + s;
    assert(t =~= enc_str(kb) + (vb + s));
    lemma_parse_str_enc(kb, vb + s);
    assert(enc_strhdr(kb.len() as u64).len() >= 1);
    assert((vb + s).len() < t.len());
}

/// Every written scalar value is one complete wire value.
#[verifier::rlimit(100)]
#[verifier::spinoff_prover]
pub proof fn lemma_enc_scalar_complete(v: FieldValueS)
    requires
        enc_fits(v),
        !(v is Projects),
    ensures
        complete_value(enc_field(v)),
{
    assert forall|rest: Seq<u8>| #[trigger] spec_skip_value(enc_field(v) + rest) == Some(
        rest,
    ) by {
        match v {
            FieldValueS::Str(cs) => {
                let b = encode_utf8(cs);
                lemma_parse_str_enc(b, rest);
                let t = enc_str(b) + rest;
                assert(t[0] == enc_strhdr(b.len() as u64)[0]);
                assert(crate::wire::is_str_marker(t[0]));
                assert(!crate::wire::is_arr_marker(t[0]) && !crate::wire::is_map_marker(t[0]));
            },
            FieldValueS::UInt(n) => {
                crate::wire::lemma_parse_uint_enc(n, rest);
                let t = enc_uint(n) + rest;
                assert(t[0] == enc_uint(n)[0]);
                assert(crate::wire::fixed_extra(t[0]) is Some);
                assert(!crate::wire::is_arr_marker(t[0]) && !crate::wire::is_map_marker(t[0])
                    && !crate::wire::is_str_marker(t[0]) && !crate::wire::is_bin_marker(t[0]));
                assert(spec_skip_value(t) == Some(rest));
            },
            FieldValueS::Bin(b) => {
                lemma_parse_bin_enc(b, rest);
                let t = enc_bin(b) + rest;
                assert(t[0] == enc_binhdr(b.len() as u64)[0]);
                assert(crate::wire::is_bin_marker(t[0]));
                assert(!crate::wire::is_arr_marker(t[0]) && !crate::wire::is_map_marker(t[0])
                    && !crate::wire::is_str_marker(t[0]));
            },
            FieldValueS::Projects(_) => {},
        }
    }
}

// ===== positional (tuple) payloads =====

/// Reads the elements of a positional payload, left to right, each with its
/// declared wire type, appending to `acc`.
pub open spec fn spec_tuple_items(
    s: Seq<u8>,
    types: Seq<WireType>,
    k: int,
    acc: Seq<FieldValueS>,
) -> Option<(Seq<FieldValueS>, Seq<u8>)>
    decreases types.len() - k,
{
    if k < 0 || k >= types.len() {
        Some((acc, s))
    } else {
        match spec_parse_field(types[k], s) {
            None => None,
            Some((v, r)) => if r.len() < s.len() {
                spec_tuple_items(r, types, k + 1, acc.push(v))
            } else {
                None
            },
        }
    }
}

/// Reads one positional payload: a sequence of exactly the declared arity,
/// elements decoded left to right; arity or element-type mismatch fails.
pub open spec fn spec_decode_tuple(s: Seq<u8>, types: Seq<WireType>) -> Option<
    (Seq<FieldValueS>, Seq<u8>),
> {
    match spec_parse_arrhdr(s) {
        None => None,
        Some((n, r)) => if n as int == types.len() && r.len() < s.len() {
            spec_tuple_items(r, types, 0, Seq::empty())
        } else {
            None
        },
    }
}

/// Reads one positional payload against `types` at position `i`.
pub fn decode_tuple(s: &[u8], i: usize, types: &Vec<WireType>) -> (r: Option<
    (Vec<FieldValue>, usize),
>)
    requires
        i <= s@.len(),
    ensures
        match r {
            None => spec_decode_tuple(s@.skip(i as int), types@) is None,
            Some((vals, j)) => i < j <= s@.len() && spec_decode_tuple(s@.skip(i as int), types@)
                == Some((fields_view(vals@), s@.skip(j as int))),
        },
{
    let (n, hdr_end) = match parse_arrhdr(s, i) {
        None => {
            return None;
        },
        Some(h) => h,
    };
    if n != types.len() as u64 {
        return None;
    }
    let mut vals: Vec<FieldValue> = Vec::new();
    let mut cur: usize = hdr_end;
    let mut k: usize = 0;
    proof {
        assert(fields_view(vals@) =~= Seq::<FieldValueS>::empty());
    }
    while k < types.len()
        invariant
            i < cur <= s@.len(),
            k <= types@.len(),
            spec_decode_tuple(s@.skip(i as int), types@) == spec_tuple_items(
                s@.skip(cur as int),
                types@,
                k as int,
                fields_view(vals@),
            ),
        decreases types@.len() - k,
    {
        let ghost pre = fields_view(vals@);
        match parse_field(types[k], s, cur) {
            None => {
                return None;
            },
            Some((v, j)) => {
                proof {
                    assert(s@.skip(j as int).len() < s@.skip(cur as int).len());
                }
                let ghost gv = v@;
                vals.push(v);
                proof {
                    assert(fields_view(vals@) =~= pre.push(gv));
                }
                cur = j;
                k = k + 1;
            },
        }
    }
    Some((vals, cur))
}

/// The encoded elements of a positional payload, in order.
pub open spec fn enc_tuple_items(vals: Seq<FieldValueS>) -> Seq<u8>
    decreases vals.len(),
{
    if vals.len() == 0 {
        Seq::empty()
    } else {
        enc_field(vals[0]) + enc_tuple_items(vals.skip(1))
    }
}

/// One encoded positional payload: array header plus its elements.
pub open spec fn enc_tuple(vals: Seq<FieldValueS>) -> Seq<u8> {
    enc_arrhdr(vals.len() as u64) + enc_tuple_items(vals)
}

/// `enc_tuple_items` of one more element appends that element's encoding.
#[verifier::rlimit(100)]
#[verifier::spinoff_prover]
pub proof fn lemma_enc_tuple_items_snoc(vals: Seq<FieldValueS>, k: int)
    requires
        0 <= k < vals.len(),
    ensures
        enc_tuple_items(vals.take(k + 1)) == enc_tuple_items(vals.take(k)) + enc_field(vals[k]),
    decreases k,
{
    let a = vals.take(k + 1);
    let b = vals.take(k);
    if k == 0 {
        assert(a =~= seq![vals[0]]);
        assert(b =~= Seq::empty());
        assert(a.skip(1) =~= Seq::<FieldValueS>::empty());
        assert(enc_tuple_items(a) =~= enc_field(vals[0]) + enc_tuple_items(a.skip(1)));
        assert(enc_tuple_items(a) =~= enc_tuple_items(b) + enc_field(vals[k]));
    } else {
        let t = vals.skip(1);
        lemma_enc_tuple_items_snoc(t, k - 1);
        assert(a.skip(1) =~= t.take(k));
        assert(b.skip(1) =~= t.take(k - 1));
        assert(a[0] == vals[0] && b[0] == vals[0]);
        assert(t[k - 1] == vals[k]);
        assert(enc_tuple_items(a) == enc_field(vals[0]) + enc_tuple_items(t.take(k)));
        assert(enc_tuple_items(b) == enc_field(vals[0]) + enc_tuple_items(t.take(k - 1)));
        assert(enc_tuple_items(a) =~= enc_tuple_items(b) + enc_field(vals[k]));
    }
}

/// Appends one encoded positional payload to `out`.
pub fn write_tuple(out: &mut Vec<u8>, vals: &Vec<FieldValue>)
    requires
        vals@.len() <= 0xffffffff,
        forall|k: int| 0 <= k < vals@.len() ==> enc_fits(#[trigger] fields_view(vals@)[k]),
    ensures
        final(out)@ == old(out)@ + enc_tuple(fields_view(vals@)),
{
    let ghost fv = fields_view(vals@);
    write_arrhdr(out, vals.len() as u64);
    let ghost base = out@;
    let mut k: usize = 0;
    proof {
        assert(enc_tuple_items(fv.take(0)) =~= Seq::<u8>::empty());
        assert(base + enc_tuple_items(fv.take(0)) =~= base);
    }
    while k < vals.len()
        invariant
            k <= vals@.len(),
            fv == fields_view(vals@),
            forall|j: int| 0 <= j < vals@.len() ==> enc_fits(#[trigger] fields_view(vals@)[j]),
            out@ == base + enc_tuple_items(fv.take(k as int)),
        decreases vals@.len() - k,
    {
        proof {
            assert(fv[k as int] == vals@[k as int]@);
        }
        write_field(out, &vals[k]);
        proof {
            lemma_enc_tuple_items_snoc(fv, k as int);
            assert(out@ =~= base + enc_tuple_items(fv.take(k + 1)));
        }
        k = k + 1;
    }
    proof {
        assert(fv.take(fv.len() as int) =~= fv);
        assert(out@ =~= old(out)@ + enc_tuple(fv));
    }
}

/// Forward compatibility, whole-record form: a record carrying one extra
/// pair with an unknown key ahead of the declared fields decodes exactly as
/// the record without it.
#[verifier::rlimit(100)]
#[verifier::spinoff_prover]
pub proof fn lemma_decode_record_extra_front(
    schema: Seq<(Seq<u8>, WireType)>,
    vals: Seq<FieldValueS>,
    kb: Seq<u8>,
    vb: Seq<u8>,
    rest: Seq<u8>,
)
    requires
        keys_distinct(schema),
        keys_fit(schema),
        schema.len() + 1 <= 0xffffffff,
        vals_fit(schema, vals),
        key_index(schema, kb) is None,
        kb.len() <= 0xffffffff,
        complete_value(vb),
        vb.len() >= 1,
    ensures
        spec_decode_record(
            enc_maphdr((schema.len() + 1) as u64) + (enc_str(kb) + vb + enc_pairs(schema, vals))
                + rest,
            schema,
        ) == Some((vals, rest)),
{
    let n = schema.len();
    let pairs = enc_str(kb) + vb + enc_pairs(schema, vals);
    let s = enc_maphdr((n + 1) as u64) + pairs + rest;
    assert(s =~= enc_maphdr((n + 1) as u64) + (pairs + rest));
    lemma_parse_maphdr_enc((n + 1) as u64, pairs + rest);
    assert(enc_maphdr((n + 1) as u64).len() >= 1);
    assert((pairs + rest).len() < s.len());
    let acc0 = Seq::new(n, |i: int| None::<FieldValueS>);
    assert(pairs + rest =~= enc_str(kb) + vb + (enc_pairs(schema, vals) + rest));
    lemma_walk_skips_unknown_pair(
        enc_pairs(schema, vals) + rest,
        n as nat,
        schema,
        acc0,
        kb,
        vb,
    );
    assert forall|j: int, r: Seq<u8>|
        0 <= j < schema.len() implies #[trigger] spec_parse_field(
        schema[j].1,
        enc_field(vals[j]) + r,
    ) == Some((vals[j], r)) by {
        assert(field_fits(schema[j].1, vals[j]));
        lemma_parse_field_enc(schema[j].1, vals[j], r);
    }
    assert(schema.skip(0) =~= schema);
    assert(vals.skip(0) =~= vals);
    lemma_walk_pairs_enc(schema, vals, 0, acc0, rest);
    let accf = Seq::new(n, |i: int| if i >= 0 { Some(vals[i]) } else { acc0[i] });
    assert(acc_complete(accf));
    assert(acc_values(accf) =~= vals);
}

/// Walking the written pairs of a sub-schema never assigns a field none of
/// the written keys names.
#[verifier::rlimit(100)]
#[verifier::spinoff_prover]
pub proof fn lemma_walk_pairs_enc_sub(
    schema: Seq<(Seq<u8>, WireType)>,
    sub: Seq<(Seq<u8>, WireType)>,
    vals: Seq<FieldValueS>,
    acc: Seq<Option<FieldValueS>>,
    rest: Seq<u8>,
    missing: int,
)
    requires
        vals.len() == sub.len(),
        acc.len() == schema.len(),
        keys_fit(sub),
        0 <= missing < schema.len(),
        forall|j: int|
            0 <= j < sub.len() ==> key_index(schema, (#[trigger] sub[j]).0) is Some && key_index(
                schema,
                sub[j].0,
            )->Some_0 != missing,
        forall|j: int, r: Seq<u8>|
            0 <= j < sub.len() ==> #[trigger] spec_parse_field(
                schema[key_index(schema, sub[j].0)->Some_0].1,
                enc_field(vals[j]) + r,
            ) == Some((vals[j], r)),
    ensures
        spec_walk_pairs(enc_pairs(sub, vals) + rest, sub.len() as nat, schema, acc) matches Some((
            acc2,
            r,
        )) && acc2.len() == acc.len() && acc2[missing] == acc[missing],
    decreases sub.len(),
{
    if sub.len() == 0 {
        assert(enc_pairs(sub, vals) + rest =~= rest);
    } else {
        let key = sub[0].0;
        let v = vals[0];
        let subt = sub.skip(1);
        let valst = vals.skip(1);
        let tail2 = enc_pairs(subt, valst) + rest;
        let tail1 = enc_field(v) + tail2;
        let s = enc_pairs(sub, vals) + rest;
        assert(enc_pairs(sub, vals) == enc_str(key) + enc_field(v) + enc_pairs(
            sub.skip(1),
            vals.skip(1),
        ));
        assert(s =~= enc_str(key) + tail1);
        assert(key.len() <= 0xffffffff);
        lemma_parse_str_enc(key, tail1);
        assert(enc_strhdr(key.len() as u64).len() >= 1);
        assert(tail1.len() < s.len());
        let fi = key_index(schema, key)->Some_0;
        lemma_key_index_char(schema, key);
        assert(spec_parse_field(schema[fi].1, enc_field(vals[0]) + tail2) == Some(
            (vals[0], tail2),
        ));
        lemma_enc_field_nonempty(v);
        assert(tail2.len() < s.len());
        let acc1 = acc.update(fi, Some(v));
        assert forall|j: int|
            0 <= j < subt.len() implies key_index(schema, (#[trigger] subt[j]).0) is Some
            && key_index(schema, subt[j].0)->Some_0 != missing by {
            assert(subt[j] == sub[j + 1]);
        }
        assert forall|j: int, r: Seq<u8>|
            0 <= j < subt.len() implies #[trigger] spec_parse_field(
            schema[key_index(schema, subt[j].0)->Some_0].1,
            enc_field(valst[j]) + r,
        ) == Some((valst[j], r)) by {
            assert(subt[j] == sub[j + 1]);
            assert(valst[j] == vals[j + 1]);
            assert(spec_parse_field(
                schema[key_index(schema, sub[j + 1].0)->Some_0].1,
                enc_field(vals[j + 1]) + r,
            ) == Some((vals[j + 1], r)));
        }
        lemma_walk_pairs_enc_sub(schema, subt, valst, acc1, rest, missing);
        assert(acc1[missing] == acc[missing]);
    }
}

/// Strict validation, whole-record form: a record whose pairs are exactly
/// the declared fields except one (all well-typed) does not decode; the
/// missing required field fails the whole record, and nothing partial comes
/// back.
#[verifier::rlimit(100)]
#[verifier::spinoff_prover]
pub proof fn lemma_missing_field_fails(
    schema: Seq<(Seq<u8>, WireType)>,
    vals: Seq<FieldValueS>,
    missing: int,
    rest: Seq<u8>,
)
    requires
        keys_distinct(schema),
        keys_fit(schema),
        schema.len() <= 0xffffffff,
        vals_fit(schema, vals),
        0 <= missing < schema.len(),
    ensures
        spec_decode_record(
            enc_record(schema.remove(missing), vals.remove(missing)) + rest,
            schema,
        ) is None,
{
    let sub = schema.remove(missing);
    let subvals = vals.remove(missing);
    let n = sub.len();
    let pairs = enc_pairs(sub, subvals);
    let s = enc_record(sub, subvals) + rest;
    assert(s =~= enc_maphdr(n as u64) + (pairs + rest));
    lemma_parse_maphdr_enc(n as u64, pairs + rest);
    assert(enc_maphdr(n as u64).len() >= 1);
    assert((pairs + rest).len() < s.len());
    let acc0 = Seq::new(schema.len(), |i: int| None::<FieldValueS>);
    lemma_key_index_char(schema, schema[missing].0);
    assert forall|j: int|
        0 <= j < sub.len() implies key_index(schema, (#[trigger] sub[j]).0) is Some && key_index(
        schema,
        sub[j].0,
    )->Some_0 != missing && key_index(schema, sub[j].0)->Some_0 == (if j < missing {
        j
    } else {
        j + 1
    }) by {
        let orig: int = if j < missing {
            j
        } else {
            j + 1
        };
        assert(sub[j] == schema[orig]);
        lemma_key_index_char(schema, schema[orig].0);
        if key_index(schema, schema[orig].0) is None {
            assert(schema[orig].0 != schema[orig].0);
        }
        let fi = key_index(schema, schema[orig].0)->Some_0;
        if fi < orig {
            assert(schema[fi].0 != schema[orig].0);
        }
        if orig < fi {
            assert(schema[orig].0 != schema[orig].0);
        }
    }
    assert(keys_fit(sub)) by {
        assert forall|k: int|
            0 <= k < sub.len() implies (#[trigger] sub[k]).0.len() <= 0xffffffff by {
            let orig: int = if k < missing {
                k
            } else {
                k + 1
            };
            assert(sub[k] == schema[orig]);
        }
    }
    assert forall|j: int, r: Seq<u8>|
        0 <= j < sub.len() implies #[trigger] spec_parse_field(
        schema[key_index(schema, sub[j].0)->Some_0].1,
        enc_field(subvals[j]) + r,
    ) == Some((subvals[j], r)) by {
        let orig: int = if j < missing {
            j
        } else {
            j + 1
        };
        assert(sub[j] == schema[orig]);
        assert(subvals[j] == vals[orig]);
        assert(field_fits(schema[orig].1, vals[orig]));
        lemma_parse_field_enc(schema[orig].1, vals[orig], r);
    }
    lemma_walk_pairs_enc_sub(schema, sub, subvals, acc0, rest, missing);
    let acc2 = spec_walk_pairs(pairs + rest, n as nat, schema, acc0)->Some_0.0;
    assert(acc2[missing] is None);
    assert(!acc_complete(acc2));
}

} // verus!
