use vstd::prelude::*;
use crate::errors::ToolError;
use crate::codec::decompress;
use crate::codec::gunzip_of;
use crate::wire::decode_document;
use crate::nbt::dec_doc;
use crate::nbt::enc_doc;
use crate::nbt::fields_wf;
use crate::nbt::lemma_document_round_trip;
use crate::nbt::{
    Tag, TagV, Doc, DocV, tag_model, tags_model, fields_model, lemma_tags_model_len,
    lemma_tags_model_index, lemma_fields_model_len, lemma_fields_model_index,
};

verus! {

broadcast use vstd::std_specs::vec::group_vec_axioms, lemma_tags_model_len, lemma_tags_model_index, lemma_fields_model_len, lemma_fields_model_index;

// ---------------------------------------------------------------------
// The typed view of the save data. Named fields are deserialized
// strictly by name; every unrecognized key is routed into an opaque bag
// and merged back on encoding, so that a decode-encode cycle preserves
// it unchanged.
//
// Positions are held as the raw bit patterns of the format's
// double-precision fields; the bits are never interpreted here.
// ---------------------------------------------------------------------

pub open spec fn key_pos() -> Seq<u8> {
    seq![80u8, 111u8, 115u8]
}

pub fn key_pos_vec() -> (r: Vec<u8>)
    ensures
        r@ == key_pos(),
{
    let mut v: Vec<u8> = Vec::new();
    v.push(80u8);
    v.push(111u8);
    v.push(115u8);
    assert(v@ =~= key_pos());
    v
}

pub open spec fn key_dimension() -> Seq<u8> {
    seq![68u8, 105u8, 109u8, 101u8, 110u8, 115u8, 105u8, 111u8, 110u8]
}

pub fn key_dimension_vec() -> (r: Vec<u8>)
    ensures
        r@ == key_dimension(),
{
    let mut v: Vec<u8> = Vec::new();
    v.push(68u8);
    v.push(105u8);
    v.push(109u8);
    v.push(101u8);
    v.push(110u8);
    v.push(115u8);
    v.push(105u8);
    v.push(111u8);
    v.push(110u8);
    assert(v@ =~= key_dimension());
    v
}

pub open spec fn key_data() -> Seq<u8> {
    seq![68u8, 97u8, 116u8, 97u8]
}

pub fn key_data_vec() -> (r: Vec<u8>)
    ensures
        r@ == key_data(),
{
    let mut v: Vec<u8> = Vec::new();
    v.push(68u8);
    v.push(97u8);
    v.push(116u8);
    v.push(97u8);
    assert(v@ =~= key_data());
    v
}

pub open spec fn key_player() -> Seq<u8> {
    seq![80u8, 108u8, 97u8, 121u8, 101u8, 114u8]
}

pub fn key_player_vec() -> (r: Vec<u8>)
    ensures
        r@ == key_player(),
{
    let mut v: Vec<u8> = Vec::new();
    v.push(80u8);
    v.push(108u8);
    v.push(97u8);
    v.push(121u8);
    v.push(101u8);
    v.push(114u8);
    assert(v@ =~= key_player());
    v
}

pub open spec fn key_spawn_x() -> Seq<u8> {
    seq![83u8, 112u8, 97u8, 119u8, 110u8, 88u8]
}

pub fn key_spawn_x_vec() -> (r: Vec<u8>)
    ensures
        r@ == key_spawn_x(),
{
    let mut v: Vec<u8> = Vec::new();
    v.push(83u8);
    v.push(112u8);
    v.push(97u8);
    v.push(119u8);
    v.push(110u8);
    v.push(88u8);
    assert(v@ =~= key_spawn_x());
    v
}

pub open spec fn key_spawn_y() -> Seq<u8> {
    seq![83u8, 112u8, 97u8, 119u8, 110u8, 89u8]
}

pub fn key_spawn_y_vec() -> (r: Vec<u8>)
    ensures
        r@ == key_spawn_y(),
{
    let mut v: Vec<u8> = Vec::new();
    v.push(83u8);
    v.push(112u8);
    v.push(97u8);
    v.push(119u8);
    v.push(110u8);
    v.push(89u8);
    assert(v@ =~= key_spawn_y());
    v
}

pub open spec fn key_spawn_z() -> Seq<u8> {
    seq![83u8, 112u8, 97u8, 119u8, 110u8, 90u8]
}

pub fn key_spawn_z_vec() -> (r: Vec<u8>)
    ensures
        r@ == key_spawn_z(),
{
    let mut v: Vec<u8> = Vec::new();
    v.push(83u8);
    v.push(112u8);
    v.push(97u8);
    v.push(119u8);
    v.push(110u8);
    v.push(90u8);
    assert(v@ =~= key_spawn_z());
    v
}

/// Byte-string equality.
pub fn bytes_eq(a: &Vec<u8>, b: &Vec<u8>) -> (r: bool)
    ensures
        r == (a@ == b@),
{
    if a.len() != b.len() {
        return false;
    }
    let mut k: usize = 0;
    while k < a.len()
        invariant
            a@.len() == b@.len(),
            k <= a@.len(),
            forall|j: int| 0 <= j < k ==> a@[j] == b@[j],
        decreases a@.len() - k,
    {
        if a[k] != b[k] {
            return false;
        }
        k = k + 1;
    }
    proof {
        assert(a@ =~= b@);
    }
    true
}

/// An owned copy of a byte string.
pub fn copy_bytes(v: &Vec<u8>) -> (r: Vec<u8>)
    ensures
        r@ == v@,
{
    let mut r: Vec<u8> = Vec::new();
    let mut k: usize = 0;
    while k < v.len()
        invariant
            k <= v@.len(),
            r@ == v@.take(k as int),
        decreases v@.len() - k,
    {
        r.push(v[k]);
        proof {
            assert(v@.take(k + 1) =~= v@.take(k as int).push(v@[k as int]));
        }
        k = k + 1;
    }
    proof {
        assert(v@.take(v@.len() as int) =~= v@);
    }
    r
}

/// An owned copy of one tagged value, equal in model.
#[verifier::loop_isolation(false)]
pub fn copy_tag(t: &Tag) -> (r: Tag)
    ensures
        tag_model(r) == tag_model(*t),
    decreases *t,
{
    match t {
        Tag::Byte(x) => Tag::Byte(*x),
        Tag::Short(x) => Tag::Short(*x),
        Tag::Int(x) => Tag::Int(*x),
        Tag::Long(x) => Tag::Long(*x),
        Tag::Float(x) => Tag::Float(*x),
        Tag::Double(x) => Tag::Double(*x),
        Tag::ByteArray(b) => Tag::ByteArray(copy_bytes(b)),
        Tag::Str(b) => Tag::Str(copy_bytes(b)),
        Tag::List(es) => {
            let mut out: Vec<Tag> = Vec::new();
            let mut k: usize = 0;
            while k < es.len()
                invariant
                    k <= es@.len(),
                    out@.len() == k,
                    forall|j: int|
                        0 <= j < k ==> tag_model(#[trigger] out@[j]) == tag_model(es@[j]),
                decreases es@.len() - k,
            {
                out.push(copy_tag(&es[k]));
                k = k + 1;
            }
            proof {
                crate::nbt::lemma_tags_model_eq(out@, es@);
            }
            Tag::List(out)
        },
        Tag::Compound(fs) => Tag::Compound(copy_doc(fs)),
        Tag::IntArray(v) => {
            let mut out: Vec<u32> = Vec::new();
            let mut k: usize = 0;
            while k < v.len()
                invariant
                    k <= v@.len(),
                    out@ == v@.take(k as int),
                decreases v@.len() - k,
            {
                out.push(v[k]);
                proof {
                    assert(v@.take(k + 1) =~= v@.take(k as int).push(v@[k as int]));
                }
                k = k + 1;
            }
            proof {
                assert(v@.take(v@.len() as int) =~= v@);
            }
            Tag::IntArray(out)
        },
        Tag::LongArray(v) => {
            let mut out: Vec<u64> = Vec::new();
            let mut k: usize = 0;
            while k < v.len()
                invariant
                    k <= v@.len(),
                    out@ == v@.take(k as int),
                decreases v@.len() - k,
            {
                out.push(v[k]);
                proof {
                    assert(v@.take(k + 1) =~= v@.take(k as int).push(v@[k as int]));
                }
                k = k + 1;
            }
            proof {
                assert(v@.take(v@.len() as int) =~= v@);
            }
            Tag::LongArray(out)
        },
    }
}

/// An owned copy of a document, equal in model.
#[verifier::loop_isolation(false)]
pub fn copy_doc(fs: &Doc) -> (r: Doc)
    ensures
        fields_model(r@) == fields_model(fs@),
    decreases *fs,
{
    let mut out: Doc = Vec::new();
    let mut k: usize = 0;
    while k < fs.len()
        invariant
            k <= fs@.len(),
            out@.len() == k,
            forall|j: int|
                0 <= j < k ==> (#[trigger] out@[j]).0@ == fs@[j].0@ && tag_model(out@[j].1)
                    == tag_model(fs@[j].1),
        decreases fs@.len() - k,
    {
        out.push((copy_bytes(&fs[k].0), copy_tag(&fs[k].1)));
        k = k + 1;
    }
    proof {
        crate::nbt::lemma_fields_model_eq(out@, fs@);
    }
    out
}

// ---------------------------------------------------------------------
// Looking a key up, and stripping a key out.
// ---------------------------------------------------------------------

/// The value under the first occurrence of a key.
pub open spec fn doc_get(fs: DocV, k: Seq<u8>) -> Option<TagV>
    decreases fs,
{
    if fs.len() == 0 {
        None
    } else if fs[0].0 == k {
        Some(fs[0].1)
    } else {
        doc_get(fs.drop_first(), k)
    }
}

/// The document with every occurrence of a key removed.
pub open spec fn drop_key(fs: DocV, k: Seq<u8>) -> DocV
    decreases fs,
{
    if fs.len() == 0 {
        Seq::empty()
    } else if fs[0].0 == k {
        drop_key(fs.drop_first(), k)
    } else {
        seq![fs[0]] + drop_key(fs.drop_first(), k)
    }
}

/// Stripping one key does not change what any other key maps to.
pub proof fn lemma_doc_get_drop_key(fs: DocV, k1: Seq<u8>, k2: Seq<u8>)
    requires
        k1 != k2,
    ensures
        doc_get(drop_key(fs, k1), k2) == doc_get(fs, k2),
    decreases fs,
{
    if fs.len() > 0 {
        lemma_doc_get_drop_key(fs.drop_first(), k1, k2);
        if fs[0].0 != k1 {
            assert((seq![fs[0]] + drop_key(fs.drop_first(), k1)).drop_first() =~= drop_key(
                fs.drop_first(),
                k1,
            ));
        }
    }
}

/// Removes the first entry under `key`, and strips every other entry
/// under it; hands back the removed value and the remaining document.
pub fn split_by_key(doc: Doc, key: &Vec<u8>) -> (r: (Option<Tag>, Doc))
    ensures
        match r.0 {
            Some(t) => doc_get(fields_model(doc@), key@) == Some(t@),
            None => doc_get(fields_model(doc@), key@) is None,
        },
        fields_model(r.1@) == drop_key(fields_model(doc@), key@),
    decreases doc@.len(),
{
    let ghost g = doc@;
    let ghost gv = fields_model(doc@);
    let mut d = doc;
    if d.len() == 0 {
        proof {
            assert(fields_model(d@) =~= drop_key(gv, key@));
        }
        (None, d)
    } else {
        let f = d.remove(0);
        proof {
            assert(d@ =~= g.drop_first());
            assert(fields_model(g).drop_first() =~= fields_model(g.drop_first()));
        }
        let hit = bytes_eq(&f.0, key);
        let ghost ftv = tag_model(f.1);
        let (o2, rest2) = split_by_key(d, key);
        if hit {
            proof {
                assert(gv[0].0 == key@);
                assert(doc_get(gv, key@) == Some(ftv));
            }
            (Some(f.1), rest2)
        } else {
            let ghost grest = rest2@;
            let mut rest3 = rest2;
            rest3.insert(0, f);
            proof {
                assert(grest.subrange(0, grest.len() as int) =~= grest);
                assert(rest3@.drop_first() =~= grest);
                assert(rest3@[0].0@ == g[0].0@);
                assert(tag_model(rest3@[0].1) == ftv);
                assert(gv[0] == (g[0].0@, tag_model(g[0].1)));
                assert(fields_model(rest3@) =~= seq![gv[0]] + fields_model(grest));
                assert(drop_key(gv, key@) =~= seq![gv[0]] + drop_key(fields_model(g.drop_first()),
                    key@,
                ));
            }
            (o2, rest3)
        }
    }
}

// ---------------------------------------------------------------------
// The player record.
// ---------------------------------------------------------------------

/// A player's state: position and dimension, plus the opaque bag of
/// every other field of the document it was decoded from.
#[derive(Debug, PartialEq)]
pub struct PlayerData {
    /// Raw bit patterns of the three double-precision coordinates.
    pub pos: (u64, u64, u64),
    /// The dimension identifier, as the format's byte string.
    pub dimension: Vec<u8>,
    other: Doc,
}

/// The model of a player record.
#[verifier::ext_equal]
pub struct PlayerDataV {
    pub pos: (u64, u64, u64),
    pub dimension: Seq<u8>,
    pub other: DocV,
}

impl View for PlayerData {
    type V = PlayerDataV;

    closed spec fn view(&self) -> PlayerDataV {
        PlayerDataV {
            pos: self.pos,
            dimension: self.dimension@,
            other: fields_model(self.other@),
        }
    }
}

pub open spec fn pos_of(fs: DocV) -> Option<(u64, u64, u64)> {
    match doc_get(fs, key_pos()) {
        Some(TagV::List(es)) => if es.len() == 3 && es[0] is Double && es[1] is Double && es[2]
            is Double {
            Some((es[0]->Double_0, es[1]->Double_0, es[2]->Double_0))
        } else {
            None
        },
        _ => None,
    }
}

pub open spec fn dim_of(fs: DocV) -> Option<Seq<u8>> {
    match doc_get(fs, key_dimension()) {
        Some(TagV::Str(sv)) => Some(sv),
        _ => None,
    }
}

/// Every field other than the two modeled ones, in order.
pub open spec fn others_of(fs: DocV) -> DocV {
    drop_key(drop_key(fs, key_pos()), key_dimension())
}

/// What a document means as a player record, if it has the two modeled
/// fields in the right shape.
pub open spec fn player_of(fs: DocV) -> Option<PlayerDataV> {
    if pos_of(fs) is Some && dim_of(fs) is Some {
        Some(
            PlayerDataV {
                pos: pos_of(fs)->Some_0,
                dimension: dim_of(fs)->Some_0,
                other: others_of(fs),
            },
        )
    } else {
        None
    }
}

/// The document a player record encodes to: the two modeled fields
/// first, then the opaque bag. The modeled fields take precedence: the
/// bag never holds either key.
pub open spec fn player_doc(pv: PlayerDataV) -> DocV {
    seq![
        (
            key_pos(),
            TagV::List(
                seq![
                    TagV::Double(pv.pos.0),
                    TagV::Double(pv.pos.1),
                    TagV::Double(pv.pos.2),
                ],
            ),
        ),
        (key_dimension(), TagV::Str(pv.dimension)),
    ] + pv.other
}

proof fn lemma_keys_distinct()
    ensures
        key_pos() != key_dimension(),
        key_pos() != key_data(),
        key_dimension() != key_data(),
        key_spawn_x() != key_spawn_y(),
        key_spawn_x() != key_spawn_z(),
        key_spawn_y() != key_spawn_z(),
        key_spawn_x() != key_player(),
        key_spawn_y() != key_player(),
        key_spawn_z() != key_player(),
{
    assert(key_spawn_x()[5] == 88u8 && key_spawn_y()[5] == 89u8 && key_spawn_z()[5] == 90u8);
    assert(key_pos().len() == 3 && key_dimension().len() == 9 && key_data().len() == 4
        && key_player().len() == 6 && key_spawn_x().len() == 6);
}

impl PlayerData {
    /// Replaces the two modeled fields, leaving the opaque bag alone.
    pub fn set_position_dimension(&mut self, pos: (u64, u64, u64), dimension: Vec<u8>)
        ensures
            final(self)@ == (PlayerDataV {
                pos,
                dimension: dimension@,
                other: old(self)@.other,
            }),
    {
        self.pos = pos;
        self.dimension = dimension;
    }
}

/// Deserializes a player record from a document: `Pos` must be a list
/// of exactly three doubles and `Dimension` a string; every other key
/// is routed into the opaque bag. Fails with `SchemaError` otherwise.
pub fn player_from_doc(doc: Doc) -> (r: Result<PlayerData, ToolError>)
    ensures
        match r {
            Ok(p) => player_of(fields_model(doc@)) == Some(p@),
            Err(e) => e == ToolError::SchemaError && player_of(fields_model(doc@)) is None,
        },
{
    let ghost gv = fields_model(doc@);
    let pk = key_pos_vec();
    let (opos, d1) = split_by_key(doc, &pk);
    let dk = key_dimension_vec();
    let (odim, d2) = split_by_key(d1, &dk);
    proof {
        lemma_keys_distinct();
        lemma_doc_get_drop_key(gv, key_pos(), key_dimension());
    }
    match opos {
        Some(t) => match t {
            Tag::List(es) => {
                if es.len() == 3 {
                    match (&es[0], &es[1], &es[2]) {
                        (Tag::Double(x), Tag::Double(y), Tag::Double(z)) => {
                            proof {
                                assert(tags_model(es@)[0] == tag_model(es@[0]));
                                assert(tags_model(es@)[1] == tag_model(es@[1]));
                                assert(tags_model(es@)[2] == tag_model(es@[2]));
                                assert(pos_of(gv) == Some((*x, *y, *z)));
                            }
                            match odim {
                                Some(dt) => match dt {
                                    Tag::Str(dv) => {
                                        proof {
                                            assert(dim_of(gv) == Some(dv@));
                                            assert(player_of(gv) is Some);
                                            assert((PlayerDataV {
                                                pos: (*x, *y, *z),
                                                dimension: dv@,
                                                other: fields_model(d2@),
                                            }) =~= player_of(gv)->Some_0);
                                            assert(player_of(gv) == Some(
                                                PlayerDataV {
                                                    pos: (*x, *y, *z),
                                                    dimension: dv@,
                                                    other: fields_model(d2@),
                                                },
                                            ));
                                        }
                                        let ghost gdv = dv@;
                                        let ghost gd2 = d2@;
                                        let res = PlayerData {
                                            pos: (*x, *y, *z),
                                            dimension: dv,
                                            other: d2,
                                        };
                                        proof {
                                            assert(res@.pos == (*x, *y, *z));
                                            assert(res@.dimension == gdv);
                                            assert(res@.other == fields_model(gd2));
                                            assert(res@ == (PlayerDataV {
                                                pos: (*x, *y, *z),
                                                dimension: gdv,
                                                other: fields_model(gd2),
                                            }));
                                        }
                                        Ok(res)
                                    },
                                    _ => Err(ToolError::SchemaError),
                                },
                                None => Err(ToolError::SchemaError),
                            }
                        },
                        _ => Err(ToolError::SchemaError),
                    }
                } else {
                    Err(ToolError::SchemaError)
                }
            },
            _ => Err(ToolError::SchemaError),
        },
        None => Err(ToolError::SchemaError),
    }
}

pub proof fn lemma_fields_model_concat(a: Seq<(Vec<u8>, Tag)>, b: Seq<(Vec<u8>, Tag)>)
    ensures
        fields_model(a + b) == fields_model(a) + fields_model(b),
    decreases a,
{
    if a.len() == 0 {
        assert(a + b =~= b);
        assert(fields_model(a) + fields_model(b) =~= fields_model(b));
    } else {
        assert((a + b).drop_first() =~= a.drop_first() + b);
        lemma_fields_model_concat(a.drop_first(), b);
        assert((a + b)[0] == a[0]);
        assert(fields_model(a + b) =~= fields_model(a) + fields_model(b));
    }
}

/// Serializes a player record back to a document: the two modeled
/// fields, then the opaque bag unchanged.
pub fn player_to_doc(p: PlayerData) -> (r: Doc)
    ensures
        fields_model(r@) == player_doc(p@),
{
    let ghost pv = p@;
    let PlayerData { pos, dimension, other } = p;
    let mut lst: Vec<Tag> = Vec::new();
    lst.push(Tag::Double(pos.0));
    lst.push(Tag::Double(pos.1));
    lst.push(Tag::Double(pos.2));
    let mut out: Doc = Vec::new();
    out.push((key_pos_vec(), Tag::List(lst)));
    out.push((key_dimension_vec(), Tag::Str(dimension)));
    let ghost two = out@;
    let mut rest = other;
    let ghost grest = rest@;
    out.append(&mut rest);
    proof {
        reveal_with_fuel(fields_model, 3);
        reveal_with_fuel(tags_model, 4);
        let l3 = two[0].1->List_0@;
        assert(l3 =~= seq![
            Tag::Double(pv.pos.0),
            Tag::Double(pv.pos.1),
            Tag::Double(pv.pos.2),
        ]);
        assert(l3.drop_first() =~= seq![Tag::Double(pv.pos.1), Tag::Double(pv.pos.2)]);
        assert(l3.drop_first().drop_first() =~= seq![Tag::Double(pv.pos.2)]);
        assert(l3.drop_first().drop_first().drop_first() =~= Seq::<Tag>::empty());
        assert(tags_model(l3) =~= seq![
            TagV::Double(pv.pos.0),
            TagV::Double(pv.pos.1),
            TagV::Double(pv.pos.2),
        ]);
        assert(two.drop_first() =~= seq![two[1]]);
        assert(seq![two[1]].drop_first() =~= Seq::<(Vec<u8>, Tag)>::empty());
        assert(fields_model(two) =~= seq![
            (
                key_pos(),
                TagV::List(
                    seq![
                        TagV::Double(pv.pos.0),
                        TagV::Double(pv.pos.1),
                        TagV::Double(pv.pos.2),
                    ],
                ),
            ),
            (key_dimension(), TagV::Str(pv.dimension)),
        ]);
        lemma_fields_model_concat(two, grest);
    }
    out
}

/// The opaque-field law: changing only position and dimension and
/// re-encoding leaves what every other key maps to unchanged.
pub proof fn lemma_opaque_preservation(
    fs: DocV,
    newpos: (u64, u64, u64),
    newdim: Seq<u8>,
    k: Seq<u8>,
)
    requires
        player_of(fs) is Some,
        k != key_pos(),
        k != key_dimension(),
    ensures
        doc_get(
            player_doc(
                PlayerDataV { pos: newpos, dimension: newdim, other: player_of(fs)->Some_0.other },
            ),
            k,
        ) == doc_get(fs, k),
{
    let pv2 = PlayerDataV {
        pos: newpos,
        dimension: newdim,
        other: player_of(fs)->Some_0.other,
    };
    let d = player_doc(pv2);
    assert(d[0].0 == key_pos());
    assert(d.drop_first() =~= seq![(key_dimension(), TagV::Str(newdim))] + pv2.other);
    assert(d.drop_first().drop_first() =~= pv2.other);
    assert(d.drop_first()[0].0 == key_dimension());
    assert(doc_get(d, k) == doc_get(d.drop_first(), k));
    assert(doc_get(d.drop_first(), k) == doc_get(d.drop_first().drop_first(), k));
    assert(doc_get(d, k) == doc_get(pv2.other, k));
    lemma_doc_get_drop_key(drop_key(fs, key_pos()), key_dimension(), k);
    lemma_doc_get_drop_key(fs, key_pos(), k);
}

/// Stripping a key that a document does not hold changes nothing.
pub proof fn lemma_drop_key_absent(fs: DocV, k: Seq<u8>)
    requires
        doc_get(fs, k) is None,
    ensures
        drop_key(fs, k) == fs,
    decreases fs,
{
    if fs.len() > 0 {
        lemma_drop_key_absent(fs.drop_first(), k);
        assert(drop_key(fs, k) =~= fs);
    } else {
        assert(drop_key(fs, k) =~= fs);
    }
}

/// The record round-trip law: a player record whose opaque bag holds
/// neither modeled key deserializes from its own serialization
/// unchanged.
pub proof fn lemma_player_round_trip(pv: PlayerDataV)
    requires
        doc_get(pv.other, key_pos()) is None,
        doc_get(pv.other, key_dimension()) is None,
    ensures
        player_of(player_doc(pv)) == Some(pv),
{
    let d = player_doc(pv);
    let dim_pair = (key_dimension(), TagV::Str(pv.dimension));
    let es = seq![
        TagV::Double(pv.pos.0),
        TagV::Double(pv.pos.1),
        TagV::Double(pv.pos.2),
    ];
    lemma_keys_distinct();
    assert(d[0].0 == key_pos());
    assert(d.drop_first() =~= seq![dim_pair] + pv.other);
    assert(doc_get(d, key_pos()) == Some(TagV::List(es)));
    assert((seq![dim_pair] + pv.other)[0] == dim_pair);
    assert((seq![dim_pair] + pv.other).drop_first() =~= pv.other);
    assert(doc_get(seq![dim_pair] + pv.other, key_dimension()) == Some(TagV::Str(pv.dimension)));
    assert(doc_get(d, key_dimension()) == Some(TagV::Str(pv.dimension)));
    assert(pos_of(d) == Some((pv.pos.0, pv.pos.1, pv.pos.2)));
    assert((pv.pos.0, pv.pos.1, pv.pos.2) == pv.pos);
    lemma_drop_key_absent(pv.other, key_pos());
    assert(drop_key(seq![dim_pair] + pv.other, key_pos()) =~= seq![dim_pair] + drop_key(
        pv.other,
        key_pos(),
    ));
    assert(drop_key(seq![dim_pair] + pv.other, key_pos()) =~= seq![dim_pair] + pv.other);
    assert(drop_key(d, key_pos()) =~= seq![dim_pair] + pv.other);
    lemma_drop_key_absent(pv.other, key_dimension());
    assert(others_of(d) =~= pv.other);
    assert(player_of(d) == Some(PlayerDataV { pos: pv.pos, dimension: pv.dimension, other: pv.other }));
    assert((PlayerDataV { pos: pv.pos, dimension: pv.dimension, other: pv.other }) =~= pv);
}

/// A key stripped out cannot be looked up any more.
pub proof fn lemma_doc_get_drop_key_same(fs: DocV, k: Seq<u8>)
    ensures
        doc_get(drop_key(fs, k), k) is None,
    decreases fs,
{
    if fs.len() > 0 {
        lemma_doc_get_drop_key_same(fs.drop_first(), k);
        if fs[0].0 != k {
            assert((seq![fs[0]] + drop_key(fs.drop_first(), k)).drop_first() =~= drop_key(
                fs.drop_first(),
                k,
            ));
        }
    }
}

/// Every record the deserializer hands out has a clean opaque bag:
/// neither modeled key hides in it.
pub proof fn lemma_decoded_bag_clean(fs: DocV)
    requires
        player_of(fs) is Some,
    ensures
        doc_get(player_of(fs)->Some_0.other, key_pos()) is None,
        doc_get(player_of(fs)->Some_0.other, key_dimension()) is None,
{
    lemma_keys_distinct();
    lemma_doc_get_drop_key_same(drop_key(fs, key_pos()), key_dimension());
    lemma_doc_get_drop_key_same(fs, key_pos());
    lemma_doc_get_drop_key(drop_key(fs, key_pos()), key_dimension(), key_pos());
}

/// The record round-trip law at the accessor boundary: the document a
/// record serializes to survives the wire codec, and deserializes back
/// to the same record — every key, modeled or unmodeled, equal in
/// value. It asks for what the wire format forces (every length fits
/// its length field) and a clean bag; both hold of every record the
/// library itself decodes (`lemma_decoded_bag_clean`).
pub proof fn lemma_record_round_trip(pv: PlayerDataV)
    requires
        fields_wf(player_doc(pv)),
        doc_get(pv.other, key_pos()) is None,
        doc_get(pv.other, key_dimension()) is None,
    ensures
        dec_doc(enc_doc(player_doc(pv))) == Some(player_doc(pv)),
        player_of(player_doc(pv)) == Some(pv),
{
    lemma_document_round_trip(player_doc(pv));
    lemma_player_round_trip(pv);
}

// ---------------------------------------------------------------------
// The world metadata.
// ---------------------------------------------------------------------

pub open spec fn int_at(fs: DocV, k: Seq<u8>) -> Option<u32> {
    match doc_get(fs, k) {
        Some(TagV::Int(b)) => Some(b),
        _ => None,
    }
}

/// The `Data` compound of the world metadata: spawn coordinates, the
/// embedded player record, and an opaque bag for everything else.
pub struct Data {
    spawn_x: u32,
    spawn_y: u32,
    spawn_z: u32,
    pub player: PlayerData,
    other: Doc,
}

#[verifier::ext_equal]
pub struct DataV {
    pub spawn_x: u32,
    pub spawn_y: u32,
    pub spawn_z: u32,
    pub player: PlayerDataV,
    pub other: DocV,
}

impl View for Data {
    type V = DataV;

    closed spec fn view(&self) -> DataV {
        DataV {
            spawn_x: self.spawn_x,
            spawn_y: self.spawn_y,
            spawn_z: self.spawn_z,
            player: self.player@,
            other: fields_model(self.other@),
        }
    }
}

pub open spec fn data_others_of(fs: DocV) -> DocV {
    drop_key(
        drop_key(drop_key(drop_key(fs, key_spawn_x()), key_spawn_y()), key_spawn_z()),
        key_player(),
    )
}

pub open spec fn data_of(fs: DocV) -> Option<DataV> {
    if int_at(fs, key_spawn_x()) is Some && int_at(fs, key_spawn_y()) is Some && int_at(
        fs,
        key_spawn_z(),
    ) is Some && (match doc_get(fs, key_player()) {
        Some(TagV::Compound(pfs)) => player_of(pfs) is Some,
        _ => false,
    }) {
        Some(
            DataV {
                spawn_x: int_at(fs, key_spawn_x())->Some_0,
                spawn_y: int_at(fs, key_spawn_y())->Some_0,
                spawn_z: int_at(fs, key_spawn_z())->Some_0,
                player: player_of(doc_get(fs, key_player())->Some_0->Compound_0)->Some_0,
                other: data_others_of(fs),
            },
        )
    } else {
        None
    }
}

pub open spec fn data_doc(dv: DataV) -> DocV {
    seq![
        (key_spawn_x(), TagV::Int(dv.spawn_x)),
        (key_spawn_y(), TagV::Int(dv.spawn_y)),
        (key_spawn_z(), TagV::Int(dv.spawn_z)),
        (key_player(), TagV::Compound(player_doc(dv.player))),
    ] + dv.other
}

/// Deserializes the `Data` compound; fails with `SchemaError` if a
/// required field is missing or of the wrong kind.
pub fn data_from_doc(doc: Doc) -> (r: Result<Data, ToolError>)
    ensures
        match r {
            Ok(d) => data_of(fields_model(doc@)) == Some(d@),
            Err(e) => e == ToolError::SchemaError && data_of(fields_model(doc@)) is None,
        },
{
    let ghost gv = fields_model(doc@);
    let xk = key_spawn_x_vec();
    let (ox, d1) = split_by_key(doc, &xk);
    let yk = key_spawn_y_vec();
    let (oy, d2) = split_by_key(d1, &yk);
    let zk = key_spawn_z_vec();
    let (oz, d3) = split_by_key(d2, &zk);
    let pk = key_player_vec();
    let (op, d4) = split_by_key(d3, &pk);
    proof {
        lemma_keys_distinct();
        lemma_doc_get_drop_key(gv, key_spawn_x(), key_spawn_y());
        lemma_doc_get_drop_key(drop_key(gv, key_spawn_x()), key_spawn_y(), key_spawn_z());
        lemma_doc_get_drop_key(gv, key_spawn_x(), key_spawn_z());
        lemma_doc_get_drop_key(
            drop_key(drop_key(gv, key_spawn_x()), key_spawn_y()),
            key_spawn_z(),
            key_player(),
        );
        lemma_doc_get_drop_key(drop_key(gv, key_spawn_x()), key_spawn_y(), key_player());
        lemma_doc_get_drop_key(gv, key_spawn_x(), key_player());
    }
    match (ox, oy, oz) {
        (Some(Tag::Int(a)), Some(Tag::Int(b)), Some(Tag::Int(c))) => {
            match op {
                Some(pt) => match pt {
                    Tag::Compound(pfs) => {
                        let ghost gpfs = fields_model(pfs@);
                        match player_from_doc(pfs) {
                            Ok(p) => {
                                let ghost gp = p@;
                                let ghost gd4 = d4@;
                                let res = Data {
                                    spawn_x: a,
                                    spawn_y: b,
                                    spawn_z: c,
                                    player: p,
                                    other: d4,
                                };
                                proof {
                                    assert(res@.player == gp);
                                    assert(res@.other == fields_model(gd4));
                                    assert(res@ == (DataV {
                                        spawn_x: a,
                                        spawn_y: b,
                                        spawn_z: c,
                                        player: gp,
                                        other: fields_model(gd4),
                                    }));
                                    assert(data_of(gv) == Some(res@));
                                }
                                Ok(res)
                            },
                            Err(e) => Err(e),
                        }
                    },
                    _ => Err(ToolError::SchemaError),
                },
                None => Err(ToolError::SchemaError),
            }
        },
        _ => Err(ToolError::SchemaError),
    }
}

/// Serializes the `Data` compound back: the typed fields, then the
/// opaque bag unchanged.
pub fn data_to_doc(d: Data) -> (r: Doc)
    ensures
        fields_model(r@) == data_doc(d@),
{
    let ghost dv = d@;
    let Data { spawn_x, spawn_y, spawn_z, player, other } = d;
    let pdoc = player_to_doc(player);
    let mut out: Doc = Vec::new();
    out.push((key_spawn_x_vec(), Tag::Int(spawn_x)));
    out.push((key_spawn_y_vec(), Tag::Int(spawn_y)));
    out.push((key_spawn_z_vec(), Tag::Int(spawn_z)));
    out.push((key_player_vec(), Tag::Compound(pdoc)));
    let ghost four = out@;
    let mut rest = other;
    let ghost grest = rest@;
    out.append(&mut rest);
    proof {
        reveal_with_fuel(fields_model, 5);
        assert(four.drop_first() =~= seq![four[1], four[2], four[3]]);
        assert(four.drop_first().drop_first() =~= seq![four[2], four[3]]);
        assert(four.drop_first().drop_first().drop_first() =~= seq![four[3]]);
        assert(four.drop_first().drop_first().drop_first().drop_first() =~= Seq::<
            (Vec<u8>, Tag),
        >::empty());
        assert(fields_model(four) =~= seq![
            (key_spawn_x(), TagV::Int(dv.spawn_x)),
            (key_spawn_y(), TagV::Int(dv.spawn_y)),
            (key_spawn_z(), TagV::Int(dv.spawn_z)),
            (key_player(), TagV::Compound(player_doc(dv.player))),
        ]);
        lemma_fields_model_concat(four, grest);
        assert(fields_model(out@) =~= data_doc(dv));
    }
    out
}

/// The world metadata document: the `Data` compound, and an opaque bag
/// for every other root key.
pub struct LevelDat {
    pub data: Data,
    other: Doc,
}

#[verifier::ext_equal]
pub struct LevelDatV {
    pub data: DataV,
    pub other: DocV,
}

impl View for LevelDat {
    type V = LevelDatV;

    closed spec fn view(&self) -> LevelDatV {
        LevelDatV { data: self.data@, other: fields_model(self.other@) }
    }
}

pub open spec fn level_of(fs: DocV) -> Option<LevelDatV> {
    match doc_get(fs, key_data()) {
        Some(TagV::Compound(dfs)) => if data_of(dfs) is Some {
            Some(LevelDatV { data: data_of(dfs)->Some_0, other: drop_key(fs, key_data()) })
        } else {
            None
        },
        _ => None,
    }
}

pub open spec fn level_doc(lv: LevelDatV) -> DocV {
    seq![(key_data(), TagV::Compound(data_doc(lv.data)))] + lv.other
}

/// Deserializes the world metadata document.
pub fn level_from_doc(doc: Doc) -> (r: Result<LevelDat, ToolError>)
    ensures
        match r {
            Ok(l) => level_of(fields_model(doc@)) == Some(l@),
            Err(e) => e == ToolError::SchemaError && level_of(fields_model(doc@)) is None,
        },
{
    let ghost gv = fields_model(doc@);
    let dk = key_data_vec();
    let (od, d1) = split_by_key(doc, &dk);
    match od {
        Some(dt) => match dt {
            Tag::Compound(dfs) => {
                match data_from_doc(dfs) {
                    Ok(d) => {
                        let ghost gd = d@;
                        let ghost gd1 = d1@;
                        let res = LevelDat { data: d, other: d1 };
                        proof {
                            assert(res@.data == gd);
                            assert(res@.other == fields_model(gd1));
                            assert(res@ == (LevelDatV { data: gd, other: fields_model(gd1) }));
                            assert(level_of(gv) == Some(res@));
                        }
                        Ok(res)
                    },
                    Err(e) => Err(e),
                }
            },
            _ => Err(ToolError::SchemaError),
        },
        None => Err(ToolError::SchemaError),
    }
}

/// Serializes the world metadata document back.
pub fn level_to_doc(l: LevelDat) -> (r: Doc)
    ensures
        fields_model(r@) == level_doc(l@),
{
    let ghost lv = l@;
    let LevelDat { data, other } = l;
    let ddoc = data_to_doc(data);
    let mut out: Doc = Vec::new();
    out.push((key_data_vec(), Tag::Compound(ddoc)));
    let ghost one = out@;
    let mut rest = other;
    let ghost grest = rest@;
    out.append(&mut rest);
    proof {
        reveal_with_fuel(fields_model, 2);
        assert(one.drop_first() =~= Seq::<(Vec<u8>, Tag)>::empty());
        assert(fields_model(one) =~= seq![(key_data(), TagV::Compound(data_doc(lv.data)))]);
        lemma_fields_model_concat(one, grest);
        assert(fields_model(out@) =~= level_doc(lv));
    }
    out
}

// ---------------------------------------------------------------------
// The world spawn point.
// ---------------------------------------------------------------------

/// The spawn coordinates of a world metadata document: the three `Int`
/// fields of the `Data` compound. Independent of whether a player
/// record is embedded.
pub open spec fn spawn_of(fs: DocV) -> Option<(u32, u32, u32)> {
    match doc_get(fs, key_data()) {
        Some(TagV::Compound(dfs)) => if int_at(dfs, key_spawn_x()) is Some && int_at(
            dfs,
            key_spawn_y(),
        ) is Some && int_at(dfs, key_spawn_z()) is Some {
            Some(
                (
                    int_at(dfs, key_spawn_x())->Some_0,
                    int_at(dfs, key_spawn_y())->Some_0,
                    int_at(dfs, key_spawn_z())->Some_0,
                ),
            )
        } else {
            None
        },
        _ => None,
    }
}

/// The spawn point read from the raw bytes of the world metadata file:
/// decompress, decode, extract.
pub open spec fn spawn_point_of(file: Seq<u8>) -> Option<(u32, u32, u32)> {
    match gunzip_of(file) {
        Some(u) => match dec_doc(u) {
            Some(fs) => spawn_of(fs),
            None => None,
        },
        None => None,
    }
}

proof fn lemma_u32_i32_rt(x: u32)
    ensures
        (x as i32) as u32 == x,
{
    assert((x as i32) as u32 == x) by (bit_vector);
}

/// Reads the world spawn point out of the raw, compressed bytes of the
/// world metadata file. The coordinates come back as signed integers;
/// `CorruptData` means the compression layer was malformed,
/// `SchemaError` that the document or its spawn fields were.
pub fn get_spawn_point(file: &Vec<u8>) -> (r: Result<(i32, i32, i32), ToolError>)
    ensures
        match r {
            Ok(p) => spawn_point_of(file@) == Some(
                (p.0 as u32, p.1 as u32, p.2 as u32),
            ),
            Err(e) => spawn_point_of(file@) is None && (e == ToolError::CorruptData <==> gunzip_of(
                file@,
            ) is None) && (e == ToolError::CorruptData || e == ToolError::SchemaError),
        },
{
    match decompress(file) {
        Ok(raw) => {
            match decode_document(&raw) {
                Ok(doc) => {
                    let ghost gv = fields_model(doc@);
                    let dk = key_data_vec();
                    let (od, rest0) = split_by_key(doc, &dk);
                    match od {
                        Some(dt) => match dt {
                            Tag::Compound(dfs) => {
                                let ghost gdfs = fields_model(dfs@);
                                let xk = key_spawn_x_vec();
                                let (ox, r1) = split_by_key(dfs, &xk);
                                let yk = key_spawn_y_vec();
                                let (oy, r2) = split_by_key(r1, &yk);
                                let zk = key_spawn_z_vec();
                                let (oz, r3) = split_by_key(r2, &zk);
                                proof {
                                    lemma_keys_distinct();
                                    lemma_doc_get_drop_key(gdfs, key_spawn_x(), key_spawn_y());
                                    lemma_doc_get_drop_key(
                                        drop_key(gdfs, key_spawn_x()),
                                        key_spawn_y(),
                                        key_spawn_z(),
                                    );
                                    lemma_doc_get_drop_key(gdfs, key_spawn_x(), key_spawn_z());
                                }
                                match (ox, oy, oz) {
                                    (
                                        Some(Tag::Int(a)),
                                        Some(Tag::Int(b)),
                                        Some(Tag::Int(c)),
                                    ) => {
                                        proof {
                                            lemma_u32_i32_rt(a);
                                            lemma_u32_i32_rt(b);
                                            lemma_u32_i32_rt(c);
                                        }
                                        Ok(
                                            (
                                                #[verifier::truncate] (a as i32),
                                                #[verifier::truncate] (b as i32),
                                                #[verifier::truncate] (c as i32),
                                            ),
                                        )
                                    },
                                    _ => Err(ToolError::SchemaError),
                                }
                            },
                            _ => Err(ToolError::SchemaError),
                        },
                        None => Err(ToolError::SchemaError),
                    }
                },
                Err(e) => Err(e),
            }
        },
        Err(e) => Err(e),
    }
}

/// An owned copy of a player record, equal in model.
pub fn copy_player(p: &PlayerData) -> (r: PlayerData)
    ensures
        r@ == p@,
{
    let r = PlayerData {
        pos: p.pos,
        dimension: copy_bytes(&p.dimension),
        other: copy_doc(&p.other),
    };
    proof {
        assert(r@ =~= p@);
    }
    r
}

/// An owned copy of the player record embedded in a world document.
pub fn embedded_player(l: &LevelDat) -> (r: PlayerData)
    ensures
        r@ == l@.data.player,
{
    copy_player(&l.data.player)
}

/// An owned copy of the `Data` compound, equal in model.
pub fn copy_data(d: &Data) -> (r: Data)
    ensures
        r@ == d@,
{
    let r = Data {
        spawn_x: d.spawn_x,
        spawn_y: d.spawn_y,
        spawn_z: d.spawn_z,
        player: copy_player(&d.player),
        other: copy_doc(&d.other),
    };
    proof {
        assert(r@ =~= d@);
    }
    r
}

/// An owned copy of a world document, equal in model.
pub fn copy_level(l: &LevelDat) -> (r: LevelDat)
    ensures
        r@ == l@,
{
    let r = LevelDat { data: copy_data(&l.data), other: copy_doc(&l.other) };
    proof {
        assert(r@ =~= l@);
    }
    r
}

/// The merged world document after a mutated player record is put
/// back: only the embedded player differs.
pub open spec fn merged_level(lv: LevelDatV, pv: PlayerDataV) -> LevelDatV {
    LevelDatV {
        data: DataV {
            spawn_x: lv.data.spawn_x,
            spawn_y: lv.data.spawn_y,
            spawn_z: lv.data.spawn_z,
            player: pv,
            other: lv.data.other,
        },
        other: lv.other,
    }
}

/// Replaces the embedded player record inside the world document.
pub fn level_put_player(l: LevelDat, p: PlayerData) -> (r: LevelDat)
    ensures
        r@ == merged_level(l@, p@),
{
    let mut l2 = l;
    l2.data.player = p;
    proof {
        assert(l2@ =~= merged_level(l@, p@));
    }
    l2
}

} // verus!
