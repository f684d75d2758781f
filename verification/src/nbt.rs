use vstd::prelude::*;

verus! {

// ---------------------------------------------------------------------
// The tagged-document model.
//
// The save data is a recursive, self-describing binary format: a tree of
// tagged values keyed by short byte strings. Numeric payloads are held as
// their raw big-endian bit patterns (unsigned); whether a pattern is read
// as a signed integer or as a floating-point number is a matter of
// interpretation at the typed boundary, not of the format.
// ---------------------------------------------------------------------

/// The mathematical model of one tagged value.
#[verifier::ext_equal]
pub enum TagV {
    Byte(u8),
    Short(u16),
    Int(u32),
    Long(u64),
    Float(u32),
    Double(u64),
    ByteArray(Seq<u8>),
    Str(Seq<u8>),
    List(Seq<TagV>),
    Compound(Seq<(Seq<u8>, TagV)>),
    IntArray(Seq<u32>),
    LongArray(Seq<u64>),
}

/// One tagged value, as held at run time.
#[derive(Debug, PartialEq)]
pub enum Tag {
    Byte(u8),
    Short(u16),
    Int(u32),
    Long(u64),
    Float(u32),
    Double(u64),
    ByteArray(Vec<u8>),
    Str(Vec<u8>),
    List(Vec<Tag>),
    Compound(Vec<(Vec<u8>, Tag)>),
    IntArray(Vec<u32>),
    LongArray(Vec<u64>),
}

/// A document: the fields of the root compound, in order.
pub type Doc = Vec<(Vec<u8>, Tag)>;

/// The model of a document.
pub type DocV = Seq<(Seq<u8>, TagV)>;

pub open spec fn tag_model(t: Tag) -> TagV
    decreases t,
{
    match t {
        Tag::Byte(x) => TagV::Byte(x),
        Tag::Short(x) => TagV::Short(x),
        Tag::Int(x) => TagV::Int(x),
        Tag::Long(x) => TagV::Long(x),
        Tag::Float(x) => TagV::Float(x),
        Tag::Double(x) => TagV::Double(x),
        Tag::ByteArray(b) => TagV::ByteArray(b@),
        Tag::Str(s) => TagV::Str(s@),
        Tag::List(es) => TagV::List(tags_model(es@)),
        Tag::Compound(fs) => TagV::Compound(fields_model(fs@)),
        Tag::IntArray(v) => TagV::IntArray(v@),
        Tag::LongArray(v) => TagV::LongArray(v@),
    }
}

pub open spec fn tags_model(s: Seq<Tag>) -> Seq<TagV>
    decreases s,
{
    if s.len() == 0 {
        Seq::empty()
    } else {
        seq![tag_model(s[0])] + tags_model(s.drop_first())
    }
}

pub open spec fn fields_model(s: Seq<(Vec<u8>, Tag)>) -> DocV
    decreases s,
{
    if s.len() == 0 {
        Seq::empty()
    } else {
        seq![(s[0].0@, tag_model(s[0].1))] + fields_model(s.drop_first())
    }
}

impl View for Tag {
    type V = TagV;

    open spec fn view(&self) -> TagV {
        tag_model(*self)
    }
}

/// The wire identifier of each tag kind.
pub open spec fn tag_id(t: TagV) -> u8 {
    match t {
        TagV::Byte(_) => 1,
        TagV::Short(_) => 2,
        TagV::Int(_) => 3,
        TagV::Long(_) => 4,
        TagV::Float(_) => 5,
        TagV::Double(_) => 6,
        TagV::ByteArray(_) => 7,
        TagV::Str(_) => 8,
        TagV::List(_) => 9,
        TagV::Compound(_) => 10,
        TagV::IntArray(_) => 11,
        TagV::LongArray(_) => 12,
    }
}

/// The element identifier a list is written with: that of its elements,
/// or the end marker for an empty list.
pub open spec fn list_elem_id(es: Seq<TagV>) -> u8 {
    if es.len() == 0 {
        0
    } else {
        tag_id(es[0])
    }
}

// ---------------------------------------------------------------------
// Well-formedness: every length fits its wire-format length field.
// ---------------------------------------------------------------------

/// The largest length a signed 32-bit length field can carry.
pub open spec fn max_len32() -> int {
    0x7FFF_FFFF
}

pub open spec fn tag_wf(t: TagV) -> bool
    decreases t,
{
    match t {
        TagV::Byte(_) => true,
        TagV::Short(_) => true,
        TagV::Int(_) => true,
        TagV::Long(_) => true,
        TagV::Float(_) => true,
        TagV::Double(_) => true,
        TagV::ByteArray(b) => b.len() <= max_len32(),
        TagV::Str(s) => s.len() <= 0xFFFF,
        TagV::List(es) => es.len() <= max_len32() && tags_wf(es) && tags_homogeneous(es),
        TagV::Compound(fs) => fields_wf(fs),
        TagV::IntArray(v) => v.len() <= max_len32(),
        TagV::LongArray(v) => v.len() <= max_len32(),
    }
}

pub open spec fn tags_wf(es: Seq<TagV>) -> bool
    decreases es,
{
    forall|i: int| 0 <= i < es.len() ==> tag_wf(#[trigger] es[i])
}

/// All elements of a list are of one kind.
pub open spec fn tags_homogeneous(es: Seq<TagV>) -> bool {
    forall|i: int| 0 <= i < es.len() ==> tag_id(#[trigger] es[i]) == tag_id(es[0])
}

pub open spec fn fields_wf(fs: DocV) -> bool
    decreases fs,
{
    forall|i: int|
        0 <= i < fs.len() ==> (#[trigger] fs[i]).0.len() <= 0xFFFF && tag_wf(fs[i].1)
}

// ---------------------------------------------------------------------
// Big-endian scalars.
// ---------------------------------------------------------------------

pub open spec fn be2(x: u16) -> Seq<u8> {
    seq![(x >> 8) as u8, x as u8]
}

pub open spec fn be4(x: u32) -> Seq<u8> {
    seq![(x >> 24) as u8, (x >> 16) as u8, (x >> 8) as u8, x as u8]
}

pub open spec fn be8(x: u64) -> Seq<u8> {
    seq![
        (x >> 56) as u8,
        (x >> 48) as u8,
        (x >> 40) as u8,
        (x >> 32) as u8,
        (x >> 24) as u8,
        (x >> 16) as u8,
        (x >> 8) as u8,
        x as u8,
    ]
}

pub open spec fn rd2(s: Seq<u8>) -> u16 {
    ((s[0] as u16) << 8) | (s[1] as u16)
}

pub open spec fn rd4(s: Seq<u8>) -> u32 {
    ((s[0] as u32) << 24) | ((s[1] as u32) << 16) | ((s[2] as u32) << 8) | (s[3] as u32)
}

pub open spec fn rd8(s: Seq<u8>) -> u64 {
    ((s[0] as u64) << 56) | ((s[1] as u64) << 48) | ((s[2] as u64) << 40) | ((s[3] as u64) << 32)
        | ((s[4] as u64) << 24) | ((s[5] as u64) << 16) | ((s[6] as u64) << 8) | (s[7] as u64)
}

pub proof fn lemma_rd2_be2(x: u16)
    ensures
        rd2(be2(x)) == x,
{
    assert((((x >> 8) as u8 as u16) << 8) | ((x as u8) as u16) == x) by (bit_vector);
}

pub proof fn lemma_rd4_be4(x: u32)
    ensures
        rd4(be4(x)) == x,
{
    assert((((x >> 24) as u8 as u32) << 24) | (((x >> 16) as u8 as u32) << 16) | (((x
        >> 8) as u8 as u32) << 8) | ((x as u8) as u32) == x) by (bit_vector);
}

pub proof fn lemma_rd8_be8(x: u64)
    ensures
        rd8(be8(x)) == x,
{
    assert((((x >> 56) as u8 as u64) << 56) | (((x >> 48) as u8 as u64) << 48) | (((x
        >> 40) as u8 as u64) << 40) | (((x >> 32) as u8 as u64) << 32) | (((x
        >> 24) as u8 as u64) << 24) | (((x >> 16) as u8 as u64) << 16) | (((x
        >> 8) as u8 as u64) << 8) | ((x as u8) as u64) == x) by (bit_vector);
}

// ---------------------------------------------------------------------
// The wire encoding.
// ---------------------------------------------------------------------

pub open spec fn enc_payload(t: TagV) -> Seq<u8>
    decreases t, 0int,
{
    match t {
        TagV::Byte(x) => seq![x],
        TagV::Short(x) => be2(x),
        TagV::Int(x) => be4(x),
        TagV::Long(x) => be8(x),
        TagV::Float(x) => be4(x),
        TagV::Double(x) => be8(x),
        TagV::ByteArray(b) => be4(b.len() as u32) + b,
        TagV::Str(s) => be2(s.len() as u16) + s,
        TagV::List(es) => seq![list_elem_id(es)] + be4(es.len() as u32) + enc_tags(es),
        TagV::Compound(fs) => enc_fields(fs) + seq![0u8],
        TagV::IntArray(v) => be4(v.len() as u32) + enc_u32s(v),
        TagV::LongArray(v) => be4(v.len() as u32) + enc_u64s(v),
    }
}

pub open spec fn enc_tags(es: Seq<TagV>) -> Seq<u8>
    decreases es, 0int,
{
    if es.len() == 0 {
        Seq::empty()
    } else {
        enc_payload(es[0]) + enc_tags(es.drop_first())
    }
}

/// One named field: kind identifier, name length, name, payload.
pub open spec fn enc_field(name: Seq<u8>, t: TagV) -> Seq<u8>
    decreases t, 1int,
{
    seq![tag_id(t)] + be2(name.len() as u16) + name + enc_payload(t)
}

pub open spec fn enc_fields(fs: DocV) -> Seq<u8>
    decreases fs, 0int,
{
    if fs.len() == 0 {
        Seq::empty()
    } else {
        enc_field(fs[0].0, fs[0].1) + enc_fields(fs.drop_first())
    }
}

pub open spec fn enc_u32s(v: Seq<u32>) -> Seq<u8>
    decreases v,
{
    if v.len() == 0 {
        Seq::empty()
    } else {
        be4(v[0]) + enc_u32s(v.drop_first())
    }
}

pub open spec fn enc_u64s(v: Seq<u64>) -> Seq<u8>
    decreases v,
{
    if v.len() == 0 {
        Seq::empty()
    } else {
        be8(v[0]) + enc_u64s(v.drop_first())
    }
}

/// A whole document: a compound with an empty root name wrapping the
/// fields.
pub open spec fn enc_doc(fs: DocV) -> Seq<u8> {
    seq![10u8, 0u8, 0u8] + enc_fields(fs) + seq![0u8]
}

// ---------------------------------------------------------------------
// The wire decoding, as a mathematical function. `None` is a structural
// error: wrong kind identifier, truncated length, or a length that does
// not fit its field. Each `Some` carries the value and the count of
// bytes consumed.
// ---------------------------------------------------------------------

pub open spec fn dec_payload(id: u8, s: Seq<u8>) -> Option<(TagV, int)>
    decreases s.len(), 1int, 0int,
{
    if id == 1 {
        if s.len() >= 1 {
            Some((TagV::Byte(s[0]), 1))
        } else {
            None
        }
    } else if id == 2 {
        if s.len() >= 2 {
            Some((TagV::Short(rd2(s)), 2))
        } else {
            None
        }
    } else if id == 3 {
        if s.len() >= 4 {
            Some((TagV::Int(rd4(s)), 4))
        } else {
            None
        }
    } else if id == 4 {
        if s.len() >= 8 {
            Some((TagV::Long(rd8(s)), 8))
        } else {
            None
        }
    } else if id == 5 {
        if s.len() >= 4 {
            Some((TagV::Float(rd4(s)), 4))
        } else {
            None
        }
    } else if id == 6 {
        if s.len() >= 8 {
            Some((TagV::Double(rd8(s)), 8))
        } else {
            None
        }
    } else if id == 7 {
        if s.len() >= 4 && rd4(s) <= max_len32() && 4 + rd4(s) <= s.len() {
            Some((TagV::ByteArray(s.subrange(4, 4 + rd4(s))), 4 + rd4(s)))
        } else {
            None
        }
    } else if id == 8 {
        if s.len() >= 2 && 2 + rd2(s) <= s.len() {
            Some((TagV::Str(s.subrange(2, 2 + rd2(s))), 2 + rd2(s)))
        } else {
            None
        }
    } else if id == 9 {
        if s.len() >= 5 && rd4(s.skip(1)) <= max_len32() {
            match dec_tags(s[0], rd4(s.skip(1)) as int, s.skip(5)) {
                Some((es, m)) => Some((TagV::List(es), 5 + m)),
                None => None,
            }
        } else {
            None
        }
    } else if id == 10 {
        match dec_fields(s) {
            Some((fs, m)) => Some((TagV::Compound(fs), m)),
            None => None,
        }
    } else if id == 11 {
        if s.len() >= 4 && rd4(s) <= max_len32() && 4 + 4 * rd4(s) <= s.len() {
            Some((TagV::IntArray(dec_u32s(rd4(s) as int, s.skip(4))), 4 + 4 * rd4(s)))
        } else {
            None
        }
    } else if id == 12 {
        if s.len() >= 4 && rd4(s) <= max_len32() && 4 + 8 * rd4(s) <= s.len() {
            Some((TagV::LongArray(dec_u64s(rd4(s) as int, s.skip(4))), 4 + 8 * rd4(s)))
        } else {
            None
        }
    } else {
        None
    }
}

pub open spec fn dec_tags(id: u8, n: int, s: Seq<u8>) -> Option<(Seq<TagV>, int)>
    decreases s.len(), 2int, n,
{
    if n <= 0 {
        Some((Seq::empty(), 0))
    } else {
        match dec_payload(id, s) {
            Some((t, c)) => if 0 <= c <= s.len() {
                match dec_tags(id, n - 1, s.skip(c)) {
                    Some((es, m)) => Some((seq![t] + es, c + m)),
                    None => None,
                }
            } else {
                None
            },
            None => None,
        }
    }
}

pub open spec fn dec_fields(s: Seq<u8>) -> Option<(DocV, int)>
    decreases s.len(), 0int, 0int,
{
    if s.len() < 1 {
        None
    } else if s[0] == 0 {
        Some((Seq::empty(), 1))
    } else if s.len() >= 3 && 3 + rd2(s.skip(1)) <= s.len() {
        match dec_payload(s[0], s.skip(3 + rd2(s.skip(1)) as int)) {
            Some((t, c)) => if 0 <= c <= s.len() - 3 - rd2(s.skip(1)) {
                match dec_fields(s.skip(3 + rd2(s.skip(1)) + c)) {
                    Some((fs, m)) => Some(
                        (
                            seq![(s.subrange(3, 3 + rd2(s.skip(1))), t)] + fs,
                            3 + rd2(s.skip(1)) + c + m,
                        ),
                    ),
                    None => None,
                }
            } else {
                None
            },
            None => None,
        }
    } else {
        None
    }
}

pub open spec fn dec_u32s(n: int, s: Seq<u8>) -> Seq<u32>
    decreases n,
{
    if n <= 0 {
        Seq::empty()
    } else {
        seq![rd4(s)] + dec_u32s(n - 1, s.skip(4))
    }
}

pub open spec fn dec_u64s(n: int, s: Seq<u8>) -> Seq<u64>
    decreases n,
{
    if n <= 0 {
        Seq::empty()
    } else {
        seq![rd8(s)] + dec_u64s(n - 1, s.skip(8))
    }
}

/// A whole document: a compound kind identifier, a root name that is
/// read and discarded, the fields, and nothing after them.
pub open spec fn dec_doc(s: Seq<u8>) -> Option<DocV> {
    if s.len() >= 3 && s[0] == 10 && 3 + rd2(s.skip(1)) <= s.len() {
        match dec_fields(s.skip(3 + rd2(s.skip(1)) as int)) {
            Some((fs, m)) => if 3 + rd2(s.skip(1)) + m == s.len() {
                Some(fs)
            } else {
                None
            },
            None => None,
        }
    } else {
        None
    }
}

// ---------------------------------------------------------------------
// The round-trip law: decoding an encoded value yields that value.
// ---------------------------------------------------------------------

proof fn lemma_rt_u32s(v: Seq<u32>, rest: Seq<u8>)
    ensures
        enc_u32s(v).len() == 4 * v.len(),
        dec_u32s(v.len() as int, enc_u32s(v) + rest) == v,
    decreases v,
{
    if v.len() == 0 {
        assert(dec_u32s(0, enc_u32s(v) + rest) =~= v);
    } else {
        let s = enc_u32s(v) + rest;
        let tail_rest = enc_u32s(v.drop_first()) + rest;
        lemma_rt_u32s(v.drop_first(), rest);
        lemma_rd4_be4(v[0]);
        assert(rd4(s) == rd4(be4(v[0])));
        assert(s.skip(4) =~= tail_rest);
        assert(dec_u32s(v.len() as int, s) =~= v);
    }
}

proof fn lemma_rt_u64s(v: Seq<u64>, rest: Seq<u8>)
    ensures
        enc_u64s(v).len() == 8 * v.len(),
        dec_u64s(v.len() as int, enc_u64s(v) + rest) == v,
    decreases v,
{
    if v.len() == 0 {
        assert(dec_u64s(0, enc_u64s(v) + rest) =~= v);
    } else {
        let s = enc_u64s(v) + rest;
        let tail_rest = enc_u64s(v.drop_first()) + rest;
        lemma_rt_u64s(v.drop_first(), rest);
        lemma_rd8_be8(v[0]);
        assert(rd8(s) == rd8(be8(v[0])));
        assert(s.skip(8) =~= tail_rest);
        assert(dec_u64s(v.len() as int, s) =~= v);
    }
}

proof fn lemma_tag_id_positive(t: TagV)
    ensures
        1 <= tag_id(t) <= 12,
{
}

/// Decoding the encoding of a well-formed value, whatever follows it,
/// yields exactly that value and consumes exactly its encoding.
#[verifier::rlimit(60)]
pub proof fn lemma_rt_payload(t: TagV, rest: Seq<u8>)
    requires
        tag_wf(t),
    ensures
        dec_payload(tag_id(t), enc_payload(t) + rest) == Some(
            (t, enc_payload(t).len() as int),
        ),
    decreases t, 0int,
{
    let s = enc_payload(t) + rest;
    match t {
        TagV::Byte(x) => {}
        TagV::Short(x) => {
            lemma_rd2_be2(x);
            assert(rd2(s) == rd2(be2(x)));
        }
        TagV::Int(x) => {
            lemma_rd4_be4(x);
            assert(rd4(s) == rd4(be4(x)));
        }
        TagV::Long(x) => {
            lemma_rd8_be8(x);
            assert(rd8(s) == rd8(be8(x)));
        }
        TagV::Float(x) => {
            lemma_rd4_be4(x);
            assert(rd4(s) == rd4(be4(x)));
        }
        TagV::Double(x) => {
            lemma_rd8_be8(x);
            assert(rd8(s) == rd8(be8(x)));
        }
        TagV::ByteArray(b) => {
            let l32 = b.len() as u32;
            lemma_rd4_be4(l32);
            assert(rd4(s) == rd4(be4(l32)));
            assert(s.subrange(4, 4 + l32 as int) =~= b);
        }
        TagV::Str(b) => {
            let l16 = b.len() as u16;
            lemma_rd2_be2(l16);
            assert(rd2(s) == rd2(be2(l16)));
            assert(s.subrange(2, 2 + l16 as int) =~= b);
        }
        TagV::List(es) => {
            let n32 = es.len() as u32;
            let eid = list_elem_id(es);
            lemma_rd4_be4(n32);
            assert(s[0] == eid);
            assert(forall|i: int| 0 <= i < 4 ==> s.skip(1)[i] == be4(n32)[i]);
            assert(rd4(s.skip(1)) == rd4(be4(n32)));
            if es.len() > 0 {
                assert(eid == tag_id(es[0]));
            }
            lemma_rt_tags(eid, es, rest);
            assert(s.skip(5) =~= enc_tags(es) + rest);
            assert(dec_payload(9, s) == Some((TagV::List(es), 5 + enc_tags(es).len() as int)));
        }
        TagV::Compound(fs) => {
            lemma_rt_fields(fs, rest);
            assert(s =~= enc_fields(fs) + seq![0u8] + rest);
        }
        TagV::IntArray(v) => {
            let l32 = v.len() as u32;
            lemma_rd4_be4(l32);
            assert(rd4(s) == rd4(be4(l32)));
            lemma_rt_u32s(v, rest);
            assert(s.skip(4) =~= enc_u32s(v) + rest);
        }
        TagV::LongArray(v) => {
            let l32 = v.len() as u32;
            lemma_rd4_be4(l32);
            assert(rd4(s) == rd4(be4(l32)));
            lemma_rt_u64s(v, rest);
            assert(s.skip(4) =~= enc_u64s(v) + rest);
        }
    }
}

/// Decoding a run of list elements of one kind.
pub proof fn lemma_rt_tags(id: u8, es: Seq<TagV>, rest: Seq<u8>)
    requires
        tags_wf(es),
        forall|i: int| 0 <= i < es.len() ==> tag_id(#[trigger] es[i]) == id,
    ensures
        dec_tags(id, es.len() as int, enc_tags(es) + rest) == Some(
            (es, enc_tags(es).len() as int),
        ),
    decreases es, 0int,
{
    let s = enc_tags(es) + rest;
    if es.len() == 0 {
        assert(dec_tags(id, 0, s) == Some((Seq::<TagV>::empty(), 0int)));
        assert(es =~= Seq::<TagV>::empty());
    } else {
        let e0 = es[0];
        let tail_rest = enc_tags(es.drop_first()) + rest;
        assert(s =~= enc_payload(e0) + tail_rest);
        lemma_rt_payload(e0, tail_rest);
        let c0 = enc_payload(e0).len() as int;
        assert(dec_payload(id, s) == Some((e0, c0)));
        assert(s.skip(c0) =~= tail_rest);
        assert(forall|i: int|
            0 <= i < es.drop_first().len() ==> tag_id(#[trigger] es.drop_first()[i]) == id);
        assert(forall|i: int|
            0 <= i < es.drop_first().len() ==> tag_wf(#[trigger] es.drop_first()[i]));
        lemma_rt_tags(id, es.drop_first(), rest);
        assert(seq![e0] + es.drop_first() =~= es);
        assert(dec_tags(id, es.len() as int, s) == Some((es, enc_tags(es).len() as int)));
    }
}

/// Decoding a run of named fields up to and including the end marker.
#[verifier::rlimit(60)]
pub proof fn lemma_rt_fields(fs: DocV, rest: Seq<u8>)
    requires
        fields_wf(fs),
    ensures
        dec_fields(enc_fields(fs) + seq![0u8] + rest) == Some(
            (fs, enc_fields(fs).len() + 1int),
        ),
    decreases fs, 0int,
{
    let s = enc_fields(fs) + seq![0u8] + rest;
    if fs.len() == 0 {
        assert(s[0] == 0);
        assert(fs =~= Seq::<(Seq<u8>, TagV)>::empty());
    } else {
        let name = fs[0].0;
        let t0 = fs[0].1;
        let nl16 = name.len() as u16;
        let nl = name.len() as int;
        let tail_rest = enc_fields(fs.drop_first()) + seq![0u8] + rest;
        assert(s =~= enc_field(name, t0) + tail_rest);
        lemma_tag_id_positive(t0);
        assert(s[0] == tag_id(t0));
        lemma_rd2_be2(nl16);
        assert(forall|i: int| 0 <= i < 2 ==> s.skip(1)[i] == be2(nl16)[i]);
        assert(rd2(s.skip(1)) == rd2(be2(nl16)));
        assert(s.subrange(3, 3 + nl) =~= name);
        let pay_rest = enc_payload(t0) + tail_rest;
        assert(s.skip(3 + nl) =~= pay_rest);
        lemma_rt_payload(t0, tail_rest);
        let c0 = enc_payload(t0).len() as int;
        assert(dec_payload(s[0], s.skip(3 + nl)) == Some((t0, c0)));
        assert(s.skip(3 + nl + c0) =~= tail_rest);
        assert(forall|i: int|
            0 <= i < fs.drop_first().len() ==> (#[trigger] fs.drop_first()[i]).0.len() <= 0xFFFF
                && tag_wf(fs.drop_first()[i].1));
        lemma_rt_fields(fs.drop_first(), rest);
        assert((fs[0].0, fs[0].1) == fs[0]);
        assert(seq![(name, t0)] + fs.drop_first() =~= fs);
        assert(dec_fields(s) == Some((fs, enc_fields(fs).len() + 1int)));
    }
}

/// The round-trip law for whole documents: decoding the encoding of any
/// well-formed document yields a document equal in key-to-value content,
/// here equal outright.
pub proof fn lemma_document_round_trip(d: DocV)
    requires
        fields_wf(d),
    ensures
        dec_doc(enc_doc(d)) == Some(d),
{
    let s = enc_doc(d);
    assert(s[0] == 10);
    assert(((0u8 as u16) << 8) | (0u8 as u16) == 0) by (bit_vector);
    assert(rd2(s.skip(1)) == 0);
    assert(s.skip(3) =~= enc_fields(d) + seq![0u8] + Seq::<u8>::empty());
    lemma_rt_fields(d, Seq::empty());
    assert(dec_doc(s) == Some(d));
}

// ---------------------------------------------------------------------
// Facts relating run-time values to their models.
// ---------------------------------------------------------------------

pub broadcast proof fn lemma_tags_model_len(s: Seq<Tag>)
    ensures
        #[trigger] tags_model(s).len() == s.len(),
    decreases s,
{
    if s.len() > 0 {
        lemma_tags_model_len(s.drop_first());
    }
}

pub broadcast proof fn lemma_tags_model_index(s: Seq<Tag>, i: int)
    requires
        0 <= i < s.len(),
    ensures
        #[trigger] tags_model(s)[i] == tag_model(s[i]),
    decreases s,
{
    if i == 0 {
        assert(tags_model(s)[0] == tag_model(s[0]));
    } else {
        lemma_tags_model_len(s.drop_first());
        lemma_tags_model_index(s.drop_first(), i - 1);
        assert(s.drop_first()[i - 1] == s[i]);
        assert(tags_model(s)[i] == tags_model(s.drop_first())[i - 1]);
    }
}

pub broadcast proof fn lemma_fields_model_len(s: Seq<(Vec<u8>, Tag)>)
    ensures
        #[trigger] fields_model(s).len() == s.len(),
    decreases s,
{
    if s.len() > 0 {
        lemma_fields_model_len(s.drop_first());
    }
}

pub broadcast proof fn lemma_fields_model_index(s: Seq<(Vec<u8>, Tag)>, i: int)
    requires
        0 <= i < s.len(),
    ensures
        #[trigger] fields_model(s)[i] == (s[i].0@, tag_model(s[i].1)),
    decreases s,
{
    if i == 0 {
        assert(fields_model(s)[0] == (s[0].0@, tag_model(s[0].1)));
    } else {
        lemma_fields_model_len(s.drop_first());
        lemma_fields_model_index(s.drop_first(), i - 1);
        assert(s.drop_first()[i - 1] == s[i]);
        assert(fields_model(s)[i] == fields_model(s.drop_first())[i - 1]);
    }
}

// ---------------------------------------------------------------------
// How the encoding grows at the end: used by the encoder's loops.
// ---------------------------------------------------------------------

pub proof fn lemma_enc_tags_push(s: Seq<TagV>, x: TagV)
    ensures
        enc_tags(s.push(x)) == enc_tags(s) + enc_payload(x),
    decreases s,
{
    reveal_with_fuel(enc_tags, 3);
    if s.len() == 0 {
        assert(s.push(x).drop_first() =~= Seq::<TagV>::empty());
        assert(enc_tags(s.push(x)) =~= enc_tags(s) + enc_payload(x));
    } else {
        assert(s.push(x)[0] == s[0]);
        assert(s.push(x).drop_first() =~= s.drop_first().push(x));
        lemma_enc_tags_push(s.drop_first(), x);
        assert(enc_tags(s.push(x)) == enc_payload(s[0]) + (enc_tags(s.drop_first())
            + enc_payload(x)));
        assert(enc_payload(s[0]) + (enc_tags(s.drop_first()) + enc_payload(x)) =~= (enc_payload(
            s[0],
        ) + enc_tags(s.drop_first())) + enc_payload(x));
    }
}

pub proof fn lemma_enc_fields_push(fs: DocV, name: Seq<u8>, t: TagV)
    ensures
        enc_fields(fs.push((name, t))) == enc_fields(fs) + enc_field(name, t),
    decreases fs,
{
    reveal_with_fuel(enc_fields, 3);
    if fs.len() == 0 {
        assert(fs.push((name, t)).drop_first() =~= Seq::<(Seq<u8>, TagV)>::empty());
        assert(enc_fields(fs.push((name, t))) =~= enc_fields(fs) + enc_field(name, t));
    } else {
        assert(fs.push((name, t))[0] == fs[0]);
        assert(fs.push((name, t)).drop_first() =~= fs.drop_first().push((name, t)));
        lemma_enc_fields_push(fs.drop_first(), name, t);
        assert(enc_fields(fs.push((name, t))) == enc_field(fs[0].0, fs[0].1) + (enc_fields(
            fs.drop_first(),
        ) + enc_field(name, t)));
        assert(enc_field(fs[0].0, fs[0].1) + (enc_fields(fs.drop_first()) + enc_field(name, t))
            =~= (enc_field(fs[0].0, fs[0].1) + enc_fields(fs.drop_first())) + enc_field(name, t));
    }
}

pub proof fn lemma_enc_u32s_push(v: Seq<u32>, x: u32)
    ensures
        enc_u32s(v.push(x)) == enc_u32s(v) + be4(x),
    decreases v,
{
    reveal_with_fuel(enc_u32s, 3);
    if v.len() == 0 {
        assert(v.push(x).drop_first() =~= Seq::<u32>::empty());
        assert(enc_u32s(v.push(x)) =~= enc_u32s(v) + be4(x));
    } else {
        assert(v.push(x)[0] == v[0]);
        assert(v.push(x).drop_first() =~= v.drop_first().push(x));
        lemma_enc_u32s_push(v.drop_first(), x);
        assert(enc_u32s(v.push(x)) == be4(v[0]) + (enc_u32s(v.drop_first()) + be4(x)));
        assert(be4(v[0]) + (enc_u32s(v.drop_first()) + be4(x)) =~= (be4(v[0]) + enc_u32s(
            v.drop_first(),
        )) + be4(x));
    }
}

pub proof fn lemma_enc_u64s_push(v: Seq<u64>, x: u64)
    ensures
        enc_u64s(v.push(x)) == enc_u64s(v) + be8(x),
    decreases v,
{
    reveal_with_fuel(enc_u64s, 3);
    if v.len() == 0 {
        assert(v.push(x).drop_first() =~= Seq::<u64>::empty());
        assert(enc_u64s(v.push(x)) =~= enc_u64s(v) + be8(x));
    } else {
        assert(v.push(x)[0] == v[0]);
        assert(v.push(x).drop_first() =~= v.drop_first().push(x));
        lemma_enc_u64s_push(v.drop_first(), x);
        assert(enc_u64s(v.push(x)) == be8(v[0]) + (enc_u64s(v.drop_first()) + be8(x)));
        assert(be8(v[0]) + (enc_u64s(v.drop_first()) + be8(x)) =~= (be8(v[0]) + enc_u64s(
            v.drop_first(),
        )) + be8(x));
    }
}

/// Sequences of run-time values with pointwise equal models have equal
/// models.
pub proof fn lemma_tags_model_eq(a: Seq<Tag>, b: Seq<Tag>)
    requires
        a.len() == b.len(),
        forall|i: int| 0 <= i < a.len() ==> tag_model(#[trigger] a[i]) == tag_model(b[i]),
    ensures
        tags_model(a) == tags_model(b),
    decreases a,
{
    if a.len() == 0 {
        assert(tags_model(a) =~= tags_model(b));
    } else {
        assert(forall|i: int|
            0 <= i < a.drop_first().len() ==> tag_model(#[trigger] a.drop_first()[i])
                == tag_model(b.drop_first()[i]));
        lemma_tags_model_eq(a.drop_first(), b.drop_first());
        assert(tags_model(a) =~= tags_model(b));
    }
}

pub proof fn lemma_fields_model_eq(a: Seq<(Vec<u8>, Tag)>, b: Seq<(Vec<u8>, Tag)>)
    requires
        a.len() == b.len(),
        forall|i: int|
            0 <= i < a.len() ==> (#[trigger] a[i]).0@ == b[i].0@ && tag_model(a[i].1)
                == tag_model(b[i].1),
    ensures
        fields_model(a) == fields_model(b),
    decreases a,
{
    if a.len() == 0 {
        assert(fields_model(a) =~= fields_model(b));
    } else {
        assert(forall|i: int|
            0 <= i < a.drop_first().len() ==> (#[trigger] a.drop_first()[i]).0@
                == b.drop_first()[i].0@ && tag_model(a.drop_first()[i].1) == tag_model(
                b.drop_first()[i].1,
            ));
        lemma_fields_model_eq(a.drop_first(), b.drop_first());
        assert(fields_model(a) =~= fields_model(b));
    }
}

} // verus!
