use vstd::prelude::*;
use crate::errors::ToolError;
use crate::nbt::{
    Tag, TagV, Doc, be2, be4, be8, rd2, rd4, rd8, tag_id, tag_model, tags_model,
    fields_model, enc_payload, enc_tags, enc_fields, enc_u32s, enc_u64s, enc_doc,
    dec_payload, dec_tags, dec_fields, dec_u32s, dec_u64s, dec_doc, lemma_tags_model_len,
    lemma_tags_model_index, lemma_fields_model_len, lemma_fields_model_index,
    lemma_enc_tags_push, lemma_enc_fields_push, lemma_enc_u32s_push, lemma_enc_u64s_push,
};

verus! {

broadcast use vstd::std_specs::vec::group_vec_axioms, lemma_tags_model_len, lemma_tags_model_index, lemma_fields_model_len, lemma_fields_model_index;

// ---------------------------------------------------------------------
// Scalar writers and readers.
// ---------------------------------------------------------------------

fn push_be2(out: &mut Vec<u8>, x: u16)
    ensures
        final(out)@ == old(out)@ + be2(x),
{
    out.push(#[verifier::truncate] ((x >> 8) as u8));
    out.push(#[verifier::truncate] (x as u8));
    assert(out@ =~= old(out)@ + be2(x));
}

fn push_be4(out: &mut Vec<u8>, x: u32)
    ensures
        final(out)@ == old(out)@ + be4(x),
{
    out.push(#[verifier::truncate] ((x >> 24) as u8));
    out.push(#[verifier::truncate] ((x >> 16) as u8));
    out.push(#[verifier::truncate] ((x >> 8) as u8));
    out.push(#[verifier::truncate] (x as u8));
    assert(out@ =~= old(out)@ + be4(x));
}

fn push_be8(out: &mut Vec<u8>, x: u64)
    ensures
        final(out)@ == old(out)@ + be8(x),
{
    out.push(#[verifier::truncate] ((x >> 56) as u8));
    out.push(#[verifier::truncate] ((x >> 48) as u8));
    out.push(#[verifier::truncate] ((x >> 40) as u8));
    out.push(#[verifier::truncate] ((x >> 32) as u8));
    out.push(#[verifier::truncate] ((x >> 24) as u8));
    out.push(#[verifier::truncate] ((x >> 16) as u8));
    out.push(#[verifier::truncate] ((x >> 8) as u8));
    out.push(#[verifier::truncate] (x as u8));
    assert(out@ =~= old(out)@ + be8(x));
}

fn push_bytes(out: &mut Vec<u8>, b: &Vec<u8>)
    ensures
        final(out)@ == old(out)@ + b@,
{
    let mut k: usize = 0;
    while k < b.len()
        invariant
            k <= b@.len(),
            out@ == old(out)@ + b@.take(k as int),
        decreases b@.len() - k,
    {
        out.push(b[k]);
        proof {
            assert(b@.take(k + 1) =~= b@.take(k as int).push(b@[k as int]));
            assert(old(out)@ + b@.take(k as int) + seq![b@[k as int]] =~= old(out)@ + b@.take(
                k + 1,
            ));
        }
        k = k + 1;
    }
    assert(b@.take(b@.len() as int) =~= b@);
}

fn read_u16(s: &Vec<u8>, i: usize) -> (r: u16)
    requires
        i + 2 <= s@.len(),
    ensures
        r == rd2(s@.skip(i as int)),
{
    let n = s.len();
    let r = ((s[i] as u16) << 8) | (s[i + 1] as u16);
    assert(s@.skip(i as int)[0] == s@[i as int]);
    assert(s@.skip(i as int)[1] == s@[i + 1]);
    r
}

fn read_u32(s: &Vec<u8>, i: usize) -> (r: u32)
    requires
        i + 4 <= s@.len(),
    ensures
        r == rd4(s@.skip(i as int)),
{
    let n = s.len();
    let r = ((s[i] as u32) << 24) | ((s[i + 1] as u32) << 16) | ((s[i + 2] as u32) << 8) | (s[i
        + 3] as u32);
    assert(forall|k: int| 0 <= k < 4 ==> s@.skip(i as int)[k] == s@[i + k]);
    r
}

fn read_u64(s: &Vec<u8>, i: usize) -> (r: u64)
    requires
        i + 8 <= s@.len(),
    ensures
        r == rd8(s@.skip(i as int)),
{
    let n = s.len();
    let r = ((s[i] as u64) << 56) | ((s[i + 1] as u64) << 48) | ((s[i + 2] as u64) << 40) | ((s[i
        + 3] as u64) << 32) | ((s[i + 4] as u64) << 24) | ((s[i + 5] as u64) << 16) | ((s[i
        + 6] as u64) << 8) | (s[i + 7] as u64);
    assert(forall|k: int| 0 <= k < 8 ==> s@.skip(i as int)[k] == s@[i + k]);
    r
}

pub(crate) fn copy_range(s: &Vec<u8>, a: usize, b: usize) -> (r: Vec<u8>)
    requires
        a <= b <= s@.len(),
    ensures
        r@ == s@.subrange(a as int, b as int),
{
    let mut r: Vec<u8> = Vec::new();
    let mut k: usize = a;
    while k < b
        invariant
            a <= k <= b <= s@.len(),
            r@ == s@.subrange(a as int, k as int),
        decreases b - k,
    {
        r.push(s[k]);
        proof {
            assert(s@.subrange(a as int, k + 1) =~= s@.subrange(a as int, k as int).push(
                s@[k as int],
            ));
        }
        k = k + 1;
    }
    r
}

/// The wire identifier a value is written with.
pub fn tag_kind_id(t: &Tag) -> (r: u8)
    ensures
        r == tag_id(t@),
{
    match t {
        Tag::Byte(_) => 1,
        Tag::Short(_) => 2,
        Tag::Int(_) => 3,
        Tag::Long(_) => 4,
        Tag::Float(_) => 5,
        Tag::Double(_) => 6,
        Tag::ByteArray(_) => 7,
        Tag::Str(_) => 8,
        Tag::List(_) => 9,
        Tag::Compound(_) => 10,
        Tag::IntArray(_) => 11,
        Tag::LongArray(_) => 12,
    }
}

// ---------------------------------------------------------------------
// Encoding.
// ---------------------------------------------------------------------

/// Appends the wire payload of one value.
#[verifier::loop_isolation(false)]
fn encode_payload(t: &Tag, out: &mut Vec<u8>)
    ensures
        final(out)@ == old(out)@ + enc_payload(t@),
    decreases *t, 0int,
{
    match t {
        Tag::Byte(x) => {
            out.push(*x);
            assert(out@ =~= old(out)@ + enc_payload(t@));
        }
        Tag::Short(x) => {
            push_be2(out, *x);
        }
        Tag::Int(x) => {
            push_be4(out, *x);
        }
        Tag::Long(x) => {
            push_be8(out, *x);
        }
        Tag::Float(x) => {
            push_be4(out, *x);
        }
        Tag::Double(x) => {
            push_be8(out, *x);
        }
        Tag::ByteArray(b) => {
            push_be4(out, #[verifier::truncate] (b.len() as u32));
            push_bytes(out, b);
            assert(out@ =~= old(out)@ + enc_payload(t@));
        }
        Tag::Str(b) => {
            push_be2(out, #[verifier::truncate] (b.len() as u16));
            push_bytes(out, b);
            assert(out@ =~= old(out)@ + enc_payload(t@));
        }
        Tag::List(es) => {
            let eid: u8 = if es.len() == 0 {
                0
            } else {
                tag_kind_id(&es[0])
            };
            out.push(eid);
            push_be4(out, #[verifier::truncate] (es.len() as u32));
            let ghost base = out@;
            let ghost esv = tags_model(es@);
            let mut k: usize = 0;
            while k < es.len()
                invariant
                    k <= es@.len(),
                    esv == tags_model(es@),
                    esv.len() == es@.len(),
                    out@ == base + enc_tags(esv.take(k as int)),
                decreases es@.len() - k,
            {
                encode_payload(&es[k], out);
                proof {
                    assert(esv.take(k + 1) =~= esv.take(k as int).push(esv[k as int]));
                    lemma_enc_tags_push(esv.take(k as int), esv[k as int]);
                    assert(base + enc_tags(esv.take(k as int)) + enc_payload(tag_model(es@[
                        k as int])) =~= base + enc_tags(esv.take(k + 1)));
                }
                k = k + 1;
            }
            proof {
                assert(esv.take(esv.len() as int) =~= esv);
                assert(out@ =~= old(out)@ + enc_payload(t@));
            }
        }
        Tag::Compound(fs) => {
            encode_fields(fs, out);
            out.push(0u8);
            assert(out@ =~= old(out)@ + enc_payload(t@));
        }
        Tag::IntArray(v) => {
            push_be4(out, #[verifier::truncate] (v.len() as u32));
            let ghost base = out@;
            let mut k: usize = 0;
            while k < v.len()
                invariant
                    k <= v@.len(),
                    out@ == base + enc_u32s(v@.take(k as int)),
                decreases v@.len() - k,
            {
                push_be4(out, v[k]);
                proof {
                    assert(v@.take(k + 1) =~= v@.take(k as int).push(v@[k as int]));
                    lemma_enc_u32s_push(v@.take(k as int), v@[k as int]);
                    assert(base + enc_u32s(v@.take(k as int)) + be4(v@[k as int]) =~= base
                        + enc_u32s(v@.take(k + 1)));
                }
                k = k + 1;
            }
            proof {
                assert(v@.take(v@.len() as int) =~= v@);
                assert(out@ =~= old(out)@ + enc_payload(t@));
            }
        }
        Tag::LongArray(v) => {
            push_be4(out, #[verifier::truncate] (v.len() as u32));
            let ghost base = out@;
            let mut k: usize = 0;
            while k < v.len()
                invariant
                    k <= v@.len(),
                    out@ == base + enc_u64s(v@.take(k as int)),
                decreases v@.len() - k,
            {
                push_be8(out, v[k]);
                proof {
                    assert(v@.take(k + 1) =~= v@.take(k as int).push(v@[k as int]));
                    lemma_enc_u64s_push(v@.take(k as int), v@[k as int]);
                    assert(base + enc_u64s(v@.take(k as int)) + be8(v@[k as int]) =~= base
                        + enc_u64s(v@.take(k + 1)));
                }
                k = k + 1;
            }
            proof {
                assert(v@.take(v@.len() as int) =~= v@);
                assert(out@ =~= old(out)@ + enc_payload(t@));
            }
        }
    }
}

/// Appends the wire form of a run of named fields, without the end
/// marker.
#[verifier::loop_isolation(false)]
fn encode_fields(fs: &Doc, out: &mut Vec<u8>)
    ensures
        final(out)@ == old(out)@ + enc_fields(fields_model(fs@)),
    decreases *fs, 0int,
{
    let ghost fsv = fields_model(fs@);
    let mut k: usize = 0;
    while k < fs.len()
        invariant
            k <= fs@.len(),
            fsv == fields_model(fs@),
            fsv.len() == fs@.len(),
            out@ == old(out)@ + enc_fields(fsv.take(k as int)),
        decreases fs@.len() - k,
    {
        let ghost mid0 = out@;
        let id = tag_kind_id(&fs[k].1);
        out.push(id);
        push_be2(out, #[verifier::truncate] (fs[k].0.len() as u16));
        push_bytes(out, &fs[k].0);
        encode_payload(&fs[k].1, out);
        proof {
            assert(fsv[k as int] == (fs@[k as int].0@, tag_model(fs@[k as int].1)));
            assert(fsv.take(k + 1) =~= fsv.take(k as int).push(fsv[k as int]));
            lemma_enc_fields_push(fsv.take(k as int), fsv[k as int].0, fsv[k as int].1);
            assert(mid0 + seq![id] + be2(fs@[k as int].0@.len() as u16) + fs@[k as int].0@
                + enc_payload(tag_model(fs@[k as int].1)) =~= old(out)@ + enc_fields(fsv.take(
                k + 1,
            )));
        }
        k = k + 1;
    }
    proof {
        assert(fsv.take(fsv.len() as int) =~= fsv);
    }
}

/// Encodes a whole document: the root compound with an empty name.
/// Inverse of `decode_document` up to key-to-value content.
pub fn encode_document(d: &Doc) -> (r: Vec<u8>)
    ensures
        r@ == enc_doc(fields_model(d@)),
{
    let mut out: Vec<u8> = Vec::new();
    out.push(10u8);
    out.push(0u8);
    out.push(0u8);
    encode_fields(d, &mut out);
    out.push(0u8);
    assert(out@ =~= enc_doc(fields_model(d@)));
    out
}

// ---------------------------------------------------------------------
// Decoding.
// ---------------------------------------------------------------------

fn decode_u32s(cnt: u32, s: &Vec<u8>, i: usize) -> (r: Vec<u32>)
    requires
        i + 4 * (cnt as int) <= s@.len(),
    ensures
        r@ == dec_u32s(cnt as int, s@.skip(i as int)),
    decreases cnt,
{
    let n = s.len();
    if cnt == 0 {
        let r: Vec<u32> = Vec::new();
        assert(r@ =~= dec_u32s(0, s@.skip(i as int)));
        r
    } else {
        let x = read_u32(s, i);
        let mut rest = decode_u32s(cnt - 1, s, i + 4);
        let ghost grest = rest@;
        rest.insert(0, x);
        proof {
            assert(s@.skip(i as int).skip(4) =~= s@.skip(i + 4));
            assert(grest.insert(0, x) =~= seq![x] + grest);
            assert(rest@ =~= dec_u32s(cnt as int, s@.skip(i as int)));
        }
        rest
    }
}

fn decode_u64s(cnt: u32, s: &Vec<u8>, i: usize) -> (r: Vec<u64>)
    requires
        i + 8 * (cnt as int) <= s@.len(),
    ensures
        r@ == dec_u64s(cnt as int, s@.skip(i as int)),
    decreases cnt,
{
    let n = s.len();
    if cnt == 0 {
        let r: Vec<u64> = Vec::new();
        assert(r@ =~= dec_u64s(0, s@.skip(i as int)));
        r
    } else {
        let x = read_u64(s, i);
        let mut rest = decode_u64s(cnt - 1, s, i + 8);
        let ghost grest = rest@;
        rest.insert(0, x);
        proof {
            assert(s@.skip(i as int).skip(8) =~= s@.skip(i + 8));
            assert(grest.insert(0, x) =~= seq![x] + grest);
            assert(rest@ =~= dec_u64s(cnt as int, s@.skip(i as int)));
        }
        rest
    }
}

/// Decodes one payload of the given kind starting at `i`; on success
/// returns the value and the index just past it.
#[verifier::rlimit(60)]
fn decode_payload(id: u8, s: &Vec<u8>, i: usize) -> (r: Result<(Tag, usize), ToolError>)
    requires
        i <= s@.len(),
    ensures
        match r {
            Ok(tj) => i <= tj.1 <= s@.len() && dec_payload(id, s@.skip(i as int)) == Some(
                (tj.0@, tj.1 - i),
            ),
            Err(e) => e == ToolError::SchemaError && dec_payload(id, s@.skip(i as int)) is None,
        },
    decreases s@.len() - i, 1int, 0int,
{
    let n = s.len();
    let ghost su = s@.skip(i as int);
    if id == 1 {
        if n - i >= 1 {
            assert(su[0] == s@[i as int]);
            Ok((Tag::Byte(s[i]), i + 1))
        } else {
            Err(ToolError::SchemaError)
        }
    } else if id == 2 {
        if n - i >= 2 {
            Ok((Tag::Short(read_u16(s, i)), i + 2))
        } else {
            Err(ToolError::SchemaError)
        }
    } else if id == 3 {
        if n - i >= 4 {
            Ok((Tag::Int(read_u32(s, i)), i + 4))
        } else {
            Err(ToolError::SchemaError)
        }
    } else if id == 4 {
        if n - i >= 8 {
            Ok((Tag::Long(read_u64(s, i)), i + 8))
        } else {
            Err(ToolError::SchemaError)
        }
    } else if id == 5 {
        if n - i >= 4 {
            Ok((Tag::Float(read_u32(s, i)), i + 4))
        } else {
            Err(ToolError::SchemaError)
        }
    } else if id == 6 {
        if n - i >= 8 {
            Ok((Tag::Double(read_u64(s, i)), i + 8))
        } else {
            Err(ToolError::SchemaError)
        }
    } else if id == 7 {
        if n - i >= 4 {
            let ln = read_u32(s, i);
            if ln <= 0x7FFF_FFFFu32 {
                let lu = ln as usize;
                if lu <= n - i - 4 {
                    let v = copy_range(s, i + 4, i + 4 + lu);
                    proof {
                        assert(su.subrange(4, 4 + ln as int) =~= s@.subrange(
                            i + 4,
                            i + 4 + ln as int,
                        ));
                    }
                    Ok((Tag::ByteArray(v), i + 4 + lu))
                } else {
                    Err(ToolError::SchemaError)
                }
            } else {
                Err(ToolError::SchemaError)
            }
        } else {
            Err(ToolError::SchemaError)
        }
    } else if id == 8 {
        if n - i >= 2 {
            let ln = read_u16(s, i);
            let lu = ln as usize;
            if lu <= n - i - 2 {
                let v = copy_range(s, i + 2, i + 2 + lu);
                proof {
                    assert(su.subrange(2, 2 + ln as int) =~= s@.subrange(i + 2, i + 2 + ln as int));
                }
                Ok((Tag::Str(v), i + 2 + lu))
            } else {
                Err(ToolError::SchemaError)
            }
        } else {
            Err(ToolError::SchemaError)
        }
    } else if id == 9 {
        if n - i >= 5 {
            let eid = s[i];
            let cnt = read_u32(s, i + 1);
            proof {
                assert(su[0] == s@[i as int]);
                assert(su.skip(1) =~= s@.skip(i + 1));
                assert(su.skip(5) =~= s@.skip(i + 5));
            }
            if cnt <= 0x7FFF_FFFFu32 {
                match decode_tags(eid, cnt, s, i + 5) {
                    Ok((es, j)) => Ok((Tag::List(es), j)),
                    Err(e) => Err(e),
                }
            } else {
                Err(ToolError::SchemaError)
            }
        } else {
            Err(ToolError::SchemaError)
        }
    } else if id == 10 {
        match decode_fields(s, i) {
            Ok((fs, j)) => Ok((Tag::Compound(fs), j)),
            Err(e) => Err(e),
        }
    } else if id == 11 {
        if n - i >= 4 {
            let ln = read_u32(s, i);
            if ln <= 0x7FFF_FFFFu32 && (ln as u64) * 4 <= (n - i - 4) as u64 {
                let lu = ln as usize;
                let v = decode_u32s(ln, s, i + 4);
                proof {
                    assert(su.skip(4) =~= s@.skip(i + 4));
                }
                Ok((Tag::IntArray(v), i + 4 + 4 * lu))
            } else {
                Err(ToolError::SchemaError)
            }
        } else {
            Err(ToolError::SchemaError)
        }
    } else if id == 12 {
        if n - i >= 4 {
            let ln = read_u32(s, i);
            if ln <= 0x7FFF_FFFFu32 && (ln as u64) * 8 <= (n - i - 4) as u64 {
                let lu = ln as usize;
                let v = decode_u64s(ln, s, i + 4);
                proof {
                    assert(su.skip(4) =~= s@.skip(i + 4));
                }
                Ok((Tag::LongArray(v), i + 4 + 8 * lu))
            } else {
                Err(ToolError::SchemaError)
            }
        } else {
            Err(ToolError::SchemaError)
        }
    } else {
        Err(ToolError::SchemaError)
    }
}

/// Decodes `cnt` payloads of one kind, one after the other.
#[verifier::rlimit(100)]
fn decode_tags(id: u8, cnt: u32, s: &Vec<u8>, i: usize) -> (r: Result<(Vec<Tag>, usize), ToolError>)
    requires
        i <= s@.len(),
    ensures
        match r {
            Ok(tj) => i <= tj.1 <= s@.len() && dec_tags(id, cnt as int, s@.skip(i as int))
                == Some((tags_model(tj.0@), tj.1 - i)),
            Err(e) => e == ToolError::SchemaError && dec_tags(id, cnt as int, s@.skip(i as int))
                is None,
        },
    decreases s@.len() - i, 2int, cnt,
{
    if cnt == 0 {
        let v: Vec<Tag> = Vec::new();
        assert(tags_model(v@) =~= Seq::<TagV>::empty());
        Ok((v, i))
    } else {
        match decode_payload(id, s, i) {
            Ok((t, j1)) => {
                proof {
                    assert(s@.skip(i as int).skip(j1 - i) =~= s@.skip(j1 as int));
                }
                match decode_tags(id, cnt - 1, s, j1) {
                    Ok((es, j2)) => {
                        let ghost tv = t@;
                        let ghost ges = es@;
                        let mut es2 = es;
                        es2.insert(0, t);
                        proof {
                            let whole = seq![tv] + tags_model(ges);
                            assert(es2@ =~= seq![t] + ges);
                            assert((seq![t] + ges).drop_first() =~= ges);
                            assert(tags_model(es2@) =~= whole);
                        }
                        Ok((es2, j2))
                    },
                    Err(e) => Err(e),
                }
            },
            Err(e) => Err(e),
        }
    }
}

/// Decodes named fields up to and including the end marker.
#[verifier::rlimit(60)]
fn decode_fields(s: &Vec<u8>, i: usize) -> (r: Result<(Doc, usize), ToolError>)
    requires
        i <= s@.len(),
    ensures
        match r {
            Ok(tj) => i <= tj.1 <= s@.len() && dec_fields(s@.skip(i as int)) == Some(
                (fields_model(tj.0@), tj.1 - i),
            ),
            Err(e) => e == ToolError::SchemaError && dec_fields(s@.skip(i as int)) is None,
        },
    decreases s@.len() - i, 0int, 0int,
{
    let n = s.len();
    let ghost su = s@.skip(i as int);
    if i >= n {
        Err(ToolError::SchemaError)
    } else if s[i] == 0 {
        let v: Doc = Vec::new();
        proof {
            assert(su[0] == s@[i as int]);
            assert(fields_model(v@) =~= Seq::<(Seq<u8>, TagV)>::empty());
        }
        Ok((v, i + 1))
    } else if n - i >= 3 {
        let nl = read_u16(s, i + 1);
        let nlu = nl as usize;
        proof {
            assert(su[0] == s@[i as int]);
            assert(su.skip(1) =~= s@.skip(i + 1));
        }
        if nlu <= n - i - 3 {
            let name = copy_range(s, i + 3, i + 3 + nlu);
            proof {
                assert(su.skip(3 + nl as int) =~= s@.skip(i + 3 + nlu));
                assert(su.subrange(3, 3 + nl as int) =~= s@.subrange(i + 3, i + 3 + nl as int));
            }
            match decode_payload(s[i], s, i + 3 + nlu) {
                Ok((t, j1)) => {
                    proof {
                        assert(su.skip(j1 - i) =~= s@.skip(j1 as int));
                    }
                    match decode_fields(s, j1) {
                        Ok((fs, j2)) => {
                            let ghost nv = name@;
                            let ghost tv = t@;
                            let ghost gfs = fs@;
                            let mut fs2 = fs;
                            fs2.insert(0, (name, t));
                            proof {
                                assert(gfs.subrange(0, gfs.len() as int) =~= gfs);
                                assert(fs2@.drop_first() =~= gfs);
                                assert(fs2@[0].0@ == nv);
                                assert(tag_model(fs2@[0].1) == tv);
                                assert(fields_model(fs2@) =~= seq![(nv, tv)] + fields_model(
                                    gfs,
                                ));
                            }
                            Ok((fs2, j2))
                        },
                        Err(e) => Err(e),
                    }
                },
                Err(e) => Err(e),
            }
        } else {
            Err(ToolError::SchemaError)
        }
    } else {
        Err(ToolError::SchemaError)
    }
}

/// Decodes a whole document: expects the root compound marker, reads and
/// discards the root name, and requires that the fields span the rest of
/// the input exactly. Fails with `SchemaError` on structurally invalid
/// input.
pub fn decode_document(bytes: &Vec<u8>) -> (r: Result<Doc, ToolError>)
    ensures
        match r {
            Ok(d) => dec_doc(bytes@) == Some(fields_model(d@)),
            Err(e) => e == ToolError::SchemaError && dec_doc(bytes@) is None,
        },
{
    let n = bytes.len();
    if n >= 3 {
        if bytes[0] == 10 {
            let nl = read_u16(bytes, 1);
            proof {
                assert(bytes@.skip(1int) =~= bytes@.skip(1));
            }
            let nlu = nl as usize;
            if nlu <= n - 3 {
                match decode_fields(bytes, 3 + nlu) {
                    Ok((fs, j)) => {
                        if j == n {
                            Ok(fs)
                        } else {
                            Err(ToolError::SchemaError)
                        }
                    },
                    Err(e) => Err(e),
                }
            } else {
                Err(ToolError::SchemaError)
            }
        } else {
            Err(ToolError::SchemaError)
        }
    } else {
        Err(ToolError::SchemaError)
    }
}

} // verus!
