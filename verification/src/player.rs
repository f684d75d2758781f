use vstd::prelude::*;
use crate::errors::ToolError;
use crate::dat::{
    PlayerData, LevelDat, LevelDatV, player_from_doc, player_to_doc, level_from_doc,
    level_to_doc, player_of, level_of, player_doc, level_doc, merged_level, embedded_player,
    copy_level, level_put_player,
};
use crate::dat::copy_bytes;
use crate::nbt::{dec_doc, enc_doc};
use crate::wire::{decode_document, encode_document};

verus! {

broadcast use vstd::std_specs::vec::group_vec_axioms;

// ---------------------------------------------------------------------
// The two storage layouts behind one load/save shape.
//
// Neither accessor touches a file: each turns the raw bytes of its
// backing document into a player record and back. The unverified shell
// around the library reads and writes the files and the compression
// layer sits in the codec.
// ---------------------------------------------------------------------

/// "Local Player", the fixed display name of the embedded record.
pub open spec fn local_player_name() -> Seq<u8> {
    seq![76u8, 111u8, 99u8, 97u8, 108u8, 32u8, 80u8, 108u8, 97u8, 121u8, 101u8, 114u8]
}

pub fn local_player_name_vec() -> (r: Vec<u8>)
    ensures
        r@ == local_player_name(),
{
    let mut v: Vec<u8> = Vec::new();
    v.push(76u8);
    v.push(111u8);
    v.push(99u8);
    v.push(97u8);
    v.push(108u8);
    v.push(32u8);
    v.push(80u8);
    v.push(108u8);
    v.push(97u8);
    v.push(121u8);
    v.push(101u8);
    v.push(114u8);
    assert(v@ =~= local_player_name());
    v
}

/// The embedded layout: the player record lives inside the world
/// metadata document, which is retained between load and save.
pub struct SinglePlayer {
    name: Vec<u8>,
    path: Vec<u8>,
    level: Option<LevelDat>,
}

pub struct SinglePlayerV {
    pub name: Seq<u8>,
    pub path: Seq<u8>,
    pub level: Option<LevelDatV>,
}

impl View for SinglePlayer {
    type V = SinglePlayerV;

    closed spec fn view(&self) -> SinglePlayerV {
        SinglePlayerV {
            name: self.name@,
            path: self.path@,
            level: match self.level {
                Some(l) => Some(l@),
                None => None,
            },
        }
    }
}

impl SinglePlayer {
    pub fn new(name: Vec<u8>, path: Vec<u8>) -> (r: Self)
        ensures
            r@.name == name@,
            r@.path == path@,
            r@.level is None,
    {
        SinglePlayer { name, path, level: None }
    }

    /// The embedded record's identity is resolved locally, with no
    /// lookup: it is always the fixed local display name.
    pub fn from_path(path: Vec<u8>) -> (r: Result<Self, ToolError>)
        ensures
            match r {
                Ok(s) => s@.name == local_player_name() && s@.path == path@ && s@.level is None,
                Err(_) => false,
            },
    {
        Ok(Self::new(local_player_name_vec(), path))
    }

    /// Decodes the whole world metadata document, retains it, and
    /// hands out a copy of the nested player record.
    pub fn decode(&mut self, nbt: Vec<u8>) -> (r: Result<PlayerData, ToolError>)
        ensures
            match r {
                Ok(p) => {
                    &&& dec_doc(nbt@) is Some
                    &&& level_of(dec_doc(nbt@)->Some_0) is Some
                    &&& p@ == level_of(dec_doc(nbt@)->Some_0)->Some_0.data.player
                    &&& final(self)@.level == Some(level_of(dec_doc(nbt@)->Some_0)->Some_0)
                    &&& final(self)@.name == old(self)@.name
                    &&& final(self)@.path == old(self)@.path
                },
                Err(e) => {
                    &&& e == ToolError::SchemaError
                    &&& (dec_doc(nbt@) is None || level_of(dec_doc(nbt@)->Some_0) is None)
                    &&& final(self)@ == old(self)@
                },
            },
    {
        match decode_document(&nbt) {
            Ok(doc) => match level_from_doc(doc) {
                Ok(level) => {
                    let player = embedded_player(&level);
                    self.level = Some(level);
                    Ok(player)
                },
                Err(e) => Err(e),
            },
            Err(e) => Err(e),
        }
    }

    /// Merges a (mutated) player record back into the retained world
    /// document and encodes the whole document. The retained document
    /// stays as decoded, so a save can be repeated. Without a prior
    /// successful `decode` this is a usage error, `NotLoaded`.
    pub fn encode(&self, data: PlayerData) -> (r: Result<Vec<u8>, ToolError>)
        ensures
            match r {
                Ok(bytes) => {
                    &&& self@.level is Some
                    &&& bytes@ == enc_doc(level_doc(merged_level(self@.level->Some_0, data@)))
                },
                Err(e) => {
                    &&& e == ToolError::NotLoaded
                    &&& self@.level is None
                },
            },
    {
        match &self.level {
            Some(level) => {
                let merged = level_put_player(copy_level(level), data);
                let doc = level_to_doc(merged);
                Ok(encode_document(&doc))
            },
            None => Err(ToolError::NotLoaded),
        }
    }

    pub fn get_path(&self) -> (r: &Vec<u8>)
        ensures
            r@ == self@.path,
    {
        &self.path
    }

    pub fn get_name(&self) -> (r: &Vec<u8>)
        ensures
            r@ == self@.name,
    {
        &self.name
    }
}

/// The file-per-player layout: the record is the whole file, no state
/// is retained between load and save.
pub struct MultiPlayer {
    name: Vec<u8>,
    path: Vec<u8>,
}

pub struct MultiPlayerV {
    pub name: Seq<u8>,
    pub path: Seq<u8>,
}

impl View for MultiPlayer {
    type V = MultiPlayerV;

    closed spec fn view(&self) -> MultiPlayerV {
        MultiPlayerV { name: self.name@, path: self.path@ }
    }
}

impl MultiPlayer {
    pub fn new(name: Vec<u8>, path: Vec<u8>) -> (r: Self)
        ensures
            r@.name == name@,
            r@.path == path@,
    {
        MultiPlayer { name, path }
    }

    /// Builds the accessor for one per-player file. The display name is
    /// what the identity lookup for the file's identifier returned; a
    /// failed lookup never reaches this constructor, the caller
    /// surfaces it instead.
    pub fn from_path(path: Vec<u8>, name: Vec<u8>) -> (r: Result<Self, ToolError>)
        ensures
            match r {
                Ok(s) => s@.name == name@ && s@.path == path@,
                Err(_) => false,
            },
    {
        Ok(Self::new(name, path))
    }

    /// Decodes the file's own document directly as the player record,
    /// unchanged in shape.
    pub fn decode(&mut self, nbt: Vec<u8>) -> (r: Result<PlayerData, ToolError>)
        ensures
            match r {
                Ok(p) => {
                    &&& dec_doc(nbt@) is Some
                    &&& player_of(dec_doc(nbt@)->Some_0) == Some(p@)
                },
                Err(e) => {
                    &&& e == ToolError::SchemaError
                    &&& (dec_doc(nbt@) is None || player_of(dec_doc(nbt@)->Some_0) is None)
                },
            },
            final(self)@ == old(self)@,
    {
        match decode_document(&nbt) {
            Ok(doc) => player_from_doc(doc),
            Err(e) => Err(e),
        }
    }

    /// Encodes the record alone as the whole document.
    pub fn encode(&self, data: PlayerData) -> (r: Result<Vec<u8>, ToolError>)
        ensures
            match r {
                Ok(bytes) => bytes@ == enc_doc(player_doc(data@)),
                Err(_) => false,
            },
    {
        let doc = player_to_doc(data);
        Ok(encode_document(&doc))
    }

    pub fn get_path(&self) -> (r: &Vec<u8>)
        ensures
            r@ == self@.path,
    {
        &self.path
    }

    pub fn get_name(&self) -> (r: &Vec<u8>)
        ensures
            r@ == self@.name,
    {
        &self.name
    }
}

// ---------------------------------------------------------------------
// The save locator.
// ---------------------------------------------------------------------

/// Which storage layout backs a located record.
#[derive(Clone, Copy, Debug, PartialEq, Eq, Structural)]
pub enum StorageKind {
    Embedded,
    FilePerPlayer,
}

/// A located-but-not-yet-loaded player record: a path and the layout
/// behind it.
#[derive(Debug, PartialEq)]
pub struct Candidate {
    pub path: Vec<u8>,
    pub kind: StorageKind,
}

/// "level.dat", the world metadata file's name.
pub open spec fn level_dat_name() -> Seq<u8> {
    seq![108u8, 101u8, 118u8, 101u8, 108u8, 46u8, 100u8, 97u8, 116u8]
}

/// "playerdata", the per-player subdirectory's name.
pub open spec fn playerdata_name() -> Seq<u8> {
    seq![112u8, 108u8, 97u8, 121u8, 101u8, 114u8, 100u8, 97u8, 116u8, 97u8]
}

pub open spec fn is_hex_digit(c: u8) -> bool {
    (48 <= c <= 57) || (97 <= c <= 102) || (65 <= c <= 70)
}

/// The canonical shape of a per-player file name: five hyphen-separated
/// hexadecimal groups of lengths 8-4-4-4-12, the third group starting
/// with the version digit `4`, the fourth with a variant digit in
/// {8, 9, a, b} of either case, and the `.dat` extension.
pub open spec fn is_candidate_name(s: Seq<u8>) -> bool {
    &&& s.len() == 40
    &&& (forall|i: int|
        (0 <= i < 36 && i != 8 && i != 13 && i != 18 && i != 23) ==> is_hex_digit(
            #[trigger] s[i],
        ))
    &&& s[8] == 45 && s[13] == 45 && s[18] == 45 && s[23] == 45
    &&& s[14] == 52
    &&& (s[19] == 56 || s[19] == 57 || s[19] == 97 || s[19] == 98 || s[19] == 65 || s[19] == 66)
    &&& s[36] == 46 && s[37] == 100 && s[38] == 97 && s[39] == 116
}

fn hex_digit(c: u8) -> (r: bool)
    ensures
        r == is_hex_digit(c),
{
    (48 <= c && c <= 57) || (97 <= c && c <= 102) || (65 <= c && c <= 70)
}

/// Whether a file name names a per-player record.
pub fn is_player_file_name(name: &Vec<u8>) -> (r: bool)
    ensures
        r == is_candidate_name(name@),
{
    if name.len() != 40 {
        return false;
    }
    if !(name[8] == 45 && name[13] == 45 && name[18] == 45 && name[23] == 45) {
        return false;
    }
    if name[14] != 52 {
        return false;
    }
    let v = name[19];
    if !(v == 56 || v == 57 || v == 97 || v == 98 || v == 65 || v == 66) {
        return false;
    }
    if !(name[36] == 46 && name[37] == 100 && name[38] == 97 && name[39] == 116) {
        return false;
    }
    let mut i: usize = 0;
    while i < 36
        invariant
            i <= 36,
            name@.len() == 40,
            forall|j: int|
                (0 <= j < i && j != 8 && j != 13 && j != 18 && j != 23) ==> is_hex_digit(
                    #[trigger] name@[j],
                ),
        decreases 36 - i,
    {
        if !(i == 8 || i == 13 || i == 18 || i == 23) {
            if !hex_digit(name[i]) {
                return false;
            }
        }
        i = i + 1;
    }
    true
}

/// A path below a directory: the directory, a separator, the name.
pub open spec fn joined(dir: Seq<u8>, name: Seq<u8>) -> Seq<u8> {
    dir + seq![47u8] + name
}

/// Joins a directory and a name with the path separator.
pub fn path_join(dir: &Vec<u8>, name: &Vec<u8>) -> (r: Vec<u8>)
    ensures
        r@ == joined(dir@, name@),
{
    let mut r = copy_bytes(dir);
    r.push(47u8);
    let mut rest = copy_bytes(name);
    r.append(&mut rest);
    proof {
        assert(r@ =~= joined(dir@, name@));
    }
    r
}

pub open spec fn cands_model(cs: Seq<Candidate>) -> Seq<(Seq<u8>, StorageKind)>
    decreases cs,
{
    if cs.len() == 0 {
        Seq::empty()
    } else {
        seq![(cs[0].path@, cs[0].kind)] + cands_model(cs.drop_first())
    }
}

/// The per-player candidates among a directory's file names, in the
/// order given.
pub open spec fn file_cands(world: Seq<u8>, names: Seq<Vec<u8>>) -> Seq<(Seq<u8>, StorageKind)>
    decreases names,
{
    if names.len() == 0 {
        Seq::empty()
    } else if is_candidate_name(names[0]@) {
        seq![
            (
                joined(world, joined(playerdata_name(), names[0]@)),
                StorageKind::FilePerPlayer,
            ),
        ] + file_cands(world, names.drop_first())
    } else {
        file_cands(world, names.drop_first())
    }
}

fn file_cands_from(world: &Vec<u8>, names: &Vec<Vec<u8>>, i: usize) -> (r: Vec<Candidate>)
    requires
        i <= names@.len(),
    ensures
        cands_model(r@) == file_cands(world@, names@.skip(i as int)),
    decreases names@.len() - i,
{
    if i >= names.len() {
        let r: Vec<Candidate> = Vec::new();
        proof {
            assert(cands_model(r@) =~= file_cands(world@, names@.skip(i as int)));
        }
        r
    } else {
        let rest = file_cands_from(world, names, i + 1);
        proof {
            assert(names@.skip(i as int)[0] == names@[i as int]);
            assert(names@.skip(i as int).drop_first() =~= names@.skip(i + 1));
        }
        if is_player_file_name(&names[i]) {
            let pd = playerdata_dir_vec();
            let inner = path_join(&pd, &names[i]);
            let path = path_join(world, &inner);
            let ghost grest = rest@;
            let mut r = rest;
            r.insert(0, Candidate { path, kind: StorageKind::FilePerPlayer });
            proof {
                assert(grest.subrange(0, grest.len() as int) =~= grest);
                assert(r@.drop_first() =~= grest);
                assert(cands_model(r@) =~= seq![(r@[0].path@, r@[0].kind)] + cands_model(grest));
                assert(cands_model(r@) =~= file_cands(world@, names@.skip(i as int)));
            }
            r
        } else {
            rest
        }
    }
}

fn playerdata_dir_vec() -> (r: Vec<u8>)
    ensures
        r@ == playerdata_name(),
{
    let mut v: Vec<u8> = Vec::new();
    v.push(112u8);
    v.push(108u8);
    v.push(97u8);
    v.push(121u8);
    v.push(101u8);
    v.push(114u8);
    v.push(100u8);
    v.push(97u8);
    v.push(116u8);
    v.push(97u8);
    assert(v@ =~= playerdata_name());
    v
}

fn level_dat_name_vec() -> (r: Vec<u8>)
    ensures
        r@ == level_dat_name(),
{
    let mut v: Vec<u8> = Vec::new();
    v.push(108u8);
    v.push(101u8);
    v.push(118u8);
    v.push(101u8);
    v.push(108u8);
    v.push(46u8);
    v.push(100u8);
    v.push(97u8);
    v.push(116u8);
    assert(v@ =~= level_dat_name());
    v
}

/// Enumerates the candidate player records of a world directory: the
/// embedded record's path first, then one per-player candidate for
/// each given file name that has the canonical identifier shape, in
/// the order the names are given. The caller hands the names in a
/// stable order (sorted) to make the sequence deterministic for a
/// given directory snapshot.
pub fn get_all_player(world: &Vec<u8>, names: &Vec<Vec<u8>>) -> (r: Vec<Candidate>)
    ensures
        cands_model(r@) == seq![
            (joined(world@, level_dat_name()), StorageKind::Embedded),
        ] + file_cands(world@, names@),
{
    let rest = file_cands_from(world, names, 0);
    let ln = level_dat_name_vec();
    let path = path_join(world, &ln);
    let ghost grest = rest@;
    let mut r = rest;
    r.insert(0, Candidate { path, kind: StorageKind::Embedded });
    proof {
        assert(names@.skip(0) =~= names@);
        assert(grest.subrange(0, grest.len() as int) =~= grest);
        assert(r@.drop_first() =~= grest);
        assert(cands_model(r@) =~= seq![(r@[0].path@, r@[0].kind)] + cands_model(grest));
        assert(cands_model(r@) =~= seq![
            (joined(world@, level_dat_name()), StorageKind::Embedded),
        ] + file_cands(world@, names@));
    }
    r
}

// ---------------------------------------------------------------------
// Ordering the directory snapshot: candidates are enumerated in
// lexicographic file-name order, so the sequence is stable for a given
// snapshot.
// ---------------------------------------------------------------------

/// Lexicographic order on byte strings.
pub open spec fn lex_leq(a: Seq<u8>, b: Seq<u8>) -> bool
    decreases a.len(),
{
    if a.len() == 0 {
        true
    } else if b.len() == 0 {
        false
    } else if a[0] < b[0] {
        true
    } else if a[0] > b[0] {
        false
    } else {
        lex_leq(a.drop_first(), b.drop_first())
    }
}

pub proof fn lemma_lex_total(a: Seq<u8>, b: Seq<u8>)
    ensures
        lex_leq(a, b) || lex_leq(b, a),
    decreases a.len(),
{
    if a.len() > 0 && b.len() > 0 && a[0] == b[0] {
        lemma_lex_total(a.drop_first(), b.drop_first());
    }
}

pub proof fn lemma_lex_trans(a: Seq<u8>, b: Seq<u8>, c: Seq<u8>)
    requires
        lex_leq(a, b),
        lex_leq(b, c),
    ensures
        lex_leq(a, c),
    decreases a.len(),
{
    if a.len() > 0 && b.len() > 0 && c.len() > 0 && a[0] == b[0] && b[0] == c[0] {
        lemma_lex_trans(a.drop_first(), b.drop_first(), c.drop_first());
    }
}

/// Byte-string comparison in lexicographic order.
pub fn lex_le(a: &Vec<u8>, b: &Vec<u8>) -> (r: bool)
    ensures
        r == lex_leq(a@, b@),
{
    let mut i: usize = 0;
    proof {
        assert(a@.skip(0) =~= a@);
        assert(b@.skip(0) =~= b@);
    }
    while i < a.len() && i < b.len()
        invariant
            i <= a@.len(),
            i <= b@.len(),
            lex_leq(a@, b@) == lex_leq(a@.skip(i as int), b@.skip(i as int)),
        decreases a@.len() - i,
    {
        proof {
            assert(a@.skip(i as int)[0] == a@[i as int]);
            assert(b@.skip(i as int)[0] == b@[i as int]);
            assert(a@.skip(i as int).drop_first() =~= a@.skip(i + 1));
            assert(b@.skip(i as int).drop_first() =~= b@.skip(i + 1));
        }
        if a[i] < b[i] {
            return true;
        }
        if a[i] > b[i] {
            return false;
        }
        i = i + 1;
    }
    i >= a.len()
}

pub open spec fn sorted_names(s: Seq<Vec<u8>>) -> bool {
    forall|i: int, j: int| 0 <= i < j < s.len() ==> lex_leq(#[trigger] s[i]@, #[trigger] s[j]@)
}

/// Inserts one name into a sorted run, keeping it sorted and keeping
/// exactly the same names otherwise.
fn insert_sorted(v: Vec<Vec<u8>>, x: Vec<u8>) -> (r: Vec<Vec<u8>>)
    requires
        sorted_names(v@),
    ensures
        sorted_names(r@),
        r@.to_multiset() == v@.to_multiset().insert(x),
    decreases v@.len(),
{
    broadcast use vstd::seq_lib::group_to_multiset_ensures;

    let ghost gv = v@;
    let ghost gx = x@;
    let mut d = v;
    if d.len() == 0 {
        let mut r: Vec<Vec<u8>> = Vec::new();
        r.push(x);
        proof {
            assert(r@ =~= Seq::<Vec<u8>>::empty().push(x));
            assert(r@.to_multiset() =~= gv.to_multiset().insert(x));
        }
        r
    } else {
        let keep_head = lex_le(&d[0], &x);
        if keep_head {
            let f = d.remove(0);
            proof {
                assert(d@ =~= gv.drop_first());
                assert(forall|i: int, j: int|
                    0 <= i < j < d@.len() ==> lex_leq(#[trigger] d@[i]@, #[trigger] d@[j]@));
            }
            let ghost gf = f@;
            let r0 = insert_sorted(d, x);
            let ghost gr0 = r0@;
            let mut r = r0;
            r.insert(0, f);
            proof {
                assert(r@.to_multiset() =~= gv.to_multiset().insert(x));
                assert forall|k: int| 1 <= k < r@.len() implies lex_leq(r@[0]@, #[trigger] r@[k]@) by {
                    let e = r@[k];
                    assert(gr0[k - 1] == e);
                    assert(gr0.to_multiset().count(e) > 0);
                    if e == x {
                        assert(lex_leq(gf, e@));
                    } else {
                        assert(gv.drop_first().to_multiset().count(e) > 0);
                        assert(gv.drop_first().contains(e));
                        let m = choose|m: int|
                            0 <= m < gv.drop_first().len() && gv.drop_first()[m] == e;
                        assert(gv[m + 1] == e);
                        assert(lex_leq(gv[0]@, gv[m + 1]@));
                    }
                };
                assert(forall|i: int, j: int|
                    1 <= i < j < r@.len() ==> lex_leq(#[trigger] r@[i]@, #[trigger] r@[j]@));
            }
            r
        } else {
            proof {
                lemma_lex_total(d@[0]@, gx);
            }
            let ghost gd = d@;
            let mut r = d;
            r.insert(0, x);
            proof {
                assert(r@.to_multiset() =~= gv.to_multiset().insert(x));
                assert forall|k: int| 1 <= k < r@.len() implies lex_leq(r@[0]@, #[trigger] r@[k]@) by {
                    assert(r@[k] == gd[k - 1]);
                    if k > 1 {
                        assert(lex_leq(gd[0]@, gd[k - 1]@));
                        lemma_lex_trans(gx, gd[0]@, gd[k - 1]@);
                    }
                };
                assert(forall|i: int, j: int|
                    1 <= i < j < r@.len() ==> lex_leq(#[trigger] r@[i]@, #[trigger] r@[j]@));
            }
            r
        }
    }
}

/// Sorts a directory snapshot's file names lexicographically; the very
/// same names come back, in order.
pub fn sort_names(names: Vec<Vec<u8>>) -> (r: Vec<Vec<u8>>)
    ensures
        sorted_names(r@),
        r@.to_multiset() == names@.to_multiset(),
    decreases names@.len(),
{
    broadcast use vstd::seq_lib::group_to_multiset_ensures;

    let ghost gv = names@;
    let mut d = names;
    if d.len() == 0 {
        d
    } else {
        let f = d.remove(0);
        let rest = sort_names(d);
        let r = insert_sorted(rest, f);
        proof {
            assert(r@.to_multiset() =~= gv.to_multiset());
        }
        r
    }
}

} // verus!
