use vstd::prelude::*;
use crate::errors::ToolError;
use crate::dat::{PlayerData, PlayerDataV};
use crate::wire::copy_range;

verus! {

broadcast use vstd::std_specs::vec::group_vec_axioms;

// ---------------------------------------------------------------------
// The orchestrator's decisions: what to write where. All I/O around
// them is the unverified shell's.
// ---------------------------------------------------------------------

/// "minecraft:overworld", the default dimension identifier.
pub open spec fn default_dimension() -> Seq<u8> {
    seq![
        109u8, 105u8, 110u8, 101u8, 99u8, 114u8, 97u8, 102u8, 116u8, 58u8, 111u8, 118u8,
        101u8, 114u8, 119u8, 111u8, 114u8, 108u8, 100u8,
    ]
}

pub fn default_dimension_vec() -> (r: Vec<u8>)
    ensures
        r@ == default_dimension(),
{
    let mut v: Vec<u8> = Vec::new();
    v.push(109u8);
    v.push(105u8);
    v.push(110u8);
    v.push(101u8);
    v.push(99u8);
    v.push(114u8);
    v.push(97u8);
    v.push(102u8);
    v.push(116u8);
    v.push(58u8);
    v.push(111u8);
    v.push(118u8);
    v.push(101u8);
    v.push(114u8);
    v.push(119u8);
    v.push(111u8);
    v.push(114u8);
    v.push(108u8);
    v.push(100u8);
    assert(v@ =~= default_dimension());
    v
}

/// The position a run moves the player to: the override if one was
/// given, else the world spawn.
pub open spec fn chosen_position(
    override_pos: Option<(u64, u64, u64)>,
    spawn: (u64, u64, u64),
) -> (u64, u64, u64) {
    match override_pos {
        Some(p) => p,
        None => spawn,
    }
}

/// The dimension a run moves the player to: the override if one was
/// given, else the default overworld identifier.
pub open spec fn chosen_dimension(override_dim: Option<Seq<u8>>) -> Seq<u8> {
    match override_dim {
        Some(d) => d,
        None => default_dimension(),
    }
}

/// Applies one run's decision to a loaded record: replaces position
/// and dimension as chosen, and touches nothing else.
pub fn plan_move(
    data: PlayerData,
    override_pos: Option<(u64, u64, u64)>,
    spawn: (u64, u64, u64),
    override_dim: Option<Vec<u8>>,
) -> (r: PlayerData)
    ensures
        r@ == (PlayerDataV {
            pos: chosen_position(override_pos, spawn),
            dimension: chosen_dimension(
                match override_dim {
                    Some(d) => Some(d@),
                    None => None,
                },
            ),
            other: data@.other,
        }),
{
    let pos = match override_pos {
        Some(p) => p,
        None => spawn,
    };
    let dim = match override_dim {
        Some(d) => d,
        None => default_dimension_vec(),
    };
    let mut d = data;
    d.set_position_dimension(pos, dim);
    d
}

// ---------------------------------------------------------------------
// Backup-safe persistence, as a plan over a model of the file store.
// The shell executes the two steps in order: copy the target to the
// backup path, then overwrite the target.
// ---------------------------------------------------------------------

/// "dat_pm_old", the backup extension that replaces the original's.
pub open spec fn backup_extension() -> Seq<u8> {
    seq![100u8, 97u8, 116u8, 95u8, 112u8, 109u8, 95u8, 111u8, 108u8, 100u8]
}

/// Whether a path ends in the ".dat" extension.
pub open spec fn ends_dat(p: Seq<u8>) -> bool {
    p.len() >= 4 && p[p.len() - 4] == 46 && p[p.len() - 3] == 100 && p[p.len() - 2] == 97
        && p[p.len() - 1] == 116
}

/// The sibling backup path: the "dat" extension replaced by the backup
/// extension.
pub open spec fn backup_path_of(p: Seq<u8>) -> Seq<u8> {
    p.take(p.len() - 3) + backup_extension()
}

/// Computes the backup path beside a record file.
pub fn backup_path(p: &Vec<u8>) -> (r: Vec<u8>)
    requires
        ends_dat(p@),
    ensures
        r@ == backup_path_of(p@),
{
    let mut r: Vec<u8> = Vec::new();
    let mut k: usize = 0;
    let stem = p.len() - 3;
    while k < stem
        invariant
            k <= stem == p@.len() - 3,
            r@ == p@.take(k as int),
        decreases stem - k,
    {
        r.push(p[k]);
        proof {
            assert(p@.take(k + 1) =~= p@.take(k as int).push(p@[k as int]));
        }
        k = k + 1;
    }
    r.push(100u8);
    r.push(97u8);
    r.push(116u8);
    r.push(95u8);
    r.push(112u8);
    r.push(109u8);
    r.push(95u8);
    r.push(111u8);
    r.push(108u8);
    r.push(100u8);
    proof {
        assert(r@ =~= backup_path_of(p@));
    }
    r
}

/// A file store after the backup copy alone: the backup path holds the
/// target's current content.
pub open spec fn after_backup(
    fs: Map<Seq<u8>, Seq<u8>>,
    target: Seq<u8>,
) -> Map<Seq<u8>, Seq<u8>> {
    fs.insert(backup_path_of(target), fs[target])
}

/// A file store after a whole successful save: the backup copy, then
/// the destructive write of the new content.
pub open spec fn after_save(
    fs: Map<Seq<u8>, Seq<u8>>,
    target: Seq<u8>,
    data: Seq<u8>,
) -> Map<Seq<u8>, Seq<u8>> {
    after_backup(fs, target).insert(target, data)
}

/// The backup-before-write law. After a successful save the backup
/// path holds exactly the pre-save content of the target, and the
/// target the new content; after a save that failed between the copy
/// and the write, the backup already holds the pre-save content. The
/// two paths differ, so the write cannot disturb the backup.
pub proof fn lemma_backup_before_write(
    fs: Map<Seq<u8>, Seq<u8>>,
    target: Seq<u8>,
    data: Seq<u8>,
)
    requires
        fs.dom().contains(target),
        ends_dat(target),
    ensures
        backup_path_of(target) != target,
        after_save(fs, target, data)[backup_path_of(target)] == fs[target],
        after_save(fs, target, data)[target] == data,
        after_backup(fs, target)[backup_path_of(target)] == fs[target],
        after_backup(fs, target)[target] == fs[target],
{
    let b = backup_path_of(target);
    assert(b.len() == target.len() + 7);
}

// ---------------------------------------------------------------------
// The coordinate override: three components separated by commas and/or
// whitespace. The split into exactly three components is decided here;
// whether each component is a number is for the shell's numeric parser.
// ---------------------------------------------------------------------

pub open spec fn is_space(c: u8) -> bool {
    c == 32 || c == 9 || c == 10 || c == 13 || c == 11 || c == 12
}

/// What separates coordinate components: a comma or whitespace.
pub open spec fn is_sep(c: u8) -> bool {
    c == 44 || is_space(c)
}

/// The leading component: everything before the first separator.
pub open spec fn head_tok(s: Seq<u8>) -> Seq<u8>
    decreases s,
{
    if s.len() == 0 {
        Seq::empty()
    } else if is_sep(s[0]) {
        Seq::empty()
    } else {
        seq![s[0]] + head_tok(s.drop_first())
    }
}

/// The suffix starting at the first separator, or empty when there is
/// none.
pub open spec fn tail_from_sep(s: Seq<u8>) -> Seq<u8>
    decreases s,
{
    if s.len() == 0 {
        Seq::empty()
    } else if is_sep(s[0]) {
        s
    } else {
        tail_from_sep(s.drop_first())
    }
}

/// The components of the input: maximal nonempty runs of
/// non-separator bytes, in order.
pub open spec fn tokens(s: Seq<u8>) -> Seq<Seq<u8>>
    decreases s.len(),
{
    if s.len() == 0 {
        Seq::empty()
    } else if is_sep(s[0]) {
        tokens(s.drop_first())
    } else if tail_from_sep(s).len() < s.len() {
        seq![head_tok(s)] + tokens(tail_from_sep(s))
    } else {
        seq![head_tok(s)]
    }
}

/// Inside a run of non-separator bytes ending at the next separator or
/// at the end, the leading component is exactly that run.
proof fn lemma_head_tok(s: Seq<u8>, i: int, j: int)
    requires
        0 <= i <= j <= s.len(),
        forall|k: int| i <= k < j ==> !is_sep(#[trigger] s[k]),
        j == s.len() || is_sep(s[j]),
    ensures
        head_tok(s.skip(i)) == s.subrange(i, j),
        tail_from_sep(s.skip(i)) == s.skip(j),
    decreases j - i,
{
    if i == j {
        if i == s.len() {
            assert(head_tok(s.skip(i)) =~= s.subrange(i, j));
            assert(tail_from_sep(s.skip(i)) =~= s.skip(j));
        } else {
            assert(s.skip(i)[0] == s[i]);
            assert(head_tok(s.skip(i)) =~= s.subrange(i, j));
            assert(tail_from_sep(s.skip(i)) =~= s.skip(j));
        }
    } else {
        assert(s.skip(i)[0] == s[i]);
        assert(s.skip(i).drop_first() =~= s.skip(i + 1));
        lemma_head_tok(s, i + 1, j);
        assert(head_tok(s.skip(i)) =~= s.subrange(i, j));
    }
}

pub open spec fn token_views(v: Seq<Vec<u8>>) -> Seq<Seq<u8>>
    decreases v,
{
    if v.len() == 0 {
        Seq::empty()
    } else {
        seq![v[0]@] + token_views(v.drop_first())
    }
}

proof fn lemma_token_views_len(v: Seq<Vec<u8>>)
    ensures
        token_views(v).len() == v.len(),
    decreases v,
{
    if v.len() > 0 {
        lemma_token_views_len(v.drop_first());
    }
}

proof fn lemma_token_views_index(v: Seq<Vec<u8>>, i: int)
    requires
        0 <= i < v.len(),
    ensures
        token_views(v)[i] == v[i]@,
    decreases v,
{
    if i == 0 {
        assert(token_views(v)[0] == v[0]@);
    } else {
        lemma_token_views_len(v.drop_first());
        lemma_token_views_index(v.drop_first(), i - 1);
        assert(v.drop_first()[i - 1] == v[i]);
        assert(token_views(v)[i] == token_views(v.drop_first())[i - 1]);
    }
}

fn sep_byte(c: u8) -> (r: bool)
    ensures
        r == is_sep(c),
{
    c == 44 || c == 32 || c == 9 || c == 10 || c == 13 || c == 11 || c == 12
}

fn tokens_from(s: &Vec<u8>, i: usize) -> (r: Vec<Vec<u8>>)
    requires
        i <= s@.len(),
    ensures
        token_views(r@) == tokens(s@.skip(i as int)),
    decreases s@.len() - i,
{
    if i >= s.len() {
        let r: Vec<Vec<u8>> = Vec::new();
        proof {
            assert(token_views(r@) =~= tokens(s@.skip(i as int)));
        }
        r
    } else {
        proof {
            assert(s@.skip(i as int)[0] == s@[i as int]);
            assert(s@.skip(i as int).drop_first() =~= s@.skip(i + 1));
        }
        if sep_byte(s[i]) {
            tokens_from(s, i + 1)
        } else {
            let mut j: usize = i + 1;
            while j < s.len() && !sep_byte(s[j])
                invariant
                    i < j <= s@.len(),
                    forall|k: int| i <= k < j ==> !is_sep(#[trigger] s@[k]),
                decreases s@.len() - j,
            {
                j = j + 1;
            }
            let tok = copy_range(s, i, j);
            proof {
                lemma_head_tok(s@, i as int, j as int);
            }
            let rest = tokens_from(s, j);
            let ghost grest = rest@;
            let mut r = rest;
            r.insert(0, tok);
            proof {
                assert(grest.subrange(0, grest.len() as int) =~= grest);
                assert(r@.drop_first() =~= grest);
                assert(r@[0]@ == s@.subrange(i as int, j as int));
                assert(token_views(r@) =~= seq![r@[0]@] + token_views(grest));
                assert(token_views(r@) =~= tokens(s@.skip(i as int)));
            }
            r
        }
    }
}

/// Splits a coordinate override into exactly three components,
/// separated by commas and/or whitespace. Any other component count is
/// a usage error.
pub fn parse_pos(s: &Vec<u8>) -> (r: Result<(Vec<u8>, Vec<u8>, Vec<u8>), ToolError>)
    ensures
        match r {
            Ok(p) => {
                &&& tokens(s@).len() == 3
                &&& p.0@ == tokens(s@)[0]
                &&& p.1@ == tokens(s@)[1]
                &&& p.2@ == tokens(s@)[2]
            },
            Err(e) => e == ToolError::Usage && tokens(s@).len() != 3,
        },
{
    let mut toks = tokens_from(s, 0);
    proof {
        assert(s@.skip(0) =~= s@);
        lemma_token_views_len(toks@);
    }
    if toks.len() == 3 {
        let ghost gt = toks@;
        proof {
            lemma_token_views_index(gt, 0);
            lemma_token_views_index(gt, 1);
            lemma_token_views_index(gt, 2);
        }
        let a = toks.remove(0);
        let b = toks.remove(0);
        let c = toks.remove(0);
        proof {
            assert(gt.remove(0)[0] == gt[1]);
            assert(gt.remove(0).remove(0)[0] == gt[2]);
        }
        Ok((a, b, c))
    } else {
        Err(ToolError::Usage)
    }
}

} // verus!
