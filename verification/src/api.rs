use vstd::prelude::*;
use crate::errors::ToolError;
use crate::player::{Candidate, StorageKind, local_player_name, local_player_name_vec};

verus! {

broadcast use vstd::std_specs::vec::group_vec_axioms;

// ---------------------------------------------------------------------
// The identity resolver.
//
// The remote lookup itself is an outside collaborator run by the
// unverified shell: it maps a normalized 32-hex-digit identifier to a
// display name or fails. What is verified here is the normalization of
// the identifier and the resolution policy around the lookup's result.
// ---------------------------------------------------------------------

pub open spec fn ascii_lower(c: u8) -> u8 {
    if 65 <= c <= 90 {
        (c + 32) as u8
    } else {
        c
    }
}

/// The identifier as handed to the lookup: hyphens stripped, ASCII
/// letters lowercased.
pub open spec fn normalized_id(s: Seq<u8>) -> Seq<u8>
    decreases s,
{
    if s.len() == 0 {
        Seq::empty()
    } else if s[0] == 45 {
        normalized_id(s.drop_first())
    } else {
        seq![ascii_lower(s[0])] + normalized_id(s.drop_first())
    }
}

fn normalize_from(id: &Vec<u8>, i: usize) -> (r: Vec<u8>)
    requires
        i <= id@.len(),
    ensures
        r@ == normalized_id(id@.skip(i as int)),
    decreases id@.len() - i,
{
    if i >= id.len() {
        let r: Vec<u8> = Vec::new();
        proof {
            assert(r@ =~= normalized_id(id@.skip(i as int)));
        }
        r
    } else {
        let rest = normalize_from(id, i + 1);
        proof {
            assert(id@.skip(i as int)[0] == id@[i as int]);
            assert(id@.skip(i as int).drop_first() =~= id@.skip(i + 1));
        }
        let c = id[i];
        if c == 45 {
            rest
        } else {
            let lc: u8 = if 65 <= c && c <= 90 {
                c + 32
            } else {
                c
            };
            let ghost grest = rest@;
            let mut r = rest;
            r.insert(0, lc);
            proof {
                assert(r@ =~= seq![ascii_lower(id@[i as int])] + grest);
            }
            r
        }
    }
}

/// Normalizes a player identifier for the lookup: strips hyphens and
/// lowercases ASCII letters.
pub fn normalize_identifier(id: &Vec<u8>) -> (r: Vec<u8>)
    ensures
        r@ == normalized_id(id@),
{
    let r = normalize_from(id, 0);
    proof {
        assert(id@.skip(0) =~= id@);
    }
    r
}

/// Resolves one candidate's display name from the layout and the
/// outcome of the identity lookup the caller performed: the embedded
/// record always carries the fixed local name with no lookup at all; a
/// per-player record carries the looked-up name, or
/// `IdentityUnavailable` when the lookup failed.
pub fn resolve_identity(kind: StorageKind, fetched: Option<Vec<u8>>) -> (r: Result<
    Vec<u8>,
    ToolError,
>)
    ensures
        match kind {
            StorageKind::Embedded => r matches Ok(n) && n@ == local_player_name(),
            StorageKind::FilePerPlayer => match fetched {
                Some(n) => r matches Ok(m) && m@ == n@,
                None => r matches Err(e) && e == ToolError::IdentityUnavailable,
            },
        },
{
    match kind {
        StorageKind::Embedded => Ok(local_player_name_vec()),
        StorageKind::FilePerPlayer => match fetched {
            Some(n) => Ok(n),
            None => Err(ToolError::IdentityUnavailable),
        },
    }
}

/// Resolves every candidate independently: one failed lookup turns
/// only its own entry into an error and leaves every other entry
/// untouched, so the caller chooses between skipping and aborting.
pub fn resolve_all(cands: &Vec<Candidate>, fetched: Vec<Option<Vec<u8>>>) -> (r: Vec<
    Result<Vec<u8>, ToolError>,
>)
    requires
        fetched@.len() == cands@.len(),
    ensures
        r@.len() == cands@.len(),
        forall|i: int|
            0 <= i < r@.len() ==> (match cands@[i].kind {
                StorageKind::Embedded => #[trigger] r@[i] matches Ok(n) && n@
                    == local_player_name(),
                StorageKind::FilePerPlayer => match fetched@[i] {
                    Some(n) => r@[i] matches Ok(m) && m@ == n@,
                    None => r@[i] matches Err(e) && e == ToolError::IdentityUnavailable,
                },
            }),
{
    let mut out: Vec<Result<Vec<u8>, ToolError>> = Vec::new();
    let mut f = fetched;
    let mut i: usize = 0;
    while i < cands.len()
        invariant
            i <= cands@.len(),
            out@.len() == i,
            f@.len() == cands@.len() - i,
            forall|j: int| 0 <= j < f@.len() ==> f@[j] == fetched@[i + j],
            forall|j: int|
                0 <= j < i ==> (match cands@[j].kind {
                    StorageKind::Embedded => #[trigger] out@[j] matches Ok(n) && n@
                        == local_player_name(),
                    StorageKind::FilePerPlayer => match fetched@[j] {
                        Some(n) => out@[j] matches Ok(m) && m@ == n@,
                        None => out@[j] matches Err(e) && e == ToolError::IdentityUnavailable,
                    },
                }),
        decreases cands@.len() - i,
    {
        let fi = f.remove(0);
        proof {
            assert(fi == fetched@[i as int]);
        }
        let kind = cands[i].kind;
        out.push(resolve_identity(kind, fi));
        i = i + 1;
    }
    out
}

} // verus!
