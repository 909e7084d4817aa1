//! The removal resolver: a free-form identifier is read first as a uuid,
//! then as a display name, across the behavior and resource candidate
//! lists; the result says which candidates to delete, or why the request
//! is rejected.
use crate::addon::manifest::Manifest;
use crate::addon::world_packet_list::InUse;
use crate::commands::list::{is_registered, spec_registered};
use vstd::prelude::*;

verus! {

/// A registry-confirmed pack found on disk: its display name, its registry
/// record, and the index of its directory in the enumeration handed in.
pub struct ListedPack {
    pub name: String,
    pub entry: InUse,
    pub dir_index: usize,
}

/// Cross-references a kind's registry with the manifests of its pack
/// directories (index-aligned with the caller's enumeration): one candidate
/// per confirmed directory, carrying the directory's index.
pub fn get_list(entries: &Vec<InUse>, manifests: &Vec<Manifest>) -> (r: Vec<ListedPack>)
    ensures
        forall|k: int|
            0 <= k < r@.len() ==> {
                let d = (#[trigger] r@[k]).dir_index as int;
                &&& 0 <= d < manifests@.len()
                &&& spec_registered(entries.deep_view(), manifests@[d])
                &&& r@[k].name@ == manifests@[d].header.name@
                &&& r@[k].entry@.pack_id == manifests@[d].header.uuid@
                &&& r@[k].entry@.version == manifests@[d].header.version@
            },
        forall|d: int|
            0 <= d < manifests@.len() && spec_registered(entries.deep_view(), manifests@[d])
                ==> exists|k: int| 0 <= k < r@.len() && (#[trigger] r@[k]).dir_index == d,
        forall|k1: int, k2: int|
            0 <= k1 < k2 < r@.len() ==> (#[trigger] r@[k1]).dir_index < (
            #[trigger] r@[k2]).dir_index,
{
    let mut r: Vec<ListedPack> = Vec::new();
    let n = manifests.len();
    for i in 0..n
        invariant
            n == manifests.len(),
            forall|k: int|
                0 <= k < r@.len() ==> {
                    let d = (#[trigger] r@[k]).dir_index as int;
                    &&& 0 <= d < manifests@.len()
                    &&& spec_registered(entries.deep_view(), manifests@[d])
                    &&& r@[k].name@ == manifests@[d].header.name@
                    &&& r@[k].entry@.pack_id == manifests@[d].header.uuid@
                    &&& r@[k].entry@.version == manifests@[d].header.version@
                },
            forall|d: int|
                0 <= d < i && spec_registered(entries.deep_view(), manifests@[d]) ==> exists|k: int|
                    0 <= k < r@.len() && (#[trigger] r@[k]).dir_index == d,
            forall|k: int| 0 <= k < r@.len() ==> (#[trigger] r@[k]).dir_index < i,
            forall|k1: int, k2: int|
                0 <= k1 < k2 < r@.len() ==> (#[trigger] r@[k1]).dir_index < (
                #[trigger] r@[k2]).dir_index,
    {
        let m = &manifests[i];
        let ghost r0 = r@;
        if is_registered(entries, &m.header.uuid, &m.header.version) {
            let candidate = ListedPack {
                name: m.header.name.clone(),
                entry: InUse {
                    pack_id: m.header.uuid.clone(),
                    version: m.header.version.duplicate(),
                },
                dir_index: i,
            };
            proof {
                assert(spec_registered(entries.deep_view(), manifests@[i as int]));
            }
            let ghost len_before = r@.len() as int;
            r.push(candidate);
            proof {
                assert forall|d: int|
                    0 <= d < i + 1 && spec_registered(entries.deep_view(), manifests@[d])
                        implies exists|k: int|
                    0 <= k < r@.len() && (#[trigger] r@[k]).dir_index == d by {
                    if d == i as int {
                        assert(r@[len_before].dir_index == d);
                    } else {
                        let k0 = choose|k: int|
                            0 <= k < r0.len() && (#[trigger] r0[k]).dir_index == d;
                        assert(r@[k0].dir_index == d);
                    }
                }
            }
        } else {
            proof {
                assert(!spec_registered(entries.deep_view(), manifests@[i as int]));
            }
        }
    }
    r
}

/// Why a removal request was rejected.
#[derive(Debug, Clone, Copy, PartialEq, Eq, Structural)]
pub enum RemoveError {
    /// Several packs of one kind share the name: the uuid must be used.
    AmbiguousIdentifier,
    /// A behavior pack and a resource pack share the name and removing
    /// both was not requested.
    CrossKindNameCollision,
    /// Nothing matches the identifier.
    PackNotFound,
}

/// Which candidates to remove: at most one per kind, by index into the
/// respective candidate list.
#[derive(Debug)]
pub struct RemovalPlan {
    pub behavior: Option<usize>,
    pub resource: Option<usize>,
}

/// The first candidate whose registered uuid equals the identifier.
pub open spec fn spec_uuid_first(l: Seq<ListedPack>, ident: Seq<char>, i: int) -> Option<int>
    decreases l.len() - i,
    when 0 <= i <= l.len()
{
    if i == l.len() {
        None
    } else if l[i].entry@.pack_id == ident {
        Some(i)
    } else {
        spec_uuid_first(l, ident, i + 1)
    }
}

/// How many candidates from position `i` on carry the display name.
pub open spec fn spec_name_count(l: Seq<ListedPack>, name: Seq<char>, i: int) -> nat
    decreases l.len() - i,
    when 0 <= i <= l.len()
{
    if i == l.len() {
        0
    } else {
        (if l[i].name@ == name {
            1nat
        } else {
            0nat
        }) + spec_name_count(l, name, i + 1)
    }
}

/// The first candidate carrying the display name.
pub open spec fn spec_name_first(l: Seq<ListedPack>, name: Seq<char>, i: int) -> Option<int>
    decreases l.len() - i,
    when 0 <= i <= l.len()
{
    if i == l.len() {
        None
    } else if l[i].name@ == name {
        Some(i)
    } else {
        spec_name_first(l, name, i + 1)
    }
}

/// The resolution rules: a uuid match is unambiguous and wins, behavior
/// packs before resource packs; then name matches — more than one within a
/// kind is ambiguous, one in each kind collides across kinds unless both
/// were asked for, exactly one is removed, none is an error.
pub open spec fn spec_remove_decision(
    bp: Seq<ListedPack>,
    rp: Seq<ListedPack>,
    ident: Seq<char>,
    all: bool,
) -> Result<(Option<int>, Option<int>), RemoveError> {
    if spec_uuid_first(bp, ident, 0) is Some {
        Ok((spec_uuid_first(bp, ident, 0), None))
    } else if spec_uuid_first(rp, ident, 0) is Some {
        Ok((None, spec_uuid_first(rp, ident, 0)))
    } else {
        let nb = spec_name_count(bp, ident, 0);
        let nr = spec_name_count(rp, ident, 0);
        if nb > 1 || nr > 1 {
            Err(RemoveError::AmbiguousIdentifier)
        } else if nb == 1 && nr == 1 {
            if !all {
                Err(RemoveError::CrossKindNameCollision)
            } else {
                Ok((spec_name_first(bp, ident, 0), spec_name_first(rp, ident, 0)))
            }
        } else if nb == 1 {
            Ok((spec_name_first(bp, ident, 0), None))
        } else if nr == 1 {
            Ok((None, spec_name_first(rp, ident, 0)))
        } else {
            Err(RemoveError::PackNotFound)
        }
    }
}

/// The executable plan agrees with the decision's index pair.
pub open spec fn spec_plan_matches(p: RemovalPlan, q: (Option<int>, Option<int>)) -> bool {
    &&& (match (p.behavior, q.0) {
        (Some(a), Some(b)) => a == b,
        (None, None) => true,
        _ => false,
    })
    &&& (match (p.resource, q.1) {
        (Some(a), Some(b)) => a == b,
        (None, None) => true,
        _ => false,
    })
}

fn scan_uuid(l: &Vec<ListedPack>, ident: &String, i: usize) -> (r: Option<usize>)
    requires
        i <= l.len(),
    ensures
        match r {
            Some(k) => spec_uuid_first(l@, ident@, i as int) == Some(k as int) && i <= k < l.len(),
            None => spec_uuid_first(l@, ident@, i as int) is None,
        },
    decreases l.len() - i,
{
    if i == l.len() {
        None
    } else if l[i].entry.pack_id == *ident {
        Some(i)
    } else {
        scan_uuid(l, ident, i + 1)
    }
}

fn scan_name(l: &Vec<ListedPack>, name: &String, i: usize) -> (r: (usize, usize))
    requires
        i <= l.len(),
    ensures
        r.0 == spec_name_count(l@, name@, i as int),
        r.0 <= l.len() - i,
        r.0 > 0 ==> spec_name_first(l@, name@, i as int) == Some(r.1 as int) && i <= r.1 < l.len(),
    decreases l.len() - i,
{
    if i == l.len() {
        (0, 0)
    } else {
        let (cnt, first) = scan_name(l, name, i + 1);
        if l[i].name == *name {
            (cnt + 1, i)
        } else {
            (cnt, first)
        }
    }
}

/// Resolves a removal request over the two kinds' candidate lists. The
/// caller deletes the planned candidates' directories and persists each
/// kind's registry without the removed record.
pub fn remove(name: &String, all: bool, bp_list: &Vec<ListedPack>, rp_list: &Vec<ListedPack>) -> (r:
    Result<RemovalPlan, RemoveError>)
    ensures
        (r matches Ok(p) ==> spec_remove_decision(bp_list@, rp_list@, name@, all) matches Ok(q)
            && spec_plan_matches(p, q)),
        (r matches Err(e) ==> spec_remove_decision(bp_list@, rp_list@, name@, all) == Err::<
            (Option<int>, Option<int>),
            RemoveError,
        >(e)),
{
    if let Some(k) = scan_uuid(bp_list, name, 0) {
        return Ok(RemovalPlan { behavior: Some(k), resource: None });
    }
    if let Some(k) = scan_uuid(rp_list, name, 0) {
        return Ok(RemovalPlan { behavior: None, resource: Some(k) });
    }
    let (nb, bfirst) = scan_name(bp_list, name, 0);
    let (nr, rfirst) = scan_name(rp_list, name, 0);
    if nb > 1 || nr > 1 {
        return Err(RemoveError::AmbiguousIdentifier);
    }
    if nb == 1 && nr == 1 {
        if !all {
            return Err(RemoveError::CrossKindNameCollision);
        }
        return Ok(RemovalPlan { behavior: Some(bfirst), resource: Some(rfirst) });
    }
    if nb == 1 {
        return Ok(RemovalPlan { behavior: Some(bfirst), resource: None });
    }
    if nr == 1 {
        return Ok(RemovalPlan { behavior: None, resource: Some(rfirst) });
    }
    Err(RemoveError::PackNotFound)
}

} // verus!
