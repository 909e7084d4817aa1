//! The listing projector: cross-references a kind's registry against the
//! manifests of its on-disk pack directories and renders the registered
//! ones, read-only. Orphaned directories and dangling registrations fall
//! out of the cross-reference.
use crate::addon::manifest::{Manifest, PackateType};
use crate::addon::version::{
    lemma_compare_antisymmetric, spec_canonical, AddonVersion, VersionOrdering,
};
use crate::addon::world_packet_list::{InUse, InUseView};
use vstd::prelude::*;

verus! {

/// A directory's manifest is confirmed by the registry: some record carries
/// its uuid at exactly its version.
pub open spec fn spec_registered(entries: Seq<InUseView>, m: Manifest) -> bool {
    exists|i: int|
        0 <= i < entries.len() && (#[trigger] entries[i]).pack_id == m.header.uuid@
            && entries[i].version == m.header.version@
}

/// Whether some registry record confirms this uuid at this version.
pub fn is_registered(entries: &Vec<InUse>, uuid: &String, version: &AddonVersion) -> (r: bool)
    ensures
        r == exists|i: int|
            0 <= i < entries.deep_view().len() && (#[trigger] entries.deep_view()[i]).pack_id
                == uuid@ && entries.deep_view()[i].version == version@,
{
    let n = entries.len();
    for i in 0..n
        invariant
            n == entries.len(),
            forall|j: int|
                0 <= j < i ==> !((#[trigger] entries.deep_view()[j]).pack_id == uuid@
                    && entries.deep_view()[j].version == version@),
    {
        proof {
            assert(entries.deep_view()[i as int] == entries@[i as int]@);
            lemma_compare_antisymmetric(entries@[i as int]@.version, version@);
        }
        if entries[i].pack_id == *uuid && entries[i].version.compare(version)
            == VersionOrdering::Equal {
            return true;
        }
    }
    false
}

/// The manifests confirmed by the registry, in directory order.
pub open spec fn spec_selected(entries: Seq<InUseView>, ms: Seq<Manifest>) -> Seq<Manifest>
    decreases ms.len(),
{
    if ms.len() == 0 {
        Seq::empty()
    } else {
        let rest = spec_selected(entries, ms.drop_last());
        if spec_registered(entries, ms.last()) {
            rest.push(ms.last())
        } else {
            rest
        }
    }
}

/// One rendered line of the listing.
pub struct ListRow {
    pub name: String,
    pub version: String,
    pub uuid: String,
    pub kind_name: String,
    pub description: String,
}

/// The row renders the manifest: its display fields, the canonical version
/// string, the kind's display name, and an empty description when absent.
pub open spec fn spec_row_matches(row: ListRow, m: Manifest, kind: PackateType) -> bool {
    &&& row.name@ == m.header.name@
    &&& row.uuid@ == m.header.uuid@
    &&& row.version@ == spec_canonical(m.header.version@)
    &&& (match m.header.description {
        Some(d) => row.description@ == d@,
        None => row.description@ == Seq::<char>::empty(),
    })
    &&& (kind == PackateType::Behavior ==> row.kind_name@ == "behavior packs"@)
    &&& (kind == PackateType::Resource ==> row.kind_name@ == "resource packs"@)
}

fn kind_display_name(kind: &PackateType) -> (r: &str)
    ensures
        *kind == PackateType::Behavior ==> r@ == "behavior packs"@,
        *kind == PackateType::Resource ==> r@ == "resource packs"@,
{
    match kind {
        PackateType::Behavior => "behavior packs",
        PackateType::Resource => "resource packs",
    }
}

fn make_row(m: &Manifest, kind: &PackateType) -> (r: ListRow)
    ensures
        spec_row_matches(r, *m, *kind),
{
    let description = match &m.header.description {
        Some(d) => d.clone(),
        None => String::new(),
    };
    ListRow {
        name: m.header.name.clone(),
        version: m.header.version.to_canonical_string(),
        uuid: m.header.uuid.clone(),
        kind_name: String::from_str(kind_display_name(kind)),
        description,
    }
}

/// Renders one kind's confirmed packs, appending to `out`.
fn project_kind(entries: &Vec<InUse>, manifests: &Vec<Manifest>, kind: PackateType, out: &mut Vec<ListRow>)
    ensures
        final(out)@.len() == old(out)@.len() + spec_selected(entries.deep_view(), manifests@).len(),
        forall|k: int| 0 <= k < old(out)@.len() ==> final(out)@[k] == old(out)@[k],
        forall|k: int|
            old(out)@.len() <= k < final(out)@.len() ==> spec_row_matches(
                #[trigger] final(out)@[k],
                spec_selected(entries.deep_view(), manifests@)[k - old(out)@.len()],
                kind,
            ),
{
    let n = manifests.len();
    proof {
        assert(manifests@.take(0int) =~= Seq::<Manifest>::empty());
    }
    for i in 0..n
        invariant
            n == manifests.len(),
            out@.len() == old(out)@.len() + spec_selected(
                entries.deep_view(),
                manifests@.take(i as int),
            ).len(),
            forall|k: int| 0 <= k < old(out)@.len() ==> out@[k] == old(out)@[k],
            forall|k: int|
                old(out)@.len() <= k < out@.len() ==> spec_row_matches(
                    #[trigger] out@[k],
                    spec_selected(entries.deep_view(), manifests@.take(i as int))[k - old(
                        out,
                    )@.len()],
                    kind,
                ),
    {
        proof {
            assert(manifests@.take(i + 1).drop_last() =~= manifests@.take(i as int));
            assert(manifests@.take(i + 1).last() == manifests@[i as int]);
        }
        let m = &manifests[i];
        if is_registered(entries, &m.header.uuid, &m.header.version) {
            proof {
                assert(spec_registered(entries.deep_view(), manifests@[i as int]));
            }
            let row = make_row(m, &kind);
            out.push(row);
        } else {
            proof {
                assert(!spec_registered(entries.deep_view(), manifests@[i as int]));
            }
        }
    }
    proof {
        assert(manifests@.take(n as int) =~= manifests@);
    }
}

/// Which kinds an explicit flag pair selects: asking for neither means
/// asking for both.
pub open spec fn spec_effective_flags(resource: bool, behavior: bool) -> (bool, bool) {
    if !resource && !behavior {
        (true, true)
    } else {
        (resource, behavior)
    }
}

/// Projects the listing: for each selected kind whose active-pack-list file
/// exists, the registry-confirmed packs in directory order, resource packs
/// first. Read-only: nothing is mutated.
pub fn list(
    resource: bool,
    behavior: bool,
    resource_available: bool,
    resource_entries: &Vec<InUse>,
    resource_manifests: &Vec<Manifest>,
    behavior_available: bool,
    behavior_entries: &Vec<InUse>,
    behavior_manifests: &Vec<Manifest>,
) -> (r: Vec<ListRow>)
    ensures
        ({
            let flags = spec_effective_flags(resource, behavior);
            let rsel = if flags.0 && resource_available {
                spec_selected(resource_entries.deep_view(), resource_manifests@)
            } else {
                Seq::<Manifest>::empty()
            };
            let bsel = if flags.1 && behavior_available {
                spec_selected(behavior_entries.deep_view(), behavior_manifests@)
            } else {
                Seq::<Manifest>::empty()
            };
            &&& r@.len() == rsel.len() + bsel.len()
            &&& forall|k: int|
                0 <= k < rsel.len() ==> spec_row_matches(
                    #[trigger] r@[k],
                    rsel[k],
                    PackateType::Resource,
                )
            &&& forall|k: int|
                rsel.len() <= k < r@.len() ==> spec_row_matches(
                    #[trigger] r@[k],
                    bsel[k - rsel.len()],
                    PackateType::Behavior,
                )
        }),
{
    let (show_resource, show_behavior) = if !resource && !behavior {
        (true, true)
    } else {
        (resource, behavior)
    };
    let mut out: Vec<ListRow> = Vec::new();
    if show_resource && resource_available {
        project_kind(resource_entries, resource_manifests, PackateType::Resource, &mut out);
    }
    if show_behavior && behavior_available {
        project_kind(behavior_entries, behavior_manifests, PackateType::Behavior, &mut out);
    }
    out
}

} // verus!
