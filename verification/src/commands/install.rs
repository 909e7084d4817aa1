//! The installation reconciler: given a candidate pack's identity and the
//! active-set registry of its kind, decide to install, upgrade or skip, and
//! produce the registry to persist. Skips touch nothing.
use crate::addon::version::{
    lemma_compare_antisymmetric, lemma_compare_reflexive, spec_compare, AddonVersion,
    VersionOrdering, VersionView,
};
use crate::addon::world_packet_list::{
    find, lemma_upsert_find, lemma_upsert_preserves_wf, lemma_wf_find_count, spec_count_id,
    spec_find, spec_registry_wf, spec_upsert, upsert, InUse, InUseView,
};
use vstd::prelude::*;

verus! {

/// What the reconciler decided for one candidate pack.
#[derive(Debug, Clone, Copy, PartialEq, Eq, Structural)]
pub enum InstallOutcome {
    /// Not registered before: copy the pack and register it.
    Installed,
    /// Registered at exactly the candidate version: nothing to do.
    AlreadyInstalled,
    /// Registered at a newer version: the candidate is skipped.
    NewerInstalled,
    /// Registered at an older version: copy the pack and re-register it.
    Upgraded,
}

impl InstallOutcome {
    /// Whether the decision asks for a filesystem copy and a registry write.
    pub open spec fn spec_mutates(self) -> bool {
        self == InstallOutcome::Installed || self == InstallOutcome::Upgraded
    }

    pub fn mutates(&self) -> (r: bool)
        ensures
            r == self.spec_mutates(),
    {
        match self {
            InstallOutcome::Installed => true,
            InstallOutcome::Upgraded => true,
            InstallOutcome::AlreadyInstalled => false,
            InstallOutcome::NewerInstalled => false,
        }
    }
}

/// The decision table over the registered entry, if any, and the candidate
/// version.
pub open spec fn spec_decide(existing: Option<InUseView>, candidate: VersionView) -> InstallOutcome {
    match existing {
        None => InstallOutcome::Installed,
        Some(e) => {
            let o = spec_compare(e.version, candidate);
            if o == VersionOrdering::Equal {
                InstallOutcome::AlreadyInstalled
            } else if o == VersionOrdering::Greater {
                InstallOutcome::NewerInstalled
            } else {
                InstallOutcome::Upgraded
            }
        },
    }
}

/// One reconciliation step: the decision, and the registry afterwards —
/// unchanged on a skip, insert-or-replace otherwise.
pub open spec fn spec_install_step(entries: Seq<InUseView>, id: Seq<char>, v: VersionView) -> (
    InstallOutcome,
    Seq<InUseView>,
) {
    let o = spec_decide(spec_find(entries, id), v);
    if o.spec_mutates() {
        (o, spec_upsert(entries, InUseView { pack_id: id, version: v }))
    } else {
        (o, entries)
    }
}

/// Reconciles one candidate pack against the registry of its kind: the
/// decision, and — exactly when the decision mutates — the registry to
/// persist. On the skip decisions nothing is handed back to write.
pub fn install_single_pack(entries: &Vec<InUse>, uuid: &String, version: &AddonVersion) -> (r: (
    InstallOutcome,
    Option<Vec<InUse>>,
))
    ensures
        r.0 == spec_install_step(entries.deep_view(), uuid@, version@).0,
        r.0.spec_mutates() ==> (r.1 matches Some(l) && l.deep_view() == spec_install_step(
            entries.deep_view(),
            uuid@,
            version@,
        ).1),
        !r.0.spec_mutates() ==> r.1 is None && spec_install_step(
            entries.deep_view(),
            uuid@,
            version@,
        ).1 == entries.deep_view(),
{
    let outcome = match find(entries, uuid) {
        None => InstallOutcome::Installed,
        Some(e) => {
            let o = e.version.compare(version);
            if o == VersionOrdering::Equal {
                InstallOutcome::AlreadyInstalled
            } else if o == VersionOrdering::Greater {
                InstallOutcome::NewerInstalled
            } else {
                InstallOutcome::Upgraded
            }
        },
    };
    if outcome.mutates() {
        let new_entry = InUse { pack_id: uuid.clone(), version: version.duplicate() };
        proof {
            assert(new_entry@ =~~= (InUseView { pack_id: uuid@, version: version@ }));
        }
        let updated = upsert(entries, new_entry);
        (outcome, Some(updated))
    } else {
        (outcome, None)
    }
}

/// Re-running the same install converges: the second run changes nothing
/// and — unless a newer version blocked the first run too — reports the
/// pack as already installed, with exactly one registry record for it.
pub proof fn lemma_install_idempotent(entries: Seq<InUseView>, id: Seq<char>, v: VersionView)
    requires
        spec_registry_wf(entries),
    ensures
        ({
            let first = spec_install_step(entries, id, v);
            let second = spec_install_step(first.1, id, v);
            &&& second.1 == first.1
            &&& spec_registry_wf(first.1)
            &&& (first.0 != InstallOutcome::NewerInstalled ==> second.0
                == InstallOutcome::AlreadyInstalled && spec_count_id(first.1, id) == 1)
            &&& (first.0 == InstallOutcome::NewerInstalled ==> second.0
                == InstallOutcome::NewerInstalled)
        }),
{
    let e = InUseView { pack_id: id, version: v };
    lemma_compare_reflexive(v);
    lemma_wf_find_count(entries, id);
    match spec_find(entries, id) {
        None => {
            lemma_upsert_find(entries, e);
            lemma_upsert_preserves_wf(entries, e);
        },
        Some(old_entry) => {
            let o = spec_compare(old_entry.version, v);
            if o == VersionOrdering::Equal || o == VersionOrdering::Greater {
                // the first run skips; the registry is unchanged
            } else {
                lemma_upsert_find(entries, e);
                lemma_upsert_preserves_wf(entries, e);
            }
        },
    }
}

/// Upgrades are monotone: installing an older then a newer version leaves
/// exactly one record, at the newer version; installing the newer version
/// first makes the older one a skipped downgrade, leaving the newer record
/// untouched.
pub proof fn lemma_upgrade_monotone(
    entries: Seq<InUseView>,
    id: Seq<char>,
    v1: VersionView,
    v2: VersionView,
)
    requires
        spec_registry_wf(entries),
        spec_find(entries, id) is None,
        spec_compare(v1, v2) == VersionOrdering::Less,
    ensures
        ({
            let up_first = spec_install_step(entries, id, v1);
            let up = spec_install_step(up_first.1, id, v2);
            let down_first = spec_install_step(entries, id, v2);
            let down = spec_install_step(down_first.1, id, v1);
            &&& up_first.0 == InstallOutcome::Installed
            &&& up.0 == InstallOutcome::Upgraded
            &&& spec_find(up.1, id) == Some(InUseView { pack_id: id, version: v2 })
            &&& spec_count_id(up.1, id) == 1
            &&& down_first.0 == InstallOutcome::Installed
            &&& down.0 == InstallOutcome::NewerInstalled
            &&& down.1 == down_first.1
            &&& spec_find(down.1, id) == Some(InUseView { pack_id: id, version: v2 })
            &&& spec_count_id(down.1, id) == 1
        }),
{
    let e1 = InUseView { pack_id: id, version: v1 };
    let e2 = InUseView { pack_id: id, version: v2 };
    lemma_compare_antisymmetric(v1, v2);
    lemma_upsert_find(entries, e1);
    lemma_upsert_find(spec_upsert(entries, e1), e2);
    lemma_upsert_find(entries, e2);
}

} // verus!
