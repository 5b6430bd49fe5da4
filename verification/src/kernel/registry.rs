//! The manifests of the registered capabilities, by id, in registration
//! order.

use vstd::prelude::*;
use crate::kernel::manifest::{CapabilityManifest, same_manifest};
use crate::strmap::StrMap;
use crate::text::str_eq;

verus! {

/// Why a registration or a pipeline lookup was refused.
pub enum RegistryError {
    IncompatibleVersions { id: String, existing: String, incoming: String },
    DuplicateCapability { id: String },
    UnknownCapability { id: String },
}

/// The registered capability manifests.
pub struct CapabilityRegistry {
    pub manifests: StrMap<CapabilityManifest>,
}

impl View for CapabilityRegistry {
    type V = Map<Seq<char>, CapabilityManifest>;

    open spec fn view(&self) -> Map<Seq<char>, CapabilityManifest> {
        self.manifests@
    }
}

/// The manifests of the pipeline `pipeline`, looked up one by one.
pub open spec fn pipeline_manifests_match(
    reg: Map<Seq<char>, CapabilityManifest>,
    pipeline: Seq<Seq<char>>,
    r: Seq<CapabilityManifest>,
) -> bool {
    &&& r.len() == pipeline.len()
    &&& forall|i: int| 0 <= i < pipeline.len() ==> reg.contains_key(#[trigger] pipeline[i]) && same_manifest(r[i], reg[pipeline[i]])
}

impl CapabilityRegistry {
    pub fn new() -> (r: Self)
        ensures
            r@ == Map::<Seq<char>, CapabilityManifest>::empty(),
            r.manifests.key_seq().len() == 0,
    {
        CapabilityRegistry { manifests: StrMap::new() }
    }

    /// Adds a manifest under its id. An id that is already registered is
    /// refused: as incompatible when the versions differ, as a duplicate
    /// otherwise.
    pub fn register(&mut self, manifest: CapabilityManifest) -> (r: Result<(), RegistryError>)
        ensures
            match r {
                Ok(_) => !old(self)@.contains_key(manifest.id@)
                    && final(self)@ == old(self)@.insert(manifest.id@, manifest)
                    && final(self).manifests.key_seq() == old(self).manifests.key_seq().push(manifest.id@)
                    && final(self).manifests.entries@.len() == old(self).manifests.entries@.len() + 1
                    && final(self).manifests.entries@.drop_last() == old(self).manifests.entries@
                    && final(self).manifests.entries@.last().1 == manifest,
                Err(RegistryError::IncompatibleVersions { id, existing, incoming }) =>
                    old(self)@.contains_key(manifest.id@)
                    && old(self)@[manifest.id@].version@ != manifest.version@
                    && id@ == manifest.id@ && existing@ == old(self)@[manifest.id@].version@
                    && incoming@ == manifest.version@
                    && *final(self) == *old(self),
                Err(RegistryError::DuplicateCapability { id }) =>
                    old(self)@.contains_key(manifest.id@)
                    && old(self)@[manifest.id@].version@ == manifest.version@
                    && id@ == manifest.id@
                    && *final(self) == *old(self),
                Err(RegistryError::UnknownCapability { .. }) => false,
            },
    {
        match self.manifests.get(manifest.id.as_str()) {
            Some(existing) => {
                if !str_eq(existing.version.as_str(), manifest.version.as_str()) {
                    return Err(RegistryError::IncompatibleVersions {
                        id: manifest.id.clone(),
                        existing: existing.version.clone(),
                        incoming: manifest.version.clone(),
                    });
                }
                return Err(RegistryError::DuplicateCapability { id: manifest.id.clone() });
            },
            None => {},
        }
        let id = manifest.id.clone();
        let ghost before = self.manifests.entries@;
        self.manifests.insert(id, manifest);
        assert(self.manifests.entries@.drop_last() =~= before);
        Ok(())
    }

    /// Registers the manifests in order, stopping at the first refusal.
    pub fn register_many(&mut self, manifests: Vec<CapabilityManifest>) -> (r: Result<(), RegistryError>)
        ensures
            r is Ok ==> final(self)@ == register_all(old(self)@, manifests@),
            r is Ok ==> final(self).manifests.entries@.len() == old(self).manifests.entries@.len() + manifests@.len()
                && forall|k: int| 0 <= k < manifests@.len() ==>
                    #[trigger] final(self).manifests.entries@[old(self).manifests.entries@.len() + k].1 == manifests@[k],
            r is Ok <==> registrable(old(self)@, manifests@),
            match r {
                Err(e) => registration_clash(old(self)@, manifests@, e),
                Ok(_) => true,
            },
    {
        let ghost start = self@;
        let ghost start_len = self.manifests.entries@.len();
        let total = manifests.len();
        let ghost all = manifests@;
        let mut rest = manifests;
        let mut i: usize = 0;
        let mut pending: Vec<CapabilityManifest> = Vec::new();
        // Register from the front: reverse once so that pop yields the first.
        while rest.len() > 0
            invariant
                rest@.len() <= all.len(),
                pending@ == all.subrange(rest@.len() as int, all.len() as int).reverse(),
                rest@ == all.subrange(0, rest@.len() as int),
            decreases rest@.len(),
        {
            let ghost before_rest = rest@;
            let ghost before_pending = pending@;
            let m = rest.pop().unwrap();
            proof {
                assert(m == before_rest.last());
                assert(rest@ =~= before_rest.drop_last());
            }
            pending.push(m);
            proof {
                assert(rest@ =~= all.subrange(0, rest@.len() as int));
                assert(pending@ =~= all.subrange(rest@.len() as int, all.len() as int).reverse());
            }
        }
        assert(pending@ =~= all.reverse());
        while pending.len() > 0
            invariant
                i + pending@.len() == all.len(),
                all.len() == total,
                start == old(self)@,
                all == manifests@,
                pending@ == all.subrange(i as int, all.len() as int).reverse(),
                registrable(start, all.take(i as int)),
                self@ == register_all(start, all.take(i as int)),
                start_len == old(self).manifests.entries@.len(),
                self.manifests.entries@.len() == start_len + i,
                forall|k: int| 0 <= k < i ==> #[trigger] self.manifests.entries@[start_len + k].1 == all[k],
            decreases pending@.len(),
        {
            let ghost before_pending = pending@;
            let m = pending.pop().unwrap();
            proof {
                assert(m == before_pending.last());
                assert(before_pending.last() == all[i as int]);
                assert(pending@ =~= before_pending.drop_last());
                assert(all.take(i + 1).drop_last() =~= all.take(i as int));
                assert(all.take(i + 1).last() == all[i as int]);
            }
            let ghost id = m.id@;
            let ghost before_self = self@;
            let ghost prev_entries = self.manifests.entries@;
            match self.register(m) {
                Ok(_) => {
                    proof {
                        assert forall|k: int| 0 <= k < i + 1 implies #[trigger] self.manifests.entries@[start_len + k].1 == all[k] by {
                            if k < i {
                                assert(self.manifests.entries@.drop_last()[start_len + k] == prev_entries[start_len + k]);
                            }
                        }
                    }
                },
                Err(e) => {
                    proof {
                        assert(before_self.contains_key(id)) by {
                            match e {
                                RegistryError::IncompatibleVersions { .. } => {},
                                RegistryError::DuplicateCapability { .. } => {},
                                RegistryError::UnknownCapability { .. } => {},
                            }
                        }
                        lemma_registrable_prefix(start, all, i as int);
                        assert(registration_clash(start, all, e)) by {
                            assert(is_first_clash(start, all, i as int));
                        }
                    }
                    return Err(e);
                },
            }
            i = i + 1;
            proof {
                assert(pending@ =~= all.subrange(i as int, all.len() as int).reverse());
            }
        }
        assert(all.take(all.len() as int) =~= all);
        Ok(())
    }

    pub fn manifest(&self, id: &str) -> (r: Option<&CapabilityManifest>)
        ensures
            match r {
                Some(m) => self@.contains_key(id@) && *m == self@[id@],
                None => !self@.contains_key(id@),
            },
    {
        self.manifests.get(id)
    }

    pub fn version(&self, id: &str) -> (r: Option<&String>)
        ensures
            match r {
                Some(v) => self@.contains_key(id@) && v@ == self@[id@].version@,
                None => !self@.contains_key(id@),
            },
    {
        match self.manifests.get(id) {
            Some(m) => Some(&m.version),
            None => None,
        }
    }

    /// The manifests of the pipeline, in its order; with an empty pipeline,
    /// every registered manifest in registration order.
    pub fn manifests_for_pipeline(&self, pipeline: &Vec<String>) -> (r: Result<Vec<CapabilityManifest>, RegistryError>)
        ensures
            pipeline@.len() == 0 ==> match r {
                Ok(ms) => ms@.len() == self.manifests.entries@.len()
                    && forall|i: int| 0 <= i < ms@.len() ==> same_manifest(#[trigger] ms@[i], self.manifests.entries@[i].1),
                Err(_) => false,
            },
            pipeline@.len() > 0 ==> match r {
                Ok(ms) => pipeline_manifests_match(self@, pipeline@.map_values(|s: String| s@), ms@),
                Err(RegistryError::UnknownCapability { id }) => exists|i: int|
                    0 <= i < pipeline@.len() && !self@.contains_key(#[trigger] pipeline@[i]@)
                    && (forall|i2: int| 0 <= i2 < i ==> self@.contains_key(#[trigger] pipeline@[i2]@))
                    && id@ == pipeline@[i]@,
                Err(_) => false,
            },
    {
        let mut out: Vec<CapabilityManifest> = Vec::new();
        if pipeline.len() == 0 {
            let n = self.manifests.len();
            let mut i: usize = 0;
            while i < n
                invariant
                    n == self.manifests.entries@.len(),
                    i <= n,
                    out@.len() == i,
                    forall|a: int| 0 <= a < i ==> same_manifest(#[trigger] out@[a], self.manifests.entries@[a].1),
                decreases n - i,
            {
                out.push(self.manifests.entries[i].1.duplicate());
                i = i + 1;
            }
            return Ok(out);
        }
        let mut i: usize = 0;
        while i < pipeline.len()
            invariant
                i <= pipeline@.len(),
                out@.len() == i,
                forall|a: int| 0 <= a < i ==> self@.contains_key(#[trigger] pipeline@[a]@)
                    && same_manifest(out@[a], self@[pipeline@[a]@]),
            decreases pipeline@.len() - i,
        {
            match self.manifests.get(pipeline[i].as_str()) {
                Some(m) => {
                    out.push(m.duplicate());
                },
                None => {
                    return Err(RegistryError::UnknownCapability { id: pipeline[i].clone() });
                },
            }
            i = i + 1;
        }
        proof {
            let ps = pipeline@.map_values(|s: String| s@);
            assert forall|a: int| 0 <= a < ps.len() implies self@.contains_key(#[trigger] ps[a]) && same_manifest(out@[a], self@[ps[a]]) by {
                assert(ps[a] == pipeline@[a]@);
            }
        }
        Ok(out)
    }
}

/// The registry after registering `ms` in order into `reg`.
pub open spec fn register_all(reg: Map<Seq<char>, CapabilityManifest>, ms: Seq<CapabilityManifest>) -> Map<Seq<char>, CapabilityManifest>
    decreases ms.len(),
{
    if ms.len() == 0 {
        reg
    } else {
        register_all(reg, ms.drop_last()).insert(ms.last().id@, ms.last())
    }
}

/// Manifest `i` is the first of `ms` whose id is already registered when
/// its turn comes.
pub open spec fn is_first_clash(reg: Map<Seq<char>, CapabilityManifest>, ms: Seq<CapabilityManifest>, i: int) -> bool {
    &&& 0 <= i < ms.len()
    &&& registrable(reg, ms.take(i))
    &&& register_all(reg, ms.take(i)).contains_key(ms[i].id@)
}

/// `e` reports the first clash of registering `ms` into `reg`.
pub open spec fn registration_clash(reg: Map<Seq<char>, CapabilityManifest>, ms: Seq<CapabilityManifest>, e: RegistryError) -> bool {
    exists|i: int| #[trigger] is_first_clash(reg, ms, i) && {
        let existing = register_all(reg, ms.take(i))[ms[i].id@];
        match e {
            RegistryError::IncompatibleVersions { id, existing: v0, incoming } =>
                existing.version@ != ms[i].version@ && id@ == ms[i].id@ && v0@ == existing.version@
                    && incoming@ == ms[i].version@,
            RegistryError::DuplicateCapability { id } =>
                existing.version@ == ms[i].version@ && id@ == ms[i].id@,
            RegistryError::UnknownCapability { .. } => false,
        }
    }
}

/// Registering `ms` in order into `reg` meets no id twice.
pub open spec fn registrable(reg: Map<Seq<char>, CapabilityManifest>, ms: Seq<CapabilityManifest>) -> bool
    decreases ms.len(),
{
    if ms.len() == 0 {
        true
    } else {
        registrable(reg, ms.drop_last()) && !register_all(reg, ms.drop_last()).contains_key(ms.last().id@)
    }
}

proof fn lemma_registrable_prefix(reg: Map<Seq<char>, CapabilityManifest>, all: Seq<CapabilityManifest>, i: int)
    requires
        0 <= i < all.len(),
        register_all(reg, all.take(i)).contains_key(all[i].id@),
    ensures
        !registrable(reg, all),
    decreases all.len(),
{
    if i == all.len() - 1 {
        assert(all.drop_last() =~= all.take(i));
    } else {
        assert(all.drop_last().take(i) =~= all.take(i));
        lemma_registrable_prefix(reg, all.drop_last(), i);
    }
}

} // verus!
