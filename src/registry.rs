//! The registry service: publishes into the catalog and the store, fetches
//! blobs, and answers resolution queries.
use vstd::prelude::*;
use crate::catalog::{Mod, RecordKey, VersionCatalog, is_resolution};
use crate::errors::NotFound;
use crate::store::ArtifactStore;
use crate::version::{Requirement, Version};

verus! {

/// The limit of a resolution query that gives none: the latest satisfying
/// version only.
pub fn one() -> (r: usize)
    ensures
        r == 1,
{
    1
}

/// What a publish did.
#[derive(Clone, Copy, Debug, PartialEq, Eq, Structural)]
pub enum Publish {
    /// The version was new: its record and its blob are stored.
    Created,
    /// The version was already published: nothing changed.
    Conflict,
}

/// The answer to a resolution query.
#[derive(Debug, PartialEq)]
pub enum Resolved {
    /// The latest satisfying version (a query with limit one).
    One(Mod),
    /// The satisfying versions, highest first.
    Many(Vec<Mod>),
}

/// The published records, and the blobs stored under their keys.
pub type RegistryModel = (Set<RecordKey>, Map<RecordKey, Seq<u8>>);

/// Publishing `b` under `k`: the state afterwards and the outcome. A key
/// already published is left alone; a new one is recorded and its blob
/// stored.
pub open spec fn publish_step(m: RegistryModel, k: RecordKey, b: Seq<u8>) -> (RegistryModel, Publish) {
    if m.0.contains(k) {
        (m, Publish::Conflict)
    } else {
        ((m.0.insert(k), m.1.insert(k, b)), Publish::Created)
    }
}

/// What a fetch of `k` returns: the blob stored under it, if any.
pub open spec fn fetch_result(m: RegistryModel, k: RecordKey) -> Option<Seq<u8>> {
    if m.1.contains_key(k) {
        Some(m.1[k])
    } else {
        None
    }
}

/// A blob is stored under exactly the published keys.
pub open spec fn consistent(m: RegistryModel) -> bool {
    m.1.dom() == m.0
}

/// A publish that creates its record makes the bytes it was given exactly
/// what a fetch of that key returns.
pub proof fn lemma_fetch_after_publish(m: RegistryModel, k: RecordKey, b: Seq<u8>)
    ensures
        publish_step(m, k, b).1 == Publish::Created ==> fetch_result(publish_step(m, k, b).0, k) == Some(b),
{
}

/// Publishing a key a second time is a conflict that changes nothing: a
/// fetch still returns the bytes of the first publish.
pub proof fn lemma_republish_conflicts(m: RegistryModel, k: RecordKey, first: Seq<u8>, second: Seq<u8>)
    ensures
        publish_step(publish_step(m, k, first).0, k, second).1 == Publish::Conflict,
        publish_step(publish_step(m, k, first).0, k, second).0 == publish_step(m, k, first).0,
        publish_step(m, k, first).1 == Publish::Created ==> fetch_result(
            publish_step(publish_step(m, k, first).0, k, second).0,
            k,
        ) == Some(first),
{
}

/// In a consistent registry a key that was never published has no blob.
pub proof fn lemma_fetch_unpublished(m: RegistryModel, k: RecordKey)
    requires
        consistent(m),
        !m.0.contains(k),
    ensures
        fetch_result(m, k) is None,
{
}

/// Publishing keeps the registry consistent.
pub proof fn lemma_publish_consistent(m: RegistryModel, k: RecordKey, b: Seq<u8>)
    requires
        consistent(m),
    ensures
        consistent(publish_step(m, k, b).0),
{
    if !m.0.contains(k) {
        assert(m.1.insert(k, b).dom() =~= m.0.insert(k));
    }
}

/// The long-lived context of the registry: its catalog and its store.
pub struct RegistryService {
    catalog: VersionCatalog,
    store: ArtifactStore,
}

impl View for RegistryService {
    type V = RegistryModel;

    closed spec fn view(&self) -> RegistryModel {
        (self.catalog@, self.store@)
    }
}

impl RegistryService {
    pub closed spec fn wf(&self) -> bool {
        self.catalog.wf() && consistent(self@)
    }

    pub fn new() -> (r: RegistryService)
        ensures
            r.wf(),
            r@.0 == Set::<RecordKey>::empty(),
    {
        let r = RegistryService { catalog: VersionCatalog::new(), store: ArtifactStore::new() };
        assert(r@.1.dom() =~= r@.0);
        r
    }

    /// The catalog of published records.
    pub fn catalog(&self) -> (r: &VersionCatalog)
        ensures
            r@ == self@.0,
    {
        &self.catalog
    }

    /// Publishes `bytes` as `id` at `version`. The catalog decides first:
    /// only a registration that creates the record goes on to store the
    /// blob, so a published blob is never overwritten.
    ///
    /// Both steps happen under one exclusive borrow, so no caller ever sees
    /// a record without its blob here. A durable copy written afterwards
    /// can still fail; the record then stays published and the caller is
    /// told of the failure, with no rollback.
    pub fn publish(&mut self, id: &str, version: Version, bytes: Vec<u8>) -> (r: Publish)
        requires
            old(self).wf(),
        ensures
            final(self).wf(),
            (final(self)@, r) == publish_step(old(self)@, (id@, version), bytes@),
    {
        if self.catalog.register(id, version) {
            self.store.put(id, version, bytes);
            assert(self@.1.dom() =~= self@.0);
            Publish::Created
        } else {
            assert(self@.0 =~= old(self)@.0);
            Publish::Conflict
        }
    }

    /// The blob of `id` at `version`; `NotFound` where none is stored.
    pub fn fetch_artifact(&self, id: &str, version: Version) -> (r: Result<Vec<u8>, NotFound>)
        ensures
            match r {
                Ok(b) => fetch_result(self@, (id@, version)) == Some(b@),
                Err(_) => fetch_result(self@, (id@, version)) is None,
            },
    {
        match self.store.get(id, version) {
            Some(b) => Ok(b),
            None => Err(NotFound),
        }
    }

    /// The latest version of `id` that satisfies `req`.
    pub fn resolve_one(&self, id: &str, req: &Requirement) -> (r: Result<Mod, NotFound>)
        ensures
            match r {
                Ok(m) => is_resolution(self@.0, id@, req, 1, seq![m]),
                Err(_) => is_resolution(self@.0, id@, req, 1, Seq::<Mod>::empty()),
            },
    {
        let mut all = self.catalog.resolve(id, req, 1);
        let ghost found = all@;
        match all.pop() {
            Some(m) => {
                assert(found =~= seq![m]);
                Ok(m)
            },
            None => Err(NotFound),
        }
    }

    /// Every version of `id` that satisfies `req`, highest first.
    pub fn resolve_all(&self, id: &str, req: &Requirement) -> (r: Vec<Mod>)
        ensures
            is_resolution(self@.0, id@, req, 0, r@),
    {
        self.catalog.resolve(id, req, 0)
    }

    /// The `n` highest versions of `id` that satisfy `req`, highest first;
    /// all of them when `n` is zero.
    pub fn resolve_top_n(&self, id: &str, req: &Requirement, n: usize) -> (r: Vec<Mod>)
        ensures
            is_resolution(self@.0, id@, req, n as nat, r@),
    {
        self.catalog.resolve(id, req, n)
    }

    /// Answers a resolution query: with `limit` one, the latest satisfying
    /// version or `NotFound`; otherwise the satisfying versions, highest
    /// first, at most `limit` of them, all when `limit` is zero.
    pub fn resolve_query(&self, id: &str, req: &Requirement, limit: usize) -> (r: Result<Resolved, NotFound>)
        ensures
            limit == 1 ==> match r {
                Ok(Resolved::One(m)) => is_resolution(self@.0, id@, req, 1, seq![m]),
                Ok(Resolved::Many(_)) => false,
                Err(_) => is_resolution(self@.0, id@, req, 1, Seq::<Mod>::empty()),
            },
            limit != 1 ==> match r {
                Ok(Resolved::Many(v)) => is_resolution(self@.0, id@, req, limit as nat, v@),
                _ => false,
            },
    {
        if limit == 1 {
            match self.resolve_one(id, req) {
                Ok(m) => Ok(Resolved::One(m)),
                Err(e) => Err(e),
            }
        } else if limit == 0 {
            Ok(Resolved::Many(self.resolve_all(id, req)))
        } else {
            Ok(Resolved::Many(self.resolve_top_n(id, req, limit)))
        }
    }
}

} // verus!
