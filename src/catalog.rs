//! The version catalog: the append-only record of which (identifier,
//! version) pairs have been published, and resolution of requirements
//! against it.
use vstd::prelude::*;
use crate::version::{Requirement, Version, version_lt};

verus! {

/// The key of a published record: an identifier's text and a version.
pub type RecordKey = (Seq<char>, Version);

/// A published version of an identifier.
#[derive(Debug, PartialEq)]
pub struct Mod {
    pub id: String,
    pub version: Version,
}

impl Mod {
    pub open spec fn key(&self) -> RecordKey {
        (self.id@, self.version)
    }

    /// Every identifier with a published version, each once.
    pub fn list(catalog: &VersionCatalog) -> (r: Vec<String>)
        ensures
            forall|i: int, j: int| 0 <= i < j < r@.len() ==> #[trigger] r@[i]@ != #[trigger] r@[j]@,
            forall|s: Seq<char>| #[trigger] names(r@, s) <==> publishes(catalog@, s),
    {
        catalog.list_identifiers()
    }

    /// Records `id` at `ver` unless it is there already; `true` when this
    /// call created the record.
    pub fn insert(id: &str, ver: &Version, catalog: &mut VersionCatalog) -> (r: bool)
        requires
            old(catalog).wf(),
        ensures
            final(catalog).wf(),
            (final(catalog)@, r) == register_step(old(catalog)@, (id@, *ver)),
    {
        catalog.register(id, *ver)
    }

    /// The latest version of `id` that satisfies `req`, if any.
    pub fn resolve_one(id: &str, req: &Requirement, catalog: &VersionCatalog) -> (r: Option<Mod>)
        ensures
            match r {
                Some(m) => is_resolution(catalog@, id@, req, 1, seq![m]),
                None => is_resolution(catalog@, id@, req, 1, Seq::<Mod>::empty()),
            },
    {
        let mut found = catalog.resolve(id, req, 1);
        let ghost all = found@;
        match found.pop() {
            Some(m) => {
                assert(all =~= seq![m]);
                Some(m)
            },
            None => None,
        }
    }

    /// Every version of `id` that satisfies `req`, highest first.
    pub fn resolve_all(id: &str, req: &Requirement, catalog: &VersionCatalog) -> (r: Vec<Mod>)
        ensures
            is_resolution(catalog@, id@, req, 0, r@),
    {
        catalog.resolve(id, req, 0)
    }

    /// The `n` highest versions of `id` that satisfy `req`, highest first;
    /// all of them when `n` is zero.
    pub fn resolve_n(id: &str, req: &Requirement, catalog: &VersionCatalog, n: usize) -> (r: Vec<Mod>)
        ensures
            is_resolution(catalog@, id@, req, n as nat, r@),
    {
        catalog.resolve(id, req, n)
    }
}

/// Every (identifier, version) pair published so far, each recorded once.
pub struct VersionCatalog {
    records: Vec<Mod>,
}

impl View for VersionCatalog {
    type V = Set<RecordKey>;

    closed spec fn view(&self) -> Set<RecordKey> {
        Set::new(|k: RecordKey| exists|i: int| 0 <= i < self.records@.len() && #[trigger] self.records@[i].key() == k)
    }
}

/// Registering `k` on a catalog whose published keys are `s`: the keys
/// afterwards, and whether this registration created the record.
pub open spec fn register_step(s: Set<RecordKey>, k: RecordKey) -> (Set<RecordKey>, bool) {
    (s.insert(k), !s.contains(k))
}

/// Some record of `s` has identifier `id`.
pub open spec fn publishes(s: Set<RecordKey>, id: Seq<char>) -> bool {
    exists|v: Version| #[trigger] s.contains((id, v))
}

/// One of `r` reads `id`.
pub open spec fn names(r: Seq<String>, id: Seq<char>) -> bool {
    exists|i: int| 0 <= i < r.len() && #[trigger] r[i]@ == id
}

/// Some record of `r` is at version `v`.
pub open spec fn lists(r: Seq<Mod>, v: Version) -> bool {
    exists|i: int| 0 <= i < r.len() && #[trigger] r[i].version == v
}

/// Every record of `r` is at a version above `v`.
pub open spec fn outranked(r: Seq<Mod>, v: Version) -> bool {
    forall|i: int| 0 <= i < r.len() ==> version_lt(v, #[trigger] r[i].version)
}

/// The versions of `r` strictly decrease.
pub open spec fn descending(r: Seq<Mod>) -> bool {
    forall|i: int, j: int| 0 <= i < j < r.len() ==> version_lt(#[trigger] r[j].version, #[trigger] r[i].version)
}

/// `r` is the answer to resolving `id` under `req` with `limit` against the
/// published keys `s`: records of `id` that satisfy `req`, highest version
/// first, at most `limit` of them when `limit` is not zero, and every
/// satisfying version left out ranks below all that were returned, which
/// happens only when `limit` cut the answer short.
pub open spec fn is_resolution(s: Set<RecordKey>, id: Seq<char>, req: &Requirement, limit: nat, r: Seq<Mod>) -> bool {
    &&& forall|i: int| 0 <= i < r.len() ==> (#[trigger] r[i]).id@ == id && s.contains(r[i].key()) && req.spec_matches(r[i].version)
    &&& descending(r)
    &&& limit > 0 ==> r.len() <= limit
    &&& forall|v: Version| #[trigger] s.contains((id, v)) && req.spec_matches(v) && !lists(r, v)
        ==> limit > 0 && r.len() == limit && outranked(r, v)
}

/// `r` with `m` inserted at `pos`, then cut back to `limit` records when
/// `limit` is not zero.
pub open spec fn insert_bounded(r: Seq<Mod>, pos: int, m: Mod, limit: nat) -> Seq<Mod> {
    let ins = r.insert(pos, m);
    if limit > 0 && ins.len() > limit {
        ins.drop_last()
    } else {
        ins
    }
}

proof fn lemma_insert_bounded(r: Seq<Mod>, pos: int, m: Mod, limit: nat)
    requires
        descending(r),
        limit > 0 ==> r.len() <= limit,
        0 <= pos <= r.len(),
        forall|i: int| 0 <= i < pos ==> version_lt(m.version, #[trigger] r[i].version),
        pos < r.len() ==> version_lt(r[pos].version, m.version),
    ensures
        descending(insert_bounded(r, pos, m, limit)),
        limit > 0 ==> insert_bounded(r, pos, m, limit).len() <= limit,
        lists(insert_bounded(r, pos, m, limit), m.version) || (limit > 0 && insert_bounded(r, pos, m, limit).len() == limit
            && outranked(insert_bounded(r, pos, m, limit), m.version)),
        forall|v: Version| #[trigger] lists(r, v) ==> lists(insert_bounded(r, pos, m, limit), v) || (limit > 0
            && insert_bounded(r, pos, m, limit).len() == limit && outranked(insert_bounded(r, pos, m, limit), v)),
        forall|v: Version| limit > 0 && r.len() == limit && #[trigger] outranked(r, v) ==> insert_bounded(r, pos, m, limit).len() == limit
            && outranked(insert_bounded(r, pos, m, limit), v),
{
    let ins = r.insert(pos, m);
    let new = insert_bounded(r, pos, m, limit);
    assert forall|i: int, j: int| 0 <= i < j < ins.len() implies version_lt(#[trigger] ins[j].version, #[trigger] ins[i].version) by {
        if j < pos {
        } else if j == pos {
        } else if i < pos {
            assert(version_lt(r[j - 1].version, r[pos].version) || j - 1 == pos);
        } else if i == pos {
            assert(version_lt(r[j - 1].version, r[pos].version) || j - 1 == pos);
        } else {
        }
    }
    assert(descending(new));
    let popped = limit > 0 && ins.len() > limit;
    if popped {
        assert(ins.last() == ins[ins.len() - 1]);
        assert(outranked(new, ins.last().version));
    }
    if pos < new.len() {
        assert(new[pos].version == m.version);
    }
    assert forall|v: Version| #[trigger] lists(r, v) implies lists(new, v) || (limit > 0 && new.len() == limit && outranked(new, v)) by {
        let a = choose|a: int| 0 <= a < r.len() && #[trigger] r[a].version == v;
        let b = if a < pos { a } else { a + 1 };
        assert(ins[b].version == v);
        if b < new.len() {
            assert(new[b].version == v);
        }
    }
    assert forall|v: Version| limit > 0 && r.len() == limit && #[trigger] outranked(r, v)
        implies new.len() == limit && outranked(new, v) by {
        assert forall|i: int| 0 <= i < new.len() implies version_lt(v, #[trigger] new[i].version) by {
            if i < pos {
                assert(new[i] == r[i]);
            } else if i == pos {
                assert(version_lt(v, r[pos].version));
            } else {
                assert(new[i] == r[i - 1]);
            }
        }
    }
}

/// The keys published after registering each of `ks` in turn, starting
/// from the keys `s`.
pub open spec fn register_all(s: Set<RecordKey>, ks: Seq<RecordKey>) -> Set<RecordKey>
    decreases ks.len(),
{
    if ks.len() == 0 {
        s
    } else {
        register_step(register_all(s, ks.drop_last()), ks.last()).0
    }
}

/// What each registration of `ks`, made in turn from the keys `s`, returns.
pub open spec fn register_results(s: Set<RecordKey>, ks: Seq<RecordKey>) -> Seq<bool>
    decreases ks.len(),
{
    if ks.len() == 0 {
        Seq::empty()
    } else {
        register_results(s, ks.drop_last()).push(register_step(register_all(s, ks.drop_last()), ks.last()).1)
    }
}

/// How many of the registrations of `k` among `ks` returned `true`, where
/// `rs` holds what each registration returned.
pub open spec fn wins(ks: Seq<RecordKey>, rs: Seq<bool>, k: RecordKey) -> nat
    decreases ks.len(),
{
    if ks.len() == 0 || rs.len() == 0 {
        0
    } else {
        wins(ks.drop_last(), rs.drop_last(), k) + if ks.last() == k && rs.last() {
            1nat
        } else {
            0nat
        }
    }
}

/// Registrations made one after another, of any keys and in any order (as
/// concurrent callers are served), return `true` for a given key exactly
/// once when it was not published before and is registered at all, and
/// never otherwise.
pub proof fn lemma_register_exactly_once(s: Set<RecordKey>, ks: Seq<RecordKey>, k: RecordKey)
    ensures
        wins(ks, register_results(s, ks), k) == if !s.contains(k) && ks.contains(k) {
            1nat
        } else {
            0nat
        },
        register_all(s, ks).contains(k) == (s.contains(k) || ks.contains(k)),
    decreases ks.len(),
{
    if ks.len() > 0 {
        let prev = ks.drop_last();
        lemma_register_exactly_once(s, prev, k);
        assert(register_results(s, ks).drop_last() =~= register_results(s, prev));
        assert(register_results(s, ks).len() == ks.len()) by {
            lemma_register_results_len(s, ks);
        }
        assert(ks.contains(k) == (prev.contains(k) || ks.last() == k)) by {
            if ks.contains(k) && ks.last() != k {
                let i = choose|i: int| 0 <= i < ks.len() && ks[i] == k;
                assert(prev[i] == k);
            }
            if prev.contains(k) {
                let i = choose|i: int| 0 <= i < prev.len() && prev[i] == k;
                assert(ks[i] == k);
            }
            if ks.last() == k {
                assert(ks[ks.len() - 1] == k);
            }
        }
    }
}

proof fn lemma_register_results_len(s: Set<RecordKey>, ks: Seq<RecordKey>)
    ensures
        register_results(s, ks).len() == ks.len(),
    decreases ks.len(),
{
    if ks.len() > 0 {
        lemma_register_results_len(s, ks.drop_last());
    }
}

/// Resolving an identifier with no published version gives an empty
/// answer, whatever the requirement and the limit.
pub proof fn lemma_unknown_identifier_resolves_empty(
    s: Set<RecordKey>,
    id: Seq<char>,
    req: &Requirement,
    limit: nat,
    r: Seq<Mod>,
)
    requires
        forall|v: Version| !s.contains((id, v)),
        is_resolution(s, id, req, limit, r),
    ensures
        r.len() == 0,
{
    if r.len() > 0 {
        assert(s.contains(r[0].key()));
        assert(r[0].key() == (id, r[0].version));
    }
}

impl VersionCatalog {
    /// No two records share both identifier and version.
    pub closed spec fn wf(&self) -> bool {
        forall|i: int, j: int|
            0 <= i < j < self.records@.len() ==> #[trigger] self.records@[i].key() != #[trigger] self.records@[j].key()
    }

    pub fn new() -> (r: VersionCatalog)
        ensures
            r.wf(),
            r@ == Set::<RecordKey>::empty(),
    {
        let r = VersionCatalog { records: Vec::new() };
        assert(r@ =~= Set::<RecordKey>::empty());
        r
    }

    /// Whether a record for `id` at `version` exists.
    pub fn contains(&self, id: &str, version: Version) -> (r: bool)
        ensures
            r == self@.contains((id@, version)),
    {
        let key = id.to_owned();
        let mut i: usize = 0;
        while i < self.records.len()
            invariant
                0 <= i <= self.records@.len(),
                key@ == id@,
                forall|j: int| 0 <= j < i ==> #[trigger] self.records@[j].key() != (id@, version),
            decreases self.records@.len() - i,
        {
            if self.records[i].id == key && self.records[i].version == version {
                assert(self.records@[i as int].key() == (id@, version));
                return true;
            }
            i += 1;
        }
        false
    }

    /// Inserts the record for `id` at `version` if it is absent. Returns
    /// `true` when this call created it, `false` when it already existed.
    pub fn register(&mut self, id: &str, version: Version) -> (r: bool)
        requires
            old(self).wf(),
        ensures
            final(self).wf(),
            (final(self)@, r) == register_step(old(self)@, (id@, version)),
    {
        if self.contains(id, version) {
            assert(self@.insert((id@, version)) =~= self@);
            false
        } else {
            let m = Mod { id: id.to_owned(), version };
            let ghost before = self.records@;
            self.records.push(m);
            assert(self.records@[before.len() as int].key() == (id@, version));
            assert forall|k: RecordKey| #[trigger] self@.contains(k) == old(self)@.insert((id@, version)).contains(k) by {
                if old(self)@.contains(k) && k != (id@, version) {
                    let i = choose|i: int| 0 <= i < before.len() && #[trigger] before[i].key() == k;
                    assert(self.records@[i].key() == k);
                }
            }
            assert(self@ =~= old(self)@.insert((id@, version)));
            true
        }
    }

    /// Every identifier with at least one published version, each once.
    pub fn list_identifiers(&self) -> (r: Vec<String>)
        ensures
            forall|i: int, j: int| 0 <= i < j < r@.len() ==> #[trigger] r@[i]@ != #[trigger] r@[j]@,
            forall|s: Seq<char>| #[trigger] names(r@, s) <==> publishes(self@, s),
    {
        let mut out: Vec<String> = Vec::new();
        let mut i: usize = 0;
        while i < self.records.len()
            invariant
                0 <= i <= self.records@.len(),
                forall|a: int, b: int| 0 <= a < b < out@.len() ==> #[trigger] out@[a]@ != #[trigger] out@[b]@,
                forall|a: int| 0 <= a < out@.len() ==> publishes(self@, #[trigger] out@[a]@),
                forall|j: int| 0 <= j < i ==> names(out@, #[trigger] self.records@[j].id@),
            decreases self.records@.len() - i,
        {
            let mut a: usize = 0;
            let mut seen = false;
            while a < out.len()
                invariant
                    0 <= a <= out@.len(),
                    i < self.records@.len(),
                    seen ==> names(out@, self.records@[i as int].id@),
                    !seen ==> forall|b: int| 0 <= b < a ==> #[trigger] out@[b]@ != self.records@[i as int].id@,
                decreases out@.len() - a,
            {
                if out[a] == self.records[i].id {
                    seen = true;
                }
                a += 1;
            }
            proof {
                assert(self@.contains(self.records@[i as int].key()));
            }
            if !seen {
                let ghost prev = out@;
                out.push(self.records[i].id.clone());
                let ghost n = out@.len() - 1;
                assert(out@[n]@ == self.records@[i as int].id@);
                assert forall|j: int| 0 <= j < i implies names(out@, #[trigger] self.records@[j].id@) by {
                    let a = choose|a: int| 0 <= a < prev.len() && #[trigger] prev[a]@ == self.records@[j].id@;
                    assert(out@[a] == prev[a]);
                }
            }
            i += 1;
        }
        assert forall|s: Seq<char>| #[trigger] publishes(self@, s) implies names(out@, s) by {
            let v = choose|v: Version| #[trigger] self@.contains((s, v));
            let j = choose|j: int| 0 <= j < self.records@.len() && #[trigger] self.records@[j].key() == (s, v);
            assert(self.records@[j].id@ == s);
        }
        out
    }

    /// The records of `id` whose version satisfies `req`, highest version
    /// first; at most `limit` of them, or all when `limit` is zero.
    pub fn resolve(&self, id: &str, req: &Requirement, limit: usize) -> (r: Vec<Mod>)
        ensures
            is_resolution(self@, id@, req, limit as nat, r@),
    {
        let key = id.to_owned();
        let mut out: Vec<Mod> = Vec::new();
        let mut j: usize = 0;
        while j < self.records.len()
            invariant
                0 <= j <= self.records@.len(),
                key@ == id@,
                forall|i: int| 0 <= i < out@.len()
                    ==> (#[trigger] out@[i]).id@ == id@ && self@.contains(out@[i].key()) && req.spec_matches(out@[i].version),
                descending(out@),
                limit > 0 ==> out@.len() <= limit,
                forall|k: int| 0 <= k < j && (#[trigger] self.records@[k]).id@ == id@ && req.spec_matches(self.records@[k].version)
                    ==> lists(out@, self.records@[k].version)
                        || (limit > 0 && out@.len() == limit && outranked(out@, self.records@[k].version)),
            decreases self.records@.len() - j,
        {
            let ghost rec = self.records@[j as int];
            assert(self@.contains(rec.key()));
            if self.records[j].id == key && req.matches(&self.records[j].version) {
                let v = self.records[j].version;
                let mut pos: usize = 0;
                while pos < out.len() && v.lt(&out[pos].version)
                    invariant
                        0 <= pos <= out@.len(),
                        forall|i: int| 0 <= i < pos ==> version_lt(v, #[trigger] out@[i].version),
                    decreases out@.len() - pos,
                {
                    pos += 1;
                }
                if pos < out.len() && out[pos].version == v {
                    assert(lists(out@, v));
                } else {
                    let m = Mod { id: self.records[j].id.clone(), version: v };
                    let ghost prev = out@;
                    proof {
                        if pos < prev.len() {
                            crate::version::lemma_version_order(v, prev[pos as int].version, v);
                        }
                        lemma_insert_bounded(prev, pos as int, m, limit as nat);
                    }
                    out.insert(pos, m);
                    if limit > 0 && out.len() > limit {
                        out.pop();
                    }
                    assert(out@ =~= insert_bounded(prev, pos as int, m, limit as nat));
                    assert forall|i: int| 0 <= i < out@.len() implies (#[trigger] out@[i]).id@ == id@
                        && self@.contains(out@[i].key()) && req.spec_matches(out@[i].version) by {
                        if i > pos {
                            assert(out@[i] == prev[i - 1]);
                        } else if i < pos {
                            assert(out@[i] == prev[i]);
                        }
                    }
                }
            }
            j += 1;
        }
        assert forall|v: Version| #[trigger] self@.contains((id@, v)) && req.spec_matches(v) && !lists(out@, v)
            implies limit > 0 && out@.len() == limit && outranked(out@, v) by {
            let k = choose|k: int| 0 <= k < self.records@.len() && #[trigger] self.records@[k].key() == (id@, v);
            assert(self.records@[k].id@ == id@);
        }
        out
    }
}

} // verus!
