//! The artifact store: raw bytes addressed by (identifier, version).
use vstd::prelude::*;
use crate::catalog::RecordKey;
use crate::version::Version;

verus! {

struct Blob {
    id: String,
    version: Version,
    bytes: Vec<u8>,
}

/// What a sequence of writes leaves behind: the last bytes written under
/// each key.
closed spec fn contents_of(s: Seq<Blob>) -> Map<RecordKey, Seq<u8>>
    decreases s.len(),
{
    if s.len() == 0 {
        Map::empty()
    } else {
        contents_of(s.drop_last()).insert((s.last().id@, s.last().version), s.last().bytes@)
    }
}

/// Byte storage with one blob per (identifier, version) key.
pub struct ArtifactStore {
    blobs: Vec<Blob>,
}

impl View for ArtifactStore {
    type V = Map<RecordKey, Seq<u8>>;

    closed spec fn view(&self) -> Map<RecordKey, Seq<u8>> {
        contents_of(self.blobs@)
    }
}

fn copy_bytes(b: &Vec<u8>) -> (r: Vec<u8>)
    ensures
        r@ == b@,
{
    let mut r: Vec<u8> = Vec::new();
    let mut i: usize = 0;
    while i < b.len()
        invariant
            0 <= i <= b@.len(),
            r@ == b@.subrange(0, i as int),
        decreases b@.len() - i,
    {
        r.push(b[i]);
        i += 1;
        assert(r@ =~= b@.subrange(0, i as int));
    }
    assert(b@.subrange(0, b@.len() as int) =~= b@);
    r
}

impl ArtifactStore {
    pub fn new() -> (r: ArtifactStore)
        ensures
            r@ == Map::<RecordKey, Seq<u8>>::empty(),
    {
        ArtifactStore { blobs: Vec::new() }
    }

    /// Writes `bytes` as the blob of `id` at `version`, replacing any blob
    /// already there.
    pub fn put(&mut self, id: &str, version: Version, bytes: Vec<u8>)
        ensures
            final(self)@ == old(self)@.insert((id@, version), bytes@),
    {
        let blob = Blob { id: id.to_owned(), version, bytes };
        self.blobs.push(blob);
        assert(self.blobs@.drop_last() =~= old(self).blobs@);
    }

    /// The blob of `id` at `version`, or `None` where none was written.
    pub fn get(&self, id: &str, version: Version) -> (r: Option<Vec<u8>>)
        ensures
            match r {
                Some(b) => self@.contains_key((id@, version)) && self@[(id@, version)] == b@,
                None => !self@.contains_key((id@, version)),
            },
    {
        let key = id.to_owned();
        let ghost k = (id@, version);
        let mut i: usize = self.blobs.len();
        assert(self.blobs@.take(i as int) =~= self.blobs@);
        while i > 0
            invariant
                0 <= i <= self.blobs@.len(),
                key@ == id@,
                k == (id@, version),
                contents_of(self.blobs@).contains_key(k) == contents_of(self.blobs@.take(i as int)).contains_key(k),
                contents_of(self.blobs@).contains_key(k) ==> contents_of(self.blobs@)[k] == contents_of(
                    self.blobs@.take(i as int),
                )[k],
            decreases i,
        {
            let ghost t = self.blobs@.take(i as int);
            assert(t.drop_last() =~= self.blobs@.take(i - 1));
            assert(t.last() == self.blobs@[i - 1]);
            assert(contents_of(t) == contents_of(t.drop_last()).insert((t.last().id@, t.last().version), t.last().bytes@));
            i -= 1;
            let same = self.blobs[i].id == key && self.blobs[i].version == version;
            if same {
                assert(contents_of(t)[k] == self.blobs@[i as int].bytes@);
                return Some(copy_bytes(&self.blobs[i].bytes));
            }
        }
        assert(self.blobs@.take(0) =~= Seq::<Blob>::empty());
        None
    }
}

} // verus!
