//! The settings a registry runs with, and the check of a publisher's key.
use vstd::prelude::*;
use crate::errors::Unauthorized;

verus! {

/// The settings of a running registry.
#[derive(Debug)]
pub struct Config {
    /// The port the registry listens on.
    pub port: u16,
    /// The directory under which blobs are kept, one file per key.
    pub downloads_path: String,
    /// The level of detail to log at, where one is given.
    pub log_level: Option<String>,
    /// The keys that allow a caller to publish.
    pub keys: Vec<String>,
}

impl Config {
    /// Whether `key` is one of the publishing keys.
    pub open spec fn accepts(&self, key: Seq<char>) -> bool {
        exists|i: int| 0 <= i < self.keys@.len() && #[trigger] self.keys@[i]@ == key
    }

    /// Lets a publish through when the caller presented one of the keys.
    pub fn authorize(&self, key: Option<&str>) -> (r: Result<(), Unauthorized>)
        ensures
            r is Ok <==> key is Some && self.accepts(key.unwrap()@),
    {
        match key {
            None => Err(Unauthorized),
            Some(k) => {
                let presented = k.to_owned();
                let mut found = false;
                let mut i: usize = 0;
                while i < self.keys.len() && !found
                    invariant
                        0 <= i <= self.keys@.len(),
                        presented@ == k@,
                        found ==> self.accepts(k@),
                        !found ==> forall|j: int| 0 <= j < i ==> #[trigger] self.keys@[j]@ != k@,
                    decreases self.keys@.len() - i,
                {
                    if self.keys[i] == presented {
                        assert(self.keys@[i as int]@ == k@);
                        found = true;
                    }
                    i += 1;
                }
                if found {
                    Ok(())
                } else {
                    Err(Unauthorized)
                }
            },
        }
    }
}

} // verus!
