//! Hot reload of a cart file: the decisions of one poll. The caller reads
//! the file's modification time and contents and performs the reload; the
//! watch decides, from what it saw last, whether each step is needed.

use vstd::prelude::*;

verus! {

/// What the watch remembers of the cart file: the bytes last loaded and the
/// modification time last seen (nanoseconds from the Unix epoch, negative
/// before it).
pub struct Watch {
    pub bytes: Vec<u8>,
    pub mtime: Option<i128>,
    pub path: String,
}

impl Watch {
    pub fn new(path: String, bytes: Vec<u8>, mtime: Option<i128>) -> (r: Watch)
        ensures
            r.bytes@ == bytes@,
            r.mtime == mtime,
            r.path@ == path@,
    {
        Watch { bytes, mtime, path }
    }

    /// Takes the file's current modification time, `None` when it cannot
    /// be had. Returns whether the file changed since it was last seen, in
    /// which case the new time is remembered.
    pub fn observe(&mut self, mtime: Option<i128>) -> (changed: bool)
        ensures
            changed == (mtime is Some && mtime != old(self).mtime),
            final(self).mtime == if changed { mtime } else { old(self).mtime },
            final(self).bytes@ == old(self).bytes@,
            final(self).path@ == old(self).path@,
    {
        match mtime {
            None => false,
            Some(t) => {
                let same = match self.mtime {
                    Some(u) => t == u,
                    None => false,
                };
                if same {
                    false
                } else {
                    self.mtime = Some(t);
                    true
                }
            },
        }
    }

    /// Whether freshly read contents differ from the bytes last loaded;
    /// only then is a reload worth trying.
    pub fn is_new(&self, bytes: &[u8]) -> (r: bool)
        ensures
            r == (bytes@ != self.bytes@),
    {
        if bytes.len() != self.bytes.len() {
            return true;
        }
        let mut i: usize = 0;
        while i < bytes.len()
            invariant
                bytes@.len() == self.bytes@.len(),
                i <= bytes@.len(),
                forall|j: int| 0 <= j < i ==> bytes@[j] == self.bytes@[j],
            decreases bytes@.len() - i,
        {
            if bytes[i] != self.bytes[i] {
                return true;
            }
            i = i + 1;
        }
        assert(bytes@ == self.bytes@);
        false
    }

    /// Records contents that were reloaded.
    pub fn reloaded(&mut self, bytes: Vec<u8>)
        ensures
            final(self).bytes@ == bytes@,
            final(self).mtime == old(self).mtime,
            final(self).path@ == old(self).path@,
    {
        self.bytes = bytes;
    }
}

/// A poll acts once per change: right after a time was observed, the same
/// time is no change.
pub proof fn law_watch_acts_once(seen: Option<i128>, mtime: Option<i128>)
    ensures
        ({
            let changed = mtime is Some && mtime != seen;
            let now = if changed { mtime } else { seen };
            !(mtime is Some && mtime != now)
        }),
{
}

} // verus!
