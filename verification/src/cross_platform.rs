//! A value that is either uniform across all platforms or given
//! per platform.

use vstd::prelude::*;

use crate::platform::Platform;
use crate::platform::PlatformId;

verus! {

/// A `T` that may or may not depend on the platform to install for.
pub enum MaybeCrossPlatform<T> {
    /// The same `T` on every platform.
    Cross(T),
    /// A `T` per platform, missing on platforms without an entry.
    NotCross(Vec<(Platform, T)>),
}

/// The value at the first entry for platform `p`, if any.
pub open spec fn plat_lookup<T>(entries: Seq<(Platform, T)>, p: PlatformId) -> Option<T>
    decreases entries.len(),
{
    if entries.len() == 0 {
        None
    } else if entries[0].0@ == p {
        Some(entries[0].1)
    } else {
        plat_lookup(entries.drop_first(), p)
    }
}

impl<T> MaybeCrossPlatform<T> {
    /// The value this resolves to on platform `p`: the uniform value, or
    /// the entry for `p`, or nothing.
    pub open spec fn spec_get(self, p: PlatformId) -> Option<T> {
        match self {
            MaybeCrossPlatform::Cross(t) => Some(t),
            MaybeCrossPlatform::NotCross(entries) => plat_lookup(entries@, p),
        }
    }

    /// Resolves the value for the current platform.
    pub fn get(&self, current: &Platform) -> (r: Option<&T>)
        ensures
            match r {
                Some(t) => self.spec_get(current@) == Some(*t),
                None => self.spec_get(current@) is None,
            },
    {
        match self {
            MaybeCrossPlatform::Cross(t) => Some(t),
            MaybeCrossPlatform::NotCross(entries) => {
                proof {
                    assert(entries@.skip(0) =~= entries@);
                }
                let mut i: usize = 0;
                while i < entries.len()
                    invariant
                        0 <= i <= entries@.len(),
                        *self == MaybeCrossPlatform::NotCross(*entries),
                        plat_lookup(entries@, current@) == plat_lookup(
                            entries@.skip(i as int),
                            current@,
                        ),
                    decreases entries@.len() - i,
                {
                    if entries[i].0 == *current {
                        proof {
                            assert(entries@.skip(i as int)[0] == entries@[i as int]);
                        }
                        return Some(&entries[i].1);
                    }
                    proof {
                        assert(entries@.skip(i as int).drop_first() =~= entries@.skip(i + 1));
                    }
                    i = i + 1;
                }
                None
            },
        }
    }

    /// Resolves the value for the current platform, taking it out of the
    /// container.
    pub fn get_owned(self, current: &Platform) -> (r: Option<T>)
        ensures
            r == self.spec_get(current@),
    {
        match self {
            MaybeCrossPlatform::Cross(t) => Some(t),
            MaybeCrossPlatform::NotCross(mut entries) => {
                proof {
                    assert(entries@.skip(0) =~= entries@);
                }
                let ghost all = entries@;
                let mut i: usize = 0;
                while i < entries.len()
                    invariant
                        0 <= i <= entries@.len(),
                        entries@ == all,
                        self.spec_get(current@) == plat_lookup(all, current@),
                        plat_lookup(all, current@) == plat_lookup(all.skip(i as int), current@),
                    decreases entries@.len() - i,
                {
                    if entries[i].0 == *current {
                        proof {
                            assert(all.skip(i as int)[0] == all[i as int]);
                        }
                        let pair = entries.remove(i);
                        return Some(pair.1);
                    }
                    proof {
                        assert(all.skip(i as int).drop_first() =~= all.skip(i + 1));
                    }
                    i = i + 1;
                }
                None
            },
        }
    }
}

} // verus!
