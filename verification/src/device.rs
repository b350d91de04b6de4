//! The block-device resolver.
//!
//! A `major:minor` identifier resolves to a device name by reading the
//! symbolic link at the device registry path `/sys/dev/block/MAJ:MIN` and
//! taking the link target's final path component. The read itself is I/O
//! and happens outside this crate; this module derives the registry path,
//! extracts the name from a link target, and keeps the names resolved
//! during one collection cycle in a directory, so that resolving the same
//! identifier twice in a cycle provably yields the same name.

use vstd::prelude::*;
use vstd::string::StrSliceExecFns;
use vstd::string::StringExecFns;

use crate::errors::CollectError;
use crate::text::str_eq;

verus! {

/// Index of the last occurrence of `c` in `s`, or `-1` if absent.
pub open spec fn last_at(s: Seq<char>, c: char) -> int
    decreases s.len(),
{
    if s.len() == 0 {
        -1
    } else if s.last() == c {
        s.len() - 1
    } else {
        last_at(s.drop_last(), c)
    }
}

pub proof fn lemma_last_at_is(s: Seq<char>, c: char, k: int)
    requires
        -1 <= k < s.len(),
        k == -1 || s[k] == c,
        forall|j: int| k < j < s.len() ==> s[j] != c,
    ensures
        last_at(s, c) == k,
    decreases s.len(),
{
    if s.len() == 0 {
    } else if s.last() == c {
        assert(k == s.len() - 1);
    } else {
        assert(k < s.len() - 1);
        assert forall|j: int| k < j < s.len() - 1 implies s.drop_last()[j] != c by {
            assert(s.drop_last()[j] == s[j]);
        }
        if k >= 0 {
            assert(s.drop_last()[k] == s[k]);
        }
        lemma_last_at_is(s.drop_last(), c, k);
    }
}

/// The device name a link target yields: everything after the last `/`.
pub open spec fn spec_device_name(target: Seq<char>) -> Seq<char> {
    target.subrange(last_at(target, '/') + 1, target.len() as int)
}

/// Extract the device name from a symbolic-link target read from the
/// device registry.
///
/// Fails with `DeviceResolutionError` exactly when the target has no
/// final path component, that is, when nothing follows its last `/`.
/// A resolved name is non-empty and holds no path separator.
pub fn device_name_from_target(target: &str) -> (r: Result<String, CollectError>)
    ensures
        match r {
            Ok(name) => {
                &&& name@ == spec_device_name(target@)
                &&& name@.len() > 0
                &&& forall|j: int| 0 <= j < name@.len() ==> name@[j] != '/'
            },
            Err(e) => {
                &&& spec_device_name(target@).len() == 0
                &&& e == CollectError::DeviceResolutionError
            },
        },
{
    let n = target.unicode_len();
    let mut cut: usize = n;
    while cut > 0 && target.get_char(cut - 1) != '/'
        invariant
            n == target@.len(),
            0 <= cut <= n,
            forall|j: int| cut <= j < n ==> target@[j] != '/',
        decreases cut,
    {
        cut = cut - 1;
    }
    proof {
        lemma_last_at_is(target@, '/', cut - 1);
        assert(spec_device_name(target@) =~= target@.subrange(cut as int, n as int));
    }
    if cut == n {
        Err(CollectError::DeviceResolutionError)
    } else {
        let name = String::from_str(target.substring_char(cut, n));
        proof {
            assert forall|j: int| 0 <= j < name@.len() implies name@[j] != '/' by {
                assert(name@[j] == target@[cut + j]);
            }
        }
        Ok(name)
    }
}

/// The registry path whose symbolic link resolves a device identifier.
pub fn device_registry_path(major_minor: &str) -> (r: String)
    ensures
        r@ == "/sys/dev/block/"@ + major_minor@,
{
    let mut s = String::from_str("/sys/dev/block/");
    s.append(major_minor);
    s
}

/// First match for `id` among `entries`, scanning in insertion order.
pub open spec fn spec_lookup(entries: Seq<(Seq<char>, Seq<char>)>, id: Seq<char>) -> Option<
    Seq<char>,
>
    decreases entries.len(),
{
    if entries.len() == 0 {
        None
    } else if entries[0].0 == id {
        Some(entries[0].1)
    } else {
        spec_lookup(entries.drop_first(), id)
    }
}

/// The device names resolved during one collection cycle, keyed by
/// `major:minor` identifier. One directory belongs to one cycle; a fresh
/// cycle starts from an empty one.
pub struct DeviceDirectory {
    entries: Vec<(String, String)>,
}

impl View for DeviceDirectory {
    type V = Seq<(Seq<char>, Seq<char>)>;

    closed spec fn view(&self) -> Self::V {
        self.entries.deep_view()
    }
}

impl DeviceDirectory {
    /// An empty directory, for the start of a cycle.
    pub fn new() -> (d: Self)
        ensures
            d@ == Seq::<(Seq<char>, Seq<char>)>::empty(),
    {
        let d = DeviceDirectory { entries: Vec::new() };
        proof {
            assert(d@ =~= Seq::<(Seq<char>, Seq<char>)>::empty());
        }
        d
    }

    /// The name recorded for `id`, if one has been inserted.
    pub fn lookup(&self, id: &str) -> (r: Option<String>)
        ensures
            match r {
                Some(name) => spec_lookup(self@, id@) == Some(name@),
                None => spec_lookup(self@, id@) is None,
            },
    {
        let mut i: usize = 0;
        proof {
            assert(self@.subrange(0, self@.len() as int) =~= self@);
        }
        while i < self.entries.len()
            invariant
                0 <= i <= self.entries@.len(),
                self@.len() == self.entries@.len(),
                spec_lookup(self@, id@) == spec_lookup(
                    self@.subrange(i as int, self@.len() as int),
                    id@,
                ),
            decreases self.entries@.len() - i,
        {
            let ghost suffix = self@.subrange(i as int, self@.len() as int);
            proof {
                assert(suffix[0] == self@[i as int]);
                assert(self@[i as int] == (self.entries@[i as int].0@, self.entries@[
                    i as int
                ].1@));
            }
            if str_eq(self.entries[i].0.as_str(), id) {
                let name = self.entries[i].1.clone();
                return Some(name);
            }
            proof {
                assert(suffix.drop_first() =~= self@.subrange(i + 1, self@.len() as int));
            }
            i = i + 1;
        }
        proof {
            assert(self@.subrange(self@.len() as int, self@.len() as int)
                =~= Seq::<(Seq<char>, Seq<char>)>::empty());
        }
        None
    }

    /// Record a resolved name. Insertion only ever appends: names already
    /// recorded, and every lookup they answer, are unaffected.
    pub fn insert(&mut self, id: String, name: String)
        ensures
            final(self)@ == old(self)@.push((id@, name@)),
    {
        let ghost pre = self@;
        let ghost idv = id@;
        let ghost namev = name@;
        self.entries.push((id, name));
        proof {
            assert(self@ =~= pre.push((idv, namev)));
        }
    }
}

/// Device resolution is a function of the identifier alone within one
/// cycle: against one directory, equal `major:minor` identifiers always
/// resolve to equal names.
pub proof fn lemma_device_resolution_idempotent(
    d: Seq<(Seq<char>, Seq<char>)>,
    id1: Seq<char>,
    id2: Seq<char>,
)
    requires
        id1 == id2,
    ensures
        spec_lookup(d, id1) == spec_lookup(d, id2),
{
}

} // verus!
