//! Runtime capability flags.
//!
//! A runtime feature either provides a capability to the bootstrap code
//! (for example the function that reports the full build hash) or requires
//! one.  A capability is a named token; the bootstrap code reaches it under
//! a well-known accessor name.  Collections of flags have set semantics: a
//! flag is present or absent, never counted.

use vstd::prelude::*;

verus! {

broadcast use vstd::prelude::Seq::lemma_push_to_set_commute, vstd::seq_lib::lemma_seq_contains_after_push;

/// One named runtime capability.  The set is closed: every producer and
/// consumer agrees on these tokens and on the accessor name each one is
/// reachable under in the emitted bootstrap code.
#[derive(Clone, Copy, PartialEq, Eq, Structural, Debug, Hash)]
pub enum RuntimeGlobal {
    /// The module loader itself.
    Require,
    /// Loads a chunk on demand.
    EnsureChunk,
    /// Reports the full build hash, knowable only after the whole build
    /// has been hashed, hence always reached through a runtime call.
    GetFullHash,
    /// Reports the filename of a chunk's emitted script.
    GetChunkScriptFilename,
    /// Reports the filename of the hot-update manifest.
    GetUpdateManifestFilename,
    /// The configured public path prefix.
    PublicPath,
}

/// The accessor name a capability is reachable under in emitted code.
pub open spec fn global_name_spec(g: RuntimeGlobal) -> Seq<char> {
    match g {
        RuntimeGlobal::Require => "__webpack_require__"@,
        RuntimeGlobal::EnsureChunk => "__webpack_require__.e"@,
        RuntimeGlobal::GetFullHash => "__webpack_require__.h"@,
        RuntimeGlobal::GetChunkScriptFilename => "__webpack_require__.u"@,
        RuntimeGlobal::GetUpdateManifestFilename => "__webpack_require__.hmrF"@,
        RuntimeGlobal::PublicPath => "__webpack_require__.p"@,
    }
}

impl RuntimeGlobal {
    /// The accessor name, as emitted into bootstrap code.
    pub fn name(&self) -> (r: String)
        ensures
            r@ == global_name_spec(*self),
    {
        match self {
            RuntimeGlobal::Require => String::from_str("__webpack_require__"),
            RuntimeGlobal::EnsureChunk => String::from_str("__webpack_require__.e"),
            RuntimeGlobal::GetFullHash => String::from_str("__webpack_require__.h"),
            RuntimeGlobal::GetChunkScriptFilename => String::from_str("__webpack_require__.u"),
            RuntimeGlobal::GetUpdateManifestFilename => String::from_str("__webpack_require__.hmrF"),
            RuntimeGlobal::PublicPath => String::from_str("__webpack_require__.p"),
        }
    }
}

/// A set of capability flags.  The view is a mathematical set: how many
/// modules declared a flag never matters, only whether some module did.
pub struct RuntimeGlobals {
    items: Vec<RuntimeGlobal>,
}

impl View for RuntimeGlobals {
    type V = Set<RuntimeGlobal>;

    closed spec fn view(&self) -> Set<RuntimeGlobal> {
        self.items@.to_set()
    }
}

impl RuntimeGlobals {
    /// The empty flag set.
    pub fn empty() -> (r: RuntimeGlobals)
        ensures
            r@ =~= Set::<RuntimeGlobal>::empty(),
    {
        let r = RuntimeGlobals { items: Vec::new() };
        proof {
            assert(r.items@.to_set() =~= Set::<RuntimeGlobal>::empty());
        }
        r
    }

    /// Membership test.
    pub fn contains(&self, g: RuntimeGlobal) -> (r: bool)
        ensures
            r == self@.contains(g),
    {
        let n = self.items.len();
        let mut i: usize = 0;
        while i < n
            invariant
                i <= n,
                n == self.items@.len(),
                forall|k: int| 0 <= k < i ==> self.items@[k] != g,
            decreases n - i,
        {
            if self.items[i] == g {
                proof {
                    assert(self.items@.contains(g));
                }
                return true;
            }
            i = i + 1;
        }
        proof {
            assert(!self.items@.contains(g));
        }
        false
    }

    /// Adds a flag; a flag already present stays present (set union with a
    /// singleton, not a count).
    pub fn insert(&mut self, g: RuntimeGlobal)
        ensures
            final(self)@ =~= old(self)@.insert(g),
    {
        if !self.contains(g) {
            self.items.push(g);
            proof {
                assert(self.items@.to_set() =~= old(self).items@.to_set().insert(g));
            }
        } else {
            proof {
                assert(self.items@.to_set() =~= old(self).items@.to_set().insert(g));
            }
        }
    }

    /// Unions another flag set into this one.
    pub fn union_with(&mut self, other: &RuntimeGlobals)
        ensures
            final(self)@ =~= old(self)@.union(other@),
    {
        let n = other.items.len();
        let mut i: usize = 0;
        while i < n
            invariant
                i <= n,
                n == other.items@.len(),
                self@ =~= old(self)@.union(other.items@.take(i as int).to_set()),
            decreases n - i,
        {
            self.insert(other.items[i]);
            proof {
                assert(other.items@.take(i + 1) =~= other.items@.take(i as int).push(other.items@[i as int]));
                assert(other.items@.take(i + 1).to_set() =~= other.items@.take(i as int).to_set().insert(other.items@[i as int]));
            }
            i = i + 1;
        }
        proof {
            assert(other.items@.take(n as int) =~= other.items@);
        }
    }

    /// The flags of this set that `other` lacks.
    pub fn difference(&self, other: &RuntimeGlobals) -> (r: RuntimeGlobals)
        ensures
            r@ =~= self@.difference(other@),
    {
        let mut out = RuntimeGlobals::empty();
        let n = self.items.len();
        let mut i: usize = 0;
        while i < n
            invariant
                i <= n,
                n == self.items@.len(),
                out@ =~= self.items@.take(i as int).to_set().difference(other@),
            decreases n - i,
        {
            if !other.contains(self.items[i]) {
                out.insert(self.items[i]);
            }
            proof {
                assert(self.items@.take(i + 1) =~= self.items@.take(i as int).push(self.items@[i as int]));
                assert(self.items@.take(i + 1).to_set() =~= self.items@.take(i as int).to_set().insert(self.items@[i as int]));
            }
            i = i + 1;
        }
        proof {
            assert(self.items@.take(n as int) =~= self.items@);
        }
        out
    }

    /// Whether this set shares a flag with `other`.
    pub fn intersects(&self, other: &RuntimeGlobals) -> (r: bool)
        ensures
            r == exists|g: RuntimeGlobal| self@.contains(g) && #[trigger] other@.contains(g),
    {
        let n = self.items.len();
        let mut i: usize = 0;
        while i < n
            invariant
                i <= n,
                n == self.items@.len(),
                forall|k: int| 0 <= k < i ==> !other@.contains(#[trigger] self.items@[k]),
            decreases n - i,
        {
            if other.contains(self.items[i]) {
                proof {
                    assert(self.items@.contains(self.items@[i as int]));
                    assert(self@.contains(self.items@[i as int]) && other@.contains(
                        self.items@[i as int],
                    ));
                }
                return true;
            }
            i = i + 1;
        }
        proof {
            if exists|g: RuntimeGlobal| self@.contains(g) && #[trigger] other@.contains(g) {
                let g = choose|g: RuntimeGlobal|
                    self@.contains(g) && #[trigger] other@.contains(g);
                assert(self.items@.contains(g));
                let k = choose|k: int| 0 <= k < self.items@.len() && self.items@[k] == g;
                assert(!other@.contains(self.items@[k]));
            }
        }
        false
    }

    /// Whether the set is empty.
    pub fn is_empty(&self) -> (r: bool)
        ensures
            r == (self@ =~= Set::<RuntimeGlobal>::empty()),
    {
        let r = self.items.len() == 0;
        proof {
            if self.items@.len() == 0 {
                assert(self.items@.to_set() =~= Set::<RuntimeGlobal>::empty());
            } else {
                assert(self.items@.to_set().contains(self.items@[0]));
            }
        }
        r
    }

    /// The flags as a plain list (some order; the view is the set).
    pub fn to_list(&self) -> (r: Vec<RuntimeGlobal>)
        ensures
            r@.to_set() =~= self@,
    {
        let n = self.items.len();
        let mut out: Vec<RuntimeGlobal> = Vec::new();
        let mut i: usize = 0;
        while i < n
            invariant
                i <= n,
                n == self.items@.len(),
                out@ =~= self.items@.take(i as int),
            decreases n - i,
        {
            out.push(self.items[i]);
            proof {
                assert(self.items@.take(i + 1) =~= self.items@.take(i as int).push(self.items@[i as int]));
            }
            i = i + 1;
        }
        proof {
            assert(self.items@.take(n as int) =~= self.items@);
        }
        out
    }
}

} // verus!
