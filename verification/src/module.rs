//! The runtime-module abstraction.
//!
//! A runtime module is one bundler feature's unit of generated bootstrap
//! code.  Every variant shares the same contract: a stable identity used
//! for deduplication, declared capability flags, a two-state attachment
//! lifecycle (unattached, then attached to exactly one chunk), and a pure
//! `generate` that emits one fragment for the attached chunk.  Generating
//! before attaching, or attaching twice, is a programming-contract
//! violation, excluded here by precondition.

use vstd::prelude::*;
use crate::chunk::{ChunkUkey, Compilation};
use crate::globals::{RuntimeGlobal, RuntimeGlobals};

verus! {

/// A stable identity for one runtime-module instance, derived from its
/// feature kind plus any distinguishing parameter.  Identical identity
/// means the emitter treats two instances as duplicates.
pub struct Identifier {
    pub value: String,
}

impl View for Identifier {
    type V = Seq<char>;

    open spec fn view(&self) -> Seq<char> {
        self.value@
    }
}

impl Identifier {
    /// Wraps an identity string.
    pub fn new(value: String) -> (r: Identifier)
        ensures
            r@ == value@,
    {
        Identifier { value }
    }

    /// The identity as a plain string slice.
    pub fn as_str(&self) -> (r: &str)
        ensures
            r@ == self@,
    {
        self.value.as_str()
    }
}

/// The source-map posture of a generated fragment.
#[derive(Clone, Copy, PartialEq, Eq, Structural, Debug)]
pub enum SourceMapKind {
    /// Generated glue; no mapping back to user sources.
    Unmapped,
    /// Carries a mapping back to user sources.
    Mapped,
}

/// One unit of generated bootstrap code: the emitted text plus its
/// source-map posture.  Produced once per (module, chunk) pair and never
/// mutated afterwards.
pub struct Fragment {
    pub code: String,
    pub map_kind: SourceMapKind,
}

/// The two-state attachment lifecycle of a runtime module: constructed
/// unattached, then bound to exactly one chunk before generation.
#[derive(Clone, Copy, PartialEq, Eq, Structural, Debug)]
pub enum ChunkAttachment {
    Unattached,
    Attached(ChunkUkey),
}

/// The chunk key of an attached module.
pub open spec fn attachment_ukey(a: ChunkAttachment) -> ChunkUkey {
    match a {
        ChunkAttachment::Attached(u) => u,
        ChunkAttachment::Unattached => ChunkUkey { index: 0 },
    }
}

/// The shared contract of every runtime-module variant.
///
/// `generate` is pure given the attached chunk and the compilation state:
/// its output is pinned, clause for clause, to the spec-level
/// `generated_for`, so two calls on the same inputs produce byte-identical
/// fragments.
pub trait RuntimeModule: Sized {
    /// The instance's stable identity.
    spec fn module_identity(&self) -> Seq<char>;

    /// The current point in the attachment lifecycle.
    spec fn attachment(&self) -> ChunkAttachment;

    /// The capability flags this instance requires from the runtime.
    spec fn required_spec(&self) -> Set<RuntimeGlobal>;

    /// The capability flags this instance provides to the runtime.
    spec fn provided_spec(&self) -> Set<RuntimeGlobal>;

    /// The source-map posture of every fragment this instance emits.
    spec fn map_kind_spec(&self) -> SourceMapKind;

    /// The code this instance emits for chunk `u` of compilation `c`,
    /// independent of its attachment state.
    spec fn generated_for(&self, c: Compilation, u: ChunkUkey) -> Seq<char>;

    /// The instance's identity; pure, used for deduplication.
    fn name(&self) -> (r: Identifier)
        ensures
            r@ == self.module_identity(),
    ;

    /// The flags this instance requires from the runtime.
    fn required_globals(&self) -> (r: RuntimeGlobals)
        ensures
            r@ =~= self.required_spec(),
    ;

    /// The flags this instance provides to the runtime.
    fn provided_globals(&self) -> (r: RuntimeGlobals)
        ensures
            r@ =~= self.provided_spec(),
    ;

    /// All flags this instance declares, required or provided.
    fn declared_globals(&self) -> (r: RuntimeGlobals)
        ensures
            r@ =~= self.required_spec().union(self.provided_spec()),
    ;

    /// Binds the instance to exactly one chunk.  Attaching an already
    /// attached instance is a contract violation, excluded here.
    /// Everything but the attachment state is unchanged.
    fn attach(&mut self, chunk: ChunkUkey)
        requires
            old(self).attachment() is Unattached,
        ensures
            final(self).attachment() == ChunkAttachment::Attached(chunk),
            final(self).module_identity() == old(self).module_identity(),
            final(self).required_spec() == old(self).required_spec(),
            final(self).provided_spec() == old(self).provided_spec(),
            final(self).map_kind_spec() == old(self).map_kind_spec(),
            forall|c: Compilation, u: ChunkUkey|
                #[trigger] final(self).generated_for(c, u) == old(self).generated_for(c, u),
    ;

    /// Emits this instance's fragment for its attached chunk.  Calling
    /// before attachment is a contract violation, excluded here; the
    /// attached chunk must belong to the compilation.  The fragment is a
    /// function of the instance and the compilation state alone.
    fn generate(&self, compilation: &Compilation) -> (r: Fragment)
        requires
            self.attachment() is Attached,
            compilation.valid_ukey(attachment_ukey(self.attachment())),
        ensures
            r.code@ == self.generated_for(*compilation, attachment_ukey(self.attachment())),
            r.map_kind == self.map_kind_spec(),
    ;
}

/// Determinism of generation: `generate` pins its fragment to a function
/// of the module and the compilation state alone, so any two fragments
/// meeting its contract for the same module and state — two calls on the
/// same inputs — are byte-identical, in text and in source-map posture.
pub proof fn lemma_generation_deterministic<T: RuntimeModule>(
    m: &T,
    c: &Compilation,
    r1: &Fragment,
    r2: &Fragment,
)
    requires
        r1.code@ == m.generated_for(*c, attachment_ukey(m.attachment())),
        r1.map_kind == m.map_kind_spec(),
        r2.code@ == m.generated_for(*c, attachment_ukey(m.attachment())),
        r2.map_kind == m.map_kind_spec(),
    ensures
        r1.code@ == r2.code@,
        r1.map_kind == r2.map_kind,
{
}

} // verus!
