//! The main-filename runtime module.
//!
//! The worked variant of the shared contract: it emits an accessor that
//! reports the entry output's filename at execution time.  The filename
//! template always resolves under the deferred hash policy — by
//! definition this accessor runs after the full-hash provider exists, so
//! the hash is reached through a runtime call, never baked in.

use vstd::prelude::*;
use crate::chunk::{Chunk, ChunkUkey, Compilation};
use crate::deferral::{
    eval_spliced, lemma_deferred_matches_literal, quote_free, quote_free_opt,
};
use crate::globals::{global_name_spec, RuntimeGlobal, RuntimeGlobals};
use crate::module::{
    attachment_ukey, ChunkAttachment, Fragment, Identifier, RuntimeModule, SourceMapKind,
};
use crate::template::{
    resolve_seq, splice_text, ChunkContext, HashPolicy, PathData,
};

verus! {

/// The chunk context a main-filename resolution runs under: the chunk's
/// own values, with the hash deferred to the full-hash provider.
pub open spec fn deferred_ctx(chunk: Chunk) -> ChunkContext {
    ChunkContext {
        chunk_id: chunk.id@,
        chunk_name: match chunk.name {
            Some(n) => Some(n@),
            None => None,
        },
        chunk_runtime: chunk.runtime@,
        hash_text: splice_text(global_name_spec(RuntimeGlobal::GetFullHash)),
    }
}

/// The fragment a main-filename module with accessor `global` and
/// template `template` emits for `chunk`: an assignment, under the
/// declared accessor name, of a function literal returning the resolved
/// filename string.
pub open spec fn main_filename_fragment(
    global: RuntimeGlobal,
    template: Seq<char>,
    chunk: Chunk,
) -> Seq<char> {
    global_name_spec(global) + " = function () {\n    return \""@ + resolve_seq(
        template,
        deferred_ctx(chunk),
    ) + "\";\n};\n"@
}

/// The context the same resolution would run under if the full build
/// hash `h` were already known.
pub open spec fn literal_ctx(chunk: Chunk, h: Seq<char>) -> ChunkContext {
    ChunkContext {
        chunk_id: chunk.id@,
        chunk_name: match chunk.name {
            Some(n) => Some(n@),
            None => None,
        },
        chunk_runtime: chunk.runtime@,
        hash_text: h,
    }
}

/// The deferral law at this variant: the filename the module emits —
/// resolved with the hash deferred to the full-hash provider — once
/// evaluated with the runtime in place and the provider returning `h`,
/// is exactly the filename that literal substitution of `h` would have
/// produced.  Template and chunk values must be quote-free; a quote in
/// them would corrupt the surrounding string literal itself.
pub proof fn lemma_deferred_filename_matches_literal(template: Seq<char>, chunk: Chunk, h: Seq<char>)
    requires
        quote_free(template),
        quote_free(chunk.id@),
        quote_free_opt(deferred_ctx(chunk).chunk_name),
        quote_free(chunk.runtime@),
    ensures
        eval_spliced(
            resolve_seq(template, deferred_ctx(chunk)),
            splice_text(global_name_spec(RuntimeGlobal::GetFullHash)),
            h,
        ) == resolve_seq(template, literal_ctx(chunk, h)),
{
    lemma_deferred_matches_literal(
        template,
        deferred_ctx(chunk),
        literal_ctx(chunk, h),
        global_name_spec(RuntimeGlobal::GetFullHash),
        h,
    );
}

/// Reports the entry output's filename under a declared accessor name.
/// Distinct content types are distinct identities sharing one mechanism.
pub struct GetMainFilenameRuntimeModule {
    pub chunk: ChunkAttachment,
    pub id: Identifier,
    pub global: RuntimeGlobal,
    pub filename: String,
}

impl GetMainFilenameRuntimeModule {
    /// A fresh, unattached instance reporting filenames of the given
    /// content type under `global`, from the template `filename`.
    pub fn new(content_type: &str, global: RuntimeGlobal, filename: String) -> (r:
        GetMainFilenameRuntimeModule)
        ensures
            r.attachment() is Unattached,
            r.module_identity() == "webpack/runtime/get_main_filename/"@ + content_type@,
            r.global == global,
            r.filename@ == filename@,
            r.required_spec() =~= set![RuntimeGlobal::GetFullHash],
            r.provided_spec() =~= set![global],
            r.map_kind_spec() == SourceMapKind::Unmapped,
    {
        let mut id_text = String::from_str("webpack/runtime/get_main_filename/");
        id_text.append(content_type);
        GetMainFilenameRuntimeModule {
            chunk: ChunkAttachment::Unattached,
            id: Identifier::new(id_text),
            global,
            filename,
        }
    }
}

impl RuntimeModule for GetMainFilenameRuntimeModule {
    open spec fn module_identity(&self) -> Seq<char> {
        self.id@
    }

    open spec fn attachment(&self) -> ChunkAttachment {
        self.chunk
    }

    open spec fn required_spec(&self) -> Set<RuntimeGlobal> {
        set![RuntimeGlobal::GetFullHash]
    }

    open spec fn provided_spec(&self) -> Set<RuntimeGlobal> {
        set![self.global]
    }

    open spec fn map_kind_spec(&self) -> SourceMapKind {
        SourceMapKind::Unmapped
    }

    open spec fn generated_for(&self, c: Compilation, u: ChunkUkey) -> Seq<char> {
        main_filename_fragment(self.global, self.filename@, c.chunks@[u.index as int])
    }

    fn name(&self) -> (r: Identifier) {
        Identifier::new(self.id.value.clone())
    }

    fn required_globals(&self) -> (r: RuntimeGlobals) {
        let mut r = RuntimeGlobals::empty();
        r.insert(RuntimeGlobal::GetFullHash);
        proof {
            assert(r@ =~= set![RuntimeGlobal::GetFullHash]);
        }
        r
    }

    fn provided_globals(&self) -> (r: RuntimeGlobals) {
        let mut r = RuntimeGlobals::empty();
        r.insert(self.global);
        proof {
            assert(r@ =~= set![self.global]);
        }
        r
    }

    fn declared_globals(&self) -> (r: RuntimeGlobals) {
        let mut r = RuntimeGlobals::empty();
        r.insert(RuntimeGlobal::GetFullHash);
        r.insert(self.global);
        proof {
            assert(r@ =~= set![RuntimeGlobal::GetFullHash].union(set![self.global]));
        }
        r
    }

    fn attach(&mut self, chunk: ChunkUkey) {
        match self.chunk {
            ChunkAttachment::Unattached => {
                self.chunk = ChunkAttachment::Attached(chunk);
            },
            ChunkAttachment::Attached(_) => unreached(),
        }
    }

    fn generate(&self, compilation: &Compilation) -> (r: Fragment) {
        match self.chunk {
            ChunkAttachment::Attached(u) => {
                let chunk_ref = compilation.chunk_by_ukey(u);
                let provider = RuntimeGlobal::GetFullHash.name();
                let data = PathData { chunk: Some(chunk_ref), hash: HashPolicy::Deferred(provider) };
                let filename = compilation.get_path(self.filename.as_str(), &data);
                proof {
                    assert(data.ctx() == deferred_ctx(compilation.chunks@[u.index as int]));
                }
                let mut code = self.global.name();
                code.append(" = function () {\n    return \"");
                code.append(filename.as_str());
                code.append("\";\n};\n");
                proof {
                    assert(code@ == self.generated_for(*compilation, attachment_ukey(self.attachment())));
                }
                Fragment { code, map_kind: SourceMapKind::Unmapped }
            },
            ChunkAttachment::Unattached => unreached(),
        }
    }
}

} // verus!
