use bundler_runtime::chunk::{Chunk, ChunkUkey, Compilation};
use bundler_runtime::emitter::emit_chunk_runtime;
use bundler_runtime::get_main_filename::GetMainFilenameRuntimeModule;
use bundler_runtime::globals::{RuntimeGlobal, RuntimeGlobals};
use bundler_runtime::module::{RuntimeModule, SourceMapKind};

fn one_chunk_compilation(id: &str, name: Option<&str>, runtime: &str) -> Compilation {
    Compilation {
        chunks: vec![Chunk {
            id: id.to_string(),
            name: name.map(|n| n.to_string()),
            runtime: runtime.to_string(),
        }],
    }
}

#[test]
fn global_accessor_names() {
    assert_eq!(RuntimeGlobal::Require.name(), "__webpack_require__");
    assert_eq!(RuntimeGlobal::GetFullHash.name(), "__webpack_require__.h");
    assert_eq!(RuntimeGlobal::GetChunkScriptFilename.name(), "__webpack_require__.u");
    assert_eq!(RuntimeGlobal::GetUpdateManifestFilename.name(), "__webpack_require__.hmrF");
    assert_eq!(RuntimeGlobal::EnsureChunk.name(), "__webpack_require__.e");
    assert_eq!(RuntimeGlobal::PublicPath.name(), "__webpack_require__.p");
}

#[test]
fn globals_have_set_semantics() {
    let mut s = RuntimeGlobals::empty();
    assert!(s.is_empty());
    s.insert(RuntimeGlobal::GetFullHash);
    s.insert(RuntimeGlobal::GetFullHash);
    assert!(s.contains(RuntimeGlobal::GetFullHash));
    assert!(!s.contains(RuntimeGlobal::PublicPath));
    assert_eq!(s.to_list().len(), 1);

    let mut other = RuntimeGlobals::empty();
    other.insert(RuntimeGlobal::PublicPath);
    s.union_with(&other);
    assert!(s.contains(RuntimeGlobal::PublicPath));
    assert_eq!(s.to_list().len(), 2);

    let diff = s.difference(&other);
    assert!(diff.contains(RuntimeGlobal::GetFullHash));
    assert!(!diff.contains(RuntimeGlobal::PublicPath));
}

#[test]
fn new_module_identity_and_globals() {
    let m = GetMainFilenameRuntimeModule::new(
        "update-manifest",
        RuntimeGlobal::GetUpdateManifestFilename,
        "[runtime].[fullhash].hot-update.json".to_string(),
    );
    assert_eq!(m.name().value, "webpack/runtime/get_main_filename/update-manifest");
    assert!(m.required_globals().contains(RuntimeGlobal::GetFullHash));
    assert!(m.provided_globals().contains(RuntimeGlobal::GetUpdateManifestFilename));
    let declared = m.declared_globals();
    assert!(declared.contains(RuntimeGlobal::GetFullHash));
    assert!(declared.contains(RuntimeGlobal::GetUpdateManifestFilename));
}

#[test]
fn generate_after_attach_emits_accessor() {
    // The worked scenario: template "static/[name].[hash].js", chunk named
    // "main", deferred hash through the full-hash provider.
    let compilation = one_chunk_compilation("0", Some("main"), "rt");
    let mut m = GetMainFilenameRuntimeModule::new(
        "script",
        RuntimeGlobal::GetChunkScriptFilename,
        "static/[name].[hash].js".to_string(),
    );
    m.attach(ChunkUkey { index: 0 });
    let fragment = m.generate(&compilation);
    let expected = "__webpack_require__.u = function () {\n    return \"static/main.\" + __webpack_require__.h() + \".js\";\n};\n";
    assert_eq!(fragment.code, expected);
    assert_eq!(fragment.map_kind, SourceMapKind::Unmapped);

    // With the runtime in place (provider returning "deadbeef") the emitted
    // concatenation evaluates to the literal result.
    let splice = "\" + __webpack_require__.h() + \"";
    let evaluated = fragment.code.replace(splice, "deadbeef");
    assert!(evaluated.contains("return \"static/main.deadbeef.js\";"));
}

#[test]
fn generate_twice_is_byte_identical() {
    let compilation = one_chunk_compilation("0", Some("main"), "rt");
    let mut m = GetMainFilenameRuntimeModule::new(
        "script",
        RuntimeGlobal::GetChunkScriptFilename,
        "static/[name].[hash].js".to_string(),
    );
    m.attach(ChunkUkey { index: 0 });
    let first = m.generate(&compilation);
    let second = m.generate(&compilation);
    assert_eq!(first.code, second.code);
    assert_eq!(first.map_kind, second.map_kind);
}

#[test]
fn emitter_deduplicates_identical_identities() {
    let compilation = one_chunk_compilation("0", Some("main"), "rt");
    let template = "static/[name].[hash].js".to_string();
    let provider = GetMainFilenameRuntimeModule::new(
        "full-hash",
        RuntimeGlobal::GetFullHash,
        "[fullhash]".to_string(),
    );
    let first = GetMainFilenameRuntimeModule::new(
        "script",
        RuntimeGlobal::GetChunkScriptFilename,
        template.clone(),
    );
    let duplicate = GetMainFilenameRuntimeModule::new(
        "script",
        RuntimeGlobal::GetChunkScriptFilename,
        template.clone(),
    );
    let code = emit_chunk_runtime(
        vec![first, duplicate, provider],
        ChunkUkey { index: 0 },
        &compilation,
    )
    .unwrap_or_else(|_| panic!("no completeness gap expected"));
    // Exactly one fragment for the duplicated identity.
    assert_eq!(code.matches("__webpack_require__.u = function").count(), 1);
    // The other identity still contributes its fragment; as the provider
    // of the required full-hash capability it is declared first.
    assert_eq!(code.matches("__webpack_require__.h = function").count(), 1);
    assert!(
        code.find("__webpack_require__.h = function").unwrap()
            < code.find("__webpack_require__.u = function").unwrap()
    );
}

#[test]
fn emitter_reports_missing_provider() {
    // The module requires the full-hash capability and nothing attached
    // provides it: a reported gap, naming the chunk and the flag.
    let compilation = one_chunk_compilation("0", Some("main"), "rt");
    let m = GetMainFilenameRuntimeModule::new(
        "script",
        RuntimeGlobal::GetChunkScriptFilename,
        "static/[name].[hash].js".to_string(),
    );
    let result = emit_chunk_runtime(vec![m], ChunkUkey { index: 0 }, &compilation);
    match result {
        Ok(_) => panic!("expected a completeness error"),
        Err(e) => {
            assert_eq!(e.chunk, ChunkUkey { index: 0 });
            assert!(e.missing.contains(RuntimeGlobal::GetFullHash));
            assert_eq!(e.missing.to_list().len(), 1);
        }
    }
}

#[test]
fn emitter_succeeds_when_provider_present() {
    let compilation = one_chunk_compilation("0", Some("main"), "rt");
    let provider = GetMainFilenameRuntimeModule::new(
        "full-hash",
        RuntimeGlobal::GetFullHash,
        "[name]".to_string(),
    );
    let result = emit_chunk_runtime(vec![provider], ChunkUkey { index: 0 }, &compilation);
    match result {
        Ok(code) => {
            assert_eq!(
                code,
                "__webpack_require__.h = function () {\n    return \"main\";\n};\n"
            );
        }
        Err(_) => panic!("provider set is complete"),
    }
}

#[test]
fn emitter_of_no_modules_emits_nothing() {
    let compilation = one_chunk_compilation("0", Some("main"), "rt");
    let modules: Vec<GetMainFilenameRuntimeModule> = vec![];
    let result = emit_chunk_runtime(modules, ChunkUkey { index: 0 }, &compilation);
    match result {
        Ok(code) => assert_eq!(code, ""),
        Err(_) => panic!("nothing required, nothing missing"),
    }
}
