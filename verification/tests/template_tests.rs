use bundler_runtime::chunk::Chunk;
use bundler_runtime::template::{resolve_path, HashPolicy, PathData};

fn chunk(id: &str, name: Option<&str>, runtime: &str) -> Chunk {
    Chunk { id: id.to_string(), name: name.map(|n| n.to_string()), runtime: runtime.to_string() }
}

#[test]
fn empty_template_resolves_empty() {
    let data = PathData { chunk: None, hash: HashPolicy::Literal(String::new()) };
    assert_eq!(resolve_path("", &data), "");
}

#[test]
fn plain_text_passes_through() {
    let data = PathData { chunk: None, hash: HashPolicy::Literal(String::new()) };
    assert_eq!(resolve_path("static/app.js", &data), "static/app.js");
}

#[test]
fn name_placeholder_uses_chunk_name() {
    let c = chunk("7", Some("main"), "webpack-runtime");
    let data = PathData { chunk: Some(&c), hash: HashPolicy::Literal(String::new()) };
    assert_eq!(resolve_path("static/[name].js", &data), "static/main.js");
}

#[test]
fn name_placeholder_falls_back_to_id() {
    let c = chunk("7", None, "webpack-runtime");
    let data = PathData { chunk: Some(&c), hash: HashPolicy::Literal(String::new()) };
    assert_eq!(resolve_path("static/[name].js", &data), "static/7.js");
}

#[test]
fn id_and_runtime_placeholders() {
    let c = chunk("7", Some("main"), "rt");
    let data = PathData { chunk: Some(&c), hash: HashPolicy::Literal(String::new()) };
    assert_eq!(resolve_path("[id]/[runtime]", &data), "7/rt");
}

#[test]
fn literal_hash_substituted_verbatim() {
    let c = chunk("7", Some("main"), "rt");
    let data = PathData { chunk: Some(&c), hash: HashPolicy::Literal("abc123".to_string()) };
    assert_eq!(resolve_path("[name].[hash].js", &data), "main.abc123.js");
}

#[test]
fn fullhash_placeholder_substituted() {
    let c = chunk("7", Some("main"), "rt");
    let data = PathData { chunk: Some(&c), hash: HashPolicy::Literal("abc123".to_string()) };
    assert_eq!(resolve_path("[fullhash].js", &data), "abc123.js");
}

#[test]
fn deferred_hash_splices_provider_call() {
    let c = chunk("7", Some("main"), "rt");
    let data = PathData {
        chunk: Some(&c),
        hash: HashPolicy::Deferred("__webpack_require__.h".to_string()),
    };
    assert_eq!(
        resolve_path("a[hash]b", &data),
        "a\" + __webpack_require__.h() + \"b"
    );
}

#[test]
fn unrecognized_token_left_verbatim() {
    let c = chunk("7", Some("main"), "rt");
    let data = PathData { chunk: Some(&c), hash: HashPolicy::Literal(String::new()) };
    assert_eq!(resolve_path("[foo]/[name].js", &data), "[foo]/main.js");
}

#[test]
fn resolution_is_pure_across_calls() {
    let c = chunk("7", Some("main"), "rt");
    let first = {
        let data = PathData { chunk: Some(&c), hash: HashPolicy::Literal("h1".to_string()) };
        resolve_path("static/[name].[hash].js", &data)
    };
    let second = {
        let data = PathData { chunk: Some(&c), hash: HashPolicy::Literal("h1".to_string()) };
        resolve_path("static/[name].[hash].js", &data)
    };
    assert_eq!(first, second);
    assert_eq!(first, "static/main.h1.js");
}

#[test]
fn deferred_resolution_evaluates_like_literal() {
    // Simulate the runtime: a provider returning "abc123".  Evaluating the
    // deferred output must give exactly what literal substitution gives.
    let c = chunk("7", Some("main"), "rt");
    let deferred = {
        let data = PathData {
            chunk: Some(&c),
            hash: HashPolicy::Deferred("__webpack_require__.h".to_string()),
        };
        resolve_path("static/[name].[hash].js", &data)
    };
    let literal = {
        let data = PathData { chunk: Some(&c), hash: HashPolicy::Literal("abc123".to_string()) };
        resolve_path("static/[name].[hash].js", &data)
    };
    let splice = "\" + __webpack_require__.h() + \"";
    let evaluated = deferred.replace(splice, "abc123");
    assert_eq!(evaluated, literal);
}
