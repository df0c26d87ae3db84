//! Filename-template resolution.
//!
//! A template such as `"static/[name].[hash].js"` carries placeholder
//! tokens drawn from a fixed, closed set.  Resolution replaces each
//! recognized token with the value it names in the current chunk context
//! and leaves everything else verbatim, in original order.  Unrecognized
//! bracketed tokens pass through untouched: some templates are partially
//! pre-resolved by an earlier stage, so lenience here is intentional.
//!
//! The hash placeholder is special.  When the full build hash is already
//! known it is substituted literally.  When it can only be known after the
//! whole build is hashed, resolution must not wait: it splices a
//! runtime-evaluable expression into the surrounding string literal by
//! closing the quote, inserting a call to the hash provider, and reopening
//! the quote.  Evaluating the spliced form later yields exactly what a
//! literal substitution would have produced; see `deferral`.

use vstd::prelude::*;
use crate::chunk::{Chunk, Compilation};

verus! {

/// How the hash placeholder is to be filled: exactly one of a known
/// literal value, or a deferred call to a provider whose accessor name is
/// carried here.
pub enum HashPolicy {
    /// The hash is already known; substitute it verbatim.
    Literal(String),
    /// The hash is only knowable at execution time; substitute a splice
    /// that calls the named provider from inside the string literal.
    Deferred(String),
}

/// The context bundle one resolution call reads: the chunk the template is
/// being resolved for (absent only for templates that name no chunk-scoped
/// data) and the active hash policy.
pub struct PathData<'a> {
    pub chunk: Option<&'a Chunk>,
    pub hash: HashPolicy,
}

/// The mathematical view of one resolution call: the plain values every
/// placeholder resolves to.
pub struct ChunkContext {
    pub chunk_id: Seq<char>,
    pub chunk_name: Option<Seq<char>>,
    pub chunk_runtime: Seq<char>,
    pub hash_text: Seq<char>,
}

/// The text spliced for a deferred hash: it closes the surrounding string
/// literal, calls the provider, and reopens the literal, so that the
/// emitted concatenation evaluates to the same string a literal
/// substitution would have produced.
pub open spec fn splice_text(call: Seq<char>) -> Seq<char> {
    "\" + "@ + call + "() + \""@
}

/// The text the hash placeholder resolves to under a policy.
pub open spec fn hash_text_spec(p: HashPolicy) -> Seq<char> {
    match p {
        HashPolicy::Literal(h) => h@,
        HashPolicy::Deferred(call) => splice_text(call@),
    }
}

impl<'a> PathData<'a> {
    /// The plain-value view of this context bundle.
    pub open spec fn ctx(&self) -> ChunkContext {
        match self.chunk {
            Some(c) => ChunkContext {
                chunk_id: c.id@,
                chunk_name: match c.name {
                    Some(n) => Some(n@),
                    None => None,
                },
                chunk_runtime: c.runtime@,
                hash_text: hash_text_spec(self.hash),
            },
            None => ChunkContext {
                chunk_id: Seq::empty(),
                chunk_name: None,
                chunk_runtime: Seq::empty(),
                hash_text: hash_text_spec(self.hash),
            },
        }
    }
}

/// The recognized placeholder tokens.
pub open spec fn tok_hash() -> Seq<char> {
    "[hash]"@
}

pub open spec fn tok_fullhash() -> Seq<char> {
    "[fullhash]"@
}

pub open spec fn tok_id() -> Seq<char> {
    "[id]"@
}

pub open spec fn tok_name() -> Seq<char> {
    "[name]"@
}

pub open spec fn tok_runtime() -> Seq<char> {
    "[runtime]"@
}

/// Whether `tok` occurs in `s` starting at position `i`.
pub open spec fn token_at(s: Seq<char>, i: int, tok: Seq<char>) -> bool {
    0 <= i && i + tok.len() <= s.len() && s.subrange(i, i + tok.len()) == tok
}

/// Whether some chunk-scoped placeholder occurs at position `i`.
pub open spec fn chunk_scoped_at(t: Seq<char>, i: int) -> bool {
    token_at(t, i, tok_fullhash()) || token_at(t, i, tok_hash()) || token_at(t, i, tok_id())
        || token_at(t, i, tok_name()) || token_at(t, i, tok_runtime())
}

/// Whether the template names chunk-scoped data anywhere.  Resolving such
/// a template with no chunk bound is a contract violation.
pub open spec fn needs_chunk(t: Seq<char>) -> bool {
    exists|i: int| chunk_scoped_at(t, i)
}

/// What the name placeholder resolves to: the chunk's name, or its id
/// when the configuration gave the chunk no name.
pub open spec fn name_text(ctx: ChunkContext) -> Seq<char> {
    match ctx.chunk_name {
        Some(n) => n,
        None => ctx.chunk_id,
    }
}

/// The resolved form of a template: recognized tokens replaced by the
/// values they name, everything else kept verbatim, in original order.
pub open spec fn resolve_seq(t: Seq<char>, ctx: ChunkContext) -> Seq<char>
    decreases t.len(),
    via resolve_seq_dec
{
    if t.len() == 0 {
        Seq::empty()
    } else if token_at(t, 0, tok_fullhash()) {
        ctx.hash_text + resolve_seq(t.skip(tok_fullhash().len() as int), ctx)
    } else if token_at(t, 0, tok_hash()) {
        ctx.hash_text + resolve_seq(t.skip(tok_hash().len() as int), ctx)
    } else if token_at(t, 0, tok_id()) {
        ctx.chunk_id + resolve_seq(t.skip(tok_id().len() as int), ctx)
    } else if token_at(t, 0, tok_name()) {
        name_text(ctx) + resolve_seq(t.skip(tok_name().len() as int), ctx)
    } else if token_at(t, 0, tok_runtime()) {
        ctx.chunk_runtime + resolve_seq(t.skip(tok_runtime().len() as int), ctx)
    } else {
        seq![t[0]] + resolve_seq(t.skip(1), ctx)
    }
}

#[via_fn]
proof fn resolve_seq_dec(t: Seq<char>, ctx: ChunkContext) {
    reveal_strlit("[hash]");
    reveal_strlit("[fullhash]");
    reveal_strlit("[id]");
    reveal_strlit("[name]");
    reveal_strlit("[runtime]");
}

/// A token occurs at `i` in `t` exactly when it occurs at the front of
/// the suffix starting at `i`.
proof fn lemma_token_at_skip(t: Seq<char>, i: int, tok: Seq<char>)
    requires
        0 <= i <= t.len(),
    ensures
        token_at(t, i, tok) == token_at(t.skip(i), 0, tok),
{
    if i + tok.len() <= t.len() {
        assert(t.skip(i).subrange(0, tok.len() as int) =~= t.subrange(i, i + tok.len()));
    }
}

/// Whether `tok` occurs in `s` at character position `i`, decided by
/// character comparison.
fn matches_at(s: &str, n: usize, i: usize, tok: &str) -> (r: bool)
    requires
        n == s@.len(),
        i <= n,
    ensures
        r == token_at(s@, i as int, tok@),
{
    let m = tok.unicode_len();
    if m > n - i {
        return false;
    }
    let mut j: usize = 0;
    while j < m
        invariant
            j <= m,
            forall|k: int| 0 <= k < j ==> s@[i + k] == tok@[k],
        decreases m - j,
    {
        if s.get_char(i + j) != tok.get_char(j) {
            proof {
                if token_at(s@, i as int, tok@) {
                    assert(s@.subrange(i as int, i + tok@.len())[j as int] == tok@[j as int]);
                }
            }
            return false;
        }
        j = j + 1;
    }
    proof {
        assert(s@.subrange(i as int, i + tok@.len()) =~= tok@);
    }
    true
}

/// Resolves a template against a context bundle.  The result is exactly
/// the template with every recognized placeholder replaced by the value it
/// names; an empty template yields an empty result.  A template that names
/// chunk-scoped data may only be resolved with a chunk bound.
pub fn resolve_path(template: &str, data: &PathData) -> (r: String)
    requires
        needs_chunk(template@) ==> data.chunk is Some,
    ensures
        r@ == resolve_seq(template@, data.ctx()),
{
    proof {
        reveal_strlit("[hash]");
        reveal_strlit("[fullhash]");
        reveal_strlit("[id]");
        reveal_strlit("[name]");
        reveal_strlit("[runtime]");
    }
    let ghost t = template@;
    let ghost ctx = data.ctx();
    let n = template.unicode_len();
    let mut out = String::new();
    let mut i: usize = 0;
    proof {
        assert(t.skip(0) =~= t);
        assert(out@ + resolve_seq(t, ctx) =~= resolve_seq(t, ctx));
    }
    while i < n
        invariant
            i <= n,
            resolve_seq(t, ctx) == out@ + resolve_seq(t.skip(i as int), ctx),
        decreases n - i,
    {
        let ghost rest = t.skip(i as int);
        proof {
            lemma_token_at_skip(t, i as int, tok_fullhash());
            lemma_token_at_skip(t, i as int, tok_hash());
            lemma_token_at_skip(t, i as int, tok_id());
            lemma_token_at_skip(t, i as int, tok_name());
            lemma_token_at_skip(t, i as int, tok_runtime());
        }
        if matches_at(template, n, i, "[fullhash]") {
            append_hash(&mut out, &data.hash);
            proof {
                assert(rest.skip(tok_fullhash().len() as int) =~= t.skip(i + 10));
                assert(out@ + resolve_seq(t.skip(i + 10), ctx) =~= resolve_seq(t, ctx));
            }
            i = i + 10;
        } else if matches_at(template, n, i, "[hash]") {
            append_hash(&mut out, &data.hash);
            proof {
                assert(rest.skip(tok_hash().len() as int) =~= t.skip(i + 6));
                assert(out@ + resolve_seq(t.skip(i + 6), ctx) =~= resolve_seq(t, ctx));
            }
            i = i + 6;
        } else if matches_at(template, n, i, "[id]") {
            proof {
                assert(chunk_scoped_at(t, i as int));
            }
            match data.chunk {
                Some(c) => out.append(c.id.as_str()),
                None => unreached(),
            }
            proof {
                assert(rest.skip(tok_id().len() as int) =~= t.skip(i + 4));
                assert(out@ + resolve_seq(t.skip(i + 4), ctx) =~= resolve_seq(t, ctx));
            }
            i = i + 4;
        } else if matches_at(template, n, i, "[name]") {
            proof {
                assert(chunk_scoped_at(t, i as int));
            }
            match data.chunk {
                Some(c) => match &c.name {
                    Some(name) => out.append(name.as_str()),
                    None => out.append(c.id.as_str()),
                },
                None => unreached(),
            }
            proof {
                assert(rest.skip(tok_name().len() as int) =~= t.skip(i + 6));
                assert(out@ + resolve_seq(t.skip(i + 6), ctx) =~= resolve_seq(t, ctx));
            }
            i = i + 6;
        } else if matches_at(template, n, i, "[runtime]") {
            proof {
                assert(chunk_scoped_at(t, i as int));
            }
            match data.chunk {
                Some(c) => out.append(c.runtime.as_str()),
                None => unreached(),
            }
            proof {
                assert(rest.skip(tok_runtime().len() as int) =~= t.skip(i + 9));
                assert(out@ + resolve_seq(t.skip(i + 9), ctx) =~= resolve_seq(t, ctx));
            }
            i = i + 9;
        } else {
            out.append(template.substring_char(i, i + 1));
            proof {
                assert(t.subrange(i as int, i + 1) =~= seq![rest[0]]);
                assert(rest.skip(1) =~= t.skip(i + 1));
                assert(out@ + resolve_seq(t.skip(i + 1), ctx) =~= resolve_seq(t, ctx));
            }
            i = i + 1;
        }
    }
    proof {
        assert(t.skip(n as int) =~= Seq::<char>::empty());
        assert(out@ =~= resolve_seq(t, ctx));
    }
    out
}

/// Appends the text the hash placeholder resolves to under `policy`.
fn append_hash(out: &mut String, policy: &HashPolicy)
    ensures
        final(out)@ == old(out)@ + hash_text_spec(*policy),
{
    match policy {
        HashPolicy::Literal(h) => {
            out.append(h.as_str());
        },
        HashPolicy::Deferred(call) => {
            out.append("\" + ");
            out.append(call.as_str());
            out.append("() + \"");
            proof {
                assert(out@ =~= old(out)@ + splice_text(call@));
            }
        },
    }
}

/// Purity of resolution: `resolve_path` pins its result to a function of
/// the template and the context alone, so any two results meeting its
/// contract for the same inputs — two calls, in any order, on any chunk —
/// are equal.  In particular a template of literals and chunk-derived
/// placeholders only resolves the same way on every call.
pub proof fn lemma_resolution_pure(t: Seq<char>, ctx: ChunkContext, r1: Seq<char>, r2: Seq<char>)
    requires
        r1 == resolve_seq(t, ctx),
        r2 == resolve_seq(t, ctx),
    ensures
        r1 == r2,
{
}

impl Compilation {
    /// Resolves a filename template for emission, as the generators do.
    pub fn get_path(&self, template: &str, data: &PathData) -> (r: String)
        requires
            needs_chunk(template@) ==> data.chunk is Some,
        ensures
            r@ == resolve_seq(template@, data.ctx()),
    {
        resolve_path(template, data)
    }
}

} // verus!
