//! Correctness of the deferred-hash splice.
//!
//! A deferred hash resolves to a splice that closes the surrounding string
//! literal, calls the provider, and reopens the literal.  The law proved
//! here says that the two ways of obtaining the final string agree: take
//! the deferred resolution and evaluate it with the runtime in place (the
//! provider returning the true hash), and you get exactly the resolution
//! that a literal substitution of that hash would have produced.

use vstd::prelude::*;
use crate::template::{splice_text, resolve_seq, token_at, ChunkContext};

verus! {

/// What evaluating the emitted output with the runtime in place does to
/// the resolved text: each occurrence of the splice `pat` (leftmost
/// first) collapses to the provider's value `h`; every other character
/// stands for itself.
pub open spec fn eval_spliced(s: Seq<char>, pat: Seq<char>, h: Seq<char>) -> Seq<char>
    decreases s.len(),
{
    if s.len() == 0 || pat.len() == 0 {
        s
    } else if token_at(s, 0, pat) {
        h + eval_spliced(s.skip(pat.len() as int), pat, h)
    } else {
        seq![s[0]] + eval_spliced(s.skip(1), pat, h)
    }
}

/// No double-quote character anywhere: such text can never open or take
/// part in a splice occurrence.
pub open spec fn quote_free(s: Seq<char>) -> bool {
    forall|i: int| 0 <= i < s.len() ==> s[i] != '"'
}

pub open spec fn quote_free_opt(n: Option<Seq<char>>) -> bool {
    match n {
        Some(s) => quote_free(s),
        None => true,
    }
}

/// Evaluation passes over quote-free text unchanged: a splice occurrence
/// always begins with a quote, so none can begin inside `a`.
proof fn lemma_eval_skips_literal(a: Seq<char>, b: Seq<char>, pat: Seq<char>, h: Seq<char>)
    requires
        pat.len() > 0,
        pat[0] == '"',
        quote_free(a),
    ensures
        eval_spliced(a + b, pat, h) == a + eval_spliced(b, pat, h),
    decreases a.len(),
{
    if a.len() == 0 {
        assert(a + b =~= b);
        assert(a + eval_spliced(b, pat, h) =~= eval_spliced(b, pat, h));
    } else {
        let s = a + b;
        assert(s[0] == a[0]);
        if token_at(s, 0, pat) {
            assert(s.subrange(0, pat.len() as int)[0] == pat[0]);
            assert(false);
        }
        assert(s.skip(1) =~= a.skip(1) + b);
        assert(quote_free(a.skip(1)));
        lemma_eval_skips_literal(a.skip(1), b, pat, h);
        assert(seq![a[0]] + (a.skip(1) + eval_spliced(b, pat, h)) =~= a + eval_spliced(b, pat, h));
    }
}

/// Evaluation collapses a splice standing at the front to the provider's
/// value.
proof fn lemma_eval_at_splice(b: Seq<char>, pat: Seq<char>, h: Seq<char>)
    requires
        pat.len() > 0,
    ensures
        eval_spliced(pat + b, pat, h) == h + eval_spliced(b, pat, h),
{
    let s = pat + b;
    assert(s.subrange(0, pat.len() as int) =~= pat);
    assert(token_at(s, 0, pat));
    assert(s.skip(pat.len() as int) =~= b);
}

/// Deferred-hash correctness: resolving with the deferred policy and then
/// evaluating the output with the provider returning `h` yields exactly
/// the resolution that literal substitution of `h` would have produced.
/// The template and the chunk-derived values must be quote-free; a quote
/// inside them would corrupt the surrounding string literal itself.
pub proof fn lemma_deferred_matches_literal(
    t: Seq<char>,
    ctx_def: ChunkContext,
    ctx_lit: ChunkContext,
    call: Seq<char>,
    h: Seq<char>,
)
    requires
        quote_free(t),
        quote_free(ctx_def.chunk_id),
        quote_free_opt(ctx_def.chunk_name),
        quote_free(ctx_def.chunk_runtime),
        ctx_lit.chunk_id == ctx_def.chunk_id,
        ctx_lit.chunk_name == ctx_def.chunk_name,
        ctx_lit.chunk_runtime == ctx_def.chunk_runtime,
        ctx_def.hash_text == splice_text(call),
        ctx_lit.hash_text == h,
    ensures
        eval_spliced(resolve_seq(t, ctx_def), splice_text(call), h) == resolve_seq(t, ctx_lit),
    decreases t.len(),
{
    let pat = splice_text(call);
    reveal_strlit("\" + ");
    reveal_strlit("() + \"");
    reveal_strlit("[hash]");
    reveal_strlit("[fullhash]");
    reveal_strlit("[id]");
    reveal_strlit("[name]");
    reveal_strlit("[runtime]");
    assert(pat[0] == '"');
    assert(pat.len() > 0);
    if t.len() == 0 {
    } else if token_at(t, 0, crate::template::tok_fullhash()) {
        let rest = t.skip(crate::template::tok_fullhash().len() as int);
        assert(quote_free(rest));
        lemma_deferred_matches_literal(rest, ctx_def, ctx_lit, call, h);
        lemma_eval_at_splice(resolve_seq(rest, ctx_def), pat, h);
    } else if token_at(t, 0, crate::template::tok_hash()) {
        let rest = t.skip(crate::template::tok_hash().len() as int);
        assert(quote_free(rest));
        lemma_deferred_matches_literal(rest, ctx_def, ctx_lit, call, h);
        lemma_eval_at_splice(resolve_seq(rest, ctx_def), pat, h);
    } else if token_at(t, 0, crate::template::tok_id()) {
        let rest = t.skip(crate::template::tok_id().len() as int);
        assert(quote_free(rest));
        lemma_deferred_matches_literal(rest, ctx_def, ctx_lit, call, h);
        lemma_eval_skips_literal(ctx_def.chunk_id, resolve_seq(rest, ctx_def), pat, h);
    } else if token_at(t, 0, crate::template::tok_name()) {
        let rest = t.skip(crate::template::tok_name().len() as int);
        assert(quote_free(rest));
        assert(quote_free(crate::template::name_text(ctx_def)));
        assert(crate::template::name_text(ctx_def) == crate::template::name_text(ctx_lit));
        lemma_deferred_matches_literal(rest, ctx_def, ctx_lit, call, h);
        lemma_eval_skips_literal(
            crate::template::name_text(ctx_def),
            resolve_seq(rest, ctx_def),
            pat,
            h,
        );
    } else if token_at(t, 0, crate::template::tok_runtime()) {
        let rest = t.skip(crate::template::tok_runtime().len() as int);
        assert(quote_free(rest));
        lemma_deferred_matches_literal(rest, ctx_def, ctx_lit, call, h);
        lemma_eval_skips_literal(ctx_def.chunk_runtime, resolve_seq(rest, ctx_def), pat, h);
    } else {
        let rest = t.skip(1);
        assert(quote_free(rest));
        assert(quote_free(seq![t[0]]));
        lemma_deferred_matches_literal(rest, ctx_def, ctx_lit, call, h);
        lemma_eval_skips_literal(seq![t[0]], resolve_seq(rest, ctx_def), pat, h);
    }
}

} // verus!
