//! The emitter: turns the runtime modules selected for one chunk into the
//! chunk's runtime section.
//!
//! The selection stage (external) decides which modules a chunk needs and
//! in what order.  The emitter deduplicates them by identity (a later
//! duplicate is discarded), detects completeness gaps — a required
//! capability flag with no attached provider is reported, never silently
//! dropped — attaches every survivor to the chunk, and concatenates their
//! generated fragments in order.

use vstd::prelude::*;
use crate::chunk::{ChunkUkey, Compilation};
use crate::globals::{RuntimeGlobal, RuntimeGlobals};
use crate::module::{attachment_ukey, ChunkAttachment, Identifier, RuntimeModule};

verus! {

broadcast use vstd::prelude::Seq::lemma_filter_push, vstd::prelude::Seq::lemma_filter_contains_rev, vstd::seq_lib::group_filter_ensures;

/// A reported completeness gap: the chunk it is attributable to and the
/// required flags no attached module provides.  A build-level diagnostic,
/// not a crash: the selection stage is responsible for closing the gap.
pub struct CompletenessError {
    pub chunk: ChunkUkey,
    pub missing: RuntimeGlobals,
}

/// The union of the flags the modules of `s` require.
pub open spec fn required_union<T: RuntimeModule>(s: Seq<T>) -> Set<RuntimeGlobal>
    decreases s.len(),
{
    if s.len() == 0 {
        Set::empty()
    } else {
        s[0].required_spec().union(required_union(s.skip(1)))
    }
}

/// The union of the flags the modules of `s` provide.
pub open spec fn provided_union<T: RuntimeModule>(s: Seq<T>) -> Set<RuntimeGlobal>
    decreases s.len(),
{
    if s.len() == 0 {
        Set::empty()
    } else {
        s[0].provided_spec().union(provided_union(s.skip(1)))
    }
}

/// `s` with every module whose identity was already seen discarded: the
/// first occurrence of each identity survives, later ones are dropped.
pub open spec fn dedup_seq<T: RuntimeModule>(s: Seq<T>, seen: Set<Seq<char>>) -> Seq<T>
    decreases s.len(),
{
    if s.len() == 0 {
        s
    } else if seen.contains(s[0].module_identity()) {
        dedup_seq(s.skip(1), seen)
    } else {
        seq![s[0]] + dedup_seq(s.skip(1), seen.insert(s[0].module_identity()))
    }
}

/// The concatenation, in order, of the fragments the modules of `s` emit
/// for chunk `u` of compilation `c`.
pub open spec fn concat_code_at<T: RuntimeModule>(s: Seq<T>, c: Compilation, u: ChunkUkey) -> Seq<
    char,
>
    decreases s.len(),
{
    if s.len() == 0 {
        Seq::empty()
    } else {
        s[0].generated_for(c, u) + concat_code_at(s.skip(1), c, u)
    }
}

/// What attachment preserves of a module: everything but the attachment
/// state itself.
pub open spec fn same_module_facts<T: RuntimeModule>(o: T, m: T) -> bool {
    &&& m.module_identity() == o.module_identity()
    &&& m.required_spec() == o.required_spec()
    &&& m.provided_spec() == o.provided_spec()
    &&& m.map_kind_spec() == o.map_kind_spec()
    &&& forall|c: Compilation, u: ChunkUkey|
        #[trigger] m.generated_for(c, u) == o.generated_for(c, u)
}

/// Whether some module of `out` already carries this identity.
fn contains_identity<T: RuntimeModule>(out: &Vec<T>, name: &Identifier) -> (r: bool)
    ensures
        r == exists|k: int|
            0 <= k < out@.len() && (#[trigger] out@[k]).module_identity() == name@,
{
    let n = out.len();
    let mut j: usize = 0;
    while j < n
        invariant
            j <= n,
            forall|k: int| 0 <= k < j ==> (#[trigger] out@[k]).module_identity() != name@,
        decreases n - j,
    {
        let candidate = out[j].name();
        if candidate.value == name.value {
            proof {
                assert(out@[j as int].module_identity() == name@);
            }
            return true;
        }
        j = j + 1;
    }
    false
}

/// Deduplicates by identity, keeping the first occurrence of each
/// identity and discarding every later duplicate; order is otherwise
/// preserved.
pub fn dedup_by_identity<T: RuntimeModule>(modules: Vec<T>) -> (r: Vec<T>)
    ensures
        r@ == dedup_seq(modules@, Set::<Seq<char>>::empty()),
{
    let ghost orig = modules@;
    let n = modules.len();
    let mut rest = modules;
    let mut out: Vec<T> = Vec::new();
    let ghost mut seen = Set::<Seq<char>>::empty();
    let mut i: usize = 0;
    proof {
        assert(orig.skip(0) =~= orig);
        assert(out@ + dedup_seq(orig, seen) =~= dedup_seq(orig, seen));
    }
    while i < n
        invariant
            i <= n,
            n == orig.len(),
            rest@ == orig.skip(i as int),
            dedup_seq(orig, Set::<Seq<char>>::empty()) == out@ + dedup_seq(
                orig.skip(i as int),
                seen,
            ),
            forall|id: Seq<char>| #[trigger]
                seen.contains(id) <==> exists|k: int|
                    0 <= k < out@.len() && (#[trigger] out@[k]).module_identity() == id,
        decreases n - i,
    {
        let ghost out0 = out@;
        let ghost seen0 = seen;
        let m = rest.remove(0);
        proof {
            assert(orig.skip(i as int).remove(0) =~= orig.skip(i + 1));
            assert(orig.skip(i as int)[0] == orig[i as int]);
            assert(m == orig[i as int]);
            assert(orig.skip(i as int).skip(1) =~= orig.skip(i + 1));
        }
        let m_name = m.name();
        let dup = contains_identity(&out, &m_name);
        if dup {
            proof {
                let id = orig[i as int].module_identity();
                assert(seen.contains(id));
                assert(dedup_seq(orig.skip(i as int), seen) == dedup_seq(orig.skip(i + 1), seen));
            }
        } else {
            out.push(m);
            proof {
                let id = orig[i as int].module_identity();
                assert(!seen0.contains(id));
                assert(dedup_seq(orig.skip(i as int), seen0) == seq![orig[i as int]] + dedup_seq(
                    orig.skip(i + 1),
                    seen0.insert(id),
                ));
                seen = seen0.insert(id);
                assert(out@ == out0.push(orig[i as int]));
                assert(out0 + (seq![orig[i as int]] + dedup_seq(orig.skip(i + 1), seen)) =~= out@
                    + dedup_seq(orig.skip(i + 1), seen));
                assert forall|id2: Seq<char>| #[trigger] seen.contains(id2) implies exists|k: int|
                    0 <= k < out@.len() && (#[trigger] out@[k]).module_identity() == id2 by {
                    if id2 == id {
                        assert(out@[out@.len() - 1] == orig[i as int]);
                        assert(out@[out@.len() - 1].module_identity() == id2);
                    } else {
                        assert(seen0.contains(id2));
                        let k = choose|k: int|
                            0 <= k < out0.len() && (#[trigger] out0[k]).module_identity() == id2;
                        assert(out@[k] == out0[k]);
                        assert(out@[k].module_identity() == id2);
                    }
                }
                assert forall|id2: Seq<char>|
                    (exists|k: int|
                        0 <= k < out@.len() && (#[trigger] out@[k]).module_identity()
                            == id2) implies seen.contains(id2) by {
                    let k = choose|k: int|
                        0 <= k < out@.len() && (#[trigger] out@[k]).module_identity() == id2;
                    if k < out@.len() - 1 {
                        assert(out@[k] == out0[k]);
                        assert(seen0.contains(id2));
                    } else {
                        assert(out@[k] == orig[i as int]);
                    }
                }
            }
        }
        i = i + 1;
    }
    proof {
        assert(dedup_seq(orig.skip(n as int), seen) =~= Seq::<T>::empty());
        assert(out@ + Seq::<T>::empty() =~= out@);
    }
    out
}

/// Every survivor of deduplication is one of the incoming modules.
pub proof fn lemma_dedup_elements<T: RuntimeModule>(s: Seq<T>, seen: Set<Seq<char>>)
    ensures
        forall|i: int|
            0 <= i < dedup_seq(s, seen).len() ==> s.contains(#[trigger] dedup_seq(s, seen)[i]),
    decreases s.len(),
{
    if s.len() == 0 {
    } else {
        let id0 = s[0].module_identity();
        let res = dedup_seq(s, seen);
        if seen.contains(id0) {
            lemma_dedup_elements(s.skip(1), seen);
            assert forall|i: int| 0 <= i < res.len() implies s.contains(#[trigger] res[i]) by {
                assert(res == dedup_seq(s.skip(1), seen));
                assert(s.skip(1).contains(dedup_seq(s.skip(1), seen)[i]));
                assert(s.skip(1).contains(res[i]));
                let j = choose|j: int| 0 <= j < s.skip(1).len() && s.skip(1)[j] == res[i];
                assert(s[j + 1] == res[i]);
            }
        } else {
            let tail = dedup_seq(s.skip(1), seen.insert(id0));
            lemma_dedup_elements(s.skip(1), seen.insert(id0));
            assert forall|i: int| 0 <= i < res.len() implies s.contains(#[trigger] res[i]) by {
                if i == 0 {
                    assert(res[0] == s[0]);
                } else {
                    assert(res[i] == tail[i - 1]);
                    assert(s.skip(1).contains(tail[i - 1]));
                    let j = choose|j: int| 0 <= j < s.skip(1).len() && s.skip(1)[j] == tail[i - 1];
                    assert(s[j + 1] == res[i]);
                }
            }
        }
    }
}

/// Deduplication law: distinct survivors carry distinct identities, no
/// survivor's identity was seen before, and every incoming identity
/// either was seen before or survives.
pub proof fn lemma_dedup_identities<T: RuntimeModule>(s: Seq<T>, seen: Set<Seq<char>>)
    ensures
        forall|i: int, j: int|
            0 <= i < j < dedup_seq(s, seen).len() ==> (#[trigger] dedup_seq(
                s,
                seen,
            )[i]).module_identity() != (#[trigger] dedup_seq(s, seen)[j]).module_identity(),
        forall|i: int|
            0 <= i < dedup_seq(s, seen).len() ==> !seen.contains(
                (#[trigger] dedup_seq(s, seen)[i]).module_identity(),
            ),
        forall|k: int|
            0 <= k < s.len() ==> seen.contains((#[trigger] s[k]).module_identity()) || exists|
                i: int,
            |
                0 <= i < dedup_seq(s, seen).len() && (#[trigger] dedup_seq(
                    s,
                    seen,
                )[i]).module_identity() == s[k].module_identity(),
    decreases s.len(),
{
    if s.len() == 0 {
    } else {
        let id0 = s[0].module_identity();
        let res = dedup_seq(s, seen);
        if seen.contains(id0) {
            lemma_dedup_identities(s.skip(1), seen);
            assert forall|k: int| 0 <= k < s.len() implies seen.contains(
                (#[trigger] s[k]).module_identity(),
            ) || exists|i: int|
                0 <= i < res.len() && (#[trigger] res[i]).module_identity()
                    == s[k].module_identity() by {
                if k > 0 {
                    assert(s.skip(1)[k - 1] == s[k]);
                    if !seen.contains(s[k].module_identity()) {
                        let i = choose|i: int|
                            0 <= i < dedup_seq(s.skip(1), seen).len() && (#[trigger] dedup_seq(
                                s.skip(1),
                                seen,
                            )[i]).module_identity() == s.skip(1)[k - 1].module_identity();
                        assert((res[i]).module_identity() == s[k].module_identity());
                    }
                }
            }
        } else {
            let seen2 = seen.insert(id0);
            let tail = dedup_seq(s.skip(1), seen2);
            lemma_dedup_identities(s.skip(1), seen2);
            assert(res == seq![s[0]] + tail);
            assert forall|i: int, j: int| 0 <= i < j < res.len() implies (#[trigger] res[i]).module_identity()
                != (#[trigger] res[j]).module_identity() by {
                assert(res[j] == tail[j - 1]);
                assert(!seen2.contains(tail[j - 1].module_identity()));
                if i > 0 {
                    assert(res[i] == tail[i - 1]);
                } else {
                    assert(res[0] == s[0]);
                    assert(seen2.contains(id0));
                }
            }
            assert forall|i: int| 0 <= i < res.len() implies !seen.contains(
                (#[trigger] res[i]).module_identity(),
            ) by {
                if i > 0 {
                    assert(res[i] == tail[i - 1]);
                    assert(!seen2.contains(tail[i - 1].module_identity()));
                } else {
                    assert(res[0] == s[0]);
                }
            }
            assert forall|k: int| 0 <= k < s.len() implies seen.contains(
                (#[trigger] s[k]).module_identity(),
            ) || exists|i: int|
                0 <= i < res.len() && (#[trigger] res[i]).module_identity()
                    == s[k].module_identity() by {
                if k == 0 {
                    assert(res[0] == s[0]);
                    assert((res[0]).module_identity() == s[k].module_identity());
                } else {
                    assert(s.skip(1)[k - 1] == s[k]);
                    if seen2.contains(s[k].module_identity()) {
                        if s[k].module_identity() == id0 {
                            assert(res[0] == s[0]);
                            assert((res[0]).module_identity() == s[k].module_identity());
                        } else {
                            assert(seen.contains(s[k].module_identity()));
                        }
                    } else {
                        let i = choose|i: int|
                            0 <= i < tail.len() && (#[trigger] tail[i]).module_identity()
                                == s.skip(1)[k - 1].module_identity();
                        assert(res[i + 1] == tail[i]);
                        assert((res[i + 1]).module_identity() == s[k].module_identity());
                    }
                }
            }
        }
    }
}

/// Whether a module provides any of the given capability flags.
pub open spec fn provides_any<T: RuntimeModule>(m: T, req: Set<RuntimeGlobal>) -> bool {
    exists|g: RuntimeGlobal| m.provided_spec().contains(g) && #[trigger] req.contains(g)
}

/// The modules of `s` that provide one of the flags of `req`, in order.
pub open spec fn providers_of<T: RuntimeModule>(s: Seq<T>, req: Set<RuntimeGlobal>) -> Seq<T> {
    s.filter(|m: T| provides_any(m, req))
}

/// The modules of `s` that provide none of the flags of `req`, in order.
pub open spec fn consumers_of<T: RuntimeModule>(s: Seq<T>, req: Set<RuntimeGlobal>) -> Seq<T> {
    s.filter(|m: T| !provides_any(m, req))
}

/// The dependency order of emission: every module that provides a
/// required capability is declared before every module that only
/// consumes; within each class the selection order is kept.  Runtime
/// correctness does not need the precedence — a provider function exists
/// by the time it is called — but declaration order must be
/// deterministic, byte for byte.
pub fn order_providers_first<T: RuntimeModule>(modules: Vec<T>, required: &RuntimeGlobals) -> (r:
    Vec<T>)
    ensures
        r@ == providers_of(modules@, required@) + consumers_of(modules@, required@),
{
    let ghost orig = modules@;
    let ghost req = required@;
    let n = modules.len();
    let mut rest = modules;
    let mut front: Vec<T> = Vec::new();
    let mut back: Vec<T> = Vec::new();
    let mut i: usize = 0;
    proof {
        assert(orig.take(0) =~= Seq::<T>::empty());
        assert(front@ =~= providers_of(orig.take(0), req));
        assert(back@ =~= consumers_of(orig.take(0), req));
    }
    while i < n
        invariant
            i <= n,
            n == orig.len(),
            rest@ == orig.skip(i as int),
            front@ == providers_of(orig.take(i as int), req),
            back@ == consumers_of(orig.take(i as int), req),
        decreases n - i,
    {
        let m = rest.remove(0);
        proof {
            assert(orig.skip(i as int).remove(0) =~= orig.skip(i + 1));
            assert(orig.skip(i as int)[0] == orig[i as int]);
            assert(m == orig[i as int]);
            assert(orig.take(i + 1) =~= orig.take(i as int).push(orig[i as int]));
        }
        let provided = m.provided_globals();
        let is_provider = provided.intersects(required);
        proof {
            assert(is_provider == provides_any(orig[i as int], req)) by {
                if is_provider {
                    let g = choose|g: RuntimeGlobal|
                        provided@.contains(g) && #[trigger] required@.contains(g);
                    assert(orig[i as int].provided_spec().contains(g) && req.contains(g));
                }
                if provides_any(orig[i as int], req) {
                    let g = choose|g: RuntimeGlobal|
                        orig[i as int].provided_spec().contains(g) && #[trigger] req.contains(g);
                    assert(provided@.contains(g) && required@.contains(g));
                }
            }
            assert(providers_of(orig.take(i + 1), req) == if provides_any(orig[i as int], req) {
                providers_of(orig.take(i as int), req).push(orig[i as int])
            } else {
                providers_of(orig.take(i as int), req)
            });
            assert(consumers_of(orig.take(i + 1), req) == if !provides_any(orig[i as int], req) {
                consumers_of(orig.take(i as int), req).push(orig[i as int])
            } else {
                consumers_of(orig.take(i as int), req)
            });
        }
        if is_provider {
            front.push(m);
        } else {
            back.push(m);
        }
        i = i + 1;
    }
    proof {
        assert(orig.take(n as int) =~= orig);
    }
    let mut r = front;
    let mut tail = back;
    r.append(&mut tail);
    r
}

/// Ordering loses and duplicates nothing: the providers-first order is a
/// permutation of its input.
pub proof fn lemma_order_is_permutation<T: RuntimeModule>(s: Seq<T>, req: Set<RuntimeGlobal>)
    ensures
        (providers_of(s, req) + consumers_of(s, req)).to_multiset() =~= s.to_multiset(),
    decreases s.len(),
{
    broadcast use vstd::seq_lib::lemma_multiset_commutative, vstd::seq_lib::group_to_multiset_ensures, vstd::multiset::group_multiset_axioms;

    if s.len() == 0 {
        assert(providers_of(s, req) =~= Seq::<T>::empty());
        assert(consumers_of(s, req) =~= Seq::<T>::empty());
        assert(providers_of(s, req) + consumers_of(s, req) =~= s);
    } else {
        let d = s.drop_last();
        let x = s.last();
        assert(s =~= d.push(x));
        lemma_order_is_permutation(d, req);
        assert(providers_of(d.push(x), req) == providers_of(s, req));
        assert(consumers_of(d.push(x), req) == consumers_of(s, req));
        let a = providers_of(d, req);
        let b = consumers_of(d, req);
        assert(s.to_multiset() =~= d.to_multiset().insert(x)) by {
            assert(d.push(x).to_multiset() =~= d.to_multiset().insert(x));
        }
        if provides_any(x, req) {
            assert(providers_of(s, req) == a.push(x));
            assert(consumers_of(s, req) == b);
            assert((a.push(x) + b).to_multiset() =~= a.push(x).to_multiset().add(b.to_multiset()));
            assert(a.push(x).to_multiset() =~= a.to_multiset().insert(x));
            assert((a + b).to_multiset() =~= a.to_multiset().add(b.to_multiset()));
            assert(a.to_multiset().insert(x).add(b.to_multiset()) =~= a.to_multiset().add(
                b.to_multiset(),
            ).insert(x));
            assert((providers_of(s, req) + consumers_of(s, req)).to_multiset() =~= s.to_multiset());
        } else {
            assert(providers_of(s, req) == a);
            assert(consumers_of(s, req) == b.push(x));
            assert((a + b.push(x)) =~= (a + b).push(x));
            assert((a + b).push(x).to_multiset() =~= (a + b).to_multiset().insert(x));
            assert((providers_of(s, req) + consumers_of(s, req)).to_multiset() =~= s.to_multiset());
        }
    }
}

/// The union of the flags the modules require, computed.
pub fn collect_required<T: RuntimeModule>(modules: &Vec<T>) -> (r: RuntimeGlobals)
    ensures
        r@ =~= required_union(modules@),
{
    let n = modules.len();
    let mut acc = RuntimeGlobals::empty();
    let mut i: usize = 0;
    proof {
        assert(modules@.skip(0) =~= modules@);
        assert(acc@.union(required_union(modules@)) =~= required_union(modules@));
    }
    while i < n
        invariant
            i <= n,
            n == modules@.len(),
            acc@.union(required_union(modules@.skip(i as int))) =~= required_union(modules@),
        decreases n - i,
    {
        let more = modules[i].required_globals();
        acc.union_with(&more);
        proof {
            assert(modules@.skip(i as int).skip(1) =~= modules@.skip(i + 1));
            assert(modules@.skip(i as int)[0] == modules@[i as int]);
            assert(acc@.union(required_union(modules@.skip(i + 1))) =~= required_union(modules@));
        }
        i = i + 1;
    }
    proof {
        assert(required_union(modules@.skip(n as int)) =~= Set::<RuntimeGlobal>::empty());
        assert(acc@ =~= required_union(modules@));
    }
    acc
}

/// The union of the flags the modules provide, computed.
pub fn collect_provided<T: RuntimeModule>(modules: &Vec<T>) -> (r: RuntimeGlobals)
    ensures
        r@ =~= provided_union(modules@),
{
    let n = modules.len();
    let mut acc = RuntimeGlobals::empty();
    let mut i: usize = 0;
    proof {
        assert(modules@.skip(0) =~= modules@);
        assert(acc@.union(provided_union(modules@)) =~= provided_union(modules@));
    }
    while i < n
        invariant
            i <= n,
            n == modules@.len(),
            acc@.union(provided_union(modules@.skip(i as int))) =~= provided_union(modules@),
        decreases n - i,
    {
        let more = modules[i].provided_globals();
        acc.union_with(&more);
        proof {
            assert(modules@.skip(i as int).skip(1) =~= modules@.skip(i + 1));
            assert(modules@.skip(i as int)[0] == modules@[i as int]);
            assert(acc@.union(provided_union(modules@.skip(i + 1))) =~= provided_union(modules@));
        }
        i = i + 1;
    }
    proof {
        assert(provided_union(modules@.skip(n as int)) =~= Set::<RuntimeGlobal>::empty());
        assert(acc@ =~= provided_union(modules@));
    }
    acc
}

/// Attaches every module to the chunk; everything else about each module
/// is unchanged, and order is preserved.
pub fn attach_all<T: RuntimeModule>(modules: Vec<T>, chunk: ChunkUkey) -> (r: Vec<T>)
    requires
        forall|k: int|
            0 <= k < modules@.len() ==> (#[trigger] modules@[k]).attachment() is Unattached,
    ensures
        r@.len() == modules@.len(),
        forall|k: int|
            0 <= k < modules@.len() ==> (#[trigger] r@[k]).attachment()
                == ChunkAttachment::Attached(chunk) && same_module_facts(modules@[k], r@[k]),
{
    let ghost orig = modules@;
    let n = modules.len();
    let mut rest = modules;
    let mut out: Vec<T> = Vec::new();
    let mut i: usize = 0;
    while i < n
        invariant
            i <= n,
            n == orig.len(),
            rest@ == orig.skip(i as int),
            out@.len() == i,
            forall|k: int|
                0 <= k < i ==> (#[trigger] out@[k]).attachment() == ChunkAttachment::Attached(chunk)
                    && same_module_facts(orig[k], out@[k]),
        decreases n - i,
    {
        let mut m = rest.remove(0);
        proof {
            assert(orig.skip(i as int).remove(0) =~= orig.skip(i + 1));
            assert(orig.skip(i as int)[0] == orig[i as int]);
            assert(m == orig[i as int]);
        }
        m.attach(chunk);
        out.push(m);
        i = i + 1;
    }
    out
}

/// Concatenates, in order, the fragments the attached modules emit.
pub fn render_all<T: RuntimeModule>(
    modules: &Vec<T>,
    compilation: &Compilation,
    chunk: ChunkUkey,
) -> (r: String)
    requires
        compilation.valid_ukey(chunk),
        forall|k: int|
            0 <= k < modules@.len() ==> (#[trigger] modules@[k]).attachment()
                == ChunkAttachment::Attached(chunk),
    ensures
        r@ == concat_code_at(modules@, *compilation, chunk),
{
    let n = modules.len();
    let mut out = String::new();
    let mut i: usize = 0;
    proof {
        assert(modules@.skip(0) =~= modules@);
        assert(out@ + concat_code_at(modules@, *compilation, chunk) =~= concat_code_at(
            modules@,
            *compilation,
            chunk,
        ));
    }
    while i < n
        invariant
            i <= n,
            n == modules@.len(),
            concat_code_at(modules@, *compilation, chunk) == out@ + concat_code_at(
                modules@.skip(i as int),
                *compilation,
                chunk,
            ),
        decreases n - i,
    {
        let fragment = modules[i].generate(compilation);
        out.append(fragment.code.as_str());
        proof {
            assert(modules@.skip(i as int)[0] == modules@[i as int]);
            assert(attachment_ukey(modules@[i as int].attachment()) == chunk);
            assert(modules@.skip(i as int).skip(1) =~= modules@.skip(i + 1));
            assert(out@ + concat_code_at(modules@.skip(i + 1), *compilation, chunk)
                =~= concat_code_at(modules@, *compilation, chunk));
        }
        i = i + 1;
    }
    proof {
        assert(concat_code_at(modules@.skip(n as int), *compilation, chunk) =~= Seq::<
            char,
        >::empty());
        assert(out@ =~= concat_code_at(modules@, *compilation, chunk));
    }
    out
}

/// Fragment concatenation only reads what attachment preserves, so it is
/// the same over a sequence of attached images as over the originals.
proof fn lemma_concat_elementwise<T: RuntimeModule>(
    a: Seq<T>,
    b: Seq<T>,
    c: Compilation,
    u: ChunkUkey,
)
    requires
        a.len() == b.len(),
        forall|k: int| 0 <= k < a.len() ==> same_module_facts(#[trigger] a[k], b[k]),
    ensures
        concat_code_at(a, c, u) == concat_code_at(b, c, u),
    decreases a.len(),
{
    if a.len() > 0 {
        assert(same_module_facts(a[0], b[0]));
        assert(b[0].generated_for(c, u) == a[0].generated_for(c, u));
        assert(forall|k: int|
            0 <= k < a.skip(1).len() ==> same_module_facts(#[trigger] a.skip(1)[k], b.skip(1)[k]));
        lemma_concat_elementwise(a.skip(1), b.skip(1), c, u);
    }
}

/// The runtime section of one chunk, as emitted: the selected modules
/// deduplicated by identity, ordered providers-first, and their
/// fragments concatenated.
pub open spec fn runtime_section<T: RuntimeModule>(
    input: Seq<T>,
    c: Compilation,
    u: ChunkUkey,
) -> Seq<char> {
    let deduped = dedup_seq(input, Set::<Seq<char>>::empty());
    let req = required_union(input);
    concat_code_at(providers_of(deduped, req) + consumers_of(deduped, req), c, u)
}

/// Emits the runtime section for one chunk: deduplicates the selected
/// modules by identity, reports a completeness gap if some required flag
/// has no provider among the selected modules, and otherwise orders the
/// survivors providers-first, attaches them to the chunk, and
/// concatenates their fragments.
pub fn emit_chunk_runtime<T: RuntimeModule>(
    modules: Vec<T>,
    chunk: ChunkUkey,
    compilation: &Compilation,
) -> (r: Result<String, CompletenessError>)
    requires
        compilation.valid_ukey(chunk),
        forall|k: int|
            0 <= k < modules@.len() ==> (#[trigger] modules@[k]).attachment() is Unattached,
    ensures
        r is Err <==> !required_union(modules@).subset_of(provided_union(modules@)),
        r matches Err(e) ==> e.chunk == chunk && e.missing@ =~= required_union(modules@).difference(
            provided_union(modules@),
        ),
        r matches Ok(code) ==> code@ == runtime_section(modules@, *compilation, chunk),
{
    let ghost input = modules@;
    let required = collect_required(&modules);
    let provided = collect_provided(&modules);
    let missing = required.difference(&provided);
    let no_gap = missing.is_empty();
    proof {
        if required_union(input).subset_of(provided_union(input)) {
            assert(required_union(input).difference(provided_union(input)) =~= Set::<
                RuntimeGlobal,
            >::empty());
            assert(missing@ =~= Set::<RuntimeGlobal>::empty());
        }
        if missing@ =~= Set::<RuntimeGlobal>::empty() {
            assert forall|g: RuntimeGlobal|
                required_union(input).contains(g) implies provided_union(input).contains(g) by {
                assert(!missing@.contains(g));
            }
        }
    }
    if !no_gap {
        return Err(CompletenessError { chunk, missing });
    }
    let deduped = dedup_by_identity(modules);
    let ghost dd = deduped@;
    let ordered = order_providers_first(deduped, &required);
    proof {
        assert(required@ == required_union(input));
        lemma_dedup_elements(input, Set::<Seq<char>>::empty());
        assert forall|k: int|
            0 <= k < ordered@.len() implies (#[trigger] ordered@[k]).attachment()
            is Unattached by {
            let e = ordered@[k];
            let front = providers_of(dd, required_union(input));
            if k < front.len() {
                assert(front[k] == e);
                assert(front.contains(e));
            } else {
                let back = consumers_of(dd, required_union(input));
                assert(back[k - front.len()] == e);
                assert(back.contains(e));
            }
            assert(dd.contains(e));
            let j = choose|j: int| 0 <= j < dd.len() && dd[j] == e;
            assert(input.contains(dd[j]));
            let j2 = choose|j2: int| 0 <= j2 < input.len() && input[j2] == e;
            assert(input[j2].attachment() is Unattached);
        }
    }
    let attached = attach_all(ordered, chunk);
    let code = render_all(&attached, compilation, chunk);
    proof {
        lemma_concat_elementwise(ordered@, attached@, *compilation, chunk);
    }
    Ok(code)
}

} // verus!
