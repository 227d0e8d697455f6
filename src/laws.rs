//! Laws of the selector walk, stated over `dig_spec`, which is what
//! `Dig::dig` returns.

use vstd::prelude::*;

use crate::dig::{
    dig_spec, lemma_walk_concat, lemma_walk_none, lemma_walk_push, step, walk, NamedChildren,
};
use crate::selector::{
    all_sigils, drop_empty, kept, kept_segments, lemma_kept_concat, lemma_kept_push, lemma_kept_insert_empty,
    lemma_segments_concat, lemma_segments_last, lemma_segments_nonempty, lemma_segments_single,
    segments, sigil,
};

verus! {

/// A run of `k` dots.
pub open spec fn dots(k: nat) -> Seq<char> {
    Seq::new(k, |i: int| '.')
}

/// Joining `a` and `b` falls between two segments: one of the two is empty
/// or the dot is already there.
pub open spec fn at_segment_boundary(a: Seq<char>, b: Seq<char>) -> bool {
    a.len() == 0 || b.len() == 0 || a.last() == '.' || b[0] == '.'
}

/// An empty segment placed between `a` and `b` would fall inside the
/// leading run of root sigils of `a + b`, with a sigil after it.
pub open spec fn cuts_sigil_run(a: Seq<char>, b: Seq<char>) -> bool {
    let x = segments(a);
    let y = segments(b);
    if x.last().len() == 0 {
        all_sigils(x.drop_last()) && y[0] == sigil()
    } else {
        all_sigils(x) && y.len() > 1 && y[1] == sigil()
    }
}

/// A name: a non-empty segment other than the root sigil.
pub open spec fn is_name(n: Seq<char>) -> bool {
    n.len() > 0 && !n.contains('.') && n != sigil()
}

/// The empty selector and the bare root sigil both select the root itself.
pub proof fn law_identity<T: NamedChildren>(t: T)
    ensures
        dig_spec(t, Seq::empty()) == Some(t),
        dig_spec(t, seq!['$']) == Some(t),
{
    let e = Seq::<Seq<char>>::empty();
    lemma_segments_single(Seq::empty());
    lemma_kept_push(e, Seq::empty());
    assert(e.push(Seq::<char>::empty()) =~= seq![Seq::<char>::empty()]);
    assert(!seq!['$'].contains('.')) by {
        assert(seq!['$'][0] == '$');
    }
    lemma_segments_single(seq!['$']);
    lemma_kept_push(e, sigil());
    assert(e.push(sigil()) =~= seq![sigil()]);
    assert(kept(e) == e) by {
        assert(drop_empty(e) == e);
    }
}

/// A `$.` or `$.$.` in front of a selector changes nothing.
pub proof fn law_sigil_prefix<T: NamedChildren>(t: T, s: Seq<char>)
    ensures
        dig_spec(t, seq!['$', '.'] + s) == dig_spec(t, s),
        dig_spec(t, seq!['$', '.', '$', '.'] + s) == dig_spec(t, s),
{
    lemma_sigil_prefix(s);
    lemma_sigil_prefix(seq!['$', '.'] + s);
    assert(seq!['$', '.'] + (seq!['$', '.'] + s) =~= seq!['$', '.', '$', '.'] + s);
}

proof fn lemma_sigil_prefix(s: Seq<char>)
    ensures
        kept_segments(seq!['$', '.'] + s) == kept_segments(s),
{
    assert(seq!['$', '.'] + s =~= seq!['$'] + seq!['.'] + s);
    lemma_segments_concat(seq!['$'], s);
    assert(!seq!['$'].contains('.')) by {
        assert(seq!['$'][0] == '$');
    }
    lemma_segments_single(seq!['$']);
    let x = seq![sigil()] + segments(s);
    assert(x[0] == sigil());
    assert(x.drop_first() =~= segments(s));
}

/// Extra dots between two segments, or at either end, change nothing, as
/// long as they do not cut the leading run of root sigils short.
pub proof fn law_extra_dots<T: NamedChildren>(t: T, a: Seq<char>, b: Seq<char>, k: nat)
    requires
        at_segment_boundary(a, b),
        !cuts_sigil_run(a, b),
    ensures
        dig_spec(t, a + dots(k) + b) == dig_spec(t, a + b),
    decreases k,
{
    if k > 0 {
        let a1 = a.push('.');
        assert(a + dots(k) + b =~= a1 + dots((k - 1) as nat) + b);
        lemma_extra_dot(a, b);
        lemma_segments_last(a);
        lemma_segments_last(b);
        lemma_segments_last(a1);
        assert(a1.last() == '.');
        assert(a1.drop_last() =~= a);
        assert(!cuts_sigil_run(a1, b)) by {
            assert(a + seq!['.'] + Seq::<char>::empty() =~= a1);
            lemma_segments_concat(a, Seq::empty());
            lemma_segments_single(Seq::empty());
            assert(segments(a1).drop_last() =~= segments(a));
            if b.len() > 0 && b[0] == '.' {
                assert(b =~= seq![] + seq!['.'] + b.drop_first());
                lemma_segments_concat(seq![], b.drop_first());
                assert(segments(b)[0] == segments(Seq::<char>::empty())[0]);
            } else if b.len() > 0 {
                assert(!all_sigils(segments(a))) by {
                    assert(segments(a).last() == segments(a)[segments(a).len() - 1]);
                }
            }
        }
        law_extra_dots(t, a1, b, (k - 1) as nat);
        assert(a1 + b =~= a + seq!['.'] + b);
    } else {
        assert(a + dots(k) + b =~= a + b);
    }
}

proof fn lemma_extra_dot(a: Seq<char>, b: Seq<char>)
    requires
        at_segment_boundary(a, b),
        !cuts_sigil_run(a, b),
    ensures
        kept_segments(a + seq!['.'] + b) == kept_segments(a + b),
{
    let e = Seq::<char>::empty();
    lemma_segments_concat(a, b);
    lemma_segments_last(a);
    lemma_segments_single(e);
    if a.len() > 0 && a.last() == '.' {
        let a0 = a.drop_last();
        assert(a =~= a0 + seq!['.'] + e);
        assert(a + b =~= a0 + seq!['.'] + b);
        lemma_segments_concat(a0, e);
        lemma_segments_concat(a0, b);
        assert(segments(a).drop_last() =~= segments(a0));
        assert(segments(a) + segments(b) =~= segments(a0) + seq![e] + segments(b));
        lemma_kept_insert_empty(segments(a0), segments(b));
    } else if a.len() == 0 {
        assert(a + b =~= b);
        assert(segments(a).drop_last() =~= Seq::<Seq<char>>::empty());
        assert(segments(a) + segments(b) =~= Seq::<Seq<char>>::empty() + seq![e] + segments(b));
        assert(Seq::<Seq<char>>::empty() + segments(b) =~= segments(b));
        lemma_kept_insert_empty(Seq::empty(), segments(b));
    } else if b.len() > 0 && b[0] == '.' {
        let b0 = b.drop_first();
        assert(b =~= e + seq!['.'] + b0);
        assert(a + b =~= a + seq!['.'] + b0);
        lemma_segments_concat(e, b0);
        lemma_segments_concat(a, b0);
        assert(segments(b) =~= seq![e] + segments(b0));
        assert(segments(a) + segments(b) =~= segments(a) + seq![e] + segments(b0));
        if segments(b0).len() > 0 {
            assert(segments(b)[1] == segments(b0)[0]);
        }
        lemma_kept_insert_empty(segments(a), segments(b0));
    } else {
        assert(b =~= e);
        assert(a + b =~= a);
        assert(segments(a) + segments(b) =~= segments(a) + seq![e] + Seq::<Seq<char>>::empty());
        assert(segments(a) + Seq::<Seq<char>>::empty() =~= segments(a));
        lemma_kept_insert_empty(segments(a), Seq::empty());
    }
}

/// A selector that is a single name looks that name up on the root.
pub proof fn law_single_name<T: NamedChildren>(t: T, n: Seq<char>)
    requires
        is_name(n),
    ensures
        dig_spec(t, n) == t.named_child(n),
{
    let e = Seq::<Seq<char>>::empty();
    lemma_segments_single(n);
    lemma_kept_push(e, n);
    assert(e.push(n) =~= seq![n]);
    assert(kept(e) == e) by {
        assert(drop_empty(e) == e);
    }
    lemma_walk_push(Some(t), e, n);
}

/// Appending `.` and a name to a selector is one more lookup step on what
/// the selector reached.
pub proof fn law_step<T: NamedChildren>(t: T, a: Seq<char>, b: Seq<char>)
    requires
        is_name(b),
    ensures
        dig_spec(t, a + seq!['.'] + b) == step(dig_spec(t, a), b),
{
    lemma_segments_concat(a, b);
    lemma_segments_single(b);
    assert(segments(a) + seq![b] =~= segments(a).push(b));
    lemma_kept_push(segments(a), b);
    lemma_walk_push(Some(t), kept(segments(a)), b);
}

/// If the walk along some first part of the kept names is lost, so is the
/// whole walk.
pub proof fn law_short_circuit<T: NamedChildren>(t: T, s: Seq<char>, k: int)
    requires
        0 <= k <= kept_segments(s).len(),
        walk(Some(t), kept_segments(s).take(k)) is None,
    ensures
        dig_spec(t, s) is None,
{
    let names = kept_segments(s);
    assert(names =~= names.take(k) + names.skip(k));
    lemma_walk_concat(Some(t), names.take(k), names.skip(k));
    lemma_walk_none::<T>(names.skip(k));
}

/// A selector that resolves to nothing still does so when more segments are
/// appended to it.
pub proof fn law_lost_stays_lost<T: NamedChildren>(t: T, s: Seq<char>, u: Seq<char>)
    requires
        dig_spec(t, s) is None,
    ensures
        dig_spec(t, s + seq!['.'] + u) is None,
{
    lemma_segments_concat(s, u);
    lemma_segments_nonempty(s);
    assert(!all_sigils(segments(s))) by {
        if all_sigils(segments(s)) {
            let x = segments(s);
            lemma_kept_push(x.drop_last(), x.last());
            assert(x.drop_last().push(x.last()) =~= x);
            assert(all_sigils(x.drop_last())) by {
                assert forall|i: int| 0 <= i < x.drop_last().len() implies x.drop_last()[i]
                    == sigil() by {
                    assert(x.drop_last()[i] == x[i]);
                }
            }
            assert(x.last() == x[x.len() - 1]);
        }
    }
    lemma_kept_concat(segments(s), segments(u));
    lemma_walk_concat(Some(t), kept(segments(s)), drop_empty(segments(u)));
    lemma_walk_none::<T>(drop_empty(segments(u)));
}

/// What a selector reaches depends on the tree and the selector alone.
pub proof fn law_deterministic<T: NamedChildren>(t1: T, t2: T, s1: Seq<char>, s2: Seq<char>)
    requires
        t1 == t2,
        s1 == s2,
    ensures
        dig_spec(t1, s1) == dig_spec(t2, s2),
{
}

} // verus!
