//! The traversal capability: a tree type supplies the single-step lookup
//! by name, and the walk along a whole selector is derived from it.

use vstd::prelude::*;
use vstd::std_specs::iter::IteratorSpec;

use crate::selector::{
    all_sigils, kept, kept_segments, lemma_kept_push, lemma_segments_nonempty,
    lemma_segments_push, segments, sigil,
};

verus! {

/// What a lookup that hands out a borrow denotes: the node borrowed, if any.
pub open spec fn deref_opt<T>(o: Option<&T>) -> Option<T> {
    match o {
        Some(x) => Some(*x),
        None => None,
    }
}

/// The mathematical model of a tree type that can be dug through: which
/// child, if any, each node holds under each name.
pub trait NamedChildren: Sized {
    /// The child of `self` stored under `name`, if `self` holds named
    /// children and one of them has that name.
    spec fn named_child(&self, name: Seq<char>) -> Option<Self>;
}

/// Used to dig through recursive data structures to extract named values
/// with a selector string: names separated by the ASCII `.` character,
/// optionally prefixed with a `$` root segment.
pub trait Dig: NamedChildren {
    /// Retrieves the datum identified by the given name segment, or none.
    fn value_for_name(&self, name: &str) -> (r: Option<&Self>)
        ensures
            deref_opt(r) == self.named_child(name@),
    ;

    /// Fetches the data within `self` identified by `selector`.
    ///
    /// The selector is split on `.`; a leading run of `$` segments and every
    /// empty segment are dropped; the remaining names are looked up in turn,
    /// and the first one that does not resolve makes the result none.
    fn dig(&self, selector: &str) -> (r: Option<&Self>)
        ensures
            deref_opt(r) == dig_spec(*self, selector@),
    {
        let ghost s = selector@;
        let n: usize = selector.unicode_len();
        let mut chars = selector.chars();
        let mut cur: Option<&Self> = Some(self);
        // every segment finished so far is a root sigil
        let mut leading: bool = true;
        let mut start: usize = 0;
        let mut i: usize = 0;
        proof {
            broadcast use vstd::string::axiom_spec_iter;
        }
        while i < n
            invariant
                n == s.len(),
                selector@ == s,
                start <= i <= n,
                chars.obeys_prophetic_iter_laws(),
                chars.remaining() == s.skip(i as int),
                segments(s.take(i as int)).last() == s.subrange(start as int, i as int),
                leading == all_sigils(segments(s.take(i as int)).drop_last()),
                deref_opt(cur) == walk(Some(*self), kept(segments(s.take(i as int)).drop_last())),
            decreases n - i,
        {
            let c = chars.next();
            proof {
                broadcast use vstd::string::next_postcondition;

                lemma_segments_push(s.take(i as int), s[i as int]);
                lemma_segments_nonempty(s.take(i as int));
                assert(s.take(i as int).push(s[i as int]) =~= s.take(i + 1));
                assert(s.skip(i as int).drop_first() =~= s.skip(i + 1));
            }
            if c == Some('.') {
                let seg = selector.substring_char(start, i);
                let ghost done = segments(s.take(i as int)).drop_last();
                proof {
                    assert(segments(s.take(i + 1)).drop_last() =~= done.push(seg@));
                    lemma_kept_push(done, seg@);
                    lemma_walk_push(Some(*self), kept(done), seg@);
                }
                let (look_up, still_leading) = classify(leading, seg);
                if look_up {
                    cur = match cur {
                        Some(node) => node.value_for_name(seg),
                        None => None,
                    };
                }
                leading = still_leading;
                start = i + 1;
                proof {
                    assert(s.subrange(start as int, i + 1) =~= Seq::<char>::empty());
                }
            } else {
                proof {
                    assert(s.subrange(start as int, i + 1) =~= s.subrange(
                        start as int,
                        i as int,
                    ).push(s[i as int]));
                    assert(segments(s.take(i + 1)).drop_last() =~= segments(
                        s.take(i as int),
                    ).drop_last());
                }
            }
            i = i + 1;
        }
        let seg = selector.substring_char(start, n);
        let ghost done = segments(s.take(n as int)).drop_last();
        proof {
            assert(s.take(n as int) =~= s);
            lemma_segments_nonempty(s);
            assert(segments(s) =~= done.push(seg@));
            lemma_kept_push(done, seg@);
            lemma_walk_push(Some(*self), kept(done), seg@);
        }
        let (look_up, _) = classify(leading, seg);
        if look_up {
            match cur {
                Some(node) => node.value_for_name(seg),
                None => None,
            }
        } else {
            cur
        }
    }
}

/// One lookup step of a walk: a missing node stays missing.
pub open spec fn step<T: NamedChildren>(node: Option<T>, name: Seq<char>) -> Option<T> {
    match node {
        Some(n) => n.named_child(name),
        None => None,
    }
}

/// The node reached from `start` by looking up `names` in order.
pub open spec fn walk<T: NamedChildren>(start: Option<T>, names: Seq<Seq<char>>) -> Option<T>
    decreases names.len(),
{
    if names.len() == 0 {
        start
    } else {
        step(walk(start, names.drop_last()), names.last())
    }
}

/// The node that selector `s` identifies within `t`, if any.
pub open spec fn dig_spec<T: NamedChildren>(t: T, s: Seq<char>) -> Option<T> {
    walk(Some(t), kept_segments(s))
}

/// Decides what a finished segment does to a walk: whether it is looked
/// up, and whether the leading run of root sigils goes on past it. A sigil
/// that continues the leading run is skipped, and so is an empty segment.
fn classify(leading: bool, seg: &str) -> (r: (bool, bool))
    ensures
        r.1 == (leading && seg@ == sigil()),
        r.0 == (!r.1 && seg@.len() != 0),
{
    let len = seg.unicode_len();
    let is_sigil = len == 1 && seg.get_char(0) == '$';
    proof {
        if is_sigil {
            assert(seg@ =~= sigil());
        }
    }
    let still_leading = leading && is_sigil;
    (!still_leading && len != 0, still_leading)
}

/// Looking up one more name is one more step.
pub proof fn lemma_walk_push<T: NamedChildren>(start: Option<T>, names: Seq<Seq<char>>, x: Seq<char>)
    ensures
        walk(start, names.push(x)) == step(walk(start, names), x),
{
    assert(names.push(x).drop_last() =~= names);
}

/// A walk that has lost its way stays lost.
pub proof fn lemma_walk_none<T: NamedChildren>(names: Seq<Seq<char>>)
    ensures
        walk(None::<T>, names) is None,
    decreases names.len(),
{
    if names.len() > 0 {
        lemma_walk_none::<T>(names.drop_last());
    }
}

/// Walking along two lists of names is walking along the first, then the
/// second.
pub proof fn lemma_walk_concat<T: NamedChildren>(
    start: Option<T>,
    x: Seq<Seq<char>>,
    y: Seq<Seq<char>>,
)
    ensures
        walk(start, x + y) == walk(walk(start, x), y),
    decreases y.len(),
{
    if y.len() == 0 {
        assert(x + y =~= x);
    } else {
        lemma_walk_concat(start, x, y.drop_last());
        assert((x + y).drop_last() =~= x + y.drop_last());
        assert((x + y).last() == y.last());
    }
}

} // verus!
