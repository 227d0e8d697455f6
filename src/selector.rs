//! The selector grammar: a selector is split on `.` into segments, a
//! leading run of `$` segments is dropped, then every empty segment.

use vstd::prelude::*;

verus! {

/// The root sigil, as a segment.
pub open spec fn sigil() -> Seq<char> {
    seq!['$']
}

/// The segments of `s`: the pieces between its `.` characters, in order,
/// empty pieces included. A selector without `.` is one segment.
pub open spec fn segments(s: Seq<char>) -> Seq<Seq<char>>
    decreases s.len(),
{
    if s.len() == 0 {
        seq![Seq::empty()]
    } else {
        let init = segments(s.drop_last());
        if s.last() == '.' {
            init.push(Seq::empty())
        } else {
            init.update(init.len() - 1, init.last().push(s.last()))
        }
    }
}

/// Every segment of `segs` is the root sigil.
pub open spec fn all_sigils(segs: Seq<Seq<char>>) -> bool {
    forall|i: int| 0 <= i < segs.len() ==> segs[i] == sigil()
}

/// `segs` without its leading run of root sigils.
pub open spec fn skip_sigils(segs: Seq<Seq<char>>) -> Seq<Seq<char>>
    decreases segs.len(),
{
    if segs.len() > 0 && segs[0] == sigil() {
        skip_sigils(segs.drop_first())
    } else {
        segs
    }
}

/// `segs` without its empty segments, order kept.
pub open spec fn drop_empty(segs: Seq<Seq<char>>) -> Seq<Seq<char>>
    decreases segs.len(),
{
    if segs.len() == 0 {
        segs
    } else if segs.last().len() == 0 {
        drop_empty(segs.drop_last())
    } else {
        drop_empty(segs.drop_last()).push(segs.last())
    }
}

/// The names that a walk along segment list `segs` looks up, in order.
pub open spec fn kept(segs: Seq<Seq<char>>) -> Seq<Seq<char>> {
    drop_empty(skip_sigils(segs))
}

/// The names that a walk along selector `s` looks up, in order.
pub open spec fn kept_segments(s: Seq<char>) -> Seq<Seq<char>> {
    kept(segments(s))
}

/// A selector always has at least one segment.
pub proof fn lemma_segments_nonempty(s: Seq<char>)
    ensures
        segments(s).len() >= 1,
    decreases s.len(),
{
    if s.len() > 0 {
        lemma_segments_nonempty(s.drop_last());
    }
}

/// Extending a selector by one character: a `.` opens a new empty segment,
/// any other character extends the last segment.
pub proof fn lemma_segments_push(s: Seq<char>, c: char)
    ensures
        segments(s.push(c)) == (if c == '.' {
            segments(s).push(Seq::empty())
        } else {
            segments(s).update(segments(s).len() - 1, segments(s).last().push(c))
        }),
{
    assert(s.push(c).drop_last() =~= s);
}

/// Appending a segment to a list whose leading sigil run is known.
pub proof fn lemma_skip_sigils_push(segs: Seq<Seq<char>>, x: Seq<char>)
    ensures
        skip_sigils(segs.push(x)) == (if all_sigils(segs) {
            if x == sigil() {
                Seq::<Seq<char>>::empty()
            } else {
                seq![x]
            }
        } else {
            skip_sigils(segs).push(x)
        }),
        all_sigils(segs) ==> skip_sigils(segs) == Seq::<Seq<char>>::empty(),
    decreases segs.len(),
{
    let e = Seq::<Seq<char>>::empty();
    assert(skip_sigils(e) == e);
    if segs.len() == 0 {
        assert(segs.push(x) =~= seq![x]);
        assert(seq![x].drop_first() =~= e);
        assert(seq![x][0] == x);
    } else {
        assert(segs.push(x).drop_first() =~= segs.drop_first().push(x));
        assert(segs.push(x)[0] == segs[0]);
        lemma_skip_sigils_push(segs.drop_first(), x);
        if all_sigils(segs) {
            assert(segs[0] == sigil());
            assert(all_sigils(segs.drop_first())) by {
                assert forall|i: int| 0 <= i < segs.drop_first().len() implies segs.drop_first()[i]
                    == sigil() by {
                    assert(segs.drop_first()[i] == segs[i + 1]);
                }
            }
        } else if segs[0] == sigil() {
            assert(!all_sigils(segs.drop_first())) by {
                let j = choose|j: int| 0 <= j < segs.len() && segs[j] != sigil();
                assert(segs.drop_first()[j - 1] == segs[j]);
            }
        }
    }
}

/// The last segment of `s` is empty exactly when `s` is empty or ends in `.`.
pub proof fn lemma_segments_last(s: Seq<char>)
    ensures
        segments(s).len() >= 1,
        (segments(s).last().len() == 0) == (s.len() == 0 || s.last() == '.'),
{
    lemma_segments_nonempty(s);
    if s.len() > 0 {
        lemma_segments_nonempty(s.drop_last());
        assert(s.drop_last().push(s.last()) =~= s);
        lemma_segments_push(s.drop_last(), s.last());
    }
}

/// A selector without `.` is a single segment.
pub proof fn lemma_segments_single(s: Seq<char>)
    requires
        !s.contains('.'),
    ensures
        segments(s) == seq![s],
    decreases s.len(),
{
    if s.len() > 0 {
        let p = s.drop_last();
        assert(!p.contains('.')) by {
            if p.contains('.') {
                let j = choose|j: int| 0 <= j < p.len() && p[j] == '.';
                assert(s[j] == '.');
            }
        }
        lemma_segments_single(p);
        assert(s.last() != '.') by {
            assert(s[s.len() - 1] == s.last());
        }
        assert(p.push(s.last()) =~= s);
        assert(seq![p].update(0, p.push(s.last())) =~= seq![s]);
    } else {
        assert(s =~= Seq::<char>::empty());
    }
}

/// Joining two selectors with a `.` joins their segment lists.
pub proof fn lemma_segments_concat(a: Seq<char>, b: Seq<char>)
    ensures
        segments(a + seq!['.'] + b) == segments(a) + segments(b),
    decreases b.len(),
{
    lemma_segments_nonempty(b);
    if b.len() == 0 {
        assert(a + seq!['.'] + b =~= a.push('.'));
        lemma_segments_push(a, '.');
        assert(segments(a).push(Seq::empty()) =~= segments(a) + segments(b));
    } else {
        let p = b.drop_last();
        let c = b.last();
        lemma_segments_concat(a, p);
        lemma_segments_nonempty(p);
        assert(a + seq!['.'] + b =~= (a + seq!['.'] + p).push(c));
        assert(p.push(c) =~= b);
        lemma_segments_push(a + seq!['.'] + p, c);
        lemma_segments_push(p, c);
        let x = segments(a);
        let y = segments(p);
        if c == '.' {
            assert((x + y).push(Seq::empty()) =~= x + y.push(Seq::empty()));
        } else {
            assert((x + y).update((x + y).len() - 1, (x + y).last().push(c)) =~= x + y.update(
                y.len() - 1,
                y.last().push(c),
            ));
        }
    }
}

/// The leading sigil run of a concatenation.
pub proof fn lemma_skip_sigils_concat(x: Seq<Seq<char>>, z: Seq<Seq<char>>)
    ensures
        skip_sigils(x + z) == (if all_sigils(x) {
            skip_sigils(z)
        } else {
            skip_sigils(x) + z
        }),
    decreases x.len(),
{
    if x.len() == 0 {
        assert(x + z =~= z);
    } else {
        assert((x + z)[0] == x[0]);
        assert((x + z).drop_first() =~= x.drop_first() + z);
        lemma_skip_sigils_concat(x.drop_first(), z);
        if x[0] == sigil() {
            assert(all_sigils(x) == all_sigils(x.drop_first())) by {
                if all_sigils(x.drop_first()) {
                    assert forall|i: int| 0 <= i < x.len() implies x[i] == sigil() by {
                        if i > 0 {
                            assert(x[i] == x.drop_first()[i - 1]);
                        }
                    }
                }
                if all_sigils(x) {
                    assert forall|i: int| 0 <= i < x.drop_first().len() implies x.drop_first()[i]
                        == sigil() by {
                        assert(x.drop_first()[i] == x[i + 1]);
                    }
                }
            }
        } else {
            assert(!all_sigils(x));
        }
    }
}

/// Dropping empty segments distributes over concatenation.
pub proof fn lemma_drop_empty_concat(x: Seq<Seq<char>>, z: Seq<Seq<char>>)
    ensures
        drop_empty(x + z) == drop_empty(x) + drop_empty(z),
    decreases z.len(),
{
    if z.len() == 0 {
        assert(x + z =~= x);
        assert(drop_empty(x) + drop_empty(z) =~= drop_empty(x));
    } else {
        let p = z.drop_last();
        lemma_drop_empty_concat(x, p);
        assert((x + z).drop_last() =~= x + p);
        assert((x + z).last() == z.last());
        if z.last().len() != 0 {
            assert((drop_empty(x) + drop_empty(p)).push(z.last()) =~= drop_empty(x) + drop_empty(
                p,
            ).push(z.last()));
        }
    }
}

/// The kept names of a concatenation whose first part does not consist of
/// root sigils only.
pub proof fn lemma_kept_concat(x: Seq<Seq<char>>, z: Seq<Seq<char>>)
    requires
        !all_sigils(x),
    ensures
        kept(x + z) == kept(x) + drop_empty(z),
{
    lemma_skip_sigils_concat(x, z);
    lemma_drop_empty_concat(skip_sigils(x), z);
}

/// An empty segment between two parts of a segment list is dropped, unless
/// it cuts the leading run of root sigils short.
pub proof fn lemma_kept_insert_empty(x: Seq<Seq<char>>, y: Seq<Seq<char>>)
    requires
        !(all_sigils(x) && y.len() > 0 && y[0] == sigil()),
    ensures
        kept(x + seq![Seq::empty()] + y) == kept(x + y),
{
    let e = seq![Seq::<char>::empty()];
    assert(x + e + y =~= x + (e + y));
    lemma_skip_sigils_concat(x, e + y);
    lemma_skip_sigils_concat(x, y);
    assert((e + y)[0] == Seq::<char>::empty());
    assert(Seq::<char>::empty().len() != sigil().len());
    assert(skip_sigils(e + y) == e + y);
    lemma_drop_empty_concat(e, y);
    assert(e.drop_last() =~= Seq::<Seq<char>>::empty());
    assert(drop_empty(Seq::<Seq<char>>::empty()) =~= Seq::<Seq<char>>::empty());
    assert(drop_empty(e) =~= Seq::<Seq<char>>::empty());
    assert(drop_empty(e + y) =~= drop_empty(y));
    if all_sigils(x) {
        if y.len() > 0 {
            assert(y[0] != sigil());
        }
        assert(skip_sigils(y) == y);
    } else {
        lemma_drop_empty_concat(skip_sigils(x), e + y);
        lemma_drop_empty_concat(skip_sigils(x), y);
    }
}

/// How the kept names grow when one more segment is finished.
pub proof fn lemma_kept_push(segs: Seq<Seq<char>>, x: Seq<char>)
    ensures
        kept(segs.push(x)) == (if all_sigils(segs) && x == sigil() {
            Seq::<Seq<char>>::empty()
        } else if x.len() == 0 {
            kept(segs)
        } else {
            kept(segs).push(x)
        }),
        all_sigils(segs.push(x)) == (all_sigils(segs) && x == sigil()),
        all_sigils(segs) ==> kept(segs) == Seq::<Seq<char>>::empty(),
{
    lemma_skip_sigils_push(segs, x);
    let e = Seq::<Seq<char>>::empty();
    assert(drop_empty(e) == e);
    if all_sigils(segs) {
        if x != sigil() {
            assert(seq![x].drop_last() =~= e);
            if x.len() != 0 {
                assert(drop_empty(seq![x]) == drop_empty(e).push(x));
                assert(e.push(x) =~= seq![x]);
            }
        }
    } else {
        assert(skip_sigils(segs).push(x).drop_last() =~= skip_sigils(segs));
    }
    if all_sigils(segs.push(x)) {
        assert forall|i: int| 0 <= i < segs.len() implies segs[i] == sigil() by {
            assert(segs.push(x)[i] == segs[i]);
        }
        assert(segs.push(x)[segs.len() as int] == x);
    }
    if all_sigils(segs) && x == sigil() {
        assert forall|i: int| 0 <= i < segs.push(x).len() implies segs.push(x)[i] == sigil() by {
            if i < segs.len() {
                assert(segs.push(x)[i] == segs[i]);
            }
        }
    }
}

} // verus!
