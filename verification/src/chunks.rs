//! Cutting a sequence into consecutive pieces of bounded size.
//!
//! Large outgoing messages are written in pieces of at most 64 KiB, and a
//! broadcast reaches its recipients in batches of at most one hundred; both
//! use the ranges computed here.
use vstd::prelude::*;

verus! {

/// The pieces of `pieces`, one after another.
pub open spec fn concat<A>(pieces: Seq<Seq<A>>) -> Seq<A>
    decreases pieces.len(),
{
    if pieces.len() == 0 {
        Seq::empty()
    } else {
        pieces[0] + concat(pieces.drop_first())
    }
}

pub proof fn lemma_concat_push<A>(p: Seq<Seq<A>>, x: Seq<A>)
    ensures
        concat(p.push(x)) == concat(p) + x,
    decreases p.len(),
{
    if p.len() == 0 {
        assert(p.push(x).drop_first() =~= Seq::<Seq<A>>::empty());
        assert(concat(p.push(x).drop_first()) == Seq::<A>::empty());
        assert(p.push(x)[0] == x);
        assert(concat(p.push(x)) =~= x);
        assert(concat(p) + x =~= x);
    } else {
        assert(p.push(x).drop_first() =~= p.drop_first().push(x));
        lemma_concat_push(p.drop_first(), x);
        assert(concat(p.push(x)) =~= concat(p) + x);
    }
}

pub proof fn lemma_concat_append<A>(p: Seq<Seq<A>>, q: Seq<Seq<A>>)
    ensures
        concat(p + q) == concat(p) + concat(q),
    decreases p.len(),
{
    if p.len() == 0 {
        assert(p + q =~= q);
        assert(concat(p) + concat(q) =~= concat(q));
    } else {
        assert((p + q).drop_first() =~= p.drop_first() + q);
        lemma_concat_append(p.drop_first(), q);
        assert(concat(p + q) =~= concat(p) + concat(q));
    }
}

/// The ranges `[start, end)` that cut `start..len` into consecutive pieces
/// of `size` elements, the last one possibly shorter.
pub open spec fn chunk_ranges(start: nat, len: nat, size: nat) -> Seq<(nat, nat)>
    decreases len - start,
{
    if size == 0 || start >= len {
        Seq::empty()
    } else {
        let end: nat = if start + size < len {
            start + size
        } else {
            len
        };
        seq![(start, end)] + chunk_ranges(end, len, size)
    }
}

/// The pieces of `s` that `ranges` select.
pub open spec fn slices<A>(s: Seq<A>, ranges: Seq<(nat, nat)>) -> Seq<Seq<A>> {
    ranges.map_values(|r: (nat, nat)| s.subrange(r.0 as int, r.1 as int))
}

/// The ranges of `chunk_ranges` are non-empty, at most `size` long, lie in
/// `start..len`, and follow one another without gap or overlap.
pub proof fn lemma_chunk_ranges_shape(start: nat, len: nat, size: nat)
    requires
        size > 0,
        start <= len,
    ensures
        forall|i: int|
            0 <= i < chunk_ranges(start, len, size).len() ==> {
                let r = #[trigger] chunk_ranges(start, len, size)[i];
                &&& start <= r.0 < r.1 <= len
                &&& r.1 - r.0 <= size
                &&& i == 0 ==> r.0 == start
                &&& i + 1 < chunk_ranges(start, len, size).len() ==> chunk_ranges(start, len, size)[i
                    + 1].0 == r.1
                &&& i + 1 == chunk_ranges(start, len, size).len() ==> r.1 == len
            },
        (chunk_ranges(start, len, size).len() == 0) == (start == len),
    decreases len - start,
{
    if start < len {
        let end: nat = if start + size < len {
            start + size
        } else {
            len
        };
        lemma_chunk_ranges_shape(end, len, size);
        let rest = chunk_ranges(end, len, size);
        let all = chunk_ranges(start, len, size);
        assert(all == seq![(start, end)] + rest);
        assert forall|i: int| 0 <= i < all.len() implies {
            let r = #[trigger] all[i];
            &&& start <= r.0 < r.1 <= len
            &&& r.1 - r.0 <= size
            &&& i == 0 ==> r.0 == start
            &&& i + 1 < all.len() ==> all[i + 1].0 == r.1
            &&& i + 1 == all.len() ==> r.1 == len
        } by {
            if i > 0 {
                assert(all[i] == rest[i - 1]);
                if i + 1 < all.len() {
                    assert(all[i + 1] == rest[i]);
                }
            } else {
                if i + 1 < all.len() {
                    assert(all[i + 1] == rest[0]);
                }
            }
        }
    }
}

/// The pieces that `chunk_ranges` selects, put back together, give the
/// sequence from `start` on: nothing is lost, repeated or reordered.
pub proof fn lemma_chunks_cover<A>(s: Seq<A>, start: nat, size: nat)
    requires
        size > 0,
        start <= s.len(),
    ensures
        concat(slices(s, chunk_ranges(start, s.len(), size))) == s.subrange(start as int, s.len() as int),
    decreases s.len() - start,
{
    let len = s.len();
    if start >= len {
        assert(s.subrange(start as int, len as int) =~= Seq::<A>::empty());
    } else {
        let end: nat = if start + size < len {
            start + size
        } else {
            len
        };
        lemma_chunks_cover(s, end, size);
        let rest = chunk_ranges(end, len, size);
        assert(slices(s, chunk_ranges(start, len, size)).drop_first() =~= slices(s, rest));
        assert(s.subrange(start as int, len as int) =~= s.subrange(start as int, end as int)
            + s.subrange(end as int, len as int));
    }
}

/// The view of computed ranges.
pub open spec fn ranges_view(r: Seq<(usize, usize)>) -> Seq<(nat, nat)> {
    r.map_values(|p: (usize, usize)| (p.0 as nat, p.1 as nat))
}

/// The ranges `[start, end)` that cut `0..len` into consecutive pieces of
/// `size` elements, the last one possibly shorter.
pub fn chunk_bounds(len: usize, size: usize) -> (r: Vec<(usize, usize)>)
    requires
        size > 0,
    ensures
        ranges_view(r@) == chunk_ranges(0, len as nat, size as nat),
{
    let mut r: Vec<(usize, usize)> = Vec::new();
    let mut start: usize = 0;
    while start < len
        invariant
            size > 0,
            start <= len,
            ranges_view(r@) + chunk_ranges(start as nat, len as nat, size as nat) == chunk_ranges(
                0,
                len as nat,
                size as nat,
            ),
        decreases len - start,
    {
        let end: usize = if size < len - start {
            start + size
        } else {
            len
        };
        let ghost old_r = r@;
        r.push((start, end));
        assert(ranges_view(r@) =~= ranges_view(old_r).push((start as nat, end as nat)));
        assert(chunk_ranges(start as nat, len as nat, size as nat) == seq![
            (start as nat, end as nat),
        ] + chunk_ranges(end as nat, len as nat, size as nat));
        assert(ranges_view(r@) + chunk_ranges(end as nat, len as nat, size as nat) =~= ranges_view(
            old_r,
        ) + chunk_ranges(start as nat, len as nat, size as nat));
        start = end;
    }
    assert(ranges_view(r@) + chunk_ranges(start as nat, len as nat, size as nat) =~= ranges_view(
        r@,
    ));
    r
}

} // verus!
