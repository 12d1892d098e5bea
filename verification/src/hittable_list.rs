use vstd::prelude::*;

verus! {

/// The moment at which a ray strikes a shape, as a number that orders the
/// moments as time does: the earlier the strike, the smaller the number.
pub type Moment = u64;

/// Half the range of `u64`: the bit that holds the sign of a floating-point
/// number with 64 bits.
pub const SIGN_BIT: u64 = 0x8000_0000_0000_0000;

/// The number that the bits of a floating-point number stand for when they
/// are read as a sign and a magnitude: the lower 63 bits as a natural number,
/// taken as negative where the highest bit is set. Floating-point numbers
/// other than NaN are ordered as these numbers are, and both zeros stand for
/// zero.
pub open spec fn signed_magnitude(bits: u64) -> int {
    if bits < SIGN_BIT {
        bits as int
    } else {
        -(bits - SIGN_BIT)
    }
}

/// The moment of the time whose bits are `bits`: the number that the bits
/// stand for, moved up by half the range so that no moment is negative.
pub open spec fn moment_of(bits: u64) -> Moment {
    (SIGN_BIT + signed_magnitude(bits)) as u64
}

/// Computes the moment of the time whose bits are `bits`.
pub fn moment(bits: u64) -> (moment: Moment)
    ensures
        moment == moment_of(bits),
{
    if bits < SIGN_BIT {
        SIGN_BIT + bits
    } else {
        SIGN_BIT - (bits - SIGN_BIT)
    }
}

/// The moments of two times are ordered as the times are, and times that
/// are equal as numbers have the same moment.
pub proof fn lemma_moment_keeps_order(first: u64, second: u64)
    ensures
        moment_of(first) < moment_of(second) <==> signed_magnitude(first) < signed_magnitude(
            second,
        ),
        moment_of(first) == moment_of(second) <==> signed_magnitude(first) == signed_magnitude(
            second,
        ),
{
}

/// Whether shape `i` is the one that the ray strikes first, where `hits`
/// holds for each shape, in the order of the list, the moment at which the
/// ray strikes it, if it does. Of shapes struck at the same moment the one
/// that stands first in the list counts.
pub open spec fn is_nearest(hits: Seq<Option<Moment>>, i: int) -> bool {
    &&& 0 <= i < hits.len()
    &&& hits[i] is Some
    &&& forall|j: int|
        0 <= j < hits.len() && (#[trigger] hits[j]) is Some ==> hits[i].unwrap()
            <= hits[j].unwrap()
    &&& forall|j: int|
        0 <= j < i && (#[trigger] hits[j]) is Some ==> hits[i].unwrap() < hits[j].unwrap()
}

/// Finds the shape that the ray strikes first, by one pass over the list.
/// There is none exactly where the ray strikes no shape at all.
pub fn nearest_hit(hits: &Vec<Option<Moment>>) -> (nearest: Option<usize>)
    ensures
        match nearest {
            Some(i) => is_nearest(hits@, i as int),
            None => forall|j: int| 0 <= j < hits.len() ==> (#[trigger] hits[j]) is None,
        },
{
    let mut nearest: Option<usize> = None;
    let mut k: usize = 0;
    while k < hits.len()
        invariant
            k <= hits.len(),
            match nearest {
                Some(i) => i < k && is_nearest(hits@.take(k as int), i as int),
                None => forall|j: int| 0 <= j < k ==> (#[trigger] hits[j]) is None,
            },
        decreases hits.len() - k,
    {
        let ghost before = hits@.take(k as int);
        let ghost after = hits@.take(k + 1);
        proof {
            assert forall|j: int| 0 <= j < k implies before[j] == after[j] by {}
        }
        match hits[k] {
            None => {},
            Some(moment) => {
                let closer = match nearest {
                    None => true,
                    Some(i) => {
                        match hits[i] {
                            Some(best) => moment < best,
                            None => false,
                        }
                    },
                };
                if closer {
                    nearest = Some(k);
                }
            },
        }
        proof {
            match nearest {
                Some(i) => {
                    assert forall|j: int|
                        0 <= j < after.len() && (#[trigger] after[j]) is Some implies after[i as int].unwrap()
                        <= after[j].unwrap() by {
                        if j < k {
                            assert(before[j] is Some);
                        }
                    }
                    assert forall|j: int|
                        0 <= j < i && (#[trigger] after[j]) is Some implies after[i as int].unwrap()
                        < after[j].unwrap() by {
                        assert(before[j] is Some);
                    }
                },
                None => {},
            }
        }
        k += 1;
    }
    proof {
        assert(hits@.take(k as int) == hits@);
    }
    nearest
}

/// One shape at most is the one that the ray strikes first.
pub proof fn lemma_nearest_is_unique(hits: Seq<Option<Moment>>, i: int, j: int)
    requires
        is_nearest(hits, i),
        is_nearest(hits, j),
    ensures
        i == j,
{
    if i < j {
        assert(hits[i] is Some);
    } else if j < i {
        assert(hits[j] is Some);
    }
}

/// Of two shapes that the ray strikes, the nearest is the one that it
/// strikes at the smaller moment, whichever stands first in the list.
pub proof fn lemma_nearest_of_two(first: Moment, second: Moment)
    ensures
        first <= second ==> is_nearest(seq![Some(first), Some(second)], 0),
        second < first ==> is_nearest(seq![Some(first), Some(second)], 1),
        is_nearest(seq![Some(first), None], 0),
        is_nearest(seq![None, Some(second)], 1),
{
}

} // verus!
