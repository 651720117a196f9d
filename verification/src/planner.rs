use vstd::prelude::*;

verus! {

/// One contiguous span of byte offsets within the remote resource, inclusive
/// on both ends. The final range of a plan may declare an end bound equal to
/// the content length itself (one past the last valid byte index); servers
/// honouring range requests clamp such a bound to the resource's actual end.
#[derive(Clone, Copy, PartialEq, Eq, Structural, Debug)]
pub struct ByteRange {
    pub start: usize,
    pub end_inclusive: usize,
}

/// The ranges still to be planned from offset `start` onward: one range per
/// `chunk_size` stride until `length` is reached. Each range's inclusive end
/// is the smaller of `start + chunk_size - 1` and `length`.
pub open spec fn plan_from(start: int, length: int, chunk_size: int) -> Seq<ByteRange>
    recommends
        0 <= start,
        1 <= chunk_size,
        length <= usize::MAX,
    decreases (if start < length { length - start } else { 0 }),
{
    if 1 <= chunk_size && 0 <= start && start < length {
        seq![
            ByteRange {
                start: start as usize,
                end_inclusive: (if start + chunk_size - 1 < length {
                    start + chunk_size - 1
                } else {
                    length
                }) as usize,
            },
        ] + plan_from(start + chunk_size, length, chunk_size)
    } else {
        Seq::empty()
    }
}

/// The complete ordered plan for a download of `length` bytes in chunks of
/// `chunk_size` bytes: the ranges tile `[0, length)` in ascending order.
pub open spec fn plan_spec(length: int, chunk_size: int) -> Seq<ByteRange> {
    plan_from(0, length, chunk_size)
}

/// Partition `[0, length)` into the ordered sequence of byte ranges that the
/// downloader fetches: starts at `0, chunk_size, 2 * chunk_size, ...` strictly
/// below `length`, each end bound the smaller of `start + chunk_size - 1` and
/// `length`. No ranges when `length == 0`.
pub fn plan_chunks(length: usize, chunk_size: usize) -> (r: Vec<ByteRange>)
    requires
        1 <= chunk_size,
    ensures
        r@ == plan_spec(length as int, chunk_size as int),
{
    let mut r: Vec<ByteRange> = Vec::new();
    let mut start: usize = 0;
    while start < length
        invariant
            1 <= chunk_size,
            start <= length,
            plan_spec(length as int, chunk_size as int) =~= r@ + plan_from(
                start as int,
                length as int,
                chunk_size as int,
            ),
        decreases length - start,
    {
        let ghost prev = r@;
        let ghost s = start as int;
        let ghost l = length as int;
        let ghost c = chunk_size as int;
        let remaining = length - start;
        if chunk_size > remaining {
            let elem = ByteRange { start, end_inclusive: length };
            r.push(elem);
            proof {
                assert(plan_from(s, l, c) =~= seq![elem] + plan_from(s + c, l, c));
                assert(plan_from(s + c, l, c) =~= Seq::<ByteRange>::empty());
                assert(plan_from(s, l, c) =~= seq![elem]);
                assert(r@ =~= prev + plan_from(s, l, c));
                assert(plan_from(l, l, c) =~= Seq::<ByteRange>::empty());
            }
            start = length;
        } else {
            let elem = ByteRange { start, end_inclusive: start + chunk_size - 1 };
            r.push(elem);
            proof {
                assert(plan_from(s, l, c) =~= seq![elem] + plan_from(s + c, l, c));
                assert(r@ + plan_from(s + c, l, c) =~= prev + plan_from(s, l, c));
            }
            start = start + chunk_size;
        }
    }
    proof {
        assert(plan_from(start as int, length as int, chunk_size as int) =~= Seq::<
            ByteRange,
        >::empty());
    }
    r
}

/// The range a plan starting at `start` holds at position `j`: its start is
/// `start + j * chunk_size`, its end bound the smaller of the next start
/// minus one and `length`.
pub open spec fn range_at(start: int, length: int, chunk_size: int, j: int) -> ByteRange {
    ByteRange {
        start: (start + j * chunk_size) as usize,
        end_inclusive: (if start + j * chunk_size + chunk_size - 1 < length {
            start + j * chunk_size + chunk_size - 1
        } else {
            length
        }) as usize,
    }
}

/// Index characterization of `plan_from`: position `j` holds the range whose
/// start lies `j` strides past `start`, every planned start lies below
/// `length`, and the plan's strides reach `length`.
pub proof fn lemma_plan_from_index(start: int, length: int, chunk_size: int)
    requires
        0 <= start,
        1 <= chunk_size,
        length <= usize::MAX,
    ensures
        start >= length ==> plan_from(start, length, chunk_size).len() == 0,
        start < length ==> plan_from(start, length, chunk_size).len() >= 1,
        forall|j: int|
            0 <= j < plan_from(start, length, chunk_size).len() ==> #[trigger] plan_from(
                start,
                length,
                chunk_size,
            )[j] == range_at(start, length, chunk_size, j),
        forall|j: int|
            0 <= j < plan_from(start, length, chunk_size).len() ==> start + #[trigger] (j
                * chunk_size) < length,
        start < length ==> length <= start + plan_from(start, length, chunk_size).len()
            * chunk_size,
    decreases (if start < length { length - start } else { 0 }),
{
    let p = plan_from(start, length, chunk_size);
    if start >= length {
    } else {
        let pp = plan_from(start + chunk_size, length, chunk_size);
        lemma_plan_from_index(start + chunk_size, length, chunk_size);
        assert forall|j: int| 0 <= j < p.len() implies #[trigger] p[j] == range_at(
            start,
            length,
            chunk_size,
            j,
        ) by {
            if j == 0 {
                assert(0 * chunk_size == 0) by (nonlinear_arith);
            } else {
                assert(p[j] == pp[j - 1]);
                assert((start + chunk_size) + (j - 1) * chunk_size == start + j * chunk_size)
                    by (nonlinear_arith);
            }
        }
        assert forall|j: int| 0 <= j < p.len() implies start + #[trigger] (j * chunk_size)
            < length by {
            if j == 0 {
                assert(0 * chunk_size == 0) by (nonlinear_arith);
            } else {
                assert((start + chunk_size) + (j - 1) * chunk_size == start + j * chunk_size)
                    by (nonlinear_arith);
            }
        }
        if pp.len() == 0 {
            assert(1 * chunk_size == chunk_size) by (nonlinear_arith);
        } else {
            assert((start + chunk_size) + pp.len() * chunk_size == start + p.len() * chunk_size)
                by (nonlinear_arith)
                requires
                    p.len() == pp.len() + 1,
            ;
        }
    }
}

/// The planner's ranges are contiguous, ascending, start at zero, and the
/// final range's start is the largest multiple of `chunk_size` strictly below
/// `length`; no ranges at all when `length == 0`.
pub proof fn lemma_plan_properties(length: int, chunk_size: int)
    requires
        1 <= chunk_size,
        0 <= length <= usize::MAX,
    ensures
        ({
            let p = plan_spec(length, chunk_size);
            &&& (p.len() == 0 <==> length == 0)
            &&& (length > 0 ==> p[0].start == 0)
            &&& (forall|j: int|
                0 <= j < p.len() ==> (#[trigger] p[j].start as int) == j * chunk_size)
            &&& (forall|j: int| 0 <= j < p.len() ==> #[trigger] p[j].start < length)
            &&& (forall|j: int|
                0 <= j < p.len() ==> (#[trigger] p[j].start as int) <= p[j].end_inclusive as int)
            &&& (forall|j: int|
                0 <= j < p.len() - 1 ==> (#[trigger] p[j].end_inclusive as int) + 1 == p[j
                    + 1].start as int)
            &&& (forall|j: int|
                0 <= j < p.len() - 1 ==> (#[trigger] p[j].start) < p[j + 1].start)
            &&& (length > 0 ==> (p[p.len() - 1].start as int) % chunk_size == 0)
            &&& (length > 0 ==> length <= p[p.len() - 1].start + chunk_size)
        }),
{
    let p = plan_spec(length, chunk_size);
    lemma_plan_from_index(0, length, chunk_size);
    assert forall|j: int| 0 <= j < p.len() implies (#[trigger] p[j].start as int) == j
        * chunk_size by {
        assert(p[j] == range_at(0, length, chunk_size, j));
    }
    assert forall|j: int| 0 <= j < p.len() implies #[trigger] p[j].start < length by {
        assert(0 + j * chunk_size < length);
        assert(p[j] == range_at(0, length, chunk_size, j));
    }
    assert forall|j: int| 0 <= j < p.len() implies (#[trigger] p[j].start as int) <= p[
        j
    ].end_inclusive as int by {
        assert(p[j] == range_at(0, length, chunk_size, j));
        assert(0 + j * chunk_size < length);
    }
    assert forall|j: int| 0 <= j < p.len() - 1 implies (#[trigger] p[j].end_inclusive as int) + 1
        == p[j + 1].start as int by {
        assert(p[j] == range_at(0, length, chunk_size, j));
        assert(p[j + 1] == range_at(0, length, chunk_size, j + 1));
        assert(0 + (j + 1) * chunk_size < length);
        assert((j + 1) * chunk_size == j * chunk_size + chunk_size) by (nonlinear_arith);
    }
    assert forall|j: int| 0 <= j < p.len() - 1 implies (#[trigger] p[j].start) < p[j
        + 1].start by {
        assert(p[j] == range_at(0, length, chunk_size, j));
        assert(p[j + 1] == range_at(0, length, chunk_size, j + 1));
        assert(0 + (j + 1) * chunk_size < length);
        assert((j + 1) * chunk_size == j * chunk_size + chunk_size) by (nonlinear_arith);
    }
    if length > 0 {
        assert(p[0] == range_at(0, length, chunk_size, 0));
        assert(0 * chunk_size == 0) by (nonlinear_arith);
        let last = p.len() - 1;
        assert(p[last] == range_at(0, length, chunk_size, last));
        vstd::arithmetic::div_mod::lemma_mod_multiples_basic(last, chunk_size);
        assert(p.len() * chunk_size == last * chunk_size + chunk_size) by (nonlinear_arith)
            requires
                last == p.len() - 1,
        ;
    }
}

} // verus!
