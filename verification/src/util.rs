use vstd::prelude::*;

verus! {

/// The `max_size` value that switches size limiting off entirely.
pub const NO_LIMIT: u64 = u64::MAX;

/// How many leading entries a size-limited read keeps, entry sizes given in
/// `sizes` and the total already counted in `size`: an entry is counted
/// while nothing has been counted yet (the first entry always comes back),
/// or while counting it keeps the running total within `max`.
pub open spec fn spec_take_within(sizes: Seq<u64>, max: u64, size: int) -> int
    decreases sizes.len(),
{
    if sizes.len() == 0 {
        0
    } else if size == 0 || size + sizes[0] <= max {
        1 + spec_take_within(sizes.drop_first(), max, size + sizes[0])
    } else {
        0
    }
}

/// How many of a batch of entries with encoded sizes `sizes` a size-limited
/// read returns: all of them when no limit is in force or at most one entry
/// exists, else the first entry plus as many more as fit within `max`.
pub open spec fn spec_limited_count(sizes: Seq<u64>, max: u64) -> int {
    if max == NO_LIMIT || sizes.len() <= 1 {
        sizes.len() as int
    } else {
        spec_take_within(sizes, max, 0)
    }
}

/// Computes how many leading entries of a batch to keep so that the batch's
/// total encoded size honours `max`: at least one entry always survives, and
/// `NO_LIMIT` (or a batch of at most one entry) keeps everything. Callers
/// truncate their batch to this count.
pub fn limited_count(sizes: &Vec<u64>, max: u64) -> (count: usize)
    ensures
        count == spec_limited_count(sizes@, max),
        count <= sizes@.len(),
{
    if max == NO_LIMIT || sizes.len() <= 1 {
        return sizes.len();
    }
    let mut k: usize = 0;
    let mut size: u64 = 0;
    proof {
        assert(sizes@.skip(0) =~= sizes@);
    }
    loop
        invariant
            k <= sizes@.len(),
            spec_take_within(sizes@, max, 0) == k + spec_take_within(
                sizes@.skip(k as int),
                max,
                size as int,
            ),
        ensures
            k <= sizes@.len(),
            spec_take_within(sizes@, max, 0) == k,
        decreases sizes@.len() - k,
    {
        if k >= sizes.len() {
            proof {
                assert(sizes@.skip(k as int) =~= Seq::<u64>::empty());
            }
            break ;
        }
        let s = sizes[k];
        proof {
            assert(sizes@.skip(k as int)[0] == sizes@[k as int]);
            assert(sizes@.skip(k as int).drop_first() =~= sizes@.skip(k as int + 1));
        }
        if size == 0 {
            size = s;
            k = k + 1;
        } else {
            match size.checked_add(s) {
                Some(ns) => {
                    if ns <= max {
                        size = ns;
                        k = k + 1;
                    } else {
                        break ;
                    }
                },
                None => {
                    break ;
                },
            }
        }
    }
    k
}

} // verus!
