//! Sums of `u64` sequences, and the split of a sequence into chunks that
//! can be summed apart.
use vstd::prelude::*;

verus! {

/// The sum of the elements of `s`.
pub open spec fn seq_sum(s: Seq<u64>) -> int
    decreases s.len(),
{
    if s.len() == 0 {
        0
    } else {
        seq_sum(s.drop_last()) + s.last()
    }
}

/// A prefix of `s` sums to no more than `s`.
pub proof fn lemma_prefix_sum_bounded(s: Seq<u64>, i: int)
    requires
        0 <= i <= s.len(),
    ensures
        seq_sum(s.subrange(0, i)) <= seq_sum(s),
    decreases s.len(),
{
    if i < s.len() {
        assert(s.drop_last() =~= s.subrange(0, s.len() - 1));
        assert(s.subrange(0, i) =~= s.drop_last().subrange(0, i));
        lemma_prefix_sum_bounded(s.drop_last(), i);
    } else {
        assert(s.subrange(0, i) =~= s);
    }
}

/// The sum of `chunk`, which must fit in a `u64`.
pub fn sum_of(chunk: Vec<u64>) -> (r: u64)
    requires
        seq_sum(chunk@) <= u64::MAX,
    ensures
        r == seq_sum(chunk@),
{
    let mut sum: u64 = 0;
    let n = chunk.len();
    let mut i: usize = 0;
    while i < n
        invariant
            n == chunk@.len(),
            i <= n,
            seq_sum(chunk@) <= u64::MAX,
            sum == seq_sum(chunk@.subrange(0, i as int)),
        decreases n - i,
    {
        proof {
            let next = chunk@.subrange(0, i + 1);
            assert(next.drop_last() =~= chunk@.subrange(0, i as int));
            lemma_prefix_sum_bounded(chunk@, i + 1);
        }
        sum = sum + chunk[i];
        i = i + 1;
    }
    assert(chunk@.subrange(0, n as int) =~= chunk@);
    sum
}

/// The sum of `chunk`, or nothing where it does not fit in a `u64`.
pub fn checked_sum_of(chunk: &Vec<u64>) -> (r: Option<u64>)
    ensures
        seq_sum(chunk@) <= u64::MAX ==> r == Some(seq_sum(chunk@) as u64),
        seq_sum(chunk@) > u64::MAX ==> r is None,
{
    let mut sum: u64 = 0;
    let n = chunk.len();
    let mut i: usize = 0;
    while i < n
        invariant
            n == chunk@.len(),
            i <= n,
            sum == seq_sum(chunk@.subrange(0, i as int)),
        decreases n - i,
    {
        proof {
            let next = chunk@.subrange(0, i + 1);
            assert(next.drop_last() =~= chunk@.subrange(0, i as int));
            lemma_prefix_sum_bounded(chunk@, i + 1);
        }
        match sum.checked_add(chunk[i]) {
            Some(total) => sum = total,
            None => return None,
        }
        i = i + 1;
    }
    assert(chunk@.subrange(0, n as int) =~= chunk@);
    Some(sum)
}

/// The sum of `chunk`, taken in one pass on the calling thread.
pub fn sequential_sum_of(chunk: Vec<u64>) -> (r: u64)
    requires
        seq_sum(chunk@) <= u64::MAX,
    ensures
        r == seq_sum(chunk@),
{
    sum_of(chunk)
}

/// The end of chunk `i` when `len` items are cut into chunks of `size`.
pub open spec fn chunk_end(i: int, size: int, len: int) -> int {
    if (i + 1) * size <= len {
        (i + 1) * size
    } else {
        len
    }
}

/// `input` cut into consecutive chunks of `chunk_size`; the last chunk is
/// shorter where the length is not a multiple.
pub fn divide(input: &Vec<u64>, chunk_size: usize) -> (r: Vec<Vec<u64>>)
    requires
        chunk_size > 0,
    ensures
        r@.len() == (input@.len() + chunk_size - 1) / (chunk_size as int),
        forall|i: int| 0 <= i < r@.len() ==> (#[trigger] r@[i])@ == input@.subrange(
            i * chunk_size,
            chunk_end(i, chunk_size as int, input@.len() as int),
        ),
{
    let n = input.len();
    let ghost cs = chunk_size as int;
    let mut chunks: Vec<Vec<u64>> = Vec::new();
    let mut start: usize = 0;
    assert(0 * cs == 0) by (nonlinear_arith);
    while start < n
        invariant
            n == input@.len(),
            cs == chunk_size as int,
            cs > 0,
            start <= n,
            start < n ==> start == chunks@.len() * cs,
            chunks@.len() == 0 ==> start == 0,
            chunks@.len() > 0 ==> (chunks@.len() - 1) * cs < start <= chunks@.len() * cs,
            forall|i: int| 0 <= i < chunks@.len() ==> (#[trigger] chunks@[i])@ == input@.subrange(
                i * cs,
                chunk_end(i, cs, n as int),
            ),
        decreases n - start,
    {
        let ghost c = chunks@.len() as int;
        assert(start == c * cs);
        proof {
            assert((c + 1) * cs == c * cs + cs) by (nonlinear_arith);
        }
        let end = if n - start <= chunk_size {
            n
        } else {
            start + chunk_size
        };
        assert(end == chunk_end(c, cs, n as int));
        let mut chunk: Vec<u64> = Vec::new();
        let mut j: usize = start;
        while j < end
            invariant
                start <= j <= end,
                end <= n,
                n == input@.len(),
                chunk@ == input@.subrange(start as int, j as int),
            decreases end - j,
        {
            chunk.push(input[j]);
            j = j + 1;
            assert(chunk@ =~= input@.subrange(start as int, j as int));
        }
        chunks.push(chunk);
        start = end;
        proof {
            assert forall|i: int| 0 <= i < chunks@.len() implies (#[trigger] chunks@[i])@
                == input@.subrange(i * cs, chunk_end(i, cs, n as int)) by {
                if i == c {
                    assert(chunks@[i]@ == input@.subrange(c * cs, end as int));
                }
            }
        }
    }
    proof {
        let k = chunks@.len() as int;
        assert((n + cs - 1) / cs == k) by (nonlinear_arith)
            requires
                cs > 0,
                (k == 0 && n == 0) || (k > 0 && (k - 1) * cs < n && n <= k * cs),
        ;
    }
    chunks
}

} // verus!
