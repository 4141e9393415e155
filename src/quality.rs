//! Phred quality scores of a record's quality string.
use vstd::prelude::*;

verus! {

/// The offset of the Phred+33 encoding.
pub const PHRED_OFFSET: u8 = 33;

/// Average quality strictly below this value marks a read as poor.
pub const QUALITY_THRESHOLD: i128 = 20;

/// The Phred value that one encoded byte stands for.
pub open spec fn phred_value(b: u8) -> int {
    b as int - PHRED_OFFSET as int
}

/// The sum of the Phred values of a quality string.
pub open spec fn phred_total(q: Seq<u8>) -> int
    decreases q.len(),
{
    if q.len() == 0 {
        0
    } else {
        phred_total(q.drop_last()) + phred_value(q.last())
    }
}

/// A quality string's average lies below the threshold, compared exactly:
/// `total / n < 20` is `total < 20 * n` for `n > 0`.
pub open spec fn is_poor(q: Seq<u8>) -> bool {
    phred_total(q) < QUALITY_THRESHOLD * q.len()
}

proof fn lemma_total_bounds(q: Seq<u8>)
    ensures
        -33 * q.len() <= phred_total(q) <= 222 * q.len(),
    decreases q.len(),
{
    if q.len() > 0 {
        lemma_total_bounds(q.drop_last());
    }
}

/// Sum of the decoded Phred values of `qual`; the average of a read is this
/// sum divided by `qual.len()`.
pub fn phred_sum(qual: &[u8]) -> (r: i128)
    ensures
        r == phred_total(qual@),
{
    let mut total: i128 = 0;
    let mut i: usize = 0;
    while i < qual.len()
        invariant
            i <= qual@.len(),
            total == phred_total(qual@.take(i as int)),
        decreases qual@.len() - i,
    {
        proof {
            lemma_total_bounds(qual@.take(i as int));
            assert(qual@.take(i as int + 1).drop_last() =~= qual@.take(i as int));
        }
        total = total + (qual[i] as i128 - PHRED_OFFSET as i128);
        i = i + 1;
    }
    assert(qual@.take(i as int) =~= qual@);
    total
}

/// Whether a read with quality string `qual` is rendered as poor: its
/// average Phred value is strictly below 20.
pub fn is_low_quality(qual: &[u8]) -> (r: bool)
    requires
        qual@.len() > 0,
    ensures
        r == is_poor(qual@),
{
    let total = phred_sum(qual);
    total < QUALITY_THRESHOLD * (qual.len() as i128)
}

} // verus!
