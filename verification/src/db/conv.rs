//! Conversions between the database's column types and the store's types.

use vstd::prelude::*;

use crate::block_number::BlockNumber;
use crate::errors::DatabaseError;

verus! {

/// The block number that a stored integer stands for.
pub open spec fn block_number_of_raw(raw: i64) -> Result<BlockNumber, DatabaseError> {
    if 0 <= raw <= u32::MAX {
        Ok(BlockNumber(raw as u32))
    } else {
        Err(DatabaseError::ConversionSqlToRust(raw))
    }
}

/// Converts a stored integer to a block number.
pub fn block_number_from_raw_sql(raw: i64) -> (r: Result<BlockNumber, DatabaseError>)
    ensures
        r == block_number_of_raw(raw),
{
    if 0 <= raw && raw <= u32::MAX as i64 {
        Ok(BlockNumber(raw as u32))
    } else {
        Err(DatabaseError::ConversionSqlToRust(raw))
    }
}

/// Converts a block number to the integer that is stored for it.
pub fn block_number_to_raw_sql(block_num: BlockNumber) -> (r: i64)
    ensures
        r == block_num@,
{
    block_num.0 as i64
}

/// Converts a nonce to the integer with the same bits, which is stored for it.
pub fn nonce_to_raw_sql(nonce: u64) -> (r: i64)
    ensures
        r == nonce as i64,
{
    #[verifier::truncate]
    (nonce as i64)
}

/// Converts a stored integer to the nonce with the same bits.
pub fn raw_sql_to_nonce(raw: i64) -> (r: u64)
    ensures
        r == raw as u64,
{
    #[verifier::truncate]
    (raw as u64)
}

/// A block number or nonce that was stored can be read back.
pub proof fn lemma_raw_sql_round_trip(block_num: BlockNumber, nonce: u64)
    ensures
        block_number_of_raw(block_num.0 as i64) == Ok::<BlockNumber, DatabaseError>(block_num),
        (nonce as i64) as u64 == nonce,
{
    assert((nonce as i64) as u64 == nonce) by (bit_vector);
}

/// The values of results in order, or the first error.
pub open spec fn collect_results<T, E>(results: Seq<Result<T, E>>) -> Result<Seq<T>, E>
    decreases results.len(),
{
    if results.len() == 0 {
        Ok(Seq::empty())
    } else {
        match collect_results(results.drop_last()) {
            Err(error) => Err(error),
            Ok(values) => match results.last() {
                Err(error) => Err(error),
                Ok(value) => Ok(values.push(value)),
            },
        }
    }
}

/// An error among the first results is the error of them all.
pub proof fn lemma_collect_prefix_error<T, E>(results: Seq<Result<T, E>>, count: int)
    requires
        0 <= count <= results.len(),
        collect_results(results.take(count)) is Err,
    ensures
        collect_results(results) == collect_results(results.take(count)),
    decreases results.len() - count,
{
    if count < results.len() {
        let next = results.take(count + 1);
        assert(next.drop_last() =~= results.take(count));
        lemma_collect_prefix_error(results, count + 1);
    } else {
        assert(results.take(count) =~= results);
    }
}

/// Collecting one more result extends the values by it.
pub proof fn lemma_collect_step<T, E>(results: Seq<Result<T, E>>, count: int)
    requires
        0 <= count < results.len(),
    ensures
        collect_results(results.take(count + 1)) == (match collect_results(results.take(count)) {
            Err(error) => Err::<Seq<T>, E>(error),
            Ok(values) => match results[count] {
                Err(error) => Err(error),
                Ok(value) => Ok(values.push(value)),
            },
        }),
{
    let next = results.take(count + 1);
    assert(next.drop_last() =~= results.take(count));
    assert(next.last() == results[count]);
}

/// Collected values are the values of the results.
pub proof fn lemma_collect_values<T, E>(results: Seq<Result<T, E>>)
    ensures
        collect_results(results) matches Ok(values) ==> values.len() == results.len() && forall|
            i: int,
        |
            0 <= i < values.len() ==> results[i] == Ok::<T, E>(#[trigger] values[i]),
    decreases results.len(),
{
    if results.len() > 0 {
        lemma_collect_values(results.drop_last());
    }
}

/// Results are collected unless one of them is an error. The error is that of the first one.
pub proof fn lemma_collect_first_error<T, E>(results: Seq<Result<T, E>>)
    ensures
        collect_results(results) is Ok <==> forall|i: int|
            0 <= i < results.len() ==> (#[trigger] results[i]) is Ok,
        collect_results(results) matches Err(error) ==> exists|i: int|
            0 <= i < results.len() && #[trigger] results[i] == Err::<T, E>(error) && forall|k: int|
                0 <= k < i ==> (#[trigger] results[k]) is Ok,
    decreases results.len(),
{
    if results.len() > 0 {
        let before = results.drop_last();
        lemma_collect_first_error(before);
        let last = results.len() - 1;
        match collect_results(before) {
            Err(error) => {
                let i = choose|i: int|
                    0 <= i < before.len() && #[trigger] before[i] == Err::<T, E>(error) && forall|
                        k: int,
                    |
                        0 <= k < i ==> (#[trigger] before[k]) is Ok;
                assert(results[i] == Err::<T, E>(error));
                assert forall|k: int| 0 <= k < i implies (#[trigger] results[k]) is Ok by {
                    assert(before[k] is Ok);
                }
            },
            Ok(_) => {
                assert forall|k: int| 0 <= k < last implies (#[trigger] results[k]) is Ok by {
                    assert(before[k] is Ok);
                }
                assert(results[last] == results.last());
            },
        }
    }
}

} // verus!
