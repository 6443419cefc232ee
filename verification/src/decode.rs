//! The decoder: from a byte buffer to a transaction or the reason why the
//! buffer holds none.

use vstd::prelude::*;
use vstd::slice::slice_to_vec;
use vstd::std_specs::convert::TryFromSpecImpl;

use crate::compact_size::{read_compact_size, spec_read_compact_size};
use crate::cursor::Cursor;
use crate::error::BitcoinError;
use crate::le::{i32_from_le, u32_from_le, u64_from_le};
use crate::transaction::{
    input_views, output_views, LegacyTransaction, OutPoint, TransactionView, TxInput, TxOutput,
};
use crate::wire::{
    lemma_read_input_len, lemma_read_inputs_fails_on, lemma_read_inputs_len,
    lemma_read_output_len, lemma_read_outputs_fails_on, lemma_read_outputs_len, spec_decode,
    spec_read_input, spec_read_inputs, spec_read_output, spec_read_outputs, MIN_TRANSACTION_LEN,
};

verus! {

/// Reads a script of `length` bytes at the cursor.
///
/// On success the cursor has moved past the script. When fewer than `length`
/// bytes are left, the read fails and the cursor stays where it was.
pub fn read_scriptsig(length: u64, cursor: &mut Cursor) -> (result: Result<Vec<u8>, BitcoinError>)
    ensures
        final(cursor).data() == old(cursor).data(),
        match result {
            Ok(script) => {
                &&& length <= old(cursor).remaining().len()
                &&& script@ == old(cursor).remaining().take(length as int)
                &&& final(cursor).consumed() == old(cursor).consumed() + length
                &&& final(cursor).remaining() == old(cursor).remaining().skip(length as int)
            },
            Err(error) => {
                &&& length > old(cursor).remaining().len()
                &&& error == BitcoinError::InvalidScript
                &&& final(cursor).consumed() == old(cursor).consumed()
            },
        },
{
    let left: usize = cursor.remaining_len();
    if length > left as u64 {
        return Err(BitcoinError::InvalidScript);
    }
    let bytes = cursor.take(length as usize)?;
    Ok(slice_to_vec(bytes))
}

/// Turns the 32 bytes of a transaction id around: wire order into display order.
fn reversed_txid(wire: &[u8]) -> (txid: [u8; 32])
    requires
        wire@.len() == 32,
    ensures
        txid@ == wire@.reverse(),
{
    let mut txid: [u8; 32] = [0u8; 32];
    let mut i: usize = 0;
    while i < 32
        invariant
            i <= 32,
            wire@.len() == 32,
            forall|j: int| 0 <= j < i ==> txid@[j] == wire@[31 - j],
        decreases 32 - i,
    {
        txid[i] = wire[31 - i];
        i += 1;
    }
    assert(txid@ =~= wire@.reverse());
    txid
}

/// Reads one input at the cursor.
///
/// On success the cursor has moved past the input. When the buffer ends
/// before the input does, the read fails and the cursor stays where it was.
pub fn read_input(cursor: &mut Cursor) -> (result: Result<TxInput, BitcoinError>)
    ensures
        final(cursor).data() == old(cursor).data(),
        match result {
            Ok(input) => {
                &&& spec_read_input(old(cursor).remaining()) matches Some((view, len))
                &&& input@ == view
                &&& final(cursor).consumed() == old(cursor).consumed() + len
                &&& final(cursor).remaining() == old(cursor).remaining().skip(len as int)
            },
            Err(error) => {
                &&& spec_read_input(old(cursor).remaining()) is None
                &&& error == BitcoinError::InvalidScript
                &&& final(cursor).consumed() == old(cursor).consumed()
            },
        },
{
    let ghost bytes = cursor.remaining();
    let mut probe = *cursor;
    let wire_txid = probe.take(32)?;
    let vout_bytes = probe.take(4)?;
    assert(probe.remaining() == bytes.skip(36));
    let script_len: u64 = read_compact_size(&mut probe)?;
    let ghost (_, size_len) = spec_read_compact_size(bytes.skip(36)).unwrap();
    assert(probe.remaining() == bytes.skip(36 + size_len as int));
    let script_sig = read_scriptsig(script_len, &mut probe)?;
    assert(probe.remaining() == bytes.skip(36 + size_len + script_len));
    let sequence_bytes = probe.take(4)?;
    let input = TxInput {
        previous_output: OutPoint { txid: reversed_txid(wire_txid), vout: u32_from_le(vout_bytes) },
        script_sig,
        sequence: u32_from_le(sequence_bytes),
    };
    *cursor = probe;
    proof {
        let script_start = 36 + size_len;
        let script_end = script_start + script_len;
        assert(wire_txid@ == bytes.subrange(0, 32));
        assert(vout_bytes@ == bytes.subrange(32, 36));
        assert(input.script_sig@ == bytes.subrange(script_start as int, script_end as int));
        assert(sequence_bytes@ == bytes.subrange(script_end as int, script_end + 4));
    }
    Ok(input)
}

/// Reads one output at the cursor.
///
/// On success the cursor has moved past the output. When the buffer ends
/// before the output does, the read fails and the cursor stays where it was.
pub fn read_output(cursor: &mut Cursor) -> (result: Result<TxOutput, BitcoinError>)
    ensures
        final(cursor).data() == old(cursor).data(),
        match result {
            Ok(output) => {
                &&& spec_read_output(old(cursor).remaining()) matches Some((view, len))
                &&& output@ == view
                &&& final(cursor).consumed() == old(cursor).consumed() + len
                &&& final(cursor).remaining() == old(cursor).remaining().skip(len as int)
            },
            Err(error) => {
                &&& spec_read_output(old(cursor).remaining()) is None
                &&& error == BitcoinError::InvalidScript
                &&& final(cursor).consumed() == old(cursor).consumed()
            },
        },
{
    let ghost bytes = cursor.remaining();
    let mut probe = *cursor;
    let value_bytes = probe.take(8)?;
    let script_len: u64 = read_compact_size(&mut probe)?;
    let ghost (_, size_len) = spec_read_compact_size(bytes.skip(8)).unwrap();
    assert(probe.remaining() == bytes.skip(8 + size_len as int));
    let script_pubkey = read_scriptsig(script_len, &mut probe)?;
    let output = TxOutput { value: u64_from_le(value_bytes), script_pubkey };
    *cursor = probe;
    proof {
        let script_start = 8 + size_len;
        let script_end = script_start + script_len;
        assert(value_bytes@ == bytes.subrange(0, 8));
        assert(output.script_pubkey@ == bytes.subrange(script_start as int, script_end as int));
    }
    Ok(output)
}

/// Reads `count` inputs at the cursor, one after the other.
///
/// On success the cursor has moved past the last of them. When the buffer
/// ends before that, the read fails and the cursor stays where it was.
pub fn read_inputs(count: u64, cursor: &mut Cursor) -> (result: Result<Vec<TxInput>, BitcoinError>)
    ensures
        final(cursor).data() == old(cursor).data(),
        match result {
            Ok(inputs) => {
                &&& spec_read_inputs(old(cursor).remaining(), count as nat) matches Some(
                    (views, len),
                )
                &&& input_views(inputs@) == views
                &&& final(cursor).consumed() == old(cursor).consumed() + len
                &&& final(cursor).remaining() == old(cursor).remaining().skip(len as int)
            },
            Err(error) => {
                &&& spec_read_inputs(old(cursor).remaining(), count as nat) is None
                &&& error == BitcoinError::InvalidScript
                &&& final(cursor).consumed() == old(cursor).consumed()
            },
        },
{
    let ghost bytes = cursor.remaining();
    let mut probe = *cursor;
    let mut inputs: Vec<TxInput> = Vec::new();
    let mut done: u64 = 0;
    assert(input_views(inputs@) =~= Seq::empty());
    assert(bytes.skip(0) == bytes);
    while done < count
        invariant
            done <= count,
            *cursor == *old(cursor),
            bytes == old(cursor).remaining(),
            probe.data() == old(cursor).data(),
            spec_read_inputs(bytes, done as nat) matches Some((views, used)) && views
                == input_views(inputs@) && probe.consumed() == old(cursor).consumed() + used
                && probe.remaining() == bytes.skip(used as int),
        decreases count - done,
    {
        let ghost (views, used) = spec_read_inputs(bytes, done as nat).unwrap();
        proof {
            lemma_read_inputs_len(bytes, done as nat);
        }
        match read_input(&mut probe) {
            Ok(input) => {
                proof {
                    lemma_read_input_len(bytes.skip(used as int));
                    let (_, len) = spec_read_input(bytes.skip(used as int)).unwrap();
                    assert(bytes.skip(used as int).skip(len as int) == bytes.skip(used + len as int));
                    assert(input_views(inputs@.push(input)) =~= views.push(input@));
                }
                inputs.push(input);
            },
            Err(error) => {
                proof {
                    lemma_read_inputs_fails_on(bytes, (done + 1) as nat, count as nat);
                }
                return Err(error);
            },
        }
        done += 1;
    }
    *cursor = probe;
    Ok(inputs)
}

/// Reads `count` outputs at the cursor, one after the other.
///
/// On success the cursor has moved past the last of them. When the buffer
/// ends before that, the read fails and the cursor stays where it was.
pub fn read_outputs(count: u64, cursor: &mut Cursor) -> (result: Result<Vec<TxOutput>, BitcoinError>)
    ensures
        final(cursor).data() == old(cursor).data(),
        match result {
            Ok(outputs) => {
                &&& spec_read_outputs(old(cursor).remaining(), count as nat) matches Some(
                    (views, len),
                )
                &&& output_views(outputs@) == views
                &&& final(cursor).consumed() == old(cursor).consumed() + len
                &&& final(cursor).remaining() == old(cursor).remaining().skip(len as int)
            },
            Err(error) => {
                &&& spec_read_outputs(old(cursor).remaining(), count as nat) is None
                &&& error == BitcoinError::InvalidScript
                &&& final(cursor).consumed() == old(cursor).consumed()
            },
        },
{
    let ghost bytes = cursor.remaining();
    let mut probe = *cursor;
    let mut outputs: Vec<TxOutput> = Vec::new();
    let mut done: u64 = 0;
    assert(output_views(outputs@) =~= Seq::empty());
    assert(bytes.skip(0) == bytes);
    while done < count
        invariant
            done <= count,
            *cursor == *old(cursor),
            bytes == old(cursor).remaining(),
            probe.data() == old(cursor).data(),
            spec_read_outputs(bytes, done as nat) matches Some((views, used)) && views
                == output_views(outputs@) && probe.consumed() == old(cursor).consumed() + used
                && probe.remaining() == bytes.skip(used as int),
        decreases count - done,
    {
        let ghost (views, used) = spec_read_outputs(bytes, done as nat).unwrap();
        proof {
            lemma_read_outputs_len(bytes, done as nat);
        }
        match read_output(&mut probe) {
            Ok(output) => {
                proof {
                    lemma_read_output_len(bytes.skip(used as int));
                    let (_, len) = spec_read_output(bytes.skip(used as int)).unwrap();
                    assert(bytes.skip(used as int).skip(len as int) == bytes.skip(used + len as int));
                    assert(output_views(outputs@.push(output)) =~= views.push(output@));
                }
                outputs.push(output);
            },
            Err(error) => {
                proof {
                    lemma_read_outputs_fails_on(bytes, (done + 1) as nat, count as nat);
                }
                return Err(error);
            },
        }
        done += 1;
    }
    *cursor = probe;
    Ok(outputs)
}

impl<'a> TryFrom<&'a [u8]> for LegacyTransaction {
    type Error = BitcoinError;

    /// Decodes the transaction at the start of `data`.
    ///
    /// A buffer of fewer than ten bytes is refused as `InvalidTransaction`
    /// before anything is read. A longer buffer that ends in the middle of a
    /// field is refused as `InvalidScript`. Bytes after the lock time are left
    /// alone: they are no error.
    fn try_from(data: &'a [u8]) -> (result: Result<Self, BitcoinError>)
        ensures
            match result {
                Ok(transaction) => spec_decode(data@) == Ok::<TransactionView, BitcoinError>(
                    transaction@,
                ),
                Err(error) => spec_decode(data@) == Err::<TransactionView, BitcoinError>(error),
            },
    {
        if data.len() < MIN_TRANSACTION_LEN {
            return Err(BitcoinError::InvalidTransaction);
        }
        let ghost bytes = data@;
        let mut cursor = Cursor::new(data);
        let version_bytes = cursor.take(4)?;
        let input_count: u64 = read_compact_size(&mut cursor)?;
        let ghost (_, a) = spec_read_compact_size(bytes.skip(4)).unwrap();
        assert(cursor.remaining() == bytes.skip(4 + a as int));
        let inputs = read_inputs(input_count, &mut cursor)?;
        let ghost (_, b) = spec_read_inputs(bytes.skip(4 + a as int), input_count as nat).unwrap();
        proof {
            lemma_read_inputs_len(bytes.skip(4 + a as int), input_count as nat);
        }
        assert(cursor.remaining() == bytes.skip(4 + a + b as int));
        let output_count: u64 = read_compact_size(&mut cursor)?;
        let ghost (_, c) = spec_read_compact_size(bytes.skip(4 + a + b as int)).unwrap();
        assert(cursor.remaining() == bytes.skip(4 + a + b + c as int));
        let outputs = read_outputs(output_count, &mut cursor)?;
        let ghost (_, d) = spec_read_outputs(
            bytes.skip(4 + a + b + c as int),
            output_count as nat,
        ).unwrap();
        proof {
            lemma_read_outputs_len(bytes.skip(4 + a + b + c as int), output_count as nat);
        }
        let ghost end = 4 + a + b + c + d as int;
        assert(cursor.remaining() == bytes.skip(end));
        let lock_time_bytes = cursor.take(4)?;
        assert(version_bytes@ == bytes.subrange(0, 4));
        assert(lock_time_bytes@ == bytes.subrange(end, end + 4));
        Ok(
            LegacyTransaction {
                lock_time: u32_from_le(lock_time_bytes),
                inputs,
                outputs,
                version: i32_from_le(version_bytes),
            },
        )
    }
}

/// `try_from` fixes the fields of the transaction it returns, not which of the
/// values with those fields it is: its own contract says what it returns, and
/// the equation with `try_from_spec` is not claimed.
impl<'a> TryFromSpecImpl<&'a [u8]> for LegacyTransaction {
    open spec fn obeys_try_from_spec() -> bool {
        false
    }

    open spec fn try_from_spec(data: &'a [u8]) -> Result<Self, BitcoinError> {
        match spec_decode(data@) {
            Ok(view) => Ok(choose|transaction: LegacyTransaction| transaction@ == view),
            Err(error) => Err(error),
        }
    }
}

} // verus!
