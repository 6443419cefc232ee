//! The wire format, stated over byte sequences.
//!
//! All multi-byte integers are little-endian. A transaction is
//!
//! ```text
//! version        4 bytes, signed
//! input count    CompactSize
//!   per input:   txid (32 bytes, display order reversed), vout (4 bytes),
//!                script length (CompactSize), script, sequence (4 bytes)
//! output count   CompactSize
//!   per output:  value (8 bytes), script length (CompactSize), script
//! lock time      4 bytes
//! ```
//!
//! The `spec_write_*` functions say which bytes a value becomes; the
//! `spec_read_*` functions say which value, if any, stands at the start of a
//! byte sequence and how many bytes it takes.

use vstd::prelude::*;

use crate::compact_size::{
    lemma_compact_size_ignores_rest, spec_read_compact_size, spec_write_compact_size,
};
use crate::error::BitcoinError;
use crate::le::{i32_le, i32_le_bytes, u32_le, u32_le_bytes, u64_le, u64_le_bytes};
use crate::transaction::{OutPointView, TransactionView, TxInputView, TxOutputView};

verus! {

/// The length of the shortest transaction: a version, two empty counts and a lock time.
pub const MIN_TRANSACTION_LEN: usize = 10;

/// The bytes of one input.
pub open spec fn spec_write_input(input: TxInputView) -> Seq<u8> {
    input.previous_output.txid.reverse() + u32_le_bytes(input.previous_output.vout)
        + spec_write_compact_size(input.script_sig.len() as u64) + input.script_sig
        + u32_le_bytes(input.sequence)
}

/// The bytes of one output.
pub open spec fn spec_write_output(output: TxOutputView) -> Seq<u8> {
    u64_le_bytes(output.value) + spec_write_compact_size(output.script_pubkey.len() as u64)
        + output.script_pubkey
}

/// The bytes of a list of inputs: one input after the other, in order.
pub open spec fn spec_write_inputs(inputs: Seq<TxInputView>) -> Seq<u8>
    decreases inputs.len(),
{
    if inputs.len() == 0 {
        Seq::empty()
    } else {
        spec_write_inputs(inputs.drop_last()) + spec_write_input(inputs.last())
    }
}

/// The bytes of a list of outputs: one output after the other, in order.
pub open spec fn spec_write_outputs(outputs: Seq<TxOutputView>) -> Seq<u8>
    decreases outputs.len(),
{
    if outputs.len() == 0 {
        Seq::empty()
    } else {
        spec_write_outputs(outputs.drop_last()) + spec_write_output(outputs.last())
    }
}

/// The bytes of a transaction.
pub open spec fn spec_serialize(transaction: TransactionView) -> Seq<u8> {
    i32_le_bytes(transaction.version) + spec_write_compact_size(transaction.inputs.len() as u64)
        + spec_write_inputs(transaction.inputs) + spec_write_compact_size(
        transaction.outputs.len() as u64,
    ) + spec_write_outputs(transaction.outputs) + u32_le_bytes(transaction.lock_time)
}

/// The input at the start of `bytes` and its length in bytes, or `None` when
/// `bytes` ends before the input does.
pub open spec fn spec_read_input(bytes: Seq<u8>) -> Option<(TxInputView, nat)> {
    if bytes.len() < 36 {
        None
    } else {
        match spec_read_compact_size(bytes.skip(36)) {
            None => None,
            Some((script_len, size_len)) => {
                let script_start = 36 + size_len;
                let script_end = script_start + script_len;
                if bytes.len() < script_end + 4 {
                    None
                } else {
                    Some(
                        (
                            TxInputView {
                                previous_output: OutPointView {
                                    txid: bytes.subrange(0, 32).reverse(),
                                    vout: u32_le(bytes.subrange(32, 36)) as u32,
                                },
                                script_sig: bytes.subrange(script_start as int, script_end as int),
                                sequence: u32_le(
                                    bytes.subrange(script_end as int, script_end + 4),
                                ) as u32,
                            },
                            (script_end + 4) as nat,
                        ),
                    )
                }
            },
        }
    }
}

/// The output at the start of `bytes` and its length in bytes, or `None` when
/// `bytes` ends before the output does.
pub open spec fn spec_read_output(bytes: Seq<u8>) -> Option<(TxOutputView, nat)> {
    if bytes.len() < 8 {
        None
    } else {
        match spec_read_compact_size(bytes.skip(8)) {
            None => None,
            Some((script_len, size_len)) => {
                let script_start = 8 + size_len;
                let script_end = script_start + script_len;
                if bytes.len() < script_end {
                    None
                } else {
                    Some(
                        (
                            TxOutputView {
                                value: u64_le(bytes.subrange(0, 8)) as u64,
                                script_pubkey: bytes.subrange(
                                    script_start as int,
                                    script_end as int,
                                ),
                            },
                            script_end as nat,
                        ),
                    )
                }
            },
        }
    }
}

/// The first `count` inputs at the start of `bytes`, in order, and their
/// length in bytes together, or `None` when `bytes` ends before the last of
/// them does.
pub open spec fn spec_read_inputs(bytes: Seq<u8>, count: nat) -> Option<(Seq<TxInputView>, nat)>
    decreases count,
{
    if count == 0 {
        Some((Seq::empty(), 0))
    } else {
        match spec_read_inputs(bytes, (count - 1) as nat) {
            None => None,
            Some((front, used)) => match spec_read_input(bytes.skip(used as int)) {
                None => None,
                Some((last, len)) => Some((front.push(last), used + len)),
            },
        }
    }
}

/// The first `count` outputs at the start of `bytes`, in order, and their
/// length in bytes together, or `None` when `bytes` ends before the last of
/// them does.
pub open spec fn spec_read_outputs(bytes: Seq<u8>, count: nat) -> Option<(Seq<TxOutputView>, nat)>
    decreases count,
{
    if count == 0 {
        Some((Seq::empty(), 0))
    } else {
        match spec_read_outputs(bytes, (count - 1) as nat) {
            None => None,
            Some((front, used)) => match spec_read_output(bytes.skip(used as int)) {
                None => None,
                Some((last, len)) => Some((front.push(last), used + len)),
            },
        }
    }
}

/// The transaction at the start of `bytes`, or `None` when `bytes` ends before
/// the transaction does. Bytes after the lock time are not looked at.
pub open spec fn spec_read_transaction(bytes: Seq<u8>) -> Option<TransactionView> {
    if bytes.len() < 4 {
        None
    } else {
        match spec_read_compact_size(bytes.skip(4)) {
            None => None,
            Some((input_count, a)) => match spec_read_inputs(
                bytes.skip(4 + a as int),
                input_count as nat,
            ) {
                None => None,
                Some((inputs, b)) => match spec_read_compact_size(bytes.skip(4 + a + b as int)) {
                    None => None,
                    Some((output_count, c)) => match spec_read_outputs(
                        bytes.skip(4 + a + b + c as int),
                        output_count as nat,
                    ) {
                        None => None,
                        Some((outputs, d)) => {
                            let end = 4 + a + b + c + d as int;
                            if bytes.len() < end + 4 {
                                None
                            } else {
                                Some(
                                    TransactionView {
                                        version: i32_le(bytes.subrange(0, 4)) as i32,
                                        inputs,
                                        outputs,
                                        lock_time: u32_le(bytes.subrange(end, end + 4)) as u32,
                                    },
                                )
                            }
                        },
                    },
                },
            },
        }
    }
}

/// What decoding `bytes` gives: the transaction at its start, or the reason
/// why there is none.
///
/// A buffer under ten bytes is no transaction at all; a longer one that ends
/// in the middle of a field is cut short.
pub open spec fn spec_decode(bytes: Seq<u8>) -> Result<TransactionView, BitcoinError> {
    if bytes.len() < MIN_TRANSACTION_LEN {
        Err(BitcoinError::InvalidTransaction)
    } else {
        match spec_read_transaction(bytes) {
            Some(transaction) => Ok(transaction),
            None => Err(BitcoinError::InvalidScript),
        }
    }
}

/// An input takes at least 41 bytes and no more than there are.
pub proof fn lemma_read_input_len(bytes: Seq<u8>)
    ensures
        spec_read_input(bytes) matches Some((_, len)) ==> 41 <= len <= bytes.len(),
{
}

/// An output takes at least 9 bytes and no more than there are.
pub proof fn lemma_read_output_len(bytes: Seq<u8>)
    ensures
        spec_read_output(bytes) matches Some((_, len)) ==> 9 <= len <= bytes.len(),
{
}

/// A list of `count` inputs holds `count` inputs, takes at least 41 bytes for
/// each and no more than there are.
pub proof fn lemma_read_inputs_len(bytes: Seq<u8>, count: nat)
    ensures
        spec_read_inputs(bytes, count) matches Some((inputs, used)) ==> inputs.len() == count && 41
            * count <= used <= bytes.len(),
    decreases count,
{
    if count > 0 {
        lemma_read_inputs_len(bytes, (count - 1) as nat);
        if let Some((_, used)) = spec_read_inputs(bytes, (count - 1) as nat) {
            lemma_read_input_len(bytes.skip(used as int));
        }
    }
}

/// A list of `count` outputs holds `count` outputs, takes at least 9 bytes
/// for each and no more than there are.
pub proof fn lemma_read_outputs_len(bytes: Seq<u8>, count: nat)
    ensures
        spec_read_outputs(bytes, count) matches Some((outputs, used)) ==> outputs.len() == count
            && 9 * count <= used <= bytes.len(),
    decreases count,
{
    if count > 0 {
        lemma_read_outputs_len(bytes, (count - 1) as nat);
        if let Some((_, used)) = spec_read_outputs(bytes, (count - 1) as nat) {
            lemma_read_output_len(bytes.skip(used as int));
        }
    }
}

/// Where the first `fewer` inputs cannot be read, no longer list can.
pub proof fn lemma_read_inputs_fails_on(bytes: Seq<u8>, fewer: nat, count: nat)
    requires
        fewer <= count,
        spec_read_inputs(bytes, fewer) is None,
    ensures
        spec_read_inputs(bytes, count) is None,
    decreases count,
{
    if fewer < count {
        lemma_read_inputs_fails_on(bytes, fewer, (count - 1) as nat);
    }
}

/// Where the first `fewer` outputs cannot be read, no longer list can.
pub proof fn lemma_read_outputs_fails_on(bytes: Seq<u8>, fewer: nat, count: nat)
    requires
        fewer <= count,
        spec_read_outputs(bytes, fewer) is None,
    ensures
        spec_read_outputs(bytes, count) is None,
    decreases count,
{
    if fewer < count {
        lemma_read_outputs_fails_on(bytes, fewer, (count - 1) as nat);
    }
}

/// Putting `more` after `bytes` changes neither what stands before the end
/// of `bytes` nor, but for `more` itself, what follows a place in it.
proof fn lemma_longer(bytes: Seq<u8>, more: Seq<u8>, from: int, to: int)
    requires
        0 <= from <= to <= bytes.len(),
    ensures
        (bytes + more).skip(from) == bytes.skip(from) + more,
        (bytes + more).subrange(from, to) == bytes.subrange(from, to),
{
    assert((bytes + more).skip(from) =~= bytes.skip(from) + more);
    assert((bytes + more).subrange(from, to) =~= bytes.subrange(from, to));
}

/// The input read at the start of a byte sequence does not depend on the
/// bytes that follow it.
pub proof fn lemma_read_input_ignores_rest(bytes: Seq<u8>, more: Seq<u8>)
    requires
        spec_read_input(bytes) is Some,
    ensures
        spec_read_input(bytes + more) == spec_read_input(bytes),
{
    let (script_len, size_len) = spec_read_compact_size(bytes.skip(36)).unwrap();
    let script_start = 36 + size_len;
    let script_end = script_start + script_len;
    lemma_compact_size_ignores_rest(bytes.skip(36), more);
    lemma_longer(bytes, more, 0, 32);
    lemma_longer(bytes, more, 32, 36);
    lemma_longer(bytes, more, 36, 36);
    lemma_longer(bytes, more, script_start as int, script_end as int);
    lemma_longer(bytes, more, script_end as int, script_end + 4);
}

/// The output read at the start of a byte sequence does not depend on the
/// bytes that follow it.
pub proof fn lemma_read_output_ignores_rest(bytes: Seq<u8>, more: Seq<u8>)
    requires
        spec_read_output(bytes) is Some,
    ensures
        spec_read_output(bytes + more) == spec_read_output(bytes),
{
    let (script_len, size_len) = spec_read_compact_size(bytes.skip(8)).unwrap();
    let script_start = 8 + size_len;
    let script_end = script_start + script_len;
    lemma_compact_size_ignores_rest(bytes.skip(8), more);
    lemma_longer(bytes, more, 0, 8);
    lemma_longer(bytes, more, 8, 8);
    lemma_longer(bytes, more, script_start as int, script_end as int);
}

/// The inputs read at the start of a byte sequence do not depend on the bytes
/// that follow them.
pub proof fn lemma_read_inputs_ignores_rest(bytes: Seq<u8>, count: nat, more: Seq<u8>)
    requires
        spec_read_inputs(bytes, count) is Some,
    ensures
        spec_read_inputs(bytes + more, count) == spec_read_inputs(bytes, count),
    decreases count,
{
    if count > 0 {
        let (_, used) = spec_read_inputs(bytes, (count - 1) as nat).unwrap();
        lemma_read_inputs_ignores_rest(bytes, (count - 1) as nat, more);
        lemma_read_inputs_len(bytes, (count - 1) as nat);
        lemma_read_input_ignores_rest(bytes.skip(used as int), more);
        lemma_longer(bytes, more, used as int, used as int);
    }
}

/// The outputs read at the start of a byte sequence do not depend on the
/// bytes that follow them.
pub proof fn lemma_read_outputs_ignores_rest(bytes: Seq<u8>, count: nat, more: Seq<u8>)
    requires
        spec_read_outputs(bytes, count) is Some,
    ensures
        spec_read_outputs(bytes + more, count) == spec_read_outputs(bytes, count),
    decreases count,
{
    if count > 0 {
        let (_, used) = spec_read_outputs(bytes, (count - 1) as nat).unwrap();
        lemma_read_outputs_ignores_rest(bytes, (count - 1) as nat, more);
        lemma_read_outputs_len(bytes, (count - 1) as nat);
        lemma_read_output_ignores_rest(bytes.skip(used as int), more);
        lemma_longer(bytes, more, used as int, used as int);
    }
}

/// After a four-byte version, `bytes` holds the count of `inputs` in `a`
/// bytes, `inputs` in `b` bytes, the count of `outputs` in `c` bytes,
/// `outputs` in `d` bytes, and four bytes more.
pub open spec fn spec_has_parts(
    bytes: Seq<u8>,
    a: nat,
    inputs: Seq<TxInputView>,
    b: nat,
    c: nat,
    outputs: Seq<TxOutputView>,
    d: nat,
) -> bool {
    &&& bytes.len() >= 4 + a + b + c + d + 4
    &&& inputs.len() <= u64::MAX
    &&& outputs.len() <= u64::MAX
    &&& spec_read_compact_size(bytes.skip(4)) == Some((inputs.len() as u64, a))
    &&& spec_read_inputs(bytes.skip(4 + a as int), inputs.len()) == Some((inputs, b))
    &&& spec_read_compact_size(bytes.skip(4 + a + b as int)) == Some((outputs.len() as u64, c))
    &&& spec_read_outputs(bytes.skip(4 + a + b + c as int), outputs.len()) == Some((outputs, d))
}

/// A byte sequence that holds the parts of a transaction holds the
/// transaction made of them, with the version of its first four bytes and
/// the lock time of the four bytes after the outputs.
pub proof fn lemma_read_parts(
    bytes: Seq<u8>,
    a: nat,
    inputs: Seq<TxInputView>,
    b: nat,
    c: nat,
    outputs: Seq<TxOutputView>,
    d: nat,
)
    requires
        spec_has_parts(bytes, a, inputs, b, c, outputs, d),
    ensures
        spec_read_transaction(bytes) == Some(
            TransactionView {
                version: i32_le(bytes.subrange(0, 4)) as i32,
                inputs,
                outputs,
                lock_time: u32_le(
                    bytes.subrange(4 + a + b + c + d as int, 4 + a + b + c + d + 4 as int),
                ) as u32,
            },
        ),
{
}

/// Trailing bytes are no error: a buffer that decodes to a transaction still
/// decodes to it when more bytes are put after it.
pub proof fn lemma_decode_ignores_rest(bytes: Seq<u8>, more: Seq<u8>)
    requires
        spec_decode(bytes) is Ok,
    ensures
        spec_decode(bytes + more) == spec_decode(bytes),
{
    let longer = bytes + more;
    let (input_count, a) = spec_read_compact_size(bytes.skip(4)).unwrap();
    let after_a = bytes.skip(4 + a as int);
    let (inputs, b) = spec_read_inputs(after_a, input_count as nat).unwrap();
    let after_b = bytes.skip(4 + a + b as int);
    let (output_count, c) = spec_read_compact_size(after_b).unwrap();
    let after_c = bytes.skip(4 + a + b + c as int);
    let (outputs, d) = spec_read_outputs(after_c, output_count as nat).unwrap();
    let end = 4 + a + b + c + d as int;
    lemma_read_inputs_len(after_a, input_count as nat);
    lemma_read_outputs_len(after_c, output_count as nat);
    assert(spec_has_parts(bytes, a, inputs, b, c, outputs, d));
    lemma_longer(bytes, more, 0, 4);
    lemma_longer(bytes, more, 4, 4);
    lemma_longer(bytes, more, 4 + a as int, 4 + a as int);
    lemma_longer(bytes, more, 4 + a + b as int, 4 + a + b as int);
    lemma_longer(bytes, more, 4 + a + b + c as int, 4 + a + b + c as int);
    lemma_longer(bytes, more, end, end + 4);
    lemma_compact_size_ignores_rest(bytes.skip(4), more);
    lemma_read_inputs_ignores_rest(after_a, input_count as nat, more);
    lemma_compact_size_ignores_rest(after_b, more);
    lemma_read_outputs_ignores_rest(after_c, output_count as nat, more);
    assert(spec_has_parts(longer, a, inputs, b, c, outputs, d));
    lemma_read_parts(bytes, a, inputs, b, c, outputs, d);
    lemma_read_parts(longer, a, inputs, b, c, outputs, d);
}

} // verus!
