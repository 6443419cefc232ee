//! Decoding undoes encoding.
//!
//! Every transaction that the types of this crate can hold decodes, from its
//! own encoding, to itself; bytes that follow the encoding change nothing.

use vstd::prelude::*;

use crate::compact_size::{
    lemma_compact_size_round_trip, lemma_compact_size_shortest, spec_write_compact_size,
};
use crate::encode::BitcoinSerialize;
use crate::error::BitcoinError;
use crate::le::{
    i32_le_bytes, lemma_i32_le_round_trip, lemma_u32_le_round_trip, lemma_u64_le_round_trip,
    u32_le_bytes, u64_le_bytes,
};
use crate::transaction::{
    LegacyTransaction, TransactionView, TxInput, TxInputView, TxOutput, TxOutputView,
};
use crate::wire::{
    lemma_read_parts, spec_decode, spec_read_input, spec_read_inputs, spec_read_output,
    spec_read_outputs, spec_read_transaction, spec_serialize, spec_write_input, spec_write_inputs,
    spec_write_output, spec_write_outputs,
};

verus! {

/// An input that the wire format can carry: a 32-byte id and a script whose
/// length fits a CompactSize.
pub open spec fn input_fits(input: TxInputView) -> bool {
    input.previous_output.txid.len() == 32 && input.script_sig.len() <= u64::MAX
}

/// An output that the wire format can carry: a script whose length fits a CompactSize.
pub open spec fn output_fits(output: TxOutputView) -> bool {
    output.script_pubkey.len() <= u64::MAX
}

/// A transaction that the wire format can carry: counts that fit a
/// CompactSize, and inputs and outputs that fit.
pub open spec fn transaction_fits(transaction: TransactionView) -> bool {
    &&& transaction.inputs.len() <= u64::MAX
    &&& transaction.outputs.len() <= u64::MAX
    &&& forall|i: int|
        0 <= i < transaction.inputs.len() ==> input_fits(#[trigger] transaction.inputs[i])
    &&& forall|i: int|
        0 <= i < transaction.outputs.len() ==> output_fits(#[trigger] transaction.outputs[i])
}

/// Whatever an input value holds fits the wire format.
pub proof fn lemma_input_fits(input: TxInput)
    ensures
        input_fits(input@),
{
    vstd::array::array_len_matches_n(&input.previous_output.txid);
    vstd::std_specs::vec::axiom_spec_len(&input.script_sig);
}

/// Whatever an output value holds fits the wire format.
pub proof fn lemma_output_fits(output: TxOutput)
    ensures
        output_fits(output@),
{
    vstd::std_specs::vec::axiom_spec_len(&output.script_pubkey);
}

/// Whatever a transaction value holds fits the wire format.
pub proof fn lemma_transaction_fits(transaction: LegacyTransaction)
    ensures
        transaction_fits(transaction@),
{
    vstd::std_specs::vec::axiom_spec_len(&transaction.inputs);
    vstd::std_specs::vec::axiom_spec_len(&transaction.outputs);
    assert forall|i: int| 0 <= i < transaction@.inputs.len() implies input_fits(
        #[trigger] transaction@.inputs[i],
    ) by {
        lemma_input_fits(transaction.inputs@[i]);
    }
    assert forall|i: int| 0 <= i < transaction@.outputs.len() implies output_fits(
        #[trigger] transaction@.outputs[i],
    ) by {
        lemma_output_fits(transaction.outputs@[i]);
    }
}

/// Where each of five parts stands in their concatenation.
proof fn lemma_five_parts(
    first: Seq<u8>,
    second: Seq<u8>,
    third: Seq<u8>,
    fourth: Seq<u8>,
    fifth: Seq<u8>,
    rest: Seq<u8>,
)
    ensures
        ({
            let bytes = first + second + third + fourth + fifth + rest;
            let s1 = first.len() as int;
            let s2 = s1 + second.len();
            let s3 = s2 + third.len();
            let s4 = s3 + fourth.len();
            let s5 = s4 + fifth.len();
            &&& bytes.len() == s5 + rest.len()
            &&& (first + second + third + fourth + fifth).len() == s5
            &&& bytes.subrange(0, s1) == first
            &&& bytes.subrange(s1, s2) == second
            &&& bytes.skip(s2) == third + (fourth + fifth + rest)
            &&& bytes.subrange(s3, s4) == fourth
            &&& bytes.subrange(s4, s5) == fifth
        }),
{
    let bytes = first + second + third + fourth + fifth + rest;
    let s1 = first.len() as int;
    let s2 = s1 + second.len();
    let s3 = s2 + third.len();
    let s4 = s3 + fourth.len();
    let s5 = s4 + fifth.len();
    assert(bytes.subrange(0, s1) =~= first);
    assert(bytes.subrange(s1, s2) =~= second);
    assert(bytes.skip(s2) =~= third + (fourth + fifth + rest));
    assert(bytes.subrange(s3, s4) =~= fourth);
    assert(bytes.subrange(s4, s5) =~= fifth);
}

/// Turning a sequence around twice gives the sequence.
proof fn lemma_reverse_twice(bytes: Seq<u8>)
    ensures
        bytes.reverse().len() == bytes.len(),
        bytes.reverse().reverse() == bytes,
{
    assert(bytes.reverse().reverse() =~= bytes);
}

/// The input at the start of an input's encoding is that input, and it takes
/// the whole encoding.
pub proof fn lemma_input_round_trip(input: TxInputView, rest: Seq<u8>)
    requires
        input_fits(input),
    ensures
        spec_read_input(spec_write_input(input) + rest) == Some(
            (input, spec_write_input(input).len()),
        ),
{
    let txid = input.previous_output.txid;
    let vout = u32_le_bytes(input.previous_output.vout);
    let script = input.script_sig;
    let size = spec_write_compact_size(script.len() as u64);
    let sequence = u32_le_bytes(input.sequence);
    lemma_reverse_twice(txid);
    lemma_u32_le_round_trip(input.previous_output.vout);
    lemma_u32_le_round_trip(input.sequence);
    lemma_compact_size_round_trip(script.len() as u64, script + sequence + rest);
    lemma_five_parts(txid.reverse(), vout, size, script, sequence, rest);
}

/// The output at the start of an output's encoding is that output, and it
/// takes the whole encoding.
pub proof fn lemma_output_round_trip(output: TxOutputView, rest: Seq<u8>)
    requires
        output_fits(output),
    ensures
        spec_read_output(spec_write_output(output) + rest) == Some(
            (output, spec_write_output(output).len()),
        ),
{
    let value = u64_le_bytes(output.value);
    let script = output.script_pubkey;
    let size = spec_write_compact_size(script.len() as u64);
    let empty = Seq::<u8>::empty();
    lemma_u64_le_round_trip(output.value);
    lemma_compact_size_round_trip(script.len() as u64, script + rest);
    lemma_five_parts(empty, value, size, script, empty, rest);
    assert(empty + value == value);
    assert(empty + value + size + script + empty == value + size + script);
    assert(script + empty + rest == script + rest);
}

/// What follows the first of three parts in their concatenation.
proof fn lemma_three_parts(front: Seq<u8>, last: Seq<u8>, rest: Seq<u8>)
    ensures
        front + last + rest == front + (last + rest),
        (front + last + rest).skip(front.len() as int) == last + rest,
{
    assert(front + last + rest =~= front + (last + rest));
    assert((front + last + rest).skip(front.len() as int) =~= last + rest);
}

/// The inputs at the start of the encoding of a list of inputs are that list,
/// and they take the whole encoding.
pub proof fn lemma_inputs_round_trip(inputs: Seq<TxInputView>, rest: Seq<u8>)
    requires
        forall|i: int| 0 <= i < inputs.len() ==> input_fits(#[trigger] inputs[i]),
    ensures
        spec_read_inputs(spec_write_inputs(inputs) + rest, inputs.len()) == Some(
            (inputs, spec_write_inputs(inputs).len()),
        ),
    decreases inputs.len(),
{
    if inputs.len() > 0 {
        let front = inputs.drop_last();
        let last = inputs.last();
        lemma_inputs_round_trip(front, spec_write_input(last) + rest);
        lemma_three_parts(spec_write_inputs(front), spec_write_input(last), rest);
        lemma_input_round_trip(last, rest);
        assert(front.push(last) =~= inputs);
    }
}

/// The outputs at the start of the encoding of a list of outputs are that
/// list, and they take the whole encoding.
pub proof fn lemma_outputs_round_trip(outputs: Seq<TxOutputView>, rest: Seq<u8>)
    requires
        forall|i: int| 0 <= i < outputs.len() ==> output_fits(#[trigger] outputs[i]),
    ensures
        spec_read_outputs(spec_write_outputs(outputs) + rest, outputs.len()) == Some(
            (outputs, spec_write_outputs(outputs).len()),
        ),
    decreases outputs.len(),
{
    if outputs.len() > 0 {
        let front = outputs.drop_last();
        let last = outputs.last();
        lemma_outputs_round_trip(front, spec_write_output(last) + rest);
        lemma_three_parts(spec_write_outputs(front), spec_write_output(last), rest);
        lemma_output_round_trip(last, rest);
        assert(front.push(last) =~= outputs);
    }
}

/// Where each of six parts starts in their concatenation, and what follows it there.
proof fn lemma_six_parts(
    first: Seq<u8>,
    second: Seq<u8>,
    third: Seq<u8>,
    fourth: Seq<u8>,
    fifth: Seq<u8>,
    sixth: Seq<u8>,
    rest: Seq<u8>,
)
    ensures
        ({
            let bytes = first + second + third + fourth + fifth + sixth + rest;
            let s1 = first.len() as int;
            let s2 = s1 + second.len();
            let s3 = s2 + third.len();
            let s4 = s3 + fourth.len();
            let s5 = s4 + fifth.len();
            &&& bytes.len() == s5 + sixth.len() + rest.len()
            &&& bytes.subrange(0, s1) == first
            &&& bytes.skip(s1) == second + (third + fourth + fifth + sixth + rest)
            &&& bytes.skip(s2) == third + (fourth + fifth + sixth + rest)
            &&& bytes.skip(s3) == fourth + (fifth + sixth + rest)
            &&& bytes.skip(s4) == fifth + (sixth + rest)
            &&& bytes.subrange(s5, s5 + sixth.len()) == sixth
        }),
{
    let bytes = first + second + third + fourth + fifth + sixth + rest;
    let s1 = first.len() as int;
    let s2 = s1 + second.len();
    let s3 = s2 + third.len();
    let s4 = s3 + fourth.len();
    let s5 = s4 + fifth.len();
    assert(bytes.subrange(0, s1) =~= first);
    assert(bytes.skip(s1) =~= second + (third + fourth + fifth + sixth + rest));
    assert(bytes.skip(s2) =~= third + (fourth + fifth + sixth + rest));
    assert(bytes.skip(s3) =~= fourth + (fifth + sixth + rest));
    assert(bytes.skip(s4) =~= fifth + (sixth + rest));
    assert(bytes.subrange(s5, s5 + sixth.len()) =~= sixth);
}

/// The encoding of a transaction that fits the wire format decodes to that
/// transaction, whatever bytes follow it.
pub proof fn lemma_view_round_trip(transaction: TransactionView, rest: Seq<u8>)
    requires
        transaction_fits(transaction),
    ensures
        spec_serialize(transaction).len() >= 10,
        spec_read_transaction(spec_serialize(transaction) + rest) == Some(transaction),
        spec_decode(spec_serialize(transaction) + rest) == Ok::<TransactionView, BitcoinError>(
            transaction,
        ),
{
    let inputs = transaction.inputs;
    let outputs = transaction.outputs;
    let version = i32_le_bytes(transaction.version);
    let input_count = spec_write_compact_size(inputs.len() as u64);
    let input_bytes = spec_write_inputs(inputs);
    let output_count = spec_write_compact_size(outputs.len() as u64);
    let output_bytes = spec_write_outputs(outputs);
    let lock_time = u32_le_bytes(transaction.lock_time);
    let bytes = spec_serialize(transaction) + rest;
    let a = input_count.len();
    let b = input_bytes.len();
    let c = output_count.len();
    let d = output_bytes.len();
    lemma_i32_le_round_trip(transaction.version);
    lemma_u32_le_round_trip(transaction.lock_time);
    lemma_compact_size_shortest(inputs.len() as u64);
    lemma_compact_size_shortest(outputs.len() as u64);
    lemma_six_parts(version, input_count, input_bytes, output_count, output_bytes, lock_time, rest);
    lemma_six_parts(
        version,
        input_count,
        input_bytes,
        output_count,
        output_bytes,
        lock_time,
        Seq::empty(),
    );
    lemma_compact_size_round_trip(
        inputs.len() as u64,
        input_bytes + output_count + output_bytes + lock_time + rest,
    );
    lemma_inputs_round_trip(inputs, output_count + output_bytes + lock_time + rest);
    lemma_compact_size_round_trip(outputs.len() as u64, output_bytes + lock_time + rest);
    lemma_outputs_round_trip(outputs, lock_time + rest);
    lemma_read_parts(bytes, a, inputs, b, c, outputs, d);
}

/// Round trip: decoding the bytes that `serialize` gives for a transaction
/// gives a transaction with the same fields, inputs and outputs in the same
/// order. Bytes that follow the encoding do not change the result.
pub proof fn lemma_round_trip(transaction: LegacyTransaction, rest: Seq<u8>)
    ensures
        spec_decode(transaction.wire_bytes()) == Ok::<TransactionView, BitcoinError>(
            transaction@,
        ),
        spec_decode(transaction.wire_bytes() + rest) == Ok::<TransactionView, BitcoinError>(
            transaction@,
        ),
{
    lemma_transaction_fits(transaction);
    lemma_view_round_trip(transaction@, rest);
    lemma_view_round_trip(transaction@, Seq::empty());
    assert(transaction.wire_bytes() + Seq::<u8>::empty() =~= transaction.wire_bytes());
}

/// Re-encoding: a transaction decoded from the encoding of another encodes
/// to the same bytes.
pub proof fn lemma_reencode(transaction: LegacyTransaction, decoded: LegacyTransaction)
    requires
        spec_decode(transaction.wire_bytes()) == Ok::<TransactionView, BitcoinError>(decoded@),
    ensures
        decoded.wire_bytes() == transaction.wire_bytes(),
{
    lemma_round_trip(transaction, Seq::empty());
}

} // verus!
