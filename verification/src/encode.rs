//! The encoder: from a transaction to the bytes that decode to it.

use vstd::prelude::*;

use crate::compact_size::write_compact_size;
use crate::le::{push_i32_le, push_u32_le, push_u64_le};
use crate::transaction::{input_views, output_views, LegacyTransaction, TxInput, TxOutput};
use crate::wire::{
    spec_serialize, spec_write_input, spec_write_inputs, spec_write_output, spec_write_outputs,
};

verus! {

/// A value that has a wire form.
pub trait BitcoinSerialize {
    /// The bytes that stand for the value on the wire.
    spec fn wire_bytes(&self) -> Seq<u8>;

    /// Encodes the value.
    fn serialize(&self) -> (bytes: Vec<u8>)
        ensures
            bytes@ == self.wire_bytes(),
    ;
}

/// Appends the 32 bytes of a transaction id to `buffer`, last byte first.
fn write_txid(txid: &[u8; 32], buffer: &mut Vec<u8>)
    ensures
        final(buffer)@ == old(buffer)@ + txid@.reverse(),
{
    let mut i: usize = 0;
    while i < 32
        invariant
            i <= 32,
            buffer@ == old(buffer)@ + txid@.reverse().take(i as int),
        decreases 32 - i,
    {
        buffer.push(txid[31 - i]);
        i += 1;
        assert(buffer@ =~= old(buffer)@ + txid@.reverse().take(i as int));
    }
    assert(txid@.reverse().take(32) =~= txid@.reverse());
}

/// Appends the bytes of one input to `buffer`.
pub fn write_input(input: &TxInput, buffer: &mut Vec<u8>)
    ensures
        final(buffer)@ == old(buffer)@ + spec_write_input(input@),
{
    write_txid(&input.previous_output.txid, buffer);
    push_u32_le(buffer, input.previous_output.vout);
    write_compact_size(input.script_sig.len() as u64, buffer);
    buffer.extend_from_slice(input.script_sig.as_slice());
    push_u32_le(buffer, input.sequence);
    assert(buffer@ =~= old(buffer)@ + spec_write_input(input@));
}

/// Appends the bytes of one output to `buffer`.
pub fn write_output(output: &TxOutput, buffer: &mut Vec<u8>)
    ensures
        final(buffer)@ == old(buffer)@ + spec_write_output(output@),
{
    push_u64_le(buffer, output.value);
    write_compact_size(output.script_pubkey.len() as u64, buffer);
    buffer.extend_from_slice(output.script_pubkey.as_slice());
    assert(buffer@ =~= old(buffer)@ + spec_write_output(output@));
}

impl BitcoinSerialize for LegacyTransaction {
    open spec fn wire_bytes(&self) -> Seq<u8> {
        spec_serialize(self@)
    }

    /// Encodes every field of the transaction, in wire order.
    fn serialize(&self) -> (bytes: Vec<u8>) {
        let mut buffer: Vec<u8> = Vec::new();
        push_i32_le(&mut buffer, self.version);
        write_compact_size(self.inputs.len() as u64, &mut buffer);
        let ghost head = buffer@;
        let mut i: usize = 0;
        while i < self.inputs.len()
            invariant
                i <= self.inputs.len(),
                buffer@ == head + spec_write_inputs(input_views(self.inputs@).take(i as int)),
            decreases self.inputs.len() - i,
        {
            write_input(&self.inputs[i], &mut buffer);
            i += 1;
            proof {
                let views = input_views(self.inputs@);
                assert(views.take(i as int).drop_last() =~= views.take(i - 1));
                assert(buffer@ =~= head + spec_write_inputs(views.take(i as int)));
            }
        }
        assert(input_views(self.inputs@).take(i as int) =~= input_views(self.inputs@));
        write_compact_size(self.outputs.len() as u64, &mut buffer);
        let ghost middle = buffer@;
        let mut j: usize = 0;
        while j < self.outputs.len()
            invariant
                j <= self.outputs.len(),
                buffer@ == middle + spec_write_outputs(output_views(self.outputs@).take(j as int)),
            decreases self.outputs.len() - j,
        {
            write_output(&self.outputs[j], &mut buffer);
            j += 1;
            proof {
                let views = output_views(self.outputs@);
                assert(views.take(j as int).drop_last() =~= views.take(j - 1));
                assert(buffer@ =~= middle + spec_write_outputs(views.take(j as int)));
            }
        }
        assert(output_views(self.outputs@).take(j as int) =~= output_views(self.outputs@));
        push_u32_le(&mut buffer, self.lock_time);
        assert(buffer@ =~= spec_serialize(self@));
        buffer
    }
}

} // verus!
