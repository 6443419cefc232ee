//! The transaction value, its parts, and the builder that assembles one.
//!
//! Each type has a view that holds its fields as mathematical values; two
//! transactions with equal views agree field for field, order included.

use vstd::prelude::*;

verus! {

/// What an [`OutPoint`] holds.
pub struct OutPointView {
    /// The 32 bytes of the transaction id, in display order.
    pub txid: Seq<u8>,
    pub vout: u32,
}

/// What a [`TxInput`] holds.
pub struct TxInputView {
    pub previous_output: OutPointView,
    pub script_sig: Seq<u8>,
    pub sequence: u32,
}

/// What a [`TxOutput`] holds.
pub struct TxOutputView {
    pub value: u64,
    pub script_pubkey: Seq<u8>,
}

/// What a [`LegacyTransaction`] holds.
pub struct TransactionView {
    pub version: i32,
    pub inputs: Seq<TxInputView>,
    pub outputs: Seq<TxOutputView>,
    pub lock_time: u32,
}

/// A reference to one output of an earlier transaction.
#[derive(Debug, Clone)]
pub struct OutPoint {
    /// The id of the earlier transaction, in display order (the wire holds it reversed).
    pub txid: [u8; 32],
    /// The index of the output in that transaction.
    pub vout: u32,
}

/// One input of a transaction.
#[derive(Debug, Clone)]
pub struct TxInput {
    pub previous_output: OutPoint,
    /// The unlocking script; the codec does not look inside.
    pub script_sig: Vec<u8>,
    pub sequence: u32,
}

/// One output of a transaction.
#[derive(Debug, Clone)]
pub struct TxOutput {
    /// The amount, in the smallest unit of the currency.
    pub value: u64,
    /// The locking script; the codec does not look inside.
    pub script_pubkey: Vec<u8>,
}

/// A legacy transaction: inputs and outputs in wire order, a version and a lock time.
#[derive(Debug, Clone)]
pub struct LegacyTransaction {
    pub version: i32,
    pub inputs: Vec<TxInput>,
    pub outputs: Vec<TxOutput>,
    pub lock_time: u32,
}

/// Collects the fields of a transaction before it is built.
pub struct LegacyTransactionBuilder {
    pub version: i32,
    pub inputs: Vec<TxInput>,
    pub outputs: Vec<TxOutput>,
    pub lock_time: u32,
}

impl View for OutPoint {
    type V = OutPointView;

    open spec fn view(&self) -> OutPointView {
        OutPointView { txid: self.txid@, vout: self.vout }
    }
}

impl View for TxInput {
    type V = TxInputView;

    open spec fn view(&self) -> TxInputView {
        TxInputView {
            previous_output: self.previous_output@,
            script_sig: self.script_sig@,
            sequence: self.sequence,
        }
    }
}

impl View for TxOutput {
    type V = TxOutputView;

    open spec fn view(&self) -> TxOutputView {
        TxOutputView { value: self.value, script_pubkey: self.script_pubkey@ }
    }
}

/// The views of a list of inputs, in the same order.
pub open spec fn input_views(inputs: Seq<TxInput>) -> Seq<TxInputView> {
    Seq::new(inputs.len(), |i: int| inputs[i]@)
}

/// The views of a list of outputs, in the same order.
pub open spec fn output_views(outputs: Seq<TxOutput>) -> Seq<TxOutputView> {
    Seq::new(outputs.len(), |i: int| outputs[i]@)
}

impl View for LegacyTransaction {
    type V = TransactionView;

    open spec fn view(&self) -> TransactionView {
        TransactionView {
            version: self.version,
            inputs: input_views(self.inputs@),
            outputs: output_views(self.outputs@),
            lock_time: self.lock_time,
        }
    }
}

impl View for LegacyTransactionBuilder {
    type V = TransactionView;

    open spec fn view(&self) -> TransactionView {
        TransactionView {
            version: self.version,
            inputs: input_views(self.inputs@),
            outputs: output_views(self.outputs@),
            lock_time: self.lock_time,
        }
    }
}

/// The transaction that a builder starts from: version 1, no inputs, no
/// outputs, lock time 0.
pub open spec fn initial_transaction() -> TransactionView {
    TransactionView { version: 1, inputs: Seq::empty(), outputs: Seq::empty(), lock_time: 0 }
}

impl LegacyTransaction {
    /// A builder that holds the default fields.
    pub fn builder() -> (builder: LegacyTransactionBuilder)
        ensures
            builder@ == initial_transaction(),
    {
        LegacyTransactionBuilder::default()
    }
}

impl Default for LegacyTransactionBuilder {
    fn default() -> (builder: Self)
        ensures
            builder@ == initial_transaction(),
    {
        let builder = LegacyTransactionBuilder {
            version: 1,
            inputs: Vec::new(),
            outputs: Vec::new(),
            lock_time: 0,
        };
        assert(builder@.inputs =~= Seq::empty());
        assert(builder@.outputs =~= Seq::empty());
        builder
    }
}

impl LegacyTransactionBuilder {
    /// A builder that holds the default fields.
    pub fn new() -> (builder: Self)
        ensures
            builder@ == initial_transaction(),
    {
        LegacyTransactionBuilder::default()
    }

    /// Sets the version and leaves the rest as it is.
    pub fn version(self, version: i32) -> (builder: Self)
        ensures
            builder@ == (TransactionView { version, ..self@ }),
    {
        let mut builder = self;
        builder.version = version;
        builder
    }

    /// Appends `input` after the inputs added so far.
    pub fn add_input(self, input: TxInput) -> (builder: Self)
        ensures
            builder@ == (TransactionView { inputs: self@.inputs.push(input@), ..self@ }),
    {
        let mut builder = self;
        builder.inputs.push(input);
        assert(builder@.inputs =~= self@.inputs.push(input@));
        builder
    }

    /// Appends `output` after the outputs added so far.
    pub fn add_output(self, output: TxOutput) -> (builder: Self)
        ensures
            builder@ == (TransactionView { outputs: self@.outputs.push(output@), ..self@ }),
    {
        let mut builder = self;
        builder.outputs.push(output);
        assert(builder@.outputs =~= self@.outputs.push(output@));
        builder
    }

    /// Sets the lock time and leaves the rest as it is.
    pub fn lock_time(self, lock_time: u32) -> (builder: Self)
        ensures
            builder@ == (TransactionView { lock_time, ..self@ }),
    {
        let mut builder = self;
        builder.lock_time = lock_time;
        builder
    }

    /// The transaction that holds exactly the fields collected so far.
    pub fn build(self) -> (transaction: LegacyTransaction)
        ensures
            transaction@ == self@,
    {
        LegacyTransaction {
            outputs: self.outputs,
            version: self.version,
            inputs: self.inputs,
            lock_time: self.lock_time,
        }
    }
}

} // verus!
