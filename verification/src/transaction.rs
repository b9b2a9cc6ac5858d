//! Transactions and the payloads they carry.

use vstd::prelude::*;
use crate::api::codec::encode_element;
use crate::api::element::DataElement;
use crate::crypto::hash;
use crate::crypto::key::{PublicKey, Signature};
use crate::serializer::format::{
    encode_hash, encode_string, encode_u64, string_fits, MAX_STRING_SIZE,
};
use crate::serializer::writer::Writer;

verus! {

/// Largest number of transfers, or of assets in a contract call, that the
/// one-byte count of a payload can announce.
pub const MAX_PAYLOAD_ITEMS: usize = 255;

/// An amount of one asset sent to one recipient.
#[derive(Clone, Copy, Debug, PartialEq, Eq)]
pub struct Transfer {
    pub amount: u64,
    pub asset: hash::Hash,
    pub to: PublicKey,
}

/// A call into a deployed contract.
#[derive(Debug, PartialEq, Eq)]
pub struct CallContractTx {
    /// The contract that is called.
    pub contract: hash::Hash,
    /// The assets, with their amounts, that the call commits, as declared.
    pub assets: Vec<(hash::Hash, u64)>,
    /// The arguments of the call.
    pub params: DataElement,
}

/// What a transaction does.
#[derive(Debug, PartialEq, Eq)]
pub enum TransactionType {
    /// Destroys an amount of an asset.
    Burn(hash::Hash, u64),
    /// Sends assets to recipients.
    Transfer(Vec<Transfer>),
    /// Calls a contract.
    CallContract(CallContractTx),
    /// Deploys the code of a contract.
    DeployContract(String),
}

/// Asset, amount, recipient.
pub open spec fn encode_transfer(transfer: Transfer) -> Seq<u8> {
    encode_hash(transfer.asset@) + encode_u64(transfer.amount) + transfer.to@
}

/// The binary forms of the transfers from position `from` on.
pub open spec fn encode_transfers(transfers: Seq<Transfer>, from: nat) -> Seq<u8>
    decreases transfers.len() - from,
{
    if from >= transfers.len() {
        Seq::empty()
    } else {
        encode_transfer(transfers[from as int]) + encode_transfers(transfers, from + 1)
    }
}

/// The binary forms of the declared assets from position `from` on: each
/// asset, then its amount.
pub open spec fn encode_assets(assets: Seq<(hash::Hash, u64)>, from: nat) -> Seq<u8>
    decreases assets.len() - from,
{
    if from >= assets.len() {
        Seq::empty()
    } else {
        encode_hash(assets[from as int].0@) + encode_u64(assets[from as int].1) + encode_assets(
            assets,
            from + 1,
        )
    }
}

impl TransactionType {
    /// Whether the payload has a binary form: counts and text must fit
    /// their one-byte prefixes, and call arguments must be encodable.
    pub open spec fn encodable(&self) -> bool {
        match self {
            TransactionType::Burn(_, _) => true,
            TransactionType::Transfer(transfers) => transfers@.len() <= MAX_PAYLOAD_ITEMS,
            TransactionType::CallContract(call) => call.assets@.len() <= MAX_PAYLOAD_ITEMS
                && call.params@.encodable(),
            TransactionType::DeployContract(code) => string_fits(code@),
        }
    }

    /// The binary form of the payload: a tag byte (0 burn, 1 transfer,
    /// 2 contract call, 3 contract deployment), then the fields.
    pub open spec fn encoding(&self) -> Seq<u8> {
        match self {
            TransactionType::Burn(asset, amount) => seq![0u8] + encode_hash(asset@) + encode_u64(
                *amount,
            ),
            TransactionType::Transfer(transfers) => seq![1u8, transfers@.len() as u8]
                + encode_transfers(transfers@, 0),
            TransactionType::CallContract(call) => seq![2u8] + encode_hash(call.contract@)
                + seq![call.assets@.len() as u8] + encode_assets(call.assets@, 0) + encode_element(
                call.params@,
            ),
            TransactionType::DeployContract(code) => seq![3u8] + encode_string(code@),
        }
    }

    /// Whether [`TransactionType::write`] accepts this payload.
    pub fn is_encodable(&self) -> (encodable: bool)
        ensures
            encodable == self.encodable(),
    {
        match self {
            TransactionType::Burn(_, _) => true,
            TransactionType::Transfer(transfers) => transfers.len() <= MAX_PAYLOAD_ITEMS,
            TransactionType::CallContract(call) => call.assets.len() <= MAX_PAYLOAD_ITEMS
                && call.params.is_encodable(),
            TransactionType::DeployContract(code) => code.as_str().as_bytes().len()
                <= MAX_STRING_SIZE,
        }
    }

    /// Appends the binary form of the payload.
    pub fn write(&self, writer: &mut Writer)
        requires
            self.encodable(),
        ensures
            final(writer)@ == old(writer)@ + self.encoding(),
    {
        let ghost whole = old(writer)@ + self.encoding();
        match self {
            TransactionType::Burn(asset, amount) => {
                writer.write_u8(0);
                writer.write_hash(asset);
                writer.write_u64(amount);
                assert(writer@ =~= whole);
            },
            TransactionType::Transfer(transfers) => {
                writer.write_u8(1);
                writer.write_u8(transfers.len() as u8);
                assert(writer@ + encode_transfers(transfers@, 0) =~= whole);
                let mut i: usize = 0;
                while i < transfers.len()
                    invariant
                        i <= transfers.len(),
                        writer@ + encode_transfers(transfers@, i as nat) == whole,
                    decreases transfers.len() - i,
                {
                    let ghost so_far = writer@;
                    let transfer = &transfers[i];
                    writer.write_hash(&transfer.asset);
                    writer.write_u64(&transfer.amount);
                    transfer.to.write(writer);
                    assert(writer@ + encode_transfers(transfers@, (i + 1) as nat) =~= so_far
                        + encode_transfers(transfers@, i as nat));
                    i += 1;
                }
                assert(writer@ + encode_transfers(transfers@, i as nat) =~= writer@);
            },
            TransactionType::CallContract(call) => {
                writer.write_u8(2);
                writer.write_hash(&call.contract);
                writer.write_u8(call.assets.len() as u8);
                let ghost arguments = encode_element(call.params@);
                assert(writer@ + encode_assets(call.assets@, 0) + arguments =~= whole);
                let mut i: usize = 0;
                while i < call.assets.len()
                    invariant
                        i <= call.assets.len(),
                        writer@ + encode_assets(call.assets@, i as nat) + arguments == whole,
                    decreases call.assets.len() - i,
                {
                    let ghost so_far = writer@;
                    writer.write_hash(&call.assets[i].0);
                    writer.write_u64(&call.assets[i].1);
                    assert(writer@ + encode_assets(call.assets@, (i + 1) as nat) =~= so_far
                        + encode_assets(call.assets@, i as nat));
                    i += 1;
                }
                assert(writer@ + encode_assets(call.assets@, i as nat) =~= writer@);
                call.params.write(writer);
            },
            TransactionType::DeployContract(code) => {
                writer.write_u8(3);
                writer.write_string(code);
                assert(writer@ =~= whole);
            },
        }
    }
}

/// A signed transaction. It comes out of
/// [`TransactionBuilder::build`](crate::transaction_builder::TransactionBuilder::build)
/// complete and is not changed afterwards.
#[derive(Debug, PartialEq, Eq)]
pub struct Transaction {
    owner: PublicKey,
    data: TransactionType,
    fee: u64,
    nonce: u64,
    signature: Signature,
}

impl Transaction {
    /// The account that pays and signs.
    pub closed spec fn owner(&self) -> PublicKey {
        self.owner
    }

    /// The payload.
    pub closed spec fn data(&self) -> TransactionType {
        self.data
    }

    /// The fee that the signed bytes embed.
    pub closed spec fn fee(&self) -> u64 {
        self.fee
    }

    /// The sequence number of the transaction for its owner.
    pub closed spec fn nonce(&self) -> u64 {
        self.nonce
    }

    /// The owner's signature.
    pub closed spec fn signature(&self) -> Signature {
        self.signature
    }

    pub(crate) fn new(
        owner: PublicKey,
        data: TransactionType,
        fee: u64,
        nonce: u64,
        signature: Signature,
    ) -> (tx: Transaction)
        ensures
            tx.owner() == owner,
            tx.data() == data,
            tx.fee() == fee,
            tx.nonce() == nonce,
            tx.signature() == signature,
    {
        Transaction { owner, data, fee, nonce, signature }
    }

    pub fn get_owner(&self) -> (owner: &PublicKey)
        ensures
            *owner == self.owner(),
    {
        &self.owner
    }

    pub fn get_data(&self) -> (data: &TransactionType)
        ensures
            *data == self.data(),
    {
        &self.data
    }

    pub fn get_fee(&self) -> (fee: u64)
        ensures
            fee == self.fee(),
    {
        self.fee
    }

    pub fn get_nonce(&self) -> (nonce: u64)
        ensures
            nonce == self.nonce(),
    {
        self.nonce
    }

    pub fn get_signature(&self) -> (signature: &Signature)
        ensures
            *signature == self.signature(),
    {
        &self.signature
    }
}

} // verus!
