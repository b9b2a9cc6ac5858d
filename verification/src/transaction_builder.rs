//! Assembling, pricing and signing one transaction.
//!
//! The fee is part of the signed bytes, and it depends on how many bytes
//! are signed. The builder therefore encodes the owner and the payload
//! first, prices the size that the finished transaction will have, appends
//! the fee, and only then has the bytes signed.

use vstd::prelude::*;
use crate::crypto::hash;
use crate::crypto::key::{PublicKey, Signature, SIGNATURE_LENGTH};
use crate::fee::{calculate_tx_fee, scaled_fee, tx_fee, FeeMultiplier};
use crate::serializer::endian::lemma_be_bytes_len;
use crate::serializer::format::encode_u64;
use crate::serializer::writer::Writer;
use crate::transaction::{Transaction, TransactionType, Transfer};

verus! {

/// Width in bytes of the fee field of a transaction.
pub const FEE_FIELD_SIZE: usize = 8;

/// Why a builder refuses to produce a transaction.
#[derive(Clone, Copy, Debug, PartialEq, Eq, Structural)]
pub enum WalletError {
    /// The signing key is not the key of the declared owner.
    InvalidKeyPair,
    /// A transfer payload lists no transfer.
    ExpectedOneTx,
    /// A transfer names the owner as its recipient.
    TxOwnerIsReceiver,
}

/// The totals per asset, as a mapping from the asset's bytes.
pub type Spent = Map<Seq<u8>, nat>;

/// The totals after `amount` more of `asset` is committed.
pub open spec fn credit(totals: Spent, asset: Seq<u8>, amount: nat) -> Spent {
    totals.insert(
        asset,
        if totals.contains_key(asset) {
            totals[asset] + amount
        } else {
            amount
        },
    )
}

/// What the first `count` transfers commit: amounts of one asset add up.
pub open spec fn spent_in_transfers(transfers: Seq<Transfer>, count: nat) -> Spent
    decreases count,
{
    if count == 0 || count > transfers.len() {
        Map::empty()
    } else {
        credit(
            spent_in_transfers(transfers, (count - 1) as nat),
            transfers[count - 1].asset@,
            transfers[count - 1].amount as nat,
        )
    }
}

/// What the first `count` declared assets of a contract call commit: a
/// later declaration of an asset replaces an earlier one.
pub open spec fn spent_in_assets(assets: Seq<(hash::Hash, u64)>, count: nat) -> Spent
    decreases count,
{
    if count == 0 || count > assets.len() {
        Map::empty()
    } else {
        spent_in_assets(assets, (count - 1) as nat).insert(
            assets[count - 1].0@,
            assets[count - 1].1 as nat,
        )
    }
}

/// What a payload commits, per asset.
pub open spec fn spent_by(data: TransactionType) -> Spent {
    match data {
        TransactionType::Burn(asset, amount) => Map::empty().insert(asset@, amount as nat),
        TransactionType::CallContract(call) => spent_in_assets(call.assets@, call.assets@.len()),
        TransactionType::Transfer(transfers) => spent_in_transfers(transfers@, transfers@.len()),
        TransactionType::DeployContract(_) => Map::empty(),
    }
}

/// Whether `totals` lists exactly the assets of `spent`, each once and with
/// its total.
pub open spec fn lists(totals: Seq<(hash::Hash, u64)>, spent: Spent) -> bool {
    &&& forall|i: int, j: int|
        0 <= i < j < totals.len() ==> (#[trigger] totals[i]).0@ != (#[trigger] totals[j]).0@
    &&& forall|i: int|
        0 <= i < totals.len() ==> spent.contains_key((#[trigger] totals[i]).0@)
            && spent[totals[i].0@] == totals[i].1
    &&& forall|asset: Seq<u8>| #[trigger]
        spent.contains_key(asset) ==> exists|i: int|
            0 <= i < totals.len() && (#[trigger] totals[i]).0@ == asset
}

/// Whether every total fits in 64 bits.
pub open spec fn fits(spent: Spent) -> bool {
    forall|asset: Seq<u8>| #[trigger] spent.contains_key(asset) ==> spent[asset] <= u64::MAX
}

/// An asset that the first `fewer` transfers commit is committed by the
/// first `more` transfers too, with a total that is no smaller.
pub proof fn lemma_spent_in_transfers_grows(
    transfers: Seq<Transfer>,
    fewer: nat,
    more: nat,
    asset: Seq<u8>,
)
    requires
        fewer <= more <= transfers.len(),
        spent_in_transfers(transfers, fewer).contains_key(asset),
    ensures
        spent_in_transfers(transfers, more).contains_key(asset),
        spent_in_transfers(transfers, fewer)[asset] <= spent_in_transfers(transfers, more)[asset],
    decreases more,
{
    if fewer < more {
        lemma_spent_in_transfers_grows(transfers, fewer, (more - 1) as nat, asset);
    }
}

/// Totals that are listed in 64-bit amounts fit in 64 bits.
pub proof fn lemma_listed_fits(totals: Seq<(hash::Hash, u64)>, spent: Spent)
    requires
        lists(totals, spent),
    ensures
        fits(spent),
{
    assert forall|asset: Seq<u8>| #[trigger] spent.contains_key(asset) implies spent[asset]
        <= u64::MAX by {
        let i = choose|i: int| 0 <= i < totals.len() && (#[trigger] totals[i]).0@ == asset;
        assert(spent[totals[i].0@] == totals[i].1);
    }
}

/// Listing a new asset after the others lists the totals with that asset
/// added.
proof fn lemma_lists_push(
    totals: Seq<(hash::Hash, u64)>,
    spent: Spent,
    asset: hash::Hash,
    amount: u64,
)
    requires
        lists(totals, spent),
        forall|i: int| 0 <= i < totals.len() ==> (#[trigger] totals[i]).0@ != asset@,
    ensures
        !spent.contains_key(asset@),
        lists(totals.push((asset, amount)), spent.insert(asset@, amount as nat)),
{
    let after = totals.push((asset, amount));
    let next = spent.insert(asset@, amount as nat);
    if spent.contains_key(asset@) {
        let i = choose|i: int| 0 <= i < totals.len() && (#[trigger] totals[i]).0@ == asset@;
        assert(false);
    }
    assert forall|i: int| 0 <= i < after.len() implies next.contains_key(
        (#[trigger] after[i]).0@,
    ) && next[after[i].0@] == after[i].1 by {
        if i < totals.len() {
            assert(after[i] == totals[i]);
        }
    }
    assert forall|key: Seq<u8>| #[trigger] next.contains_key(key) implies exists|i: int|
        0 <= i < after.len() && (#[trigger] after[i]).0@ == key by {
        if key == asset@ {
            assert(after[totals.len() as int].0@ == key);
        } else {
            let i = choose|i: int| 0 <= i < totals.len() && (#[trigger] totals[i]).0@ == key;
            assert(after[i].0@ == key);
        }
    }
    assert forall|i: int, j: int| 0 <= i < j < after.len() implies (#[trigger] after[i]).0@ != (
    #[trigger] after[j]).0@ by {
        assert(after[i] == totals[i]);
        if j < totals.len() {
            assert(after[j] == totals[j]);
        }
    }
}

/// Replacing the amount listed for an asset lists the totals with that
/// asset's total replaced.
proof fn lemma_lists_update(
    totals: Seq<(hash::Hash, u64)>,
    spent: Spent,
    at: int,
    asset: hash::Hash,
    amount: u64,
)
    requires
        lists(totals, spent),
        0 <= at < totals.len(),
        totals[at].0@ == asset@,
    ensures
        lists(totals.update(at, (asset, amount)), spent.insert(asset@, amount as nat)),
{
    let after = totals.update(at, (asset, amount));
    let next = spent.insert(asset@, amount as nat);
    assert forall|i: int| 0 <= i < after.len() implies next.contains_key(
        (#[trigger] after[i]).0@,
    ) && next[after[i].0@] == after[i].1 by {
        if i != at {
            assert(after[i] == totals[i]);
            assert(totals[i].0@ != totals[at].0@);
        }
    }
    assert forall|key: Seq<u8>| #[trigger] next.contains_key(key) implies exists|i: int|
        0 <= i < after.len() && (#[trigger] after[i]).0@ == key by {
        if key == asset@ {
            assert(after[at].0@ == key);
        } else {
            let i = choose|i: int| 0 <= i < totals.len() && (#[trigger] totals[i]).0@ == key;
            assert(after[i].0@ == key);
        }
    }
    assert forall|i: int, j: int| 0 <= i < j < after.len() implies (#[trigger] after[i]).0@ != (
    #[trigger] after[j]).0@ by {
        assert(after[i].0@ == totals[i].0@);
        assert(after[j].0@ == totals[j].0@);
    }
}

/// The fee and the signed bytes depend on nothing but the owner, the
/// payload and the multiplier: builders that agree on these agree on the
/// fee, however often and in whatever order it is asked for.
pub proof fn lemma_fee_is_determined(one: TransactionBuilder, other: TransactionBuilder)
    requires
        one.owner() == other.owner(),
        one.data() == other.data(),
        one.fee_multiplier() == other.fee_multiplier(),
    ensures
        one.fee() == other.fee(),
        one.final_encoding() == other.final_encoding(),
{
}

/// The size that is priced is the size of the signed bytes plus that of
/// the signature.
pub proof fn lemma_priced_size(builder: TransactionBuilder)
    ensures
        builder.signed_size() == builder.final_encoding().len() + SIGNATURE_LENGTH,
{
    lemma_be_bytes_len(builder.fee() as u64 as nat, 8);
}

/// The position of `asset` among the totals, if it is there.
fn find_asset(totals: &Vec<(hash::Hash, u64)>, asset: &hash::Hash) -> (found: Option<usize>)
    ensures
        match found {
            Some(index) => index < totals.len() && totals[index as int].0@ == asset@,
            None => forall|i: int| 0 <= i < totals.len() ==> (#[trigger] totals[i]).0@ != asset@,
        },
{
    let mut i: usize = 0;
    while i < totals.len()
        invariant
            i <= totals.len(),
            forall|j: int| 0 <= j < i ==> (#[trigger] totals[j]).0@ != asset@,
        decreases totals.len() - i,
    {
        if totals[i].0 == *asset {
            return Some(i);
        }
        i += 1;
    }
    None
}

/// Holds what a transaction needs before it is signed.
pub struct TransactionBuilder {
    owner: PublicKey,
    data: TransactionType,
    fee_multiplier: FeeMultiplier,
}

impl TransactionBuilder {
    /// The account that will pay and sign.
    pub closed spec fn owner(&self) -> PublicKey {
        self.owner
    }

    /// The payload.
    pub closed spec fn data(&self) -> TransactionType {
        self.data
    }

    /// The factor applied to the base fee.
    pub closed spec fn fee_multiplier(&self) -> FeeMultiplier {
        self.fee_multiplier
    }

    /// The owner's key followed by the payload: what is encoded before the
    /// fee is known.
    pub open spec fn base_encoding(&self) -> Seq<u8> {
        self.owner()@ + self.data().encoding()
    }

    /// The size that is priced: the signature, the fee field and the base
    /// encoding.
    pub open spec fn signed_size(&self) -> nat {
        SIGNATURE_LENGTH as nat + FEE_FIELD_SIZE as nat + self.base_encoding().len()
    }

    /// Whether the transaction can be encoded and priced: the payload has
    /// a binary form and the priced size is one that the machine can hold.
    pub open spec fn encodable(&self) -> bool {
        self.data().encodable() && self.signed_size() <= usize::MAX
    }

    /// The fee: the base fee for the priced size, scaled by the multiplier
    /// and truncated.
    pub open spec fn fee(&self) -> nat {
        scaled_fee(
            tx_fee(self.signed_size()),
            self.fee_multiplier().numerator(),
            self.fee_multiplier().denominator(),
        )
    }

    /// The base encoding followed by the fee: exactly the bytes that are
    /// signed.
    pub open spec fn final_encoding(&self) -> Seq<u8> {
        self.base_encoding() + encode_u64(self.fee() as u64)
    }

    /// The first reason, if any, for which `build` refuses to sign with
    /// the key pair whose public key is `signer`.
    pub open spec fn rejection(&self, signer: PublicKey) -> Option<WalletError> {
        if signer@ != self.owner()@ {
            Some(WalletError::InvalidKeyPair)
        } else if self.data() matches TransactionType::Transfer(transfers) && transfers@.len()
            == 0 {
            Some(WalletError::ExpectedOneTx)
        } else if self.data() matches TransactionType::Transfer(transfers) && exists|i: int|
            0 <= i < transfers@.len() && (#[trigger] transfers@[i]).to@ == self.owner()@ {
            Some(WalletError::TxOwnerIsReceiver)
        } else {
            None
        }
    }

    /// What this builder's payload commits, per asset.
    pub open spec fn spent(&self) -> Spent {
        spent_by(self.data())
    }

    /// A builder for a transaction of `owner` with the given payload.
    pub fn new(owner: PublicKey, data: TransactionType, fee_multiplier: FeeMultiplier) -> (builder:
        TransactionBuilder)
        ensures
            builder.owner() == owner,
            builder.data() == data,
            builder.fee_multiplier() == fee_multiplier,
    {
        TransactionBuilder { owner, data, fee_multiplier }
    }

    /// Encodes the owner and the payload.
    fn serialize(&self) -> (writer: Writer)
        requires
            self.data().encodable(),
        ensures
            writer@ == self.base_encoding(),
    {
        let mut writer = Writer::new();
        self.owner.write(&mut writer);
        self.data.write(&mut writer);
        assert(writer@ =~= self.base_encoding());
        writer
    }

    /// Prices the transaction whose base encoding `writer` holds.
    fn estimate_fees_internal(&self, writer: &Writer) -> (fee: u64)
        requires
            writer@ == self.base_encoding(),
            self.signed_size() <= usize::MAX,
        ensures
            fee == self.fee(),
    {
        let total_bytes = SIGNATURE_LENGTH + FEE_FIELD_SIZE + writer.total_write();
        self.fee_multiplier.apply(calculate_tx_fee(total_bytes))
    }

    /// The total committed per asset, each asset once; nothing if a total
    /// does not fit in 64 bits.
    ///
    /// Transfers of one asset add up. Of the assets that a contract call
    /// declares, a later declaration replaces an earlier one of the same
    /// asset: those amounts are not added.
    pub fn checked_total_spent(&self) -> (totals: Option<Vec<(hash::Hash, u64)>>)
        ensures
            match totals {
                Some(totals) => fits(self.spent()) && lists(totals@, self.spent()),
                None => !fits(self.spent()),
            },
    {
        let mut total_spent: Vec<(hash::Hash, u64)> = Vec::new();
        match &self.data {
            TransactionType::Burn(asset, amount) => {
                proof {
                    lemma_lists_push(total_spent@, Map::empty(), *asset, *amount);
                }
                total_spent.push((*asset, *amount));
            },
            TransactionType::CallContract(call) => {
                let mut i: usize = 0;
                while i < call.assets.len()
                    invariant
                        i <= call.assets.len(),
                        lists(total_spent@, spent_in_assets(call.assets@, i as nat)),
                    decreases call.assets.len() - i,
                {
                    let asset = call.assets[i].0;
                    let amount = call.assets[i].1;
                    let ghost before = spent_in_assets(call.assets@, i as nat);
                    match find_asset(&total_spent, &asset) {
                        Some(at) => {
                            proof {
                                lemma_lists_update(total_spent@, before, at as int, asset, amount);
                            }
                            total_spent[at] = (asset, amount);
                        },
                        None => {
                            proof {
                                lemma_lists_push(total_spent@, before, asset, amount);
                            }
                            total_spent.push((asset, amount));
                        },
                    }
                    i += 1;
                }
            },
            TransactionType::Transfer(txs) => {
                let mut i: usize = 0;
                while i < txs.len()
                    invariant
                        i <= txs.len(),
                        self.data == TransactionType::Transfer(*txs),
                        lists(total_spent@, spent_in_transfers(txs@, i as nat)),
                    decreases txs.len() - i,
                {
                    let tx = &txs[i];
                    let ghost before = spent_in_transfers(txs@, i as nat);
                    match find_asset(&total_spent, &tx.asset) {
                        Some(at) => {
                            let sum = match total_spent[at].1.checked_add(tx.amount) {
                                Some(sum) => sum,
                                None => {
                                    proof {
                                        lemma_spent_in_transfers_grows(
                                            txs@,
                                            (i + 1) as nat,
                                            txs@.len(),
                                            tx.asset@,
                                        );
                                    }
                                    return None;
                                },
                            };
                            proof {
                                lemma_lists_update(total_spent@, before, at as int, tx.asset, sum);
                            }
                            total_spent[at] = (tx.asset, sum);
                        },
                        None => {
                            proof {
                                lemma_lists_push(total_spent@, before, tx.asset, tx.amount);
                            }
                            total_spent.push((tx.asset, tx.amount));
                        },
                    }
                    i += 1;
                }
            },
            TransactionType::DeployContract(_) => {},
        }
        proof {
            lemma_listed_fits(total_spent@, self.spent());
        }
        Some(total_spent)
    }

    /// The total committed per asset, each asset once. Every total must fit
    /// in 64 bits;
    /// [`TransactionBuilder::checked_total_spent`] tells whether they do.
    pub fn total_spent(&self) -> (totals: Vec<(hash::Hash, u64)>)
        requires
            fits(self.spent()),
        ensures
            lists(totals@, self.spent()),
    {
        self.checked_total_spent().unwrap()
    }

    /// Whether [`TransactionBuilder::estimate_fees`] accepts this builder.
    pub fn is_encodable(&self) -> (encodable: bool)
        ensures
            encodable == self.encodable(),
    {
        if !self.data.is_encodable() {
            return false;
        }
        let writer = self.serialize();
        writer.total_write() <= usize::MAX - SIGNATURE_LENGTH - FEE_FIELD_SIZE
    }

    /// The fee that `build` would embed. The builder is left as it is, so
    /// asking again gives the same answer.
    pub fn estimate_fees(&self) -> (fee: u64)
        requires
            self.encodable(),
        ensures
            fee == self.fee(),
    {
        let writer = self.serialize();
        self.estimate_fees_internal(&writer)
    }

    /// Checks what `build` checks before it signs: that `signer` is the
    /// owner's key, that a transfer payload lists a transfer, and that no
    /// transfer goes to the owner.
    pub fn validate(&self, signer: &PublicKey) -> (checked: Result<(), WalletError>)
        ensures
            match checked {
                Ok(_) => self.rejection(*signer) is None,
                Err(e) => self.rejection(*signer) == Some(e),
            },
    {
        if *signer != self.owner {
            return Err(WalletError::InvalidKeyPair);
        }
        if let TransactionType::Transfer(txs) = &self.data {
            if txs.len() == 0 {
                return Err(WalletError::ExpectedOneTx);
            }
            let mut i: usize = 0;
            while i < txs.len()
                invariant
                    0 < txs.len(),
                    i <= txs.len(),
                    signer@ == self.owner@,
                    self.data == TransactionType::Transfer(*txs),
                    forall|j: int| 0 <= j < i ==> (#[trigger] txs@[j]).to@ != self.owner@,
                decreases txs.len() - i,
            {
                if txs[i].to == self.owner {
                    return Err(WalletError::TxOwnerIsReceiver);
                }
                i += 1;
            }
        }
        Ok(())
    }

    /// Checks the transaction, prices it, and has `sign` sign the final
    /// encoding. `signer` is the public key of the key pair that `sign`
    /// signs with. The nonce of the transaction is zero.
    pub fn build<S: FnOnce(Vec<u8>) -> Signature>(self, signer: &PublicKey, sign: S) -> (built:
        Result<Transaction, WalletError>)
        requires
            self.rejection(*signer) is None ==> self.encodable(),
            self.rejection(*signer) is None ==> forall|bytes: Vec<u8>|
                bytes@ == self.final_encoding() ==> call_requires(sign, (bytes,)),
        ensures
            match built {
                Ok(tx) => {
                    &&& self.rejection(*signer) is None
                    &&& tx.owner() == self.owner()
                    &&& tx.data() == self.data()
                    &&& tx.fee() == self.fee()
                    &&& tx.nonce() == 0
                    &&& exists|bytes: Vec<u8>|
                        bytes@ == self.final_encoding() && call_ensures(
                            sign,
                            (bytes,),
                            tx.signature(),
                        )
                },
                Err(e) => self.rejection(*signer) == Some(e),
            },
    {
        match self.validate(signer) {
            Ok(()) => {},
            Err(e) => {
                return Err(e);
            },
        }
        let mut writer = self.serialize();
        let fee = self.estimate_fees_internal(&writer);
        writer.write_u64(&fee);

        let nonce: u64 = 0;
        let bytes = writer.bytes();
        let signature = sign(bytes);
        let tx = Transaction::new(self.owner, self.data, fee, nonce, signature);
        Ok(tx)
    }
}

} // verus!
