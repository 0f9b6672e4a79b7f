//! The wallet: a single secret key, the pay-to-pubkey-hash address it
//! controls, and the seeding of a transaction builder from its coins.

use vstd::prelude::*;
use crate::address::{Address, AddressType};
use crate::hash::hash160_of;
use crate::incomplete_tx::{IncompleteTx, Utxo};
use crate::outputs::{OutputDesc, P2PKHOutput};
use crate::secp::{derive_pub_key, is_valid_secret_key, pubkey_of, secret_key_valid};
use crate::tx::{TxOutpoint, tx_hash_of_hex, tx_hex_to_hash};

verus! {

#[derive(Clone, Copy, Debug, PartialEq, Eq, Structural)]
pub enum WalletError {
    InvalidSecretKey,
}

/// An unspent coin as an index reports it: the hex transaction id, the
/// output position, and its value.
#[derive(Clone, Debug)]
pub struct UtxoEntry {
    pub txid: String,
    pub vout: u32,
    pub satoshis: u64,
    pub confirmations: u32,
}

pub struct Wallet {
    pub secret_key: [u8; 32],
    pub address: Address,
}

/// The summed values of a coin list.
pub open spec fn sum_satoshis(utxos: Seq<UtxoEntry>) -> int
    decreases utxos.len(),
{
    if utxos.len() == 0 {
        0int
    } else {
        utxos.first().satoshis + sum_satoshis(utxos.drop_first())
    }
}

proof fn lemma_sum_satoshis_push(s: Seq<UtxoEntry>, u: UtxoEntry)
    ensures
        sum_satoshis(s.push(u)) == sum_satoshis(s) + u.satoshis,
    decreases s.len(),
{
    if s.len() == 0 {
        assert(s.push(u).drop_first() =~= s);
    } else {
        assert(s.push(u).drop_first() =~= s.drop_first().push(u));
        lemma_sum_satoshis_push(s.drop_first(), u);
    }
}

proof fn lemma_sum_satoshis_nonneg(s: Seq<UtxoEntry>)
    ensures
        sum_satoshis(s) >= 0,
    decreases s.len(),
{
    if s.len() > 0 {
        lemma_sum_satoshis_nonneg(s.drop_first());
    }
}

/// A prefix of a coin list never sums to more than the whole list.
proof fn lemma_sum_satoshis_prefix(s: Seq<UtxoEntry>, k: int)
    requires
        0 <= k <= s.len(),
    ensures
        sum_satoshis(s.take(k)) <= sum_satoshis(s),
    decreases k,
{
    if k == 0 {
        assert(s.take(0) =~= Seq::<UtxoEntry>::empty());
        lemma_sum_satoshis_nonneg(s);
    } else {
        assert(s.take(k).drop_first() =~= s.drop_first().take(k - 1));
        lemma_sum_satoshis_prefix(s.drop_first(), k - 1);
    }
}

impl Wallet {
    /// Accepts a 32-byte secret that is a valid scalar and derives the
    /// main-prefix pay-to-pubkey-hash address of its public key.
    pub fn from_secret(secret: &[u8]) -> (r: Result<Wallet, WalletError>)
        ensures
            r is Ok <==> secret@.len() == 32 && is_valid_secret_key(secret@),
            r is Ok ==> {
                let w = r->Ok_0;
                &&& w.secret_key@ == secret@
                &&& w.address.addr_type == AddressType::P2PKH
                &&& w.address.bytes@ == hash160_of(pubkey_of(secret@))
                &&& w.address.prefix@ == "bitcoincash"@
            },
    {
        if secret.len() != 32 {
            return Err(WalletError::InvalidSecretKey);
        }
        let mut key = [0u8; 32];
        let mut i: usize = 0;
        while i < 32
            invariant
                secret@.len() == 32,
                i <= 32,
                forall|j: int| 0 <= j < i ==> key@[j] == secret@[j],
            decreases 32 - i,
        {
            key[i] = secret[i];
            i += 1;
        }
        proof {
            assert(key@ =~= secret@);
        }
        if !secret_key_valid(&key) {
            return Err(WalletError::InvalidSecretKey);
        }
        let pub_key = derive_pub_key(&key);
        let address = Address::from_pub_key("bitcoincash", pub_key.as_slice());
        Ok(Wallet { secret_key: key, address })
    }

    pub fn address(&self) -> (r: &Address)
        ensures
            r == &self.address,
    {
        &self.address
    }

    /// Seeds a builder with the wallet's coins, each as a
    /// pay-to-pubkey-hash signing context under the wallet's own key,
    /// and returns it with the summed balance. Fails exactly when the
    /// wallet's key is not a valid scalar, a coin's transaction id is
    /// not 64 hex digits, or the balance overflows.
    pub fn init_transaction(&self, utxos: &Vec<UtxoEntry>) -> (r: Option<(IncompleteTx, u64)>)
        ensures
            r is Some <==> is_valid_secret_key(self.secret_key@) && (forall|i: int|
                0 <= i < utxos@.len() ==> (#[trigger] tx_hash_of_hex(utxos@[i].txid@)) is Some)
                && sum_satoshis(utxos@) <= u64::MAX,
            match r {
                Some((b, balance)) => {
                    &&& b.version == 1
                    &&& b.lock_time == 0
                    &&& b.outputs@.len() == 0
                    &&& b.inputs@.len() == utxos@.len()
                    &&& balance as int == sum_satoshis(utxos@)
                    &&& forall|i: int|
                        0 <= i < utxos@.len() ==> {
                            let u = #[trigger] b.inputs@[i];
                            &&& u.sequence == 0xffff_ffff
                            &&& u.key@ == self.secret_key@
                            &&& Some(u.outpoint.tx_hash@) == tx_hash_of_hex(utxos@[i].txid@)
                            &&& u.outpoint.output_idx == utxos@[i].vout
                            &&& u.output matches OutputDesc::P2pkh(po) && po.value
                                == utxos@[i].satoshis && po.address == self.address
                        }
                },
                None => true,
            },
    {
        if !secret_key_valid(&self.secret_key) {
            return None;
        }
        let mut build = IncompleteTx::new_simple();
        let mut balance: u64 = 0;
        let mut i: usize = 0;
        while i < utxos.len()
            invariant
                is_valid_secret_key(self.secret_key@),
                i <= utxos@.len(),
                build.version == 1,
                build.lock_time == 0,
                build.outputs@.len() == 0,
                build.inputs@.len() == i,
                balance as int == sum_satoshis(utxos@.take(i as int)),
                forall|j: int|
                    0 <= j < i ==> {
                        let u = #[trigger] build.inputs@[j];
                        &&& u.sequence == 0xffff_ffff
                        &&& u.key@ == self.secret_key@
                        &&& Some(u.outpoint.tx_hash@) == tx_hash_of_hex(utxos@[j].txid@)
                        &&& u.outpoint.output_idx == utxos@[j].vout
                        &&& u.output matches OutputDesc::P2pkh(po) && po.value
                            == utxos@[j].satoshis && po.address == self.address
                    },
            decreases utxos@.len() - i,
        {
            let entry = &utxos[i];
            let tx_hash = match tx_hex_to_hash(entry.txid.as_str()) {
                Some(h) => h,
                None => {
                    proof {
                        assert(tx_hash_of_hex(utxos@[i as int].txid@) is None);
                    }
                    return None;
                },
            };
            if balance > u64::MAX - entry.satoshis {
                proof {
                    lemma_sum_satoshis_push(utxos@.take(i as int), utxos@[i as int]);
                    assert(utxos@.take(i + 1) =~= utxos@.take(i as int).push(utxos@[i as int]));
                    lemma_sum_satoshis_prefix(utxos@, i + 1);
                }
                return None;
            }
            balance = balance + entry.satoshis;
            build.add_utxo(
                Utxo {
                    key: self.secret_key,
                    output: OutputDesc::P2pkh(
                        P2PKHOutput { address: self.address.duplicate(), value: entry.satoshis },
                    ),
                    outpoint: TxOutpoint { tx_hash, output_idx: entry.vout },
                    sequence: 0xffff_ffff,
                },
            );
            i += 1;
            proof {
                lemma_sum_satoshis_push(utxos@.take(i - 1), utxos@[i - 1]);
                assert(utxos@.take(i as int) =~= utxos@.take(i - 1).push(utxos@[i - 1]));
            }
        }
        proof {
            assert(utxos@.take(utxos@.len() as int) =~= utxos@);
            assert forall|j: int|
                0 <= j < utxos@.len() implies (#[trigger] tx_hash_of_hex(
                utxos@[j].txid@,
            )) is Some by {
                assert(Some(build.inputs@[j].outpoint.tx_hash@) == tx_hash_of_hex(
                    utxos@[j].txid@,
                ));
            }
        }
        Some((build, balance))
    }

    /// The minimum output value the network relays.
    pub fn dust_amount(&self) -> (r: u64)
        ensures
            r == 546,
    {
        546
    }
}

} // verus!
