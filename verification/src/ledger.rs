//! The ledger of one asset: account balances and total issuance.
//!
//! An `AssetBook` owns the balances of a single asset class together with
//! the asset's total issuance.  Its well-formedness invariant — the total
//! issuance equals the sum of all account balances — is established by the
//! constructor and preserved by `mint` and `burn`, both of which are atomic:
//! on failure neither the balance nor the issuance changes.

use vstd::prelude::*;
use crate::bytes::{bytes_eq, copy_range};
use crate::errors::BridgeError;
use crate::u256::{U256, u256_max};

verus! {

/// A local account identifier: a fixed-width 32-byte value.
pub struct AccountId {
    bytes: Vec<u8>,
}

impl View for AccountId {
    type V = Seq<u8>;

    closed spec fn view(&self) -> Seq<u8> {
        self.bytes@
    }
}

impl Clone for AccountId {
    fn clone(&self) -> (r: Self)
        ensures
            r@ == self@,
    {
        let r = AccountId { bytes: copy_range(&self.bytes, 0, self.bytes.len()) };
        proof {
            assert(r.bytes@ =~= self.bytes@);
        }
        r
    }
}

/// Convert recipient bytes into a local account identifier.  The conversion
/// is total over well-formed fixed-length encodings and fails on any other
/// input: exactly the 32-byte blobs map to an account.
pub fn bytes_to_account_id(data: &Vec<u8>) -> (r: Option<AccountId>)
    ensures
        r is Some <==> data@.len() == 32,
        r matches Some(a) ==> a@ == data@,
{
    if data.len() == 32 {
        let r = AccountId { bytes: copy_range(data, 0, 32) };
        proof {
            assert(r.bytes@ =~= data@);
        }
        Some(r)
    } else {
        None
    }
}

/// One account's holding of one asset.
#[derive(Clone, Copy)]
pub struct AccountData {
    /// The free balance; never negative by construction, mutated only
    /// through checked arithmetic.
    pub free: U256,
}

/// The balances of one asset, with the asset's total issuance.
pub struct AssetBook {
    total_issuance: U256,
    accounts: Vec<(AccountId, AccountData)>,
}

/// The sum of the balances of a sequence of ledger entries.
pub open spec fn sum_balances(s: Seq<(Seq<u8>, nat)>) -> nat
    decreases s.len(),
{
    if s.len() == 0 {
        0
    } else {
        sum_balances(s.drop_last()) + s.last().1
    }
}

/// The balance recorded for `k`, or zero when no entry carries that key.
pub open spec fn balance_in(s: Seq<(Seq<u8>, nat)>, k: Seq<u8>) -> nat
    decreases s.len(),
{
    if s.len() == 0 {
        0
    } else if s.last().0 == k {
        s.last().1
    } else {
        balance_in(s.drop_last(), k)
    }
}

/// No two entries carry the same key.
pub open spec fn distinct_keys(s: Seq<(Seq<u8>, nat)>) -> bool {
    forall|i: int, j: int| 0 <= i < j < s.len() ==> s[i].0 != s[j].0
}

impl AssetBook {
    /// The ledger entries: each account's key and free balance.
    pub closed spec fn entries(&self) -> Seq<(Seq<u8>, nat)> {
        Seq::new(
            self.accounts@.len(),
            |i: int| (self.accounts@[i].0@, self.accounts@[i].1.free@),
        )
    }

    /// The total minted-and-not-burned supply of the asset.
    pub closed spec fn issuance(&self) -> nat {
        self.total_issuance@
    }

    /// The free balance of account `k` (zero when the account was never
    /// minted to).
    pub open spec fn balance_of(&self, k: Seq<u8>) -> nat {
        balance_in(self.entries(), k)
    }

    /// The central ledger invariant: account keys are unique and the total
    /// issuance equals the sum of all account balances.
    pub open spec fn wf(&self) -> bool {
        distinct_keys(self.entries()) && self.issuance() == sum_balances(self.entries())
    }

    /// An empty ledger: no accounts, zero issuance.
    pub fn new() -> (r: AssetBook)
        ensures
            r.wf(),
            r.issuance() == 0,
            forall|k: Seq<u8>| r.balance_of(k) == 0,
            r.entries().len() == 0,
    {
        let r = AssetBook { total_issuance: U256::zero(), accounts: Vec::new() };
        proof {
            assert(r.entries() =~= Seq::<(Seq<u8>, nat)>::empty());
        }
        r
    }

    /// The index of the entry holding `who`, if one exists.
    fn find_index(&self, who: &AccountId) -> (r: Option<usize>)
        ensures
            match r {
                Some(i) => i < self.entries().len() && self.entries()[i as int].0 == who@,
                None => forall|j: int|
                    0 <= j < self.entries().len() ==> self.entries()[j].0 != who@,
            },
    {
        let n = self.accounts.len();
        let mut i: usize = 0;
        while i < n
            invariant
                n == self.accounts@.len(),
                i <= n,
                forall|j: int| 0 <= j < i ==> self.entries()[j].0 != who@,
            decreases n - i,
        {
            if bytes_eq(&self.accounts[i].0.bytes, &who.bytes) {
                return Some(i);
            }
            i += 1;
        }
        None
    }

    /// Read the free balance of an account.
    pub fn balance(&self, who: &AccountId) -> (r: U256)
        requires
            self.wf(),
        ensures
            r@ == self.balance_of(who@),
    {
        match self.find_index(who) {
            Some(i) => {
                proof {
                    lemma_balance_at(self.entries(), who@, i as int);
                }
                self.accounts[i].1.free
            }
            None => {
                proof {
                    lemma_balance_absent(self.entries(), who@);
                }
                U256::zero()
            }
        }
    }

    /// Read the total issuance of the asset.
    pub fn issuance_value(&self) -> (r: U256)
        ensures
            r@ == self.issuance(),
    {
        self.total_issuance
    }

    /// Mint `amount` into `who`'s balance, under checked arithmetic.
    ///
    /// A zero amount is a no-op that succeeds and changes nothing.
    /// Otherwise both the balance and the issuance grow by `amount`, or —
    /// when the issuance would leave the 256-bit range — nothing changes
    /// and the call fails.  Minting to a previously-unseen account creates
    /// it with the minted amount as balance.
    pub fn mint(&mut self, who: &AccountId, amount: &U256) -> (r: Result<(), BridgeError>)
        requires
            old(self).wf(),
        ensures
            final(self).wf(),
            r is Ok <==> (amount@ == 0 || old(self).issuance() + amount@ <= u256_max()),
            r is Err ==> r == Err::<(), BridgeError>(BridgeError::TotalMintingOverflow),
            r is Err ==> final(self).entries() == old(self).entries()
                && final(self).issuance() == old(self).issuance(),
            amount@ == 0 ==> final(self).entries() == old(self).entries()
                && final(self).issuance() == old(self).issuance(),
            (r is Ok && amount@ != 0) ==> {
                &&& final(self).issuance() == old(self).issuance() + amount@
                &&& final(self).balance_of(who@) == old(self).balance_of(who@) + amount@
                &&& forall|k: Seq<u8>| k != who@
                    ==> final(self).balance_of(k) == old(self).balance_of(k)
            },
    {
        if amount.is_zero() {
            return Ok(());
        }
        let new_total = match self.total_issuance.checked_add(amount) {
            Some(v) => v,
            None => {
                return Err(BridgeError::TotalMintingOverflow);
            }
        };
        match self.find_index(who) {
            Some(i) => {
                proof {
                    lemma_balance_at(self.entries(), who@, i as int);
                    lemma_balance_le_sum(self.entries(), who@);
                }
                let ghost pre = self.entries();
                let pair = self.accounts.remove(i);
                let id = pair.0;
                let new_bal = match pair.1.free.checked_add(amount) {
                    Some(v) => v,
                    None => {
                        // Unreachable under the invariant: a balance never
                        // exceeds the issuance, which was just checked.
                        self.accounts.insert(i, (id, pair.1));
                        proof {
                            assert(false);
                        }
                        return Err(BridgeError::FreeMintingOverflow);
                    }
                };
                self.accounts.insert(i, (id, AccountData { free: new_bal }));
                self.total_issuance = new_total;
                proof {
                    assert(self.entries() =~= pre.update(i as int, (who@, new_bal@)));
                    lemma_sum_update(pre, i as int, new_bal@);
                    assert(distinct_keys(self.entries()));
                    lemma_balance_at(self.entries(), who@, i as int);
                    assert forall|k: Seq<u8>| k != who@
                        implies balance_in(self.entries(), k) == balance_in(pre, k) by {
                        lemma_balance_update_other(pre, i as int, new_bal@, k);
                    }
                }
                Ok(())
            }
            None => {
                proof {
                    lemma_balance_absent(self.entries(), who@);
                }
                let ghost pre = self.entries();
                self.accounts.push((who.clone(), AccountData { free: *amount }));
                self.total_issuance = new_total;
                proof {
                    assert(self.entries() =~= pre.push((who@, amount@)));
                    assert(self.entries().drop_last() =~= pre);
                    assert forall|k: Seq<u8>| k != who@
                        implies balance_in(self.entries(), k) == balance_in(pre, k) by {
                    }
                }
                Ok(())
            }
        }
    }

    /// Burn `amount` from `who`'s balance, under checked arithmetic.
    ///
    /// A zero amount is a no-op that succeeds and changes nothing.
    /// Otherwise both the balance and the issuance shrink by `amount`, or —
    /// when either would go negative — nothing changes and the call fails.
    pub fn burn(&mut self, who: &AccountId, amount: &U256) -> (r: Result<(), BridgeError>)
        requires
            old(self).wf(),
        ensures
            final(self).wf(),
            r is Ok <==> (amount@ == 0 || amount@ <= old(self).balance_of(who@)),
            r == Err::<(), BridgeError>(BridgeError::TotalBurningUnderflow)
                <==> (amount@ != 0 && amount@ > old(self).issuance()),
            r == Err::<(), BridgeError>(BridgeError::FreeBurningUnderflow)
                <==> (amount@ != 0 && amount@ <= old(self).issuance()
                    && amount@ > old(self).balance_of(who@)),
            r is Err ==> final(self).entries() == old(self).entries()
                && final(self).issuance() == old(self).issuance(),
            amount@ == 0 ==> final(self).entries() == old(self).entries()
                && final(self).issuance() == old(self).issuance(),
            (r is Ok && amount@ != 0) ==> {
                &&& final(self).issuance() == old(self).issuance() - amount@
                &&& final(self).balance_of(who@) == old(self).balance_of(who@) - amount@
                &&& forall|k: Seq<u8>| k != who@
                    ==> final(self).balance_of(k) == old(self).balance_of(k)
            },
    {
        if amount.is_zero() {
            return Ok(());
        }
        proof {
            lemma_balance_le_sum(self.entries(), who@);
        }
        let new_total = match self.total_issuance.checked_sub(amount) {
            Some(v) => v,
            None => {
                return Err(BridgeError::TotalBurningUnderflow);
            }
        };
        match self.find_index(who) {
            Some(i) => {
                proof {
                    lemma_balance_at(self.entries(), who@, i as int);
                }
                let ghost pre = self.entries();
                let pair = self.accounts.remove(i);
                let id = pair.0;
                let new_bal = match pair.1.free.checked_sub(amount) {
                    Some(v) => v,
                    None => {
                        self.accounts.insert(i, (id, pair.1));
                        proof {
                            assert(self.entries() =~= pre);
                        }
                        return Err(BridgeError::FreeBurningUnderflow);
                    }
                };
                self.accounts.insert(i, (id, AccountData { free: new_bal }));
                self.total_issuance = new_total;
                proof {
                    assert(self.entries() =~= pre.update(i as int, (who@, new_bal@)));
                    lemma_sum_update(pre, i as int, new_bal@);
                    assert(distinct_keys(self.entries()));
                    lemma_balance_at(self.entries(), who@, i as int);
                    assert forall|k: Seq<u8>| k != who@
                        implies balance_in(self.entries(), k) == balance_in(pre, k) by {
                        lemma_balance_update_other(pre, i as int, new_bal@, k);
                    }
                }
                Ok(())
            }
            None => {
                proof {
                    lemma_balance_absent(self.entries(), who@);
                }
                Err(BridgeError::FreeBurningUnderflow)
            }
        }
    }
}

/// The central ledger invariant as a law: at all times, a well-formed
/// book's total issuance equals the sum of the balances of all its
/// accounts, and in particular no single balance can exceed the issuance.
pub proof fn lemma_issuance_equals_sum(b: &AssetBook, k: Seq<u8>)
    requires
        b.wf(),
    ensures
        b.issuance() == sum_balances(b.entries()),
        b.balance_of(k) <= b.issuance(),
{
    lemma_balance_le_sum(b.entries(), k);
}

/// Under distinct keys, the balance looked up for a key is the value of the
/// entry that carries it.
pub proof fn lemma_balance_at(s: Seq<(Seq<u8>, nat)>, k: Seq<u8>, i: int)
    requires
        distinct_keys(s),
        0 <= i < s.len(),
        s[i].0 == k,
    ensures
        balance_in(s, k) == s[i].1,
    decreases s.len(),
{
    if i == s.len() - 1 {
    } else {
        assert(s.last().0 != k);
        assert(distinct_keys(s.drop_last()));
        assert(s.drop_last()[i] == s[i]);
        lemma_balance_at(s.drop_last(), k, i);
    }
}

/// A key carried by no entry has balance zero.
pub proof fn lemma_balance_absent(s: Seq<(Seq<u8>, nat)>, k: Seq<u8>)
    requires
        forall|j: int| 0 <= j < s.len() ==> s[j].0 != k,
    ensures
        balance_in(s, k) == 0,
    decreases s.len(),
{
    if s.len() > 0 {
        lemma_balance_absent(s.drop_last(), k);
    }
}

/// No single balance exceeds the sum of all balances.
pub proof fn lemma_balance_le_sum(s: Seq<(Seq<u8>, nat)>, k: Seq<u8>)
    ensures
        balance_in(s, k) <= sum_balances(s),
    decreases s.len(),
{
    if s.len() > 0 {
        lemma_balance_le_sum(s.drop_last(), k);
    }
}

/// Updating one entry's balance moves the sum by the difference.
pub proof fn lemma_sum_update(s: Seq<(Seq<u8>, nat)>, i: int, v: nat)
    requires
        0 <= i < s.len(),
    ensures
        sum_balances(s.update(i, (s[i].0, v))) == sum_balances(s) - s[i].1 + v,
    decreases s.len(),
{
    let s2 = s.update(i, (s[i].0, v));
    if i == s.len() - 1 {
        assert(s2.drop_last() =~= s.drop_last());
    } else {
        assert(s2.last() == s.last());
        assert(s2.drop_last() =~= s.drop_last().update(i, (s.drop_last()[i].0, v)));
        lemma_sum_update(s.drop_last(), i, v);
    }
}

/// Updating one entry leaves every other key's balance unchanged.
pub proof fn lemma_balance_update_other(s: Seq<(Seq<u8>, nat)>, i: int, v: nat, k: Seq<u8>)
    requires
        0 <= i < s.len(),
        k != s[i].0,
    ensures
        balance_in(s.update(i, (s[i].0, v)), k) == balance_in(s, k),
    decreases s.len(),
{
    let s2 = s.update(i, (s[i].0, v));
    if i == s.len() - 1 {
        assert(s2.last().0 == s.last().0);
        assert(s2.drop_last() =~= s.drop_last());
    } else {
        assert(s2.last() == s.last());
        assert(s2.drop_last() =~= s.drop_last().update(i, (s.drop_last()[i].0, v)));
        lemma_balance_update_other(s.drop_last(), i, v, k);
    }
}

} // verus!
