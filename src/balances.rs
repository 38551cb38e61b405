use vstd::prelude::*;

use crate::keyed::{entry_map, find_key, keys_unique, put_key, remove_key};

verus! {

#[derive(Debug, PartialEq, Eq, Structural)]
pub enum BalanceError {
    BalanceAlreadyExists,
    BalanceDoesNotExist,
    NonceAlreadyUsed,
    InsufficientBalance,
    /// A credit would take the amount past the largest one held.
    AmountOverflow,
}

/// The amount held for an address and the deposit nonces already used.
#[derive(Debug)]
pub struct BalanceEntry {
    pub amount: u128,
    pub nonces: Vec<u128>,
}

/// Settings of the ledger: the fee charged per fetched byte, and the
/// addresses that are never charged.
#[derive(Debug)]
pub struct BalancesCfg {
    pub fee_per_byte: u128,
    pub whitelist: Vec<String>,
}

/// Whether `addr` is never charged.
pub open spec fn is_exempt(cfg: BalancesCfg, addr: Seq<char>) -> bool {
    exists|i: int| 0 <= i < cfg.whitelist@.len() && (#[trigger] cfg.whitelist@[i])@ == addr
}

/// Whether the ledger `m` covers a charge of `amount` to `addr`.
pub open spec fn covers(m: Map<Seq<char>, BalanceEntry>, cfg: BalancesCfg, addr: Seq<char>, amount: u128) -> bool {
    is_exempt(cfg, addr) || (m.contains_key(addr) && m[addr].amount >= amount)
}

/// The ledger after charging `amount` to a covered `addr`.
pub open spec fn debited(m: Map<Seq<char>, BalanceEntry>, cfg: BalancesCfg, addr: Seq<char>, amount: u128) -> Map<
    Seq<char>,
    BalanceEntry,
> {
    if is_exempt(cfg, addr) {
        m
    } else {
        m.insert(addr, BalanceEntry { amount: (m[addr].amount - amount) as u128, nonces: m[addr].nonces })
    }
}

/// Whether `amount` can be credited to `addr` in `m`.
pub open spec fn can_credit(m: Map<Seq<char>, BalanceEntry>, addr: Seq<char>, amount: u128) -> bool {
    m.contains_key(addr) && m[addr].amount + amount <= u128::MAX
}

pub open spec fn credited(m: Map<Seq<char>, BalanceEntry>, addr: Seq<char>, amount: u128) -> Map<
    Seq<char>,
    BalanceEntry,
> {
    m.insert(addr, BalanceEntry { amount: (m[addr].amount + amount) as u128, nonces: m[addr].nonces })
}

fn exempt(cfg: &BalancesCfg, addr: &String) -> (r: bool)
    ensures
        r == is_exempt(*cfg, addr@),
{
    let mut i: usize = 0;
    while i < cfg.whitelist.len()
        invariant
            i <= cfg.whitelist@.len(),
            forall|j: int| 0 <= j < i ==> (#[trigger] cfg.whitelist@[j])@ != addr@,
        decreases cfg.whitelist@.len() - i,
    {
        if cfg.whitelist[i] == *addr {
            return true;
        }
        i = i + 1;
    }
    false
}

/// Amounts held per address.
#[derive(Debug)]
pub struct Balances {
    pub entries: Vec<(String, BalanceEntry)>,
}

impl Balances {
    pub open spec fn wf(&self) -> bool {
        keys_unique(self.entries@)
    }

    pub open spec fn view(&self) -> Map<Seq<char>, BalanceEntry> {
        entry_map(self.entries@)
    }

    pub fn new() -> (r: Balances)
        ensures
            r.wf(),
            r@ == Map::<Seq<char>, BalanceEntry>::empty(),
    {
        let r = Balances { entries: Vec::new() };
        assert(r@ =~= Map::<Seq<char>, BalanceEntry>::empty());
        r
    }

    /// Opens an empty balance for `address`.
    pub fn add(&mut self, address: String) -> (r: Result<(), BalanceError>)
        requires
            old(self).wf(),
        ensures
            final(self).wf(),
            old(self)@.contains_key(address@) ==> r == Err::<(), BalanceError>(
                BalanceError::BalanceAlreadyExists,
            ) && final(self)@ == old(self)@,
            !old(self)@.contains_key(address@) ==> r is Ok && final(self)@.dom() == old(
                self,
            )@.dom().insert(address@) && final(self)@[address@].amount == 0
                && final(self)@[address@].nonces@.len() == 0 && forall|k: Seq<char>|
                k != address@ && old(self)@.contains_key(k) ==> #[trigger] final(self)@[k] == old(
                self,
            )@[k],
    {
        if find_key(&self.entries, &address).is_some() {
            return Err(BalanceError::BalanceAlreadyExists);
        }
        put_key(&mut self.entries, address, BalanceEntry { amount: 0, nonces: Vec::new() });
        Ok(())
    }

    /// Closes the balance of `address`.
    pub fn remove(&mut self, address: &String) -> (r: Result<(), BalanceError>)
        requires
            old(self).wf(),
        ensures
            final(self).wf(),
            r is Ok <==> old(self)@.contains_key(address@),
            r is Err ==> r == Err::<(), BalanceError>(BalanceError::BalanceDoesNotExist),
            final(self)@ == old(self)@.remove(address@),
    {
        match remove_key(&mut self.entries, address) {
            Some(_) => Ok(()),
            None => Err(BalanceError::BalanceDoesNotExist),
        }
    }

    pub fn contains(&self, address: &String) -> (r: bool)
        requires
            self.wf(),
        ensures
            r == self@.contains_key(address@),
    {
        find_key(&self.entries, address).is_some()
    }

    pub fn get_amount(&self, address: &String) -> (r: Result<u128, BalanceError>)
        requires
            self.wf(),
        ensures
            self@.contains_key(address@) ==> r == Ok::<u128, BalanceError>(self@[address@].amount),
            !self@.contains_key(address@) ==> r == Err::<u128, BalanceError>(
                BalanceError::BalanceDoesNotExist,
            ),
    {
        match find_key(&self.entries, address) {
            Some(i) => Ok(self.entries[i].1.amount),
            None => Err(BalanceError::BalanceDoesNotExist),
        }
    }

    /// Credits `amount` to `address`.
    pub fn add_amount(&mut self, address: &String, amount: u128) -> (r: Result<(), BalanceError>)
        requires
            old(self).wf(),
        ensures
            final(self).wf(),
            r is Ok <==> can_credit(old(self)@, address@, amount),
            r is Ok ==> final(self)@ == credited(old(self)@, address@, amount),
            r is Err ==> final(self)@ == old(self)@,
            !old(self)@.contains_key(address@) ==> r == Err::<(), BalanceError>(
                BalanceError::BalanceDoesNotExist,
            ),
            old(self)@.contains_key(address@) && !can_credit(old(self)@, address@, amount) ==> r
                == Err::<(), BalanceError>(BalanceError::AmountOverflow),
    {
        match find_key(&self.entries, address) {
            None => Err(BalanceError::BalanceDoesNotExist),
            Some(i) => {
                if self.entries[i].1.amount > u128::MAX - amount {
                    return Err(BalanceError::AmountOverflow);
                }
                let ghost m0 = self@;
                let e = remove_key(&mut self.entries, address);
                let e = e.unwrap();
                put_key(
                    &mut self.entries,
                    address.clone(),
                    BalanceEntry { amount: e.amount + amount, nonces: e.nonces },
                );
                assert(self@ =~= credited(m0, address@, amount));
                Ok(())
            },
        }
    }

    /// Records a deposit nonce of `address`, refusing one already used.
    pub fn add_nonce(&mut self, address: &String, nonce: u128) -> (r: Result<(), BalanceError>)
        requires
            old(self).wf(),
        ensures
            final(self).wf(),
            !old(self)@.contains_key(address@) ==> r == Err::<(), BalanceError>(
                BalanceError::BalanceDoesNotExist,
            ) && final(self)@ == old(self)@,
            old(self)@.contains_key(address@) && old(self)@[address@].nonces@.contains(nonce) ==> r
                == Err::<(), BalanceError>(BalanceError::NonceAlreadyUsed) && final(self)@ == old(
                self,
            )@,
            old(self)@.contains_key(address@) && !old(self)@[address@].nonces@.contains(nonce) ==> r
                is Ok && final(self)@.dom() == old(self)@.dom() && final(self)@[address@].amount == old(
                self,
            )@[address@].amount && final(self)@[address@].nonces@ == old(
                self,
            )@[address@].nonces@.push(nonce) && forall|k: Seq<char>|
                k != address@ && old(self)@.contains_key(k) ==> #[trigger] final(self)@[k] == old(
                self,
            )@[k],
    {
        match find_key(&self.entries, address) {
            None => Err(BalanceError::BalanceDoesNotExist),
            Some(i) => {
                let n = self.entries[i].1.nonces.len();
                let mut j: usize = 0;
                while j < n
                    invariant
                        i < self.entries@.len(),
                        self.wf(),
                        self.entries@[i as int].0@ == address@,
                        self@.contains_key(address@),
                        self@[address@] == self.entries@[i as int].1,
                        self@ == old(self)@,
                        n == self.entries@[i as int].1.nonces@.len(),
                        j <= n,
                        forall|t: int| 0 <= t < j ==> self.entries@[i as int].1.nonces@[t] != nonce,
                    decreases n - j,
                {
                    if self.entries[i].1.nonces[j] == nonce {
                        return Err(BalanceError::NonceAlreadyUsed);
                    }
                    j = j + 1;
                }
                let ghost m0 = self@;
                let e = remove_key(&mut self.entries, address);
                let e = e.unwrap();
                let mut nonces = e.nonces;
                nonces.push(nonce);
                put_key(&mut self.entries, address.clone(), BalanceEntry { amount: e.amount, nonces });
                proof {
                    assert(self@.dom() =~= m0.dom());
                }
                Ok(())
            },
        }
    }

    /// Whether `address` can pay `amount`: always for an exempt address.
    pub fn is_sufficient(&self, cfg: &BalancesCfg, address: &String, amount: u128) -> (r: Result<
        bool,
        BalanceError,
    >)
        requires
            self.wf(),
        ensures
            is_exempt(*cfg, address@) ==> r == Ok::<bool, BalanceError>(true),
            !is_exempt(*cfg, address@) && !self@.contains_key(address@) ==> r == Err::<
                bool,
                BalanceError,
            >(BalanceError::BalanceDoesNotExist),
            !is_exempt(*cfg, address@) && self@.contains_key(address@) ==> r == Ok::<
                bool,
                BalanceError,
            >(self@[address@].amount >= amount),
    {
        if exempt(cfg, address) {
            return Ok(true);
        }
        match find_key(&self.entries, address) {
            None => Err(BalanceError::BalanceDoesNotExist),
            Some(i) => Ok(self.entries[i].1.amount >= amount),
        }
    }

    /// Charges `amount` to `address`; an exempt address is not charged.
    pub fn reduce_amount(&mut self, cfg: &BalancesCfg, address: &String, amount: u128) -> (r: Result<
        (),
        BalanceError,
    >)
        requires
            old(self).wf(),
        ensures
            final(self).wf(),
            r is Ok <==> covers(old(self)@, *cfg, address@, amount),
            r is Ok ==> final(self)@ == debited(old(self)@, *cfg, address@, amount),
            r is Err ==> final(self)@ == old(self)@,
            !is_exempt(*cfg, address@) && !old(self)@.contains_key(address@) ==> r == Err::<
                (),
                BalanceError,
            >(BalanceError::BalanceDoesNotExist),
            !is_exempt(*cfg, address@) && old(self)@.contains_key(address@) && old(
                self,
            )@[address@].amount < amount ==> r == Err::<(), BalanceError>(
                BalanceError::InsufficientBalance,
            ),
    {
        if exempt(cfg, address) {
            return Ok(());
        }
        match find_key(&self.entries, address) {
            None => Err(BalanceError::BalanceDoesNotExist),
            Some(i) => {
                if self.entries[i].1.amount < amount {
                    return Err(BalanceError::InsufficientBalance);
                }
                let ghost m0 = self@;
                let e = remove_key(&mut self.entries, address);
                let e = e.unwrap();
                put_key(
                    &mut self.entries,
                    address.clone(),
                    BalanceEntry { amount: e.amount - amount, nonces: e.nonces },
                );
                assert(self@ =~= debited(m0, *cfg, address@, amount));
                Ok(())
            },
        }
    }

    /// Moves `fee` from `owner` to `service`, or changes nothing: an owner
    /// that cannot pay is refused with `InsufficientBalance` before any debit
    /// or credit.
    pub fn settle_fee(&mut self, cfg: &BalancesCfg, owner: &String, service: &String, fee: u128) -> (r:
        Result<(), BalanceError>)
        requires
            old(self).wf(),
        ensures
            final(self).wf(),
            r is Ok <==> covers(old(self)@, *cfg, owner@, fee) && can_credit(
                debited(old(self)@, *cfg, owner@, fee),
                service@,
                fee,
            ),
            r is Ok ==> final(self)@ == credited(debited(old(self)@, *cfg, owner@, fee), service@, fee),
            r is Err ==> final(self)@ == old(self)@,
            !is_exempt(*cfg, owner@) && !old(self)@.contains_key(owner@) ==> r == Err::<
                (),
                BalanceError,
            >(BalanceError::BalanceDoesNotExist),
            !is_exempt(*cfg, owner@) && old(self)@.contains_key(owner@) && old(self)@[owner@].amount
                < fee ==> r == Err::<(), BalanceError>(BalanceError::InsufficientBalance),
    {
        match self.is_sufficient(cfg, owner, fee) {
            Err(e) => return Err(e),
            Ok(false) => return Err(BalanceError::InsufficientBalance),
            Ok(true) => {},
        }
        let ghost m0 = self@;
        let owner_exempt = exempt(cfg, owner);
        // Check that the credit can be made before anything is debited.
        match find_key(&self.entries, service) {
            None => return Err(BalanceError::BalanceDoesNotExist),
            Some(i) => {
                let mut held = self.entries[i].1.amount;
                if !owner_exempt && *service == *owner {
                    held = held - fee;
                }
                if held > u128::MAX - fee {
                    return Err(BalanceError::AmountOverflow);
                }
            },
        }
        let r1 = self.reduce_amount(cfg, owner, fee);
        assert(r1 is Ok);
        let r2 = self.add_amount(service, fee);
        assert(r2 is Ok);
        Ok(())
    }

    pub fn clear(&mut self)
        ensures
            final(self).wf(),
            final(self)@ == Map::<Seq<char>, BalanceEntry>::empty(),
    {
        self.entries = Vec::new();
        assert(self@ =~= Map::<Seq<char>, BalanceEntry>::empty());
    }
}

} // verus!
