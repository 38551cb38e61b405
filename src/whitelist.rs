use vstd::prelude::*;
use vstd::string::*;

use crate::keyed::{entry_map, find_key, keys_unique, put_key, remove_key};
use crate::address::{from_str, AddressError};

verus! {

#[derive(Debug, PartialEq, Eq, Structural)]
pub enum WhitelistError {
    AddressAlreadyWhitelisted,
    AddressNotWhitelisted,
}

/// The addresses allowed to use the service.
#[derive(Debug)]
pub struct Whitelist {
    pub addresses: Vec<(String, ())>,
}

impl Whitelist {
    pub open spec fn wf(&self) -> bool {
        keys_unique(self.addresses@)
    }

    pub open spec fn view(&self) -> Set<Seq<char>> {
        entry_map(self.addresses@).dom()
    }

    pub fn new() -> (r: Whitelist)
        ensures
            r.wf(),
            r@ == Set::<Seq<char>>::empty(),
    {
        let r = Whitelist { addresses: Vec::new() };
        assert(r@ =~= Set::<Seq<char>>::empty());
        r
    }

    pub fn add(&mut self, address: String) -> (r: Result<(), WhitelistError>)
        requires
            old(self).wf(),
        ensures
            final(self).wf(),
            final(self)@ == old(self)@.insert(address@),
            r is Ok <==> !old(self)@.contains(address@),
            r is Err ==> r == Err::<(), WhitelistError>(WhitelistError::AddressAlreadyWhitelisted),
    {
        if find_key(&self.addresses, &address).is_some() {
            assert(old(self)@.insert(address@) =~= old(self)@);
            return Err(WhitelistError::AddressAlreadyWhitelisted);
        }
        put_key(&mut self.addresses, address, ());
        Ok(())
    }

    pub fn remove(&mut self, address: &String) -> (r: Result<(), WhitelistError>)
        requires
            old(self).wf(),
        ensures
            final(self).wf(),
            final(self)@ == old(self)@.remove(address@),
            r is Ok <==> old(self)@.contains(address@),
            r is Err ==> r == Err::<(), WhitelistError>(WhitelistError::AddressNotWhitelisted),
    {
        match remove_key(&mut self.addresses, address) {
            Some(_) => Ok(()),
            None => Err(WhitelistError::AddressNotWhitelisted),
        }
    }

    pub fn contains(&self, address: &String) -> (r: bool)
        requires
            self.wf(),
        ensures
            r == self@.contains(address@),
    {
        find_key(&self.addresses, address).is_some()
    }

    /// Every address, once each.
    pub fn get_all(&self) -> (r: Vec<String>)
        requires
            self.wf(),
        ensures
            r@.len() == self.addresses@.len(),
            forall|i: int| 0 <= i < r@.len() ==> self@.contains((#[trigger] r@[i])@),
            forall|a: Seq<char>| self@.contains(a) ==> exists|i: int| 0 <= i < r@.len() && (#[trigger] r@[i])@ == a,
    {
        let mut out: Vec<String> = Vec::new();
        let mut i: usize = 0;
        while i < self.addresses.len()
            invariant
                self.wf(),
                i <= self.addresses@.len(),
                out@.len() == i,
                forall|j: int| 0 <= j < i ==> (#[trigger] out@[j])@ == self.addresses@[j].0@,
            decreases self.addresses@.len() - i,
        {
            out.push(self.addresses[i].0.clone());
            i = i + 1;
        }
        proof {
            assert forall|j: int| 0 <= j < out@.len() implies self@.contains((#[trigger] out@[j])@) by {
                crate::keyed::lemma_map_at(self.addresses@, j);
            }
            assert forall|a: Seq<char>| self@.contains(a) implies exists|j: int|
                0 <= j < out@.len() && (#[trigger] out@[j])@ == a by {
                let j = choose|j: int| 0 <= j < self.addresses@.len() && (#[trigger] self.addresses@[j]).0@ == a;
                assert(out@[j]@ == a);
            }
        }
        out
    }

    pub fn clear(&mut self)
        ensures
            final(self).wf(),
            final(self)@ == Set::<Seq<char>>::empty(),
    {
        self.addresses = Vec::new();
        assert(self@ =~= Set::<Seq<char>>::empty());
    }
}

#[derive(Debug, PartialEq, Eq, Structural)]
pub enum CallerError {
    CallerIsNotController,
}

#[derive(Debug, PartialEq, Eq, Structural)]
pub enum WhitelistRequestsError {
    Whitelist(WhitelistError),
    Caller(CallerError),
    Address(AddressError),
}

/// Lets only a controller of the service through.
pub fn validate_caller(is_controller: bool) -> (r: Result<(), CallerError>)
    ensures
        r is Ok <==> is_controller,
        r is Err ==> r == Err::<(), CallerError>(CallerError::CallerIsNotController),
{
    if is_controller {
        Ok(())
    } else {
        Err(CallerError::CallerIsNotController)
    }
}

/// Whitelists `addr`, in its checksummed form, at a controller's request.
pub fn _add_to_whitelist(whitelist: &mut Whitelist, addr: &str, is_controller: bool) -> (r: Result<
    (),
    WhitelistRequestsError,
>)
    requires
        old(whitelist).wf(),
    ensures
        final(whitelist).wf(),
        !is_controller ==> r == Err::<(), WhitelistRequestsError>(
            WhitelistRequestsError::Caller(CallerError::CallerIsNotController),
        ) && final(whitelist)@ == old(whitelist)@,
        is_controller && crate::address::checksummed_address(addr@) is None ==> r == Err::<
            (),
            WhitelistRequestsError,
        >(WhitelistRequestsError::Address(AddressError::InvalidHex)) && final(whitelist)@ == old(
            whitelist,
        )@,
        is_controller ==> (crate::address::checksummed_address(addr@) matches Some(a) ==> (final(whitelist)@
            == old(whitelist)@.insert(a) && (r is Ok <==> !old(whitelist)@.contains(a)))),
{
    if let Err(e) = validate_caller(is_controller) {
        return Err(WhitelistRequestsError::Caller(e));
    }
    let address = match from_str(addr) {
        Ok(a) => a,
        Err(e) => {
            return Err(WhitelistRequestsError::Address(e));
        },
    };
    match whitelist.add(address) {
        Ok(()) => Ok(()),
        Err(e) => Err(WhitelistRequestsError::Whitelist(e)),
    }
}

/// Removes `addr`, in its checksummed form, at a controller's request.
pub fn _remove_from_whitelist(whitelist: &mut Whitelist, addr: &str, is_controller: bool) -> (r:
    Result<(), WhitelistRequestsError>)
    requires
        old(whitelist).wf(),
    ensures
        final(whitelist).wf(),
        !is_controller ==> r == Err::<(), WhitelistRequestsError>(
            WhitelistRequestsError::Caller(CallerError::CallerIsNotController),
        ) && final(whitelist)@ == old(whitelist)@,
        is_controller && crate::address::checksummed_address(addr@) is None ==> r == Err::<
            (),
            WhitelistRequestsError,
        >(WhitelistRequestsError::Address(AddressError::InvalidHex)) && final(whitelist)@ == old(
            whitelist,
        )@,
        is_controller ==> (crate::address::checksummed_address(addr@) matches Some(a) ==> (final(whitelist)@
            == old(whitelist)@.remove(a) && (r is Ok <==> old(whitelist)@.contains(a)))),
{
    if let Err(e) = validate_caller(is_controller) {
        return Err(WhitelistRequestsError::Caller(e));
    }
    let address = match from_str(addr) {
        Ok(a) => a,
        Err(e) => {
            return Err(WhitelistRequestsError::Address(e));
        },
    };
    match whitelist.remove(&address) {
        Ok(()) => Ok(()),
        Err(e) => Err(WhitelistRequestsError::Whitelist(e)),
    }
}

/// Whether `addr`, in its checksummed form, is whitelisted.
pub fn _is_whitelisted(whitelist: &Whitelist, addr: &str) -> (r: Result<bool, WhitelistRequestsError>)
    requires
        whitelist.wf(),
    ensures
        crate::address::checksummed_address(addr@) is None ==> r == Err::<bool, WhitelistRequestsError>(
            WhitelistRequestsError::Address(AddressError::InvalidHex),
        ),
        crate::address::checksummed_address(addr@) matches Some(a) ==> (r == Ok::<bool, WhitelistRequestsError>(
            whitelist@.contains(a),
        )),
{
    match from_str(addr) {
        Ok(a) => Ok(whitelist.contains(&a)),
        Err(e) => Err(WhitelistRequestsError::Address(e)),
    }
}

/// Every whitelisted address, for a controller.
pub fn _get_whitelist(whitelist: &Whitelist, is_controller: bool) -> (r: Result<Vec<String>, WhitelistRequestsError>)
    requires
        whitelist.wf(),
    ensures
        !is_controller ==> (r matches Err(WhitelistRequestsError::Caller(CallerError::CallerIsNotController))),
        is_controller ==> (r matches Ok(v) && v@.len() == whitelist.addresses@.len() && (forall|i: int|
            0 <= i < v@.len() ==> whitelist@.contains((#[trigger] v@[i])@)) && (forall|a: Seq<char>|
            whitelist@.contains(a) ==> exists|i: int| 0 <= i < v@.len() && (#[trigger] v@[i])@ == a)),
{
    if let Err(e) = validate_caller(is_controller) {
        return Err(WhitelistRequestsError::Caller(e));
    }
    Ok(whitelist.get_all())
}

} // verus!
