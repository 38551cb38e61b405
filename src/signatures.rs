use vstd::prelude::*;
use vstd::string::*;

use crate::keyed::{entry_map, find_key, keys_unique, lemma_remove_keeps_unique, put_key};

verus! {

/// Entries kept by a fresh signature cache before `clean` drops any.
pub const DEFAULT_SIGNATURES_LIMIT: usize = 300;

/// The lower-case hexadecimal digit of `n < 16`.
pub open spec fn hex_digit(n: nat) -> char {
    seq!['0', '1', '2', '3', '4', '5', '6', '7', '8', '9', 'a', 'b', 'c', 'd', 'e', 'f'][n as int]
}

/// Bytes as lower-case hexadecimal, two digits per byte.
pub open spec fn hex_of(b: Seq<u8>) -> Seq<char>
    decreases b.len(),
{
    if b.len() == 0 {
        Seq::empty()
    } else {
        hex_of(b.drop_last()) + seq![hex_digit(b.last() as nat / 16), hex_digit(b.last() as nat % 16)]
    }
}

pub open spec fn is_lower_hex_digit(c: char) -> bool {
    ('0' <= c && c <= '9') || ('a' <= c && c <= 'f')
}

pub open spec fn is_hex_digit(c: char) -> bool {
    is_lower_hex_digit(c) || ('A' <= c && c <= 'F')
}

/// Hexadecimal text of whole bytes, digits of either case.
pub open spec fn is_hex(s: Seq<char>) -> bool {
    s.len() % 2 == 0 && forall|i: int| 0 <= i < s.len() ==> is_hex_digit(#[trigger] s[i])
}

/// Hexadecimal text with every letter in lower case.
pub open spec fn lowered_hex(s: Seq<char>) -> Seq<char> {
    Seq::new(s.len(), |i: int| hex_digit(crate::address::hex_val(s[i])))
}

/// Lower-case hexadecimal text of whole bytes.
pub open spec fn is_lower_hex(s: Seq<char>) -> bool {
    s.len() % 2 == 0 && forall|i: int| 0 <= i < s.len() ==> is_lower_hex_digit(#[trigger] s[i])
}

/// What `keccak256` gives for `data`.
pub uninterp spec fn keccak_of(data: Seq<u8>) -> Seq<u8>;

/// Relies on `sha3::Keccak256`: the 32-byte Keccak-256 digest of `data`.
#[verifier::external_body]
pub(crate) fn keccak256(data: &[u8]) -> (r: Vec<u8>)
    ensures
        r@ == keccak_of(data@),
        r@.len() == 32,
{
    <sha3::Keccak256 as sha3::Digest>::digest(data).to_vec()
}

/// Relies on `hex::encode`: two lower-case digits per byte.
#[verifier::external_body]
pub(crate) fn hex_encode(b: &[u8]) -> (r: String)
    ensures
        r@ == hex_of(b@),
{
    hex::encode(b)
}

/// Relies on `hex::decode`: the bytes of a text of an even number of
/// hexadecimal digits of either case, `None` for any other text.
#[verifier::external_body]
fn hex_decode(s: &String) -> (r: Option<Vec<u8>>)
    ensures
        r is Some <==> is_hex(s@),
        r matches Some(v) ==> hex_of(v@) == lowered_hex(s@),
{
    hex::decode(s).ok()
}

/// The key under which the signature of `data` is cached.
pub open spec fn sign_key(data: Seq<u8>) -> Seq<char> {
    hex_of(keccak_of(data))
}

pub(crate) proof fn lemma_hex_len(b: Seq<u8>)
    ensures
        hex_of(b).len() == 2 * b.len(),
    decreases b.len(),
{
    if b.len() > 0 {
        lemma_hex_len(b.drop_last());
    }
}

proof fn lemma_hex_is_lower(b: Seq<u8>)
    ensures
        is_lower_hex(hex_of(b)),
    decreases b.len(),
{
    lemma_hex_len(b);
    if b.len() > 0 {
        lemma_hex_is_lower(b.drop_last());
        let h = hex_of(b);
        let p = hex_of(b.drop_last());
        let digits = seq!['0', '1', '2', '3', '4', '5', '6', '7', '8', '9', 'a', 'b', 'c', 'd', 'e', 'f'];
        assert forall|i: int| 0 <= i < 16 implies is_lower_hex_digit(#[trigger] digits[i]) by {}
        assert forall|i: int| 0 <= i < h.len() implies is_lower_hex_digit(#[trigger] h[i]) by {
            if i < p.len() {
                assert(h[i] == p[i]);
            }
        }
    }
}

proof fn lemma_hex_digit_injective(a: nat, b: nat)
    requires
        a < 16,
        b < 16,
        hex_digit(a) == hex_digit(b),
    ensures
        a == b,
{
    let digits = seq!['0', '1', '2', '3', '4', '5', '6', '7', '8', '9', 'a', 'b', 'c', 'd', 'e', 'f'];
    assert(digits[a as int] == digits[b as int]);
}

proof fn lemma_hex_injective(a: Seq<u8>, b: Seq<u8>)
    requires
        hex_of(a) == hex_of(b),
    ensures
        a == b,
    decreases a.len(),
{
    lemma_hex_len(a);
    lemma_hex_len(b);
    if a.len() > 0 {
        let ha = hex_of(a);
        let pa = hex_of(a.drop_last());
        let pb = hex_of(b.drop_last());
        lemma_hex_len(a.drop_last());
        lemma_hex_len(b.drop_last());
        assert(pa == ha.subrange(0, ha.len() - 2));
        assert(pb == ha.subrange(0, ha.len() - 2));
        lemma_hex_injective(a.drop_last(), b.drop_last());
        let x = a.last() as nat;
        let y = b.last() as nat;
        assert(ha[ha.len() - 2] == hex_digit(x / 16) && ha[ha.len() - 2] == hex_digit(y / 16));
        assert(ha[ha.len() - 1] == hex_digit(x % 16) && ha[ha.len() - 1] == hex_digit(y % 16));
        lemma_hex_digit_injective(x / 16, y / 16);
        lemma_hex_digit_injective(x % 16, y % 16);
        assert(x == 16 * (x / 16) + x % 16);
        assert(y == 16 * (y / 16) + y % 16);
        assert(a == a.drop_last().push(a.last()));
        assert(b == b.drop_last().push(b.last()));
    }
}

/// `a` comes no later than `b` in lexicographic order of code points.
pub open spec fn lex_le(a: Seq<char>, b: Seq<char>) -> bool
    decreases a.len(),
{
    if a.len() == 0 {
        true
    } else if b.len() == 0 {
        false
    } else if a[0] != b[0] {
        a[0] < b[0]
    } else {
        lex_le(a.drop_first(), b.drop_first())
    }
}

pub(crate) proof fn lemma_lex_total(a: Seq<char>, b: Seq<char>)
    ensures
        lex_le(a, b) || lex_le(b, a),
    decreases a.len(),
{
    if a.len() > 0 && b.len() > 0 && a[0] == b[0] {
        lemma_lex_total(a.drop_first(), b.drop_first());
    }
}

pub(crate) proof fn lemma_lex_trans(a: Seq<char>, b: Seq<char>, c: Seq<char>)
    requires
        lex_le(a, b),
        lex_le(b, c),
    ensures
        lex_le(a, c),
    decreases a.len(),
{
    if a.len() > 0 && b.len() > 0 && c.len() > 0 && a[0] == b[0] && b[0] == c[0] {
        lemma_lex_trans(a.drop_first(), b.drop_first(), c.drop_first());
    }
}

proof fn lemma_lex_skip(a: Seq<char>, b: Seq<char>, i: int)
    requires
        0 <= i <= a.len(),
        i <= b.len(),
        a.subrange(0, i) == b.subrange(0, i),
    ensures
        lex_le(a, b) == lex_le(a.subrange(i, a.len() as int), b.subrange(i, b.len() as int)),
    decreases i,
{
    if i > 0 {
        assert(a[0] == a.subrange(0, i)[0]);
        assert(b[0] == b.subrange(0, i)[0]);
        assert(a.drop_first().subrange(0, i - 1) == b.drop_first().subrange(0, i - 1)) by {
            assert forall|k: int| 0 <= k < i - 1 implies a.drop_first()[k] == b.drop_first()[k] by {
                assert(a.subrange(0, i)[k + 1] == b.subrange(0, i)[k + 1]);
                assert(a.subrange(0, i)[k + 1] == a[k + 1]);
                assert(b.subrange(0, i)[k + 1] == b[k + 1]);
                assert(a.drop_first()[k] == a[k + 1]);
                assert(b.drop_first()[k] == b[k + 1]);
            }
            assert(a.drop_first().subrange(0, i - 1) =~= b.drop_first().subrange(0, i - 1));
        }
        lemma_lex_skip(a.drop_first(), b.drop_first(), i - 1);
        assert(a.drop_first().subrange(i - 1, a.len() - 1) == a.subrange(i, a.len() as int));
        assert(b.drop_first().subrange(i - 1, b.len() - 1) == b.subrange(i, b.len() as int));
    } else {
        assert(a.subrange(0, a.len() as int) == a);
        assert(b.subrange(0, b.len() as int) == b);
    }
}

pub(crate) proof fn lemma_lex_antisym(a: Seq<char>, b: Seq<char>)
    requires
        lex_le(a, b),
        lex_le(b, a),
    ensures
        a == b,
    decreases a.len(),
{
    if a.len() > 0 && b.len() > 0 {
        lemma_lex_antisym(a.drop_first(), b.drop_first());
        assert(a == seq![a[0]] + a.drop_first());
        assert(b == seq![b[0]] + b.drop_first());
    } else {
        assert(a.len() == 0 && b.len() == 0);
        assert(a == b);
    }
}

/// Whether `a` comes no later than `b` in lexicographic order.
pub(crate) fn text_le(a: &String, b: &String) -> (r: bool)
    ensures
        r == lex_le(a@, b@),
{
    let na = a.as_str().unicode_len();
    let nb = b.as_str().unicode_len();
    let mut i: usize = 0;
    while i < na && i < nb
        invariant
            na == a@.len(),
            nb == b@.len(),
            i <= na,
            i <= nb,
            a@.subrange(0, i as int) == b@.subrange(0, i as int),
        decreases na - i,
    {
        let x = a.as_str().get_char(i);
        let y = b.as_str().get_char(i);
        if x != y {
            proof {
                lemma_lex_skip(a@, b@, i as int);
                let sa = a@.subrange(i as int, na as int);
                let sb = b@.subrange(i as int, nb as int);
                assert(sa[0] == x && sb[0] == y);
            }
            return x < y;
        }
        proof {
            assert(a@.subrange(0, i + 1) =~= b@.subrange(0, i + 1)) by {
                assert forall|k: int| 0 <= k < i + 1 implies a@[k] == b@[k] by {
                    if k < i {
                        assert(a@.subrange(0, i as int)[k] == b@.subrange(0, i as int)[k]);
                    }
                }
            }
        }
        i = i + 1;
    }
    proof {
        lemma_lex_skip(a@, b@, i as int);
    }
    i == na
}

/// Index of an entry with the least signature text.
fn least(s: &Vec<(String, String)>) -> (m: usize)
    requires
        s@.len() > 0,
    ensures
        m < s@.len(),
        forall|i: int| 0 <= i < s@.len() ==> lex_le(s@[m as int].1@, (#[trigger] s@[i]).1@),
{
    let mut m: usize = 0;
    let mut i: usize = 1;
    proof {
        lemma_lex_refl(s@[0].1@);
    }
    while i < s.len()
        invariant
            1 <= i <= s@.len(),
            m < i,
            forall|k: int| 0 <= k < i ==> lex_le(s@[m as int].1@, (#[trigger] s@[k]).1@),
        decreases s@.len() - i,
    {
        if !text_le(&s[m].1, &s[i].1) {
            proof {
                let x = s@[i as int].1@;
                let y = s@[m as int].1@;
                lemma_lex_total(y, x);
                assert forall|k: int| 0 <= k < i + 1 implies lex_le(x, (#[trigger] s@[k]).1@) by {
                    if k < i {
                        lemma_lex_trans(x, y, s@[k].1@);
                    } else {
                        lemma_lex_refl(x);
                    }
                }
            }
            m = i;
        }
        i = i + 1;
    }
    m
}

pub(crate) proof fn lemma_lex_refl(a: Seq<char>)
    ensures
        lex_le(a, a),
    decreases a.len(),
{
    if a.len() > 0 {
        lemma_lex_refl(a.drop_first());
    }
}

/// Why signing failed.
#[derive(Debug)]
pub enum SignaturesCacheError {
    InvalidSignature(String),
    SignWithECDSAError(String),
    CanisterError(String),
    AddressError(String),
    SignatureError(String),
}

/// The first step of signing a payload.
#[derive(Debug)]
pub enum SignLookup {
    /// The payload was signed before: this is its signature.
    Cached(Vec<u8>),
    /// Sign this digest of the payload, then `store` the result.
    Sign(Vec<u8>),
}

/// The recovery byte that selects the candidate matching this service's own
/// address: 27 for the first recovery value, 28 for the second.
pub open spec fn recovery_byte(first: Seq<char>, second: Seq<char>, own: Seq<char>) -> Option<u8> {
    if first == own {
        Some(27u8)
    } else if second == own {
        Some(28u8)
    } else {
        None
    }
}

/// Picks the recovery byte of a signature, given the addresses recovered with
/// each recovery value and this service's own address.
pub fn get_eth_v(first: &String, second: &String, own: &String) -> (r: Result<u8, SignaturesCacheError>)
    ensures
        match recovery_byte(first@, second@, own@) {
            Some(v) => r matches Ok(x) && x == v,
            None => r matches Err(SignaturesCacheError::InvalidSignature(_)),
        },
{
    if *first == *own {
        Ok(27)
    } else if *second == *own {
        Ok(28)
    } else {
        Err(SignaturesCacheError::InvalidSignature(String::from_str("no recovery value matches")))
    }
}

/// Signatures of payloads, keyed by the hexadecimal digest of the payload.
#[derive(Debug)]
pub struct SignaturesCache {
    pub signatures: Vec<(String, String)>,
    pub limit: usize,
}

impl SignaturesCache {
    pub open spec fn wf(&self) -> bool {
        keys_unique(self.signatures@)
    }

    /// Digest key to signature text.
    pub open spec fn view(&self) -> Map<Seq<char>, Seq<char>> {
        entry_map(self.signatures@).map_values(|s: String| s@)
    }

    pub fn new() -> (r: SignaturesCache)
        ensures
            r.wf(),
            r@ == Map::<Seq<char>, Seq<char>>::empty(),
            r.limit == DEFAULT_SIGNATURES_LIMIT,
    {
        let r = SignaturesCache { signatures: Vec::new(), limit: DEFAULT_SIGNATURES_LIMIT };
        assert(r@ =~= Map::<Seq<char>, Seq<char>>::empty());
        r
    }

    /// Looks for a signature of `data`; without one, hands out the digest to sign.
    pub fn lookup(&self, data: &Vec<u8>) -> (r: Result<SignLookup, SignaturesCacheError>)
        requires
            self.wf(),
        ensures
            !self@.contains_key(sign_key(data@)) ==> (r matches Ok(SignLookup::Sign(d)) && d@ == keccak_of(
                data@,
            )),
            self@.contains_key(sign_key(data@)) ==> !(r matches Ok(SignLookup::Sign(_))),
            self@.contains_key(sign_key(data@)) && !is_hex(self@[sign_key(data@)]) ==> (r matches Err(
                SignaturesCacheError::InvalidSignature(_),
            )),
            self@.contains_key(sign_key(data@)) && is_hex(self@[sign_key(data@)]) ==> (r matches Ok(
                SignLookup::Cached(v),
            ) && hex_of(v@) == lowered_hex(self@[sign_key(data@)])),
    {
        let digest = keccak256(data.as_slice());
        let key = hex_encode(digest.as_slice());
        match find_key(&self.signatures, &key) {
            None => Ok(SignLookup::Sign(digest)),
            Some(i) => match hex_decode(&self.signatures[i].1) {
                Some(v) => Ok(SignLookup::Cached(v)),
                None => Err(SignaturesCacheError::InvalidSignature(String::from_str("invalid hex"))),
            },
        }
    }

    /// Completes a signature of `digest`: appends the recovery byte that
    /// matches this service's own address and caches the result.
    pub fn store(
        &mut self,
        digest: &Vec<u8>,
        raw_signature: Vec<u8>,
        first: &String,
        second: &String,
        own: &String,
    ) -> (r: Result<Vec<u8>, SignaturesCacheError>)
        requires
            old(self).wf(),
        ensures
            final(self).wf(),
            final(self).limit == old(self).limit,
            recovery_byte(first@, second@, own@) is None ==> (r matches Err(
                SignaturesCacheError::InvalidSignature(_),
            )) && final(self)@ == old(self)@,
            recovery_byte(first@, second@, own@) matches Some(b) ==> (r matches Ok(s) && s@
                == raw_signature@.push(b) && final(self)@ == old(self)@.insert(hex_of(digest@), hex_of(s@))),
    {
        let v = match get_eth_v(first, second, own) {
            Ok(v) => v,
            Err(e) => {
                return Err(e);
            },
        };
        let mut signature = raw_signature;
        signature.push(v);
        let key = hex_encode(digest.as_slice());
        let value = hex_encode(signature.as_slice());
        let ghost m0 = entry_map(self.signatures@);
        put_key(&mut self.signatures, key, value);
        proof {
            assert(self@ =~= old(self)@.insert(hex_of(digest@), hex_of(signature@)));
        }
        Ok(signature)
    }

    /// Bounds the cache. Nothing happens while it holds at most `limit`
    /// entries; beyond that, the entries with the least signature texts go
    /// until `limit` remain.
    pub fn clean(&mut self)
        requires
            old(self).wf(),
        ensures
            final(self).wf(),
            final(self).limit == old(self).limit,
            old(self).signatures@.len() <= old(self).limit ==> final(self).signatures@ == old(
                self,
            ).signatures@,
            old(self).signatures@.len() > old(self).limit ==> {
                let before = old(self).signatures@;
                let after = final(self).signatures@;
                &&& after.len() == old(self).limit
                &&& forall|i: int| 0 <= i < after.len() ==> before.contains(#[trigger] after[i])
                &&& forall|j: int, i: int|
                    0 <= j < before.len() && !after.contains(before[j]) && 0 <= i < after.len()
                        ==> lex_le((#[trigger] before[j]).1@, (#[trigger] after[i]).1@)
            },
    {
        let ghost orig = self.signatures@;
        let ghost mut dropped: Seq<(String, String)> = Seq::empty();
        while self.signatures.len() > self.limit
            invariant
                self.signatures@.len() + dropped.len() == orig.len(),
                dropped.len() == 0 || self.signatures@.len() >= self.limit,
                dropped.len() == 0 ==> self.signatures@ == orig,
                forall|a: int| 0 <= a < self.signatures@.len() ==> orig.contains(#[trigger] self.signatures@[a]),
                forall|b: int| 0 <= b < orig.len() ==> self.signatures@.contains(#[trigger] orig[b]) || dropped.contains(orig[b]),
                forall|d: int, a: int| 0 <= d < dropped.len() && 0 <= a < self.signatures@.len() ==>
                    lex_le((#[trigger] dropped[d]).1@, (#[trigger] self.signatures@[a]).1@),
                keys_unique(self.signatures@),
                self.limit == old(self).limit,
            decreases self.signatures@.len(),
        {
            let m = least(&self.signatures);
            let ghost cur = self.signatures@;
            let ghost x = cur[m as int];
            proof {
                lemma_remove_keeps_unique(cur, m as int);
            }
            self.signatures.remove(m);
            proof {
                let t = self.signatures@;
                let nd = dropped.push(x);
                assert forall|a: int| 0 <= a < t.len() implies orig.contains(#[trigger] t[a]) by {
                    let a2 = if a < m { a } else { a + 1 };
                    assert(t[a] == cur[a2]);
                    assert(orig.contains(cur[a2]));
                }
                assert forall|b: int| 0 <= b < orig.len() implies t.contains(#[trigger] orig[b]) || nd.contains(orig[b]) by {
                    if cur.contains(orig[b]) {
                        let p = choose|p: int| 0 <= p < cur.len() && cur[p] == orig[b];
                        if p == m {
                            assert(nd[nd.len() - 1] == orig[b]);
                        } else if p < m {
                            assert(t[p] == orig[b]);
                        } else {
                            assert(t[p - 1] == orig[b]);
                        }
                    } else {
                        let q = choose|q: int| 0 <= q < dropped.len() && dropped[q] == orig[b];
                        assert(nd[q] == orig[b]);
                    }
                }
                assert forall|d: int, a: int| 0 <= d < nd.len() && 0 <= a < t.len() implies
                    lex_le((#[trigger] nd[d]).1@, (#[trigger] t[a]).1@) by {
                    let a2 = if a < m { a } else { a + 1 };
                    assert(t[a] == cur[a2]);
                    if d < dropped.len() {
                        assert(nd[d] == dropped[d]);
                    }
                }
                dropped = nd;
            }
        }
        proof {
            let after = self.signatures@;
            if orig.len() > self.limit {
                assert forall|j: int, i: int|
                    0 <= j < orig.len() && !after.contains(orig[j]) && 0 <= i < after.len()
                        implies lex_le((#[trigger] orig[j]).1@, (#[trigger] after[i]).1@) by {
                    assert(dropped.contains(orig[j]));
                    let d = choose|d: int| 0 <= d < dropped.len() && dropped[d] == orig[j];
                }
            }
        }
    }
}

/// Once the signature `sig` of a payload is stored under the payload's key, a
/// lookup of the same payload finds a text that decodes to `sig` and to
/// nothing else: no second signing happens, and the same bytes come back.
pub proof fn lemma_signature_content_addressing(m: Map<Seq<char>, Seq<char>>, data: Seq<u8>, sig: Seq<u8>)
    ensures
        m.insert(sign_key(data), hex_of(sig)).contains_key(sign_key(data)),
        is_hex(m.insert(sign_key(data), hex_of(sig))[sign_key(data)]),
        forall|v: Seq<u8>| hex_of(v) == lowered_hex(m.insert(sign_key(data), hex_of(sig))[sign_key(data)]) ==> v == sig,
{
    lemma_hex_is_lower(sig);
    let h = hex_of(sig);
    assert(lowered_hex(h) =~= h) by {
        assert forall|i: int| 0 <= i < h.len() implies hex_digit(crate::address::hex_val(h[i])) == h[i] by {
            let digits = seq!['0', '1', '2', '3', '4', '5', '6', '7', '8', '9', 'a', 'b', 'c', 'd', 'e', 'f'];
            assert(is_lower_hex_digit(h[i]));
        }
    }
    assert forall|v: Seq<u8>| hex_of(v) == lowered_hex(m.insert(sign_key(data), hex_of(sig))[sign_key(data)]) implies v == sig by {
        lemma_hex_injective(v, sig);
    }
}

} // verus!
