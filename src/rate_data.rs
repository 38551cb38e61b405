use vstd::prelude::*;
use vstd::string::*;
use vstd::utf8::*;

use crate::signatures::{hex_encode, hex_of};

verus! {

/// An answer of the oracle, one variant per kind of feed.
#[derive(Debug)]
#[allow(inconsistent_fields)]
pub enum AssetData {
    DefaultPriceFeed { symbol: String, rate: u64, decimals: u64, timestamp: u64 },
    CustomPriceFeed { symbol: String, rate: u64, decimals: u64, timestamp: u64 },
    CustomNumber { id: String, value: u64, decimals: u64 },
    CustomString { id: String, value: String },
}

/// The `n` low bytes of `v`, most significant first.
pub open spec fn be_bytes(v: nat, n: nat) -> Seq<u8>
    decreases n,
{
    if n == 0 {
        Seq::empty()
    } else {
        be_bytes(v / 256, (n - 1) as nat).push((v % 256) as u8)
    }
}

/// An unsigned integer as a 32-byte big-endian word.
pub open spec fn word(v: u64) -> Seq<u8> {
    be_bytes(v as nat, 32)
}

/// The packed encoding of an answer: each text as its UTF-8 bytes, each
/// integer as a 32-byte big-endian word, in field order.
pub open spec fn packed(d: AssetData) -> Seq<u8> {
    match d {
        AssetData::DefaultPriceFeed { symbol, rate, decimals, timestamp } => encode_utf8(symbol@)
            + word(rate) + word(decimals) + word(timestamp),
        AssetData::CustomPriceFeed { symbol, rate, decimals, timestamp } => encode_utf8(symbol@)
            + word(rate) + word(decimals) + word(timestamp),
        AssetData::CustomNumber { id, value, decimals } => encode_utf8(id@) + word(value) + word(
            decimals,
        ),
        AssetData::CustomString { id, value } => encode_utf8(id@)
            + encode_utf8(value@),
    }
}

fn be_bytes_of(v: u64, n: usize) -> (r: Vec<u8>)
    ensures
        r@ == be_bytes(v as nat, n as nat),
    decreases n,
{
    if n == 0 {
        Vec::new()
    } else {
        let mut r = be_bytes_of(v / 256, n - 1);
        r.push((v % 256) as u8);
        r
    }
}

fn push_word(out: &mut Vec<u8>, v: u64)
    ensures
        final(out)@ == old(out)@ + word(v),
{
    let mut w = be_bytes_of(v, 32);
    out.append(&mut w);
}

fn push_text(out: &mut Vec<u8>, s: &String)
    ensures
        final(out)@ == old(out)@ + encode_utf8(s@),
{
    let mut b = s.as_str().as_bytes_vec();
    out.append(&mut b);
}

/// Appends the packed encoding of `d` to `out`.
fn push_packed(out: &mut Vec<u8>, d: &AssetData)
    ensures
        final(out)@ == old(out)@ + packed(*d),
{
    let ghost start = out@;
    match d {
        AssetData::DefaultPriceFeed { symbol, rate, decimals, timestamp }
        | AssetData::CustomPriceFeed { symbol, rate, decimals, timestamp } => {
            push_text(out, symbol);
            push_word(out, *rate);
            push_word(out, *decimals);
            push_word(out, *timestamp);
            assert(out@ == start + packed(*d));
        },
        AssetData::CustomNumber { id, value, decimals } => {
            push_text(out, id);
            push_word(out, *value);
            push_word(out, *decimals);
            assert(out@ == start + packed(*d));
        },
        AssetData::CustomString { id, value } => {
            push_text(out, id);
            push_text(out, value);
            assert(out@ == start + packed(*d));
        },
    }
}

impl AssetData {
    pub fn duplicate(&self) -> (r: AssetData)
        ensures
            r == *self,
    {
        match self {
            AssetData::DefaultPriceFeed { symbol, rate, decimals, timestamp } => AssetData::DefaultPriceFeed {
                symbol: symbol.clone(),
                rate: *rate,
                decimals: *decimals,
                timestamp: *timestamp,
            },
            AssetData::CustomPriceFeed { symbol, rate, decimals, timestamp } => AssetData::CustomPriceFeed {
                symbol: symbol.clone(),
                rate: *rate,
                decimals: *decimals,
                timestamp: *timestamp,
            },
            AssetData::CustomNumber { id, value, decimals } => AssetData::CustomNumber {
                id: id.clone(),
                value: *value,
                decimals: *decimals,
            },
            AssetData::CustomString { id, value } => AssetData::CustomString {
                id: id.clone(),
                value: value.clone(),
            },
        }
    }

    /// The answer's timestamp, where its kind has one.
    pub open spec fn timestamp_of(self) -> Option<u64> {
        match self {
            AssetData::DefaultPriceFeed { timestamp, .. } => Some(timestamp),
            AssetData::CustomPriceFeed { timestamp, .. } => Some(timestamp),
            _ => None,
        }
    }
}

impl Default for AssetData {
    fn default() -> (r: AssetData)
        ensures
            r matches AssetData::DefaultPriceFeed { symbol, rate, decimals, timestamp }
                && symbol@.len() == 0 && rate == 0 && decimals == 0 && timestamp == 0,
    {
        AssetData::DefaultPriceFeed { symbol: String::new(), rate: 0, decimals: 0, timestamp: 0 }
    }
}

/// An answer with the signature that attests it, if it was signed.
#[derive(Debug)]
pub struct AssetDataResult {
    pub data: AssetData,
    pub signature: Option<String>,
}

impl AssetDataResult {
    pub fn duplicate(&self) -> (r: AssetDataResult)
        ensures
            r == *self,
    {
        let signature = match &self.signature {
            Some(s) => Some(s.clone()),
            None => None,
        };
        AssetDataResult { data: self.data.duplicate(), signature }
    }

    /// Attaches a signature, as hexadecimal text.
    pub fn set_signature(&mut self, signature: &Vec<u8>)
        ensures
            final(self).data == old(self).data,
            final(self).signature matches Some(s) && s@ == hex_of(signature@),
    {
        self.signature = Some(hex_encode(signature.as_slice()));
    }

    /// The bytes that a signature over this answer covers.
    pub fn encode(&self) -> (r: Vec<u8>)
        ensures
            r@ == packed(self.data),
    {
        let mut out: Vec<u8> = Vec::new();
        push_packed(&mut out, &self.data);
        assert(out@ == packed(self.data));
        out
    }
}

/// Several answers under one signature.
#[derive(Debug)]
pub struct MultipleAssetsDataResult {
    pub data: Vec<AssetData>,
    pub signature: Option<String>,
}

/// The packed encodings of `ds`, one after another.
pub open spec fn packed_all(ds: Seq<AssetData>) -> Seq<u8>
    decreases ds.len(),
{
    if ds.len() == 0 {
        Seq::empty()
    } else {
        packed_all(ds.drop_last()) + packed(ds.last())
    }
}

impl MultipleAssetsDataResult {
    /// Attaches a signature, as hexadecimal text.
    pub fn set_signature(&mut self, signature: &Vec<u8>)
        ensures
            final(self).data == old(self).data,
            final(self).signature matches Some(s) && s@ == hex_of(signature@),
    {
        self.signature = Some(hex_encode(signature.as_slice()));
    }

    /// The bytes that a signature over these answers covers.
    pub fn encode(&self) -> (r: Vec<u8>)
        ensures
            r@ == packed_all(self.data@),
    {
        let mut out: Vec<u8> = Vec::new();
        let mut i: usize = 0;
        while i < self.data.len()
            invariant
                i <= self.data@.len(),
                out@ == packed_all(self.data@.subrange(0, i as int)),
            decreases self.data@.len() - i,
        {
            proof {
                assert(self.data@.subrange(0, i + 1).drop_last() == self.data@.subrange(0, i as int));
            }
            push_packed(&mut out, &self.data[i]);
            i = i + 1;
        }
        assert(self.data@.subrange(0, self.data@.len() as int) == self.data@);
        out
    }
}

} // verus!
