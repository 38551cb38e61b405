use vstd::prelude::*;
use vstd::string::*;

use vstd::utf8::*;

use crate::aggregate::Tally;
use crate::router::regex_matches;
use crate::http_cache::HttpCacheError;

verus! {

/// Least and largest response size that a source may declare (1 byte to 2 MiB).
pub const MIN_EXPECTED_BYTES: u64 = 1;
pub const MAX_EXPECTED_BYTES: u64 = 2097152;

/// A secret that a source's URL takes in place of `{title}`.
#[derive(Debug)]
pub struct ApiKey {
    pub title: String,
    pub key: String,
}

impl ApiKey {
    /// Hides the key.
    pub fn censor(&mut self)
        ensures
            final(self).title == old(self).title,
            final(self).key@ == "***"@,
    {
        self.key = String::from_str("***");
    }
}

/// A web source: a URL, a pointer into its JSON body, and the response size
/// it declares.
#[derive(Debug)]
pub struct HttpSource {
    pub uri: String,
    pub api_keys: Option<Vec<ApiKey>>,
    pub resolver: String,
    pub expected_bytes: Option<u64>,
}

/// A source that reads a field of an EVM event log.
#[derive(Debug)]
pub struct EvmEventLogsSource {
    pub rpc: String,
    pub from_block: Option<u64>,
    pub to_block: Option<u64>,
    pub address: Option<String>,
    pub topic: Option<String>,
    pub block_hash: Option<String>,
    pub log_index: u32,
    pub event_log_field_name: String,
    pub event_name: String,
    pub event_abi: String,
}

#[derive(Debug)]
pub enum Source {
    HttpSource(HttpSource),
    EvmEventLogsSource(EvmEventLogsSource),
}

/// Why a source gave no value.
#[derive(Debug)]
pub enum SourceError {
    FailedToGetLogs(String),
    FailedToParseLogs(String),
    FailedToParseABI(String),
    ValidationError(String),
    InvalidRequest(String),
    LogFieldNotFound(String),
    HttpCacheError(HttpCacheError),
    SerdeError(String),
    Web3Error(String),
}

/// A value that a source's resolver picked out of its response.
#[derive(Debug, PartialEq, Eq)]
pub enum SourceValue {
    /// A JSON string.
    Text(String),
    /// A JSON number, as its decimal text.
    Number(String),
    /// Anything else.
    Other,
}

impl View for SourceValue {
    type V = Seq<char>;

    /// The value's text; nothing for a value that is neither text nor number.
    open spec fn view(&self) -> Seq<char> {
        match self {
            SourceValue::Text(s) => s@,
            SourceValue::Number(s) => s@,
            SourceValue::Other => Seq::empty(),
        }
    }
}

impl Tally for SourceValue {
    fn same(&self, other: &SourceValue) -> (r: bool) {
        match (self, other) {
            (SourceValue::Text(a), SourceValue::Text(b))
            | (SourceValue::Text(a), SourceValue::Number(b))
            | (SourceValue::Number(a), SourceValue::Text(b))
            | (SourceValue::Number(a), SourceValue::Number(b)) => *a == *b,
            (SourceValue::Other, SourceValue::Other) => true,
            (SourceValue::Other, SourceValue::Text(b)) | (SourceValue::Other, SourceValue::Number(b)) => {
                let r = b.as_str().unicode_len() == 0;
                assert(r ==> b@ =~= Seq::<char>::empty());
                r
            },
            (SourceValue::Text(a), SourceValue::Other) | (SourceValue::Number(a), SourceValue::Other) => {
                let r = a.as_str().unicode_len() == 0;
                assert(r ==> a@ =~= Seq::<char>::empty());
                r
            },
        }
    }
}

impl SourceValue {
    pub fn duplicate(&self) -> (r: SourceValue)
        ensures
            r == *self,
    {
        match self {
            SourceValue::Text(s) => SourceValue::Text(s.clone()),
            SourceValue::Number(s) => SourceValue::Number(s.clone()),
            SourceValue::Other => SourceValue::Other,
        }
    }
}

/// One source's value, when it was fetched, and the size of its response.
#[derive(Debug)]
pub struct RateResult {
    pub rate: SourceValue,
    pub cached_at: u64,
    pub bytes: usize,
}

/// What `str::replace` returns: `s` with every `from` replaced by `to`.
pub uninterp spec fn replaced(s: Seq<char>, from: Seq<char>, to: Seq<char>) -> Seq<char>;

/// Relies on `str::replace`, which replaces every match of `from` in `s`.
#[verifier::external_body]
fn replace_all(s: &String, from: &String, to: &String) -> (r: String)
    ensures
        r@ == replaced(s@, from@, to@),
{
    s.replace(from.as_str(), to.as_str())
}

/// The placeholder of a key in a URL: its title in braces.
pub open spec fn placeholder_of(title: Seq<char>) -> Seq<char> {
    seq!['{'] + title + seq!['}']
}

/// `uri` with each key's placeholder replaced by the key, in order.
pub open spec fn url_with_keys(uri: Seq<char>, keys: Seq<ApiKey>) -> Seq<char>
    decreases keys.len(),
{
    if keys.len() == 0 {
        uri
    } else {
        replaced(
            url_with_keys(uri, keys.drop_last()),
            placeholder_of(keys.last().title@),
            keys.last().key@,
        )
    }
}

/// The keys of the source, none when it has none.
pub open spec fn keys_of(s: HttpSource) -> Seq<ApiKey> {
    match s.api_keys {
        Some(k) => k@,
        None => Seq::empty(),
    }
}

pub open spec fn censored_keys(a: Seq<ApiKey>, b: Seq<ApiKey>) -> bool {
    &&& a.len() == b.len()
    &&& forall|i: int| 0 <= i < a.len() ==> (#[trigger] b[i]).title == a[i].title && b[i].key@ == "***"@
}

fn censor_keys(keys: &mut Vec<ApiKey>)
    ensures
        censored_keys(old(keys)@, final(keys)@),
{
    let n = keys.len();
    let mut i: usize = 0;
    while i < n
        invariant
            n == old(keys)@.len(),
            n == keys@.len(),
            i <= n,
            forall|j: int| 0 <= j < i ==> (#[trigger] keys@[j]).title == old(keys)@[j].title && keys@[j].key@ == "***"@,
            forall|j: int| i <= j < n ==> #[trigger] keys@[j] == old(keys)@[j],
        decreases n - i,
    {
        let title = keys[i].title.clone();
        keys.set(i, ApiKey { title, key: String::from_str("***") });
        i = i + 1;
    }
}

impl HttpSource {
    /// The URL with every key's `{title}` replaced by the key.
    pub fn get_url_with_keys(&self) -> (r: String)
        ensures
            r@ == url_with_keys(self.uri@, keys_of(*self)),
    {
        let mut url = self.uri.clone();
        if let Some(api_keys) = &self.api_keys {
            let mut i: usize = 0;
            while i < api_keys.len()
                invariant
                    self.api_keys == Some(*api_keys),
                    i <= api_keys@.len(),
                    url@ == url_with_keys(self.uri@, api_keys@.subrange(0, i as int)),
                decreases api_keys@.len() - i,
            {
                let key = &api_keys[i];
                let open = String::from_str("{");
                let tag = open.concat(key.title.as_str()).concat("}");
                proof {
                    reveal_strlit("{");
                    reveal_strlit("}");
                    assert("{"@ == seq!['{']);
                    assert("}"@ == seq!['}']);
                    assert(api_keys@.subrange(0, i + 1).drop_last() == api_keys@.subrange(0, i as int));
                    assert(tag@ == placeholder_of(key.title@));
                }
                url = replace_all(&url, &tag, &key.key);
                i = i + 1;
            }
            assert(api_keys@.subrange(0, api_keys@.len() as int) == api_keys@);
        }
        url
    }

    /// This source with its keys hidden.
    pub fn censor_keys(&mut self)
        ensures
            final(self).uri == old(self).uri,
            final(self).resolver == old(self).resolver,
            final(self).expected_bytes == old(self).expected_bytes,
            final(self).api_keys is Some <==> old(self).api_keys is Some,
            censored_keys(keys_of(*old(self)), keys_of(*final(self))),
    {
        if let Some(keys) = &mut self.api_keys {
            censor_keys(keys);
        }
    }
}

/// The resolver pattern: JSON pointer segments of letters, digits and `_`.
pub const RATE_RESOLVER_PATTERN: &'static str = "^[[\\p{L}_][\\p{L}\\p{N}_]//*]*$";
/// Seconds for which the fetching proxy may cache a response.
pub const WRAPPER_CACHE_TTL_SUFFIX: &'static str = "&cacheTTL=30000";

/// A byte that percent-encoding leaves as it is.
pub open spec fn url_safe(b: u8) -> bool {
    (48 <= b && b <= 57) || (65 <= b && b <= 90) || (97 <= b && b <= 122) || b == 45 || b == 46
        || b == 95 || b == 126
}

pub open spec fn upper_hex_digit(n: nat) -> char {
    seq!['0', '1', '2', '3', '4', '5', '6', '7', '8', '9', 'A', 'B', 'C', 'D', 'E', 'F'][n as int]
}

/// Percent-encoding of bytes: safe bytes as they are, every other byte as `%`
/// and two upper-case hexadecimal digits.
pub open spec fn percent_encoded(b: Seq<u8>) -> Seq<char>
    decreases b.len(),
{
    if b.len() == 0 {
        Seq::empty()
    } else {
        percent_encoded(b.drop_last()) + if url_safe(b.last()) {
            seq![b.last() as char]
        } else {
            seq!['%', upper_hex_digit(b.last() as nat / 16), upper_hex_digit(b.last() as nat % 16)]
        }
    }
}

/// Relies on `urlencoding::encode`: percent-encodes every byte of the UTF-8
/// text except ASCII letters, digits and `-`, `.`, `_`, `~`.
#[verifier::external_body]
fn url_encode(s: &str) -> (r: String)
    ensures
        r@ == percent_encoded(encode_utf8(s@)),
{
    urlencoding::encode(s).into_owned()
}

/// Whether `s` parses as an absolute URL.
pub uninterp spec fn parses_as_url(s: Seq<char>) -> bool;

/// Relies on `url::Url::parse`, which accepts exactly the absolute URLs.
#[verifier::external_body]
fn is_url(s: &str) -> (r: bool)
    ensures
        r == parses_as_url(s@),
{
    url::Url::parse(s).is_ok()
}

/// Whether `s` is a JSON pointer: empty, `#`, or `/` or `#/` followed by
/// text in which every `~` is followed by `0` or `1`.
pub open spec fn is_json_pointer(s: Seq<char>) -> bool {
    ||| s.len() == 0
    ||| s == seq!['#']
    ||| (s.len() >= 1 && s[0] == '/' && tildes_escaped(s.subrange(1, s.len() as int)))
    ||| (s.len() >= 2 && s[0] == '#' && s[1] == '/' && tildes_escaped(s.subrange(2, s.len() as int)))
}

pub open spec fn tildes_escaped(t: Seq<char>) -> bool {
    forall|i: int| 0 <= i < t.len() && #[trigger] t[i] == '~' ==> i + 1 < t.len() && (t[i + 1] == '0' || t[i + 1] == '1')
}

/// Whether `body` is a JSON text.
pub uninterp spec fn is_json(body: Seq<u8>) -> bool;

/// What the pointer `ptr` leads to in the JSON text `body`, when it leads
/// somewhere: a kind (0 a string, 1 a number, 2 anything else) and, for a
/// string, its text, for a number, its decimal text.
pub uninterp spec fn json_pointed(body: Seq<u8>, ptr: Seq<char>) -> Option<(u8, Seq<char>)>;

/// The kind and text of a picked value, as `json_pointed` gives them.
pub open spec fn value_shape(v: SourceValue) -> (u8, Seq<char>) {
    match v {
        SourceValue::Text(s) => (0u8, s@),
        SourceValue::Number(s) => (1u8, s@),
        SourceValue::Other => (2u8, Seq::empty()),
    }
}

/// Why a value could not be picked out of a body.
pub enum JsonFailure {
    /// The resolver is not a JSON pointer.
    Pointer(String),
    /// The body is not JSON.
    Json(String),
}

/// 1 when the pointer was refused, 2 when the body was, 0 otherwise.
pub open spec fn failure_of(r: Result<Option<SourceValue>, JsonFailure>) -> u8 {
    match r {
        Err(JsonFailure::Pointer(_)) => 1,
        Err(JsonFailure::Json(_)) => 2,
        Ok(_) => 0,
    }
}

/// The kind and text of the value picked, if one was.
pub open spec fn picked_shape(r: Result<Option<SourceValue>, JsonFailure>) -> Option<(u8, Seq<char>)> {
    match r {
        Ok(Some(v)) => Some(value_shape(v)),
        _ => None,
    }
}

/// Relies on `jsonptr::Pointer::try_from`, `serde_json::from_slice` and
/// `jsonptr::Pointer::resolve`: the value that `resolver` points at in the
/// JSON `body`, `None` when it points nowhere.
#[verifier::external_body]
fn pointed_value(body: &Vec<u8>, resolver: &str) -> (r: Result<Option<SourceValue>, JsonFailure>)
    ensures
        failure_of(r) == if !is_json_pointer(resolver@) {
            1u8
        } else if !is_json(body@) {
            2u8
        } else {
            0u8
        },
        failure_of(r) == 0 ==> json_pointed(body@, resolver@) == picked_shape(r),
{
    let ptr = jsonptr::Pointer::try_from(resolver).map_err(|e| JsonFailure::Pointer(format!("{e:?}")))?;
    let value = serde_json::from_slice::<serde_json::Value>(body).map_err(|e| JsonFailure::Json(e.to_string()))?;
    Ok(match ptr.resolve(&value) {
        Ok(serde_json::Value::String(s)) => Some(SourceValue::Text(s.clone())),
        Ok(serde_json::Value::Number(n)) => Some(SourceValue::Number(n.to_string())),
        Ok(_) => Some(SourceValue::Other),
        Err(_) => None,
    })
}

/// Picks the value that `resolver` points at out of a JSON `body`.
pub fn extract_value(body: &Vec<u8>, resolver: &str) -> (r: Result<SourceValue, HttpCacheError>)
    ensures
        !is_json_pointer(resolver@) ==> (r matches Err(HttpCacheError::InvalidResponseBodyResolver(_))),
        is_json_pointer(resolver@) && !is_json(body@) ==> (r matches Err(
            HttpCacheError::InvalidResponseBodyJson(_),
        )),
        is_json_pointer(resolver@) && is_json(body@) ==> match json_pointed(body@, resolver@) {
            Some(p) => (r matches Ok(v) && value_shape(v) == p),
            None => (r matches Err(HttpCacheError::InvalidResponseBodyResolver(_))),
        },
{
    match pointed_value(body, resolver) {
        Err(JsonFailure::Pointer(msg)) => Err(HttpCacheError::InvalidResponseBodyResolver(msg)),
        Err(JsonFailure::Json(msg)) => Err(HttpCacheError::InvalidResponseBodyJson(msg)),
        Ok(Some(v)) => Ok(v),
        Ok(None) => Err(HttpCacheError::InvalidResponseBodyResolver(String::from_str("value not found"))),
    }
}

/// Whether a web source is well formed: its URI is a URL, its resolver has
/// the resolver shape, and its declared size is between 1 byte and 2 MiB.
pub open spec fn source_valid(s: HttpSource) -> bool {
    &&& parses_as_url(s.uri@)
    &&& regex_matches(RATE_RESOLVER_PATTERN@, s.resolver@)
    &&& s.expected_bytes matches Some(n) ==> MIN_EXPECTED_BYTES <= n <= MAX_EXPECTED_BYTES
}

/// The request a source's fetch makes.
#[derive(Debug)]
pub struct OutcallRequest {
    pub url: String,
    pub max_response_bytes: Option<u64>,
    pub headers: Vec<(String, String)>,
}

/// The headers sent with every fetch of a source.
pub fn get_default_headers() -> (r: Vec<(String, String)>)
    ensures
        r@.len() == 2,
        r@[0].0@ == "Content-Type"@ && r@[0].1@ == "application/json"@,
        r@[1].0@ == "User-Agent"@ && r@[1].1@ == "sybil"@,
{
    let mut h: Vec<(String, String)> = Vec::new();
    h.push((String::from_str("Content-Type"), String::from_str("application/json")));
    h.push((String::from_str("User-Agent"), String::from_str("sybil")));
    h
}

impl HttpSource {
    /// Checks the source's fields.
    pub fn validate(&self) -> (r: Result<(), SourceError>)
        ensures
            !parses_as_url(self.uri@) ==> (r matches Err(SourceError::ValidationError(_))),
            (self.expected_bytes matches Some(n) && !(MIN_EXPECTED_BYTES <= n <= MAX_EXPECTED_BYTES)) ==> (
            r matches Err(SourceError::ValidationError(_))),
            r is Ok <==> source_valid(*self),
    {
        if !is_url(self.uri.as_str()) {
            return Err(SourceError::ValidationError(String::from_str("uri: invalid url")));
        }
        if let Some(n) = self.expected_bytes {
            if n < MIN_EXPECTED_BYTES || n > MAX_EXPECTED_BYTES {
                return Err(SourceError::ValidationError(String::from_str("expected_bytes: out of range")));
            }
        }
        match crate::router::regex_is_match(RATE_RESOLVER_PATTERN, self.resolver.as_str()) {
            Some(true) => Ok(()),
            _ => Err(SourceError::ValidationError(String::from_str("resolver: invalid resolver"))),
        }
    }

    /// The request that fetches this source through the caching proxy at
    /// `rpc_wrapper`: the URL with its keys, percent-encoded, after the
    /// proxy's address.
    pub fn outcall_request(&self, rpc_wrapper: &String) -> (r: OutcallRequest)
        ensures
            r.url@ == rpc_wrapper@ + percent_encoded(encode_utf8(url_with_keys(self.uri@, keys_of(*self))))
                + WRAPPER_CACHE_TTL_SUFFIX@,
            r.max_response_bytes == self.expected_bytes,
            r.headers@.len() == 2,
    {
        let target = self.get_url_with_keys();
        let encoded = url_encode(target.as_str());
        let url = rpc_wrapper.clone().concat(encoded.as_str()).concat(WRAPPER_CACHE_TTL_SUFFIX);
        OutcallRequest { url, max_response_bytes: self.expected_bytes, headers: get_default_headers() }
    }

    /// What a fetch of this source that returned `body`, cached at
    /// `cached_at`, gives.
    pub fn rate_result(&self, body: &Vec<u8>, cached_at: u64) -> (r: Result<RateResult, SourceError>)
        ensures
            r matches Ok(x) ==> x.cached_at == cached_at && x.bytes == body@.len() && is_json_pointer(
                self.resolver@,
            ) && is_json(body@) && json_pointed(body@, self.resolver@) == Some(value_shape(x.rate)),
            is_json_pointer(self.resolver@) && is_json(body@) && json_pointed(body@, self.resolver@) is Some
                ==> r is Ok,
            !is_json_pointer(self.resolver@) || !is_json(body@) || json_pointed(body@, self.resolver@) is None
                ==> r is Err,
            !is_json_pointer(self.resolver@) ==> (r matches Err(SourceError::HttpCacheError(
                HttpCacheError::InvalidResponseBodyResolver(_),
            ))),
    {
        match extract_value(body, self.resolver.as_str()) {
            Ok(rate) => Ok(RateResult { rate, cached_at, bytes: body.len() }),
            Err(e) => Err(SourceError::HttpCacheError(e)),
        }
    }
}

} // verus!
