use vstd::prelude::*;

verus! {

#[derive(Debug, Clone, Copy, PartialEq, Eq, Structural)]
pub enum AssetClass {
    Cryptocurrency,
    FiatCurrency,
}

/// An asset as the exchange-rate service names it.
#[derive(Debug)]
pub struct Asset {
    pub class: AssetClass,
    pub symbol: String,
}

/// A question to the exchange-rate service.
#[derive(Debug)]
pub struct GetExchangeRateRequest {
    pub timestamp: Option<u64>,
    pub quote_asset: Asset,
    pub base_asset: Asset,
}

#[derive(Debug, Clone, Copy, PartialEq, Eq, Structural)]
pub struct ExchangeRateMetadata {
    pub decimals: u32,
    pub forex_timestamp: Option<u64>,
    pub quote_asset_num_received_rates: u64,
    pub base_asset_num_received_rates: u64,
    pub base_asset_num_queried_sources: u64,
    pub standard_deviation: u64,
    pub quote_asset_num_queried_sources: u64,
}

/// An answer of the exchange-rate service.
#[derive(Debug)]
pub struct ExchangeRate {
    pub metadata: ExchangeRateMetadata,
    pub rate: u64,
    pub timestamp: u64,
    pub quote_asset: Asset,
    pub base_asset: Asset,
}

/// The errors of the exchange-rate service.
#[derive(Debug, PartialEq, Eq)]
pub enum ExchangeRateError {
    AnonymousPrincipalNotAllowed,
    Pending,
    CryptoBaseAssetNotFound,
    CryptoQuoteAssetNotFound,
    StablecoinRateNotFound,
    StablecoinRateTooFewRates,
    StablecoinRateZeroRate,
    ForexInvalidTimestamp,
    ForexBaseAssetNotFound,
    ForexQuoteAssetNotFound,
    ForexAssetsNotFound,
    RateLimited,
    NotEnoughCycles,
    FailedToAcceptCycles,
    InconsistentRatesReceived,
    Other { code: u32, description: String },
}

/// The exchange-rate service's answer as it comes over the wire.
#[derive(Debug)]
pub enum GetExchangeRateResult {
    Rate(ExchangeRate),
    Failure(ExchangeRateError),
}

impl GetExchangeRateResult {
    pub fn into_result(self) -> (r: Result<ExchangeRate, ExchangeRateError>)
        ensures
            match self {
                GetExchangeRateResult::Rate(x) => r == Ok::<ExchangeRate, ExchangeRateError>(x),
                GetExchangeRateResult::Failure(e) => r == Err::<ExchangeRate, ExchangeRateError>(e),
            },
    {
        match self {
            GetExchangeRateResult::Rate(x) => Ok(x),
            GetExchangeRateResult::Failure(e) => Err(e),
        }
    }
}

} // verus!
