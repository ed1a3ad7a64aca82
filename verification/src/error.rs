use vstd::prelude::*;

verus! {

/// Why a request to the library was refused.
#[derive(Debug)]
pub enum Error {
    /// The symbol, after upper-casing, is not one of KOSPI, KOSDAQ, USDKRW.
    UnsupportedSymbol(String),
    /// The text is not a `YYYY-MM-DD` date.
    BadDate(String),
    /// The text is not a `YYYY-MM` month.
    BadMonth(String),
    /// The date is valid but its KST instant lies outside what chrono can represent.
    OutOfRange,
    /// Neither a month nor a start date was given for a trend.
    NoRange,
}

} // verus!
