use vstd::prelude::*;

verus! {

/// The price data wanted for one symbol over a range of dates.
#[allow(dead_code)]
pub struct DataHandler {
    symbol: String,
    start_date: String,
    end_date: String,
}

} // verus!
