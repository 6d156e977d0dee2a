//! What the operations of the library do, said of their inputs and results alone: prices,
//! costs, quantities, dates and cash, and how the results of several calls relate.

pub mod bars;
pub mod books;
pub mod checks;
pub mod cuts;
pub mod dividends;
pub mod exchange;
pub mod files;
pub mod orders;
pub mod quotes;
pub mod ranking;
pub mod replies;
pub mod reviews;
pub mod rounds;
pub mod scores;
pub mod service;
pub mod views;
pub mod words;
