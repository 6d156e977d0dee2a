//! The verified core of a simulated A-share trading system: market rules, order
//! execution, risk control, stock screening and the decisions of the scheduler.
//!
//! Everything here computes on plain values. Reading databases and clocks, talking to
//! the data service and to the language model, and serving pages is left to the
//! program around the library.

pub mod account;
pub mod accounts;
pub mod adjust;
pub mod adjustment;
pub mod api;
pub mod calendar;
pub mod collector;
pub mod config;
pub mod context;
pub mod dates;
pub mod decimal;
pub mod decision;
pub mod extension;
pub mod intent;
pub mod laws;
pub mod ledger;
pub mod like;
pub mod market;
pub mod number;
pub mod order;
pub mod pages;
pub mod requests;
pub mod risk;
pub mod rules;
pub mod scheduler;
pub mod screen;
pub mod sdk;
pub mod sim;
pub mod store;
pub mod table;
pub mod text;
pub mod web;
