//! A single-merchant card-key shop: catalogue, stock of card keys, orders with
//! stock locking, payment signatures, and the text the shop sends out.

pub mod text;
pub mod money;
pub mod util;
pub mod like;
pub mod models;
pub mod catalog;
pub mod cards;
pub mod orders;
pub mod auth;
pub mod guard;
pub mod payment;
pub mod config;
pub mod upload;
pub mod mailer;
pub mod pages;
pub mod setup;
pub mod demo;
pub mod stock_laws;
pub mod clock;
