//! Verified core of a GSM modem dashboard: SMS PDU encoding and decoding,
//! GSM 7-bit packing, USSD session handling, AT response parsing, delivery
//! report tracking, logging, contacts, settings and scheduled messages.

pub mod cell;
pub mod concat;
pub mod contacts;
pub mod delivery;
pub mod gsm;
pub mod hex;
pub mod inbox;
pub mod lines;
pub mod logbook;
pub mod modem;
pub mod pdu;
pub mod ports;
pub mod scan;
pub mod schedule;
pub mod sending;
pub mod septets;
pub mod settings;
pub mod submit;
pub mod terminal;
pub mod text;
pub mod ussd;
