//! Hato: the verified engine of a peer-to-peer file transfer tool.
//!
//! What the tool decides and computes stands here; the network, the disk and the
//! user interfaces are around it. At the bottom are texts and numbers: [`text`],
//! [`numbers`], [`order`], and [`traces`] for counting in records. On them rest the
//! parts of a transfer ([`transfer`], [`ticket`], [`endpoint`], [`scratch`]), the
//! people in it ([`names`], [`contacts`], [`pairing`]), the flows of the tool, step
//! by step ([`sending`], [`serving`], [`receiving`], [`listen`], [`editing`]), the
//! self-update ([`version`], [`update`], [`checksum`]), and what the user is told
//! ([`errors`], [`report`]).

pub mod checksum;
pub mod contacts;
pub mod editing;
pub mod endpoint;
pub mod errors;
pub mod front;
pub mod listen;
pub mod names;
pub mod numbers;
pub mod order;
pub mod pairing;
pub mod receiving;
pub mod report;
pub mod scratch;
pub mod sending;
pub mod serving;
pub mod text;
pub mod ticket;
pub mod traces;
pub mod transfer;
pub mod update;
pub mod version;
