//! Verified core of the Molva peer-to-peer messenger: the local friend
//! database, the chat rules, the mDNS discovery report and the messenger
//! runtime module.

pub mod db;
pub mod text;
pub mod chat;
pub mod discovery;
pub mod messenger;
