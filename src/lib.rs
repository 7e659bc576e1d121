//! Construction of the kick-off transaction of a two-way Bitcoin bridge, with the
//! connectors whose scripts it pays to, its BIP143 signing, and its wire form.

pub mod connectors;
pub mod crypto;
pub mod decode;
pub mod encode;
pub mod kick_off_2;
pub mod signing;
pub mod types;
