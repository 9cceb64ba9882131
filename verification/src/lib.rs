//! Core of a Wake-on-LAN service: a hardware-address codec, the magic-packet
//! encoder, and a fault-tolerant address-book loader.
//!
//! Everything here is pure computation on values; the surrounding program
//! does the socket and file work and hands plain values in and out.

pub mod book;
pub mod codec;
pub mod packet;
pub mod wake;
