//! A URL-shortener core: a bijective integer/token codec, a syntactic URL
//! validator, and the shortening and resolution protocols over an abstract
//! persistence port.

pub mod codec;
pub mod protocol;
pub mod store;
