//! Hide text in plain sight: each visible character is mapped into the
//! invisible Unicode Tags block by a fixed offset, and the hidden stream is
//! framed by sentinel tag characters so it can be found and decoded again.

pub mod codec;
pub mod laws;
