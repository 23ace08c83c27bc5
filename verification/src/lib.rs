//! Verified core of a launcher for Java Web Start administrators: the
//! connection store, the JNLP reading and launch planning, and the small
//! text rules that keep connection data from reaching paths, argv or
//! desktop files in a harmful form.

pub mod text;
pub mod connection;
pub mod codec;
pub mod webstart;
pub mod xml;
pub mod desktop;
pub mod launch;
pub mod laws;
