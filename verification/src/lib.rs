//! The verified core of `postal`, a small server that answers HTTP POST requests by running
//! commands.

pub mod arguments;
pub mod endpoint;
pub mod failure;
pub mod multipart;
pub mod naming;
pub mod output;
pub mod response;
pub mod submission;
pub mod text;
pub mod urlencoded;
