//! A minimal HTTP/1.x message codec: request text is decoded into a structured
//! request, and a structured response is encoded into its wire text.

pub mod headers;
pub mod httprequest;
pub mod httpresponse;
pub mod laws;
pub mod text;
