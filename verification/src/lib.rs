pub mod bluesky;
pub mod fetch;
pub mod charclass;
pub mod json;
pub mod laws;
pub mod router;
pub mod text;
pub mod twitter;
pub mod xml;
pub mod youtube;
