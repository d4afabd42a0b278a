//! A dimmable light's brightness attribute backed by a slot of a device bus:
//! the percentage-to-raw codec, the controller that correlates each command
//! with its outcome (reply, transport error or timeout, exactly once), and
//! the attribute that turns outcomes into reports.

pub mod brightness;
pub mod codec;
pub mod controller;
pub mod request;
