//! Verified core of a real-time process resource tracker: a bounded time
//! series of samples, the process picker (search, ordering, navigation) and
//! the monitoring state machine that turns samples and key presses into
//! state changes.

pub mod app;
pub mod clock;
pub mod metrics;
pub mod picker;
pub mod sampler;
pub mod text;
