//! What the screen shows, as styled text: the hex rows, the decode and stats
//! panels, the status bar and the popups. Drawing it with a terminal library
//! happens outside this library.
//!
//! - [`style`]: colours, styles, spans and cells.
//! - [`hex`]: rows of the hex view.
//! - [`panels`]: the decode panel, the stats panel and the status bar.
//! - [`popups`]: the help and decoder settings popups.

pub mod hex;
pub mod panels;
pub mod popups;
pub mod style;
