// Per-minute HTTP status-class counters served as a small virtual filesystem:
// `window` holds the buckets, `render` turns them into tables, `extract` classifies
// written log lines, and `fs` answers the filesystem calls.

pub mod window;
pub mod render;
pub mod extract;
pub mod fs;
