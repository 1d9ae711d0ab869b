//! Locates the boundaries between consecutive songs inside a single-file
//! recording of a live concert, given the recording and an ordered setlist of
//! expected song titles. Noisy per-frame OCR text is matched against a fuzzy
//! catalog of titles, coarse boundaries are refined frame-by-frame and by an
//! acoustic energy profile, and the result is assembled into an ordered,
//! contiguous sequence of time-stamped song segments.

pub mod archive;
pub mod audio;
pub mod concert;
pub mod ocr;
pub mod scrape;
pub mod segments;
pub mod textops;
pub mod video;
