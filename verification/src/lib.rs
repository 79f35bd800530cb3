use vstd::prelude::*;

pub mod broll;
pub mod chapter;
pub mod commands;
pub mod cues;
pub mod caption_presets;
pub mod doc;
pub mod edit;
pub mod edit_history;
pub mod error;
pub mod export_settings;
pub mod framing;
pub mod jobs;
pub mod modelconfig;
pub mod preflight;
pub mod rebind;
pub mod reindex;
pub mod search;
pub mod soft_cut;
pub mod speakers;
pub mod substyle;
pub mod subtitle;
pub mod text;
pub mod title;

verus! {

/// The application's version.
pub const VERSION: &'static str = "0.1.0";

/// The progress after a report: the reported value capped at 100, but never
/// below the current progress.
pub open spec fn advanced(current: u8, reported: u8) -> u8 {
    if reported > 100 { if current > 100 { current } else { 100 } } else if current > reported { current } else { reported }
}

/// Progress reported by a background pipeline never exceeds 100 and never
/// moves backwards.
pub fn advance_progress(current: u8, reported: u8) -> (r: u8)
    ensures
        r == advanced(current, reported),
        r == if reported > 100 { if current > 100 { current } else { 100 } } else if current > reported { current } else { reported },
{
    let capped = if reported < 100 { reported } else { 100 };
    if current > capped { current } else { capped }
}

} // verus!
