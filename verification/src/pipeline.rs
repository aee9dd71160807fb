//! From the content of the input file to the text of the output file.

use crate::band::StrikeBand;
use crate::calendar::{window_at, Moment, WindowError};
use crate::decimal::{Price, PriceView};
use crate::document::{entries_in, load_records, loaded, render_records, WriteError};
use crate::filter::{filter_in_window, filter_options, selected, FilterSettings};
use crate::json::pretty;
use crate::loader::{beginning, LoadError, PREVIEW_CHARS};
use crate::window::ExpiryWindow;
use vstd::prelude::*;

verus! {

/// What a run gives: the text to write, and how many records were loaded
/// and how many of them were kept.
#[derive(Debug, PartialEq, Eq)]
pub struct Output {
    pub text: String,
    pub loaded: usize,
    pub kept: usize,
}

/// Why a run gave no text.
#[derive(Debug, PartialEq, Eq)]
pub enum RunError {
    /// The content holds no records.
    Load(LoadError),
    /// The moment has no expiry window.
    Window(WindowError),
    /// The kept records could not be written.
    Write(WriteError),
}

/// What a run gives for a window: the records are loaded from the content,
/// those that the rule admits are kept, and the kept entries are written, in
/// ascending order of expiry and with every field they came with, as one
/// indented JSON array.
pub open spec fn run_in_window(
    content: Seq<char>,
    reference_price: PriceView,
    window: ExpiryWindow,
    settings: &FilterSettings,
) -> Result<(Seq<char>, nat, nat), Option<Seq<char>>> {
    match loaded(content) {
        Err(why) => Err(Some(why)),
        Ok(records) => {
            let kept = selected(records, settings.rule(reference_price, window));
            match pretty(entries_in(kept)) {
                Some(text) => Ok((text, records.len(), kept.len())),
                None => Err(None),
            }
        },
    }
}

/// Loads the records from the content of the input file, selects those that
/// the settings admit in the given window for the given reference price, and
/// writes the kept entries.
///
/// Fails where the content holds no records, and else where the kept entries
/// cannot be written.
pub fn select_in_window(
    content: &str,
    reference_price: &Price,
    window: ExpiryWindow,
    settings: &FilterSettings,
) -> (outcome: Result<Output, RunError>)
    ensures
        match run_in_window(content@, reference_price@, window, settings) {
            Err(Some(why)) => outcome matches Err(
                RunError::Load(LoadError::Parse { reason, preview }),
            ) && reason@ == why && preview@ == beginning(content@, PREVIEW_CHARS as int),
            Err(None) => outcome == Err::<Output, RunError>(RunError::Write(WriteError::Encode)),
            Ok((text, loaded, kept)) => {
                &&& outcome is Ok
                &&& outcome->Ok_0.text@ == text
                &&& outcome->Ok_0.loaded == loaded
                &&& outcome->Ok_0.kept == kept
            },
        },
{
    let records = match load_records(content) {
        Ok(records) => records,
        Err(error) => {
            return Err(RunError::Load(error));
        },
    };
    let loaded = records.len();
    let band = StrikeBand::around(reference_price.clone(), settings.strike_radius);
    let kept = filter_in_window(&records, &settings.accepted_names, window, &band);
    let count = kept.len();
    match render_records(kept) {
        Ok(text) => Ok(Output { text, loaded, kept: count }),
        Err(reason) => Err(RunError::Write(reason)),
    }
}

/// Loads the records from the content of the input file, selects those that
/// the settings admit at the moment `now` for the given reference price, and
/// writes the kept entries. The window is that of a zone that keeps the
/// offset of the moment.
///
/// Fails where the content holds no records; else where `now` has no expiry
/// window; else where the kept entries cannot be written.
pub fn select_from_content(
    content: &str,
    reference_price: &Price,
    now: Moment,
    settings: &FilterSettings,
) -> (outcome: Result<Output, RunError>)
    ensures
        match loaded(content@) {
            Err(why) => outcome matches Err(RunError::Load(LoadError::Parse { reason, preview }))
                && reason@ == why && preview@ == beginning(content@, PREVIEW_CHARS as int),
            Ok(records) => match window_at(now) {
                Err(reason) => outcome == Err::<Output, RunError>(RunError::Window(reason)),
                Ok(window) => {
                    let kept = selected(records, settings.rule(reference_price@, window));
                    match pretty(entries_in(kept)) {
                        None => outcome == Err::<Output, RunError>(
                            RunError::Write(WriteError::Encode),
                        ),
                        Some(text) => {
                            &&& outcome is Ok
                            &&& outcome->Ok_0.text@ == text
                            &&& outcome->Ok_0.loaded == records.len()
                            &&& outcome->Ok_0.kept == kept.len()
                        },
                    }
                },
            },
        },
{
    let records = match load_records(content) {
        Ok(records) => records,
        Err(error) => {
            return Err(RunError::Load(error));
        },
    };
    let loaded = records.len();
    let kept = match filter_options(&records, reference_price, now, settings) {
        Ok(kept) => kept,
        Err(reason) => {
            return Err(RunError::Window(reason));
        },
    };
    let count = kept.len();
    match render_records(kept) {
        Ok(text) => Ok(Output { text, loaded, kept: count }),
        Err(reason) => Err(RunError::Write(reason)),
    }
}

} // verus!
