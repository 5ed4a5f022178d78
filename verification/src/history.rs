//! The history: which of its folders are older than the storage period.
use vstd::prelude::*;
use chrono::Datelike;
use chrono::NaiveDate;

verus! {

/// The day that `text` names when read in `format` by `chrono`, as its number in the
/// Gregorian calendar, the first of January of the year 1 being day 1; none where the text
/// is no date in that format.
pub uninterp spec fn date_number(text: Seq<char>, format: Seq<char>) -> Option<i32>;

/// `chrono::NaiveDate::parse_from_str`, then `num_days_from_ce`.
#[verifier::external_body]
pub(crate) fn parse_date(text: &str, format: &str) -> (day: Option<i32>)
    ensures
        day == date_number(text@, format@),
{
    match NaiveDate::parse_from_str(text, format) {
        Ok(date) => Some(date.num_days_from_ce()),
        Err(_) => None,
    }
}

/// The day that a time stamp names.
pub fn day_of(timestamp: &str, time_format: &str) -> (day: Option<i32>)
    ensures
        day == date_number(timestamp@, time_format@),
{
    parse_date(timestamp, time_format)
}

/// Whether a folder of the day `folder_day` is older, on the day `current_day`, than the
/// storage period allows.
pub open spec fn is_outdated(current_day: i32, folder_day: i32, storage_period: usize) -> bool {
    current_day - folder_day > storage_period
}

/// Whether the folder is to be removed: none where its name is no date.
pub open spec fn outdated_folder(
    current_day: i32,
    folder_name: Seq<char>,
    time_format: Seq<char>,
    storage_period: usize,
) -> Option<bool> {
    match date_number(folder_name, time_format) {
        Some(folder_day) => Some(is_outdated(current_day, folder_day, storage_period)),
        None => None,
    }
}

/// Decides whether a folder of the history is older than the storage period.
pub fn update_sliding_window(
    folder_name: &str,
    current_day: i32,
    storage_period: usize,
    time_format: &str,
) -> (outdated: Option<bool>)
    ensures
        outdated == outdated_folder(current_day, folder_name@, time_format@, storage_period),
{
    match parse_date(folder_name, time_format) {
        Some(folder_day) => {
            let days: i64 = current_day as i64 - folder_day as i64;
            Some(days > 0 && days as u64 > storage_period as u64)
        },
        None => None,
    }
}

} // verus!
