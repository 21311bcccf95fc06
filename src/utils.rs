use vstd::prelude::*;
use crate::numtext::{nat_text, u64_text};

verus! {

/// A value that can say how long ago it was.
pub trait RelativeTime {
    fn relative_time(&self) -> String;
}

/// An age in seconds said in words, coarser as it grows. Past a year and a
/// half it is given in whole years.
pub open spec fn english_age(seconds: nat) -> Seq<char> {
    let minutes = seconds / 60;
    let hours = minutes / 60;
    let days = hours / 24;
    let months = days / 30;
    if seconds < 30 {
        nat_text(seconds) + " secs ago"@
    } else if seconds < 90 {
        "min ago"@
    } else if minutes < 44 {
        nat_text(minutes) + " mins ago"@
    } else if minutes < 90 {
        "an hr ago"@
    } else if hours < 25 {
        nat_text(hours) + " hrs ago"@
    } else if hours < 42 {
        "a day ago"@
    } else if days < 30 {
        nat_text(days) + " days ago"@
    } else if days < 45 {
        "a month ago"@
    } else if days < 365 {
        nat_text(months) + " months ago"@
    } else if 2 * days < 3 * 365 {
        "one year ago"@
    } else {
        nat_text(days / 365) + " years ago"@
    }
}

fn with_suffix(n: u64, suffix: &str) -> (r: String)
    ensures
        r@ == nat_text(n as nat) + suffix@,
{
    u64_text(n).concat(suffix)
}

/// Says in words how long ago something was, given its age in seconds.
pub fn time_to_english(seconds: u64) -> (r: String)
    ensures
        r@ == english_age(seconds as nat),
{
    let minutes = seconds / 60;
    let hours = minutes / 60;
    let days = hours / 24;
    let months = days / 30;
    if seconds < 30 {
        with_suffix(seconds, " secs ago")
    } else if seconds < 90 {
        String::from_str("min ago")
    } else if minutes < 44 {
        with_suffix(minutes, " mins ago")
    } else if minutes < 90 {
        String::from_str("an hr ago")
    } else if hours < 25 {
        with_suffix(hours, " hrs ago")
    } else if hours < 42 {
        String::from_str("a day ago")
    } else if days < 30 {
        with_suffix(days, " days ago")
    } else if days < 45 {
        String::from_str("a month ago")
    } else if days < 365 {
        with_suffix(months, " months ago")
    } else if days < 548 {
        String::from_str("one year ago")
    } else {
        with_suffix(days / 365, " years ago")
    }
}

} // verus!
