//! The remote "season" directory: an academic-year range with an August cutoff.
use vstd::prelude::*;
use crate::text::{decimal, push_decimal};

verus! {

/// The season directory of a date in `month` of `year`: the season starts in
/// August, so earlier months belong to the season that began the year before.
pub open spec fn season_of(month: nat, year: nat) -> Seq<char> {
    if month < 8 {
        decimal((year - 1) as nat) + seq!['-'] + decimal(year)
    } else {
        decimal(year) + seq!['-'] + decimal(year + 1)
    }
}

/// The name of the remote directory that holds the sessions of the season
/// that `month` of `year` belongs to.
pub fn season_directory(month: u64, year: u64) -> (r: String)
    requires
        month >= 8 || year >= 1,
        month < 8 || year < u64::MAX,
    ensures
        r@ == season_of(month as nat, year as nat),
{
    let (first, second) = if month < 8 {
        (year - 1, year)
    } else {
        (year, year + 1)
    };
    let mut r = String::new();
    push_decimal(&mut r, first);
    crate::text::push_char(&mut r, '-');
    push_decimal(&mut r, second);
    assert(r@ =~= season_of(month as nat, year as nat));
    r
}

} // verus!
