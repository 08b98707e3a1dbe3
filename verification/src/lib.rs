//! Listing model, formatting, argument handling and collection rules of
//! the `lsef` file lister.
use vstd::prelude::*;

pub mod args;
pub mod collect;
pub mod format;
pub mod lister;
pub mod model;
pub mod size;
pub mod text;
pub mod time;

use crate::args::Config;
use crate::format::{format_listing_in_zone, listing_text, listing_times_ok, listing_zone, offsets_ok, zone_fits, zone_of, zone_ok};
use crate::model::Listing;
use crate::text::{join, views};

verus! {

/// What a run produces: the text for standard output, the text for
/// standard error and the exit status.
#[derive(Debug, Clone, PartialEq, Eq)]
pub struct AppResult {
    pub stdout: String,
    pub stderr: String,
    pub code: i32,
}


/// The standard-error text for the collection errors: nothing when there
/// are none, else the messages one per line.
pub open spec fn errors_text(errors: Seq<Seq<char>>) -> Seq<char> {
    if errors.len() == 0 {
        Seq::empty()
    } else {
        join(errors, seq!['\n']).push('\n')
    }
}

/// The messages one per line, each ending with a newline.
pub fn format_errors(errors: &Vec<String>) -> (text: String)
    ensures
        text@ == errors_text(views(errors@)),
{
    if errors.len() == 0 {
        return String::new();
    }
    let mut text = crate::text::join_strings(errors, "\n");
    proof {
        reveal_strlit("\n");
    }
    assert("\n"@ =~= seq!['\n']);
    crate::text::push_char(&mut text, '\n');
    text
}

/// The result of a run once the listing is collected, with local times in
/// the given zone: the formatted listing on standard output, the collection
/// errors on standard error, and status 1 when there were errors, else 0.
pub fn run_in_zone(listing: &Listing, config: &Config, zone: &Vec<Vec<i32>>) -> (r: AppResult)
    requires
        listing_times_ok(*listing, config.time_format),
        zone_ok(zone@, *listing),
    ensures
        r.stdout@ == listing_text(*listing, *config, zone_of(zone@)),
        r.stderr@ == errors_text(views(listing.errors@)),
        r.code == if listing.errors@.len() == 0 {
            0i32
        } else {
            1i32
        },
{
    let stdout = format_listing_in_zone(listing, config, zone);
    let stderr = format_errors(&listing.errors);
    let code = if listing.errors.len() == 0 {
        0
    } else {
        1
    };
    AppResult { stdout, stderr, code }
}

/// The result of a run once the listing is collected: `run_in_zone` with
/// the machine's time zone (the offsets `listing_zone` gathers).
pub fn run(listing: &Listing, config: &Config) -> (r: AppResult)
    requires
        listing_times_ok(*listing, config.time_format),
    ensures
        exists|zone: Seq<Seq<int>>|
            offsets_ok(zone) && zone_fits(zone, *listing) && r.stdout@ == #[trigger] listing_text(
                *listing,
                *config,
                zone,
            ),
        r.stderr@ == errors_text(views(listing.errors@)),
        r.code == if listing.errors@.len() == 0 {
            0i32
        } else {
            1i32
        },
{
    let zone = listing_zone(listing, config);
    run_in_zone(listing, config, &zone)
}

} // verus!
