use vstd::prelude::*;

use chrono::{Datelike, Timelike};

verus! {

/// A calendar date and time of day, without a time zone.
#[derive(Debug, Clone, Copy, PartialEq, Eq, Structural)]
pub struct Timestamp {
    pub year: i32,
    pub month: u32,
    pub day: u32,
    pub hour: u32,
    pub minute: u32,
    pub second: u32,
}

/// A run submitted by a user through the website.
pub struct SubmissionChangelog {
    pub timestamp: String,
    pub profile_number: String,
    pub score: i32,
    pub map_id: String,
    pub category_id: Option<i32>,
    pub youtube_id: Option<String>,
    pub note: Option<String>,
}

/// A changelog entry ready to be inserted.
pub struct ChangelogInsert {
    pub timestamp: Option<Timestamp>,
    pub profile_number: String,
    pub score: i32,
    pub map_id: String,
    pub demo_id: Option<i64>,
    pub banned: bool,
    pub youtube_id: Option<String>,
    pub coop_id: Option<i64>,
    pub post_rank: Option<i32>,
    pub pre_rank: Option<i32>,
    pub submission: bool,
    pub note: Option<String>,
    pub category_id: i32,
    pub score_delta: Option<i32>,
    pub verified: Option<bool>,
    pub admin_note: Option<String>,
}

/// What chrono reads from a text in the form `YYYY-MM-DD HH:MM:SS`.
pub uninterp spec fn parsed_submission_time(s: Seq<char>) -> Option<Timestamp>;

/// Relies on chrono's `NaiveDateTime::parse_from_str` with the format
/// `%Y-%m-%d %H:%M:%S`, and on its accessors: month 1 to 12, day 1 to 31,
/// hour 0 to 23, minute and second 0 to 59.
#[verifier::external_body]
fn parse_submission_time(s: &str) -> (r: Option<Timestamp>)
    ensures
        r == parsed_submission_time(s@),
        r is Some ==> 1 <= r.unwrap().month <= 12 && 1 <= r.unwrap().day <= 31 && r.unwrap().hour
            < 24 && r.unwrap().minute < 60 && r.unwrap().second < 60,
{
    match chrono::NaiveDateTime::parse_from_str(s, "%Y-%m-%d %H:%M:%S") {
        Ok(t) => Some(Timestamp {
            year: t.year(),
            month: t.month(),
            day: t.day(),
            hour: t.hour(),
            minute: t.minute(),
            second: t.second(),
        }),
        Err(_) => None,
    }
}

pub open spec fn defaults_view(defaults: Seq<(String, i32)>) -> Seq<(Seq<char>, i32)> {
    defaults.map_values(|p: (String, i32)| (p.0@, p.1))
}

/// The default category of the first entry for `map_id`.
pub open spec fn default_category(defaults: Seq<(Seq<char>, i32)>, map_id: Seq<char>) -> Option<i32>
    decreases defaults.len(),
{
    if defaults.len() == 0 {
        None
    } else if defaults[0].0 == map_id {
        Some(defaults[0].1)
    } else {
        default_category(defaults.drop_first(), map_id)
    }
}

fn lookup_default_category(defaults: &Vec<(String, i32)>, map_id: &String) -> (r: Option<i32>)
    ensures
        r == default_category(defaults_view(defaults@), map_id@),
{
    let ghost dv = defaults_view(defaults@);
    let mut i: usize = 0;
    assert(dv.subrange(0, dv.len() as int) =~= dv);
    while i < defaults.len()
        invariant
            dv == defaults_view(defaults@),
            0 <= i <= defaults@.len(),
            default_category(dv, map_id@) == default_category(
                dv.subrange(i as int, dv.len() as int),
                map_id@,
            ),
        decreases defaults@.len() - i,
    {
        let ghost rest = dv.subrange(i as int, dv.len() as int);
        assert(rest[0] == dv[i as int]);
        assert(rest.drop_first() =~= dv.subrange(i + 1, dv.len() as int));
        if defaults[i].0 == *map_id {
            return Some(defaults[i].1);
        }
        i = i + 1;
    }
    None
}

fn clone_optional(s: &Option<String>) -> (r: Option<String>)
    ensures
        r is Some <==> s is Some,
        r is Some ==> r.unwrap()@ == s.unwrap()@,
{
    match s {
        Some(v) => Some(v.clone()),
        None => None,
    }
}

/// `c` is the entry for submission `p` made at `timestamp`, with `category`.
pub open spec fn insert_for(
    c: ChangelogInsert,
    p: SubmissionChangelog,
    timestamp: Option<Timestamp>,
    category: i32,
) -> bool {
    &&& c.timestamp == timestamp
    &&& c.profile_number@ == p.profile_number@
    &&& c.score == p.score
    &&& c.map_id@ == p.map_id@
    &&& c.youtube_id is Some <==> p.youtube_id is Some
    &&& c.youtube_id is Some ==> c.youtube_id.unwrap()@ == p.youtube_id.unwrap()@
    &&& c.note is Some <==> p.note is Some
    &&& c.note is Some ==> c.note.unwrap()@ == p.note.unwrap()@
    &&& c.category_id == category
    &&& c.submission
    &&& !c.banned
    &&& c.demo_id is None && c.coop_id is None
    &&& c.post_rank is None && c.pre_rank is None
    &&& c.score_delta is None && c.verified is None && c.admin_note is None
}

/// The category of submission `p`: its own, else its map's default.
pub open spec fn submission_category(p: SubmissionChangelog, defaults: Seq<(Seq<char>, i32)>) -> Option<
    i32,
> {
    match p.category_id {
        Some(cat) => Some(cat),
        None => default_category(defaults, p.map_id@),
    }
}

impl ChangelogInsert {
    /// The entry for a website submission made at `timestamp`: its own fields,
    /// and its category, which falls back to the map's default category from
    /// `default_categories` (map id, category). `None` when the submission has
    /// no category and its map has no default.
    pub fn from_submission_at(
        params: &SubmissionChangelog,
        timestamp: Option<Timestamp>,
        default_categories: &Vec<(String, i32)>,
    ) -> (r: Option<ChangelogInsert>)
        ensures
            r is None <==> submission_category(*params, defaults_view(default_categories@)) is None,
            r is Some ==> insert_for(
                r.unwrap(),
                *params,
                timestamp,
                submission_category(*params, defaults_view(default_categories@)).unwrap(),
            ),
    {
        let category_id = match params.category_id {
            Some(c) => c,
            None => match lookup_default_category(default_categories, &params.map_id) {
                Some(c) => c,
                None => return None,
            },
        };
        Some(
            ChangelogInsert {
                timestamp,
                profile_number: params.profile_number.clone(),
                score: params.score,
                map_id: params.map_id.clone(),
                demo_id: None,
                banned: false,
                youtube_id: clone_optional(&params.youtube_id),
                coop_id: None,
                post_rank: None,
                pre_rank: None,
                submission: true,
                note: clone_optional(&params.note),
                category_id,
                score_delta: None,
                verified: None,
                admin_note: None,
            },
        )
    }

    /// The entry for a website submission, its time parsed from
    /// `YYYY-MM-DD HH:MM:SS` (none when the text is not a valid time).
    /// The map's default category is consulted only when the submission has
    /// no category of its own; a map without a default is then answered with
    /// `None`, never with a panic, and a submission that names its category
    /// needs no default at all.
    pub fn new_from_submission(
        params: &SubmissionChangelog,
        default_categories: &Vec<(String, i32)>,
    ) -> (r: Option<ChangelogInsert>)
        ensures
            r is None <==> submission_category(*params, defaults_view(default_categories@)) is None,
            r is Some ==> insert_for(
                r.unwrap(),
                *params,
                parsed_submission_time(params.timestamp@),
                submission_category(*params, defaults_view(default_categories@)).unwrap(),
            ),
    {
        let timestamp = parse_submission_time(params.timestamp.as_str());
        ChangelogInsert::from_submission_at(params, timestamp, default_categories)
    }
}

} // verus!
