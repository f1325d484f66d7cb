//! The answers of the applicants: one row of a table for each applicant, with
//! who they are, how much they want to work, and how they rate each weekly
//! slot.

use crate::text::{
    decimal_text, ends_with, number_u16, number_u8, parse_u16, parse_u8, split, split_text,
    starts_with, strip_prefix, strip_suffix, texts, u8_text,
};
use crate::tsv::{cell, Row, Table, Tsv};
use crate::types::{
    availability_named, course_named, is_text, session_views, Applicant, ApplicantView,
    Availability, Course, Session, SessionView, Venue,
};
use vstd::prelude::*;
use vstd::string::{StrSliceExecFns, StringExecFns};

verus! {

/// An hour of the day as the survey writes it: `9am`, `12pm`, `3pm`.
pub open spec fn twelve_hour_text(time: u8) -> Seq<char> {
    if time == 12 {
        "12pm"@
    } else if time < 12 {
        decimal_text(time as nat) + "am"@
    } else {
        decimal_text((time - 12) as nat) + "pm"@
    }
}

/// Writes an hour of the day as the survey writes it.
pub fn twentfour_hour_to_twelve_hour(time: u8) -> (r: String)
    ensures
        r@ == twelve_hour_text(time),
{
    if time == 12 {
        String::from_str("12pm")
    } else if time < 12 {
        let mut text = u8_text(time);
        text.append("am");
        text
    } else {
        let mut text = u8_text(time - 12);
        text.append("pm");
        text
    }
}

/// The name of the column in which the applicants rate the slot of a
/// session: the venue if it is online, the day, and the hours from start to
/// end.
pub open spec fn availability_column(session: SessionView) -> Seq<char> {
    (if session.venue == Venue::Online {
        "Online "@
    } else {
        ""@
    }) + session.day.spec_long_name() + " "@ + twelve_hour_text(session.time_24hr) + "-"@
        + twelve_hour_text((session.time_24hr + session.length_hours) as u8)
}

/// The name of the column in which the applicants rate the slot of a
/// session.
fn availability_column_name(session: &Session) -> (r: String)
    requires
        session.time_24hr + session.length_hours <= u8::MAX,
    ensures
        r@ == availability_column(session@),
{
    let mut name = String::from_str(
        match session.venue {
            Venue::FaceToFace => "",
            Venue::Online => "Online ",
        },
    );
    name.append(session.day.long_name());
    name.append(" ");
    name.append(twentfour_hour_to_twelve_hour(session.time_24hr).as_str());
    name.append("-");
    name.append(
        twentfour_hour_to_twelve_hour(session.time_24hr + session.length_hours).as_str(),
    );
    name
}

/// The most hours a week that an answer stands for.
pub open spec fn maximum_hours(answer: Seq<char>) -> Option<u16> {
    if answer == "1-5"@ {
        Some(5u16)
    } else if answer == "6-10"@ {
        Some(10u16)
    } else if answer == ">10"@ {
        Some(14u16)
    } else {
        None
    }
}

/// The fewest hours a week that an answer stands for: none if it is empty,
/// else the number it writes.
pub open spec fn minimum_hours(answer: Seq<char>) -> Option<Option<u16>> {
    if answer.len() == 0 {
        Some(None)
    } else {
        match number_u16(answer) {
            Some(hours) => Some(Some(hours)),
            None => None,
        }
    }
}

/// The week that an entry such as `Week 7` names.
pub open spec fn week_off(entry: Seq<char>) -> Option<u8> {
    if starts_with(entry, "Week "@) {
        number_u8(entry.skip("Week "@.len() as int))
    } else {
        None
    }
}

/// The weeks that the first `n` entries name; empty entries name none.
pub open spec fn weeks_off_upto(entries: Seq<Seq<char>>, n: nat) -> Option<Seq<u8>>
    decreases n,
{
    if n == 0 {
        Some(Seq::empty())
    } else {
        match weeks_off_upto(entries, (n - 1) as nat) {
            Some(before) => if entries[n - 1].len() == 0 {
                Some(before)
            } else {
                match week_off(entries[n - 1]) {
                    Some(week) => Some(before.push(week)),
                    None => None,
                }
            },
            None => None,
        }
    }
}

/// The weeks in which an applicant cannot work, from an answer that lists
/// them with semicolons between.
pub open spec fn weeks_off(answer: Seq<char>) -> Option<Seq<u8>> {
    weeks_off_upto(split(answer, ';'), split(answer, ';').len())
}

/// An entry that names no week leaves the whole answer unread.
pub proof fn lemma_weeks_off_none(entries: Seq<Seq<char>>, i: nat, n: nat)
    requires
        i <= n,
        weeks_off_upto(entries, i) is None,
    ensures
        weeks_off_upto(entries, n) is None,
    decreases n,
{
    if n > i {
        lemma_weeks_off_none(entries, i, (n - 1) as nat);
    }
}

/// Reads the weeks in which an applicant cannot work.
fn read_weeks_off(answer: &str) -> (r: Option<Vec<u8>>)
    ensures
        match weeks_off(answer@) {
            Some(weeks) => r is Some && r->Some_0@ == weeks,
            None => r is None,
        },
{
    let entries = split_text(answer, ';');
    let ghost wanted = split(answer@, ';');
    let mut weeks: Vec<u8> = Vec::new();
    let mut i: usize = 0;
    while i < entries.len()
        invariant
            wanted == split(answer@, ';'),
            texts(entries@) == wanted,
            i <= entries@.len(),
            weeks_off_upto(wanted, i as nat) == Some(weeks@),
        decreases entries@.len() - i,
    {
        let entry = entries[i].as_str();
        assert(entry@ == wanted[i as int]);
        if entry.unicode_len() > 0 {
            let week = match strip_prefix(entry, "Week ") {
                Some(number) => parse_u8(number.as_str()),
                None => None,
            };
            match week {
                Some(week) => {
                    weeks.push(week);
                },
                None => {
                    proof {
                        lemma_weeks_off_none(wanted, (i + 1) as nat, wanted.len());
                    }
                    return None;
                },
            }
        }
        i += 1;
    }
    Some(weeks)
}

/// Whether `week` is among `weeks`.
fn has_week(weeks: &Vec<u8>, week: u8) -> (r: bool)
    ensures
        r == weeks@.contains(week),
{
    let mut i: usize = 0;
    while i < weeks.len()
        invariant
            i <= weeks@.len(),
            forall|k: int| 0 <= k < i ==> weeks@[k] != week,
        decreases weeks@.len() - i,
    {
        if weeks[i] == week {
            return true;
        }
        i += 1;
    }
    false
}

/// How the applicant of row `row` rated a session: impossible if it falls
/// in a week in which they cannot work, else what they answered in the
/// column of its slot.
pub open spec fn rating_of(table: Table, row: int, session: SessionView, off: Seq<u8>) -> Option<
    Availability,
> {
    if off.contains(session.week.0) {
        Some(Availability::Impossible)
    } else if session.time_24hr + session.length_hours > u8::MAX {
        None
    } else {
        match cell(table, row, availability_column(session)) {
            Some(answer) => availability_named(answer),
            None => None,
        }
    }
}

/// The applicant that row `row` of a table of answers describes, with one
/// rating for each session. There is none if a column is missing or an
/// answer cannot be read.
pub open spec fn applicant_of(table: Table, row: int, sessions: Seq<SessionView>) -> Option<
    ApplicantView,
> {
    match (
        cell(table, row, "Email"@),
        cell(table, row, "Name"@),
        cell(table, row, "Which course are you primarily teaching?"@),
        cell(
            table,
            row,
            "Around how many hours would you like to work on help sessions, per week?"@,
        ),
        cell(table, row, "Min hours"@),
        cell(table, row, "Are then any weeks you specifically are not available?"@),
    ) {
        (Some(email), Some(name), Some(course), Some(most), Some(fewest), Some(away)) => match (
            course_named(course),
            maximum_hours(most),
            minimum_hours(fewest),
            weeks_off(away),
        ) {
            (Some(course), Some(most), Some(fewest), Some(off)) => if ends_with(
                email,
                "@ad.unsw.edu.au"@,
            ) && forall|s: int|
                0 <= s < sessions.len() ==> (#[trigger] rating_of(table, row, sessions[s], off)) is Some {
                Some(
                    ApplicantView {
                        id: (row as usize) as u32,
                        email,
                        name,
                        zid: email.take(email.len() - "@ad.unsw.edu.au"@.len()),
                        course,
                        max_hours_per_week: most,
                        availabilities: Seq::new(
                            sessions.len(),
                            |s: int| rating_of(table, row, sessions[s], off)->Some_0,
                        ),
                        min_hours_per_week: fewest,
                    },
                )
            } else {
                None
            },
            _ => None,
        },
        _ => None,
    }
}

/// Reads the ratings of one applicant, session by session.
fn read_ratings(row: &Row, sessions: &[Session], off: &Vec<u8>) -> (r: Option<Vec<Availability>>)
    requires
        row.wf(),
        row.table().wf(),
    ensures
        r is Some <==> forall|s: int|
            0 <= s < sessions@.len() ==> (#[trigger] rating_of(
                row.table(),
                row.index(),
                session_views(sessions@)[s],
                off@,
            )) is Some,
        r matches Some(ratings) ==> ratings@ == Seq::new(
            sessions@.len(),
            |s: int| rating_of(row.table(), row.index(), session_views(sessions@)[s], off@)->Some_0,
        ),
{
    let ghost views = session_views(sessions@);
    let mut ratings: Vec<Availability> = Vec::new();
    let mut i: usize = 0;
    while i < sessions.len()
        invariant
            row.wf(),
            row.table().wf(),
            views == session_views(sessions@),
            i <= sessions@.len(),
            ratings@.len() == i,
            forall|s: int|
                0 <= s < i ==> Some(#[trigger] ratings@[s]) == rating_of(
                    row.table(),
                    row.index(),
                    views[s],
                    off@,
                ),
            forall|s: int|
                0 <= s < i ==> (#[trigger] rating_of(row.table(), row.index(), views[s], off@)) is Some,
        decreases sessions@.len() - i,
    {
        let session = &sessions[i];
        assert(views[i as int] == session@);
        let rating = if has_week(off, session.week.0) {
            Some(Availability::Impossible)
        } else if session.time_24hr > u8::MAX - session.length_hours {
            None
        } else {
            let column = availability_column_name(session);
            match row.find(column.as_str()) {
                Some(answer) => match Availability::from_str(answer) {
                    Ok(rating) => Some(rating),
                    Err(_) => None,
                },
                None => None,
            }
        };
        assert(rating == rating_of(row.table(), row.index(), views[i as int], off@));
        match rating {
            Some(rating) => {
                ratings.push(rating);
            },
            None => {
                return None;
            },
        }
        i += 1;
    }
    assert(ratings@ =~= Seq::new(
        sessions@.len(),
        |s: int| rating_of(row.table(), row.index(), views[s], off@)->Some_0,
    ));
    Some(ratings)
}

/// Reads the most hours a week that an applicant accepts.
fn read_maximum_hours(answer: &str) -> (r: Option<u16>)
    ensures
        r == maximum_hours(answer@),
{
    if is_text(answer, "1-5") {
        Some(5)
    } else if is_text(answer, "6-10") {
        Some(10)
    } else if is_text(answer, ">10") {
        Some(14)
    } else {
        None
    }
}

/// Reads the fewest hours a week that an applicant asks for.
fn read_minimum_hours(answer: &str) -> (r: Option<Option<u16>>)
    ensures
        r == minimum_hours(answer@),
{
    if answer.unicode_len() == 0 {
        Some(None)
    } else {
        match parse_u16(answer) {
            Some(hours) => Some(Some(hours)),
            None => None,
        }
    }
}

/// Reads the applicant of one row, if the row describes one.
fn read_applicant(tsv: &Tsv, index: usize, sessions: &[Session]) -> (r: Option<Applicant>)
    requires
        tsv@.wf(),
        index < tsv@.rows.len(),
    ensures
        match applicant_of(tsv@, index as int, session_views(sessions@)) {
            Some(applicant) => r is Some && r->Some_0@ == applicant,
            None => r is None,
        },
{
    let row = tsv.row(index);
    let email = match row.find("Email") {
        Some(text) => text,
        None => {
            return None;
        },
    };
    let name = match row.find("Name") {
        Some(text) => text,
        None => {
            return None;
        },
    };
    let course = match row.find("Which course are you primarily teaching?") {
        Some(text) => text,
        None => {
            return None;
        },
    };
    let most = match row.find(
        "Around how many hours would you like to work on help sessions, per week?",
    ) {
        Some(text) => text,
        None => {
            return None;
        },
    };
    let fewest = match row.find("Min hours") {
        Some(text) => text,
        None => {
            return None;
        },
    };
    let away = match row.find("Are then any weeks you specifically are not available?") {
        Some(text) => text,
        None => {
            return None;
        },
    };
    let course = match Course::from_str(course) {
        Ok(course) => course,
        Err(_) => {
            return None;
        },
    };
    let most = match read_maximum_hours(most) {
        Some(most) => most,
        None => {
            return None;
        },
    };
    let fewest = match read_minimum_hours(fewest) {
        Some(fewest) => fewest,
        None => {
            return None;
        },
    };
    let off = match read_weeks_off(away) {
        Some(off) => off,
        None => {
            return None;
        },
    };
    let zid = match strip_suffix(email, "@ad.unsw.edu.au") {
        Some(zid) => zid,
        None => {
            return None;
        },
    };
    let availabilities = match read_ratings(&row, sessions, &off) {
        Some(ratings) => ratings,
        None => {
            return None;
        },
    };
    Some(
        Applicant {
            id: #[verifier::truncate] (index as u32),
            email: email.to_owned(),
            name: name.to_owned(),
            zid,
            course,
            max_hours_per_week: most,
            availabilities,
            min_hours_per_week: fewest,
        },
    )
}

/// Every row of the table describes an applicant.
pub open spec fn describes_applicants(table: Table, sessions: Seq<SessionView>) -> bool {
    forall|row: int| 0 <= row < table.rows.len() ==> (#[trigger] applicant_of(table, row, sessions)) is Some
}

/// Reads the applicants of a table of answers, row by row, if every row
/// describes one.
pub fn parse_applicants(tsv: &Tsv, sessions: &[Session]) -> (r: Option<Vec<Applicant>>)
    requires
        tsv@.wf(),
    ensures
        r is Some <==> describes_applicants(tsv@, session_views(sessions@)),
        r matches Some(list) ==> list@.len() == tsv@.rows.len() && forall|row: int|
            0 <= row < list@.len() ==> Some((#[trigger] list@[row])@) == applicant_of(
                tsv@,
                row,
                session_views(sessions@),
            ),
{
    let mut list: Vec<Applicant> = Vec::new();
    let mut i: usize = 0;
    while i < tsv.num_rows()
        invariant
            tsv@.wf(),
            i <= tsv@.rows.len(),
            list@.len() == i,
            forall|row: int|
                0 <= row < i ==> Some((#[trigger] list@[row])@) == applicant_of(
                    tsv@,
                    row,
                    session_views(sessions@),
                ),
            forall|row: int|
                0 <= row < i ==> (#[trigger] applicant_of(tsv@, row, session_views(sessions@))) is Some,
        decreases tsv@.rows.len() - i,
    {
        match read_applicant(tsv, i, sessions) {
            Some(applicant) => {
                list.push(applicant);
            },
            None => {
                return None;
            },
        }
        i += 1;
    }
    Some(list)
}

/// Reads the applicants of a table of answers, row by row; each gets their
/// row number as identity.
pub fn extract_applicants_from_tsv(tsv: Tsv, sessions: &[Session]) -> (r: Vec<Applicant>)
    requires
        tsv@.wf(),
        describes_applicants(tsv@, session_views(sessions@)),
    ensures
        r@.len() == tsv@.rows.len(),
        forall|row: int|
            0 <= row < r@.len() ==> Some((#[trigger] r@[row])@) == applicant_of(
                tsv@,
                row,
                session_views(sessions@),
            ),
{
    match parse_applicants(&tsv, sessions) {
        Some(list) => list,
        None => Vec::new(),
    }
}

} // verus!
