//! The session calendar of a term, as it is written down: one line for each
//! weekly slot, with the weeks in which it runs as a compact list of numbers
//! and ranges; and the tables of desired hours and of required minimums.

use crate::text::{
    chars_of, ends_with, find_first, first_at, lines, lines_of, number_i32, number_u16,
    number_u8, parse_i32, parse_u16, parse_u8, slice_of, split, split_text, strip_suffix, texts,
    trim, trimmed, words, words_of,
};
use crate::tsv::{cell, Table, Tsv};
use crate::types::{
    course_named, day_named, session_views, venue_named, Course, Day, Session, SessionView,
    Venue, WeekNum,
};
use itertools::Itertools;
use vstd::arithmetic::div_mod::lemma_mod_multiples_vanish;
use vstd::prelude::*;
use vstd::string::StringExecFns;

verus! {

/// The numbers from `start` to `end`, both included; none if `end` is the
/// smaller.
pub open spec fn inclusive_range(start: i32, end: i32) -> Seq<i32> {
    Seq::new(
        if start <= end {
            (end - start + 1) as nat
        } else {
            0
        },
        |i: int| (start + i) as i32,
    )
}

/// The numbers that one part of a list stands for: a single number, or all
/// the numbers of a range written as its two ends around the first dash.
pub open spec fn part_range(part: Seq<char>) -> Option<Seq<i32>> {
    let dash = first_at(part, '-');
    if dash < part.len() {
        match (number_i32(part.take(dash)), number_i32(part.skip(dash + 1))) {
            (Some(start), Some(end)) => Some(inclusive_range(start, end)),
            _ => None,
        }
    } else {
        match number_i32(part) {
            Some(n) => Some(seq![n]),
            None => None,
        }
    }
}

/// The numbers that the first `n` parts stand for, one part after the other.
pub open spec fn expand_parts(parts: Seq<Seq<char>>, n: nat) -> Option<Seq<i32>>
    decreases n,
{
    if n == 0 {
        Some(Seq::empty())
    } else {
        match (expand_parts(parts, (n - 1) as nat), part_range(parts[n - 1])) {
            (Some(before), Some(more)) => Some(before + more),
            _ => None,
        }
    }
}

/// The numbers that a list such as `1-3,5` stands for, here 1, 2, 3 and 5.
/// There are none to be had if a part is neither a number nor a range of
/// two numbers.
pub open spec fn expand_sequence(spec: Seq<char>) -> Option<Seq<i32>> {
    expand_parts(split(spec, ','), split(spec, ',').len())
}

/// A part that stands for nothing leaves the whole list standing for nothing.
pub proof fn lemma_expand_parts_none(parts: Seq<Seq<char>>, i: int, n: nat)
    requires
        0 <= i < n,
        part_range(parts[i]) is None,
    ensures
        expand_parts(parts, n) is None,
    decreases n,
{
    if n - 1 > i {
        lemma_expand_parts_none(parts, i, (n - 1) as nat);
    }
}

/// Appends the numbers from `start` to `end` to a list.
fn push_range(list: &mut Vec<i32>, start: i32, end: i32)
    ensures
        final(list)@ == old(list)@ + inclusive_range(start, end),
{
    let ghost before = list@;
    let mut next: i64 = start as i64;
    assert(list@ =~= before + inclusive_range(start, end).take(0));
    while next <= end as i64
        invariant
            start <= next <= end + 1 || (start > end && next == start),
            list@ == before + inclusive_range(start, end).take(next - start),
        decreases end + 1 - next,
    {
        list.push(next as i32);
        assert(list@ =~= before + inclusive_range(start, end).take(next + 1 - start));
        next += 1;
    }
    assert(inclusive_range(start, end).take(next - start) =~= inclusive_range(start, end));
}

/// Expands a list of numbers and ranges, if it is one.
pub fn parse_sequence_specification(spec: &str) -> (r: Option<Vec<i32>>)
    ensures
        match expand_sequence(spec@) {
            Some(numbers) => r is Some && r->Some_0@ == numbers,
            None => r is None,
        },
{
    let parts = split_text(spec, ',');
    let ghost wanted = split(spec@, ',');
    let mut list: Vec<i32> = Vec::new();
    let mut i: usize = 0;
    while i < parts.len()
        invariant
            wanted == split(spec@, ','),
            texts(parts@) == wanted,
            i <= parts@.len(),
            expand_parts(wanted, i as nat) == Some(list@),
        decreases parts@.len() - i,
    {
        let part = parts[i].as_str();
        assert(part@ == wanted[i as int]);
        let chars = chars_of(part);
        let dash: usize = find_first(&chars, '-');
        if dash < chars.len() {
            let start = parse_i32(slice_of(part, 0, dash).as_str());
            let end = parse_i32(slice_of(part, dash + 1, chars.len()).as_str());
            assert(part@.subrange(0, dash as int) =~= part@.take(dash as int));
            assert(part@.subrange(dash + 1, part@.len() as int) =~= part@.skip(dash + 1));
            match (start, end) {
                (Some(start), Some(end)) => {
                    push_range(&mut list, start, end);
                },
                _ => {
                    proof {
                        lemma_expand_parts_none(wanted, i as int, wanted.len());
                    }
                    return None;
                },
            }
        } else {
            match parse_i32(part) {
                Some(n) => {
                    let ghost before = list@;
                    list.push(n);
                    assert(list@ =~= before + seq![n]);
                },
                None => {
                    proof {
                        lemma_expand_parts_none(wanted, i as int, wanted.len());
                    }
                    return None;
                },
            }
        }
        i += 1;
    }
    Some(list)
}

/// Expands a list of numbers and ranges: `1-3,5` gives 1, 2, 3 and 5.
pub fn expand_sequence_specification(spec: &str) -> (r: Vec<i32>)
    requires
        expand_sequence(spec@) is Some,
    ensures
        Some(r@) == expand_sequence(spec@),
{
    match parse_sequence_specification(spec) {
        Some(list) => list,
        None => Vec::new(),
    }
}

/// The hour of the day that a time such as `9am` or `2pm` names: the hours
/// before noon stand as written, those after noon are twelve more, and
/// `12pm` is noon. There is none where the hour would not fit in a byte.
pub open spec fn twelve_hour(s: Seq<char>) -> Option<u8> {
    if ends_with(s, "am"@) {
        number_u8(s.take(s.len() - "am"@.len()))
    } else if ends_with(s, "pm"@) {
        match number_u8(s.take(s.len() - "pm"@.len())) {
            Some(hour) => if hour == 12 {
                Some(12u8)
            } else if hour + 12 <= u8::MAX {
                Some((hour + 12) as u8)
            } else {
                None
            },
            None => None,
        }
    } else {
        None
    }
}

/// Reads a time such as `9am` or `2pm` as an hour of the day.
pub fn twelve_hour_to_twentfour_hour(s: &str) -> (r: Option<u8>)
    ensures
        r == twelve_hour(s@),
{
    match strip_suffix(s, "am") {
        Some(am) => parse_u8(am.as_str()),
        None => match strip_suffix(s, "pm") {
            Some(pm) => match parse_u8(pm.as_str()) {
                Some(hour) => {
                    if hour == 12 {
                        Some(hour)
                    } else if hour <= u8::MAX - 12 {
                        Some(hour + 12)
                    } else {
                        None
                    }
                },
                None => None,
            },
            None => None,
        },
    }
}

/// The length in hours that a text such as `2hrs` names.
pub open spec fn session_length(s: Seq<char>) -> Option<u8> {
    if ends_with(s, "hrs"@) {
        number_u8(s.take(s.len() - "hrs"@.len()))
    } else {
        None
    }
}

/// A text with each underscore turned into a space.
pub open spec fn spaced(s: Seq<char>) -> Seq<char> {
    Seq::new(s.len(), |i: int| if s[i] == '_' { ' ' } else { s[i] })
}

/// Turns each underscore of a text into a space.
fn with_spaces(s: &str) -> (r: String)
    ensures
        r@ == spaced(s@),
{
    let chars = chars_of(s);
    let mut text = String::new();
    let mut i: usize = 0;
    proof {
        reveal_strlit(" ");
    }
    while i < chars.len()
        invariant
            chars@ == s@,
            i <= chars@.len(),
            text@ == spaced(s@).take(i as int),
            " "@ == seq![' '],
        decreases chars@.len() - i,
    {
        let ghost before = text@;
        if chars[i] == '_' {
            text.append(" ");
        } else {
            let one = slice_of(s, i, i + 1);
            assert(one@ =~= seq![s@[i as int]]);
            text.append(one.as_str());
        }
        assert(text@ =~= spaced(s@).take(i + 1));
        i += 1;
    }
    assert(spaced(s@).take(chars@.len() as int) =~= spaced(s@));
    text
}

/// The week number that a number of a list stands for: the number itself,
/// cut to a byte.
pub open spec fn week_number(n: i32) -> u8 {
    (n as int % 256) as u8
}

/// The week that a number of a list stands for.
fn week_of(n: i32) -> (r: WeekNum)
    ensures
        r.0 == week_number(n),
{
    let shifted: i64 = n as i64 + 0x8000_0000;
    proof {
        lemma_mod_multiples_vanish(0x80_0000, n as int, 256);
    }
    WeekNum((shifted % 256) as u8)
}

/// What is left of a line once its comment, from the first `#` on, and the
/// white space around the rest are taken away.
pub open spec fn line_content(line: Seq<char>) -> Seq<char> {
    trim(line.take(first_at(line, '#')))
}

/// The sessions that a line of the calendar describes, numbered from
/// `first_id`. An empty line or a comment describes none. Any other line
/// holds six words: the day, the starting time, the length, the venue, the
/// weeks, and the location with underscores for spaces; it describes one
/// session for each of the weeks. A line that cannot be read so describes
/// nothing at all.
pub open spec fn line_sessions(line: Seq<char>, first_id: int) -> Option<Seq<SessionView>> {
    let content = line_content(line);
    if content.len() == 0 {
        Some(Seq::empty())
    } else {
        let fields = words(content);
        if fields.len() != 6 {
            None
        } else {
            match (
                day_named(fields[0]),
                twelve_hour(fields[1]),
                session_length(fields[2]),
                venue_named(fields[3]),
                expand_sequence(fields[4]),
            ) {
                (Some(day), Some(time), Some(length), Some(venue), Some(weeks)) => if first_id
                    + weeks.len() <= usize::MAX {
                    Some(
                        Seq::new(
                            weeks.len(),
                            |i: int|
                                SessionView {
                                    id: (first_id + i) as usize,
                                    day,
                                    week: WeekNum(week_number(weeks[i])),
                                    venue,
                                    time_24hr: time,
                                    length_hours: length,
                                    location: spaced(fields[5]),
                                    min_allocation: None,
                                },
                        ),
                    )
                } else {
                    None
                },
                _ => None,
            }
        }
    }
}

/// `Itertools::collect_tuple` on the strings of a list: all six of them, in
/// order, if there are exactly six.
#[verifier::external_body]
fn six_fields(fields: Vec<String>) -> (r: Option<(String, String, String, String, String, String)>)
    ensures
        r is Some <==> fields@.len() == 6,
        r matches Some(tuple) ==> tuple.0@ == fields@[0]@ && tuple.1@ == fields@[1]@ && tuple.2@
            == fields@[2]@ && tuple.3@ == fields@[3]@ && tuple.4@ == fields@[4]@ && tuple.5@
            == fields@[5]@,
{
    fields.into_iter().collect_tuple()
}

/// Reads one line of the calendar, if it can be read; the sessions are
/// numbered from `id`, which moves past them.
pub fn parse_specification_line(line: &str, id: &mut usize) -> (r: Option<Vec<Session>>)
    ensures
        match line_sessions(line@, *old(id) as int) {
            Some(sessions) => r is Some && session_views(r->Some_0@) == sessions && *final(id)
                == *old(id) + sessions.len(),
            None => r is None && *final(id) == *old(id),
        },
{
    let chars = chars_of(line);
    let comment: usize = find_first(&chars, '#');
    let before = slice_of(line, 0, comment);
    assert(line@.subrange(0, comment as int) =~= line@.take(comment as int));
    let without_comment = trimmed(before.as_str());
    if without_comment.as_str().unicode_len() == 0 {
        assert(session_views(Seq::<Session>::empty()) =~= Seq::<SessionView>::empty());
        return Some(Vec::new());
    }
    let fields = words_of(without_comment.as_str());
    let ghost wanted = words(line_content(line@));
    assert(texts(fields@) == wanted);
    assert(fields@.len() == wanted.len());
    assert forall|k: int| 0 <= k < fields@.len() implies (#[trigger] fields@[k])@ == wanted[k] by {
        assert(texts(fields@)[k] == wanted[k]);
    }
    let (day, time, length, venue, weeks, location) = match six_fields(fields) {
        Some(tuple) => tuple,
        None => {
            return None;
        },
    };
    let day = match Day::from_str(day.as_str()) {
        Ok(day) => day,
        Err(_) => {
            return None;
        },
    };
    let time = match twelve_hour_to_twentfour_hour(time.as_str()) {
        Some(time) => time,
        None => {
            return None;
        },
    };
    let length = match strip_suffix(length.as_str(), "hrs") {
        Some(hours) => match parse_u8(hours.as_str()) {
            Some(length) => length,
            None => {
                return None;
            },
        },
        None => {
            return None;
        },
    };
    let venue = match Venue::from_str(venue.as_str()) {
        Ok(venue) => venue,
        Err(_) => {
            return None;
        },
    };
    let weeks = match parse_sequence_specification(weeks.as_str()) {
        Some(weeks) => weeks,
        None => {
            return None;
        },
    };
    if weeks.len() > usize::MAX - *id {
        return None;
    }
    let ghost first_id = *id;
    let ghost sessions = line_sessions(line@, first_id as int)->Some_0;
    let mut list: Vec<Session> = Vec::new();
    let mut i: usize = 0;
    while i < weeks.len()
        invariant
            i <= weeks@.len(),
            first_id + weeks@.len() <= usize::MAX,
            *id == first_id + i,
            line_sessions(line@, first_id as int) == Some(sessions),
            sessions.len() == weeks@.len(),
            forall|k: int|
                0 <= k < weeks@.len() ==> #[trigger] sessions[k] == (SessionView {
                    id: (first_id + k) as usize,
                    day,
                    week: WeekNum(week_number(weeks@[k])),
                    venue,
                    time_24hr: time,
                    length_hours: length,
                    location: spaced(location@),
                    min_allocation: None,
                }),
            list@.len() == i,
            forall|k: int| 0 <= k < i ==> (#[trigger] list@[k])@ == sessions[k],
        decreases weeks@.len() - i,
    {
        list.push(
            Session {
                id: *id,
                day,
                week: week_of(weeks[i]),
                venue,
                time_24hr: time,
                length_hours: length,
                location: with_spaces(location.as_str()),
                min_allocation: None,
            },
        );
        *id = *id + 1;
        i += 1;
    }
    assert(session_views(list@) =~= sessions);
    Some(list)
}

/// Reads one line of the calendar; the sessions are numbered from `id`,
/// which moves past them.
pub fn sessions_from_specification_line(line: &str, id: &mut usize) -> (r: Vec<Session>)
    requires
        line_sessions(line@, *old(id) as int) is Some,
    ensures
        Some(session_views(r@)) == line_sessions(line@, *old(id) as int),
        *final(id) == *old(id) + r@.len(),
{
    match parse_specification_line(line, id) {
        Some(sessions) => sessions,
        None => Vec::new(),
    }
}

/// The sessions that the first `n` lines of a calendar describe, numbered
/// from 0 in the order in which they are described.
pub open spec fn sessions_of_lines(all_lines: Seq<Seq<char>>, n: nat) -> Option<Seq<SessionView>>
    decreases n,
{
    if n == 0 {
        Some(Seq::empty())
    } else {
        match sessions_of_lines(all_lines, (n - 1) as nat) {
            Some(before) => match line_sessions(all_lines[n - 1], before.len() as int) {
                Some(more) => Some(before + more),
                None => None,
            },
            None => None,
        }
    }
}

/// The sessions that a calendar describes, or nothing if one of its lines
/// cannot be read.
pub open spec fn calendar(input: Seq<char>) -> Option<Seq<SessionView>> {
    sessions_of_lines(lines(input), lines(input).len())
}

/// A line that cannot be read leaves the whole calendar unread.
pub proof fn lemma_sessions_of_lines_none(all_lines: Seq<Seq<char>>, i: nat, n: nat)
    requires
        i <= n,
        sessions_of_lines(all_lines, i) is None,
    ensures
        sessions_of_lines(all_lines, n) is None,
    decreases n,
{
    if n > i {
        lemma_sessions_of_lines_none(all_lines, i, (n - 1) as nat);
    }
}

/// Reads a calendar, if every line of it can be read.
pub fn parse_sessions(input: &str) -> (r: Option<Vec<Session>>)
    ensures
        match calendar(input@) {
            Some(sessions) => r is Some && session_views(r->Some_0@) == sessions,
            None => r is None,
        },
{
    let all_lines = lines_of(input);
    let ghost wanted = lines(input@);
    let mut id: usize = 0;
    let mut list: Vec<Session> = Vec::new();
    let mut i: usize = 0;
    assert(session_views(list@) =~= Seq::<SessionView>::empty());
    while i < all_lines.len()
        invariant
            wanted == lines(input@),
            texts(all_lines@) == wanted,
            i <= all_lines@.len(),
            id == list@.len(),
            sessions_of_lines(wanted, i as nat) == Some(session_views(list@)),
        decreases all_lines@.len() - i,
    {
        assert(all_lines@[i as int]@ == wanted[i as int]);
        let ghost before = session_views(list@);
        match parse_specification_line(all_lines[i].as_str(), &mut id) {
            Some(mut more) => {
                let ghost added = session_views(more@);
                list.append(&mut more);
                assert(session_views(list@) =~= before + added);
            },
            None => {
                proof {
                    lemma_sessions_of_lines_none(wanted, (i + 1) as nat, wanted.len());
                }
                return None;
            },
        }
        i += 1;
    }
    Some(list)
}

/// Reads a calendar.
pub fn read_sessions_from_string(input: &str) -> (r: Vec<Session>)
    requires
        calendar(input@) is Some,
    ensures
        Some(session_views(r@)) == calendar(input@),
{
    match parse_sessions(input) {
        Some(sessions) => sessions,
        None => Vec::new(),
    }
}

/// The name of the column that holds the hours wanted for a course.
pub open spec fn desired_column(course: Course) -> Seq<char> {
    "Desired "@ + course.spec_code() + " hours"@
}

/// What row `row` of a table of desired hours says for `course`: a week, from
/// the column `Week`, and the hours wanted in it.
pub open spec fn desired_entry(table: Table, row: int, course: Course) -> Option<(WeekNum, u16)> {
    match (cell(table, row, "Week"@), cell(table, row, desired_column(course))) {
        (Some(week), Some(hours)) => match (number_u8(week), number_u16(hours)) {
            (Some(week), Some(hours)) => Some((WeekNum(week), hours)),
            _ => None,
        },
        _ => None,
    }
}

/// Every row of the table gives a week and the hours wanted for `course`.
pub open spec fn gives_desired_hours(table: Table, course: Course) -> bool {
    forall|row: int| 0 <= row < table.rows.len() ==> (#[trigger] desired_entry(table, row, course)) is Some
}

/// Reads the hours wanted in each week for `course`, row by row, if every
/// row gives them.
pub fn parse_desired_hours(tsv: &Tsv, course: Course) -> (r: Option<Vec<(WeekNum, u16)>>)
    requires
        tsv@.wf(),
    ensures
        r is Some <==> gives_desired_hours(tsv@, course),
        r matches Some(list) ==> list@.len() == tsv@.rows.len() && forall|row: int|
            0 <= row < list@.len() ==> Some(#[trigger] list@[row]) == desired_entry(tsv@, row, course),
{
    let mut column = String::from_str("Desired ");
    column.append(course.to_string().as_str());
    column.append(" hours");
    let mut list: Vec<(WeekNum, u16)> = Vec::new();
    let mut i: usize = 0;
    while i < tsv.num_rows()
        invariant
            tsv@.wf(),
            column@ == desired_column(course),
            i <= tsv@.rows.len(),
            list@.len() == i,
            forall|row: int|
                0 <= row < i ==> Some(#[trigger] list@[row]) == desired_entry(tsv@, row, course),
            forall|row: int| 0 <= row < i ==> (#[trigger] desired_entry(tsv@, row, course)) is Some,
        decreases tsv@.rows.len() - i,
    {
        let row = tsv.row(i);
        let entry = match (row.find("Week"), row.find(column.as_str())) {
            (Some(week), Some(hours)) => match (parse_u8(week), parse_u16(hours)) {
                (Some(week), Some(hours)) => Some((WeekNum(week), hours)),
                _ => None,
            },
            _ => None,
        };
        assert(entry == desired_entry(tsv@, i as int, course));
        match entry {
            Some(entry) => {
                list.push(entry);
            },
            None => {
                return None;
            },
        }
        i += 1;
    }
    Some(list)
}

/// Reads the hours wanted in each week for `course`, row by row.
pub fn extract_desired_hours(tsv: Tsv, course: Course) -> (r: Vec<(WeekNum, u16)>)
    requires
        tsv@.wf(),
        gives_desired_hours(tsv@, course),
    ensures
        r@.len() == tsv@.rows.len(),
        forall|row: int|
            0 <= row < r@.len() ==> Some(#[trigger] r@[row]) == desired_entry(tsv@, row, course),
{
    match parse_desired_hours(&tsv, course) {
        Some(list) => list,
        None => Vec::new(),
    }
}

/// A required minimum of tutors for one weekly slot.
pub struct Priority {
    pub week: WeekNum,
    pub day: Day,
    pub venue: Venue,
    pub start: u8,
    pub minimum: u16,
}

/// The course that row `row` of a table of priorities is about.
pub open spec fn priority_course(table: Table, row: int) -> Option<Course> {
    match cell(table, row, "Course"@) {
        Some(course) => course_named(course),
        None => None,
    }
}

/// The minimum that row `row` of a table of priorities asks for, and the
/// slot it asks it for.
pub open spec fn priority_of(table: Table, row: int) -> Option<Priority> {
    match (
        cell(table, row, "Week"@),
        cell(table, row, "Day"@),
        cell(table, row, "Venue"@),
        cell(table, row, "Start"@),
        cell(table, row, "Minimum"@),
    ) {
        (Some(week), Some(day), Some(venue), Some(start), Some(minimum)) => match (
            number_u8(week),
            day_named(day),
            venue_named(venue),
            number_u8(start),
            number_u16(minimum),
        ) {
            (Some(week), Some(day), Some(venue), Some(start), Some(minimum)) => Some(
                Priority { week: WeekNum(week), day, venue, start, minimum },
            ),
            _ => None,
        },
        _ => None,
    }
}

/// The session is held in the slot that the priority names.
pub open spec fn in_slot(session: SessionView, priority: Priority) -> bool {
    session.week == priority.week && session.venue == priority.venue && session.time_24hr
        == priority.start && session.day == priority.day
}

/// Session `i` is the one session held in the slot that the priority names.
pub open spec fn is_sole_slot(sessions: Seq<SessionView>, priority: Priority, i: int) -> bool {
    &&& 0 <= i < sessions.len()
    &&& in_slot(sessions[i], priority)
    &&& forall|j: int| 0 <= j < sessions.len() && j != i ==> !in_slot(#[trigger] sessions[j], priority)
}

/// The session with a required minimum.
pub open spec fn with_minimum(session: SessionView, minimum: u16) -> SessionView {
    SessionView { min_allocation: Some(minimum), ..session }
}

/// The sessions once one priority is applied: the one session in its slot
/// gets the minimum. Nothing comes of it if no session or more than one is
/// held in the slot, or if that session has a minimum already.
pub open spec fn with_priority(sessions: Seq<SessionView>, priority: Priority) -> Option<
    Seq<SessionView>,
> {
    if exists|i: int| is_sole_slot(sessions, priority, i) {
        let i = choose|i: int| is_sole_slot(sessions, priority, i);
        if sessions[i].min_allocation is None {
            Some(sessions.update(i, with_minimum(sessions[i], priority.minimum)))
        } else {
            None
        }
    } else {
        None
    }
}

/// The sessions once row `row` of a table of priorities is applied for a
/// course. A row about another course changes nothing.
pub open spec fn with_row(table: Table, row: int, course: Course, sessions: Seq<SessionView>) -> Option<
    Seq<SessionView>,
> {
    match priority_course(table, row) {
        Some(about) => if about != course {
            Some(sessions)
        } else {
            match priority_of(table, row) {
                Some(priority) => with_priority(sessions, priority),
                None => None,
            }
        },
        None => None,
    }
}

/// The sessions once the first `n` rows of a table of priorities are applied
/// for a course, one after the other.
pub open spec fn prioritised(table: Table, course: Course, sessions: Seq<SessionView>, n: nat) -> Option<
    Seq<SessionView>,
>
    decreases n,
{
    if n == 0 {
        Some(sessions)
    } else {
        match prioritised(table, course, sessions, (n - 1) as nat) {
            Some(before) => with_row(table, n - 1, course, before),
            None => None,
        }
    }
}

/// A row that cannot be applied leaves the whole table unapplied.
pub proof fn lemma_prioritised_none(
    table: Table,
    course: Course,
    sessions: Seq<SessionView>,
    i: nat,
    n: nat,
)
    requires
        i <= n,
        prioritised(table, course, sessions, i) is None,
    ensures
        prioritised(table, course, sessions, n) is None,
    decreases n,
{
    if n > i {
        lemma_prioritised_none(table, course, sessions, i, (n - 1) as nat);
    }
}

/// Reads the priority of a row, if it holds one.
fn read_priority(tsv: &Tsv, index: usize) -> (r: Option<Priority>)
    requires
        tsv@.wf(),
        index < tsv@.rows.len(),
    ensures
        r == priority_of(tsv@, index as int),
{
    let row = tsv.row(index);
    let week = match row.find("Week") {
        Some(text) => parse_u8(text),
        None => None,
    };
    let day = match row.find("Day") {
        Some(text) => match Day::from_str(text) {
            Ok(day) => Some(day),
            Err(_) => None,
        },
        None => None,
    };
    let venue = match row.find("Venue") {
        Some(text) => match Venue::from_str(text) {
            Ok(venue) => Some(venue),
            Err(_) => None,
        },
        None => None,
    };
    let start = match row.find("Start") {
        Some(text) => parse_u8(text),
        None => None,
    };
    let minimum = match row.find("Minimum") {
        Some(text) => parse_u16(text),
        None => None,
    };
    match (week, day, venue, start, minimum) {
        (Some(week), Some(day), Some(venue), Some(start), Some(minimum)) => Some(
            Priority { week: WeekNum(week), day, venue, start, minimum },
        ),
        _ => None,
    }
}

/// Finds the one session held in the slot of a priority, if there is
/// exactly one.
fn find_sole_slot(sessions: &Vec<Session>, priority: &Priority) -> (r: Option<usize>)
    ensures
        match r {
            Some(i) => is_sole_slot(session_views(sessions@), *priority, i as int),
            None => !exists|i: int| is_sole_slot(session_views(sessions@), *priority, i),
        },
{
    let ghost views = session_views(sessions@);
    let mut found: Option<usize> = None;
    let mut i: usize = 0;
    while i < sessions.len()
        invariant
            views == session_views(sessions@),
            i <= sessions@.len(),
            match found {
                Some(at) => at < i && in_slot(views[at as int], *priority) && forall|j: int|
                    0 <= j < i && j != at ==> !in_slot(#[trigger] views[j], *priority),
                None => forall|j: int| 0 <= j < i ==> !in_slot(#[trigger] views[j], *priority),
            },
        decreases sessions@.len() - i,
    {
        let session = &sessions[i];
        assert(views[i as int] == session@);
        if session.week == priority.week && session.venue == priority.venue && session.time_24hr
            == priority.start && session.day == priority.day {
            match found {
                Some(at) => {
                    assert forall|k: int| !is_sole_slot(views, *priority, k) by {
                        if is_sole_slot(views, *priority, k) {
                            if k == at {
                                assert(in_slot(views[i as int], *priority));
                            } else {
                                assert(in_slot(views[at as int], *priority));
                            }
                        }
                    }
                    return None;
                },
                None => {
                    found = Some(i);
                },
            }
        }
        i += 1;
    }
    proof {
        if found is None {
            assert forall|k: int| !is_sole_slot(views, *priority, k) by {
                if is_sole_slot(views, *priority, k) {
                    assert(in_slot(views[k], *priority));
                }
            }
        }
    }
    found
}

/// Gives session `index` a required minimum.
fn set_minimum(sessions: &mut Vec<Session>, index: usize, minimum: u16)
    requires
        index < old(sessions)@.len(),
    ensures
        session_views(final(sessions)@) == session_views(old(sessions)@).update(
            index as int,
            with_minimum(old(sessions)@[index as int]@, minimum),
        ),
{
    let mut session = sessions[index].clone();
    session.min_allocation = Some(minimum);
    sessions.set(index, session);
    assert(session_views(sessions@) =~= session_views(old(sessions)@).update(
        index as int,
        with_minimum(old(sessions)@[index as int]@, minimum),
    ));
}

/// Applies one priority, if it can be applied.
fn apply_priority(sessions: &mut Vec<Session>, priority: &Priority) -> (done: bool)
    ensures
        done <==> with_priority(session_views(old(sessions)@), *priority) is Some,
        done ==> Some(session_views(final(sessions)@)) == with_priority(
            session_views(old(sessions)@),
            *priority,
        ),
        !done ==> session_views(final(sessions)@) == session_views(old(sessions)@),
{
    let ghost views = session_views(sessions@);
    match find_sole_slot(sessions, priority) {
        Some(i) => {
            proof {
                let chosen = choose|k: int| is_sole_slot(views, *priority, k);
                if chosen != i {
                    assert(in_slot(views[chosen], *priority));
                }
            }
            assert(views[i as int] == sessions@[i as int]@);
            if sessions[i].min_allocation.is_some() {
                return false;
            }
            set_minimum(sessions, i, priority.minimum);
            true
        },
        None => false,
    }
}

/// Applies the rows of a table of priorities that are about `course`, one
/// after the other, for as long as they can be applied; tells whether all of
/// them could.
fn apply_rows(course: Course, priorities: &Tsv, sessions: &mut Vec<Session>) -> (done: bool)
    requires
        priorities@.wf(),
    ensures
        done <==> prioritised(
            priorities@,
            course,
            session_views(old(sessions)@),
            priorities@.rows.len(),
        ) is Some,
        done ==> Some(session_views(final(sessions)@)) == prioritised(
            priorities@,
            course,
            session_views(old(sessions)@),
            priorities@.rows.len(),
        ),
{
    let ghost start = session_views(sessions@);
    let mut i: usize = 0;
    while i < priorities.num_rows()
        invariant
            priorities@.wf(),
            start == session_views(old(sessions)@),
            i <= priorities@.rows.len(),
            prioritised(priorities@, course, start, i as nat) == Some(session_views(sessions@)),
        decreases priorities@.rows.len() - i,
    {
        let row = priorities.row(i);
        let about = match row.find("Course") {
            Some(text) => match Course::from_str(text) {
                Ok(about) => Some(about),
                Err(_) => None,
            },
            None => None,
        };
        assert(about == priority_course(priorities@, i as int));
        let applied: bool = match about {
            Some(about) => {
                if about != course {
                    true
                } else {
                    match read_priority(priorities, i) {
                        Some(priority) => apply_priority(sessions, &priority),
                        None => false,
                    }
                }
            },
            None => false,
        };
        if !applied {
            proof {
                lemma_prioritised_none(
                    priorities@,
                    course,
                    start,
                    (i + 1) as nat,
                    priorities@.rows.len(),
                );
            }
            return false;
        }
        i += 1;
    }
    true
}

/// Whether every row of a table of priorities that is about `course` can be
/// applied to the sessions.
pub fn can_apply_priorities(course: Course, priorities: &Tsv, sessions: &Vec<Session>) -> (r: bool)
    requires
        priorities@.wf(),
    ensures
        r <==> prioritised(priorities@, course, session_views(sessions@), priorities@.rows.len()) is Some,
{
    let mut scratch: Vec<Session> = Vec::new();
    let mut i: usize = 0;
    while i < sessions.len()
        invariant
            i <= sessions@.len(),
            scratch@.len() == i,
            forall|k: int| 0 <= k < i ==> (#[trigger] scratch@[k])@ == sessions@[k]@,
        decreases sessions@.len() - i,
    {
        scratch.push(sessions[i].clone());
        i += 1;
    }
    assert(session_views(scratch@) =~= session_views(sessions@));
    apply_rows(course, priorities, &mut scratch)
}

/// Gives the sessions the minimums that a table of priorities requires for
/// `course`. Each row of the table names a course, a slot and a minimum; the
/// rows about other courses are passed over.
pub fn apply_priorities(course: Course, priorities: &Tsv, sessions: &mut Vec<Session>)
    requires
        priorities@.wf(),
        prioritised(
            priorities@,
            course,
            session_views(old(sessions)@),
            priorities@.rows.len(),
        ) is Some,
    ensures
        Some(session_views(final(sessions)@)) == prioritised(
            priorities@,
            course,
            session_views(old(sessions)@),
            priorities@.rows.len(),
        ),
{
    let done = apply_rows(course, priorities, sessions);
}

} // verus!
