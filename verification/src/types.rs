//! The records the allocator works on: sessions, applicants, and the small
//! enumerations that describe them.

use vstd::prelude::*;
use vstd::string::StringExecFns;

verus! {

/// A teaching day. Help sessions never run on Sundays.
#[derive(Clone, Copy, Debug, PartialEq, Eq, Structural, PartialOrd, Ord)]
pub enum Day {
    Mon,
    Tue,
    Wed,
    Thu,
    Fri,
    Sat,
}

/// The number of a teaching week within the term.
#[derive(Clone, Copy, Debug, PartialEq, Eq, Structural, Hash, PartialOrd, Ord)]
pub struct WeekNum(pub u8);

/// Whether a session is held in a room or over the network.
#[derive(Clone, Copy, Debug, PartialEq, Eq, Structural)]
pub enum Venue {
    FaceToFace,
    Online,
}

/// The courses that run help sessions.
#[derive(Clone, Copy, Debug, PartialEq, Eq, Structural)]
pub enum Course {
    Comp1511,
    Comp1521,
    Comp2521,
}

/// How an applicant rated one session, from worst to best.
#[derive(Clone, Copy, Debug, PartialEq, Eq, Structural, Hash, PartialOrd, Ord)]
pub enum Availability {
    Impossible,
    Dislike,
    Possible,
    Preferred,
}

/// One scheduled help-session slot.
#[derive(Debug)]
pub struct Session {
    pub id: usize,
    pub day: Day,
    pub week: WeekNum,
    pub venue: Venue,
    pub time_24hr: u8,
    pub length_hours: u8,
    pub location: String,
    pub min_allocation: Option<u16>,
}

/// A prospective tutor. `availabilities` holds one rating per session, in the
/// order of the session list.
#[derive(Debug)]
pub struct Applicant {
    pub id: u32,
    pub email: String,
    pub name: String,
    pub zid: String,
    pub course: Course,
    pub max_hours_per_week: u16,
    pub availabilities: Vec<Availability>,
    pub min_hours_per_week: Option<u16>,
}

/// A session as plain values.
pub struct SessionView {
    pub id: usize,
    pub day: Day,
    pub week: WeekNum,
    pub venue: Venue,
    pub time_24hr: u8,
    pub length_hours: u8,
    pub location: Seq<char>,
    pub min_allocation: Option<u16>,
}

impl View for Session {
    type V = SessionView;

    open spec fn view(&self) -> SessionView {
        SessionView {
            id: self.id,
            day: self.day,
            week: self.week,
            venue: self.venue,
            time_24hr: self.time_24hr,
            length_hours: self.length_hours,
            location: self.location@,
            min_allocation: self.min_allocation,
        }
    }
}

/// An applicant as plain values.
pub struct ApplicantView {
    pub id: u32,
    pub email: Seq<char>,
    pub name: Seq<char>,
    pub zid: Seq<char>,
    pub course: Course,
    pub max_hours_per_week: u16,
    pub availabilities: Seq<Availability>,
    pub min_hours_per_week: Option<u16>,
}

impl View for Applicant {
    type V = ApplicantView;

    open spec fn view(&self) -> ApplicantView {
        ApplicantView {
            id: self.id,
            email: self.email@,
            name: self.name@,
            zid: self.zid@,
            course: self.course,
            max_hours_per_week: self.max_hours_per_week,
            availabilities: self.availabilities@,
            min_hours_per_week: self.min_hours_per_week,
        }
    }
}

/// The sessions of a list as plain values.
pub open spec fn session_views(sessions: Seq<Session>) -> Seq<SessionView> {
    Seq::new(sessions.len(), |i: int| sessions[i]@)
}

/// The applicants of a list as plain values.
pub open spec fn applicant_views(applicants: Seq<Applicant>) -> Seq<ApplicantView> {
    Seq::new(applicants.len(), |i: int| applicants[i]@)
}

/// The text that `{:?}` prints for a string: the string in double quotes, with
/// the characters that need it escaped.
pub uninterp spec fn debug_text(s: Seq<char>) -> Seq<char>;

/// `format!` with `{:?}` on a string slice: the result is the `Debug`
/// rendering of `s`, which depends on the characters of `s` alone.
#[verifier::external_body]
pub(crate) fn quoted(s: &str) -> (r: String)
    ensures
        r@ == debug_text(s@),
{
    format!("{s:?}")
}

/// Whether `s` spells out `literal`.
pub(crate) fn is_text(s: &str, literal: &str) -> (r: bool)
    ensures
        r == (s@ == literal@),
{
    s.to_owned() == literal.to_owned()
}

/// The day that a three-letter lower-case or a full capitalised name denotes.
pub open spec fn day_named(s: Seq<char>) -> Option<Day> {
    if s == "mon"@ || s == "Monday"@ {
        Some(Day::Mon)
    } else if s == "tue"@ || s == "Tuesday"@ {
        Some(Day::Tue)
    } else if s == "wed"@ || s == "Wednesday"@ {
        Some(Day::Wed)
    } else if s == "thu"@ || s == "Thursday"@ {
        Some(Day::Thu)
    } else if s == "fri"@ || s == "Friday"@ {
        Some(Day::Fri)
    } else if s == "sat"@ || s == "Saturday"@ {
        Some(Day::Sat)
    } else {
        None
    }
}

/// The venue that `f2f` or `online` denotes.
pub open spec fn venue_named(s: Seq<char>) -> Option<Venue> {
    if s == "f2f"@ {
        Some(Venue::FaceToFace)
    } else if s == "online"@ {
        Some(Venue::Online)
    } else {
        None
    }
}

/// The course that a course code denotes.
pub open spec fn course_named(s: Seq<char>) -> Option<Course> {
    if s == "COMP1511"@ {
        Some(Course::Comp1511)
    } else if s == "COMP1521"@ {
        Some(Course::Comp1521)
    } else if s == "COMP2521"@ {
        Some(Course::Comp2521)
    } else {
        None
    }
}

/// The rating that a survey answer denotes.
pub open spec fn availability_named(s: Seq<char>) -> Option<Availability> {
    if s == "Impossible"@ {
        Some(Availability::Impossible)
    } else if s == "Dislike"@ {
        Some(Availability::Dislike)
    } else if s == "Possible"@ {
        Some(Availability::Possible)
    } else if s == "Preferred"@ {
        Some(Availability::Preferred)
    } else {
        None
    }
}

impl Day {
    /// The full name of the day.
    pub open spec fn spec_long_name(self) -> Seq<char> {
        match self {
            Day::Mon => "Monday"@,
            Day::Tue => "Tuesday"@,
            Day::Wed => "Wednesday"@,
            Day::Thu => "Thursday"@,
            Day::Fri => "Friday"@,
            Day::Sat => "Saturday"@,
        }
    }

    /// The first three letters of the name of the day.
    pub open spec fn spec_short_name(self) -> Seq<char> {
        match self {
            Day::Mon => "Mon"@,
            Day::Tue => "Tue"@,
            Day::Wed => "Wed"@,
            Day::Thu => "Thu"@,
            Day::Fri => "Fri"@,
            Day::Sat => "Sat"@,
        }
    }

    /// Reads a day from its lower-case abbreviation or its full name. Any other
    /// text is refused with a message that quotes it.
    pub fn from_str(s: &str) -> (r: Result<Day, String>)
        ensures
            match day_named(s@) {
                Some(day) => r == Ok::<Day, String>(day),
                None => r is Err && r->Err_0@ == "bad day "@ + debug_text(s@),
            },
    {
        if is_text(s, "mon") || is_text(s, "Monday") {
            Ok(Day::Mon)
        } else if is_text(s, "tue") || is_text(s, "Tuesday") {
            Ok(Day::Tue)
        } else if is_text(s, "wed") || is_text(s, "Wednesday") {
            Ok(Day::Wed)
        } else if is_text(s, "thu") || is_text(s, "Thursday") {
            Ok(Day::Thu)
        } else if is_text(s, "fri") || is_text(s, "Friday") {
            Ok(Day::Fri)
        } else if is_text(s, "sat") || is_text(s, "Saturday") {
            Ok(Day::Sat)
        } else {
            let mut message = String::from_str("bad day ");
            let shown = quoted(s);
            message.append(shown.as_str());
            Err(message)
        }
    }

    /// The full name of the day, as the survey writes it.
    pub fn long_name(self) -> (r: &'static str)
        ensures
            r@ == self.spec_long_name(),
    {
        match self {
            Day::Mon => "Monday",
            Day::Tue => "Tuesday",
            Day::Wed => "Wednesday",
            Day::Thu => "Thursday",
            Day::Fri => "Friday",
            Day::Sat => "Saturday",
        }
    }

    /// The first three letters of the name of the day, as the reports write
    /// it.
    pub fn short_name(self) -> (r: &'static str)
        ensures
            r@ == self.spec_short_name(),
    {
        match self {
            Day::Mon => "Mon",
            Day::Tue => "Tue",
            Day::Wed => "Wed",
            Day::Thu => "Thu",
            Day::Fri => "Fri",
            Day::Sat => "Sat",
        }
    }
}

impl Venue {
    /// Reads a venue: `f2f` or `online`.
    pub fn from_str(s: &str) -> (r: Result<Venue, ()>)
        ensures
            match venue_named(s@) {
                Some(venue) => r == Ok::<Venue, ()>(venue),
                None => r is Err,
            },
    {
        if is_text(s, "f2f") {
            Ok(Venue::FaceToFace)
        } else if is_text(s, "online") {
            Ok(Venue::Online)
        } else {
            Err(())
        }
    }
}

impl Course {
    /// The code of the course.
    pub open spec fn spec_code(self) -> Seq<char> {
        match self {
            Course::Comp1511 => "COMP1511"@,
            Course::Comp1521 => "COMP1521"@,
            Course::Comp2521 => "COMP2521"@,
        }
    }

    /// The course code, as it is written in file names and column headers.
    pub fn to_string(&self) -> (r: String)
        ensures
            r@ == self.spec_code(),
    {
        match self {
            Course::Comp1511 => String::from_str("COMP1511"),
            Course::Comp1521 => String::from_str("COMP1521"),
            Course::Comp2521 => String::from_str("COMP2521"),
        }
    }

    /// Reads a course from its code.
    pub fn from_str(s: &str) -> (r: Result<Course, ()>)
        ensures
            match course_named(s@) {
                Some(course) => r == Ok::<Course, ()>(course),
                None => r is Err,
            },
    {
        if is_text(s, "COMP1511") {
            Ok(Course::Comp1511)
        } else if is_text(s, "COMP1521") {
            Ok(Course::Comp1521)
        } else if is_text(s, "COMP2521") {
            Ok(Course::Comp2521)
        } else {
            Err(())
        }
    }
}

impl Availability {
    /// Reads a rating as the survey writes it.
    pub fn from_str(s: &str) -> (r: Result<Availability, ()>)
        ensures
            match availability_named(s@) {
                Some(rating) => r == Ok::<Availability, ()>(rating),
                None => r is Err,
            },
    {
        if is_text(s, "Impossible") {
            Ok(Availability::Impossible)
        } else if is_text(s, "Dislike") {
            Ok(Availability::Dislike)
        } else if is_text(s, "Possible") {
            Ok(Availability::Possible)
        } else if is_text(s, "Preferred") {
            Ok(Availability::Preferred)
        } else {
            Err(())
        }
    }
}

impl Clone for Session {
    fn clone(&self) -> (r: Session)
        ensures
            r == *self,
    {
        Session {
            id: self.id,
            day: self.day,
            week: self.week,
            venue: self.venue,
            time_24hr: self.time_24hr,
            length_hours: self.length_hours,
            location: self.location.clone(),
            min_allocation: self.min_allocation,
        }
    }
}

/// A copy of a list of ratings.
pub(crate) fn copy_ratings(ratings: &Vec<Availability>) -> (r: Vec<Availability>)
    ensures
        r@ == ratings@,
{
    let mut copy: Vec<Availability> = Vec::new();
    let mut i: usize = 0;
    while i < ratings.len()
        invariant
            i <= ratings.len(),
            copy@ == ratings@.take(i as int),
        decreases ratings.len() - i,
    {
        copy.push(ratings[i]);
        i += 1;
    }
    copy
}

impl Clone for Applicant {
    fn clone(&self) -> (r: Applicant)
        ensures
            r@ == self@,
            r.email == self.email,
            r.name == self.name,
            r.zid == self.zid,
    {
        Applicant {
            id: self.id,
            email: self.email.clone(),
            name: self.name.clone(),
            zid: self.zid.clone(),
            course: self.course,
            max_hours_per_week: self.max_hours_per_week,
            availabilities: copy_ratings(&self.availabilities),
            min_hours_per_week: self.min_hours_per_week,
        }
    }
}

} // verus!
