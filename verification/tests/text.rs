use help_sessions::read_responses::{
    extract_applicants_from_tsv, parse_applicants, twentfour_hour_to_twelve_hour,
};
use help_sessions::read_sessions::{
    apply_priorities, can_apply_priorities, expand_sequence_specification,
    extract_desired_hours, parse_desired_hours, parse_sequence_specification, parse_sessions,
    parse_specification_line, read_sessions_from_string, sessions_from_specification_line,
    twelve_hour_to_twentfour_hour,
};
use help_sessions::text::{
    chars_of, find_first, is_whitespace, lines_of, parse_i32, parse_u16, parse_u8, slice_of,
    split_text, strip_prefix, strip_suffix, trimmed, u8_text, words_of,
};
use help_sessions::tsv::Tsv;
use help_sessions::types::{Availability, Course, Day, Venue, WeekNum};

const SAMPLES: [&str; 24] = [
    "",
    "a",
    "a\tb",
    "\t",
    "a\t\tb\t",
    "one\ntwo",
    "one\ntwo\n",
    "one\r\ntwo\r\n",
    "one\rtwo\r",
    "\n",
    "\n\n",
    "\r\n",
    "tail\r",
    "a\n\nb",
    "  padded  ",
    "\t mixed \u{a0}\u{2003} space\u{3000}",
    "   ",
    "x  y\tz\nw",
    "Mon 9am 2hrs f2f 1-3,5 Brass_Lab # weekly",
    "# only a comment",
    "caf\u{e9}\tna\u{ef}ve\t\u{65e5}\u{672c}",
    "a;b;;c;",
    "1-3,5",
    "\u{85}edge\u{1680}",
];

#[test]
fn characters_and_slices() {
    for sample in SAMPLES {
        let chars = chars_of(sample);
        assert_eq!(chars, sample.chars().collect::<Vec<char>>());
        for from in 0..=chars.len() {
            for to in from..=chars.len() {
                let expected: String = chars[from..to].iter().collect();
                assert_eq!(slice_of(sample, from, to), expected);
            }
        }
    }
}

#[test]
fn white_space_is_that_of_the_standard_library() {
    for code in 0..0x11_0000u32 {
        if let Some(c) = char::from_u32(code) {
            assert_eq!(is_whitespace(c), c.is_whitespace(), "U+{code:04X}");
        }
    }
}

#[test]
fn splitting_is_that_of_the_standard_library() {
    for sample in SAMPLES {
        for sep in ['\t', '\n', ',', ';', ' ', '_'] {
            let expected: Vec<String> = sample.split(sep).map(String::from).collect();
            assert_eq!(split_text(sample, sep), expected, "{sample:?} at {sep:?}");
        }
    }
    assert_eq!(split_text("a\tb\t\tc", '\t'), vec!["a", "b", "", "c"]);
    assert_eq!(split_text("", '\t'), vec![""]);
}

#[test]
fn lines_are_those_of_the_standard_library() {
    for sample in SAMPLES {
        let expected: Vec<String> = sample.lines().map(String::from).collect();
        assert_eq!(lines_of(sample), expected, "{sample:?}");
    }
    assert_eq!(lines_of("one\r\ntwo\n\nthree"), vec!["one", "two", "", "three"]);
    assert_eq!(lines_of("tail\r"), vec!["tail\r"]);
    assert!(lines_of("").is_empty());
}

#[test]
fn trimming_and_words_are_those_of_the_standard_library() {
    for sample in SAMPLES {
        assert_eq!(trimmed(sample), sample.trim(), "{sample:?}");
        let expected: Vec<String> = sample.split_whitespace().map(String::from).collect();
        assert_eq!(words_of(sample), expected, "{sample:?}");
    }
    assert_eq!(trimmed("  a b  "), "a b");
    assert_eq!(words_of("  a  bc d "), vec!["a", "bc", "d"]);
}

#[test]
fn finding_and_stripping() {
    for sample in SAMPLES {
        for c in ['#', '-', '\t', 'a'] {
            let expected = sample.chars().position(|x| x == c).unwrap_or(sample.chars().count());
            assert_eq!(find_first(&chars_of(sample), c), expected);
        }
        for part in ["a", "one", "\r", "Lab # weekly", "", "\u{672c}", "  "] {
            assert_eq!(strip_suffix(sample, part), sample.strip_suffix(part).map(String::from));
            assert_eq!(strip_prefix(sample, part), sample.strip_prefix(part).map(String::from));
        }
    }
    assert_eq!(strip_suffix("z123@ad.unsw.edu.au", "@ad.unsw.edu.au"), Some("z123".to_string()));
    assert_eq!(strip_suffix("z123@unsw.edu.au", "@ad.unsw.edu.au"), None);
    assert_eq!(strip_prefix("Week 7", "Week "), Some("7".to_string()));
    assert_eq!(strip_prefix("week 7", "Week "), None);
}

#[test]
fn numbers_are_read_as_the_standard_library_reads_them() {
    let texts = [
        "", "0", "7", "007", "+7", "-7", "+", "-", "++7", "+-7", "-+7", "--7", "255", "256",
        "0255", "65535", "65536", "2147483647", "2147483648", "-2147483648", "-2147483649",
        "99999999999999999999", "-99999999999999999999", "1 ", " 1", "1a", "a", "١٢", "1_0",
        "+0", "-0", "12", "1e3", "0x10",
    ];
    for text in texts {
        assert_eq!(parse_u8(text), text.parse::<u8>().ok(), "{text:?}");
        assert_eq!(parse_u16(text), text.parse::<u16>().ok(), "{text:?}");
        assert_eq!(parse_i32(text), text.parse::<i32>().ok(), "{text:?}");
    }
    assert_eq!(parse_u8("200"), Some(200));
    assert_eq!(parse_u16("300"), Some(300));
    assert_eq!(parse_i32("-12"), Some(-12));
}

#[test]
fn numbers_are_written_in_base_ten() {
    for n in 0..=255u8 {
        assert_eq!(u8_text(n), n.to_string());
    }
}

#[test]
fn hours_of_the_day() {
    assert_eq!(twentfour_hour_to_twelve_hour(0), "0am");
    assert_eq!(twentfour_hour_to_twelve_hour(9), "9am");
    assert_eq!(twentfour_hour_to_twelve_hour(11), "11am");
    assert_eq!(twentfour_hour_to_twelve_hour(12), "12pm");
    assert_eq!(twentfour_hour_to_twelve_hour(13), "1pm");
    assert_eq!(twentfour_hour_to_twelve_hour(18), "6pm");
    assert_eq!(twentfour_hour_to_twelve_hour(24), "12pm");
    assert_eq!(twentfour_hour_to_twelve_hour(255), "243pm");
    assert_eq!(twelve_hour_to_twentfour_hour("9am"), Some(9));
    assert_eq!(twelve_hour_to_twentfour_hour("11am"), Some(11));
    assert_eq!(twelve_hour_to_twentfour_hour("12am"), Some(12));
    assert_eq!(twelve_hour_to_twentfour_hour("12pm"), Some(12));
    assert_eq!(twelve_hour_to_twentfour_hour("1pm"), Some(13));
    assert_eq!(twelve_hour_to_twentfour_hour("6pm"), Some(18));
    assert_eq!(twelve_hour_to_twentfour_hour("243pm"), Some(255));
    assert_eq!(twelve_hour_to_twentfour_hour("244pm"), None);
    assert_eq!(twelve_hour_to_twentfour_hour("6"), None);
    assert_eq!(twelve_hour_to_twentfour_hour("pm"), None);
    assert_eq!(twelve_hour_to_twentfour_hour("sixpm"), None);
    assert_eq!(twelve_hour_to_twentfour_hour("256am"), None);
    for hour in 0..24u8 {
        if hour != 0 {
            let text = twentfour_hour_to_twelve_hour(hour);
            assert_eq!(twelve_hour_to_twentfour_hour(&text), Some(hour));
        }
    }
}

#[test]
fn names_of_days_venues_courses_and_ratings() {
    assert_eq!(Day::from_str("mon"), Ok(Day::Mon));
    assert_eq!(Day::from_str("Saturday"), Ok(Day::Sat));
    assert_eq!(Day::from_str("Thursday"), Ok(Day::Thu));
    assert_eq!(Day::from_str("wed"), Ok(Day::Wed));
    assert_eq!(Day::from_str("Mon"), Err("bad day \"Mon\"".to_string()));
    assert_eq!(Day::from_str("sun\n"), Err("bad day \"sun\\n\"".to_string()));
    for day in [Day::Mon, Day::Tue, Day::Wed, Day::Thu, Day::Fri, Day::Sat] {
        assert_eq!(Day::from_str(day.long_name()), Ok(day));
        assert_eq!(Day::from_str(&day.short_name().to_lowercase()), Ok(day));
        assert!(day.long_name().starts_with(day.short_name()));
    }
    assert_eq!(Day::Tue.long_name(), "Tuesday");
    assert_eq!(Day::Fri.short_name(), "Fri");
    assert_eq!(Venue::from_str("f2f"), Ok(Venue::FaceToFace));
    assert_eq!(Venue::from_str("online"), Ok(Venue::Online));
    assert_eq!(Venue::from_str("Online"), Err(()));
    for course in [Course::Comp1511, Course::Comp1521, Course::Comp2521] {
        assert_eq!(Course::from_str(&course.to_string()), Ok(course));
    }
    assert_eq!(Course::Comp1521.to_string(), "COMP1521");
    assert_eq!(Course::from_str("comp1511"), Err(()));
    assert_eq!(Availability::from_str("Impossible"), Ok(Availability::Impossible));
    assert_eq!(Availability::from_str("Dislike"), Ok(Availability::Dislike));
    assert_eq!(Availability::from_str("Possible"), Ok(Availability::Possible));
    assert_eq!(Availability::from_str("Preferred"), Ok(Availability::Preferred));
    assert_eq!(Availability::from_str(""), Err(()));
    assert!(Availability::Impossible < Availability::Dislike);
    assert!(Availability::Dislike < Availability::Possible);
    assert!(Availability::Possible < Availability::Preferred);
}

#[test]
fn sequences_of_numbers_and_ranges() {
    assert_eq!(expand_sequence_specification("1-3,5"), vec![1, 2, 3, 5]);
    assert_eq!(expand_sequence_specification("7"), vec![7]);
    assert_eq!(expand_sequence_specification("2-2"), vec![2]);
    assert_eq!(expand_sequence_specification("5-3"), Vec::<i32>::new());
    assert_eq!(expand_sequence_specification("3--1"), Vec::<i32>::new());
    assert_eq!(expand_sequence_specification("1,1,+2-4"), vec![1, 1, 2, 3, 4]);
    assert_eq!(expand_sequence_specification("10-12,1-2"), vec![10, 11, 12, 1, 2]);
    assert_eq!(
        expand_sequence_specification("2147483646-2147483647"),
        vec![2147483646, 2147483647]
    );
    assert_eq!(parse_sequence_specification("1-3,5"), Some(vec![1, 2, 3, 5]));
    assert_eq!(parse_sequence_specification(""), None);
    assert_eq!(parse_sequence_specification("1,"), None);
    assert_eq!(parse_sequence_specification("-3"), None);
    assert_eq!(parse_sequence_specification("1-"), None);
    assert_eq!(parse_sequence_specification("1-2-3"), None);
    assert_eq!(parse_sequence_specification("a"), None);
    assert_eq!(parse_sequence_specification("1, 2"), None);
    assert_eq!(parse_sequence_specification("1-2147483648"), None);
}

#[test]
fn calendar_lines() {
    let mut id = 4;
    let sessions =
        parse_specification_line("mon 9am 2hrs f2f 1-3,5 Brass_Lab # weekly", &mut id).unwrap();
    assert_eq!(id, 8);
    assert_eq!(sessions.len(), 4);
    for (i, week) in [1u8, 2, 3, 5].into_iter().enumerate() {
        assert_eq!(sessions[i].id, 4 + i);
        assert_eq!(sessions[i].day, Day::Mon);
        assert_eq!(sessions[i].week, WeekNum(week));
        assert_eq!(sessions[i].venue, Venue::FaceToFace);
        assert_eq!(sessions[i].time_24hr, 9);
        assert_eq!(sessions[i].length_hours, 2);
        assert_eq!(sessions[i].location, "Brass Lab");
        assert_eq!(sessions[i].min_allocation, None);
    }
    let mut id = 7;
    let same = sessions_from_specification_line("Saturday 12am 1hrs f2f 9 Lab", &mut id);
    assert_eq!(id, 8);
    assert_eq!((same[0].id, same[0].day, same[0].time_24hr), (7, Day::Sat, 12));
    let mut id = 0;
    let online =
        parse_specification_line("  Friday\t1pm 1hrs online 300 Teams__Room_1", &mut id).unwrap();
    assert_eq!(id, 1);
    assert_eq!(online[0].day, Day::Fri);
    assert_eq!(online[0].time_24hr, 13);
    assert_eq!(online[0].venue, Venue::Online);
    assert_eq!(online[0].week, WeekNum(44));
    assert_eq!(online[0].location, "Teams  Room 1");
    for blank in ["", "   ", "# nothing here", "  \t# mon 9am 2hrs f2f 1 Lab"] {
        let mut id = 3;
        assert!(parse_specification_line(blank, &mut id).unwrap().is_empty());
        assert_eq!(id, 3);
    }
    for bad in [
        "mon 9am 2hrs f2f 1-3",
        "mon 9am 2hrs f2f 1-3 Lab extra",
        "Mon 9am 2hrs f2f 1-3 Lab",
        "mon 9 2hrs f2f 1-3 Lab",
        "mon 9am 2 f2f 1-3 Lab",
        "mon 9am 2hrs room 1-3 Lab",
        "mon 9am 2hrs f2f one Lab",
        "mon 9am 300hrs f2f 1 Lab",
    ] {
        let mut id = 3;
        assert!(parse_specification_line(bad, &mut id).is_none(), "{bad:?}");
        assert_eq!(id, 3);
    }
}

const CALENDAR: &str = "# help sessions\n\
mon 10am 2hrs f2f 1-2 Brass_Lab\n\
\n\
tue 2pm 1hrs online 2 Teams   # second week only\r\n\
Wednesday 12pm 3hrs f2f 1,3 Flute_Lab";

#[test]
fn calendars() {
    let sessions = read_sessions_from_string(CALENDAR);
    let summary: Vec<(usize, Day, u8, Venue, u8, u8, &str)> = sessions
        .iter()
        .map(|s| (s.id, s.day, s.week.0, s.venue, s.time_24hr, s.length_hours, s.location.as_str()))
        .collect();
    assert_eq!(
        summary,
        vec![
            (0, Day::Mon, 1, Venue::FaceToFace, 10, 2, "Brass Lab"),
            (1, Day::Mon, 2, Venue::FaceToFace, 10, 2, "Brass Lab"),
            (2, Day::Tue, 2, Venue::Online, 14, 1, "Teams"),
            (3, Day::Wed, 1, Venue::FaceToFace, 12, 3, "Flute Lab"),
            (4, Day::Wed, 3, Venue::FaceToFace, 12, 3, "Flute Lab"),
        ]
    );
    assert!(sessions.iter().all(|s| s.min_allocation.is_none()));
    assert!(read_sessions_from_string("").is_empty());
    assert!(parse_sessions("mon 10am 2hrs f2f 1-2 Brass_Lab\nnonsense\n").is_none());
    assert_eq!(parse_sessions(CALENDAR).unwrap().len(), 5);
}

#[test]
fn tables() {
    let tsv = Tsv::from_string("Week\tDesired COMP1511 hours\tNote\n1\t20\t\n2\t35\tbusy\r\n");
    assert_eq!(tsv.num_rows(), 2);
    let first = tsv.row(0);
    assert_eq!(first.get("Week"), "1");
    assert_eq!(first.get("Desired COMP1511 hours"), "20");
    assert_eq!(first.get("Note"), "");
    assert_eq!(first.find("Missing"), None);
    assert_eq!(first.all_fields(), ["1", "20", ""]);
    let second = tsv.row(1);
    assert_eq!(second.get("Note"), "busy");
    assert_eq!(second.all_fields(), ["2", "35", "busy"]);
    let mut rows = tsv.into_iter();
    assert_eq!(rows.next().unwrap().get("Week"), "1");
    assert_eq!(rows.next().unwrap().get("Week"), "2");
    assert!(rows.next().is_none());
    assert!(rows.next().is_none());
    let repeated = Tsv::from_string("a\ta\tb\nfirst\tsecond\tthird");
    assert_eq!(repeated.row(0).get("a"), "first");
    assert_eq!(repeated.row(0).get("b"), "third");
    assert_eq!(Tsv::from_string("only\theaders").num_rows(), 0);
    assert!(Tsv::parse("").is_none());
    assert!(Tsv::parse("a\tb\n1\n").is_none());
    assert!(Tsv::parse("a\tb\n1\t2\t3\n").is_none());
    assert!(Tsv::parse("a\tb\n1\t2\n\n").is_none());
    assert!(Tsv::parse("a\n\n").is_some());
    assert_eq!(Tsv::parse("a\tb\n1\t2\n").unwrap().num_rows(), 1);
}

#[test]
fn desired_hours() {
    let text = "Week\tDesired COMP1511 hours\tDesired COMP2521 hours\n1\t20\t8\n2\t35\t9\n10\t0\tx\n";
    assert_eq!(
        extract_desired_hours(Tsv::from_string(text), Course::Comp1511),
        vec![(WeekNum(1), 20), (WeekNum(2), 35), (WeekNum(10), 0)]
    );
    let tsv = Tsv::from_string(text);
    assert_eq!(parse_desired_hours(&tsv, Course::Comp2521), None);
    assert_eq!(parse_desired_hours(&tsv, Course::Comp1521), None);
    assert_eq!(
        parse_desired_hours(&Tsv::from_string("Week\tDesired COMP1521 hours"), Course::Comp1521),
        Some(vec![])
    );
}

const PRIORITIES: &str = "Course\tWeek\tDay\tVenue\tStart\tMinimum\n\
COMP1511\t2\ttue\tonline\t14\t3\n\
COMP2521\tnot\tread\tat\tall\t!\n\
COMP1511\t1\tWednesday\tf2f\t12\t2\n";

#[test]
fn priorities() {
    let mut sessions = read_sessions_from_string(CALENDAR);
    let table = Tsv::from_string(PRIORITIES);
    assert!(can_apply_priorities(Course::Comp1511, &table, &sessions));
    assert!(sessions.iter().all(|s| s.min_allocation.is_none()));
    apply_priorities(Course::Comp1511, &table, &mut sessions);
    let minimums: Vec<Option<u16>> = sessions.iter().map(|s| s.min_allocation).collect();
    assert_eq!(minimums, vec![None, None, Some(3), Some(2), None]);
    assert_eq!(sessions[2].location, "Teams");
    // the minimums are there now: the same table cannot be applied again
    assert!(!can_apply_priorities(Course::Comp1511, &table, &sessions));
    let sessions = read_sessions_from_string(CALENDAR);
    // the row of the other course cannot be read
    assert!(!can_apply_priorities(Course::Comp2521, &table, &sessions));
    // no row is about this course
    assert!(can_apply_priorities(Course::Comp1521, &table, &sessions));
    let header = "Course\tWeek\tDay\tVenue\tStart\tMinimum\n";
    for (row, applies) in [
        ("COMP1511\t1\tmon\tf2f\t10\t4", true),
        ("COMP1511\t9\tmon\tf2f\t10\t4", false),
        ("COMP1511\t1\tmon\tonline\t10\t4", false),
        ("COMP1511\t1\tmon\tf2f\t11\t4", false),
        ("COMP1511\t1\ttue\tf2f\t10\t4", false),
        ("COMP1511\t1\tmon\tf2f\t10\tfour", false),
        ("COMP9999\t1\tmon\tf2f\t10\t4", false),
    ] {
        let table = Tsv::from_string(&format!("{header}{row}\n"));
        assert_eq!(can_apply_priorities(Course::Comp1511, &table, &sessions), applies, "{row}");
    }
    // two sessions in one slot
    let twice = read_sessions_from_string("mon 10am 2hrs f2f 1 A\nmon 10am 1hrs f2f 1 B\n");
    let table = Tsv::from_string(&format!("{header}COMP1511\t1\tmon\tf2f\t10\t4\n"));
    assert!(!can_apply_priorities(Course::Comp1511, &table, &twice));
}

const RESPONSES: &str = "Email\tName\tWhich course are you primarily teaching?\t\
Around how many hours would you like to work on help sessions, per week?\tMin hours\t\
Are then any weeks you specifically are not available?\t\
Monday 10am-12pm\tOnline Tuesday 2pm-3pm\tWednesday 12pm-3pm\n\
z1111111@ad.unsw.edu.au\tAda Lovelace\tCOMP1511\t1-5\t\t\tPreferred\tPossible\tDislike\n\
z2222222@ad.unsw.edu.au\tAlan Turing\tCOMP2521\t>10\t4\tWeek 2;Week 3\tPossible\tnonsense\tImpossible\n\
z3333333@ad.unsw.edu.au\tGrace Hopper\tCOMP1511\t6-10\t12\t;Week 1;\tDislike\tPreferred\tPreferred\n";

#[test]
fn applicants() {
    let sessions = read_sessions_from_string(CALENDAR);
    let applicants = extract_applicants_from_tsv(Tsv::from_string(RESPONSES), &sessions);
    assert_eq!(applicants.len(), 3);
    let ada = &applicants[0];
    assert_eq!(ada.id, 0);
    assert_eq!(ada.email, "z1111111@ad.unsw.edu.au");
    assert_eq!(ada.zid, "z1111111");
    assert_eq!(ada.name, "Ada Lovelace");
    assert_eq!(ada.course, Course::Comp1511);
    assert_eq!(ada.max_hours_per_week, 5);
    assert_eq!(ada.min_hours_per_week, None);
    assert_eq!(
        ada.availabilities,
        vec![
            Availability::Preferred,
            Availability::Preferred,
            Availability::Possible,
            Availability::Dislike,
            Availability::Dislike,
        ]
    );
    let alan = &applicants[1];
    assert_eq!(alan.id, 1);
    assert_eq!(alan.course, Course::Comp2521);
    assert_eq!(alan.max_hours_per_week, 14);
    assert_eq!(alan.min_hours_per_week, Some(4));
    // weeks 2 and 3 are off, so the unreadable answer for Tuesday is never read
    assert_eq!(
        alan.availabilities,
        vec![
            Availability::Possible,
            Availability::Impossible,
            Availability::Impossible,
            Availability::Impossible,
            Availability::Impossible,
        ]
    );
    let grace = &applicants[2];
    assert_eq!(grace.id, 2);
    assert_eq!(grace.max_hours_per_week, 10);
    assert_eq!(grace.min_hours_per_week, Some(12));
    assert_eq!(
        grace.availabilities,
        vec![
            Availability::Impossible,
            Availability::Dislike,
            Availability::Preferred,
            Availability::Impossible,
            Availability::Preferred,
        ]
    );
}

#[test]
fn answers_that_cannot_be_read() {
    let sessions = read_sessions_from_string(CALENDAR);
    let header = RESPONSES.lines().next().unwrap();
    let good = "z1@ad.unsw.edu.au\tA\tCOMP1511\t1-5\t\t\tPreferred\tPossible\tDislike";
    let table = Tsv::from_string(&format!("{header}\n{good}\n"));
    assert_eq!(parse_applicants(&table, &sessions).unwrap().len(), 1);
    for bad in [
        "z1@unsw.edu.au\tA\tCOMP1511\t1-5\t\t\tPreferred\tPossible\tDislike",
        "z1@ad.unsw.edu.au\tA\tCOMP1511 \t1-5\t\t\tPreferred\tPossible\tDislike",
        "z1@ad.unsw.edu.au\tA\tCOMP1511\t5\t\t\tPreferred\tPossible\tDislike",
        "z1@ad.unsw.edu.au\tA\tCOMP1511\t1-5\tfew\t\tPreferred\tPossible\tDislike",
        "z1@ad.unsw.edu.au\tA\tCOMP1511\t1-5\t\tweek 1\tPreferred\tPossible\tDislike",
        "z1@ad.unsw.edu.au\tA\tCOMP1511\t1-5\t\tWeek one\tPreferred\tPossible\tDislike",
        "z1@ad.unsw.edu.au\tA\tCOMP1511\t1-5\t\t\tpreferred\tPossible\tDislike",
        "z1@ad.unsw.edu.au\tA\tCOMP1511\t1-5\t\tWeek 1\tPreferred\t\tDislike",
    ] {
        let table = Tsv::from_string(&format!("{header}\n{good}\n{bad}\n"));
        assert!(parse_applicants(&table, &sessions).is_none(), "{bad:?}");
    }
    let short = header.replace("\tWednesday 12pm-3pm", "");
    let row = "z1@ad.unsw.edu.au\tA\tCOMP1511\t1-5\t\t\tPreferred\tPossible";
    let table = Tsv::from_string(&format!("{short}\n{row}\n"));
    assert!(parse_applicants(&table, &sessions).is_none());
    let off = "z1@ad.unsw.edu.au\tA\tCOMP1511\t1-5\t\tWeek 1;Week 3\tPreferred\tPossible";
    let table = Tsv::from_string(&format!("{short}\n{off}\n"));
    assert_eq!(
        parse_applicants(&table, &sessions).unwrap()[0].availabilities,
        vec![
            Availability::Impossible,
            Availability::Preferred,
            Availability::Possible,
            Availability::Impossible,
            Availability::Impossible,
        ]
    );
}
