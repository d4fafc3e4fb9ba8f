use resume_pdf::color::{rgb_bytes, to_rgb, Cmyk, Color, Rgb, CHANNEL_MAX};
use resume_pdf::date::{years_of_weeks, Date};
use resume_pdf::draw::{rectangle_points, DrawOp, Font, Point};
use resume_pdf::enhance_exe_name;
use resume_pdf::icons::{glyph, social_color, FontAwesome};
use resume_pdf::image::{grey_to_rgb, qrcode, recolor_black};
use resume_pdf::layout::{continuation_flags, spine};
use resume_pdf::pdf::{LayoutError, Pdf};
use resume_pdf::resume::{Basics, Education, Language, Location, Profile, Resume, Skill, Work};
use resume_pdf::text::{decimal, join, push_padded, wrap};
use resume_pdf::timeline::{Event, EventType, Timeline};

fn date(year: i32, month: u32, day: u32) -> Date {
    Date { year, month, day }
}

fn event(name: &str, start: Date, end: Option<Date>) -> Event {
    Event {
        event_type: EventType::Work,
        start_date: start,
        end_date: end,
        institution: name.to_string(),
        label: String::new(),
        summary: None,
        highlights: vec![],
    }
}

fn names(events: &[Event]) -> Vec<String> {
    events.iter().map(|e| e.institution.clone()).collect()
}

#[test]
fn timeline_ongoing_first_then_by_date() {
    let mut timeline = Timeline::new();
    timeline.add(event("A", date(2020, 1, 1), None));
    timeline.add(event("B", date(2018, 1, 1), Some(date(2019, 1, 1))));
    timeline.add(event("C", date(2021, 6, 1), None));
    assert_eq!(names(&timeline.events()), vec!["C", "A", "B"]);
}

#[test]
fn timeline_finished_events_by_end_date_descending() {
    let mut timeline = Timeline::new();
    timeline.add(event("old", date(2001, 1, 1), Some(date(2005, 3, 1))));
    timeline.add(event("new", date(2000, 1, 1), Some(date(2010, 3, 1))));
    timeline.add(event("mid", date(2006, 1, 1), Some(date(2008, 12, 31))));
    assert_eq!(names(&timeline.events()), vec!["new", "mid", "old"]);
}

#[test]
fn timeline_ties_keep_insertion_order() {
    let mut timeline = Timeline::new();
    timeline.add(event("first", date(2001, 1, 1), Some(date(2005, 3, 1))));
    timeline.add(event("second", date(2003, 1, 1), Some(date(2005, 3, 1))));
    timeline.add(event("third", date(2002, 1, 1), Some(date(2005, 3, 1))));
    assert_eq!(names(&timeline.events()), vec!["first", "second", "third"]);
}

#[test]
fn timeline_empty() {
    assert!(Timeline::new().events().is_empty());
}

#[test]
fn continuation_runs_break_on_other_institution() {
    let events = vec![
        event("Acme, Paris", date(2020, 1, 1), None),
        event("Acme, Paris", date(2018, 1, 1), Some(date(2019, 1, 1))),
        event("Other", date(2016, 1, 1), Some(date(2017, 1, 1))),
        event("Acme, Paris", date(2014, 1, 1), Some(date(2015, 1, 1))),
    ];
    assert_eq!(continuation_flags(&events), vec![false, true, false, false]);
}

#[test]
fn color_normalization_corners() {
    let white = to_rgb(Color::Cmyk(Cmyk::new(0, 0, 0, 0)));
    assert_eq!(white, Rgb::new(CHANNEL_MAX, CHANNEL_MAX, CHANNEL_MAX));
    let black = to_rgb(Color::Cmyk(Cmyk::new(CHANNEL_MAX, CHANNEL_MAX, CHANNEL_MAX, CHANNEL_MAX)));
    assert_eq!(black, Rgb::new(0, 0, 0));
    assert_eq!(to_rgb(Color::Greyscale(5000)), Rgb::new(5000, 5000, 5000));
    assert_eq!(to_rgb(Color::SpotColor(Cmyk::new(0, 0, 0, 0))), white);
    assert_eq!(to_rgb(Color::Rgb(Rgb::new(1, 2, 3))), Rgb::new(1, 2, 3));
}

#[test]
fn color_accent_in_bytes() {
    let rgb = to_rgb(Color::Cmyk(Cmyk::new(7800, 6200, 6600, 7100)));
    assert_eq!(rgb, Rgb::new(638, 1102, 986));
    assert_eq!(rgb_bytes(rgb), (16, 28, 25));
    assert_eq!(rgb_bytes(Rgb::new(10000, 5000, 0)), (255, 127, 0));
}

#[test]
fn icons_cover_the_glyph_table() {
    let table = [
        ("cake", '\u{f1fd}'),
        ("envelope", '\u{f0e0}'),
        ("gitlab", '\u{f296}'),
        ("github", '\u{f09b}'),
        ("linkedin", '\u{f08c}'),
        ("twitter", '\u{f099}'),
        ("phone", '\u{f095}'),
        ("map-marker", '\u{f041}'),
    ];
    for (name, c) in table.iter() {
        assert_eq!(glyph(name).ok(), Some(*c));
    }
}

#[test]
fn icons_unknown_name() {
    let err = glyph("facebook").unwrap_err();
    assert_eq!(err.name(), "facebook");
    assert_eq!(err.message(), "Unknown font: facebook");
    assert!(glyph("GitHub").is_err());
}

#[test]
fn icon_printing() {
    let font_awesome = FontAwesome::new(Font::Regular);
    let mut ops = vec![DrawOp::LineBreak];
    let white = Color::Rgb(Rgb::new(10000, 10000, 10000));
    assert!(font_awesome.print_icon(&mut ops, "phone", 12, white).is_ok());
    assert_eq!(ops.len(), 4);
    assert!(matches!(ops[2], DrawOp::SetFont(Font::Regular, 12)));
    match &ops[3] {
        DrawOp::WriteText(t, Font::Regular) => assert_eq!(t, "\u{f095}"),
        _ => panic!("glyph not written"),
    }
    assert!(font_awesome.print_icon(&mut ops, "facebook", 12, white).is_err());
    assert_eq!(ops.len(), 4);
}

#[test]
fn social_colors() {
    let fallback = Color::Greyscale(1);
    assert_eq!(social_color("twitter", fallback), Color::Rgb(Rgb::new(1100, 6300, 9500)));
    assert_eq!(social_color("linkedin", fallback), Color::Rgb(Rgb::new(0, 4600, 7000)));
    assert_eq!(social_color("gitlab", fallback), Color::Rgb(Rgb::new(8800, 2600, 1600)));
    assert_eq!(social_color("github", fallback), fallback);
    assert_eq!(social_color("mastodon", fallback), fallback);
}

#[test]
fn wrap_greedy_fill() {
    let lines = wrap("a b c d e f", 3);
    assert_eq!(lines, vec!["a b", "c d", "e f"]);
    assert!(lines.iter().all(|l| l.chars().count() <= 3));
    assert_eq!(lines.join(" "), "a b c d e f");
}

#[test]
fn wrap_longer_text() {
    let lines = wrap("Memory safety without garbage collection.", 15);
    assert_eq!(lines, vec!["Memory safety", "without garbage", "collection."]);
}

#[test]
fn join_and_pad() {
    let parts = vec!["rust".to_string(), "verus".to_string(), "z3".to_string()];
    assert_eq!(join(&parts, "  -  "), "rust  -  verus  -  z3");
    assert_eq!(join(&vec![], ", "), "");
    let mut s = "- ".to_string();
    push_padded(&mut s, "French", 10);
    assert_eq!(s, "- French    ");
    let mut t = String::new();
    push_padded(&mut t, "Portuguese", 4);
    assert_eq!(t, "Portuguese");
}

#[test]
fn spine_slots() {
    assert_eq!(spine(100, 4), (25, 75));
    assert_eq!(spine(100, 1), (100, 0));
    assert_eq!(spine(10, 3), (3, 6));
    let (height, length) = spine(10438000, 7);
    assert_eq!(length, 6 * height);
    let ys: Vec<i64> = (0..7).map(|i| 10438000 - i * height).collect();
    assert!(ys.windows(2).all(|w| w[0] > w[1]));
    assert_eq!(ys[6], 10438000 - length);
}

#[test]
fn rectangle_corners() {
    let points = rectangle_points(1, 2, 10, 20);
    assert_eq!(
        points,
        vec![
            (Point { x: 1, y: 22 }, false),
            (Point { x: 11, y: 22 }, false),
            (Point { x: 11, y: 2 }, false),
            (Point { x: 1, y: 2 }, false),
        ]
    );
}

#[test]
fn recolor_only_black_pixels() {
    let mut rgb = vec![0, 0, 0, 255, 255, 255, 0, 0, 1, 0, 0, 0, 7];
    recolor_black(&mut rgb, (16, 28, 25));
    assert_eq!(rgb, vec![16, 28, 25, 255, 255, 255, 0, 0, 1, 16, 28, 25, 7]);
}

#[test]
fn grey_spreads_to_three_channels() {
    assert_eq!(grey_to_rgb(&vec![0, 255, 9]), vec![0, 0, 0, 255, 255, 255, 9, 9, 9]);
}

#[test]
fn qr_code_in_accent_color() {
    let image = qrcode("https://example.com", 150, Rgb::new(638, 1102, 986)).unwrap();
    assert_eq!(image.len(), 150 * 150 * 3);
    let pixels: Vec<&[u8]> = image.chunks(3).collect();
    assert!(pixels.iter().all(|p| *p == [16, 28, 25] || *p == [255, 255, 255]));
    assert!(pixels.iter().any(|p| *p == [16, 28, 25]));
    assert!(pixels.iter().any(|p| *p == [255, 255, 255]));
}

#[test]
fn qr_code_too_long() {
    let url = "x".repeat(8000);
    assert!(qrcode(&url, 150, Rgb::new(0, 0, 0)).is_none());
}

#[test]
fn dates_age_and_order() {
    assert_eq!(years_of_weeks(104), 2);
    assert_eq!(years_of_weeks(103), 1);
    assert_eq!(years_of_weeks(-53), -1);
    assert_eq!(years_of_weeks(0), 0);
    assert!(date(2019, 12, 31).is_before(&date(2020, 1, 1)));
    assert!(!date(2020, 1, 1).is_before(&date(2020, 1, 1)));
}

#[test]
fn exe_names() {
    assert_eq!(enhance_exe_name("gs", true), "gs.exe");
    assert_eq!(enhance_exe_name("gs.exe", true), "gs.exe");
    assert_eq!(enhance_exe_name("gs", false), "gs");
}

fn work(company: &str, start: Date, end: Option<Date>) -> Work {
    Work {
        company: company.to_string(),
        position: "Engineer".to_string(),
        website: None,
        start_date: start,
        end_date: end,
        summary: "Built things".to_string(),
        highlights: vec!["one".to_string(), "two".to_string()],
    }
}

fn education() -> Education {
    Education {
        institution: "University, Lyon, France".to_string(),
        area: "Computer Science".to_string(),
        study_type: "Master".to_string(),
        start_date: date(2010, 9, 1),
        end_date: Some(date(2012, 6, 30)),
        gpa: None,
        courses: vec!["Compilers".to_string()],
    }
}

#[test]
fn events_from_records() {
    let e = Event::from_education(education());
    assert_eq!(e.event_type, EventType::Education);
    assert_eq!(e.label, "Master in Computer Science");
    assert!(e.summary.is_none());
    assert_eq!(e.highlights, vec!["Compilers"]);
    let w = Event::from_work(work("Acme", date(2020, 1, 1), None));
    assert_eq!(w.event_type, EventType::Work);
    assert_eq!(w.institution, "Acme");
    assert_eq!(w.label, "Engineer");
    assert_eq!(w.summary.as_deref(), Some("Built things"));
}

fn resume(network: &str, website: Option<&str>) -> Resume {
    Resume {
        basics: Basics {
            name: "Jane Q Doe".to_string(),
            label: "Developer".to_string(),
            picture: None,
            email: "jane@example.com".to_string(),
            phone: Some("+33 1 23 45 67 89".to_string()),
            website: website.map(|w| w.to_string()),
            summary: None,
            location: Some(Location {
                address: None,
                postal_code: None,
                city: Some("Lyon".to_string()),
                country_code: Some("FR".to_string()),
                region: None,
            }),
            birthday: Some(date(1990, 5, 17)),
            profiles: vec![Profile {
                network: network.to_string(),
                username: "jane".to_string(),
                url: "https://example.com/jane".to_string(),
            }],
        },
        work: vec![
            work("Acme, Paris", date(2018, 1, 1), None),
            work("Acme, Paris", date(2015, 1, 1), Some(date(2017, 12, 31))),
        ],
        volunteer: vec![],
        education: vec![education()],
        awards: vec![],
        publications: vec![],
        skills: vec![Skill {
            name: "Rust".to_string(),
            level: None,
            keywords: vec!["verification".to_string(), "systems".to_string()],
        }],
        languages: vec![Language { language: "French".to_string(), fluency: Some("Native".to_string()) }],
        interests: vec![],
        references: vec![],
    }
}

fn texts(ops: &[DrawOp]) -> Vec<String> {
    ops.iter()
        .filter_map(|op| match op {
            DrawOp::WriteText(t, _) => Some(t.clone()),
            _ => None,
        })
        .collect()
}

#[test]
fn compose_whole_page() {
    let ops = Pdf::new(resume("GitHub", Some("https://example.com"))).compose(false).unwrap();
    let written = texts(&ops);
    for expected in [
        "JANE", "Q", "DOE", "Developer", "Info", "   jane@example.com", "   Lyon, FR", "Social", "   jane",
        "- French    ", "Native", "- Rust", "verification  -  systems", "Acme", "Paris", "Master in Computer Science",
        "Sep 2010 - Jun 2012", "Jan 2018 - Today", "University", "Lyon, France",
    ]
    .iter()
    {
        assert!(written.iter().any(|t| t == expected), "missing {}", expected);
    }
    assert_eq!(written.iter().filter(|t| *t == "Acme").count(), 1);
    assert!(written.iter().any(|t| t.starts_with("    17 May 1990 (") && t.ends_with("yo)")));
    assert!(ops.iter().any(|op| matches!(op, DrawOp::Image(_, 150))));
    assert!(!ops.iter().any(|op| matches!(op, DrawOp::Picture(_, _))));
    let circles = ops.iter().filter(|op| matches!(op, DrawOp::Circle(_, _))).count();
    assert_eq!(circles, 2 + 1 + 1);
}

#[test]
fn compose_with_picture() {
    let mut r = resume("github", None);
    r.basics.picture = Some("me.png".to_string());
    let ops = Pdf::new(r).compose(true).unwrap();
    assert!(ops.iter().any(|op| matches!(op, DrawOp::Picture(Point { x: 0, y: _ }, _))));
    assert!(!ops.iter().any(|op| matches!(op, DrawOp::Image(_, _))));
}

#[test]
fn compose_unknown_network() {
    match Pdf::new(resume("Facebook", None)).compose(false) {
        Err(LayoutError::UnknownIcon(e)) => assert_eq!(e.name(), "facebook"),
        _ => panic!("unknown network accepted"),
    }
}

#[test]
fn compose_website_too_long_for_qr() {
    let url = "x".repeat(8000);
    assert!(matches!(Pdf::new(resume("github", Some(&url))).compose(false), Err(LayoutError::QrCode)));
}

#[test]
fn birthday_line_shows_age() {
    let ops = Pdf::new(resume("github", None)).compose(false).unwrap();
    let born = chrono::NaiveDate::from_ymd_opt(1990, 5, 17).unwrap();
    let weeks = chrono::Local::now().naive_utc().date().signed_duration_since(born).num_weeks();
    let expected = format!("    17 May 1990 ({}yo)", weeks / 52);
    assert!(texts(&ops).iter().any(|t| *t == expected));
}

#[test]
fn padding_counts_characters() {
    let mut s = String::new();
    push_padded(&mut s, "Français", 10);
    assert_eq!(s, "Français  ");
}

#[test]
fn calendar_validity() {
    assert!(date(2020, 2, 29).is_valid());
    assert!(!date(2019, 2, 29).is_valid());
    assert!(!date(2020, 13, 1).is_valid());
    assert!(!date(2020, 4, 31).is_valid());
    assert!(date(2000, 2, 29).is_valid());
    assert!(!date(1900, 2, 29).is_valid());
    let mut r = resume("github", None);
    assert!(r.is_valid());
    r.work[0].start_date = date(2021, 2, 30);
    assert!(!r.is_valid());
}

#[test]
fn sidebar_starts_below_picture_or_higher() {
    let mut r = resume("github", None);
    r.basics.picture = Some("me.png".to_string());
    let with_picture = Pdf::new(r).compose(true).unwrap();
    let without = Pdf::new(resume("github", None)).compose(false).unwrap();
    let cursor = |ops: &[DrawOp]| {
        ops.iter()
            .find_map(|op| match op {
                DrawOp::SetTextCursor(p) => Some(*p),
                _ => None,
            })
            .unwrap()
    };
    // 297 mm - (74.5 mm + 10 mm) and 297 mm - (15 mm + 10 mm), in units.
    assert_eq!(cursor(&with_picture), Point { x: 5 * 36000, y: 2125 * 3600 });
    assert_eq!(cursor(&without), Point { x: 5 * 36000, y: 272 * 36000 });
}

#[test]
fn sidebar_lines_in_order() {
    let ops = Pdf::new(resume("github", None)).compose(false).unwrap();
    let written = texts(&ops);
    let at = |t: &str| written.iter().position(|w| w == t).unwrap();
    let birthday = written.iter().position(|w| w.starts_with("    17 May 1990")).unwrap();
    assert!(at("JANE") < at("Developer"));
    assert!(at("Developer") < at("   jane@example.com"));
    assert!(at("   jane@example.com") < at("   +33 1 23 45 67 89"));
    assert!(at("   +33 1 23 45 67 89") < at("   Lyon, FR"));
    assert!(at("   Lyon, FR") < birthday);
    assert!(birthday < at("   jane"));
    assert!(at("   jane") < at("- French    "));
    assert!(at("- French    ") < at("Native"));
    assert!(at("Native") < at("- Rust"));
    assert!(at("- Rust") < at("verification  -  systems"));
}

#[test]
fn contact_block_without_optional_fields() {
    let mut r = resume("github", None);
    r.basics.phone = None;
    r.basics.location = None;
    r.basics.birthday = None;
    let ops = Pdf::new(r).compose(false).unwrap();
    let written = texts(&ops);
    assert!(written.iter().any(|t| t == "   jane@example.com"));
    assert!(!written.iter().any(|t| t == "\u{f095}" || t == "\u{f041}" || t == "\u{f1fd}"));
}

#[test]
fn social_icon_in_network_color() {
    let ops = Pdf::new(resume("Twitter", None)).compose(false).unwrap();
    let i = ops
        .iter()
        .position(|op| matches!(op, DrawOp::WriteText(t, _) if t == "\u{f099}"))
        .unwrap();
    assert!(matches!(ops[i - 2], DrawOp::SetFillColor(Color::Rgb(Rgb { r: 1100, g: 6300, b: 9500 }))));
}

#[test]
fn decimal_text() {
    assert_eq!(decimal(0), "0");
    assert_eq!(decimal(7), "7");
    assert_eq!(decimal(36), "36");
    assert_eq!(decimal(-1234), "-1234");
    assert_eq!(decimal(i64::MAX), i64::MAX.to_string());
    assert_eq!(decimal(i64::MIN), i64::MIN.to_string());
}

#[test]
fn compose_empty_website() {
    assert!(matches!(Pdf::new(resume("github", Some(""))).compose(false), Err(LayoutError::QrCode)));
}

#[test]
fn continuation_event_writes_no_institution() {
    let ops = Pdf::new(resume("github", None)).compose(false).unwrap();
    let written = texts(&ops);
    assert_eq!(written.iter().filter(|t| *t == "Paris").count(), 1);
    let mut r = resume("github", None);
    r.work[0].company = "Acme".to_string();
    r.work[1].company = "Acme".to_string();
    let ops = Pdf::new(r).compose(false).unwrap();
    let written = texts(&ops);
    assert_eq!(written.iter().filter(|t| *t == "Acme").count(), 1);
    assert!(!written.iter().any(|t| t == "Paris"));
}
