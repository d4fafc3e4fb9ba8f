//! The layout engine: composes the page of a résumé as drawing operations.
use crate::color::{rgb_of, to_rgb, Cmyk, Color, Rgb};
use crate::date::{age, format_date, today, Date};
use crate::draw::{
    extends, lemma_extends_index, lemma_extends_lines, lemma_extends_push, lemma_extends_refl,
    lemma_extends_shows, lemma_extends_trans,
    lemma_shows_earlier, lines_at, rectangle, rectangle_points, shows, writes, DrawOp,
    Font, Point, UNITS_PER_MM, UNITS_PER_PT,
};
use crate::icons::{
    glyph_of, icon_drawn, social_color, social_color_of, FontAwesome, UnkownFontError,
};
use crate::image::qrcode;
use crate::resume::{Education, Language, Resume, Skill, Work};
use crate::timeline::{dates_ok, event_views, in_timeline_order, Event, EventType, Timeline};
use crate::text::{
    after_first, before_first, concat, decimal, join, joined, lemma_before_first, lower_of, padded,
    push_padded, push_text, split_once, split_words, to_lower, to_upper, trim, trimmed_of, upper_of,
    views, words_of, wrap, wrapped_of,
};
use crate::layout::{
    all_networks_known, event_drawn_nth, event_len, events_len, marker_len, timeline_total, event_text_len, has_location, heading_len, institution_lines, label_lines, right_len, birthday_text, heading_at, lemma_heading_extends, background_first, birthday_line, blocks_at, blocks_in_order,
    bounded_written, byte_len, city_line, contact_block_at, contact_block_done, contact_line_at,
    contact_line_nth, contact_lines, continuation_flags, continues, dates_line, education_event,
    event_drawn, event_text_shown, highlight_lines, language_entry_len,
    language_entry_nth, language_line, language_width, languages_len, languages_listed,
    lemma_contact_block_extends, lemma_contact_block_push, lemma_event_drawn_extends,
    lemma_languages_len_nonneg, lemma_languages_listed_extends,
    lemma_right_block_extends, lemma_skill_entry_extends, lemma_skills_len_nonneg,
    lemma_skills_listed_extends, lemma_social_entry_extends, lemma_socials_listed_extends,
    lemma_take_len_monotone, listed_events,
    location_lines, marker, network_known, primary_spec, qr_after, qr_at, qr_drawn,
    right_block_at, secondary_spec, sidebar_shown, skill_entry_at,
    skill_entry_nth, skill_line, skills_len, skills_listed, slot_height, social_entry_at,
    social_entry_nth, socials_listed, spine, spine_drawn, spine_drawn_after, summary_lines,
    timeline_drawn, timeline_size, username_line, website_encodable, widest_name, work_event,
    DEFAULT_START, DOC_HEIGHT, DOC_WIDTH, DOT_RADIUS, EVENT_TEXT_X, INNER_RADIUS, LEFT_COLUMN_SIZE,
    PROFILE_SIZE, PROFILE_X_OFFSET, PROFILE_Y, QR_SIZE, RADIUS, RIGHT_COLUMN_HEIGHT, TIMELINE_TOP,
    TIMELINE_X,
};
use vstd::prelude::*;

verus! {

/// Why a page could not be composed.
#[derive(Debug)]
pub enum LayoutError {
    /// An icon was asked for by a name the icon font does not cover.
    UnknownIcon(UnkownFontError),
    /// The website does not fit in a QR code.
    QrCode,
}

/// The page being composed, and the résumé it is composed from.
#[derive(Debug)]
pub struct Pdf {
    pub resume: Resume,
    pub font_awesome: FontAwesome,
    pub primary_color: Color,
    pub secondary_color: Color,
    pub ops: Vec<DrawOp>,
}

broadcast use crate::draw::lemma_extends_trans, crate::draw::lemma_extends_shows;

impl Pdf {
    /// The same résumé, fonts and colors.
    pub open spec fn same_setup(&self, other: &Pdf) -> bool {
        &&& self.resume == other.resume
        &&& self.font_awesome == other.font_awesome
        &&& self.primary_color == other.primary_color
        &&& self.secondary_color == other.secondary_color
    }

    /// Colors within range, and every date of the résumé a day of the
    /// calendar.
    pub open spec fn wf(&self) -> bool {
        self.primary_color.wf() && self.secondary_color.wf() && self.resume.wf()
    }

    /// An empty page for `resume`, with the accent and neutral colors and
    /// the regular font for icons.
    pub fn new(resume: Resume) -> (r: Pdf)
        ensures
            r.resume == resume,
            r.font_awesome.regular == Font::Regular,
            r.primary_color == primary_spec(),
            r.secondary_color == secondary_spec(),
            r.ops@.len() == 0,
    {
        Pdf {
            resume,
            font_awesome: FontAwesome::new(Font::Regular),
            primary_color: Color::Cmyk(Cmyk::new(7800, 6200, 6600, 7100)),
            secondary_color: Color::Rgb(Rgb::new(10000, 10000, 10000)),
            ops: Vec::new(),
        }
    }

    fn emit(&mut self, op: DrawOp)
        ensures
            final(self).ops@ == old(self).ops@.push(op),
            final(self).same_setup(old(self)),
            extends(final(self).ops@, old(self).ops@),
    {
        self.ops.push(op);
        proof {
            lemma_extends_refl(old(self).ops@);
            lemma_extends_push(old(self).ops@, old(self).ops@, op);
        }
    }

    /// Writes `text` wrapped to `width` columns, one line at a time.
    fn write_bounded(&mut self, text: &str, width: usize)
        ensures
            bounded_written(final(self).ops@, old(self).ops@, wrapped_of(text@, width as nat)),
            final(self).same_setup(old(self)),
    {
        let lines = wrap(text, width);
        let ghost start = self.ops@;
        let mut k: usize = 0;
        proof {
            lemma_extends_refl(start);
        }
        while k < lines.len()
            invariant
                k <= lines.len(),
                self.same_setup(old(self)),
                start == old(self).ops@,
                bounded_written(self.ops@, start, views(lines@).take(k as int)),
            decreases lines.len() - k,
        {
            let line = lines[k].clone();
            let ghost before = self.ops@;
            self.emit(DrawOp::WriteText(line, Font::Regular));
            self.emit(DrawOp::LineBreak);
            proof {
                let done = views(lines@).take(k as int + 1);
                assert forall|j: int| 0 <= j < done.len() implies (#[trigger] self.ops@[start.len() + 2 * j] matches DrawOp::WriteText(t, f)
                    && t@ == done[j] && f == Font::Regular) && self.ops@[start.len() + 2 * j + 1] == DrawOp::LineBreak by {
                    if j < k {
                        assert(self.ops@[start.len() + 2 * j] == before[start.len() + 2 * j]);
                        assert(self.ops@[start.len() + 2 * j + 1] == before[start.len() + 2 * j + 1]);
                    }
                }
            }
            k = k + 1;
        }
        assert(views(lines@).take(lines.len() as int) == views(lines@));
    }

    /// Writes `text` in bold at the given position and underlines it with
    /// a bar two points high across the column.
    fn write_underlined_text(&mut self, text: &str, font_size: i64, offset_x: i64, offset_y: i64)
        requires
            0 <= font_size,
            font_size * UNITS_PER_PT + 2 * UNITS_PER_PT <= i64::MAX,
            0 <= offset_x <= DOC_WIDTH,
            0 <= offset_y <= DOC_HEIGHT,
        ensures
            extends(final(self).ops@, old(self).ops@),
            final(self).ops@.len() == old(self).ops@.len() + 4,
            final(self).ops@[old(self).ops@.len() as int] == DrawOp::SetFont(Font::Bold, font_size),
            final(self).ops@[old(self).ops@.len() + 1int] == DrawOp::SetTextCursor(Point { x: offset_x, y: offset_y }),
            final(self).ops@[old(self).ops@.len() + 2int] matches DrawOp::WriteText(t, f) && t@ == text@ && f == Font::Bold,
            final(self).ops@[old(self).ops@.len() + 3int] matches DrawOp::Polygon(points) && points@ == rectangle(
                offset_x as int,
                offset_y - (font_size * UNITS_PER_PT + 2 * UNITS_PER_PT),
                RIGHT_COLUMN_HEIGHT - 2 * offset_x,
                2 * UNITS_PER_PT as int,
            ),
            final(self).same_setup(old(self)),
    {
        self.emit(DrawOp::SetFont(Font::Bold, font_size));
        self.emit(DrawOp::SetTextCursor(Point { x: offset_x, y: offset_y }));
        self.emit(DrawOp::WriteText(text.to_owned(), Font::Bold));
        let stroke_size = 2 * UNITS_PER_PT;
        let points = rectangle_points(
            offset_x,
            offset_y - (font_size * UNITS_PER_PT + stroke_size),
            RIGHT_COLUMN_HEIGHT - offset_x - offset_x,
            stroke_size,
        );
        self.emit(DrawOp::Polygon(points));
    }

    /// Writes the heading of a sidebar block at height `offset_y`, then sets
    /// the line height of the block.
    fn write_heading(&mut self, text: &str, offset_y: i64, line_height: i64)
        requires
            0 <= offset_y <= DOC_HEIGHT,
        ensures
            extends(final(self).ops@, old(self).ops@),
            final(self).ops@.len() == old(self).ops@.len() + 7,
            heading_at(final(self).ops@, old(self).ops@.len() as int, text@, offset_y, line_height),
            final(self).same_setup(old(self)),
    {
        self.emit(DrawOp::SetLineHeight(18));
        self.write_underlined_text(text, 12, PROFILE_X_OFFSET, offset_y);
        self.emit(DrawOp::LineBreak);
        self.emit(DrawOp::SetLineHeight(line_height));
    }

    /// Fills the left column with the accent color.
    fn draw_left_background(&mut self)
        ensures
            final(self).ops@.len() == old(self).ops@.len() + 2,
            extends(final(self).ops@, old(self).ops@),
            final(self).ops@[old(self).ops@.len() as int] == DrawOp::SetFillColor(old(self).primary_color),
            final(self).ops@[old(self).ops@.len() + 1int] matches DrawOp::Polygon(p) && p@ == rectangle(
                0,
                0,
                LEFT_COLUMN_SIZE as int,
                DOC_HEIGHT as int,
            ),
            final(self).same_setup(old(self)),
    {
        let points = rectangle_points(0, 0, LEFT_COLUMN_SIZE, DOC_HEIGHT);
        let color = self.primary_color;
        self.emit(DrawOp::SetFillColor(color));
        self.emit(DrawOp::Polygon(points));
    }

    /// Places the profile picture at the top of the left column where the
    /// résumé names one and it could be loaded, and returns where the
    /// sidebar text starts: below the picture, or at the default offset.
    fn add_profile_picture(&mut self, picture_loaded: bool) -> (start: i64)
        ensures
            start == if old(self).resume.basics.picture is Some && picture_loaded {
                RIGHT_COLUMN_HEIGHT
            } else {
                DEFAULT_START
            },
            final(self).ops@ == if old(self).resume.basics.picture is Some && picture_loaded {
                old(self).ops@.push(
                    DrawOp::Picture(Point { x: 0, y: PROFILE_Y }, PROFILE_SIZE),
                )
            } else {
                old(self).ops@
            },
            final(self).same_setup(old(self)),
    {
        if self.resume.basics.picture.is_some() && picture_loaded {
            self.emit(DrawOp::Picture(Point { x: 0, y: PROFILE_Y }, PROFILE_SIZE));
            RIGHT_COLUMN_HEIGHT
        } else {
            DEFAULT_START
        }
    }

    /// Draws the QR code of the website, if there is one, in the accent
    /// color.
    fn social_qr_code(&mut self) -> (r: Result<(), LayoutError>)
        requires
            old(self).wf(),
        ensures
            old(self).resume.basics.website is None ==> r is Ok && final(self).ops@ == old(self).ops@,
            r is Err ==> (r matches Err(LayoutError::QrCode)) && old(self).resume.basics.website is Some,
            r is Ok <==> website_encodable(old(self).resume),
            r is Ok ==> extends(final(self).ops@, old(self).ops@),
            r is Ok && old(self).resume.basics.website is Some ==> qr_drawn(
                final(self).ops@,
                old(self).ops@,
                old(self).resume.basics.website->0@,
                rgb_of(old(self).primary_color),
            ),
            final(self).same_setup(old(self)),
    {
        proof {
            lemma_extends_refl(self.ops@);
        }
        match &self.resume.basics.website {
            None => Ok(()),
            Some(url) => {
                if url.as_str().is_empty() {
                    return Err(LayoutError::QrCode);
                }
                assert(3 * QR_SIZE * QR_SIZE <= usize::MAX);
                match qrcode(url.as_str(), QR_SIZE, to_rgb(self.primary_color)) {
                    None => Err(LayoutError::QrCode),
                    Some(image) => {
                        self.emit(DrawOp::Image(image, QR_SIZE));
                        Ok(())
                    },
                }
            },
        }
    }
    /// Writes the name, one upper-case word a line, and the label under
    /// the picture.
    fn write_bio(&mut self, start: i64)
        requires
            0 <= start <= RIGHT_COLUMN_HEIGHT,
        ensures
            extends(final(self).ops@, old(self).ops@),
            final(self).ops@[old(self).ops@.len() as int] == DrawOp::SetFillColor(secondary_spec()),
            final(self).ops@[old(self).ops@.len() + 1int] == DrawOp::BeginText,
            final(self).ops@[old(self).ops@.len() + 2int] == DrawOp::SetFont(Font::Bold, 20),
            final(self).ops@[old(self).ops@.len() + 3int] == DrawOp::SetTextCursor(
                Point { x: PROFILE_X_OFFSET, y: (DOC_HEIGHT - (start + 10 * UNITS_PER_MM)) as i64 },
            ),
            final(self).ops@[old(self).ops@.len() + 4int] == DrawOp::SetLineHeight(18),
            final(self).ops@[final(self).ops@.len() - 3] == DrawOp::SetFont(Font::Regular, 10),
            final(self).ops@[final(self).ops@.len() - 1] == DrawOp::EndText,
            lines_at(final(self).ops@, old(self).ops@.len() + 5int, words_of(upper_of(old(self).resume.basics.name@)), Font::Bold),
            final(self).ops@.len() == old(self).ops@.len() + 8 + 2 * words_of(upper_of(old(self).resume.basics.name@)).len(),
            final(self).ops@[final(self).ops@.len() - 2] matches DrawOp::WriteText(t, f) && t@ == old(self).resume.basics.label@
                && f == Font::Regular,
            final(self).same_setup(old(self)),
    {
        let ghost p = self.ops@.len() as int;
        self.emit(DrawOp::SetFillColor(Color::Rgb(Rgb::new(10000, 10000, 10000))));
        let offset_y = DOC_HEIGHT - (start + 10 * UNITS_PER_MM);
        self.emit(DrawOp::BeginText);
        self.emit(DrawOp::SetFont(Font::Bold, 20));
        self.emit(DrawOp::SetTextCursor(Point { x: PROFILE_X_OFFSET, y: offset_y }));
        self.emit(DrawOp::SetLineHeight(18));
        let ghost first = self.ops@;
        let upper = to_upper(self.resume.basics.name.as_str());
        let parts = split_words(upper.as_str());
        let mut k: usize = 0;
        proof {
            lemma_extends_refl(first);
        }
        while k < parts.len()
            invariant
                k <= parts.len(),
                self.same_setup(old(self)),
                extends(self.ops@, first),
                p == old(self).ops@.len(),
                first.len() == p + 5,
                first[p] == DrawOp::SetFillColor(secondary_spec()),
                first[p + 1] == DrawOp::BeginText,
                first[p + 2] == DrawOp::SetFont(Font::Bold, 20),
                first[p + 3] == DrawOp::SetTextCursor(
                    Point { x: PROFILE_X_OFFSET, y: (DOC_HEIGHT - (start + 10 * UNITS_PER_MM)) as i64 },
                ),
                first[p + 4] == DrawOp::SetLineHeight(18),
                extends(first, old(self).ops@),
                self.ops@.len() == p + 5 + 2 * k,
                lines_at(self.ops@, p + 5, views(parts@).take(k as int), Font::Bold),
            decreases parts.len() - k,
        {
            let part = parts[k].clone();
            let ghost before = self.ops@;
            self.emit(DrawOp::WriteText(part, Font::Bold));
            self.emit(DrawOp::LineBreak);
            proof {
                let done = views(parts@).take(k as int + 1);
                assert forall|j: int| 0 <= j < done.len() implies (#[trigger] self.ops@[p + 5 + 2 * j] matches DrawOp::WriteText(t, f)
                    && t@ == done[j] && f == Font::Bold) && self.ops@[p + 5 + 2 * j + 1] == DrawOp::LineBreak by {
                    if j < k {
                        assert(self.ops@[p + 5 + 2 * j] == before[p + 5 + 2 * j]);
                        assert(self.ops@[p + 5 + 2 * j + 1] == before[p + 5 + 2 * j + 1]);
                    }
                }
            }
            k = k + 1;
        }
        let ghost named = self.ops@;
        self.emit(DrawOp::SetFont(Font::Regular, 10));
        let label = self.resume.basics.label.clone();
        self.emit(DrawOp::WriteText(label, Font::Regular));
        self.emit(DrawOp::EndText);
        proof {
            assert(views(parts@).take(parts@.len() as int) == views(parts@));
            lemma_extends_index(self.ops@, first, p);
            lemma_extends_index(self.ops@, first, p + 1);
            lemma_extends_index(self.ops@, first, p + 2);
            lemma_extends_index(self.ops@, first, p + 3);
            lemma_extends_index(self.ops@, first, p + 4);
            lemma_extends_lines(self.ops@, named, p + 5, views(parts@), Font::Bold);
        }
    }

    /// Writes the contact block: e-mail, phone, city and birthday, each
    /// behind its icon.
    #[verifier::rlimit(100)]
    fn write_info(&mut self, start: i64)
        requires
            0 <= start <= RIGHT_COLUMN_HEIGHT,
            old(self).wf(),
        ensures
            extends(final(self).ops@, old(self).ops@),
            final(self).ops@[old(self).ops@.len() as int] == DrawOp::SetFillColor(old(self).secondary_color),
            shows(final(self).ops@, old(self).ops@.len() as int, "   "@ + old(self).resume.basics.email@, Font::Regular),
            old(self).resume.basics.phone matches Some(phone) ==> shows(
                final(self).ops@,
                old(self).ops@.len() as int,
                "   "@ + phone@,
                Font::Regular,
            ),
            old(self).resume.basics.location matches Some(l) ==> (l.city is Some ==> shows(
                final(self).ops@,
                old(self).ops@.len() as int,
                city_line(l),
                Font::Regular,
            )),
            old(self).resume.basics.birthday matches Some(b) ==> exists|day: Option<Date>|
                (day matches Some(d) ==> d.wf()) &&
                shows(
                    final(self).ops@,
                    old(self).ops@.len() as int,
                    #[trigger] birthday_line(b, day),
                    Font::Regular,
                ),
            exists|day: Option<Date>|
                (day matches Some(d) ==> d.wf()) && #[trigger] contact_block_done(
                    final(self).ops@,
                    old(self).ops@.len() + 10int,
                    old(self).resume,
                    day,
                    old(self).secondary_color,
                    old(self).font_awesome.regular,
                ),
            heading_at(final(self).ops@, old(self).ops@.len() + 2int, "Info"@, (DOC_HEIGHT - (start + 35 * UNITS_PER_MM)) as i64, 16),
            final(self).same_setup(old(self)),
    {
        proof {
            reveal_strlit("   ");
            reveal_strlit("    ");
            reveal_strlit(", ");
            reveal_strlit(" (");
            reveal_strlit("yo)");
            reveal_strlit("envelope");
            reveal_strlit("phone");
            reveal_strlit("map-marker");
            reveal_strlit("cake");
            reveal_strlit("%d %b %Y");
        }
        let secondary = self.secondary_color;
        self.emit(DrawOp::SetFillColor(secondary));
        let ghost opened = self.ops@;
        let ghost p = old(self).ops@.len() as int;
        proof {
            lemma_extends_refl(opened);
        }
        let offset_y = DOC_HEIGHT - (start + 35 * UNITS_PER_MM);
        self.emit(DrawOp::BeginText);
        self.write_heading("Info", offset_y, 16);
        let ghost headed = self.ops@;
        proof {
            reveal_strlit("Info");
            lemma_extends_refl(headed);
        }
        self.emit(DrawOp::LineBreak);
        let ghost q0 = self.ops@.len() as int;
        assert(q0 == p + 10);
        let email = concat("   ", self.resume.basics.email.as_str());
        let ghost email_line = ("envelope"@, email@);
        self.write_contact_line(false, "envelope", email);
        let ghost s1 = self.ops@;
        let ghost mut lines = seq![email_line];
        assert(contact_line_nth(s1, q0, lines, 0, secondary, self.font_awesome.regular));
        assert(contact_block_at(s1, q0, lines, secondary, self.font_awesome.regular)) by {
            reveal(contact_block_at);
        }
        proof {
            lemma_extends_refl(s1);
        }
        if let Some(phone) = &self.resume.basics.phone {
            let text = concat("   ", phone.as_str());
            let ghost line = ("phone"@, text@);
            self.write_contact_line(true, "phone", text);
            proof {
                lemma_contact_block_push(self.ops@, s1, q0, lines, line, secondary, self.font_awesome.regular);
                lines = lines.push(line);
            }
        }
        let ghost s2 = self.ops@;
        proof {
            lemma_extends_refl(s2);
        }
        if let Some(location) = &self.resume.basics.location {
            if let Some(city) = &location.city {
                let mut text = concat("   ", city.as_str());
                if let Some(country_code) = &location.country_code {
                    push_text(&mut text, ", ");
                    push_text(&mut text, country_code.as_str());
                }
                assert(text@ == city_line(*location));
                let ghost line = ("map-marker"@, text@);
                self.write_contact_line(true, "map-marker", text);
                proof {
                    lemma_contact_block_push(self.ops@, s2, q0, lines, line, secondary, self.font_awesome.regular);
                    lines = lines.push(line);
                }
            }
        }
        let ghost s3 = self.ops@;
        proof {
            lemma_extends_refl(s3);
        }
        let ghost mut day_shown: Option<Date> = None;
        if let Some(birthday) = self.resume.basics.birthday {
            let now = today();
            let text = birthday_text(birthday, now);
            assert(text@ == birthday_line(birthday, now));
            let ghost line = ("cake"@, text@);
            self.write_contact_line(true, "cake", text);
            proof {
                lemma_contact_block_push(self.ops@, s3, q0, lines, line, secondary, self.font_awesome.regular);
                lines = lines.push(line);
            }
            proof {
                day_shown = now;
            }
        }
        let ghost s4 = self.ops@;
        self.emit(DrawOp::EndText);
        proof {
            lemma_heading_extends(self.ops@, headed, old(self).ops@.len() + 2int, "Info"@, (DOC_HEIGHT - (start + 35 * UNITS_PER_MM)) as i64, 16);
        }
        proof {
            let font = self.font_awesome.regular;
            assert(lines =~= contact_lines(self.resume, day_shown));
            lemma_contact_block_extends(self.ops@, s4, q0, lines, secondary, font);
            assert(contact_block_done(self.ops@, q0, self.resume, day_shown, secondary, font));
            let basics = self.resume.basics;
            let fin = self.ops@;
            lemma_extends_index(fin, opened, p);
            lemma_extends_trans(s2, s1, s1);
            lemma_extends_trans(s3, s2, s1);
            lemma_extends_trans(s4, s3, s1);
            lemma_extends_trans(fin, s4, s1);
            lemma_extends_trans(s4, s3, s2);
            lemma_extends_trans(fin, s4, s2);
            lemma_extends_trans(fin, s4, s3);
            assert(shows(s1, p, "   "@ + basics.email@, Font::Regular));
            lemma_extends_shows(fin, s1, p, "   "@ + basics.email@, Font::Regular);
            if basics.phone is Some {
                assert(shows(s2, p, "   "@ + basics.phone->0@, Font::Regular));
                lemma_extends_shows(fin, s2, p, "   "@ + basics.phone->0@, Font::Regular);
            }
            if basics.location is Some && basics.location->0.city is Some {
                assert(shows(s3, p, city_line(basics.location->0), Font::Regular));
                lemma_extends_shows(fin, s3, p, city_line(basics.location->0), Font::Regular);
            }
            if basics.birthday is Some {
                assert(day_shown matches Some(d) ==> d.wf());
                assert(shows(s4, p, birthday_line(basics.birthday->0, day_shown), Font::Regular));
                lemma_extends_shows(fin, s4, p, birthday_line(basics.birthday->0, day_shown), Font::Regular);
            }
        }
    }

    /// Writes one line of the contact block: a line break where asked,
    /// the icon, then the text in the regular font.
    fn write_contact_line(&mut self, break_before: bool, icon: &str, text: String)
        requires
            glyph_of(icon@) is Some,
        ensures
            extends(final(self).ops@, old(self).ops@),
            forall|from: int| 0 <= from <= old(self).ops@.len() ==> #[trigger] shows(final(self).ops@, from, text@, Font::Regular),
            final(self).ops@.len() == old(self).ops@.len() + if break_before {
                6int
            } else {
                5int
            },
            contact_line_at(
                final(self).ops@,
                old(self).ops@.len() as int,
                break_before,
                (icon@, text@),
                old(self).secondary_color,
                old(self).font_awesome.regular,
            ),
            final(self).same_setup(old(self)),
    {
        let secondary = self.secondary_color;
        let ghost q = self.ops@.len() as int;
        if break_before {
            self.emit(DrawOp::LineBreak);
        }
        let ghost broken = self.ops@;
        self.print_known_icon(icon, secondary);
        self.emit(DrawOp::SetFont(Font::Regular, 9));
        let ghost shown = text@;
        self.emit(DrawOp::WriteText(text, Font::Regular));
        assert forall|from: int| 0 <= from <= old(self).ops@.len() implies #[trigger] shows(self.ops@, from, shown, Font::Regular) by {
            assert(writes(self.ops@[self.ops@.len() - 1], shown, Font::Regular));
        }
        let ghost b: int = if break_before {
            1
        } else {
            0
        };
        assert(self.ops@[q + b] == DrawOp::SetFillColor(secondary));
        assert(writes(self.ops@[q + b + 2], seq![glyph_of(icon@)->0], self.font_awesome.regular));
    }

    /// Draws an icon whose name the icon font covers.
    fn print_known_icon(&mut self, name: &str, color: Color)
        requires
            glyph_of(name@) is Some,
        ensures
            icon_drawn(final(self).ops@, old(self).ops@, glyph_of(name@)->0, 12, color, old(self).font_awesome.regular),
            extends(final(self).ops@, old(self).ops@),
            final(self).same_setup(old(self)),
    {
        let font_awesome = self.font_awesome;
        let r = font_awesome.print_icon(&mut self.ops, name, 12, color);
        proof {
            assert(extends(self.ops@, old(self).ops@)) by {
                assert(self.ops@.subrange(0, old(self).ops@.len() as int) =~= old(self).ops@);
            }
        }
    }

    /// Draws the icon of a social network in the network's color.
    fn write_social_icon(&mut self, name: &str, font_size: i64) -> (r: Result<(), UnkownFontError>)
        ensures
            r is Ok <==> glyph_of(name@) is Some,
            r matches Err(e) ==> e.font()@ == name@ && final(self).ops@ == old(self).ops@,
            r is Ok ==> icon_drawn(
                final(self).ops@,
                old(self).ops@,
                glyph_of(name@)->0,
                font_size,
                social_color_of(name@, old(self).secondary_color),
                old(self).font_awesome.regular,
            ),
            extends(final(self).ops@, old(self).ops@),
            final(self).same_setup(old(self)),
    {
        let color = social_color(name, self.secondary_color);
        let font_awesome = self.font_awesome;
        let r = font_awesome.print_icon(&mut self.ops, name, font_size, color);
        proof {
            assert(extends(self.ops@, old(self).ops@)) by {
                assert(self.ops@.subrange(0, old(self).ops@.len() as int) =~= old(self).ops@);
            }
        }
        r
    }

    /// Writes the social profiles, each behind the icon of its network.
    /// Fails on the first network the icon font does not cover.
    fn write_social(&mut self, start: i64) -> (r: Result<(), UnkownFontError>)
        requires
            0 <= start <= RIGHT_COLUMN_HEIGHT,
        ensures
            r is Ok <==> all_networks_known(old(self).resume),
            r matches Err(e) ==> !all_networks_known(old(self).resume)
                && glyph_of(e.font()@) is None,
            extends(final(self).ops@, old(self).ops@),
            final(self).ops@[old(self).ops@.len() as int] == DrawOp::BeginText,
            final(self).ops@[old(self).ops@.len() + 1int] == DrawOp::SetFillColor(old(self).secondary_color),
            r is Ok ==> forall|j: int|
                0 <= j < old(self).resume.basics.profiles@.len() ==> shows(
                    final(self).ops@,
                    old(self).ops@.len() as int,
                    #[trigger] username_line(old(self).resume.basics.profiles@[j]),
                    Font::Regular,
                ),
            r is Ok ==> final(self).ops@.len() == old(self).ops@.len() + 10 + 7 * old(self).resume.basics.profiles@.len(),
            r is Ok ==> socials_listed(
                final(self).ops@,
                old(self).ops@.len() + 9int,
                old(self).resume.basics.profiles@,
                old(self).secondary_color,
                old(self).font_awesome.regular,
            ),
            r is Ok ==> final(self).ops@.last() == DrawOp::EndText,
            heading_at(final(self).ops@, old(self).ops@.len() + 2int, "Social"@, (DOC_HEIGHT - (start + 73 * UNITS_PER_MM)) as i64, 16),
            final(self).same_setup(old(self)),
    {
        proof {
            reveal_strlit("   ");
            reveal(socials_listed);
        }
        self.emit(DrawOp::BeginText);
        let secondary = self.secondary_color;
        self.emit(DrawOp::SetFillColor(secondary));
        let ghost opened = self.ops@;
        let ghost p = old(self).ops@.len() as int;
        proof {
            lemma_extends_refl(opened);
        }
        let offset_y = DOC_HEIGHT - (start + 25 * UNITS_PER_MM + 48 * UNITS_PER_MM);
        self.write_heading("Social", offset_y, 16);
        let ghost headed = self.ops@;
        proof {
            reveal_strlit("Social");
            lemma_extends_refl(headed);
        }
        let n = self.resume.basics.profiles.len();
        let ghost q0 = self.ops@.len() as int;
        let mut k: usize = 0;
        while k < n
            invariant
                k <= n,
                n == self.resume.basics.profiles@.len(),
                self.same_setup(old(self)),
                extends(self.ops@, old(self).ops@),
                extends(self.ops@, opened),
                extends(self.ops@, headed),
                heading_at(headed, old(self).ops@.len() + 2int, "Social"@, (DOC_HEIGHT - (start + 73 * UNITS_PER_MM)) as i64, 16),
                p + 2 <= opened.len(),
                p == old(self).ops@.len(),
                opened[p] == DrawOp::BeginText,
                opened[p + 1] == DrawOp::SetFillColor(old(self).secondary_color),
                forall|j: int| 0 <= j < k ==> #[trigger] network_known(self.resume.basics.profiles@[j]),
                forall|j: int| 0 <= j < k ==> shows(self.ops@, p, #[trigger] username_line(self.resume.basics.profiles@[j]), Font::Regular),
                q0 == p + 9,
                secondary == old(self).secondary_color,
                self.ops@.len() == q0 + 7 * k,
                forall|j: int| 0 <= j < k ==> #[trigger] social_entry_nth(self.ops@, q0, self.resume.basics.profiles@, j, secondary, self.font_awesome.regular),
            decreases n - k,
        {
            let ghost before = self.ops@;
            self.emit(DrawOp::LineBreak);
            let ghost broken = self.ops@;
            let network = to_lower(self.resume.basics.profiles[k].network.as_str());
            match self.write_social_icon(network.as_str(), 12) {
                Ok(()) => {},
                Err(e) => {
                    assert(!network_known(self.resume.basics.profiles@[k as int]));
                    proof {
                        lemma_extends_index(self.ops@, opened, p);
                        lemma_extends_index(self.ops@, opened, p + 1);
                    }
                    proof {
                        lemma_heading_extends(self.ops@, headed, old(self).ops@.len() + 2int, "Social"@, (DOC_HEIGHT - (start + 73 * UNITS_PER_MM)) as i64, 16);
                    }
                    return Err(e);
                },
            }
            self.emit(DrawOp::SetFillColor(secondary));
            self.emit(DrawOp::SetFont(Font::Regular, 10));
            let username = concat("   ", self.resume.basics.profiles[k].username.as_str());
            self.emit(DrawOp::WriteText(username, Font::Regular));
            proof {
                let profiles = self.resume.basics.profiles@;
                let font = self.font_awesome.regular;
                let b = before.len() as int;
                assert(extends(self.ops@, broken)) by {
                    assert(self.ops@.subrange(0, broken.len() as int) =~= broken);
                }
                lemma_extends_index(self.ops@, broken, b);
                let name = lower_of(profiles[k as int].network@);
                assert(self.ops@[b] == DrawOp::LineBreak);
                assert(self.ops@[b + 1] == DrawOp::SetFillColor(social_color_of(name, secondary)));
                assert(self.ops@[b + 2] == DrawOp::SetFont(font, 12));
                assert(writes(self.ops@[b + 3], seq![glyph_of(name)->0], font));
                assert(self.ops@[b + 4] == DrawOp::SetFillColor(secondary));
                assert(writes(self.ops@[b + 6], username_line(profiles[k as int]), Font::Regular));
                assert(social_entry_at(self.ops@, b, profiles[k as int], secondary, font));
                assert forall|j: int| 0 <= j < k + 1 implies #[trigger] social_entry_nth(self.ops@, q0, profiles, j, secondary, font) by {
                    if j < k {
                        assert(social_entry_nth(before, q0, profiles, j, secondary, font));
                        lemma_social_entry_extends(self.ops@, before, q0 + 7 * j, profiles[j], secondary, font);
                    }
                }
                assert forall|j: int| 0 <= j < k + 1 implies shows(self.ops@, p, #[trigger] username_line(profiles[j]), Font::Regular) by {
                    if j < k {
                        lemma_extends_shows(self.ops@, before, p, username_line(profiles[j]), Font::Regular);
                    } else {
                        assert(writes(self.ops@[self.ops@.len() - 1], username_line(profiles[j]), Font::Regular));
                    }
                }
            }
            k = k + 1;
        }
        let ghost listed = self.ops@;
        self.emit(DrawOp::EndText);
        proof {
            lemma_heading_extends(self.ops@, headed, old(self).ops@.len() + 2int, "Social"@, (DOC_HEIGHT - (start + 73 * UNITS_PER_MM)) as i64, 16);
        }
        proof {
            lemma_extends_index(self.ops@, opened, p);
            lemma_extends_index(self.ops@, opened, p + 1);
            let profiles = self.resume.basics.profiles@;
            let font = self.font_awesome.regular;
            assert forall|j: int| 0 <= j < profiles.len() implies #[trigger] social_entry_nth(self.ops@, q0, profiles, j, secondary, font) by {
                assert(social_entry_nth(listed, q0, profiles, j, secondary, font));
                lemma_social_entry_extends(self.ops@, listed, q0 + 7 * j, profiles[j], secondary, font);
            }
            assert forall|j: int| 0 <= j < profiles.len() implies shows(self.ops@, p, #[trigger] username_line(profiles[j]), Font::Regular) by {
                lemma_extends_shows(self.ops@, listed, p, username_line(profiles[j]), Font::Regular);
            }
        }
        Ok(())
    }

    /// Writes the spoken languages, names padded to a common width, each
    /// with its fluency in the thin font.
    fn write_languages(&mut self, start: i64)
        requires
            0 <= start <= RIGHT_COLUMN_HEIGHT,
        ensures
            extends(final(self).ops@, old(self).ops@),
            final(self).ops@[old(self).ops@.len() as int] == DrawOp::BeginText,
            final(self).ops@[old(self).ops@.len() + 1int] == DrawOp::SetFillColor(old(self).secondary_color),
            forall|j: int|
                0 <= j < old(self).resume.languages@.len() ==> shows(
                    final(self).ops@,
                    old(self).ops@.len() as int,
                    #[trigger] language_line(old(self).resume.languages@[j], language_width(old(self).resume.languages@)),
                    Font::Bold,
                ),
            final(self).ops@.len() == old(self).ops@.len() + 10 + languages_len(old(self).resume.languages@),
            languages_listed(
                final(self).ops@,
                old(self).ops@.len() + 9int,
                old(self).resume.languages@,
                language_width(old(self).resume.languages@),
            ),
            final(self).ops@.last() == DrawOp::EndText,
            heading_at(final(self).ops@, old(self).ops@.len() + 2int, "Spoken languages"@, (DOC_HEIGHT - (start + 110 * UNITS_PER_MM)) as i64, 16),
            final(self).same_setup(old(self)),
    {
        proof {
            reveal_strlit("- ");
            reveal(languages_listed);
        }
        self.emit(DrawOp::BeginText);
        let secondary = self.secondary_color;
        self.emit(DrawOp::SetFillColor(secondary));
        let ghost opened = self.ops@;
        let ghost p = old(self).ops@.len() as int;
        proof {
            lemma_extends_refl(opened);
        }
        let offset_y = DOC_HEIGHT - (start + 25 * UNITS_PER_MM + 85 * UNITS_PER_MM);
        self.write_heading("Spoken languages", offset_y, 16);
        let ghost headed = self.ops@;
        proof {
            reveal_strlit("Spoken languages");
            lemma_extends_refl(headed);
        }
        let n = self.resume.languages.len();
        let mut widest: usize = 0;
        let mut k: usize = 0;
        while k < n
            invariant
                k <= n,
                n == self.resume.languages@.len(),
                widest == widest_name(self.resume.languages@.take(k as int)),
            decreases n - k,
        {
            let len = self.resume.languages[k].language.as_str().len();
            proof {
                let langs = self.resume.languages@;
                assert(langs.take(k as int + 1).drop_last() == langs.take(k as int));
                assert(langs.take(k as int + 1).last() == langs[k as int]);
                assert(len == byte_len(langs[k as int].language@));
            }
            if len > widest {
                widest = len;
            }
            k = k + 1;
        }
        assert(self.resume.languages@.take(n as int) == self.resume.languages@);
        let width = widest.saturating_add(4);
        let ghost q0 = self.ops@.len() as int;
        assert(q0 == p + 9);
        assert(self.resume.languages@.take(0) =~= Seq::<Language>::empty());
        let mut k: usize = 0;
        while k < n
            invariant
                k <= n,
                n == self.resume.languages@.len(),
                self.same_setup(old(self)),
                extends(self.ops@, old(self).ops@),
                extends(self.ops@, opened),
                extends(self.ops@, headed),
                heading_at(headed, old(self).ops@.len() + 2int, "Spoken languages"@, (DOC_HEIGHT - (start + 110 * UNITS_PER_MM)) as i64, 16),
                p == old(self).ops@.len(),
                width == language_width(self.resume.languages@),
                forall|j: int| 0 <= j < k ==> shows(self.ops@, p, #[trigger] language_line(self.resume.languages@[j], width as int), Font::Bold),
                q0 == p + 9,
                self.ops@.len() == q0 + languages_len(self.resume.languages@.take(k as int)),
                forall|j: int| 0 <= j < k ==> #[trigger] language_entry_nth(self.ops@, q0, self.resume.languages@, j, width as int),
            decreases n - k,
        {
            let ghost before = self.ops@;
            self.emit(DrawOp::LineBreak);
            self.emit(DrawOp::SetFont(Font::Bold, 10));
            let mut text = "- ".to_owned();
            push_padded(&mut text, self.resume.languages[k].language.as_str(), width);
            self.emit(DrawOp::WriteText(text, Font::Bold));
            let ghost named = self.ops@;
            proof {
                lemma_extends_refl(named);
                let langs = self.resume.languages@;
                assert forall|j: int| 0 <= j < k + 1 implies shows(named, p, #[trigger] language_line(langs[j], width as int), Font::Bold) by {
                    if j < k {
                        lemma_extends_shows(named, before, p, language_line(langs[j], width as int), Font::Bold);
                    } else {
                        assert(writes(named[named.len() - 1], language_line(langs[j], width as int), Font::Bold));
                    }
                }
            }
            if let Some(fluency) = &self.resume.languages[k].fluency {
                let fluency = fluency.clone();
                self.emit(DrawOp::SetFont(Font::Thin, 10));
                self.emit(DrawOp::WriteText(fluency, Font::Thin));
            }
            proof {
                let langs = self.resume.languages@;
                assert forall|j: int| 0 <= j < k + 1 implies shows(self.ops@, p, #[trigger] language_line(langs[j], width as int), Font::Bold) by {
                    lemma_extends_shows(self.ops@, named, p, language_line(langs[j], width as int), Font::Bold);
                }
                assert(langs.take(k as int + 1).drop_last() == langs.take(k as int));
                assert(langs.take(k as int + 1).last() == langs[k as int]);
                assert(self.ops@.subrange(0, before.len() as int) == before);
                assert forall|j: int| 0 <= j < k + 1 implies #[trigger] language_entry_nth(self.ops@, q0, langs, j, width as int) by {
                    if j < k {
                        assert(language_entry_nth(before, q0, langs, j, width as int));
                        let q = q0 + languages_len(langs.take(j));
                        lemma_take_len_monotone(langs, j, k as int);
                        assert(self.ops@[q] == before[q]);
                        assert(self.ops@[q + 1] == before[q + 1]);
                        assert(self.ops@[q + 2] == before[q + 2]);
                        if langs[j].fluency is Some {
                            assert(self.ops@[q + 3] == before[q + 3]);
                            assert(self.ops@[q + 4] == before[q + 4]);
                        }
                    }
                }
            }
            k = k + 1;
        }
        let ghost listed = self.ops@;
        self.emit(DrawOp::EndText);
        proof {
            lemma_heading_extends(self.ops@, headed, old(self).ops@.len() + 2int, "Spoken languages"@, (DOC_HEIGHT - (start + 110 * UNITS_PER_MM)) as i64, 16);
        }
        proof {
            let langs = self.resume.languages@;
            assert(langs.take(n as int) == langs);
            assert forall|j: int| 0 <= j < langs.len() implies #[trigger] language_entry_nth(self.ops@, q0, langs, j, width as int) by {
                assert(language_entry_nth(listed, q0, langs, j, width as int));
                let q = q0 + languages_len(langs.take(j));
                lemma_take_len_monotone(langs, j, n as int);
                assert(self.ops@[q] == listed[q]);
                assert(self.ops@[q + 1] == listed[q + 1]);
                assert(self.ops@[q + 2] == listed[q + 2]);
                if langs[j].fluency is Some {
                    assert(self.ops@[q + 3] == listed[q + 3]);
                    assert(self.ops@[q + 4] == listed[q + 4]);
                }
            }
            assert forall|j: int| 0 <= j < langs.len() implies shows(self.ops@, p, #[trigger] language_line(langs[j], width as int), Font::Bold) by {
                lemma_extends_shows(self.ops@, listed, p, language_line(langs[j], width as int), Font::Bold);
            }
            lemma_extends_index(self.ops@, opened, p);
            lemma_extends_index(self.ops@, opened, p + 1);
        }
    }

    /// Writes each skill in bold, its keywords under it wrapped to 36
    /// columns.
    fn write_skills(&mut self, start: i64)
        requires
            0 <= start <= RIGHT_COLUMN_HEIGHT,
        ensures
            extends(final(self).ops@, old(self).ops@),
            final(self).ops@[old(self).ops@.len() as int] == DrawOp::BeginText,
            final(self).ops@[old(self).ops@.len() + 1int] == DrawOp::SetFillColor(old(self).secondary_color),
            forall|j: int|
                0 <= j < old(self).resume.skills@.len() ==> shows(
                    final(self).ops@,
                    old(self).ops@.len() as int,
                    #[trigger] skill_line(old(self).resume.skills@[j]),
                    Font::Bold,
                ),
            final(self).ops@.len() == old(self).ops@.len() + 11 + skills_len(old(self).resume.skills@),
            skills_listed(final(self).ops@, old(self).ops@.len() + 10int, old(self).resume.skills@),
            final(self).ops@.last() == DrawOp::EndText,
            heading_at(final(self).ops@, old(self).ops@.len() + 2int, "Skills"@, (DOC_HEIGHT - (start + 150 * UNITS_PER_MM)) as i64, 14),
            final(self).same_setup(old(self)),
    {
        proof {
            reveal_strlit("- ");
            reveal(skills_listed);
        }
        self.emit(DrawOp::BeginText);
        let secondary = self.secondary_color;
        self.emit(DrawOp::SetFillColor(secondary));
        let ghost opened = self.ops@;
        let ghost p = old(self).ops@.len() as int;
        proof {
            lemma_extends_refl(opened);
        }
        let offset_y = DOC_HEIGHT - (start + 25 * UNITS_PER_MM + 85 * UNITS_PER_MM + 40 * UNITS_PER_MM);
        self.write_heading("Skills", offset_y, 14);
        let ghost headed = self.ops@;
        proof {
            reveal_strlit("Skills");
            lemma_extends_refl(headed);
        }
        self.emit(DrawOp::LineBreak);
        let n = self.resume.skills.len();
        let ghost q0 = self.ops@.len() as int;
        assert(self.resume.skills@.take(0) =~= Seq::<Skill>::empty());
        let mut k: usize = 0;
        while k < n
            invariant
                k <= n,
                n == self.resume.skills@.len(),
                self.same_setup(old(self)),
                extends(self.ops@, old(self).ops@),
                extends(self.ops@, opened),
                extends(self.ops@, headed),
                heading_at(headed, old(self).ops@.len() + 2int, "Skills"@, (DOC_HEIGHT - (start + 150 * UNITS_PER_MM)) as i64, 14),
                p == old(self).ops@.len(),
                forall|j: int| 0 <= j < k ==> shows(self.ops@, p, #[trigger] skill_line(self.resume.skills@[j]), Font::Bold),
                q0 == p + 10,
                self.ops@.len() == q0 + skills_len(self.resume.skills@.take(k as int)),
                forall|j: int| 0 <= j < k ==> #[trigger] skill_entry_nth(self.ops@, q0, self.resume.skills@, j),
            decreases n - k,
        {
            let ghost before = self.ops@;
            self.emit(DrawOp::SetFont(Font::Bold, 10));
            let name = concat("- ", self.resume.skills[k].name.as_str());
            self.emit(DrawOp::WriteText(name, Font::Bold));
            let ghost named = self.ops@;
            proof {
                let skills = self.resume.skills@;
                assert forall|j: int| 0 <= j < k + 1 implies shows(named, p, #[trigger] skill_line(skills[j]), Font::Bold) by {
                    if j < k {
                        lemma_extends_shows(named, before, p, skill_line(skills[j]), Font::Bold);
                    } else {
                        assert(writes(named[named.len() - 1], skill_line(skills[j]), Font::Bold));
                    }
                }
            }
            self.emit(DrawOp::LineBreak);
            self.emit(DrawOp::SetFont(Font::Thin, 10));
            let keywords = join(&self.resume.skills[k].keywords, "  -  ");
            let ghost thinned = self.ops@;
            self.write_bounded(keywords.as_str(), 36);
            proof {
                reveal_strlit("  -  ");
                let b = before.len() as int;
                lemma_extends_index(self.ops@, thinned, b);
                lemma_extends_index(self.ops@, thinned, b + 1);
                lemma_extends_index(self.ops@, thinned, b + 2);
                lemma_extends_index(self.ops@, thinned, b + 3);
                let skills = self.resume.skills@;
                assert(skills.take(k as int + 1).drop_last() == skills.take(k as int));
                assert(skills.take(k as int + 1).last() == skills[k as int]);
                assert(skill_entry_at(self.ops@, before.len() as int, skills[k as int]));
                assert forall|j: int| 0 <= j < k + 1 implies #[trigger] skill_entry_nth(self.ops@, q0, skills, j) by {
                    if j < k {
                        assert(skill_entry_nth(before, q0, skills, j));
                        lemma_skill_entry_extends(self.ops@, before, q0 + skills_len(skills.take(j)), skills[j]);
                    }
                }
                assert forall|j: int| 0 <= j < k + 1 implies shows(self.ops@, p, #[trigger] skill_line(skills[j]), Font::Bold) by {
                    lemma_extends_shows(self.ops@, named, p, skill_line(skills[j]), Font::Bold);
                }
            }
            k = k + 1;
        }
        let ghost listed = self.ops@;
        self.emit(DrawOp::EndText);
        proof {
            lemma_heading_extends(self.ops@, headed, old(self).ops@.len() + 2int, "Skills"@, (DOC_HEIGHT - (start + 150 * UNITS_PER_MM)) as i64, 14);
        }
        proof {
            lemma_extends_index(self.ops@, opened, p);
            lemma_extends_index(self.ops@, opened, p + 1);
            let skills = self.resume.skills@;
            assert(skills.take(n as int) == skills);
            assert forall|j: int| 0 <= j < skills.len() implies #[trigger] skill_entry_nth(self.ops@, q0, skills, j) by {
                assert(skill_entry_nth(listed, q0, skills, j));
                lemma_skill_entry_extends(self.ops@, listed, q0 + skills_len(skills.take(j)), skills[j]);
            }
            assert forall|j: int| 0 <= j < skills.len() implies shows(self.ops@, p, #[trigger] skill_line(skills[j]), Font::Bold) by {
                lemma_extends_shows(self.ops@, listed, p, skill_line(skills[j]), Font::Bold);
            }
        }
    }


    /// Draws one event in its slot: the marker on the spine, then the
    /// institution and its location (left out where the event continues
    /// the institution above), the label and the dates, and beside them
    /// the summary and the highlights.
    fn write_event(&mut self, i: usize, event: &Event, continuation: bool, offset_x: i64, top_y: i64, height: i64)
        requires
            0 <= offset_x <= DOC_WIDTH,
            0 <= top_y <= DOC_HEIGHT,
            0 <= height,
            i * height <= top_y,
            dates_ok(event@),
        ensures
            extends(final(self).ops@, old(self).ops@),
            final(self).ops@[old(self).ops@.len() as int] == DrawOp::SetOutlineColor(old(self).primary_color),
            final(self).ops@.subrange(
                old(self).ops@.len() + 1int,
                old(self).ops@.len() + 1int + marker(
                    event.event_type,
                    continuation,
                    Point { x: (offset_x + UNITS_PER_PT) as i64, y: (top_y - i * height) as i64 },
                    old(self).primary_color,
                    old(self).secondary_color,
                ).len(),
            ) == marker(
                event.event_type,
                continuation,
                Point { x: (offset_x + UNITS_PER_PT) as i64, y: (top_y - i * height) as i64 },
                old(self).primary_color,
                old(self).secondary_color,
            ),
            event_text_shown(
                final(self).ops@,
                old(self).ops@.len() + 1int + marker(
                    event.event_type,
                    continuation,
                    Point { x: (offset_x + UNITS_PER_PT) as i64, y: (top_y - i * height) as i64 },
                    old(self).primary_color,
                    old(self).secondary_color,
                ).len(),
                event@,
                continuation,
                Point { x: EVENT_TEXT_X, y: (top_y - i * height - 20 * UNITS_PER_PT) as i64 },
                (offset_x + 7 * UNITS_PER_MM) as i64,
            ),
            final(self).ops@.len() == old(self).ops@.len() + 1 + marker_len(event.event_type, continuation)
                + event_text_len(event@, continuation),
            final(self).same_setup(old(self)),
    {
        let drop: u64 = i as u64 * height as u64;
        let pos_y = top_y - drop as i64;
        let center = Point { x: offset_x + UNITS_PER_PT, y: pos_y };
        self.draw_marker(event.event_type, continuation, center);
        let ghost marked = self.ops@;
        self.write_event_text(event, continuation, offset_x, pos_y);
        proof {
            let start = old(self).ops@;
            let m = marker(event.event_type, continuation, center, self.primary_color, self.secondary_color);
            assert(self.ops@.subrange(0, marked.len() as int) == marked);
            assert(self.ops@[start.len() as int] == marked[start.len() as int]);
            assert(self.ops@.subrange(start.len() + 1int, start.len() + 1int + m.len()) =~= marked.subrange(start.len() + 1int, start.len() + 1int + m.len()));
        }
    }

    /// Draws the marker of an event on the spine, outlined in the accent
    /// color.
    fn draw_marker(&mut self, kind: EventType, continuation: bool, center: Point)
        ensures
            final(self).ops@ == old(self).ops@.push(DrawOp::SetOutlineColor(old(self).primary_color)) + marker(
                kind,
                continuation,
                center,
                old(self).primary_color,
                old(self).secondary_color,
            ),
            extends(final(self).ops@, old(self).ops@),
            final(self).same_setup(old(self)),
    {
        let primary = self.primary_color;
        let secondary = self.secondary_color;
        self.emit(DrawOp::SetOutlineColor(primary));
        if continuation {
            self.emit(DrawOp::SetFillColor(primary));
            self.emit(DrawOp::Circle(DOT_RADIUS, center));
        } else {
            match kind {
                EventType::Work => {
                    self.emit(DrawOp::SetFillColor(secondary));
                    self.emit(DrawOp::Circle(RADIUS, center));
                    self.emit(DrawOp::SetFillColor(primary));
                    self.emit(DrawOp::Circle(INNER_RADIUS, center));
                },
                EventType::Education => {
                    self.emit(DrawOp::SetFillColor(primary));
                    self.emit(DrawOp::Circle(RADIUS, center));
                },
            }
        }
        assert(self.ops@ =~= old(self).ops@.push(DrawOp::SetOutlineColor(primary)) + marker(
            kind,
            continuation,
            center,
            primary,
            secondary,
        ));
    }

    /// Writes the texts of an event whose marker stands at height `pos_y`.
    fn write_event_text(&mut self, event: &Event, continuation: bool, offset_x: i64, pos_y: i64)
        requires
            0 <= offset_x <= DOC_WIDTH,
            -DOC_HEIGHT <= pos_y <= DOC_HEIGHT,
            dates_ok(event@),
        ensures
            extends(final(self).ops@, old(self).ops@),
            final(self).ops@.len() == old(self).ops@.len() + event_text_len(event@, continuation),
            event_text_shown(
                final(self).ops@,
                old(self).ops@.len() as int,
                event@,
                continuation,
                Point { x: EVENT_TEXT_X, y: (pos_y - 20 * UNITS_PER_PT) as i64 },
                (offset_x + 7 * UNITS_PER_MM) as i64,
            ),
            final(self).same_setup(old(self)),
    {
        let ghost p = self.ops@.len() as int;
        self.write_event_heading(event, continuation, pos_y);
        let ghost heading = self.ops@;
        self.write_event_details(event, offset_x, pos_y);
        proof {
            let e = event@;
            let il = institution_lines(e).len();
            lemma_extends_index(self.ops@, heading, p);
            lemma_extends_index(self.ops@, heading, p + 1);
            lemma_extends_index(self.ops@, heading, p + 2);
            lemma_extends_index(self.ops@, heading, p + 3);
            if !continuation {
                lemma_extends_lines(self.ops@, heading, p + 4, institution_lines(e), Font::Regular);
                lemma_extends_index(self.ops@, heading, p + 4 + 2 * il);
                if has_location(e) {
                    lemma_extends_lines(self.ops@, heading, p + 5 + 2 * il, location_lines(e), Font::Regular);
                }
            }
        }
    }

    /// Opens the text block of an event at its height in bold and, unless
    /// the event continues the institution above, writes the institution and
    /// its location.
    fn write_event_heading(&mut self, event: &Event, continuation: bool, pos_y: i64)
        requires
            -DOC_HEIGHT <= pos_y <= DOC_HEIGHT,
        ensures
            extends(final(self).ops@, old(self).ops@),
            final(self).ops@.len() == old(self).ops@.len() + heading_len(event@, continuation),
            final(self).ops@[old(self).ops@.len() as int] == DrawOp::BeginText,
            final(self).ops@[old(self).ops@.len() + 1int] == DrawOp::SetFont(Font::Bold, 12),
            final(self).ops@[old(self).ops@.len() + 2int] == DrawOp::SetLineHeight(12),
            final(self).ops@[old(self).ops@.len() + 3int] == DrawOp::SetTextCursor(
                Point { x: EVENT_TEXT_X, y: (pos_y - 20 * UNITS_PER_PT) as i64 },
            ),
            !continuation ==> lines_at(
                final(self).ops@,
                old(self).ops@.len() + 4int,
                institution_lines(event@),
                Font::Regular,
            ),
            !continuation ==> final(self).ops@[old(self).ops@.len() + 4 + 2 * (institution_lines(event@).len() as int)]
                == DrawOp::SetFont(Font::Regular, 9),
            !continuation && has_location(event@) ==> lines_at(
                final(self).ops@,
                old(self).ops@.len() + 5 + 2 * (institution_lines(event@).len() as int),
                location_lines(event@),
                Font::Regular,
            ),
            final(self).same_setup(old(self)),
    {
        let ghost p = self.ops@.len() as int;
        self.emit(DrawOp::BeginText);
        self.emit(DrawOp::SetFont(Font::Bold, 12));
        self.emit(DrawOp::SetLineHeight(12));
        self.emit(DrawOp::SetTextCursor(Point { x: EVENT_TEXT_X, y: pos_y - 20 * UNITS_PER_PT }));
        let ghost header = self.ops@;
        proof {
            lemma_extends_refl(header);
        }
        if !continuation {
            let ghost il = institution_lines(event@).len();
            match split_once(event.institution.as_str(), ',') {
                None => {
                    proof {
                        lemma_before_first(event.institution@, seq![], ',');
                    }
                    self.write_bounded(event.institution.as_str(), 30);
                    let ghost named = self.ops@;
                    self.emit(DrawOp::SetFont(Font::Regular, 9));
                    proof {
                        lemma_extends_lines(self.ops@, named, p + 4, institution_lines(event@), Font::Regular);
                    }
                },
                Some((institution, location)) => {
                    proof {
                        lemma_before_first(institution@, location@, ',');
                    }
                    self.write_bounded(institution.as_str(), 30);
                    let ghost named = self.ops@;
                    self.emit(DrawOp::SetFont(Font::Regular, 9));
                    let ghost fonted = self.ops@;
                    proof {
                        lemma_extends_refl(fonted);
                    }
                    if !location.as_str().is_empty() {
                        let trimmed = trim(location.as_str());
                        self.write_bounded(trimmed.as_str(), 30);
                    }
                    proof {
                        lemma_extends_lines(self.ops@, named, p + 4, institution_lines(event@), Font::Regular);
                        lemma_extends_index(self.ops@, fonted, p + 4 + 2 * il);
                    }
                },
            }
        }
        proof {
            lemma_extends_index(self.ops@, header, p);
            lemma_extends_index(self.ops@, header, p + 1);
            lemma_extends_index(self.ops@, header, p + 2);
            lemma_extends_index(self.ops@, header, p + 3);
        }
    }

    /// Writes the label, the dates and, beside them, the summary and the
    /// highlights of an event, and closes its text blocks.
    fn write_event_details(&mut self, event: &Event, offset_x: i64, pos_y: i64)
        requires
            0 <= offset_x <= DOC_WIDTH,
            -DOC_HEIGHT <= pos_y <= DOC_HEIGHT,
            dates_ok(event@),
        ensures
            extends(final(self).ops@, old(self).ops@),
            final(self).ops@.len() == old(self).ops@.len() + 4 + 2 * (label_lines(event@).len() as int) + right_len(event@),
            final(self).ops@[old(self).ops@.len() as int] == DrawOp::SetFont(Font::Regular, 9),
            lines_at(final(self).ops@, old(self).ops@.len() + 1int, label_lines(event@), Font::Regular),
            final(self).ops@[old(self).ops@.len() + 1 + 2 * (label_lines(event@).len() as int)] == DrawOp::SetFont(Font::Thin, 9),
            writes(
                final(self).ops@[old(self).ops@.len() + 2 + 2 * (label_lines(event@).len() as int)],
                dates_line(event@),
                Font::Regular,
            ),
            final(self).ops@[old(self).ops@.len() + 3 + 2 * (label_lines(event@).len() as int)] == DrawOp::EndText,
            right_block_at(
                final(self).ops@,
                old(self).ops@.len() + 4 + 2 * (label_lines(event@).len() as int),
                event@,
                Point { x: (offset_x + 7 * UNITS_PER_MM) as i64, y: (pos_y - 20 * UNITS_PER_PT) as i64 },
            ),
            final(self).same_setup(old(self)),
    {
        proof {
            reveal_strlit("%b %Y");
            reveal_strlit(" - ");
            reveal_strlit("Today");
            reveal_strlit("  -  ");
        }
        let ghost p = self.ops@.len() as int;
        let end_date = match event.end_date {
            Some(d) => format_date(d, "%b %Y"),
            None => "Today".to_owned(),
        };
        self.emit(DrawOp::SetFont(Font::Regular, 9));
        self.write_bounded(event.label.as_str(), 30);
        let ghost labelled = self.ops@;
        self.emit(DrawOp::SetFont(Font::Thin, 9));
        let mut dates = format_date(event.start_date, "%b %Y");
        push_text(&mut dates, " - ");
        push_text(&mut dates, end_date.as_str());
        assert(dates@ == dates_line(event@));
        self.emit(DrawOp::WriteText(dates, Font::Regular));
        self.emit(DrawOp::EndText);
        let ghost closed = self.ops@;
        self.write_event_right_block(event, offset_x, pos_y);
        proof {
            let d = p + 1 + 2 * (label_lines(event@).len() as int);
            lemma_extends_index(self.ops@, closed, d);
            lemma_extends_index(self.ops@, closed, d + 1);
            lemma_extends_index(self.ops@, closed, d + 2);
            lemma_extends_index(self.ops@, labelled, p);
            lemma_extends_lines(self.ops@, labelled, p + 1, label_lines(event@), Font::Regular);
        }
    }

    /// Writes the right-hand block of an event: its summary and, after a
    /// line break, its highlights, in a text section of their own.
    fn write_event_right_block(&mut self, event: &Event, offset_x: i64, pos_y: i64)
        requires
            0 <= offset_x <= DOC_WIDTH,
            -DOC_HEIGHT <= pos_y <= DOC_HEIGHT,
        ensures
            extends(final(self).ops@, old(self).ops@),
            final(self).ops@.len() == old(self).ops@.len() + right_len(event@),
            right_block_at(
                final(self).ops@,
                old(self).ops@.len() as int,
                event@,
                Point { x: (offset_x + 7 * UNITS_PER_MM) as i64, y: (pos_y - 20 * UNITS_PER_PT) as i64 },
            ),
            final(self).same_setup(old(self)),
    {
        proof {
            reveal_strlit("  -  ");
        }
        let ghost r = self.ops@.len() as int;
        self.emit(DrawOp::BeginText);
        self.emit(DrawOp::SetTextCursor(Point { x: offset_x + 7 * UNITS_PER_MM, y: pos_y - 20 * UNITS_PER_PT }));
        self.emit(DrawOp::SetFont(Font::Regular, 9));
        let ghost opened = self.ops@;
        proof {
            lemma_extends_refl(opened);
        }
        if let Some(summary) = &event.summary {
            self.write_bounded(summary.as_str(), 36);
        }
        let ghost summarized = self.ops@;
        let ghost h = r + 3 + 2 * (summary_lines(event@).len() as int);
        assert(summarized.len() == h);
        assert(lines_at(summarized, r + 3, summary_lines(event@), Font::Regular));
        proof {
            lemma_extends_refl(summarized);
        }
        if event.highlights.len() > 0 {
            self.emit(DrawOp::LineBreak);
            self.emit(DrawOp::SetFont(Font::Bold, 9));
            let highlights = join(&event.highlights, "  -  ");
            let ghost placed = self.ops@;
            self.write_bounded(highlights.as_str(), 35);
            proof {
                assert(lines_at(self.ops@, h + 2, highlight_lines(event@), Font::Regular));
                lemma_extends_index(self.ops@, placed, h);
                lemma_extends_index(self.ops@, placed, h + 1);
            }
        }
        let ghost highlighted = self.ops@;
        self.emit(DrawOp::EndText);
        proof {
            let cursor = Point { x: (offset_x + 7 * UNITS_PER_MM) as i64, y: (pos_y - 20 * UNITS_PER_PT) as i64 };
            lemma_extends_index(highlighted, opened, r);
            lemma_extends_index(highlighted, opened, r + 1);
            lemma_extends_index(highlighted, opened, r + 2);
            lemma_extends_lines(highlighted, summarized, r + 3, summary_lines(event@), Font::Regular);
            if event@.highlights.len() > 0 {
                lemma_extends_lines(self.ops@, highlighted, h + 2, highlight_lines(event@), Font::Regular);
            }
            assert(right_block_at(self.ops@, r, event@, cursor));
        }
    }

    /// Draws the timeline: work and education as events, most recent
    /// first, one equal slot each along a spine in the accent color.
    fn write_timeline(&mut self)
        requires
            old(self).resume.wf(),
        ensures
            extends(final(self).ops@, old(self).ops@),
            timeline_size(old(self).resume) == 0 ==> final(self).ops@ == old(self).ops@,
            timeline_size(old(self).resume) > 0 ==> spine_drawn(
                final(self).ops@,
                old(self).ops@.len() as int,
                timeline_size(old(self).resume),
                old(self).primary_color,
            ),
            timeline_drawn(
                final(self).ops@,
                old(self).ops@.len() + 2int,
                old(self).resume,
                old(self).primary_color,
                old(self).secondary_color,
            ),
            final(self).ops@.len() == old(self).ops@.len() + timeline_total(old(self).resume),
            final(self).same_setup(old(self)),
    {
        proof {
            reveal_strlit(" in ");
        }
        let mut timeline = Timeline::new();
        let mut k: usize = 0;
        while k < self.resume.work.len()
            invariant
                k <= self.resume.work@.len(),
                self.resume.wf(),
                timeline@.len() == k,
                timeline@ == self.resume.work@.take(k as int).map_values(|w: Work| work_event(w)),
                forall|j: int| 0 <= j < timeline@.len() ==> dates_ok(#[trigger] timeline@[j]),
            decreases self.resume.work@.len() - k,
        {
            assert(self.resume.work@[k as int].wf());
            let event = Event::from_work(self.resume.work[k].duplicate());
            assert(event@ == work_event(self.resume.work@[k as int]));
            timeline.add(event);
            assert(self.resume.work@.take(k as int + 1).map_values(|w: Work| work_event(w)) =~= self.resume.work@.take(
                k as int,
            ).map_values(|w: Work| work_event(w)).push(work_event(self.resume.work@[k as int])));
            k = k + 1;
        }
        assert(self.resume.work@.take(self.resume.work@.len() as int) == self.resume.work@);
        assert(self.resume.education@.take(0) =~= Seq::<Education>::empty());
        assert(timeline@ =~= self.resume.work@.map_values(|w: Work| work_event(w)) + self.resume.education@.take(
            0,
        ).map_values(|e: Education| education_event(e)));
        let mut k: usize = 0;
        while k < self.resume.education.len()
            invariant
                k <= self.resume.education@.len(),
                self.resume.wf(),
                timeline@.len() == self.resume.work@.len() + k,
                timeline@ == self.resume.work@.map_values(|w: Work| work_event(w)) + self.resume.education@.take(
                    k as int,
                ).map_values(|e: Education| education_event(e)),
                forall|j: int| 0 <= j < timeline@.len() ==> dates_ok(#[trigger] timeline@[j]),
            decreases self.resume.education@.len() - k,
        {
            assert(self.resume.education@[k as int].wf());
            let event = Event::from_education(self.resume.education[k].duplicate());
            assert(event@ == education_event(self.resume.education@[k as int]));
            timeline.add(event);
            assert(self.resume.work@.map_values(|w: Work| work_event(w)) + self.resume.education@.take(k as int + 1).map_values(
                |e: Education| education_event(e),
            ) =~= (self.resume.work@.map_values(|w: Work| work_event(w)) + self.resume.education@.take(
                k as int,
            ).map_values(|e: Education| education_event(e))).push(education_event(self.resume.education@[k as int])));
            k = k + 1;
        }
        assert(self.resume.work@.take(self.resume.work@.len() as int) == self.resume.work@);
        assert(self.resume.education@.take(self.resume.education@.len() as int) == self.resume.education@);
        assert(timeline@ == listed_events(self.resume));
        let events = timeline.events();
        let n = events.len();
        if n == 0 {
            proof {
                reveal(timeline_drawn);
                lemma_extends_refl(self.ops@);
            }
            return;
        }
        let (event_height, line_height) = spine(TIMELINE_TOP, n);
        let points = rectangle_points(TIMELINE_X, TIMELINE_TOP - line_height, 2 * UNITS_PER_PT, line_height);
        let primary = self.primary_color;
        let ghost p = self.ops@.len() as int;
        self.emit(DrawOp::SetFillColor(primary));
        self.emit(DrawOp::Polygon(points));
        let ghost spined = self.ops@;
        proof {
            lemma_extends_refl(spined);
        }
        let flags = continuation_flags(&events);
        let mut i: usize = 0;
        while i < n
            invariant
                i <= n,
                n == events@.len(),
                n == flags@.len(),
                0 < n,
                event_height == slot_height(TIMELINE_TOP as int, n as int),
                forall|j: int| 0 <= j < n ==> dates_ok(#[trigger] event_views(events@)[j]),
                self.same_setup(old(self)),
                extends(self.ops@, old(self).ops@),
                extends(self.ops@, spined),
                p == old(self).ops@.len(),
                event_views(events@) == in_timeline_order(listed_events(old(self).resume)),
                forall|j: int| 0 <= j < n ==> flags@[j] == continues(event_views(events@), j),
                self.ops@.len() == p + 2 + events_len(event_views(events@), i as int),
                forall|j: int|
                    0 <= j < i ==> #[trigger] event_drawn_nth(
                        self.ops@,
                        p + 2,
                        event_views(events@),
                        j,
                        old(self).primary_color,
                        old(self).secondary_color,
                    ),
            decreases n - i,
        {
            let ghost before = self.ops@;
            assert(0 <= i as int * (TIMELINE_TOP as int / n as int) <= TIMELINE_TOP as int) by (nonlinear_arith)
                requires
                    i < n,
                    0 < n,
                    TIMELINE_TOP >= 0,
            ;
            assert(dates_ok(event_views(events@)[i as int]));
            self.write_event(i, &events[i], flags[i], TIMELINE_X, TIMELINE_TOP, event_height);
            proof {
                let evs = event_views(events@);
                let (pr, se) = (old(self).primary_color, old(self).secondary_color);
                assert(evs[i as int] == events@[i as int]@);
                assert(event_drawn(self.ops@, before.len() as int, evs, i as int, pr, se));
                assert(events_len(evs, i + 1) == events_len(evs, i as int) + event_len(evs, i as int));
                assert forall|j: int| 0 <= j < i + 1 implies #[trigger] event_drawn_nth(self.ops@, p + 2, evs, j, pr, se) by {
                    if j < i {
                        assert(event_drawn_nth(before, p + 2, evs, j, pr, se));
                        lemma_event_drawn_extends(self.ops@, before, p + 2 + events_len(evs, j), evs, j, pr, se);
                    }
                }
            }
            i = i + 1;
        }
        proof {
            reveal(timeline_drawn);
            lemma_extends_index(self.ops@, spined, p);
            lemma_extends_index(self.ops@, spined, p + 1);
        }
    }

    /// Composes the whole page in drawing order: background, picture, QR
    /// code, name, contact block, social profiles, languages, skills and
    /// timeline. `picture_loaded` says whether the profile picture could be
    /// read; without it the sidebar starts higher. Fails where the website
    /// does not fit a QR code or a network has no icon.
    #[verifier::rlimit(100)]
    pub fn compose(self, picture_loaded: bool) -> (r: Result<Vec<DrawOp>, LayoutError>)
        requires
            self.wf(),
        ensures
            r is Ok <==> website_encodable(self.resume) && all_networks_known(self.resume),
            r matches Err(LayoutError::QrCode) ==> !website_encodable(self.resume),
            r matches Err(LayoutError::UnknownIcon(e)) ==> website_encodable(self.resume)
                && !all_networks_known(self.resume) && glyph_of(e.font()@) is None,
            r matches Ok(ops) ==> extends(ops@, self.ops@) && background_first(ops@, self.ops@.len() as int, self.primary_color),
            r matches Ok(ops) ==> (self.resume.basics.picture is Some && picture_loaded ==> ops@[self.ops@.len() + 2int]
                == DrawOp::Picture(Point { x: 0, y: PROFILE_Y }, PROFILE_SIZE)),
            r matches Ok(ops) ==> blocks_in_order(
                ops@,
                self.ops@.len() + 1int,
                self.resume,
                self.secondary_color,
                self.primary_color,
                self.font_awesome.regular,
            ),
            r matches Ok(ops) ==> sidebar_shown(ops@, self.ops@.len() as int, self.resume),
            r matches Ok(ops) ==> (self.resume.basics.website matches Some(url) ==> qr_after(
                ops@,
                self.ops@.len() as int,
                url@,
                rgb_of(self.primary_color),
            )),
            r matches Ok(ops) ==> (timeline_size(self.resume) > 0 ==> spine_drawn_after(
                ops@,
                self.ops@.len() as int,
                timeline_size(self.resume),
                self.primary_color,
            )),
    {
        let ghost first = self.ops@;
        let ghost input = (self.resume, self.primary_color, self.secondary_color);
        let mut pdf = self;
        pdf.draw_left_background();
        let ghost s1 = pdf.ops@;
        assert(s1.len() > first.len());
        let start = pdf.add_profile_picture(picture_loaded);
        proof {
            lemma_extends_refl(s1);
            if pdf.ops@ != s1 {
                lemma_extends_push(s1, s1, DrawOp::Picture(Point { x: 0, y: PROFILE_Y }, PROFILE_SIZE));
            }
        }
        let ghost s2 = pdf.ops@;
        assert(extends(s2, s1));
        pdf.social_qr_code()?;
        let ghost s3 = pdf.ops@;
        pdf.write_bio(start);
        let ghost s4 = pdf.ops@;
        pdf.write_info(start);
        let ghost s5 = pdf.ops@;
        match pdf.write_social(start) {
            Ok(()) => {},
            Err(e) => {
                return Err(LayoutError::UnknownIcon(e));
            },
        }
        let ghost s6 = pdf.ops@;
        pdf.write_languages(start);
        let ghost s7 = pdf.ops@;
        pdf.write_skills(start);
        let ghost s8 = pdf.ops@;
        pdf.write_timeline();
        proof {
            let fin = pdf.ops@;
            let p = first.len() as int;
            let (resume, primary, secondary) = input;
            let font = pdf.font_awesome.regular;
            assert(pdf.resume == resume && pdf.primary_color == primary && pdf.secondary_color == secondary);
            lemma_extends_trans(fin, s8, s7);
            lemma_extends_trans(fin, s7, s6);
            lemma_extends_trans(fin, s6, s5);
            lemma_extends_trans(fin, s5, s4);
            lemma_extends_trans(fin, s4, s3);
            lemma_extends_trans(fin, s3, s2);
            lemma_extends_trans(fin, s2, s1);
            lemma_extends_trans(fin, s1, first);
            // Background first, then the picture where one was placed.
            lemma_extends_index(fin, s1, p);
            lemma_extends_index(fin, s1, p + 1);
            if resume.basics.picture is Some && picture_loaded {
                lemma_extends_index(fin, s2, p + 2);
            }
            // The blocks of the sidebar and the timeline, in drawing order.
            let (b, i, so, l, k, t) = (s3.len() as int, s4.len() as int, s5.len() as int, s6.len() as int, s7.len() as int, s8.len() as int);
            lemma_extends_index(fin, s4, b);
            lemma_extends_index(fin, s4, b + 2);
            lemma_extends_index(fin, s5, i);
            lemma_extends_index(fin, s6, so);
            lemma_extends_index(fin, s6, so + 1);
            lemma_socials_listed_extends(fin, s6, so + 9, resume.basics.profiles@, secondary, font);
            lemma_languages_len_nonneg(resume.languages@);
            lemma_skills_len_nonneg(resume.skills@);
            lemma_extends_index(fin, s7, l);
            lemma_languages_listed_extends(fin, s7, l + 9, resume.languages@, language_width(resume.languages@));
            lemma_extends_index(fin, s8, k);
            lemma_skills_listed_extends(fin, s8, k + 10, resume.skills@);
            // The QR code right after them.
            if resume.basics.website is Some {
                let url = resume.basics.website->0@;
                lemma_extends_index(fin, s3, s2.len() as int);
                assert(qr_at(fin, s2.len() as int, url, rgb_of(primary)));
                assert(qr_after(fin, p, url, rgb_of(primary)));
            }
            assert(blocks_at(fin, resume, secondary, primary, font, b, i, so, l, k, t));
            assert(blocks_in_order(fin, p + 1, resume, secondary, primary, font));
            // What each block shows.
            lemma_shows_earlier(s5, s4.len() as int, p, "   "@ + resume.basics.email@, Font::Regular);
            lemma_extends_shows(fin, s5, p, "   "@ + resume.basics.email@, Font::Regular);
            assert forall|j: int| 0 <= j < resume.basics.profiles@.len() implies shows(
                fin,
                p,
                #[trigger] username_line(resume.basics.profiles@[j]),
                Font::Regular,
            ) by {
                lemma_shows_earlier(s6, s5.len() as int, p, username_line(resume.basics.profiles@[j]), Font::Regular);
                lemma_extends_shows(fin, s6, p, username_line(resume.basics.profiles@[j]), Font::Regular);
            }
            assert forall|j: int| 0 <= j < resume.languages@.len() implies shows(
                fin,
                p,
                #[trigger] language_line(resume.languages@[j], language_width(resume.languages@)),
                Font::Bold,
            ) by {
                let line = language_line(resume.languages@[j], language_width(resume.languages@));
                lemma_shows_earlier(s7, s6.len() as int, p, line, Font::Bold);
                lemma_extends_shows(fin, s7, p, line, Font::Bold);
            }
            assert forall|j: int| 0 <= j < resume.skills@.len() implies shows(
                fin,
                p,
                #[trigger] skill_line(resume.skills@[j]),
                Font::Bold,
            ) by {
                lemma_shows_earlier(s8, s7.len() as int, p, skill_line(resume.skills@[j]), Font::Bold);
                lemma_extends_shows(fin, s8, p, skill_line(resume.skills@[j]), Font::Bold);
            }
            if timeline_size(resume) > 0 {
                assert(spine_drawn(fin, t, timeline_size(resume), primary));
                assert(spine_drawn_after(fin, p, timeline_size(resume), primary));
            }
        }
        Ok(pdf.ops)
    }
}

} // verus!
