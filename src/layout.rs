//! Page geometry and the shape of what the layout engine draws: fixed
//! measures, timeline slots and markers, and the predicates the drawing
//! contracts are stated with.
use crate::color::{rgb_of, byte_of, Cmyk, Color, Rgb};
use crate::date::{age, format_date, age_of_weeks, date_text_of, weeks_between_of, Date};
use crate::draw::{
    extends, lemma_extends_index, lemma_extends_lines, lemma_extends_shows,
    lines_at, rectangle, shows, writes, DrawOp, Font, Point,
    UNITS_PER_HUNDREDTH_MM, UNITS_PER_MM, UNITS_PER_PT, UNITS_PER_TENTH_MM,
};
use crate::icons::{glyph_of, social_color_of};
use crate::image::{grey_to_rgb_spec, qr_luma_of, recolored};
use crate::resume::{Education, Language, Location, Profile, Resume, Skill, Work};
use vstd::utf8::encode_utf8;
use crate::timeline::{event_views, in_timeline_order, Event, EventType, EventView};
use crate::text::{concat, decimal, push_text, 
    after_first, before_first, decimal_of, joined, lower_of, padded, trimmed_of, views, wrapped_of,
};
use vstd::prelude::*;

verus! {

pub const DOC_WIDTH: i64 = 210 * UNITS_PER_MM;

pub const DOC_HEIGHT: i64 = 297 * UNITS_PER_MM;

/// Side of the square profile picture: 74.5 mm.
pub const PROFILE_SIZE: i64 = 745 * UNITS_PER_TENTH_MM;

pub const PROFILE_X_OFFSET: i64 = 5 * UNITS_PER_MM;

pub const PROFILE_Y_OFFSET: i64 = PROFILE_SIZE;

/// Height of the bottom edge of the profile picture.
pub const PROFILE_Y: i64 = DOC_HEIGHT - PROFILE_Y_OFFSET;

/// Radius of a timeline marker.
pub const RADIUS: i64 = 5 * UNITS_PER_PT;

/// Radius of the inner disk of a work marker.
pub const INNER_RADIUS: i64 = UNITS_PER_PT;

/// Radius of the dot that marks an event continuing the institution above.
pub const DOT_RADIUS: i64 = 3 * UNITS_PER_PT;

pub const LEFT_COLUMN_SIZE: i64 = PROFILE_SIZE;

/// Where the sidebar text starts below a profile picture: 74.5 mm.
pub const RIGHT_COLUMN_HEIGHT: i64 = 745 * UNITS_PER_TENTH_MM;

/// Where the sidebar text starts when no picture is drawn.
pub const DEFAULT_START: i64 = 15 * UNITS_PER_MM;

/// Side of the QR code, in pixels.
pub const QR_SIZE: usize = 150;

/// The accent color: CMYK (0.78, 0.62, 0.66, 0.71).
pub open spec fn primary_spec() -> Color {
    Color::Cmyk(Cmyk { c: 7800, m: 6200, y: 6600, k: 7100 })
}

/// The neutral color: white.
pub open spec fn secondary_spec() -> Color {
    Color::Rgb(Rgb { r: 10000, g: 10000, b: 10000 })
}

/// `ops` is `prefix` followed by each line of `lines` in the regular font,
/// each followed by a line break.
pub open spec fn bounded_written(ops: Seq<DrawOp>, prefix: Seq<DrawOp>, lines: Seq<Seq<char>>) -> bool {
    &&& ops.len() == prefix.len() + 2 * lines.len()
    &&& extends(ops, prefix)
    &&& lines_at(ops, prefix.len() as int, lines, Font::Regular)
}

/// The texts of an event, from position `p` on, and nothing else: the left
/// block opens in bold at `cursor` with the institution (its text before
/// the first comma), then its location where it has one, unless the event
/// continues the institution above; then the label in the regular font and
/// the dates in the thin font close it. The right block at `right_x` holds
/// the summary and the highlights.
pub open spec fn event_text_shown(
    ops: Seq<DrawOp>,
    p: int,
    event: EventView,
    continuation: bool,
    cursor: Point,
    right_x: i64,
) -> bool {
    let q = p + heading_len(event, continuation);
    let d = q + 1 + 2 * (label_lines(event).len() as int);
    let il = institution_lines(event).len();
    &&& 0 <= p
    &&& p + event_text_len(event, continuation) <= ops.len()
    &&& ops[p] == DrawOp::BeginText
    &&& ops[p + 1] == DrawOp::SetFont(Font::Bold, 12)
    &&& ops[p + 2] == DrawOp::SetLineHeight(12)
    &&& ops[p + 3] == DrawOp::SetTextCursor(cursor)
    &&& !continuation ==> lines_at(ops, p + 4, institution_lines(event), Font::Regular) && ops[p + 4 + 2 * il]
        == DrawOp::SetFont(Font::Regular, 9) && (has_location(event) ==> lines_at(
        ops,
        p + 5 + 2 * il,
        location_lines(event),
        Font::Regular,
    ))
    &&& ops[q] == DrawOp::SetFont(Font::Regular, 9)
    &&& lines_at(ops, q + 1, label_lines(event), Font::Regular)
    &&& ops[d] == DrawOp::SetFont(Font::Thin, 9)
    &&& writes(ops[d + 1], dates_line(event), Font::Regular)
    &&& ops[d + 2] == DrawOp::EndText
    &&& right_block_at(ops, d + 3, event, Point { x: right_x, y: cursor.y })
}

/// The institution lines of an event: its text before the first comma,
/// wrapped to 30 columns.
pub open spec fn institution_lines(event: EventView) -> Seq<Seq<char>> {
    wrapped_of(before_first(event.institution, ','), 30)
}

/// The label lines of an event, wrapped to 30 columns.
pub open spec fn label_lines(event: EventView) -> Seq<Seq<char>> {
    wrapped_of(event.label, 30)
}

/// The institution names a location after its first comma.
pub open spec fn has_location(event: EventView) -> bool {
    after_first(event.institution, ',').len() > 0
}

/// Drawing steps of the left block before the label.
pub open spec fn heading_len(event: EventView, continuation: bool) -> int {
    if continuation {
        4
    } else {
        5 + 2 * (institution_lines(event).len() as int) + if has_location(event) {
            2 * (location_lines(event).len() as int)
        } else {
            0
        }
    }
}

/// Drawing steps of the right block, its closing `EndText` included.
pub open spec fn right_len(event: EventView) -> int {
    4 + 2 * (summary_lines(event).len() as int) + if event.highlights.len() > 0 {
        2 + 2 * (highlight_lines(event).len() as int)
    } else {
        0
    }
}

/// Drawing steps of all the texts of an event.
pub open spec fn event_text_len(event: EventView, continuation: bool) -> int {
    heading_len(event, continuation) + 4 + 2 * (label_lines(event).len() as int) + right_len(event)
}

/// The summary lines of an event: its summary wrapped to 36 columns, none
/// where it has no summary.
pub open spec fn summary_lines(event: EventView) -> Seq<Seq<char>> {
    match event.summary {
        Some(summary) => wrapped_of(summary, 36),
        None => seq![],
    }
}

/// The highlight lines of an event: its highlights joined by dashes,
/// wrapped to 35 columns.
pub open spec fn highlight_lines(event: EventView) -> Seq<Seq<char>> {
    wrapped_of(joined(event.highlights, "  -  "@), 35)
}

/// At position `r`, `ops` holds the right-hand block of an event: a text
/// section at `cursor` in the regular font with the summary lines, then,
/// where the event has highlights, a line break and the highlight lines
/// after switching to bold.
pub open spec fn right_block_at(ops: Seq<DrawOp>, r: int, event: EventView, cursor: Point) -> bool {
    let h = r + 3 + 2 * (summary_lines(event).len() as int);
    &&& 0 <= r
    &&& h <= ops.len()
    &&& ops[r] == DrawOp::BeginText
    &&& ops[r + 1] == DrawOp::SetTextCursor(cursor)
    &&& ops[r + 2] == DrawOp::SetFont(Font::Regular, 9)
    &&& lines_at(ops, r + 3, summary_lines(event), Font::Regular)
    &&& event.highlights.len() > 0 ==> h + 2 <= ops.len() && ops[h] == DrawOp::LineBreak && ops[h + 1]
        == DrawOp::SetFont(Font::Bold, 9) && lines_at(ops, h + 2, highlight_lines(event), Font::Regular)
    &&& r + right_len(event) <= ops.len()
    &&& ops[r + right_len(event) - 1] == DrawOp::EndText
}

pub proof fn lemma_right_block_extends(ops: Seq<DrawOp>, prefix: Seq<DrawOp>, r: int, event: EventView, cursor: Point)
    requires
        extends(ops, prefix),
        right_block_at(prefix, r, event, cursor),
    ensures
        right_block_at(ops, r, event, cursor),
{
    let h = r + 3 + 2 * (summary_lines(event).len() as int);
    lemma_extends_index(ops, prefix, r);
    lemma_extends_index(ops, prefix, r + 1);
    lemma_extends_index(ops, prefix, r + 2);
    lemma_extends_lines(ops, prefix, r + 3, summary_lines(event), Font::Regular);
    if event.highlights.len() > 0 {
        lemma_extends_index(ops, prefix, h);
        lemma_extends_index(ops, prefix, h + 1);
        lemma_extends_lines(ops, prefix, h + 2, highlight_lines(event), Font::Regular);
    }
    lemma_extends_index(ops, prefix, r + right_len(event) - 1);
}

/// The location lines of an event: the text after the first comma of its
/// institution, trimmed and wrapped to 30 columns.
pub open spec fn location_lines(event: EventView) -> Seq<Seq<char>> {
    wrapped_of(trimmed_of(after_first(event.institution, ',')), 30)
}

/// The dates of an event: month and year of its start, then of its end, or
/// "Today" for an ongoing event.
pub open spec fn dates_line(event: EventView) -> Seq<char> {
    month_year(event.start_date) + " - "@ + match event.end_date {
        Some(d) => month_year(d),
        None => "Today"@,
    }
}

pub open spec fn month_year(d: Date) -> Seq<char> {
    date_text_of(d.year as int, d.month as int, d.day as int, "%b %Y"@)
}

/// The résumé names no website, or a non-empty one that qrcode_generator
/// can encode in a QR code of the page's size.
pub open spec fn website_encodable(resume: Resume) -> bool {
    resume.basics.website matches Some(url) ==> url@.len() > 0 && qr_luma_of(url@, QR_SIZE as nat) is Some
}

/// At position `q`, `ops` draws the QR code of `url`, its black modules in
/// `color`.
pub open spec fn qr_at(ops: Seq<DrawOp>, q: int, url: Seq<char>, color: Rgb) -> bool {
    &&& 0 <= q < ops.len()
    &&& ops[q] matches DrawOp::Image(v, side) && side == QR_SIZE && recolored(
        grey_to_rgb_spec(qr_luma_of(url, QR_SIZE as nat)->0),
        v@,
        (byte_of(color.r), byte_of(color.g), byte_of(color.b)),
    )
}

/// Somewhere from position `p` on, `ops` draws the QR code of `url` in
/// `color`.
pub open spec fn qr_after(ops: Seq<DrawOp>, p: int, url: Seq<char>, color: Rgb) -> bool {
    exists|q: int| p <= q && #[trigger] qr_at(ops, q, url, color)
}

/// `ops` is `prefix` followed by the QR code of `url`, its black modules
/// in `color`.
pub open spec fn qr_drawn(ops: Seq<DrawOp>, prefix: Seq<DrawOp>, url: Seq<char>, color: Rgb) -> bool {
    &&& ops.len() == prefix.len() + 1
    &&& extends(ops, prefix)
    &&& ops.last() matches DrawOp::Image(v, side) && side == QR_SIZE && recolored(
        grey_to_rgb_spec(qr_luma_of(url, QR_SIZE as nat)->0),
        v@,
        (byte_of(color.r), byte_of(color.g), byte_of(color.b)),
    )
}

/// The icon font covers the network of the profile, in lower case.
pub open spec fn network_known(profile: Profile) -> bool {
    glyph_of(lower_of(profile.network@)) is Some
}

/// Left edge of an event's institution, label and dates.
pub const EVENT_TEXT_X: i64 = LEFT_COLUMN_SIZE + 5 * UNITS_PER_MM;

/// Height of the area the timeline spans: the page less 20 points.
pub const TIMELINE_TOP: i64 = DOC_HEIGHT - 20 * UNITS_PER_PT;

/// Horizontal position of the timeline's spine: the middle of the right
/// column, whose width is 210 - 74.5 = 135.5 mm.
pub const TIMELINE_X: i64 = LEFT_COLUMN_SIZE + 6775 * UNITS_PER_HUNDREDTH_MM;

/// Height of one event's slot: the timeline's height shared equally among
/// `n` events.
pub open spec fn slot_height(top: int, n: int) -> int {
    top / n
}

/// Length of the spine: from the first slot to the last.
pub open spec fn spine_length(top: int, n: int) -> int {
    (n - 1) * slot_height(top, n)
}

/// Height of the marker of event `i`, counted from the top.
pub open spec fn slot_y(top: int, n: int, i: int) -> int {
    top - i * slot_height(top, n)
}

/// Slot height and spine length for `n` events below `top`.
pub fn spine(top: i64, n: usize) -> (r: (i64, i64))
    requires
        0 < n,
        0 <= top,
    ensures
        r.0 == slot_height(top as int, n as int),
        r.1 == spine_length(top as int, n as int),
        0 <= r.1 <= top,
{
    let height: u64 = top as u64 / n as u64;
    assert((n as int - 1) * (top as int / n as int) <= top as int) by (nonlinear_arith)
        requires
            0 < n,
            0 <= top,
    ;
    assert(0 <= (n as int - 1) * (top as int / n as int)) by (nonlinear_arith)
        requires
            0 < n,
            0 <= top,
    ;
    let length: u64 = (n as u64 - 1) * height;
    (height as i64, length as i64)
}

/// Every event gets a slot of its own: the spine is `n - 1` slots long and
/// ends at the last slot, and the slots descend strictly with the index
/// wherever the timeline is at least `n` units high.
pub proof fn lemma_slot_allocation(top: int, n: int, i: int, j: int)
    requires
        0 < n <= top,
        0 <= i < j < n,
    ensures
        spine_length(top, n) == (n - 1) * slot_height(top, n),
        slot_y(top, n, n - 1) == top - spine_length(top, n),
        slot_y(top, n, i) > slot_y(top, n, j),
{
    assert(slot_height(top, n) >= 1) by (nonlinear_arith)
        requires
            0 < n <= top,
    ;
    assert(i * slot_height(top, n) < j * slot_height(top, n)) by (nonlinear_arith)
        requires
            i < j,
            slot_height(top, n) >= 1,
    ;
}

/// From position `p` on, `ops` fills the left column in `color`, under
/// everything drawn after it.
pub open spec fn background_first(ops: Seq<DrawOp>, p: int, color: Color) -> bool {
    &&& p + 2 <= ops.len()
    &&& ops[p] == DrawOp::SetFillColor(color)
    &&& ops[p + 1] matches DrawOp::Polygon(points) && points@ == rectangle(
        0,
        0,
        LEFT_COLUMN_SIZE as int,
        DOC_HEIGHT as int,
    )
}

/// The length of a text in bytes, as `str::len` gives it.
pub open spec fn byte_len(s: Seq<char>) -> nat {
    (encode_utf8(s).len() as usize) as nat
}

/// The most bytes any of the language names takes in UTF-8.
pub open spec fn widest_name(langs: Seq<Language>) -> nat
    decreases langs.len(),
{
    if langs.len() == 0 {
        0
    } else {
        let last = byte_len(langs.last().language@);
        let rest = widest_name(langs.drop_last());
        if last > rest {
            last
        } else {
            rest
        }
    }
}

/// The width language names are padded to: four more than the widest.
pub open spec fn language_width(langs: Seq<Language>) -> int {
    if widest_name(langs) + 4 > usize::MAX {
        usize::MAX as int
    } else {
        widest_name(langs) + 4int
    }
}

/// The line of a spoken language: its name after a dash, padded to
/// `width` characters.
pub open spec fn language_line(language: Language, width: int) -> Seq<char> {
    "- "@ + padded(language.language@, width as nat)
}

/// How many drawing steps the entry of a language takes: a line break, the
/// font and the name, then the font and the fluency where there is one.
pub open spec fn language_entry_len(l: Language) -> int {
    if l.fluency is Some {
        5
    } else {
        3
    }
}

/// How many drawing steps the entries of `langs` take together.
pub open spec fn languages_len(langs: Seq<Language>) -> int
    decreases langs.len(),
{
    if langs.len() == 0 {
        0
    } else {
        languages_len(langs.drop_last()) + language_entry_len(langs.last())
    }
}

/// At position `q`, `ops` holds the entry of language `l`: a line break,
/// the bold name line, then the fluency in the thin font where there is one.
pub open spec fn language_entry_at(ops: Seq<DrawOp>, q: int, l: Language, width: int) -> bool {
    &&& 0 <= q
    &&& q + language_entry_len(l) <= ops.len()
    &&& ops[q] == DrawOp::LineBreak
    &&& ops[q + 1] == DrawOp::SetFont(Font::Bold, 10)
    &&& writes(ops[q + 2], language_line(l, width), Font::Bold)
    &&& l.fluency matches Some(f) ==> ops[q + 3] == DrawOp::SetFont(Font::Thin, 10) && writes(
        ops[q + 4],
        f@,
        Font::Thin,
    )
}

/// The entries of the first `j` languages end no later than those of the
/// first `k`, `j + 1 <= k`, and start no earlier than 0.
pub proof fn lemma_take_len_monotone(langs: Seq<Language>, j: int, k: int)
    requires
        0 <= j < k <= langs.len(),
    ensures
        0 <= languages_len(langs.take(j)),
        languages_len(langs.take(j)) + language_entry_len(langs[j]) <= languages_len(langs.take(k)),
    decreases k - j,
{
    lemma_languages_len_nonneg(langs.take(j));
    assert(langs.take(k).drop_last() == langs.take(k - 1));
    assert(langs.take(k).last() == langs[k - 1]);
    if j + 1 < k {
        lemma_take_len_monotone(langs, j, k - 1);
    } else {
        assert(langs.take(j + 1).drop_last() == langs.take(j));
    }
}

pub proof fn lemma_languages_len_nonneg(langs: Seq<Language>)
    ensures
        languages_len(langs) >= 0,
    decreases langs.len(),
{
    if langs.len() > 0 {
        lemma_languages_len_nonneg(langs.drop_last());
    }
}

/// Entry `j` of `langs` stands where the entries before it end.
pub open spec fn language_entry_nth(ops: Seq<DrawOp>, q: int, langs: Seq<Language>, j: int, width: int) -> bool {
    language_entry_at(ops, q + languages_len(langs.take(j)), langs[j], width)
}

/// From position `q` on, `ops` holds the entries of `langs` one after the
/// other, in their order.
#[verifier::opaque]
pub open spec fn languages_listed(ops: Seq<DrawOp>, q: int, langs: Seq<Language>, width: int) -> bool {
    forall|j: int| 0 <= j < langs.len() ==> #[trigger] language_entry_nth(ops, q, langs, j, width)
}

/// The heading of a skill: its name after a dash.
pub open spec fn skill_line(skill: Skill) -> Seq<char> {
    "- "@ + skill.name@
}

/// The keyword lines of a skill: its keywords joined by dashes, wrapped to
/// 36 columns.
pub open spec fn keyword_lines(skill: Skill) -> Seq<Seq<char>> {
    wrapped_of(joined(views(skill.keywords@), "  -  "@), 36)
}

/// How many drawing steps the entry of a skill takes.
pub open spec fn skill_entry_len(skill: Skill) -> int {
    4 + 2 * keyword_lines(skill).len() as int
}

/// How many drawing steps the entries of `skills` take together.
pub open spec fn skills_len(skills: Seq<Skill>) -> int
    decreases skills.len(),
{
    if skills.len() == 0 {
        0
    } else {
        skills_len(skills.drop_last()) + skill_entry_len(skills.last())
    }
}

pub proof fn lemma_skills_len_nonneg(skills: Seq<Skill>)
    ensures
        skills_len(skills) >= 0,
    decreases skills.len(),
{
    if skills.len() > 0 {
        lemma_skills_len_nonneg(skills.drop_last());
    }
}

/// At position `q`, `ops` holds the entry of `skill`: its name in bold, a
/// line break, then its keyword lines after switching to the thin font.
pub open spec fn skill_entry_at(ops: Seq<DrawOp>, q: int, skill: Skill) -> bool {
    &&& 0 <= q
    &&& q + skill_entry_len(skill) <= ops.len()
    &&& ops[q] == DrawOp::SetFont(Font::Bold, 10)
    &&& writes(ops[q + 1], skill_line(skill), Font::Bold)
    &&& ops[q + 2] == DrawOp::LineBreak
    &&& ops[q + 3] == DrawOp::SetFont(Font::Thin, 10)
    &&& lines_at(ops, q + 4, keyword_lines(skill), Font::Regular)
}

/// Entry `j` of `skills` stands where the entries before it end.
pub open spec fn skill_entry_nth(ops: Seq<DrawOp>, q: int, skills: Seq<Skill>, j: int) -> bool {
    skill_entry_at(ops, q + skills_len(skills.take(j)), skills[j])
}

/// From position `q` on, `ops` holds the entries of `skills` one after the
/// other, in their order.
#[verifier::opaque]
pub open spec fn skills_listed(ops: Seq<DrawOp>, q: int, skills: Seq<Skill>) -> bool {
    forall|j: int| 0 <= j < skills.len() ==> #[trigger] skill_entry_nth(ops, q, skills, j)
}

pub proof fn lemma_skill_entry_extends(ops: Seq<DrawOp>, prefix: Seq<DrawOp>, q: int, skill: Skill)
    requires
        extends(ops, prefix),
        skill_entry_at(prefix, q, skill),
    ensures
        skill_entry_at(ops, q, skill),
{
    lemma_extends_index(ops, prefix, q);
    lemma_extends_index(ops, prefix, q + 1);
    lemma_extends_index(ops, prefix, q + 2);
    lemma_extends_index(ops, prefix, q + 3);
    lemma_extends_lines(ops, prefix, q + 4, keyword_lines(skill), Font::Regular);
}

/// At position `q`, `ops` holds the entry of a social profile: a line
/// break, the icon of its network (in lower case) in the network's color,
/// then the fill color and font put back and the user name.
pub open spec fn social_entry_at(ops: Seq<DrawOp>, q: int, profile: Profile, secondary: Color, icon_font: Font) -> bool {
    let name = lower_of(profile.network@);
    &&& 0 <= q
    &&& q + 7 <= ops.len()
    &&& ops[q] == DrawOp::LineBreak
    &&& ops[q + 1] == DrawOp::SetFillColor(social_color_of(name, secondary))
    &&& ops[q + 2] == DrawOp::SetFont(icon_font, 12)
    &&& writes(ops[q + 3], seq![glyph_of(name)->0], icon_font)
    &&& ops[q + 4] == DrawOp::SetFillColor(secondary)
    &&& ops[q + 5] == DrawOp::SetFont(Font::Regular, 10)
    &&& writes(ops[q + 6], username_line(profile), Font::Regular)
}

/// Entry `j` of `profiles`, seven steps after entry `j - 1`.
pub open spec fn social_entry_nth(
    ops: Seq<DrawOp>,
    q: int,
    profiles: Seq<Profile>,
    j: int,
    secondary: Color,
    icon_font: Font,
) -> bool {
    social_entry_at(ops, q + 7 * j, profiles[j], secondary, icon_font)
}

/// From position `q` on, `ops` holds the entries of `profiles` one after
/// the other, in their order.
#[verifier::opaque]
pub open spec fn socials_listed(ops: Seq<DrawOp>, q: int, profiles: Seq<Profile>, secondary: Color, icon_font: Font) -> bool {
    forall|j: int| 0 <= j < profiles.len() ==> #[trigger] social_entry_nth(ops, q, profiles, j, secondary, icon_font)
}

pub proof fn lemma_social_entry_extends(
    ops: Seq<DrawOp>,
    prefix: Seq<DrawOp>,
    q: int,
    profile: Profile,
    secondary: Color,
    icon_font: Font,
)
    requires
        extends(ops, prefix),
        social_entry_at(prefix, q, profile, secondary, icon_font),
    ensures
        social_entry_at(ops, q, profile, secondary, icon_font),
{
    lemma_extends_index(ops, prefix, q);
    lemma_extends_index(ops, prefix, q + 1);
    lemma_extends_index(ops, prefix, q + 2);
    lemma_extends_index(ops, prefix, q + 3);
    lemma_extends_index(ops, prefix, q + 4);
    lemma_extends_index(ops, prefix, q + 5);
    lemma_extends_index(ops, prefix, q + 6);
}

pub proof fn lemma_languages_listed_extends(ops: Seq<DrawOp>, prefix: Seq<DrawOp>, q: int, langs: Seq<Language>, width: int)
    requires
        extends(ops, prefix),
        languages_listed(prefix, q, langs, width),
    ensures
        languages_listed(ops, q, langs, width),
{
    reveal(languages_listed);
    assert forall|j: int| 0 <= j < langs.len() implies #[trigger] language_entry_nth(ops, q, langs, j, width) by {
        assert(language_entry_nth(prefix, q, langs, j, width));
        let at = q + languages_len(langs.take(j));
        lemma_extends_index(ops, prefix, at);
        lemma_extends_index(ops, prefix, at + 1);
        lemma_extends_index(ops, prefix, at + 2);
        if langs[j].fluency is Some {
            lemma_extends_index(ops, prefix, at + 3);
            lemma_extends_index(ops, prefix, at + 4);
        }
    }
}

pub proof fn lemma_skills_listed_extends(ops: Seq<DrawOp>, prefix: Seq<DrawOp>, q: int, skills: Seq<Skill>)
    requires
        extends(ops, prefix),
        skills_listed(prefix, q, skills),
    ensures
        skills_listed(ops, q, skills),
{
    reveal(skills_listed);
    assert forall|j: int| 0 <= j < skills.len() implies #[trigger] skill_entry_nth(ops, q, skills, j) by {
        assert(skill_entry_nth(prefix, q, skills, j));
        lemma_skill_entry_extends(ops, prefix, q + skills_len(skills.take(j)), skills[j]);
    }
}

pub proof fn lemma_socials_listed_extends(
    ops: Seq<DrawOp>,
    prefix: Seq<DrawOp>,
    q: int,
    profiles: Seq<Profile>,
    secondary: Color,
    icon_font: Font,
)
    requires
        extends(ops, prefix),
        socials_listed(prefix, q, profiles, secondary, icon_font),
    ensures
        socials_listed(ops, q, profiles, secondary, icon_font),
{
    reveal(socials_listed);
    assert forall|j: int| 0 <= j < profiles.len() implies #[trigger] social_entry_nth(ops, q, profiles, j, secondary, icon_font) by {
        assert(social_entry_nth(prefix, q, profiles, j, secondary, icon_font));
        lemma_social_entry_extends(ops, prefix, q + 7 * j, profiles[j], secondary, icon_font);
    }
}

/// The blocks of the page stand in `ops` from the given positions on, in
/// drawing order: the name block at `bio`, the contact block at `info`, the
/// social profiles at `social`, the languages at `langs`, the skills at
/// `skills` and the timeline's spine at `spine`, followed by the events and
/// nothing else, each entry of the lists in place; the QR code of the
/// website comes just before the name block.
pub open spec fn blocks_at(
    ops: Seq<DrawOp>,
    resume: Resume,
    secondary: Color,
    primary: Color,
    icon_font: Font,
    bio: int,
    info: int,
    social: int,
    langs: int,
    skills: int,
    spine: int,
) -> bool {
    &&& bio < info < social < langs < skills <= spine
    &&& 0 <= bio
    &&& skills + 10 <= ops.len()
    &&& ops[bio] == DrawOp::SetFillColor(secondary_spec())
    &&& ops[bio + 2] == DrawOp::SetFont(Font::Bold, 20)
    &&& ops[info] == DrawOp::SetFillColor(secondary)
    &&& ops[social] == DrawOp::BeginText
    &&& ops[social + 1] == DrawOp::SetFillColor(secondary)
    &&& socials_listed(ops, social + 9, resume.basics.profiles@, secondary, icon_font)
    &&& ops[langs] == DrawOp::BeginText
    &&& languages_listed(ops, langs + 9, resume.languages@, language_width(resume.languages@))
    &&& ops[skills] == DrawOp::BeginText
    &&& skills_listed(ops, skills + 10, resume.skills@)
    &&& timeline_size(resume) > 0 ==> spine_drawn(ops, spine, timeline_size(resume), primary)
    &&& timeline_drawn(ops, spine + 2, resume, primary, secondary)
    &&& ops.len() == spine + timeline_total(resume)
    &&& resume.basics.website matches Some(url) ==> qr_at(ops, bio - 1, url@, rgb_of(primary))
}

/// The blocks of the page follow one another in drawing order, all after
/// position `p`.
pub open spec fn blocks_in_order(
    ops: Seq<DrawOp>,
    p: int,
    resume: Resume,
    secondary: Color,
    primary: Color,
    icon_font: Font,
) -> bool {
    exists|bio: int, info: int, social: int, langs: int, skills: int, spine: int|
        p < bio && #[trigger] blocks_at(ops, resume, secondary, primary, icon_font, bio, info, social, langs, skills, spine)
}

/// At position `q`, `ops` holds one line of the contact block: a line
/// break where `broken`, the icon in the neutral color, then the text in
/// the regular font.
pub open spec fn contact_line_at(
    ops: Seq<DrawOp>,
    q: int,
    broken: bool,
    line: (Seq<char>, Seq<char>),
    secondary: Color,
    icon_font: Font,
) -> bool {
    let b = if broken {
        1int
    } else {
        0int
    };
    &&& 0 <= q
    &&& q + b + 5 <= ops.len()
    &&& broken ==> ops[q] == DrawOp::LineBreak
    &&& ops[q + b] == DrawOp::SetFillColor(secondary)
    &&& ops[q + b + 1] == DrawOp::SetFont(icon_font, 12)
    &&& writes(ops[q + b + 2], seq![glyph_of(line.0)->0], icon_font)
    &&& ops[q + b + 3] == DrawOp::SetFont(Font::Regular, 9)
    &&& writes(ops[q + b + 4], line.1, Font::Regular)
}

/// Line `k` of the contact block: the first at `q`, each further one six
/// steps after the one before.
pub open spec fn contact_line_nth(
    ops: Seq<DrawOp>,
    q: int,
    lines: Seq<(Seq<char>, Seq<char>)>,
    k: int,
    secondary: Color,
    icon_font: Font,
) -> bool {
    if k == 0 {
        contact_line_at(ops, q, false, lines[0], secondary, icon_font)
    } else {
        contact_line_at(ops, q + 6 * k - 1, true, lines[k], secondary, icon_font)
    }
}

/// From position `q` on, `ops` holds the lines of the contact block one
/// after the other, and nothing between them.
#[verifier::opaque]
pub open spec fn contact_block_at(
    ops: Seq<DrawOp>,
    q: int,
    lines: Seq<(Seq<char>, Seq<char>)>,
    secondary: Color,
    icon_font: Font,
) -> bool {
    forall|k: int| 0 <= k < lines.len() ==> #[trigger] contact_line_nth(ops, q, lines, k, secondary, icon_font)
}

/// The lines of the contact block, as icon and text: the e-mail address
/// always, then the phone, the city and the birthday where the résumé gives
/// them; `today` is the day the age is counted to.
pub open spec fn contact_lines(resume: Resume, today: Option<Date>) -> Seq<(Seq<char>, Seq<char>)> {
    let basics = resume.basics;
    seq![("envelope"@, "   "@ + basics.email@)] + match basics.phone {
        Some(phone) => seq![("phone"@, "   "@ + phone@)],
        None => seq![],
    } + match basics.location {
        Some(l) => if l.city is Some {
            seq![("map-marker"@, city_line(l))]
        } else {
            seq![]
        },
        None => seq![],
    } + match basics.birthday {
        Some(b) => seq![("cake"@, birthday_line(b, today))],
        None => seq![],
    }
}

pub proof fn lemma_contact_block_extends(
    ops: Seq<DrawOp>,
    prefix: Seq<DrawOp>,
    q: int,
    lines: Seq<(Seq<char>, Seq<char>)>,
    secondary: Color,
    icon_font: Font,
)
    requires
        extends(ops, prefix),
        lines.len() >= 1,
        prefix.len() == q + 6 * lines.len() - 1,
        contact_block_at(prefix, q, lines, secondary, icon_font),
    ensures
        contact_block_at(ops, q, lines, secondary, icon_font),
{
    reveal(contact_block_at);
    assert forall|k: int| 0 <= k < lines.len() implies #[trigger] contact_line_nth(ops, q, lines, k, secondary, icon_font) by {
        assert(contact_line_nth(prefix, q, lines, k, secondary, icon_font));
        let at = if k == 0 {
            q
        } else {
            q + 6 * k - 1
        };
        let b = if k == 0 {
            0int
        } else {
            1int
        };
        if k > 0 {
            lemma_extends_index(ops, prefix, at);
        }
        lemma_extends_index(ops, prefix, at + b);
        lemma_extends_index(ops, prefix, at + b + 1);
        lemma_extends_index(ops, prefix, at + b + 2);
        lemma_extends_index(ops, prefix, at + b + 3);
        lemma_extends_index(ops, prefix, at + b + 4);
    }
}

pub proof fn lemma_contact_block_push(
    ops: Seq<DrawOp>,
    prefix: Seq<DrawOp>,
    q: int,
    lines: Seq<(Seq<char>, Seq<char>)>,
    line: (Seq<char>, Seq<char>),
    secondary: Color,
    icon_font: Font,
)
    requires
        extends(ops, prefix),
        lines.len() >= 1,
        prefix.len() == q + 6 * lines.len() - 1,
        contact_block_at(prefix, q, lines, secondary, icon_font),
        contact_line_at(ops, prefix.len() as int, true, line, secondary, icon_font),
    ensures
        contact_block_at(ops, q, lines.push(line), secondary, icon_font),
{
    reveal(contact_block_at);
    lemma_contact_block_extends(ops, prefix, q, lines, secondary, icon_font);
    let all = lines.push(line);
    assert forall|k: int| 0 <= k < all.len() implies #[trigger] contact_line_nth(ops, q, all, k, secondary, icon_font) by {
        if k < lines.len() {
            assert(contact_line_nth(ops, q, lines, k, secondary, icon_font));
        }
    }
}

/// The contact block of `resume` stands from position `q` on, `today`
/// being the day the age is counted to, and ends the text section.
pub open spec fn contact_block_done(
    ops: Seq<DrawOp>,
    q: int,
    resume: Resume,
    today: Option<Date>,
    secondary: Color,
    icon_font: Font,
) -> bool {
    &&& contact_block_at(ops, q, contact_lines(resume, today), secondary, icon_font)
    &&& ops.len() == q + 6 * contact_lines(resume, today).len()
    &&& ops.last() == DrawOp::EndText
}

/// At position `q`, `ops` holds the heading of a sidebar block: line height
/// 18, `text` in bold 12 at (`PROFILE_X_OFFSET`, `y`), the bar under it, a
/// line break, then line height `line_height`.
pub open spec fn heading_at(ops: Seq<DrawOp>, q: int, text: Seq<char>, y: i64, line_height: i64) -> bool {
    &&& 0 <= q
    &&& q + 7 <= ops.len()
    &&& ops[q] == DrawOp::SetLineHeight(18)
    &&& ops[q + 1] == DrawOp::SetFont(Font::Bold, 12)
    &&& ops[q + 2] == DrawOp::SetTextCursor(Point { x: PROFILE_X_OFFSET, y })
    &&& writes(ops[q + 3], text, Font::Bold)
    &&& ops[q + 4] matches DrawOp::Polygon(points) && points@ == rectangle(
        PROFILE_X_OFFSET as int,
        y - 14 * UNITS_PER_PT,
        RIGHT_COLUMN_HEIGHT - 2 * PROFILE_X_OFFSET,
        2 * UNITS_PER_PT as int,
    )
    &&& ops[q + 5] == DrawOp::LineBreak
    &&& ops[q + 6] == DrawOp::SetLineHeight(line_height)
}

pub proof fn lemma_heading_extends(ops: Seq<DrawOp>, prefix: Seq<DrawOp>, q: int, text: Seq<char>, y: i64, line_height: i64)
    requires
        extends(ops, prefix),
        heading_at(prefix, q, text, y, line_height),
    ensures
        heading_at(ops, q, text, y, line_height),
{
    lemma_extends_index(ops, prefix, q);
    lemma_extends_index(ops, prefix, q + 1);
    lemma_extends_index(ops, prefix, q + 2);
    lemma_extends_index(ops, prefix, q + 3);
    lemma_extends_index(ops, prefix, q + 4);
    lemma_extends_index(ops, prefix, q + 5);
    lemma_extends_index(ops, prefix, q + 6);
}

/// The line of a social profile: its user name.
pub open spec fn username_line(profile: Profile) -> Seq<char> {
    "   "@ + profile.username@
}

/// The city line of the contact block: the city, then a comma and the
/// country code where there is one.
pub open spec fn city_line(l: Location) -> Seq<char> {
    "   "@ + l.city->0@ + match l.country_code {
        Some(c) => ", "@ + c@,
        None => Seq::<char>::empty(),
    }
}

/// The birthday line of the contact block: day, month and year, then the
/// age in years on `today` where today's date is known.
pub open spec fn birthday_line(b: Date, today: Option<Date>) -> Seq<char> {
    "    "@ + date_text_of(b.year as int, b.month as int, b.day as int, "%d %b %Y"@) + match today {
        Some(t) => " ("@ + decimal_of(
            age_of_weeks(
                weeks_between_of(
                    b.year as int,
                    b.month as int,
                    b.day as int,
                    t.year as int,
                    t.month as int,
                    t.day as int,
                ),
            ),
        ) + "yo)"@,
        None => Seq::<char>::empty(),
    }
}

/// The birthday line of the contact block, for a birthday and, where the
/// clock could be read, today's date.
pub fn birthday_text(birthday: Date, today: Option<Date>) -> (r: String)
    requires
        birthday.wf(),
        today matches Some(d) ==> d.wf(),
    ensures
        r@ == birthday_line(birthday, today),
{
    proof {
        reveal_strlit("    ");
        reveal_strlit(" (");
        reveal_strlit("yo)");
        reveal_strlit("%d %b %Y");
    }
    let mut text = concat("    ", format_date(birthday, "%d %b %Y").as_str());
    if let Some(t) = today {
        let years = age(birthday, t);
        push_text(&mut text, " (");
        push_text(&mut text, decimal(years).as_str());
        push_text(&mut text, "yo)");
    }
    text
}

/// The sidebar of `resume` stands in `ops` from position `p` on: the
/// e-mail address, every social profile, every spoken language and every
/// skill.
pub open spec fn sidebar_shown(ops: Seq<DrawOp>, p: int, resume: Resume) -> bool {
    &&& shows(ops, p, "   "@ + resume.basics.email@, Font::Regular)
    &&& forall|j: int|
        0 <= j < resume.basics.profiles@.len() ==> shows(ops, p, #[trigger] username_line(resume.basics.profiles@[j]), Font::Regular)
    &&& forall|j: int|
        0 <= j < resume.languages@.len() ==> shows(
            ops,
            p,
            #[trigger] language_line(resume.languages@[j], language_width(resume.languages@)),
            Font::Bold,
        )
    &&& forall|j: int| 0 <= j < resume.skills@.len() ==> shows(ops, p, #[trigger] skill_line(resume.skills@[j]), Font::Bold)
}

/// Somewhere from position `p` on, `ops` fills the spine of `n` events
/// in `color`.
pub open spec fn spine_drawn_after(ops: Seq<DrawOp>, p: int, n: int, color: Color) -> bool {
    exists|q: int| p <= q && #[trigger] spine_drawn(ops, q, n, color)
}

/// A work record as a timeline event.
pub open spec fn work_event(w: Work) -> EventView {
    EventView {
        event_type: EventType::Work,
        start_date: w.start_date,
        end_date: w.end_date,
        institution: w.company@,
        label: w.position@,
        summary: Some(w.summary@),
        highlights: views(w.highlights@),
    }
}

/// An education record as a timeline event.
pub open spec fn education_event(e: Education) -> EventView {
    EventView {
        event_type: EventType::Education,
        start_date: e.start_date,
        end_date: e.end_date,
        institution: e.institution@,
        label: e.study_type@ + " in "@ + e.area@,
        summary: None,
        highlights: views(e.courses@),
    }
}

/// The work and education records of a résumé, as events in the order
/// they are listed.
pub open spec fn listed_events(resume: Resume) -> Seq<EventView> {
    resume.work@.map_values(|w: Work| work_event(w)) + resume.education@.map_values(
        |e: Education| education_event(e),
    )
}

/// Event `i` of `events` is drawn from position `q` on: the marker of its
/// slot on the spine, outlined in the accent color, then its text block
/// level with it.
pub open spec fn event_drawn(
    ops: Seq<DrawOp>,
    q: int,
    events: Seq<EventView>,
    i: int,
    primary: Color,
    secondary: Color,
) -> bool {
    let y = slot_y(TIMELINE_TOP as int, events.len() as int, i);
    let m = marker(
        events[i].event_type,
        continues(events, i),
        Point { x: (TIMELINE_X + UNITS_PER_PT) as i64, y: y as i64 },
        primary,
        secondary,
    );
    &&& 0 <= q
    &&& q + 1 + m.len() <= ops.len()
    &&& ops[q] == DrawOp::SetOutlineColor(primary)
    &&& ops.subrange(q + 1, q + 1 + m.len()) == m
    &&& event_text_shown(
        ops,
        q + 1 + m.len(),
        events[i],
        continues(events, i),
        Point { x: EVENT_TEXT_X, y: (y - 20 * UNITS_PER_PT) as i64 },
        (TIMELINE_X + 7 * UNITS_PER_MM) as i64,
    )
}

/// Drawing steps of the marker of an event.
pub open spec fn marker_len(kind: EventType, continuation: bool) -> int {
    if continuation {
        2
    } else {
        match kind {
            EventType::Work => 4,
            EventType::Education => 2,
        }
    }
}

/// Drawing steps of event `i` of `events`: outline color, marker and texts.
pub open spec fn event_len(events: Seq<EventView>, i: int) -> int {
    1 + marker_len(events[i].event_type, continues(events, i)) + event_text_len(events[i], continues(events, i))
}

/// Drawing steps of the first `k` events of `events`.
pub open spec fn events_len(events: Seq<EventView>, k: int) -> int
    decreases k,
{
    if k <= 0 {
        0
    } else {
        events_len(events, k - 1) + event_len(events, k - 1)
    }
}

/// Event `i` of `events`, drawn where the events before it end.
pub open spec fn event_drawn_nth(
    ops: Seq<DrawOp>,
    p: int,
    events: Seq<EventView>,
    i: int,
    primary: Color,
    secondary: Color,
) -> bool {
    event_drawn(ops, p + events_len(events, i), events, i, primary, secondary)
}

/// Drawing steps of the whole timeline of a résumé: the spine and every
/// event, nothing where there is no event.
pub open spec fn timeline_total(resume: Resume) -> int {
    if timeline_size(resume) == 0 {
        0
    } else {
        2 + events_len(in_timeline_order(listed_events(resume)), timeline_size(resume))
    }
}

/// From position `p` on, the events of the résumé's timeline are drawn one
/// after the other, most recent first, each in its slot.
#[verifier::opaque]
pub open spec fn timeline_drawn(ops: Seq<DrawOp>, p: int, resume: Resume, primary: Color, secondary: Color) -> bool {
    forall|i: int|
        0 <= i < timeline_size(resume) ==> #[trigger] event_drawn_nth(
            ops,
            p,
            in_timeline_order(listed_events(resume)),
            i,
            primary,
            secondary,
        )
}

pub proof fn lemma_event_text_extends(
    ops: Seq<DrawOp>,
    prefix: Seq<DrawOp>,
    p: int,
    event: EventView,
    continuation: bool,
    cursor: Point,
    right_x: i64,
)
    requires
        extends(ops, prefix),
        event_text_shown(prefix, p, event, continuation, cursor, right_x),
    ensures
        event_text_shown(ops, p, event, continuation, cursor, right_x),
{
    let q = p + heading_len(event, continuation);
    let d = q + 1 + 2 * (label_lines(event).len() as int);
    let il = institution_lines(event).len();
    lemma_extends_index(ops, prefix, p);
    lemma_extends_index(ops, prefix, p + 1);
    lemma_extends_index(ops, prefix, p + 2);
    lemma_extends_index(ops, prefix, p + 3);
    if !continuation {
        lemma_extends_lines(ops, prefix, p + 4, institution_lines(event), Font::Regular);
        lemma_extends_index(ops, prefix, p + 4 + 2 * il);
        if has_location(event) {
            lemma_extends_lines(ops, prefix, p + 5 + 2 * il, location_lines(event), Font::Regular);
        }
    }
    lemma_extends_index(ops, prefix, q);
    lemma_extends_lines(ops, prefix, q + 1, label_lines(event), Font::Regular);
    lemma_extends_index(ops, prefix, d);
    lemma_extends_index(ops, prefix, d + 1);
    lemma_extends_index(ops, prefix, d + 2);
    lemma_right_block_extends(ops, prefix, d + 3, event, Point { x: right_x, y: cursor.y });
}

pub proof fn lemma_event_drawn_extends(
    ops: Seq<DrawOp>,
    prefix: Seq<DrawOp>,
    q: int,
    events: Seq<EventView>,
    i: int,
    primary: Color,
    secondary: Color,
)
    requires
        extends(ops, prefix),
        event_drawn(prefix, q, events, i, primary, secondary),
    ensures
        event_drawn(ops, q, events, i, primary, secondary),
{
    let y = slot_y(TIMELINE_TOP as int, events.len() as int, i);
    let m = marker(
        events[i].event_type,
        continues(events, i),
        Point { x: (TIMELINE_X + UNITS_PER_PT) as i64, y: y as i64 },
        primary,
        secondary,
    );
    lemma_extends_index(ops, prefix, q);
    assert forall|k: int| q + 1 <= k < q + 1 + m.len() implies ops[k] == prefix[k] by {
        lemma_extends_index(ops, prefix, k);
    }
    assert(ops.subrange(q + 1, q + 1 + m.len()) =~= prefix.subrange(q + 1, q + 1 + m.len()));
    lemma_event_text_extends(
        ops,
        prefix,
        q + 1 + m.len(),
        events[i],
        continues(events, i),
        Point { x: EVENT_TEXT_X, y: (y - 20 * UNITS_PER_PT) as i64 },
        (TIMELINE_X + 7 * UNITS_PER_MM) as i64,
    );
}

/// How many events the timeline of a résumé holds: its work and education
/// records.
pub open spec fn timeline_size(resume: Resume) -> int {
    resume.work@.len() + resume.education@.len() as int
}

/// From position `p` on, `ops` fills the spine of `n` events in `color`:
/// a bar two points wide from the first slot down to the last.
pub open spec fn spine_drawn(ops: Seq<DrawOp>, p: int, n: int, color: Color) -> bool {
    &&& p + 2 <= ops.len()
    &&& ops[p] == DrawOp::SetFillColor(color)
    &&& ops[p + 1] matches DrawOp::Polygon(points) && points@ == rectangle(
        TIMELINE_X as int,
        TIMELINE_TOP - spine_length(TIMELINE_TOP as int, n),
        2 * UNITS_PER_PT as int,
        spine_length(TIMELINE_TOP as int, n),
    )
}

/// Whether event `i` continues the institution of the event above it.
pub open spec fn continues(events: Seq<EventView>, i: int) -> bool {
    i > 0 && events[i].institution == events[i - 1].institution
}

/// For each event, whether it continues the institution of the one
/// above: the first never does, and a different institution ends a run.
pub fn continuation_flags(events: &Vec<Event>) -> (r: Vec<bool>)
    ensures
        r@.len() == events@.len(),
        forall|i: int| 0 <= i < r@.len() ==> r@[i] == continues(event_views(events@), i),
{
    let mut r: Vec<bool> = Vec::new();
    let mut i: usize = 0;
    while i < events.len()
        invariant
            i <= events.len(),
            r@.len() == i,
            forall|k: int| 0 <= k < i ==> r@[k] == continues(event_views(events@), k),
        decreases events.len() - i,
    {
        let same = i > 0 && events[i].institution == events[i - 1].institution;
        r.push(same);
        i = i + 1;
    }
    r
}

/// The marker of an event: a dot in the accent color where the event
/// continues the institution above; otherwise for work a neutral ring
/// around an accent disk, for education an accent disk.
pub open spec fn marker(
    kind: EventType,
    continuation: bool,
    center: Point,
    primary: Color,
    secondary: Color,
) -> Seq<DrawOp> {
    if continuation {
        seq![DrawOp::SetFillColor(primary), DrawOp::Circle(DOT_RADIUS, center)]
    } else {
        match kind {
            EventType::Work => seq![
                DrawOp::SetFillColor(secondary),
                DrawOp::Circle(RADIUS, center),
                DrawOp::SetFillColor(primary),
                DrawOp::Circle(INNER_RADIUS, center),
            ],
            EventType::Education => seq![DrawOp::SetFillColor(primary), DrawOp::Circle(RADIUS, center)],
        }
    }
}

/// The icon font covers the network of every profile.
pub open spec fn all_networks_known(resume: Resume) -> bool {
    forall|j: int| 0 <= j < resume.basics.profiles@.len() ==> #[trigger] network_known(resume.basics.profiles@[j])
}

} // verus!
