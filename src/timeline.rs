//! Work and education records as one timeline, most recent first.
use crate::date::Date;
use crate::resume::{Education, Work};
use crate::text::{copy_optional, copy_strings, push_text, views};
use vstd::prelude::*;
use vstd::seq_lib::*;

verus! {

#[derive(Debug, Clone, Copy, PartialEq, Eq, Structural)]
pub enum EventType {
    Work,
    Education,
}

#[derive(Debug, Clone)]
pub struct Event {
    pub event_type: EventType,
    pub start_date: Date,
    pub end_date: Option<Date>,
    pub institution: String,
    pub label: String,
    pub summary: Option<String>,
    pub highlights: Vec<String>,
}

/// What an event holds, with its texts as character sequences.
pub struct EventView {
    pub event_type: EventType,
    pub start_date: Date,
    pub end_date: Option<Date>,
    pub institution: Seq<char>,
    pub label: Seq<char>,
    pub summary: Option<Seq<char>>,
    pub highlights: Seq<Seq<char>>,
}

impl View for Event {
    type V = EventView;

    open spec fn view(&self) -> EventView {
        EventView {
            event_type: self.event_type,
            start_date: self.start_date,
            end_date: self.end_date,
            institution: self.institution@,
            label: self.label@,
            summary: match self.summary {
                Some(s) => Some(s@),
                None => None,
            },
            highlights: views(self.highlights@),
        }
    }
}

pub open spec fn event_views(s: Seq<Event>) -> Seq<EventView> {
    s.map_values(|e: Event| e@)
}

/// Whether `a` is listed before `b`: an ongoing event before a finished one,
/// two ongoing events by later start, two finished events by later end.
pub open spec fn goes_before(a: EventView, b: EventView) -> bool {
    match (a.end_date, b.end_date) {
        (None, None) => b.start_date.before(a.start_date),
        (None, Some(_)) => true,
        (Some(_), None) => false,
        (Some(x), Some(y)) => y.before(x),
    }
}

/// Both dates of the event are days of the calendar.
pub open spec fn dates_ok(e: EventView) -> bool {
    e.start_date.wf() && (e.end_date matches Some(d) ==> d.wf())
}

/// No event is listed after one that should come later.
pub open spec fn no_inversion(s: Seq<EventView>) -> bool {
    forall|i: int, j: int| 0 <= i < j < s.len() ==> !goes_before(#[trigger] s[j], #[trigger] s[i])
}

/// Most recent first: every ongoing event ahead of every finished one,
/// ongoing events by start date descending, finished ones by end date
/// descending.
pub open spec fn timeline_ordered(s: Seq<EventView>) -> bool {
    &&& forall|i: int, j: int|
        0 <= i < s.len() && 0 <= j < s.len() && (#[trigger] s[i]).end_date is None && (
        #[trigger] s[j]).end_date is Some ==> i < j
    &&& forall|i: int, j: int|
        0 <= i < j < s.len() && (#[trigger] s[i]).end_date is None && (#[trigger] s[j]).end_date is None
            ==> !s[i].start_date.before(s[j].start_date)
    &&& forall|i: int, j: int|
        0 <= i < j < s.len() && (#[trigger] s[i]).end_date is Some && (#[trigger] s[j]).end_date is Some
            ==> !s[i].end_date->0.before(s[j].end_date->0)
}

/// `s` with `e` placed after every event that `e` does not go before.
pub open spec fn insert_in_order(s: Seq<EventView>, e: EventView) -> Seq<EventView>
    decreases s.len(),
{
    if s.len() == 0 {
        seq![e]
    } else if goes_before(e, s[0]) {
        seq![e] + s
    } else {
        seq![s[0]] + insert_in_order(s.drop_first(), e)
    }
}

/// The events of `s` in timeline order, events that tie kept in the order
/// of `s`.
pub open spec fn in_timeline_order(s: Seq<EventView>) -> Seq<EventView>
    decreases s.len(),
{
    if s.len() == 0 {
        s
    } else {
        insert_in_order(in_timeline_order(s.drop_last()), s.last())
    }
}

proof fn lemma_insert_at_first(s: Seq<EventView>, e: EventView, p: int)
    requires
        0 <= p <= s.len(),
        forall|k: int| 0 <= k < p ==> !goes_before(e, #[trigger] s[k]),
        p == s.len() || goes_before(e, s[p]),
    ensures
        insert_in_order(s, e) == s.insert(p, e),
    decreases s.len(),
{
    if s.len() == 0 {
        assert(s.insert(0, e) =~= seq![e]);
    } else if p == 0 {
        assert(s.insert(0, e) =~= seq![e] + s);
    } else {
        assert(!goes_before(e, s[0]));
        lemma_insert_at_first(s.drop_first(), e, p - 1);
        assert(s.insert(p, e) =~= seq![s[0]] + s.drop_first().insert(p - 1, e));
    }
}

proof fn lemma_goes_before_transitive(a: EventView, b: EventView, c: EventView)
    requires
        goes_before(a, b),
        goes_before(b, c),
    ensures
        goes_before(a, c),
{
    match (a.end_date, b.end_date, c.end_date) {
        (None, None, None) => crate::date::lemma_before_transitive(c.start_date, b.start_date, a.start_date),
        (Some(x), Some(y), Some(z)) => crate::date::lemma_before_transitive(z, y, x),
        _ => {},
    }
}

proof fn lemma_no_inversion_ordered(s: Seq<EventView>)
    requires
        no_inversion(s),
    ensures
        timeline_ordered(s),
{
    assert forall|i: int, j: int|
        0 <= i < s.len() && 0 <= j < s.len() && (#[trigger] s[i]).end_date is None && (
        #[trigger] s[j]).end_date is Some implies i < j by {
        if j < i {
            assert(!goes_before(s[i], s[j]));
        }
    }
}

impl Event {
    /// A copy of the event, equal to it in every field.
    pub fn duplicate(&self) -> (r: Event)
        ensures
            r@ == self@,
    {
        Event {
            event_type: self.event_type,
            start_date: self.start_date,
            end_date: self.end_date,
            institution: self.institution.clone(),
            label: self.label.clone(),
            summary: copy_optional(&self.summary),
            highlights: copy_strings(&self.highlights),
        }
    }

    /// A work record as an event: the company as institution, the position
    /// as label, its summary and highlights.
    pub fn from_work(work: Work) -> (r: Event)
        ensures
            r.event_type == EventType::Work,
            r.start_date == work.start_date,
            r.end_date == work.end_date,
            r.institution@ == work.company@,
            r.label@ == work.position@,
            r.summary matches Some(s) && s@ == work.summary@,
            r.highlights@ == work.highlights@,
    {
        Event {
            event_type: EventType::Work,
            start_date: work.start_date,
            end_date: work.end_date,
            institution: work.company,
            label: work.position,
            summary: Some(work.summary),
            highlights: work.highlights,
        }
    }

    /// An education record as an event: the institution, "{study type} in
    /// {area}" as label, no summary, and the courses as highlights.
    pub fn from_education(education: Education) -> (r: Event)
        ensures
            r.event_type == EventType::Education,
            r.start_date == education.start_date,
            r.end_date == education.end_date,
            r.institution@ == education.institution@,
            r.label@ == education.study_type@ + " in "@ + education.area@,
            r.summary is None,
            r.highlights@ == education.courses@,
    {
        let mut label = education.study_type;
        push_text(&mut label, " in ");
        push_text(&mut label, education.area.as_str());
        proof {
            reveal_strlit(" in ");
        }
        Event {
            event_type: EventType::Education,
            start_date: education.start_date,
            end_date: education.end_date,
            institution: education.institution,
            label,
            summary: None,
            highlights: education.courses,
        }
    }
}

/// Whether `a` goes before `b` in the timeline.
fn precedes(a: &Event, b: &Event) -> (r: bool)
    ensures
        r == goes_before(a@, b@),
{
    match (a.end_date, b.end_date) {
        (None, None) => b.start_date.is_before(&a.start_date),
        (None, Some(_)) => true,
        (Some(_), None) => false,
        (Some(x), Some(y)) => y.is_before(&x),
    }
}

#[derive(Debug)]
pub struct Timeline {
    events: Vec<Event>,
}

impl View for Timeline {
    type V = Seq<EventView>;

    /// The events in the order they were added.
    closed spec fn view(&self) -> Seq<EventView> {
        event_views(self.events@)
    }
}

impl Timeline {
    pub fn new() -> (r: Timeline)
        ensures
            r@ == Seq::<EventView>::empty(),
    {
        Timeline { events: Vec::new() }
    }

    pub fn add(&mut self, event: Event)
        ensures
            final(self)@ == old(self)@.push(event@),
    {
        self.events.push(event);
        assert(event_views(self.events@) =~= event_views(old(self).events@).push(event@));
    }

    /// The events, most recent first: every ongoing event ahead of every
    /// finished one, ongoing events by start date descending, finished ones
    /// by end date descending, and events that tie in the order they were
    /// added.
    pub fn events(&self) -> (r: Vec<Event>)
        ensures
            event_views(r@) == in_timeline_order(self@),
            event_views(r@).to_multiset() == self@.to_multiset(),
            r@.len() == self@.len(),
            timeline_ordered(event_views(r@)),
            no_inversion(event_views(r@)),
            (forall|j: int| 0 <= j < self@.len() ==> dates_ok(#[trigger] self@[j])) ==> forall|i: int|
                0 <= i < r@.len() ==> dates_ok(#[trigger] event_views(r@)[i]),
    {
        broadcast use group_to_multiset_ensures, to_multiset_insert;

        let mut sorted: Vec<Event> = Vec::new();
        let mut i: usize = 0;
        while i < self.events.len()
            invariant
                i <= self.events.len(),
                event_views(sorted@).to_multiset() == event_views(self.events@.take(i as int)).to_multiset(),
                event_views(sorted@) == in_timeline_order(event_views(self.events@.take(i as int))),
                no_inversion(event_views(sorted@)),
            decreases self.events.len() - i,
        {
            let event = self.events[i].duplicate();
            // Insert after every event it does not go before, so that events
            // that tie stay in the order they were added.
            let mut p: usize = 0;
            while p < sorted.len() && !precedes(&event, &sorted[p])
                invariant
                    p <= sorted.len(),
                    forall|k: int| 0 <= k < p ==> !goes_before(event@, #[trigger] sorted@[k]@),
                decreases sorted.len() - p,
            {
                p = p + 1;
            }
            let ghost before = event_views(sorted@);
            let ghost ev = event@;
            sorted.insert(p, event);
            proof {
                assert(self.events@.take(i as int + 1) == self.events@.take(i as int).push(self.events@[i as int]));
                assert(event_views(self.events@.take(i as int + 1)) =~= event_views(self.events@.take(i as int)).push(ev));
                assert(event_views(sorted@) =~= before.insert(p as int, ev));
                lemma_insert_at_first(before, ev, p as int);
                let taken = event_views(self.events@.take(i as int + 1));
                assert(taken.drop_last() =~= event_views(self.events@.take(i as int)));
                assert(taken.last() == ev);
                to_multiset_insert(before, p as int, ev);
                let prev = event_views(self.events@.take(i as int));
                prev.to_multiset_ensures();
                assert(prev.push(ev).to_multiset() =~= prev.to_multiset().insert(ev));
                assert(event_views(sorted@).to_multiset() == prev.push(ev).to_multiset());
                let cur = event_views(sorted@);
                let event = ev;
                assert forall|a: int, b: int| 0 <= a < b < cur.len() implies !goes_before(
                    #[trigger] cur[b],
                    #[trigger] cur[a],
                ) by {
                    if a < p as int && b == p as int {
                    } else if a == p as int {
                        if goes_before(cur[b], event) {
                            lemma_goes_before_transitive(before[b - 1], event, before[p as int]);
                        }
                    } else if a < p as int && b > p as int {
                        assert(!goes_before(before[b - 1], before[a]));
                    } else if b < p as int {
                        assert(!goes_before(before[b], before[a]));
                    } else {
                        assert(!goes_before(before[b - 1], before[a - 1]));
                    }
                }
            }
            i = i + 1;
        }
        proof {
            assert(self.events@.take(self.events.len() as int) == self.events@);
            assert(event_views(sorted@) == in_timeline_order(self@));
            lemma_no_inversion_ordered(event_views(sorted@));
            let out = event_views(sorted@);
            out.to_multiset_ensures();
            self@.to_multiset_ensures();
            if forall|j: int| 0 <= j < self@.len() ==> dates_ok(#[trigger] self@[j]) {
                assert forall|i: int| 0 <= i < out.len() implies dates_ok(#[trigger] out[i]) by {
                    out.to_multiset_ensures();
                    self@.to_multiset_ensures();
                    assert(out.to_multiset() == self@.to_multiset());
                    assert(out.contains(out[i]));
                    assert(out.to_multiset().count(out[i]) > 0);
                    assert(self@.contains(out[i]));
                }
            }
        }
        sorted
    }
}

} // verus!
