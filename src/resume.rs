//! The résumé record the layout engine draws from.
use crate::date::Date;
use crate::text::{copy_optional, copy_strings};
use vstd::prelude::*;

verus! {

#[derive(Debug)]
pub struct Resume {
    pub basics: Basics,
    pub work: Vec<Work>,
    pub volunteer: Vec<Volunteer>,
    pub education: Vec<Education>,
    pub awards: Vec<Award>,
    pub publications: Vec<Publication>,
    pub skills: Vec<Skill>,
    pub languages: Vec<Language>,
    pub interests: Vec<Interest>,
    pub references: Vec<Reference>,
}

#[derive(Debug)]
pub struct Basics {
    pub name: String,
    pub label: String,
    pub picture: Option<String>,
    pub email: String,
    pub phone: Option<String>,
    pub website: Option<String>,
    pub summary: Option<String>,
    pub location: Option<Location>,
    pub birthday: Option<Date>,
    pub profiles: Vec<Profile>,
}

#[derive(Debug)]
pub struct Location {
    pub address: Option<String>,
    pub postal_code: Option<String>,
    pub city: Option<String>,
    pub country_code: Option<String>,
    pub region: Option<String>,
}

#[derive(Debug)]
pub struct Profile {
    pub network: String,
    pub username: String,
    pub url: String,
}

#[derive(Debug, Clone)]
pub struct Work {
    pub company: String,
    pub position: String,
    pub website: Option<String>,
    pub start_date: Date,
    pub end_date: Option<Date>,
    pub summary: String,
    pub highlights: Vec<String>,
}

#[derive(Debug)]
pub struct Volunteer {
    pub organization: String,
    pub position: String,
    pub website: Option<String>,
    pub start_date: Date,
    pub end_date: Option<Date>,
    pub summary: String,
    pub highlights: Vec<String>,
}

#[derive(Debug, Clone)]
pub struct Education {
    pub institution: String,
    pub area: String,
    pub study_type: String,
    pub start_date: Date,
    pub end_date: Option<Date>,
    pub gpa: Option<String>,
    pub courses: Vec<String>,
}

#[derive(Debug)]
pub struct Award {
    pub title: String,
    pub date: String,
    pub awarder: String,
    pub summary: Option<String>,
}

#[derive(Debug)]
pub struct Publication {
    pub name: String,
    pub publisher: String,
    pub release_date: Date,
    pub website: Option<String>,
    pub summary: String,
}

#[derive(Debug)]
pub struct Skill {
    pub name: String,
    pub level: Option<String>,
    pub keywords: Vec<String>,
}

#[derive(Debug)]
pub struct Language {
    pub language: String,
    pub fluency: Option<String>,
}

#[derive(Debug)]
pub struct Interest {
    pub name: String,
    pub keywords: Vec<String>,
}

#[derive(Debug)]
pub struct Reference {
    pub name: String,
    pub reference: String,
}

impl Work {
    pub open spec fn wf(&self) -> bool {
        self.start_date.wf() && (self.end_date matches Some(d) ==> d.wf())
    }

    /// A copy of the record, equal to it in every field.
    pub fn duplicate(&self) -> (r: Work)
        ensures
            r.company == self.company,
            r.position == self.position,
            r.website == self.website,
            r.start_date == self.start_date,
            r.end_date == self.end_date,
            r.summary == self.summary,
            r.highlights@ == self.highlights@,
    {
        Work {
            company: self.company.clone(),
            position: self.position.clone(),
            website: copy_optional(&self.website),
            start_date: self.start_date,
            end_date: self.end_date,
            summary: self.summary.clone(),
            highlights: copy_strings(&self.highlights),
        }
    }
}

impl Education {
    pub open spec fn wf(&self) -> bool {
        self.start_date.wf() && (self.end_date matches Some(d) ==> d.wf())
    }

    /// A copy of the record, equal to it in every field.
    pub fn duplicate(&self) -> (r: Education)
        ensures
            r.institution == self.institution,
            r.area == self.area,
            r.study_type == self.study_type,
            r.start_date == self.start_date,
            r.end_date == self.end_date,
            r.gpa == self.gpa,
            r.courses@ == self.courses@,
    {
        Education {
            institution: self.institution.clone(),
            area: self.area.clone(),
            study_type: self.study_type.clone(),
            start_date: self.start_date,
            end_date: self.end_date,
            gpa: copy_optional(&self.gpa),
            courses: copy_strings(&self.courses),
        }
    }
}

impl Resume {
    /// Every date of the record is a day of the calendar.
    pub open spec fn wf(&self) -> bool {
        (forall|i: int| 0 <= i < self.work@.len() ==> #[trigger] self.work@[i].wf())
            && (forall|i: int| 0 <= i < self.education@.len() ==> #[trigger] self.education@[i].wf())
            && (self.basics.birthday matches Some(d) ==> d.wf())
    }

    /// Whether every date of the record is a day of the calendar.
    pub fn is_valid(&self) -> (r: bool)
        ensures
            r == self.wf(),
    {
        let mut i: usize = 0;
        while i < self.work.len()
            invariant
                i <= self.work@.len(),
                forall|k: int| 0 <= k < i ==> #[trigger] self.work@[k].wf(),
            decreases self.work@.len() - i,
        {
            if !dates_valid(&self.work[i].start_date, &self.work[i].end_date) {
                assert(!self.work@[i as int].wf());
                return false;
            }
            i = i + 1;
        }
        let mut i: usize = 0;
        while i < self.education.len()
            invariant
                i <= self.education@.len(),
                forall|k: int| 0 <= k < self.work@.len() ==> #[trigger] self.work@[k].wf(),
                forall|k: int| 0 <= k < i ==> #[trigger] self.education@[k].wf(),
            decreases self.education@.len() - i,
        {
            if !dates_valid(&self.education[i].start_date, &self.education[i].end_date) {
                assert(!self.education@[i as int].wf());
                return false;
            }
            i = i + 1;
        }
        match &self.basics.birthday {
            Some(d) => d.is_valid(),
            None => true,
        }
    }
}

fn dates_valid(start: &Date, end: &Option<Date>) -> (r: bool)
    ensures
        r == (start.wf() && (*end matches Some(d) ==> d.wf())),
{
    start.is_valid() && match end {
        Some(d) => d.is_valid(),
        None => true,
    }
}

} // verus!
