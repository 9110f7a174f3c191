//! The progress store: enrolments, what a learner has viewed and completed,
//! module progress, and quiz attempts, with the completion cascade that
//! keeps the module level in step with the content level.

use vstd::prelude::*;

use crate::catalog::Catalog;
use crate::error::{Entity, StoreError};
use crate::model::{
    lemma_attempt_replaced, lemma_attempt_stored, lemma_done_within_total, lemma_percentage,
    percentage, refreshed, with_attempt_status, with_status, StoreState,
};
use crate::records::{
    AttemptStatus, ContentBlock, ContentProgress, Enrollment, ModuleProgress, ModuleStatus,
    QuizAnswer, QuizAttempt, Student,
};
use crate::table::{
    as_index, has_unique_keys, holds_key, index_of, lemma_index_of, lemma_index_of_absent, Keyed,
    lemma_index_of_found, lemma_update_same_key, store_row, upsert,
};
use crate::text::text_of;

verus! {

/// The share of `total` that `done` is, in percent, rounded to the nearest
/// whole number, halves upwards; 0 when `total` is 0.
pub fn percent_of(done: u64, total: u64) -> (r: u128)
    ensures
        r == percentage(done as nat, total as nat),
        total > 0 ==> 2 * total * r <= 200 * done + total < 2 * total * (r + 1),
        done <= total ==> r <= 100,
{
    if total == 0 {
        0
    } else {
        let d: u128 = done as u128;
        let t: u128 = total as u128;
        let r: u128 = (200 * d + t) / (2 * t);
        proof {
            lemma_percentage(done as nat, total as nat);
        }
        r
    }
}

/// The progress store.
pub struct ProgressStore {
    students: Vec<Student>,
    enrollments: Vec<Enrollment>,
    content_progress: Vec<ContentProgress>,
    module_progress: Vec<ModuleProgress>,
    quiz_attempts: Vec<QuizAttempt>,
    quiz_answers: Vec<QuizAnswer>,
}

impl View for ProgressStore {
    type V = StoreState;

    closed spec fn view(&self) -> StoreState {
        StoreState {
            students: self.students@,
            enrollments: self.enrollments@,
            content_progress: self.content_progress@,
            module_progress: self.module_progress@,
            quiz_attempts: self.quiz_attempts@,
            quiz_answers: self.quiz_answers@,
        }
    }
}

impl ProgressStore {
    /// The invariant of the store: see [`StoreState::wf`].
    pub open spec fn wf(&self) -> bool {
        self@.wf()
    }

    /// A store that holds nothing.
    pub fn new() -> (r: ProgressStore)
        ensures
            r.wf(),
            r@.students.len() == 0,
            r@.enrollments.len() == 0,
            r@.content_progress.len() == 0,
            r@.module_progress.len() == 0,
            r@.quiz_attempts.len() == 0,
            r@.quiz_answers.len() == 0,
    {
        ProgressStore {
            students: Vec::new(),
            enrollments: Vec::new(),
            content_progress: Vec::new(),
            module_progress: Vec::new(),
            quiz_attempts: Vec::new(),
            quiz_answers: Vec::new(),
        }
    }

    /// The students known on this device.
    pub fn students(&self) -> (r: &Vec<Student>)
        ensures
            r@ == self@.students,
    {
        &self.students
    }

    /// The enrolments.
    pub fn enrollments(&self) -> (r: &Vec<Enrollment>)
        ensures
            r@ == self@.enrollments,
    {
        &self.enrollments
    }

    /// The content progress rows.
    pub fn content_progress(&self) -> (r: &Vec<ContentProgress>)
        ensures
            r@ == self@.content_progress,
    {
        &self.content_progress
    }

    /// The module progress rows.
    pub fn module_progress(&self) -> (r: &Vec<ModuleProgress>)
        ensures
            r@ == self@.module_progress,
    {
        &self.module_progress
    }

    /// The quiz attempts.
    pub fn quiz_attempts(&self) -> (r: &Vec<QuizAttempt>)
        ensures
            r@ == self@.quiz_attempts,
    {
        &self.quiz_attempts
    }

    /// The quiz answers.
    pub fn quiz_answers(&self) -> (r: &Vec<QuizAnswer>)
        ensures
            r@ == self@.quiz_answers,
    {
        &self.quiz_answers
    }

    /// Where the student `id` is.
    pub fn find_student(&self, id: &str) -> (r: Option<usize>)
        ensures
            as_index(r) == index_of(self@.students, id@),
            r matches Some(i) ==> i < self@.students.len() && self@.students[i as int].id@ == id@,
            r is Some <==> holds_key(self@.students, id@),
    {
        let probe = id.to_owned();
        let mut i: usize = 0;
        while i < self.students.len()
            invariant
                i <= self.students.len(),
                probe@ == id@,
                forall|j: int| 0 <= j < i ==> (#[trigger] self.students@[j]).id@ != id@,
            decreases self.students.len() - i,
        {
            if self.students[i].id == probe {
                proof {
                    lemma_index_of_found(self.students@, id@, i as int);
                }
                return Some(i);
            }
            i += 1;
        }
        proof {
            lemma_index_of_absent(self.students@, id@);
        }
        None
    }

    /// Where the enrolment `id` is.
    pub fn find_enrollment(&self, id: &str) -> (r: Option<usize>)
        ensures
            as_index(r) == index_of(self@.enrollments, id@),
            r matches Some(i) ==> i < self@.enrollments.len() && self@.enrollments[i as int].id@
                == id@,
    {
        let probe = id.to_owned();
        let mut i: usize = 0;
        while i < self.enrollments.len()
            invariant
                i <= self.enrollments.len(),
                probe@ == id@,
                forall|j: int| 0 <= j < i ==> (#[trigger] self.enrollments@[j]).id@ != id@,
            decreases self.enrollments.len() - i,
        {
            if self.enrollments[i].id == probe {
                proof {
                    lemma_index_of_found(self.enrollments@, id@, i as int);
                }
                return Some(i);
            }
            i += 1;
        }
        proof {
            lemma_index_of_absent(self.enrollments@, id@);
        }
        None
    }

    /// Where the progress row of the content item `content_id` under the
    /// enrolment `enrollment_id` is.
    pub fn find_content_progress(&self, enrollment_id: &str, content_id: &str) -> (r: Option<usize>)
        ensures
            as_index(r) == index_of(self@.content_progress, (enrollment_id@, content_id@)),
            r matches Some(i) ==> i < self@.content_progress.len(),
    {
        let probe_e = enrollment_id.to_owned();
        let probe_c = content_id.to_owned();
        let ghost k = (enrollment_id@, content_id@);
        let mut i: usize = 0;
        while i < self.content_progress.len()
            invariant
                i <= self.content_progress.len(),
                probe_e@ == enrollment_id@,
                probe_c@ == content_id@,
                k == (enrollment_id@, content_id@),
                forall|j: int| 0 <= j < i ==> (#[trigger] self.content_progress@[j]).key() != k,
            decreases self.content_progress.len() - i,
        {
            if self.content_progress[i].enrollment_id == probe_e
                && self.content_progress[i].content_id == probe_c {
                proof {
                    lemma_index_of_found(self.content_progress@, k, i as int);
                }
                return Some(i);
            }
            i += 1;
        }
        proof {
            lemma_index_of_absent(self.content_progress@, k);
        }
        None
    }

    /// Where the progress row of the module `module_id` under the enrolment
    /// `enrollment_id` is.
    pub fn find_module_progress(&self, enrollment_id: &str, module_id: &str) -> (r: Option<usize>)
        ensures
            as_index(r) == index_of(self@.module_progress, (enrollment_id@, module_id@)),
            r matches Some(i) ==> i < self@.module_progress.len(),
    {
        let probe_e = enrollment_id.to_owned();
        let probe_m = module_id.to_owned();
        let ghost k = (enrollment_id@, module_id@);
        let mut i: usize = 0;
        while i < self.module_progress.len()
            invariant
                i <= self.module_progress.len(),
                probe_e@ == enrollment_id@,
                probe_m@ == module_id@,
                k == (enrollment_id@, module_id@),
                forall|j: int| 0 <= j < i ==> (#[trigger] self.module_progress@[j]).key() != k,
            decreases self.module_progress.len() - i,
        {
            if self.module_progress[i].enrollment_id == probe_e && self.module_progress[i].module_id
                == probe_m {
                proof {
                    lemma_index_of_found(self.module_progress@, k, i as int);
                }
                return Some(i);
            }
            i += 1;
        }
        proof {
            lemma_index_of_absent(self.module_progress@, k);
        }
        None
    }

    /// Makes a student known on this device.
    pub fn save_student(&mut self, student: Student)
        requires
            old(self).wf(),
        ensures
            final(self).wf(),
            final(self)@ == (StoreState {
                students: upsert(old(self)@.students, student),
                ..old(self)@
            }),
    {
        let at = self.find_student(student.id.as_str());
        store_row(&mut self.students, at, student);
    }

    /// Forgets every student, as on sign-out. Enrolments stay, but none
    /// resolves until its student is known again.
    pub fn clear_students(&mut self)
        requires
            old(self).wf(),
        ensures
            final(self).wf(),
            final(self)@ == (StoreState { students: Seq::empty(), ..old(self)@ }),
    {
        self.students = Vec::new();
    }

    /// Stores an enrolment: it replaces the enrolment with its identifier, or
    /// is added when the identifier is new.
    pub fn save_enrollment(&mut self, enrollment: Enrollment)
        requires
            old(self).wf(),
        ensures
            final(self).wf(),
            final(self)@ == (StoreState {
                enrollments: upsert(old(self)@.enrollments, enrollment),
                ..old(self)@
            }),
    {
        let at = self.find_enrollment(enrollment.id.as_str());
        store_row(&mut self.enrollments, at, enrollment);
    }

    /// Whether `student_id` is enrolled in `course_id`.
    pub fn check_enrollment_exists(&self, student_id: &str, course_id: &str) -> (r: bool)
        ensures
            r == self@.is_enrolled(student_id@, course_id@),
    {
        let probe_s = student_id.to_owned();
        let probe_c = course_id.to_owned();
        let mut i: usize = 0;
        while i < self.enrollments.len()
            invariant
                i <= self.enrollments.len(),
                probe_s@ == student_id@,
                probe_c@ == course_id@,
                forall|j: int|
                    0 <= j < i ==> !((#[trigger] self.enrollments@[j]).student_id@ == student_id@
                        && self.enrollments@[j].course_id@ == course_id@),
            decreases self.enrollments.len() - i,
        {
            if self.enrollments[i].student_id == probe_s && self.enrollments[i].course_id
                == probe_c {
                assert(self@.enrollments[i as int].student_id@ == student_id@);
                return true;
            }
            i += 1;
        }
        false
    }

    /// The enrolment that an event in the course `course_id` is booked on:
    /// the most recently created enrolment in that course of a student known
    /// on this device, and of `student` if one is named. Of enrolments
    /// created at the same time, the one stored first is taken.
    pub fn resolve_enrollment(&self, course_id: &str, student: Option<&str>) -> (r: Option<usize>)
        ensures
            as_index(r) == self@.resolve_enrollment(course_id@, text_of(student)),
            r matches Some(e) ==> self@.newest_candidate(course_id@, text_of(student), e as int),
            r is None ==> forall|j: int| !self@.candidate(course_id@, text_of(student), j),
    {
        let course = course_id.to_owned();
        let wanted: Option<String> = match student {
            Some(s) => Some(s.to_owned()),
            None => None,
        };
        let ghost who = text_of(student);
        let mut best: Option<usize> = None;
        let mut i: usize = 0;
        while i < self.enrollments.len()
            invariant
                i <= self.enrollments.len(),
                course@ == course_id@,
                who == text_of(student),
                match wanted {
                    Some(w) => who == Some(w@),
                    None => who is None,
                },
                best is None ==> forall|j: int|
                    0 <= j < i ==> !#[trigger] self@.candidate(course_id@, who, j),
                best matches Some(b) ==> {
                    &&& b < i
                    &&& self@.candidate(course_id@, who, b as int)
                    &&& forall|j: int|
                        0 <= j < i && #[trigger] self@.candidate(course_id@, who, j) && j != b ==> {
                            ||| self@.enrollments[j].created_at < self@.enrollments[b as int].created_at
                            ||| (self@.enrollments[j].created_at
                                == self@.enrollments[b as int].created_at && b < j)
                        }
                },
            decreases self.enrollments.len() - i,
        {
            let row = &self.enrollments[i];
            let known = self.find_student(row.student_id.as_str()).is_some();
            let named = match &wanted {
                Some(w) => row.student_id == *w,
                None => true,
            };
            let fits = row.course_id == course && known && named;
            assert(fits == self@.candidate(course_id@, who, i as int));
            if fits {
                match best {
                    None => {
                        best = Some(i);
                    },
                    Some(b) => {
                        if row.created_at > self.enrollments[b].created_at {
                            best = Some(i);
                        }
                    },
                }
            }
            i += 1;
        }
        proof {
            let s = self@;
            match best {
                Some(b) => {
                    assert(s.newest_candidate(course_id@, who, b as int));
                    let c = choose|c: int| s.newest_candidate(course_id@, who, c);
                    assert(s.candidate(course_id@, who, c));
                    assert(s.candidate(course_id@, who, b as int));
                    assert(c == b);
                },
                None => {
                    assert forall|j: int| !s.candidate(course_id@, who, j) by {
                        if 0 <= j < s.enrollments.len() {
                            assert(!s.candidate(course_id@, who, j));
                        }
                    }
                },
            }
        }
        best
    }
}

impl ProgressStore {
    /// Whether the content item `content_id` is completed under the
    /// enrolment `enrollment_id`.
    pub fn is_content_completed(&self, enrollment_id: &str, content_id: &str) -> (r: bool)
        ensures
            r == self@.content_done(enrollment_id@, content_id@),
    {
        match self.find_content_progress(enrollment_id, content_id) {
            Some(i) => self.content_progress[i].is_completed,
            None => false,
        }
    }

    /// The number of content items of the module `module_id` that are
    /// completed under the enrolment `enrollment_id`.
    pub fn count_completed_content(&self, catalog: &Catalog, enrollment_id: &str, module_id: &str)
        -> (r: usize)
        ensures
            r == self@.done_count(catalog@, enrollment_id@, module_id@),
            r <= catalog@.content_count(module_id@),
    {
        let blocks = catalog.content_blocks();
        let probe = module_id.to_owned();
        let mut n: usize = 0;
        let mut i: usize = 0;
        while i < blocks.len()
            invariant
                i <= blocks.len(),
                blocks@ == catalog@.content_blocks,
                probe@ == module_id@,
                n <= i,
                n == self@.done_upto(catalog@, enrollment_id@, module_id@, i as int),
            decreases blocks.len() - i,
        {
            if blocks[i].module_id == probe && self.is_content_completed(
                enrollment_id,
                blocks[i].id.as_str(),
            ) {
                n += 1;
            }
            i += 1;
        }
        proof {
            lemma_done_within_total(
                self@,
                catalog@,
                enrollment_id@,
                module_id@,
                blocks@.len() as int,
            );
        }
        n
    }

    /// Whether the student `student_id` is known on this device and has
    /// finished and passed an attempt at a quiz of the module `module_id`.
    pub fn has_passed_quiz(&self, catalog: &Catalog, student_id: &str, module_id: &str) -> (r: bool)
        ensures
            r == self@.quiz_passed(catalog@, student_id@, module_id@),
    {
        if self.find_student(student_id).is_none() {
            return false;
        }
        let quizzes = catalog.quizzes();
        let probe_s = student_id.to_owned();
        let probe_m = module_id.to_owned();
        let mut i: usize = 0;
        while i < self.quiz_attempts.len()
            invariant
                i <= self.quiz_attempts.len(),
                quizzes@ == catalog@.quizzes,
                probe_s@ == student_id@,
                probe_m@ == module_id@,
                holds_key(self@.students, student_id@),
                forall|j: int|
                    0 <= j < i ==> !self@.is_pass_for(
                        catalog@,
                        #[trigger] self@.quiz_attempts[j],
                        student_id@,
                        module_id@,
                    ),
            decreases self.quiz_attempts.len() - i,
        {
            let attempt = &self.quiz_attempts[i];
            let finished = match attempt.status {
                AttemptStatus::Completed => true,
                AttemptStatus::InProgress => false,
            };
            if finished && attempt.passed && attempt.student_id == probe_s {
                let of_module = match catalog.find_quiz(attempt.quiz_id.as_str()) {
                    Some(q) => match &quizzes[q].module_id {
                        Some(m) => *m == probe_m,
                        None => false,
                    },
                    None => false,
                };
                if of_module {
                    assert(self@.is_pass_for(
                        catalog@,
                        self@.quiz_attempts[i as int],
                        student_id@,
                        module_id@,
                    ));
                    return true;
                }
            }
            i += 1;
        }
        false
    }

    /// Whether the module `module_id` is to be completed for the enrolment
    /// `enrollment_id`: it has content, all of it is completed, and it has no
    /// quiz or the enrolled student has passed its quiz.
    pub fn check_module_auto_completion(
        &self,
        catalog: &Catalog,
        enrollment_id: &str,
        module_id: &str,
    ) -> (r: bool)
        ensures
            r == self@.completes_for(catalog@, enrollment_id@, module_id@),
    {
        match self.find_enrollment(enrollment_id) {
            Some(e) => self.completes_at(catalog, e, module_id),
            None => {
                let total = catalog.count_content(module_id);
                total > 0 && self.count_completed_content(catalog, enrollment_id, module_id)
                    == total && !catalog.module_has_quiz(module_id)
            },
        }
    }

    /// Whether the module `module_id` is to be completed for the enrolment
    /// at `e`.
    fn completes_at(&self, catalog: &Catalog, e: usize, module_id: &str) -> (r: bool)
        requires
            e < self@.enrollments.len(),
        ensures
            r == self@.should_auto_complete(catalog@, e as int, module_id@),
    {
        let total = catalog.count_content(module_id);
        if total == 0 {
            return false;
        }
        let done = self.count_completed_content(
            catalog,
            self.enrollments[e].id.as_str(),
            module_id,
        );
        if done != total {
            return false;
        }
        if !catalog.module_has_quiz(module_id) {
            return true;
        }
        self.has_passed_quiz(catalog, self.enrollments[e].student_id.as_str(), module_id)
    }

    /// Marks the enrolment at `e` as active at `now`.
    fn touch_enrollment(&mut self, e: usize, now: i64)
        requires
            old(self).wf(),
            e < old(self)@.enrollments.len(),
        ensures
            final(self).wf(),
            final(self)@ == old(self)@.touched(e as int, now),
    {
        let mut row = self.enrollments[e].duplicate();
        row.updated_at = now;
        proof {
            lemma_update_same_key(self.enrollments@, e as int, row);
        }
        self.enrollments.set(e, row);
    }

    /// Runs the completion cascade at `now` for the module `module_id` and
    /// the enrolment `enrollment_id`: recomputes the counters of the module's
    /// progress row, completes the module if it should be and is not yet, and
    /// marks the enrolment as active. Without a progress row for the module
    /// only the enrolment changes. An enrolment that the store does not have
    /// is `NotFound`, and nothing changes.
    pub fn run_cascade(
        &mut self,
        catalog: &Catalog,
        enrollment_id: &str,
        module_id: &str,
        now: i64,
    ) -> (r: Result<(), StoreError>)
        requires
            old(self).wf(),
        ensures
            final(self).wf(),
            match old(self)@.run_cascade(catalog@, enrollment_id@, module_id@, now) {
                Ok(after) => r is Ok && final(self)@ == after,
                Err(e) => r == Err::<(), StoreError>(e) && final(self)@ == old(self)@,
            },
    {
        match self.find_enrollment(enrollment_id) {
            Some(e) => {
                self.cascade_at(catalog, e, module_id, now);
                Ok(())
            },
            None => Err(StoreError::NotFound(Entity::Enrollment)),
        }
    }

    /// Runs the completion cascade at `now` for the module `module_id` and
    /// the enrolment at `e`.
    fn cascade_at(&mut self, catalog: &Catalog, e: usize, module_id: &str, now: i64)
        requires
            old(self).wf(),
            e < old(self)@.enrollments.len(),
        ensures
            final(self).wf(),
            final(self)@ == old(self)@.cascade(catalog@, e as int, module_id@, now),
    {
        let total = catalog.count_content(module_id);
        let done = self.count_completed_content(
            catalog,
            self.enrollments[e].id.as_str(),
            module_id,
        );
        let complete = self.completes_at(catalog, e, module_id);
        let at = self.find_module_progress(self.enrollments[e].id.as_str(), module_id);
        match at {
            Some(p) => {
                let mut row = self.module_progress[p].duplicate();
                let already = match row.status {
                    ModuleStatus::Completed => true,
                    _ => false,
                };
                row.completed_content_count = done as u64;
                row.total_content_count = total as u64;
                row.content_completion_percentage = percent_of(done as u64, total as u64) as u64;
                row.updated_at = now;
                if complete && !already {
                    row.status = ModuleStatus::Completed;
                    row.completed_at = Some(now);
                    row.auto_completed = true;
                }
                proof {
                    lemma_index_of(
                        self.module_progress@,
                        (self.enrollments@[e as int].id@, module_id@),
                    );
                    lemma_update_same_key(self.module_progress@, p as int, row);
                    assert(row == refreshed(
                        self.module_progress@[p as int],
                        done as nat,
                        total as nat,
                        complete,
                        now,
                    ));
                }
                self.module_progress.set(p, row);
            },
            None => {},
        }
        self.touch_enrollment(e, now);
    }
}

impl ProgressStore {
    /// Finds the enrolment that an event in the course `course_id` is booked
    /// on: the one that `enrollment` names, which has to be in the store and
    /// to be an enrolment in that course; or, where none is named, the most
    /// recently created enrolment in that course of a student known on this
    /// device.
    pub fn book_on(&self, enrollment: Option<&str>, course_id: &str) -> (r: Result<
        usize,
        StoreError,
    >)
        ensures
            match r {
                Ok(e) => self@.book_on(text_of(enrollment), course_id@) == Ok::<int, StoreError>(
                    e as int,
                ) && e < self@.enrollments.len(),
                Err(x) => self@.book_on(text_of(enrollment), course_id@) == Err::<int, StoreError>(
                    x,
                ),
            },
    {
        match enrollment {
            Some(id) => match self.find_enrollment(id) {
                Some(e) => {
                    if self.enrollments[e].course_id == course_id.to_owned() {
                        Ok(e)
                    } else {
                        Err(StoreError::InvalidInput)
                    }
                },
                None => Err(StoreError::NotFound(Entity::Enrollment)),
            },
            None => match self.resolve_enrollment(course_id, None) {
                Some(e) => Ok(e),
                None => Err(StoreError::NotFound(Entity::Enrollment)),
            },
        }
    }

    /// Finds where an event on the content item `content_id` belongs: the
    /// positions of the item and of its module in the catalog and of the
    /// enrolment that the event is booked on (see `book_on`).
    pub fn locate(&self, catalog: &Catalog, enrollment: Option<&str>, content_id: &str) -> (r:
        Result<(usize, usize, usize), StoreError>)
        ensures
            match r {
                Ok(t) => {
                    &&& self@.locate(catalog@, text_of(enrollment), content_id@) == Ok::<
                        (int, int, int),
                        StoreError,
                    >((t.0 as int, t.1 as int, t.2 as int))
                    &&& t.0 < catalog@.content_blocks.len()
                    &&& t.1 < catalog@.modules.len()
                    &&& t.2 < self@.enrollments.len()
                },
                Err(e) => self@.locate(catalog@, text_of(enrollment), content_id@) == Err::<
                    (int, int, int),
                    StoreError,
                >(e),
            },
    {
        let b = match catalog.find_content_block(content_id) {
            Some(b) => b,
            None => {
                return Err(StoreError::NotFound(Entity::Content));
            },
        };
        let m = match catalog.find_module(catalog.content_blocks()[b].module_id.as_str()) {
            Some(m) => m,
            None => {
                return Err(StoreError::NotFound(Entity::Module));
            },
        };
        match self.book_on(enrollment, catalog.modules()[m].course_id.as_str()) {
            Ok(e) => Ok((b, m, e)),
            Err(x) => Err(x),
        }
    }

    /// Records `block` as completed at `now` under the enrolment at `e`.
    fn record_completed(&mut self, e: usize, block: &ContentBlock, now: i64)
        requires
            old(self).wf(),
            e < old(self)@.enrollments.len(),
        ensures
            final(self).wf(),
            final(self)@ == old(self)@.with_completed(e as int, *block, now),
    {
        let at = self.find_content_progress(self.enrollments[e].id.as_str(), block.id.as_str());
        proof {
            lemma_index_of(self.content_progress@, (self.enrollments@[e as int].id@, block.id@));
        }
        let row = match at {
            Some(i) => {
                let mut row = self.content_progress[i].duplicate();
                row.is_completed = true;
                row.completed_at = Some(now);
                row.updated_at = now;
                row
            },
            None => ContentProgress {
                enrollment_id: self.enrollments[e].id.clone(),
                content_id: block.id.clone(),
                is_completed: true,
                viewed_at: None,
                completed_at: Some(now),
                created_at: now,
                updated_at: now,
            },
        };
        store_row(&mut self.content_progress, at, row);
    }

    /// Records `block` as viewed at `now` under the enrolment at `e`.
    fn record_viewed(&mut self, e: usize, block: &ContentBlock, now: i64)
        requires
            old(self).wf(),
            e < old(self)@.enrollments.len(),
        ensures
            final(self).wf(),
            final(self)@ == old(self)@.with_viewed(e as int, *block, now),
    {
        let at = self.find_content_progress(self.enrollments[e].id.as_str(), block.id.as_str());
        proof {
            lemma_index_of(self.content_progress@, (self.enrollments@[e as int].id@, block.id@));
        }
        let row = match at {
            Some(i) => {
                let mut row = self.content_progress[i].duplicate();
                row.viewed_at = Some(now);
                row.updated_at = now;
                row
            },
            None => ContentProgress {
                enrollment_id: self.enrollments[e].id.clone(),
                content_id: block.id.clone(),
                is_completed: false,
                viewed_at: Some(now),
                completed_at: None,
                created_at: now,
                updated_at: now,
            },
        };
        store_row(&mut self.content_progress, at, row);
    }

    /// Marks the content item `content_id` as completed at `now`.
    ///
    /// The item is placed through the catalog (item, then module, then
    /// course) and booked on the most recently created enrolment in that
    /// course. Its progress row is created or updated so that it is
    /// completed at `now`, and the completion cascade runs for its module.
    /// Where the item, its module or an enrolment cannot be found, the store
    /// is left as it was and the error says which.
    pub fn mark_content_as_completed(&mut self, catalog: &Catalog, content_id: &str, now: i64) -> (r:
        Result<(), StoreError>)
        requires
            old(self).wf(),
        ensures
            final(self).wf(),
            match old(self)@.mark_completed(catalog@, None, content_id@, now) {
                Ok(after) => r is Ok && final(self)@ == after,
                Err(e) => r == Err::<(), StoreError>(e) && final(self)@ == old(self)@,
            },
    {
        self.complete_content(catalog, None, content_id, now)
    }

    /// Marks the content item `content_id` as completed at `now` under the
    /// enrolment `enrollment_id`.
    ///
    /// As `mark_content_as_completed`, but the enrolment is named, not
    /// looked for: it has to be in the store (else `NotFound`) and to be an
    /// enrolment in the course of the item's module (else `InvalidInput`).
    pub fn record_content_completed(
        &mut self,
        catalog: &Catalog,
        enrollment_id: &str,
        content_id: &str,
        now: i64,
    ) -> (r: Result<(), StoreError>)
        requires
            old(self).wf(),
        ensures
            final(self).wf(),
            match old(self)@.mark_completed(catalog@, Some(enrollment_id@), content_id@, now) {
                Ok(after) => r is Ok && final(self)@ == after,
                Err(e) => r == Err::<(), StoreError>(e) && final(self)@ == old(self)@,
            },
    {
        self.complete_content(catalog, Some(enrollment_id), content_id, now)
    }

    /// Marks a content item as completed under the enrolment that `book_on`
    /// gives.
    fn complete_content(
        &mut self,
        catalog: &Catalog,
        enrollment: Option<&str>,
        content_id: &str,
        now: i64,
    ) -> (r: Result<(), StoreError>)
        requires
            old(self).wf(),
        ensures
            final(self).wf(),
            match old(self)@.mark_completed(catalog@, text_of(enrollment), content_id@, now) {
                Ok(after) => r is Ok && final(self)@ == after,
                Err(e) => r == Err::<(), StoreError>(e) && final(self)@ == old(self)@,
            },
    {
        let (b, m, e) = match self.locate(catalog, enrollment, content_id) {
            Ok(t) => t,
            Err(err) => {
                return Err(err);
            },
        };
        let block = &catalog.content_blocks()[b];
        self.record_completed(e, block, now);
        self.cascade_at(catalog, e, block.module_id.as_str(), now);
        Ok(())
    }

    /// Marks the content item `content_id` as viewed at `now`.
    ///
    /// The item is placed as for a completion. Its progress row is created,
    /// or has its time of viewing refreshed; a row that is there keeps its
    /// completion. The enrolment is marked as active at `now`. Where the
    /// item, its module or an enrolment cannot be found, the store is left as
    /// it was and the error says which.
    pub fn mark_content_as_viewed(&mut self, catalog: &Catalog, content_id: &str, now: i64) -> (r:
        Result<(), StoreError>)
        requires
            old(self).wf(),
        ensures
            final(self).wf(),
            match old(self)@.mark_viewed(catalog@, None, content_id@, now) {
                Ok(after) => r is Ok && final(self)@ == after,
                Err(e) => r == Err::<(), StoreError>(e) && final(self)@ == old(self)@,
            },
    {
        self.view_content(catalog, None, content_id, now)
    }

    /// Marks the content item `content_id` as viewed at `now` under the
    /// enrolment `enrollment_id`.
    ///
    /// As `mark_content_as_viewed`, but the enrolment is named, not looked
    /// for: it has to be in the store (else `NotFound`) and to be an
    /// enrolment in the course of the item's module (else `InvalidInput`).
    pub fn record_content_viewed(
        &mut self,
        catalog: &Catalog,
        enrollment_id: &str,
        content_id: &str,
        now: i64,
    ) -> (r: Result<(), StoreError>)
        requires
            old(self).wf(),
        ensures
            final(self).wf(),
            match old(self)@.mark_viewed(catalog@, Some(enrollment_id@), content_id@, now) {
                Ok(after) => r is Ok && final(self)@ == after,
                Err(e) => r == Err::<(), StoreError>(e) && final(self)@ == old(self)@,
            },
    {
        self.view_content(catalog, Some(enrollment_id), content_id, now)
    }

    /// Marks a content item as viewed under the enrolment that `book_on`
    /// gives.
    fn view_content(
        &mut self,
        catalog: &Catalog,
        enrollment: Option<&str>,
        content_id: &str,
        now: i64,
    ) -> (r: Result<(), StoreError>)
        requires
            old(self).wf(),
        ensures
            final(self).wf(),
            match old(self)@.mark_viewed(catalog@, text_of(enrollment), content_id@, now) {
                Ok(after) => r is Ok && final(self)@ == after,
                Err(e) => r == Err::<(), StoreError>(e) && final(self)@ == old(self)@,
            },
    {
        let (b, m, e) = match self.locate(catalog, enrollment, content_id) {
            Ok(t) => t,
            Err(err) => {
                return Err(err);
            },
        };
        let block = &catalog.content_blocks()[b];
        self.record_viewed(e, block, now);
        self.touch_enrollment(e, now);
        Ok(())
    }
}

impl ProgressStore {
    /// Where the quiz attempt `id` is.
    pub fn find_attempt(&self, id: &str) -> (r: Option<usize>)
        ensures
            as_index(r) == index_of(self@.quiz_attempts, id@),
            r matches Some(i) ==> i < self@.quiz_attempts.len() && self@.quiz_attempts[i as int].id@
                == id@,
            r is Some <==> holds_key(self@.quiz_attempts, id@),
    {
        let probe = id.to_owned();
        let mut i: usize = 0;
        while i < self.quiz_attempts.len()
            invariant
                i <= self.quiz_attempts.len(),
                probe@ == id@,
                forall|j: int| 0 <= j < i ==> (#[trigger] self.quiz_attempts@[j]).id@ != id@,
            decreases self.quiz_attempts.len() - i,
        {
            if self.quiz_attempts[i].id == probe {
                proof {
                    lemma_index_of_found(self.quiz_attempts@, id@, i as int);
                }
                return Some(i);
            }
            i += 1;
        }
        proof {
            lemma_index_of_absent(self.quiz_attempts@, id@);
        }
        None
    }

    /// Where the answer to the question `question_id` in the attempt
    /// `attempt_id` is.
    pub fn find_answer(&self, attempt_id: &str, question_id: &str) -> (r: Option<usize>)
        ensures
            as_index(r) == index_of(self@.quiz_answers, (attempt_id@, question_id@)),
            r matches Some(i) ==> i < self@.quiz_answers.len(),
    {
        let probe_a = attempt_id.to_owned();
        let probe_q = question_id.to_owned();
        let ghost k = (attempt_id@, question_id@);
        let mut i: usize = 0;
        while i < self.quiz_answers.len()
            invariant
                i <= self.quiz_answers.len(),
                probe_a@ == attempt_id@,
                probe_q@ == question_id@,
                k == (attempt_id@, question_id@),
                forall|j: int| 0 <= j < i ==> (#[trigger] self.quiz_answers@[j]).key() != k,
            decreases self.quiz_answers.len() - i,
        {
            if self.quiz_answers[i].attempt_id == probe_a && self.quiz_answers[i].question_id
                == probe_q {
                proof {
                    lemma_index_of_found(self.quiz_answers@, k, i as int);
                }
                return Some(i);
            }
            i += 1;
        }
        proof {
            lemma_index_of_absent(self.quiz_answers@, k);
        }
        None
    }

    /// Stores a content progress row as it is: it replaces the row for its
    /// enrolment and content item, or is added. This is the way in for rows
    /// that come from the remote side; it runs no cascade. A row that would
    /// take back a completion is refused with `InvalidInput`.
    pub fn save_content_progress(&mut self, row: ContentProgress) -> (r: Result<(), StoreError>)
        requires
            old(self).wf(),
        ensures
            final(self).wf(),
            match old(self)@.save_content_progress(row) {
                Ok(after) => r is Ok && final(self)@ == after,
                Err(e) => r == Err::<(), StoreError>(e) && final(self)@ == old(self)@,
            },
    {
        let at = self.find_content_progress(row.enrollment_id.as_str(), row.content_id.as_str());
        let takes_back = match at {
            Some(i) => self.content_progress[i].is_completed && !row.is_completed,
            None => false,
        };
        if takes_back {
            return Err(StoreError::InvalidInput);
        }
        store_row(&mut self.content_progress, at, row);
        Ok(())
    }

    /// Stores a module progress row at `now`: it replaces the row for its
    /// enrolment and module, or is added, and its enrolment, if the store has
    /// it, is marked as active. A row that counts more completed items than
    /// items, or a share above 100, or that would take the module back to an
    /// earlier status, is refused with `InvalidInput`.
    pub fn save_module_progress(&mut self, row: ModuleProgress, now: i64) -> (r: Result<
        (),
        StoreError,
    >)
        requires
            old(self).wf(),
        ensures
            final(self).wf(),
            match old(self)@.save_module_progress(row, now) {
                Ok(after) => r is Ok && final(self)@ == after,
                Err(e) => r == Err::<(), StoreError>(e) && final(self)@ == old(self)@,
            },
    {
        if row.completed_content_count > row.total_content_count
            || row.content_completion_percentage > 100 {
            return Err(StoreError::InvalidInput);
        }
        let at = self.find_module_progress(row.enrollment_id.as_str(), row.module_id.as_str());
        proof {
            lemma_index_of(self.module_progress@, row.key());
        }
        let lowers = match at {
            Some(i) => self.module_progress[i].status.regresses_to(&row.status),
            None => false,
        };
        if lowers {
            return Err(StoreError::InvalidInput);
        }
        let e = self.find_enrollment(row.enrollment_id.as_str());
        store_row(&mut self.module_progress, at, row);
        match e {
            Some(e) => {
                self.touch_enrollment(e, now);
            },
            None => {},
        }
        Ok(())
    }

    /// Sets the status of the module `module_id` under the enrolment
    /// `enrollment_id` at `now`, and says whether there was a progress row to
    /// set it on. Entering `InProgress` stamps the start, entering
    /// `Completed` stamps the completion. A status earlier than the one the
    /// module has is refused with `InvalidInput`.
    pub fn update_module_status(
        &mut self,
        enrollment_id: &str,
        module_id: &str,
        status: ModuleStatus,
        now: i64,
    ) -> (r: Result<bool, StoreError>)
        requires
            old(self).wf(),
        ensures
            final(self).wf(),
            match old(self)@.update_module_status(enrollment_id@, module_id@, status, now) {
                Ok(after) => r == Ok::<bool, StoreError>(
                    holds_key(old(self)@.module_progress, (enrollment_id@, module_id@)),
                ) && final(self)@ == after,
                Err(e) => r == Err::<bool, StoreError>(e) && final(self)@ == old(self)@,
            },
    {
        let i = match self.find_module_progress(enrollment_id, module_id) {
            Some(i) => i,
            None => {
                return Ok(false);
            },
        };
        if self.module_progress[i].status.regresses_to(&status) {
            return Err(StoreError::InvalidInput);
        }
        let mut row = self.module_progress[i].duplicate();
        row.status = status;
        row.updated_at = now;
        match status {
            ModuleStatus::NotStarted => {},
            ModuleStatus::InProgress => {
                row.started_at = Some(now);
            },
            ModuleStatus::Completed => {
                row.completed_at = Some(now);
            },
        }
        proof {
            lemma_update_same_key(self.module_progress@, i as int, row);
            assert(row == with_status(self.module_progress@[i as int], status, now));
        }
        self.module_progress.set(i, row);
        Ok(true)
    }

    /// Whether every attempt of the student and quiz of `row` that the store
    /// holds has a number below that of `row`.
    fn numbers_below(&self, row: &QuizAttempt) -> (r: bool)
        ensures
            r == forall|j: int|
                0 <= j < self@.quiz_attempts.len() && #[trigger] self@.quiz_attempts[j].same_series(
                    row,
                ) ==> self@.quiz_attempts[j].attempt_number < row.attempt_number,
    {
        let mut i: usize = 0;
        while i < self.quiz_attempts.len()
            invariant
                i <= self.quiz_attempts.len(),
                forall|j: int|
                    0 <= j < i && #[trigger] self@.quiz_attempts[j].same_series(row)
                        ==> self@.quiz_attempts[j].attempt_number < row.attempt_number,
            decreases self.quiz_attempts.len() - i,
        {
            let other = &self.quiz_attempts[i];
            if other.student_id == row.student_id && other.quiz_id == row.quiz_id
                && other.attempt_number >= row.attempt_number {
                assert(self@.quiz_attempts[i as int].same_series(row));
                return false;
            }
            i += 1;
        }
        true
    }

    /// Runs the cascade at `now` for the module of the quiz `quiz_id` and the
    /// enrolment of the student `student_id` in that module's course, where
    /// there are such.
    fn cascade_for_quiz(&mut self, catalog: &Catalog, quiz_id: &str, student_id: &str, now: i64)
        requires
            old(self).wf(),
        ensures
            final(self).wf(),
            final(self)@ == old(self)@.after_finished(catalog@, quiz_id@, student_id@, now),
    {
        let q = match catalog.find_quiz(quiz_id) {
            Some(q) => q,
            None => {
                return ;
            },
        };
        let module_id = match &catalog.quizzes()[q].module_id {
            Some(m) => m,
            None => {
                return ;
            },
        };
        let m = match catalog.find_module(module_id.as_str()) {
            Some(m) => m,
            None => {
                return ;
            },
        };
        let e = match self.resolve_enrollment(
            catalog.modules()[m].course_id.as_str(),
            Some(student_id),
        ) {
            Some(e) => e,
            None => {
                return ;
            },
        };
        self.cascade_at(catalog, e, module_id.as_str(), now);
    }

    /// Stores a quiz attempt at `now`: it replaces the attempt with its
    /// identifier, or is added. A finished attempt sets off the completion
    /// cascade for the quiz's module, so that passing the quiz can complete
    /// a module whose content is already done.
    ///
    /// The attempts of one student at one quiz are numbered upwards: an
    /// attempt under a new identifier whose number is not above the earlier
    /// ones, and an attempt under a known identifier that changes student,
    /// quiz or number, is refused with `ConstraintViolation`.
    pub fn save_quiz_attempt(&mut self, catalog: &Catalog, attempt: QuizAttempt, now: i64) -> (r:
        Result<(), StoreError>)
        requires
            old(self).wf(),
        ensures
            final(self).wf(),
            match old(self)@.save_quiz_attempt(catalog@, attempt, now) {
                Ok(after) => r is Ok && final(self)@ == after,
                Err(e) => r == Err::<(), StoreError>(e) && final(self)@ == old(self)@,
            },
    {
        let at = self.find_attempt(attempt.id.as_str());
        let admitted = match at {
            Some(i) => {
                let held = &self.quiz_attempts[i];
                held.student_id == attempt.student_id && held.quiz_id == attempt.quiz_id
                    && held.attempt_number == attempt.attempt_number
            },
            None => self.numbers_below(&attempt),
        };
        if !admitted {
            return Err(StoreError::ConstraintViolation);
        }
        let finished = match attempt.status {
            AttemptStatus::Completed => true,
            AttemptStatus::InProgress => false,
        };
        let quiz_id = attempt.quiz_id.clone();
        let student_id = attempt.student_id.clone();
        proof {
            lemma_attempt_stored(self@, attempt);
        }
        store_row(&mut self.quiz_attempts, at, attempt);
        if finished {
            self.cascade_for_quiz(catalog, quiz_id.as_str(), student_id.as_str(), now);
        }
        Ok(())
    }

    /// Sets the status of the quiz attempt `attempt_id` at `now`, and says
    /// whether the store holds that attempt. Finishing an attempt stamps the
    /// completion, records `score` and whether it was passed (`None` counts
    /// as not passed), and sets off the completion cascade for the quiz's
    /// module; any other status changes the status alone.
    pub fn update_quiz_attempt_status(
        &mut self,
        catalog: &Catalog,
        attempt_id: &str,
        status: AttemptStatus,
        score: Option<i64>,
        passed: Option<bool>,
        now: i64,
    ) -> (r: bool)
        requires
            old(self).wf(),
        ensures
            final(self).wf(),
            r == holds_key(old(self)@.quiz_attempts, attempt_id@),
            final(self)@ == old(self)@.update_quiz_attempt_status(
                catalog@,
                attempt_id@,
                status,
                score,
                passed,
                now,
            ),
    {
        let i = match self.find_attempt(attempt_id) {
            Some(i) => i,
            None => {
                return false;
            },
        };
        let mut row = self.quiz_attempts[i].duplicate();
        row.status = status;
        row.updated_at = now;
        let finished = match status {
            AttemptStatus::Completed => {
                row.completed_at = Some(now);
                row.score = score;
                row.passed = match passed {
                    Some(p) => p,
                    None => false,
                };
                true
            },
            AttemptStatus::InProgress => false,
        };
        let quiz_id = row.quiz_id.clone();
        let student_id = row.student_id.clone();
        proof {
            assert(row == with_attempt_status(
                self.quiz_attempts@[i as int],
                status,
                score,
                passed,
                now,
            ));
            lemma_attempt_replaced(self@, i as int, row);
        }
        self.quiz_attempts.set(i, row);
        if finished {
            self.cascade_for_quiz(catalog, quiz_id.as_str(), student_id.as_str(), now);
        }
        true
    }

    /// Stores the answer to a question in an attempt: it replaces the answer
    /// to that question in that attempt, or is added. An answer to an attempt
    /// that the store does not hold is refused with `ConstraintViolation`.
    pub fn save_quiz_answer(&mut self, answer: QuizAnswer) -> (r: Result<(), StoreError>)
        requires
            old(self).wf(),
        ensures
            final(self).wf(),
            match old(self)@.save_quiz_answer(answer) {
                Ok(after) => r is Ok && final(self)@ == after,
                Err(e) => r == Err::<(), StoreError>(e) && final(self)@ == old(self)@,
            },
    {
        if self.find_attempt(answer.attempt_id.as_str()).is_none() {
            return Err(StoreError::ConstraintViolation);
        }
        let at = self.find_answer(answer.attempt_id.as_str(), answer.question_id.as_str());
        store_row(&mut self.quiz_answers, at, answer);
        Ok(())
    }
}

/// The value under which an answer's correctness is kept: the number, where
/// the client sent one; else 1 for `true` and 0 for `false`; 0 where it sent
/// neither. An answer counts as correct where this is 1.
pub fn correctness_flag(as_number: Option<i64>, as_flag: Option<bool>) -> (r: i64)
    ensures
        r == match as_number {
            Some(v) => v,
            None => match as_flag {
                Some(true) => 1i64,
                _ => 0i64,
            },
        },
{
    match as_number {
        Some(v) => v,
        None => match as_flag {
            Some(true) => 1,
            Some(false) => 0,
            None => 0,
        },
    }
}

/// Whether the counters of every module progress row are within their
/// bounds.
fn rows_within_bounds(rows: &Vec<ModuleProgress>) -> (r: bool)
    ensures
        r == forall|i: int|
            0 <= i < rows@.len() ==> {
                &&& (#[trigger] rows@[i]).counts_ok()
                &&& rows@[i].content_completion_percentage <= 100
            },
{
    let mut i: usize = 0;
    while i < rows.len()
        invariant
            i <= rows.len(),
            forall|j: int|
                0 <= j < i ==> {
                    &&& (#[trigger] rows@[j]).counts_ok()
                    &&& rows@[j].content_completion_percentage <= 100
                },
        decreases rows.len() - i,
    {
        if rows[i].completed_content_count > rows[i].total_content_count
            || rows[i].content_completion_percentage > 100 {
            assert(!(rows@[i as int].counts_ok() && rows@[i as int].content_completion_percentage
                <= 100));
            return false;
        }
        i += 1;
    }
    true
}

/// Whether, of two attempts of one student at one quiz, the later in the
/// list always has the higher number.
fn numbered_upwards(attempts: &Vec<QuizAttempt>) -> (r: bool)
    ensures
        r == forall|i: int, j: int|
            0 <= i < j < attempts@.len() && #[trigger] attempts@[i].same_series(&attempts@[j])
                ==> attempts@[i].attempt_number < attempts@[j].attempt_number,
{
    let mut j: usize = 0;
    while j < attempts.len()
        invariant
            j <= attempts.len(),
            forall|a: int, b: int|
                0 <= a < b < j && #[trigger] attempts@[a].same_series(&attempts@[b])
                    ==> attempts@[a].attempt_number < attempts@[b].attempt_number,
        decreases attempts.len() - j,
    {
        let mut i: usize = 0;
        while i < j
            invariant
                i <= j < attempts.len(),
                forall|a: int|
                    0 <= a < i && #[trigger] attempts@[a].same_series(&attempts@[j as int])
                        ==> attempts@[a].attempt_number < attempts@[j as int].attempt_number,
            decreases j - i,
        {
            if attempts[i].student_id == attempts[j].student_id && attempts[i].quiz_id
                == attempts[j].quiz_id && attempts[i].attempt_number >= attempts[j].attempt_number {
                assert(attempts@[i as int].same_series(&attempts@[j as int]));
                return false;
            }
            i += 1;
        }
        j += 1;
    }
    true
}

impl ProgressStore {
    /// A store that holds the given rows, as they were kept elsewhere. Rows
    /// that break the invariant of the store (two rows under one key, a
    /// module row whose counters are out of bounds, attempts that are not
    /// numbered upwards) are refused with `ConstraintViolation`.
    pub fn restore(
        students: Vec<Student>,
        enrollments: Vec<Enrollment>,
        content_progress: Vec<ContentProgress>,
        module_progress: Vec<ModuleProgress>,
        quiz_attempts: Vec<QuizAttempt>,
        quiz_answers: Vec<QuizAnswer>,
    ) -> (r: Result<ProgressStore, StoreError>)
        ensures
            ({
                let state = StoreState {
                    students: students@,
                    enrollments: enrollments@,
                    content_progress: content_progress@,
                    module_progress: module_progress@,
                    quiz_attempts: quiz_attempts@,
                    quiz_answers: quiz_answers@,
                };
                match r {
                    Ok(store) => state.wf() && store@ == state,
                    Err(e) => !state.wf() && e == StoreError::ConstraintViolation,
                }
            }),
    {
        if has_unique_keys(&students) && has_unique_keys(&enrollments) && has_unique_keys(
            &content_progress,
        ) && has_unique_keys(&module_progress) && has_unique_keys(&quiz_attempts)
            && has_unique_keys(&quiz_answers) && rows_within_bounds(&module_progress)
            && numbered_upwards(&quiz_attempts) {
            Ok(
                ProgressStore {
                    students,
                    enrollments,
                    content_progress,
                    module_progress,
                    quiz_attempts,
                    quiz_answers,
                },
            )
        } else {
            Err(StoreError::ConstraintViolation)
        }
    }
}

} // verus!
