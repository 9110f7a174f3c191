//! What the progress store holds, and what each operation makes of it: the
//! mathematical side of the store, against which the executable code in
//! `progress` is verified.

use vstd::prelude::*;

use crate::catalog::CatalogState;
use crate::error::{Entity, StoreError};
use crate::records::{
    AttemptStatus, ContentBlock, ContentProgress, Enrollment, ModuleProgress, ModuleStatus,
    QuizAnswer, QuizAttempt, Student,
};
use crate::table::{
    holds_key, index_of, lemma_index_of, lemma_index_of_unique, lemma_upsert_unique, unique_keys,
    upsert, Keyed,
};

verus! {

/// The share of `total` that `done` is, in percent, rounded to the nearest
/// whole number, halves upwards; 0 when `total` is 0.
pub open spec fn percentage(done: nat, total: nat) -> nat {
    if total > 0 {
        ((200 * done + total) / (2 * total)) as nat
    } else {
        0
    }
}

/// The percentage is the whole number nearest to the exact share, and stays
/// within 100 when no more is done than there is.
pub proof fn lemma_percentage(done: nat, total: nat)
    requires
        total > 0,
    ensures
        2 * total * percentage(done, total) <= 200 * done + total < 2 * total * (percentage(
            done,
            total,
        ) + 1),
        done <= total ==> percentage(done, total) <= 100,
        done == total ==> percentage(done, total) == 100,
{
    let n = (200 * done + total) as int;
    let d = (2 * total) as int;
    let q = n / d;
    assert(d * q <= n < d * (q + 1)) by (nonlinear_arith)
        requires
            d > 0,
            n >= 0,
            q == n / d,
    ;
    assert(q >= 0) by (nonlinear_arith)
        requires
            d > 0,
            n >= 0,
            q == n / d,
    ;
    if done <= total {
        assert(q <= 100) by (nonlinear_arith)
            requires
                d * q <= n,
                n <= 201 * total,
                d == 2 * total,
                total > 0,
        ;
    }
    if done == total {
        assert(q >= 100) by (nonlinear_arith)
            requires
                n < d * (q + 1),
                n == 201 * total,
                d == 2 * total,
                total > 0,
        ;
    }
}

/// A module progress row after its counters were recomputed at `now`, and,
/// where `complete` says that the module is to be completed and it is not
/// yet, after it was completed automatically at `now`.
pub open spec fn refreshed(row: ModuleProgress, done: nat, total: nat, complete: bool, now: i64)
    -> ModuleProgress {
    let counted = ModuleProgress {
        completed_content_count: done as u64,
        total_content_count: total as u64,
        content_completion_percentage: percentage(done, total) as u64,
        updated_at: now,
        ..row
    };
    if complete && row.status != ModuleStatus::Completed {
        ModuleProgress {
            status: ModuleStatus::Completed,
            completed_at: Some(now),
            auto_completed: true,
            ..counted
        }
    } else {
        counted
    }
}

/// A module progress row after its status was set to `status` at `now`:
/// entering `InProgress` stamps the start, entering `Completed` stamps the
/// completion.
pub open spec fn with_status(row: ModuleProgress, status: ModuleStatus, now: i64)
    -> ModuleProgress {
    match status {
        ModuleStatus::NotStarted => ModuleProgress { status, updated_at: now, ..row },
        ModuleStatus::InProgress => ModuleProgress {
            status,
            started_at: Some(now),
            updated_at: now,
            ..row
        },
        ModuleStatus::Completed => ModuleProgress {
            status,
            completed_at: Some(now),
            updated_at: now,
            ..row
        },
    }
}

/// A quiz attempt after its status was set to `status` at `now`. Finishing
/// an attempt stamps the completion and records the score and whether it was
/// passed (an outcome that is not given counts as not passed); any other
/// status changes nothing else.
pub open spec fn with_attempt_status(
    row: QuizAttempt,
    status: AttemptStatus,
    score: Option<i64>,
    passed: Option<bool>,
    now: i64,
) -> QuizAttempt {
    match status {
        AttemptStatus::Completed => QuizAttempt {
            status,
            completed_at: Some(now),
            score,
            passed: passed == Some(true),
            updated_at: now,
            ..row
        },
        AttemptStatus::InProgress => QuizAttempt { status, updated_at: now, ..row },
    }
}

/// The counters of a module progress row are within their bounds.
pub open spec fn module_row_ok(row: ModuleProgress) -> bool {
    row.counts_ok() && row.content_completion_percentage <= 100
}

/// What the progress store holds.
pub struct StoreState {
    pub students: Seq<Student>,
    pub enrollments: Seq<Enrollment>,
    pub content_progress: Seq<ContentProgress>,
    pub module_progress: Seq<ModuleProgress>,
    pub quiz_attempts: Seq<QuizAttempt>,
    pub quiz_answers: Seq<QuizAnswer>,
}

impl StoreState {
    /// Each table has one row per key, no module counts more completed items
    /// than it has or a share above 100, and the attempts of one student at
    /// one quiz are numbered upwards in the order in which they were stored.
    pub open spec fn wf(self) -> bool {
        &&& unique_keys(self.students)
        &&& unique_keys(self.enrollments)
        &&& unique_keys(self.content_progress)
        &&& unique_keys(self.module_progress)
        &&& unique_keys(self.quiz_attempts)
        &&& unique_keys(self.quiz_answers)
        &&& forall|i: int|
            0 <= i < self.module_progress.len() ==> {
                &&& (#[trigger] self.module_progress[i]).counts_ok()
                &&& self.module_progress[i].content_completion_percentage <= 100
            }
        &&& self.attempts_numbered()
    }

    /// Of two attempts of one student at one quiz, the one stored later has
    /// the higher number.
    pub open spec fn attempts_numbered(self) -> bool {
        forall|i: int, j: int|
            0 <= i < j < self.quiz_attempts.len() && #[trigger] self.quiz_attempts[i].same_series(
                &self.quiz_attempts[j],
            ) ==> self.quiz_attempts[i].attempt_number < self.quiz_attempts[j].attempt_number
    }

    /// The student `student_id` has an enrolment in the course `course_id`.
    pub open spec fn is_enrolled(self, student_id: Seq<char>, course_id: Seq<char>) -> bool {
        exists|i: int|
            0 <= i < self.enrollments.len() && (#[trigger] self.enrollments[i]).student_id@
                == student_id && self.enrollments[i].course_id@ == course_id
    }

    /// The enrolment at `i` is one of the course `course_id`, of a student
    /// known on this device, and of `student` if one is named.
    pub open spec fn candidate(self, course_id: Seq<char>, student: Option<Seq<char>>, i: int)
        -> bool {
        &&& 0 <= i < self.enrollments.len()
        &&& self.enrollments[i].course_id@ == course_id
        &&& holds_key(self.students, self.enrollments[i].student_id@)
        &&& (student matches Some(s) ==> self.enrollments[i].student_id@ == s)
    }

    /// The enrolment at `i` is the candidate that was created last; of
    /// candidates created at the same time, it is the one stored first.
    pub open spec fn newest_candidate(
        self,
        course_id: Seq<char>,
        student: Option<Seq<char>>,
        i: int,
    ) -> bool {
        &&& self.candidate(course_id, student, i)
        &&& forall|j: int| #[trigger]
            self.candidate(course_id, student, j) && j != i ==> {
                ||| self.enrollments[j].created_at < self.enrollments[i].created_at
                ||| (self.enrollments[j].created_at == self.enrollments[i].created_at && i < j)
            }
    }

    /// The enrolment that an event in the course `course_id` is booked on:
    /// the most recently created one of a known student (of `student`, if one
    /// is named).
    pub open spec fn resolve_enrollment(self, course_id: Seq<char>, student: Option<Seq<char>>)
        -> Option<int> {
        if exists|i: int| self.newest_candidate(course_id, student, i) {
            Some(choose|i: int| self.newest_candidate(course_id, student, i))
        } else {
            None
        }
    }

    /// The content item `content_id` is completed under the enrolment
    /// `enrollment_id`.
    pub open spec fn content_done(self, enrollment_id: Seq<char>, content_id: Seq<char>) -> bool {
        match index_of(self.content_progress, (enrollment_id, content_id)) {
            Some(i) => self.content_progress[i].is_completed,
            None => false,
        }
    }

    /// The number of content items among the catalog's first `n` that belong
    /// to `module_id` and are completed under `enrollment_id`.
    pub open spec fn done_upto(
        self,
        catalog: CatalogState,
        enrollment_id: Seq<char>,
        module_id: Seq<char>,
        n: int,
    ) -> nat
        decreases n,
    {
        if n <= 0 {
            0
        } else {
            self.done_upto(catalog, enrollment_id, module_id, n - 1) + if catalog.content_blocks[n
                - 1].module_id@ == module_id && self.content_done(
                enrollment_id,
                catalog.content_blocks[n - 1].id@,
            ) {
                1nat
            } else {
                0nat
            }
        }
    }

    /// The number of content items of `module_id` that are completed under
    /// `enrollment_id`.
    pub open spec fn done_count(
        self,
        catalog: CatalogState,
        enrollment_id: Seq<char>,
        module_id: Seq<char>,
    ) -> nat {
        self.done_upto(catalog, enrollment_id, module_id, catalog.content_blocks.len() as int)
    }

    /// `attempt` is a finished, passed attempt of the known student
    /// `student_id` at a quiz of the module `module_id`.
    pub open spec fn is_pass_for(
        self,
        catalog: CatalogState,
        attempt: QuizAttempt,
        student_id: Seq<char>,
        module_id: Seq<char>,
    ) -> bool {
        &&& attempt.is_pass()
        &&& attempt.student_id@ == student_id
        &&& holds_key(self.students, student_id)
        &&& match index_of(catalog.quizzes, attempt.quiz_id@) {
            Some(q) => catalog.quizzes[q].is_for(module_id),
            None => false,
        }
    }

    /// The student `student_id` has passed a quiz of the module `module_id`.
    pub open spec fn quiz_passed(
        self,
        catalog: CatalogState,
        student_id: Seq<char>,
        module_id: Seq<char>,
    ) -> bool {
        exists|i: int|
            0 <= i < self.quiz_attempts.len() && self.is_pass_for(
                catalog,
                #[trigger] self.quiz_attempts[i],
                student_id,
                module_id,
            )
    }

    /// The module `module_id` is to be completed for the enrolment at `e`:
    /// it has content, all of it is completed, and it has no quiz or its quiz
    /// was passed by the enrolled student.
    pub open spec fn should_auto_complete(self, catalog: CatalogState, e: int, module_id: Seq<char>)
        -> bool {
        &&& catalog.content_count(module_id) > 0
        &&& self.done_count(catalog, self.enrollments[e].id@, module_id) == catalog.content_count(
            module_id,
        )
        &&& (!catalog.module_has_quiz(module_id) || self.quiz_passed(
            catalog,
            self.enrollments[e].student_id@,
            module_id,
        ))
    }

    /// The store after the completion cascade has run at `now` for the module
    /// `module_id` and the enrolment at `e`: the module's progress row, if
    /// there is one, has its counters recomputed and is completed if it
    /// should be, and the enrolment is marked as active at `now`.
    pub open spec fn cascade(self, catalog: CatalogState, e: int, module_id: Seq<char>, now: i64)
        -> StoreState {
        let enrollment = self.enrollments[e];
        let module_progress = match index_of(self.module_progress, (enrollment.id@, module_id)) {
            Some(p) => self.module_progress.update(
                p,
                refreshed(
                    self.module_progress[p],
                    self.done_count(catalog, enrollment.id@, module_id),
                    catalog.content_count(module_id),
                    self.should_auto_complete(catalog, e, module_id),
                    now,
                ),
            ),
            None => self.module_progress,
        };
        StoreState {
            module_progress,
            enrollments: self.enrollments.update(e, Enrollment { updated_at: now, ..enrollment }),
            ..self
        }
    }

    /// The module `module_id` is to be completed for the enrolment
    /// `enrollment_id`. For an enrolment that the store does not have, only
    /// the content counts, and a module with a quiz is never to be completed.
    pub open spec fn completes_for(
        self,
        catalog: CatalogState,
        enrollment_id: Seq<char>,
        module_id: Seq<char>,
    ) -> bool {
        match index_of(self.enrollments, enrollment_id) {
            Some(e) => self.should_auto_complete(catalog, e, module_id),
            None => {
                &&& catalog.content_count(module_id) > 0
                &&& self.done_count(catalog, enrollment_id, module_id) == catalog.content_count(
                    module_id,
                )
                &&& !catalog.module_has_quiz(module_id)
            },
        }
    }

    /// The outcome of running the cascade at `now` for the module
    /// `module_id` and the enrolment `enrollment_id`; `NotFound` for an
    /// enrolment that the store does not have.
    pub open spec fn run_cascade(
        self,
        catalog: CatalogState,
        enrollment_id: Seq<char>,
        module_id: Seq<char>,
        now: i64,
    ) -> Result<StoreState, StoreError> {
        match index_of(self.enrollments, enrollment_id) {
            Some(e) => Ok(self.cascade(catalog, e, module_id, now)),
            None => Err(StoreError::NotFound(Entity::Enrollment)),
        }
    }

    /// The store after the enrolment at `e` was marked as active at `now`.
    pub open spec fn touched(self, e: int, now: i64) -> StoreState {
        StoreState {
            enrollments: self.enrollments.update(
                e,
                Enrollment { updated_at: now, ..self.enrollments[e] },
            ),
            ..self
        }
    }

    /// The store after `block` was recorded as completed at `now` under the
    /// enrolment at `e`.
    pub open spec fn with_completed(self, e: int, block: ContentBlock, now: i64) -> StoreState {
        let enrollment = self.enrollments[e];
        let content_progress = match index_of(self.content_progress, (enrollment.id@, block.id@)) {
            Some(i) => self.content_progress.update(
                i,
                ContentProgress {
                    is_completed: true,
                    completed_at: Some(now),
                    updated_at: now,
                    ..self.content_progress[i]
                },
            ),
            None => self.content_progress.push(
                ContentProgress {
                    enrollment_id: enrollment.id,
                    content_id: block.id,
                    is_completed: true,
                    viewed_at: None,
                    completed_at: Some(now),
                    created_at: now,
                    updated_at: now,
                },
            ),
        };
        StoreState { content_progress, ..self }
    }

    /// The store after `block` was recorded as viewed at `now` under the
    /// enrolment at `e`. A row that is there keeps its completion.
    pub open spec fn with_viewed(self, e: int, block: ContentBlock, now: i64) -> StoreState {
        let enrollment = self.enrollments[e];
        let content_progress = match index_of(self.content_progress, (enrollment.id@, block.id@)) {
            Some(i) => self.content_progress.update(
                i,
                ContentProgress {
                    viewed_at: Some(now),
                    updated_at: now,
                    ..self.content_progress[i]
                },
            ),
            None => self.content_progress.push(
                ContentProgress {
                    enrollment_id: enrollment.id,
                    content_id: block.id,
                    is_completed: false,
                    viewed_at: Some(now),
                    completed_at: None,
                    created_at: now,
                    updated_at: now,
                },
            ),
        };
        StoreState { content_progress, ..self }
    }

    /// Storing `row` would take back the completion of its content item.
    pub open spec fn takes_back_completion(self, row: ContentProgress) -> bool {
        match index_of(self.content_progress, row.key()) {
            Some(i) => self.content_progress[i].is_completed && !row.is_completed,
            None => false,
        }
    }

    /// The outcome of storing the content progress row `row` as it is: the
    /// row replaces the one for its enrolment and content item, or is added.
    /// A row that would take back a completion is `InvalidInput`.
    pub open spec fn save_content_progress(self, row: ContentProgress) -> Result<
        StoreState,
        StoreError,
    > {
        if self.takes_back_completion(row) {
            Err(StoreError::InvalidInput)
        } else {
            Ok(StoreState { content_progress: upsert(self.content_progress, row), ..self })
        }
    }

    /// Storing `row` would take its module back to an earlier status.
    pub open spec fn lowers_status(self, row: ModuleProgress) -> bool {
        match index_of(self.module_progress, row.key()) {
            Some(i) => row.status.rank() < self.module_progress[i].status.rank(),
            None => false,
        }
    }

    /// The outcome of storing the module progress row `row` at `now`: the
    /// row replaces the one for its enrolment and module, or is added, and
    /// its enrolment, if the store has it, is marked as active. A row whose
    /// counters are out of bounds, or that would lower the module's status,
    /// is `InvalidInput`.
    pub open spec fn save_module_progress(self, row: ModuleProgress, now: i64) -> Result<
        StoreState,
        StoreError,
    > {
        if !module_row_ok(row) || self.lowers_status(row) {
            Err(StoreError::InvalidInput)
        } else {
            let stored = StoreState { module_progress: upsert(self.module_progress, row), ..self };
            Ok(
                match index_of(self.enrollments, row.enrollment_id@) {
                    Some(e) => stored.touched(e, now),
                    None => stored,
                },
            )
        }
    }

    /// The outcome of setting the status of the module `module_id` under the
    /// enrolment `enrollment_id` at `now`. Without a progress row for the pair
    /// nothing changes; a status earlier than the row's is `InvalidInput`.
    pub open spec fn update_module_status(
        self,
        enrollment_id: Seq<char>,
        module_id: Seq<char>,
        status: ModuleStatus,
        now: i64,
    ) -> Result<StoreState, StoreError> {
        match index_of(self.module_progress, (enrollment_id, module_id)) {
            None => Ok(self),
            Some(i) => if status.rank() < self.module_progress[i].status.rank() {
                Err(StoreError::InvalidInput)
            } else {
                Ok(
                    StoreState {
                        module_progress: self.module_progress.update(
                            i,
                            with_status(self.module_progress[i], status, now),
                        ),
                        ..self
                    },
                )
            },
        }
    }

    /// The attempt `row` may be stored: if its identifier is known, it is
    /// still the same student's attempt of the same number at the same quiz;
    /// if not, its number is above those of that student's earlier attempts
    /// at the quiz.
    pub open spec fn admits_attempt(self, row: QuizAttempt) -> bool {
        match index_of(self.quiz_attempts, row.id@) {
            Some(i) => self.quiz_attempts[i].same_series(&row)
                && self.quiz_attempts[i].attempt_number == row.attempt_number,
            None => forall|j: int|
                0 <= j < self.quiz_attempts.len() && #[trigger] self.quiz_attempts[j].same_series(
                    &row,
                ) ==> self.quiz_attempts[j].attempt_number < row.attempt_number,
        }
    }

    /// What the cascade is to run for after the student `student_id` has
    /// finished an attempt at the quiz `quiz_id`: the position of that
    /// student's enrolment in the course of the quiz's module, and the
    /// position of the quiz in the catalog. `None` for a quiz that is unknown
    /// or belongs to no known module, and for a student without such an
    /// enrolment.
    pub open spec fn quiz_target(
        self,
        catalog: CatalogState,
        quiz_id: Seq<char>,
        student_id: Seq<char>,
    ) -> Option<(int, int)> {
        match index_of(catalog.quizzes, quiz_id) {
            None => None,
            Some(q) => match catalog.quizzes[q].module_id {
                None => None,
                Some(module_id) => match index_of(catalog.modules, module_id@) {
                    None => None,
                    Some(m) => match self.resolve_enrollment(
                        catalog.modules[m].course_id@,
                        Some(student_id),
                    ) {
                        None => None,
                        Some(e) => Some((e, q)),
                    },
                },
            },
        }
    }

    /// The store after the cascade has run at `now` for what `quiz_target`
    /// names; the store itself where it names nothing.
    pub open spec fn after_finished(
        self,
        catalog: CatalogState,
        quiz_id: Seq<char>,
        student_id: Seq<char>,
        now: i64,
    ) -> StoreState {
        match self.quiz_target(catalog, quiz_id, student_id) {
            Some((e, q)) => self.cascade(catalog, e, catalog.quizzes[q].module_id->0@, now),
            None => self,
        }
    }

    /// The store after the consequences of storing `attempt` at `now` were
    /// drawn: for a finished attempt the cascade runs for the quiz's module.
    pub open spec fn after_attempt(self, catalog: CatalogState, attempt: QuizAttempt, now: i64)
        -> StoreState {
        if attempt.status == AttemptStatus::Completed {
            self.after_finished(catalog, attempt.quiz_id@, attempt.student_id@, now)
        } else {
            self
        }
    }

    /// The outcome of storing the quiz attempt `row` at `now`: the attempt
    /// replaces the one with its identifier, or is added, and its
    /// consequences are drawn. An attempt that `admits_attempt` refuses is a
    /// `ConstraintViolation`.
    pub open spec fn save_quiz_attempt(self, catalog: CatalogState, row: QuizAttempt, now: i64)
        -> Result<StoreState, StoreError> {
        if !self.admits_attempt(row) {
            Err(StoreError::ConstraintViolation)
        } else {
            Ok(
                (StoreState { quiz_attempts: upsert(self.quiz_attempts, row), ..self }).after_attempt(
                    catalog,
                    row,
                    now,
                ),
            )
        }
    }

    /// The store after the status of the attempt `attempt_id` was set at
    /// `now` and the consequences were drawn. An unknown attempt changes
    /// nothing.
    pub open spec fn update_quiz_attempt_status(
        self,
        catalog: CatalogState,
        attempt_id: Seq<char>,
        status: AttemptStatus,
        score: Option<i64>,
        passed: Option<bool>,
        now: i64,
    ) -> StoreState {
        match index_of(self.quiz_attempts, attempt_id) {
            None => self,
            Some(i) => {
                let row = with_attempt_status(self.quiz_attempts[i], status, score, passed, now);
                (StoreState { quiz_attempts: self.quiz_attempts.update(i, row), ..self }).after_attempt(
                    catalog,
                    row,
                    now,
                )
            },
        }
    }

    /// The outcome of storing the answer `row`: it replaces the answer to
    /// its question in its attempt, or is added. An answer to an attempt that
    /// the store does not hold is a `ConstraintViolation`.
    pub open spec fn save_quiz_answer(self, row: QuizAnswer) -> Result<StoreState, StoreError> {
        if !holds_key(self.quiz_attempts, row.attempt_id@) {
            Err(StoreError::ConstraintViolation)
        } else {
            Ok(StoreState { quiz_answers: upsert(self.quiz_answers, row), ..self })
        }
    }

    /// The enrolment that an event in the course `course_id` is booked on.
    /// Where `enrollment` names one, it is that one: it has to be in the
    /// store (else `NotFound`) and to be an enrolment in that course (else
    /// `InvalidInput`). Where none is named, it is the one that
    /// `resolve_enrollment` finds for the course (`NotFound` if it finds
    /// none).
    pub open spec fn book_on(self, enrollment: Option<Seq<char>>, course_id: Seq<char>) -> Result<
        int,
        StoreError,
    > {
        match enrollment {
            Some(id) => match index_of(self.enrollments, id) {
                None => Err(StoreError::NotFound(Entity::Enrollment)),
                Some(e) => if self.enrollments[e].course_id@ == course_id {
                    Ok(e)
                } else {
                    Err(StoreError::InvalidInput)
                },
            },
            None => match self.resolve_enrollment(course_id, None) {
                None => Err(StoreError::NotFound(Entity::Enrollment)),
                Some(e) => Ok(e),
            },
        }
    }

    /// Where an event on the content item `content_id` belongs: the position
    /// of the item and of its module in the catalog, and of the enrolment
    /// that it is booked on (see `book_on`); or what could not be found.
    pub open spec fn locate(
        self,
        catalog: CatalogState,
        enrollment: Option<Seq<char>>,
        content_id: Seq<char>,
    ) -> Result<(int, int, int), StoreError> {
        match index_of(catalog.content_blocks, content_id) {
            None => Err(StoreError::NotFound(Entity::Content)),
            Some(b) => match index_of(catalog.modules, catalog.content_blocks[b].module_id@) {
                None => Err(StoreError::NotFound(Entity::Module)),
                Some(m) => match self.book_on(enrollment, catalog.modules[m].course_id@) {
                    Err(e) => Err(e),
                    Ok(e) => Ok((b, m, e)),
                },
            },
        }
    }

    /// The outcome of marking the content item `content_id` as completed at
    /// `now` under the enrolment that `book_on` gives for `enrollment`: the
    /// item is recorded as completed and the cascade runs for its module; or
    /// the error, when the item cannot be placed.
    pub open spec fn mark_completed(
        self,
        catalog: CatalogState,
        enrollment: Option<Seq<char>>,
        content_id: Seq<char>,
        now: i64,
    ) -> Result<StoreState, StoreError> {
        match self.locate(catalog, enrollment, content_id) {
            Err(e) => Err(e),
            Ok((b, m, e)) => Ok(
                self.with_completed(e, catalog.content_blocks[b], now).cascade(
                    catalog,
                    e,
                    catalog.content_blocks[b].module_id@,
                    now,
                ),
            ),
        }
    }

    /// The outcome of marking the content item `content_id` as viewed at
    /// `now` under the enrolment that `book_on` gives for `enrollment`: the
    /// view is recorded and the enrolment marked as active; or the error,
    /// when the item cannot be placed.
    pub open spec fn mark_viewed(
        self,
        catalog: CatalogState,
        enrollment: Option<Seq<char>>,
        content_id: Seq<char>,
        now: i64,
    ) -> Result<StoreState, StoreError> {
        match self.locate(catalog, enrollment, content_id) {
            Err(e) => Err(e),
            Ok((b, m, e)) => Ok(self.with_viewed(e, catalog.content_blocks[b], now).touched(e, now)),
        }
    }
}

/// Storing an attempt that the store admits keeps the store well formed.
pub proof fn lemma_attempt_stored(s: StoreState, row: QuizAttempt)
    requires
        s.wf(),
        s.admits_attempt(row),
    ensures
        (StoreState { quiz_attempts: upsert(s.quiz_attempts, row), ..s }).wf(),
{
    let after = StoreState { quiz_attempts: upsert(s.quiz_attempts, row), ..s };
    lemma_index_of(s.quiz_attempts, row.id@);
    lemma_upsert_unique(s.quiz_attempts, row);
    assert forall|i: int, j: int|
        0 <= i < j < after.quiz_attempts.len() && #[trigger] after.quiz_attempts[i].same_series(
            &after.quiz_attempts[j],
        ) implies after.quiz_attempts[i].attempt_number < after.quiz_attempts[j].attempt_number by {
        match index_of(s.quiz_attempts, row.id@) {
            Some(p) => {
                assert(s.quiz_attempts[p].same_series(&row));
                if i == p {
                    assert(s.quiz_attempts[i].same_series(&s.quiz_attempts[j]));
                } else if j == p {
                    assert(s.quiz_attempts[i].same_series(&s.quiz_attempts[j]));
                } else {
                    assert(s.quiz_attempts[i].same_series(&s.quiz_attempts[j]));
                }
            },
            None => {
                if j == s.quiz_attempts.len() {
                    assert(s.quiz_attempts[i].same_series(&row));
                } else {
                    assert(s.quiz_attempts[i].same_series(&s.quiz_attempts[j]));
                }
            },
        }
    }
}

/// Replacing an attempt by one of the same student, quiz, number and
/// identifier keeps the store well formed.
pub proof fn lemma_attempt_replaced(s: StoreState, i: int, row: QuizAttempt)
    requires
        s.wf(),
        0 <= i < s.quiz_attempts.len(),
        row.id@ == s.quiz_attempts[i].id@,
        row.same_series(&s.quiz_attempts[i]),
        row.attempt_number == s.quiz_attempts[i].attempt_number,
    ensures
        (StoreState { quiz_attempts: s.quiz_attempts.update(i, row), ..s }).wf(),
        s.admits_attempt(row),
        upsert(s.quiz_attempts, row) == s.quiz_attempts.update(i, row),
{
    lemma_index_of_unique(s.quiz_attempts, i);
    lemma_attempt_stored(s, row);
}

/// No more content items of a module are completed than the module has.
pub proof fn lemma_done_within_total(
    s: StoreState,
    catalog: CatalogState,
    enrollment_id: Seq<char>,
    module_id: Seq<char>,
    n: int,
)
    ensures
        s.done_upto(catalog, enrollment_id, module_id, n) <= catalog.content_upto(module_id, n),
        n >= 0 ==> catalog.content_upto(module_id, n) <= n,
        n <= 0 ==> catalog.content_upto(module_id, n) == 0,
    decreases n,
{
    if n > 0 {
        lemma_done_within_total(s, catalog, enrollment_id, module_id, n - 1);
    }
}

} // verus!
