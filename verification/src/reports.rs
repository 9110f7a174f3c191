//! What the progress store is asked: listings of a learner's progress, the
//! best score at a quiz, and the summary of a course.

use vstd::prelude::*;

use crate::catalog::{Catalog, CatalogState};
use crate::error::{Entity, StoreError};
use crate::listing::{is_ranking_of, rank_rows, Ranked};
use crate::model::{percentage, StoreState};
use crate::progress::{percent_of, ProgressStore};
use crate::records::{
    AttemptStatus, ContentBlock, ContentProgress, Module, ModuleProgress, ModuleStatus,
    QuizAnswer, QuizAttempt,
};
use crate::table::{index_of, lemma_take_ends, lemma_take_next};

verus! {

/// The content progress rows of the enrolment `enrollment_id`, as a
/// selection.
pub open spec fn of_enrollment(enrollment_id: Seq<char>) -> spec_fn(ContentProgress) -> bool {
    |row: ContentProgress| row.enrollment_id@ == enrollment_id
}

/// The attempts of the student `student_id` at the quiz `quiz_id`, as a
/// selection.
pub open spec fn of_series(quiz_id: Seq<char>, student_id: Seq<char>) -> spec_fn(QuizAttempt)
    -> bool {
    |attempt: QuizAttempt| attempt.quiz_id@ == quiz_id && attempt.student_id@ == student_id
}

/// `attempt` is a finished attempt of the student at the quiz, with a score.
pub open spec fn is_scored(attempt: QuizAttempt, quiz_id: Seq<char>, student_id: Seq<char>)
    -> bool {
    &&& attempt.quiz_id@ == quiz_id
    &&& attempt.student_id@ == student_id
    &&& attempt.status == AttemptStatus::Completed
    &&& attempt.score is Some
}

/// The number of rows among the first `n` that belong to the enrolment
/// `enrollment_id` and have the status `status`.
pub open spec fn status_upto(
    rows: Seq<ModuleProgress>,
    enrollment_id: Seq<char>,
    status: ModuleStatus,
    n: int,
) -> nat
    decreases n,
{
    if n <= 0 {
        0
    } else {
        status_upto(rows, enrollment_id, status, n - 1) + if rows[n - 1].enrollment_id@
            == enrollment_id && rows[n - 1].status == status {
            1nat
        } else {
            0nat
        }
    }
}

/// The number of modules that have the status `status` under the enrolment
/// `enrollment_id`.
pub open spec fn status_count(
    rows: Seq<ModuleProgress>,
    enrollment_id: Seq<char>,
    status: ModuleStatus,
) -> nat {
    status_upto(rows, enrollment_id, status, rows.len() as int)
}

/// The row at `i` is the one of the enrolment `enrollment_id` that was
/// updated last; of rows updated at the same time, the one stored first.
pub open spec fn last_touched(rows: Seq<ModuleProgress>, enrollment_id: Seq<char>, i: int) -> bool {
    &&& 0 <= i < rows.len()
    &&& rows[i].enrollment_id@ == enrollment_id
    &&& forall|j: int|
        0 <= j < rows.len() && (#[trigger] rows[j]).enrollment_id@ == enrollment_id && j != i ==> {
            ||| rows[j].updated_at < rows[i].updated_at
            ||| (rows[j].updated_at == rows[i].updated_at && i < j)
        }
}

/// Where a learner stands in a course.
#[derive(Debug, Clone, PartialEq, Eq)]
pub struct CourseProgressSummary {
    /// The modules of the course.
    pub total_modules: u64,
    /// The modules that the learner has completed.
    pub completed_modules: u64,
    /// The modules that the learner has begun.
    pub in_progress_modules: u64,
    /// The other modules. Below zero where the store holds progress on
    /// modules that the catalog does not know.
    pub not_started_modules: i128,
    /// The share of the modules that are completed, in percent.
    pub completion_percentage: u128,
    /// When the learner last worked on a module of the course.
    pub last_accessed_at: Option<i64>,
    /// The module that the learner last worked on.
    pub last_accessed_module_id: Option<String>,
}

impl ProgressStore {
    /// The content progress rows of the enrolment `enrollment_id`, the one
    /// created first first. Rows created at the same time come in the order
    /// in which they were first stored.
    pub fn get_content_progress(&self, enrollment_id: &str) -> (r: Vec<ContentProgress>)
        ensures
            is_ranking_of(r@, self@.content_progress.filter(of_enrollment(enrollment_id@))),
    {
        let rows = self.content_progress();
        let probe = enrollment_id.to_owned();
        let ghost pred = of_enrollment(enrollment_id@);
        let mut picked: Vec<ContentProgress> = Vec::new();
        let mut i: usize = 0;
        proof {
            lemma_take_ends(rows@, pred);
        }
        while i < rows.len()
            invariant
                i <= rows.len(),
                rows@ == self@.content_progress,
                probe@ == enrollment_id@,
                pred == of_enrollment(enrollment_id@),
                picked@ == rows@.take(i as int).filter(pred),
            decreases rows.len() - i,
        {
            proof {
                lemma_take_next(rows@, i as int);
                rows@.take(i as int).lemma_filter_push(rows@[i as int], pred);
            }
            if rows[i].enrollment_id == probe {
                picked.push(rows[i].duplicate());
            }
            i += 1;
        }
        proof {
            lemma_take_ends(rows@, pred);
        }
        rank_rows(picked)
    }

    /// The progress row of the content item `content_id` under the enrolment
    /// `enrollment_id`; `NotFound` when there is none.
    pub fn get_content_progress_by_content_id(&self, enrollment_id: &str, content_id: &str) -> (r:
        Result<ContentProgress, StoreError>)
        ensures
            match index_of(self@.content_progress, (enrollment_id@, content_id@)) {
                Some(i) => r == Ok::<ContentProgress, StoreError>(self@.content_progress[i]),
                None => r == Err::<ContentProgress, StoreError>(
                    StoreError::NotFound(Entity::ContentProgress),
                ),
            },
    {
        match self.find_content_progress(enrollment_id, content_id) {
            Some(i) => Ok(self.content_progress()[i].duplicate()),
            None => Err(StoreError::NotFound(Entity::ContentProgress)),
        }
    }

    /// The attempts of the student `student_id` at the quiz `quiz_id`, the
    /// latest attempt first.
    pub fn get_quiz_attempts(&self, quiz_id: &str, student_id: &str) -> (r: Vec<QuizAttempt>)
        ensures
            is_ranking_of(r@, self@.quiz_attempts.filter(of_series(quiz_id@, student_id@))),
    {
        let rows = self.quiz_attempts();
        let probe_q = quiz_id.to_owned();
        let probe_s = student_id.to_owned();
        let ghost pred = of_series(quiz_id@, student_id@);
        let mut picked: Vec<QuizAttempt> = Vec::new();
        let mut i: usize = 0;
        proof {
            lemma_take_ends(rows@, pred);
        }
        while i < rows.len()
            invariant
                i <= rows.len(),
                rows@ == self@.quiz_attempts,
                probe_q@ == quiz_id@,
                probe_s@ == student_id@,
                pred == of_series(quiz_id@, student_id@),
                picked@ == rows@.take(i as int).filter(pred),
            decreases rows.len() - i,
        {
            proof {
                lemma_take_next(rows@, i as int);
                rows@.take(i as int).lemma_filter_push(rows@[i as int], pred);
            }
            if rows[i].quiz_id == probe_q && rows[i].student_id == probe_s {
                picked.push(rows[i].duplicate());
            }
            i += 1;
        }
        proof {
            lemma_take_ends(rows@, pred);
        }
        rank_rows(picked)
    }

    /// The quiz attempt `attempt_id`; `NotFound` when the store has none.
    pub fn get_quiz_attempt_by_id(&self, attempt_id: &str) -> (r: Result<QuizAttempt, StoreError>)
        ensures
            match index_of(self@.quiz_attempts, attempt_id@) {
                Some(i) => r == Ok::<QuizAttempt, StoreError>(self@.quiz_attempts[i]),
                None => r == Err::<QuizAttempt, StoreError>(
                    StoreError::NotFound(Entity::QuizAttempt),
                ),
            },
    {
        match self.find_attempt(attempt_id) {
            Some(i) => Ok(self.quiz_attempts()[i].duplicate()),
            None => Err(StoreError::NotFound(Entity::QuizAttempt)),
        }
    }

    /// The best score that the student `student_id` has reached in a
    /// finished attempt at the quiz `quiz_id`; `None` where no finished
    /// attempt of that student at that quiz has a score.
    pub fn get_best_quiz_score(&self, quiz_id: &str, student_id: &str) -> (r: Option<i64>)
        ensures
            match r {
                Some(best) => {
                    &&& exists|i: int|
                        0 <= i < self@.quiz_attempts.len() && is_scored(
                            #[trigger] self@.quiz_attempts[i],
                            quiz_id@,
                            student_id@,
                        ) && self@.quiz_attempts[i].score == Some(best)
                    &&& forall|i: int|
                        0 <= i < self@.quiz_attempts.len() && is_scored(
                            #[trigger] self@.quiz_attempts[i],
                            quiz_id@,
                            student_id@,
                        ) ==> self@.quiz_attempts[i].score->0 <= best
                },
                None => forall|i: int|
                    0 <= i < self@.quiz_attempts.len() ==> !is_scored(
                        #[trigger] self@.quiz_attempts[i],
                        quiz_id@,
                        student_id@,
                    ),
            },
    {
        let rows = self.quiz_attempts();
        let probe_q = quiz_id.to_owned();
        let probe_s = student_id.to_owned();
        let mut best: Option<i64> = None;
        let mut i: usize = 0;
        while i < rows.len()
            invariant
                i <= rows.len(),
                rows@ == self@.quiz_attempts,
                probe_q@ == quiz_id@,
                probe_s@ == student_id@,
                match best {
                    Some(b) => {
                        &&& exists|j: int|
                            0 <= j < i && is_scored(#[trigger] rows@[j], quiz_id@, student_id@)
                                && rows@[j].score == Some(b)
                        &&& forall|j: int|
                            0 <= j < i && is_scored(#[trigger] rows@[j], quiz_id@, student_id@)
                                ==> rows@[j].score->0 <= b
                    },
                    None => forall|j: int|
                        0 <= j < i ==> !is_scored(#[trigger] rows@[j], quiz_id@, student_id@),
                },
            decreases rows.len() - i,
        {
            let row = &rows[i];
            let finished = match row.status {
                AttemptStatus::Completed => true,
                AttemptStatus::InProgress => false,
            };
            if finished && row.quiz_id == probe_q && row.student_id == probe_s {
                match row.score {
                    Some(score) => {
                        assert(is_scored(rows@[i as int], quiz_id@, student_id@));
                        match best {
                            Some(b) => {
                                if score > b {
                                    best = Some(score);
                                }
                            },
                            None => {
                                best = Some(score);
                            },
                        }
                    },
                    None => {},
                }
            }
            i += 1;
        }
        best
    }

    /// The number of modules that have the status `status` under the
    /// enrolment `enrollment_id`.
    pub fn count_modules_with_status(&self, enrollment_id: &str, status: ModuleStatus) -> (r: usize)
        ensures
            r == status_count(self@.module_progress, enrollment_id@, status),
    {
        let rows = self.module_progress();
        let probe = enrollment_id.to_owned();
        let mut n: usize = 0;
        let mut i: usize = 0;
        while i < rows.len()
            invariant
                i <= rows.len(),
                rows@ == self@.module_progress,
                probe@ == enrollment_id@,
                n <= i,
                n == status_upto(rows@, enrollment_id@, status, i as int),
            decreases rows.len() - i,
        {
            if rows[i].enrollment_id == probe && rows[i].status == status {
                n += 1;
            }
            i += 1;
        }
        n
    }

    /// Where the module progress row of the enrolment `enrollment_id` is
    /// that was updated last.
    pub fn find_last_touched(&self, enrollment_id: &str) -> (r: Option<usize>)
        ensures
            match r {
                Some(i) => last_touched(self@.module_progress, enrollment_id@, i as int),
                None => forall|j: int|
                    0 <= j < self@.module_progress.len() ==> (
                    #[trigger] self@.module_progress[j]).enrollment_id@ != enrollment_id@,
            },
    {
        let rows = self.module_progress();
        let probe = enrollment_id.to_owned();
        let mut best: Option<usize> = None;
        let mut i: usize = 0;
        while i < rows.len()
            invariant
                i <= rows.len(),
                rows@ == self@.module_progress,
                probe@ == enrollment_id@,
                match best {
                    Some(b) => {
                        &&& b < i
                        &&& rows@[b as int].enrollment_id@ == enrollment_id@
                        &&& forall|j: int|
                            0 <= j < i && (#[trigger] rows@[j]).enrollment_id@ == enrollment_id@
                                && j != b ==> {
                                ||| rows@[j].updated_at < rows@[b as int].updated_at
                                ||| (rows@[j].updated_at == rows@[b as int].updated_at && b < j)
                            }
                    },
                    None => forall|j: int|
                        0 <= j < i ==> (#[trigger] rows@[j]).enrollment_id@ != enrollment_id@,
                },
            decreases rows.len() - i,
        {
            if rows[i].enrollment_id == probe {
                match best {
                    Some(b) => {
                        if rows[i].updated_at > rows[b].updated_at {
                            best = Some(i);
                        }
                    },
                    None => {
                        best = Some(i);
                    },
                }
            }
            i += 1;
        }
        best
    }

    /// Where the learner of the enrolment `enrollment_id` stands in the
    /// course: how many modules the course has, how many of them are
    /// completed and begun, the share of the completed ones, and the module
    /// worked on last. `NotFound` when the store does not have the
    /// enrolment.
    pub fn get_course_progress_summary(&self, catalog: &Catalog, enrollment_id: &str) -> (r: Result<
        CourseProgressSummary,
        StoreError,
    >)
        ensures
            match index_of(self@.enrollments, enrollment_id@) {
                None => r == Err::<CourseProgressSummary, StoreError>(
                    StoreError::NotFound(Entity::Enrollment),
                ),
                Some(e) => r matches Ok(summary) && {
                    let rows = self@.module_progress;
                    &&& summary.total_modules == catalog@.module_count(
                        self@.enrollments[e].course_id@,
                    )
                    &&& summary.completed_modules == status_count(
                        rows,
                        enrollment_id@,
                        ModuleStatus::Completed,
                    )
                    &&& summary.in_progress_modules == status_count(
                        rows,
                        enrollment_id@,
                        ModuleStatus::InProgress,
                    )
                    &&& summary.not_started_modules == summary.total_modules
                        - summary.completed_modules - summary.in_progress_modules
                    &&& summary.completion_percentage == percentage(
                        summary.completed_modules as nat,
                        summary.total_modules as nat,
                    )
                    &&& match summary.last_accessed_module_id {
                        Some(module_id) => exists|i: int|
                            #![trigger rows[i]]
                            last_touched(rows, enrollment_id@, i) && module_id == rows[i].module_id
                                && summary.last_accessed_at == Some(rows[i].updated_at),
                        None => summary.last_accessed_at is None && forall|j: int|
                            0 <= j < rows.len() ==> (#[trigger] rows[j]).enrollment_id@
                                != enrollment_id@,
                    }
                },
            },
    {
        let e = match self.find_enrollment(enrollment_id) {
            Some(e) => e,
            None => {
                return Err(StoreError::NotFound(Entity::Enrollment));
            },
        };
        let total = catalog.count_modules(self.enrollments()[e].course_id.as_str()) as u64;
        let completed = self.count_modules_with_status(enrollment_id, ModuleStatus::Completed) as u64;
        let begun = self.count_modules_with_status(enrollment_id, ModuleStatus::InProgress) as u64;
        let (last_at, last_module) = match self.find_last_touched(enrollment_id) {
            Some(i) => {
                let row = &self.module_progress()[i];
                (Some(row.updated_at), Some(row.module_id.clone()))
            },
            None => (None, None),
        };
        Ok(
            CourseProgressSummary {
                total_modules: total,
                completed_modules: completed,
                in_progress_modules: begun,
                not_started_modules: total as i128 - completed as i128 - begun as i128,
                completion_percentage: percent_of(completed, total),
                last_accessed_at: last_at,
                last_accessed_module_id: last_module,
            },
        )
    }
}

/// A content item together with the learner's progress on it, if any.
#[derive(Debug, Clone, PartialEq, Eq)]
pub struct ContentView {
    pub block: ContentBlock,
    pub progress: Option<ContentProgress>,
}

impl Ranked for ContentView {
    /// In the order of the module's content.
    open spec fn rank(&self) -> int {
        self.block.order_index as int
    }

    fn comes_before(&self, other: &Self) -> (r: bool) {
        self.block.order_index < other.block.order_index
    }
}

/// A module progress row together with its module.
#[derive(Debug, Clone, PartialEq, Eq)]
pub struct ModuleProgressView {
    pub progress: ModuleProgress,
    pub module: Module,
}

impl Ranked for ModuleProgressView {
    /// In the order of the course's modules.
    open spec fn rank(&self) -> int {
        self.module.order_index as int
    }

    fn comes_before(&self, other: &Self) -> (r: bool) {
        self.module.order_index < other.module.order_index
    }
}

/// An answer together with the place of its question in the quiz.
#[derive(Debug, Clone, PartialEq, Eq)]
pub struct AnswerView {
    pub answer: QuizAnswer,
    pub order_index: i64,
}

impl Ranked for AnswerView {
    /// In the order of the quiz's questions.
    open spec fn rank(&self) -> int {
        self.order_index as int
    }

    fn comes_before(&self, other: &Self) -> (r: bool) {
        self.order_index < other.order_index
    }
}

/// How the content item `block` is shown in a listing of the module
/// `module_id` for the enrolment `enrollment_id`: not at all if it belongs
/// to another module; else with the progress row of that enrolment, if an
/// enrolment is given and has one.
pub open spec fn shown_content(
    s: StoreState,
    module_id: Seq<char>,
    enrollment_id: Option<Seq<char>>,
    block: ContentBlock,
) -> Option<ContentView> {
    if block.module_id@ == module_id {
        Some(
            ContentView {
                block,
                progress: match enrollment_id {
                    Some(e) => match index_of(s.content_progress, (e, block.id@)) {
                        Some(i) => Some(s.content_progress[i]),
                        None => None,
                    },
                    None => None,
                },
            },
        )
    } else {
        None
    }
}

/// `shown_content` as a mapping of content items.
pub open spec fn content_shown(s: StoreState, module_id: Seq<char>, enrollment_id: Option<Seq<char>>)
    -> spec_fn(ContentBlock) -> Option<ContentView> {
    |block: ContentBlock| shown_content(s, module_id, enrollment_id, block)
}

/// How the module progress row `row` is shown in a listing for the
/// enrolment `enrollment_id`: not at all if it belongs to another enrolment
/// or to a module that the catalog does not know; else with its module.
pub open spec fn shown_progress(catalog: CatalogState, enrollment_id: Seq<char>, row: ModuleProgress)
    -> Option<ModuleProgressView> {
    if row.enrollment_id@ == enrollment_id {
        match index_of(catalog.modules, row.module_id@) {
            Some(m) => Some(ModuleProgressView { progress: row, module: catalog.modules[m] }),
            None => None,
        }
    } else {
        None
    }
}

/// `shown_progress` as a mapping of module progress rows.
pub open spec fn progress_shown(catalog: CatalogState, enrollment_id: Seq<char>) -> spec_fn(
    ModuleProgress,
) -> Option<ModuleProgressView> {
    |row: ModuleProgress| shown_progress(catalog, enrollment_id, row)
}

/// How the answer `answer` is shown in a listing of the attempt
/// `attempt_id`: not at all if it belongs to another attempt or to a question
/// that the catalog does not know; else with the place of its question.
pub open spec fn shown_answer(catalog: CatalogState, attempt_id: Seq<char>, answer: QuizAnswer)
    -> Option<AnswerView> {
    if answer.attempt_id@ == attempt_id {
        match index_of(catalog.questions, answer.question_id@) {
            Some(q) => Some(AnswerView { answer, order_index: catalog.questions[q].order_index }),
            None => None,
        }
    } else {
        None
    }
}

/// `shown_answer` as a mapping of answers.
pub open spec fn answers_shown(catalog: CatalogState, attempt_id: Seq<char>) -> spec_fn(QuizAnswer)
    -> Option<AnswerView> {
    |answer: QuizAnswer| shown_answer(catalog, attempt_id, answer)
}

/// Mapping one row more adds what the row is mapped to, if anything.
proof fn lemma_mapped_next<A, B>(rows: Seq<A>, f: spec_fn(A) -> Option<B>, i: int)
    requires
        0 <= i < rows.len(),
    ensures
        rows.take(i + 1).filter_map(f) == match f(rows[i]) {
            Some(x) => rows.take(i).filter_map(f).push(x),
            None => rows.take(i).filter_map(f),
        },
{
    rows.lemma_filter_map_take_succ(f, i);
    let before = rows.take(i).filter_map(f);
    match f(rows[i]) {
        Some(x) => {
            assert(before + seq![x] =~= before.push(x));
        },
        None => {
            assert(before + Seq::<B>::empty() =~= before);
        },
    }
}

/// Mapping no rows gives none.
proof fn lemma_mapped_none<A, B>(rows: Seq<A>, f: spec_fn(A) -> Option<B>)
    ensures
        rows.take(0).filter_map(f) == Seq::<B>::empty(),
        rows.take(rows.len() as int) == rows,
{
    assert(rows.take(0) =~= Seq::<A>::empty());
    assert(rows.take(rows.len() as int) =~= rows);
}

impl ProgressStore {
    /// The content of the module `module_id` in its order, each item with
    /// the learner's progress on it. The learner's enrolment is the one that
    /// events in the module's course are booked on; where there is none, the
    /// items come without progress. `NotFound` when the catalog does not know
    /// the module. Items with the same place come in the order in which they
    /// were first stored.
    pub fn get_module_content(&self, catalog: &Catalog, module_id: &str) -> (r: Result<
        Vec<ContentView>,
        StoreError,
    >)
        ensures
            match index_of(catalog@.modules, module_id@) {
                None => r == Err::<Vec<ContentView>, StoreError>(
                    StoreError::NotFound(Entity::Module),
                ),
                Some(m) => r matches Ok(list) && {
                    let enrollment_id = match self@.resolve_enrollment(
                        catalog@.modules[m].course_id@,
                        None,
                    ) {
                        Some(e) => Some(self@.enrollments[e].id@),
                        None => None,
                    };
                    is_ranking_of(
                        list@,
                        catalog@.content_blocks.filter_map(
                            content_shown(self@, module_id@, enrollment_id),
                        ),
                    )
                },
            },
    {
        let m = match catalog.find_module(module_id) {
            Some(m) => m,
            None => {
                return Err(StoreError::NotFound(Entity::Module));
            },
        };
        let enrollment = self.resolve_enrollment(catalog.modules()[m].course_id.as_str(), None);
        let ghost enrollment_id = match enrollment {
            Some(e) => Some(self@.enrollments[e as int].id@),
            None => None,
        };
        let ghost f = content_shown(self@, module_id@, enrollment_id);
        let blocks = catalog.content_blocks();
        let probe = module_id.to_owned();
        let mut picked: Vec<ContentView> = Vec::new();
        let mut i: usize = 0;
        proof {
            lemma_mapped_none(blocks@, f);
        }
        while i < blocks.len()
            invariant
                i <= blocks.len(),
                blocks@ == catalog@.content_blocks,
                probe@ == module_id@,
                f == content_shown(self@, module_id@, enrollment_id),
                enrollment_id == match enrollment {
                    Some(e) => Some(self@.enrollments[e as int].id@),
                    None => None,
                },
                enrollment matches Some(e) ==> e < self@.enrollments.len(),
                picked@ == blocks@.take(i as int).filter_map(f),
            decreases blocks.len() - i,
        {
            proof {
                lemma_mapped_next(blocks@, f, i as int);
            }
            if blocks[i].module_id == probe {
                let progress = match enrollment {
                    Some(e) => match self.find_content_progress(
                        self.enrollments()[e].id.as_str(),
                        blocks[i].id.as_str(),
                    ) {
                        Some(p) => Some(self.content_progress()[p].duplicate()),
                        None => None,
                    },
                    None => None,
                };
                picked.push(ContentView { block: blocks[i].duplicate(), progress });
            }
            i += 1;
        }
        proof {
            lemma_mapped_none(blocks@, f);
        }
        Ok(rank_rows(picked))
    }

    /// The module progress rows of the enrolment `enrollment_id`, each with
    /// its module, in the order of the course's modules. Rows on modules that
    /// the catalog does not know are left out. Modules with the same place
    /// come in the order in which their rows were first stored.
    pub fn get_enrollment_progress(&self, catalog: &Catalog, enrollment_id: &str) -> (r: Vec<
        ModuleProgressView,
    >)
        ensures
            is_ranking_of(
                r@,
                self@.module_progress.filter_map(progress_shown(catalog@, enrollment_id@)),
            ),
    {
        let rows = self.module_progress();
        let probe = enrollment_id.to_owned();
        let ghost f = progress_shown(catalog@, enrollment_id@);
        let mut picked: Vec<ModuleProgressView> = Vec::new();
        let mut i: usize = 0;
        proof {
            lemma_mapped_none(rows@, f);
        }
        while i < rows.len()
            invariant
                i <= rows.len(),
                rows@ == self@.module_progress,
                probe@ == enrollment_id@,
                f == progress_shown(catalog@, enrollment_id@),
                picked@ == rows@.take(i as int).filter_map(f),
            decreases rows.len() - i,
        {
            proof {
                lemma_mapped_next(rows@, f, i as int);
            }
            if rows[i].enrollment_id == probe {
                match catalog.find_module(rows[i].module_id.as_str()) {
                    Some(m) => {
                        picked.push(
                            ModuleProgressView {
                                progress: rows[i].duplicate(),
                                module: catalog.modules()[m].duplicate(),
                            },
                        );
                    },
                    None => {},
                }
            }
            i += 1;
        }
        proof {
            lemma_mapped_none(rows@, f);
        }
        rank_rows(picked)
    }

    /// The answers given in the attempt `attempt_id`, in the order of the
    /// quiz's questions. Answers to questions that the catalog does not know
    /// are left out. Answers to questions with the same place come in the
    /// order in which they were first stored.
    pub fn get_attempt_answers(&self, catalog: &Catalog, attempt_id: &str) -> (r: Vec<AnswerView>)
        ensures
            is_ranking_of(r@, self@.quiz_answers.filter_map(answers_shown(catalog@, attempt_id@))),
    {
        let rows = self.quiz_answers();
        let probe = attempt_id.to_owned();
        let ghost f = answers_shown(catalog@, attempt_id@);
        let mut picked: Vec<AnswerView> = Vec::new();
        let mut i: usize = 0;
        proof {
            lemma_mapped_none(rows@, f);
        }
        while i < rows.len()
            invariant
                i <= rows.len(),
                rows@ == self@.quiz_answers,
                probe@ == attempt_id@,
                f == answers_shown(catalog@, attempt_id@),
                picked@ == rows@.take(i as int).filter_map(f),
            decreases rows.len() - i,
        {
            proof {
                lemma_mapped_next(rows@, f, i as int);
            }
            if rows[i].attempt_id == probe {
                match catalog.find_question(rows[i].question_id.as_str()) {
                    Some(q) => {
                        picked.push(
                            AnswerView {
                                answer: rows[i].duplicate(),
                                order_index: catalog.questions()[q].order_index,
                            },
                        );
                    },
                    None => {},
                }
            }
            i += 1;
        }
        proof {
            lemma_mapped_none(rows@, f);
        }
        rank_rows(picked)
    }
}

/// The number of answers among the first `n` that belong to the attempt
/// `attempt_id`; with `correct_only`, of those only the correct ones.
pub open spec fn answers_upto(
    answers: Seq<QuizAnswer>,
    attempt_id: Seq<char>,
    correct_only: bool,
    n: int,
) -> nat
    decreases n,
{
    if n <= 0 {
        0
    } else {
        answers_upto(answers, attempt_id, correct_only, n - 1) + if answers[n - 1].attempt_id@
            == attempt_id && (!correct_only || answers[n - 1].is_correct) {
            1nat
        } else {
            0nat
        }
    }
}

/// The points earned by the answers among the first `n` that belong to the
/// attempt `attempt_id`, in hundredths of a point.
pub open spec fn earned_upto(answers: Seq<QuizAnswer>, attempt_id: Seq<char>, n: int) -> nat
    decreases n,
{
    if n <= 0 {
        0
    } else {
        earned_upto(answers, attempt_id, n - 1) + if answers[n - 1].attempt_id@ == attempt_id {
            answers[n - 1].points_earned as nat
        } else {
            0nat
        }
    }
}

/// The share of `possible` that `earned` is, in hundredths of a percent,
/// rounded to the nearest, halves upwards; 0 when `possible` is 0.
pub open spec fn score_share(earned: nat, possible: nat) -> nat {
    if possible > 0 {
        ((20000 * earned + possible) / (2 * possible)) as nat
    } else {
        0
    }
}

/// The result of an attempt, added up from its answers. Points are in
/// hundredths of a point, the percentage in hundredths of a percent.
#[derive(Debug, Clone, Copy, PartialEq, Eq, Structural)]
pub struct AttemptScore {
    pub total_questions: usize,
    pub correct_answers: usize,
    pub points_earned: u128,
    pub points_possible: u128,
    pub percentage: u128,
}

impl ProgressStore {
    /// The result of the attempt `attempt_id`: how many questions were
    /// answered and how many of them correctly, the points earned, the points
    /// that the quiz has to give, and the share earned. An attempt that the
    /// store does not hold, or on a quiz without questions, has no points to
    /// give and a share of 0.
    pub fn calculate_attempt_score(&self, catalog: &Catalog, attempt_id: &str) -> (r: AttemptScore)
        ensures
            r.total_questions == answers_upto(
                self@.quiz_answers,
                attempt_id@,
                false,
                self@.quiz_answers.len() as int,
            ),
            r.correct_answers == answers_upto(
                self@.quiz_answers,
                attempt_id@,
                true,
                self@.quiz_answers.len() as int,
            ),
            r.points_earned == earned_upto(
                self@.quiz_answers,
                attempt_id@,
                self@.quiz_answers.len() as int,
            ),
            r.points_possible == match index_of(self@.quiz_attempts, attempt_id@) {
                Some(a) => catalog@.points_possible(self@.quiz_attempts[a].quiz_id@),
                None => 0nat,
            },
            r.percentage == score_share(r.points_earned as nat, r.points_possible as nat),
    {
        let rows = self.quiz_answers();
        let probe = attempt_id.to_owned();
        let mut answered: usize = 0;
        let mut correct: usize = 0;
        let mut earned: u128 = 0;
        let mut i: usize = 0;
        while i < rows.len()
            invariant
                i <= rows.len(),
                rows@ == self@.quiz_answers,
                probe@ == attempt_id@,
                answered <= i,
                correct <= i,
                earned <= i * 0xffff_ffff,
                answered == answers_upto(rows@, attempt_id@, false, i as int),
                correct == answers_upto(rows@, attempt_id@, true, i as int),
                earned == earned_upto(rows@, attempt_id@, i as int),
            decreases rows.len() - i,
        {
            if rows[i].attempt_id == probe {
                answered += 1;
                if rows[i].is_correct {
                    correct += 1;
                }
                earned = earned + rows[i].points_earned as u128;
            }
            i += 1;
        }
        let asked = catalog.questions().len();
        let possible: u128 = match self.find_attempt(attempt_id) {
            Some(a) => {
                let sum = catalog.sum_points(self.quiz_attempts()[a].quiz_id.as_str());
                assert(sum <= asked * 0xffff_ffff) by {
                    lemma_points_bounded(
                        catalog@,
                        self@.quiz_attempts[a as int].quiz_id@,
                        asked as int,
                    );
                }
                sum
            },
            None => 0,
        };
        let percentage: u128 = if possible > 0 {
            assert(earned <= 0xffff_ffff_ffff_ffff * 0xffff_ffff) by (nonlinear_arith)
                requires
                    earned <= i * 0xffff_ffff,
                    i <= 0xffff_ffff_ffff_ffff,
            ;
            assert(possible <= 0xffff_ffff_ffff_ffff * 0xffff_ffff) by (nonlinear_arith)
                requires
                    possible <= asked * 0xffff_ffff,
                    asked <= 0xffff_ffff_ffff_ffff,
            ;
            (20000 * earned + possible) / (2 * possible)
        } else {
            0
        };
        AttemptScore {
            total_questions: answered,
            correct_answers: correct,
            points_earned: earned,
            points_possible: possible,
            percentage,
        }
    }
}

/// The points of `n` questions are at most `n` times the most that one
/// question can give.
proof fn lemma_points_bounded(catalog: CatalogState, quiz_id: Seq<char>, n: int)
    requires
        0 <= n,
    ensures
        catalog.points_upto(quiz_id, n) <= n * 0xffff_ffff,
    decreases n,
{
    if n > 0 {
        lemma_points_bounded(catalog, quiz_id, n - 1);
    }
}

} // verus!
