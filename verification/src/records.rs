//! The rows that the catalog and the progress store hold.

use vstd::prelude::*;
use vstd::string::StringExecFns;

use crate::listing::Ranked;
use crate::table::Keyed;

verus! {

/// How far a learner is with a module. The order of the variants is the
/// order in which a module moves through them.
#[derive(Debug, Clone, Copy, PartialEq, Eq, Structural)]
pub enum ModuleStatus {
    NotStarted,
    InProgress,
    Completed,
}

impl ModuleStatus {
    /// The position of the status in a module's life: 0, 1 or 2.
    pub open spec fn rank(self) -> int {
        match self {
            ModuleStatus::NotStarted => 0,
            ModuleStatus::InProgress => 1,
            ModuleStatus::Completed => 2,
        }
    }

    /// The status that a text names.
    pub open spec fn named_by(text: Seq<char>) -> Option<ModuleStatus> {
        if text == "not_started"@ {
            Some(ModuleStatus::NotStarted)
        } else if text == "in_progress"@ {
            Some(ModuleStatus::InProgress)
        } else if text == "completed"@ {
            Some(ModuleStatus::Completed)
        } else {
            None
        }
    }

    /// Reads a status from its name: `not_started`, `in_progress` or
    /// `completed`. Any other text is `None`.
    pub fn parse(text: &str) -> (r: Option<ModuleStatus>)
        ensures
            r == ModuleStatus::named_by(text@),
    {
        let given = text.to_owned();
        if given == "not_started".to_owned() {
            Some(ModuleStatus::NotStarted)
        } else if given == "in_progress".to_owned() {
            Some(ModuleStatus::InProgress)
        } else if given == "completed".to_owned() {
            Some(ModuleStatus::Completed)
        } else {
            None
        }
    }

    /// The name of the status.
    pub fn as_text(&self) -> (r: &'static str)
        ensures
            ModuleStatus::named_by(r@) == Some(*self),
    {
        proof {
            reveal_strlit("not_started");
            reveal_strlit("in_progress");
            reveal_strlit("completed");
            assert("not_started"@[0] != "in_progress"@[0]);
            assert("not_started"@[0] != "completed"@[0]);
            assert("in_progress"@[0] != "completed"@[0]);
        }
        match self {
            ModuleStatus::NotStarted => "not_started",
            ModuleStatus::InProgress => "in_progress",
            ModuleStatus::Completed => "completed",
        }
    }

    /// Whether moving from `self` to `next` would take the module backwards.
    pub fn regresses_to(&self, next: &ModuleStatus) -> (r: bool)
        ensures
            r == (next.rank() < self.rank()),
    {
        match (self, next) {
            (ModuleStatus::InProgress, ModuleStatus::NotStarted) => true,
            (ModuleStatus::Completed, ModuleStatus::NotStarted) => true,
            (ModuleStatus::Completed, ModuleStatus::InProgress) => true,
            _ => false,
        }
    }
}

/// Whether a quiz attempt is still being taken.
#[derive(Debug, Clone, Copy, PartialEq, Eq, Structural)]
pub enum AttemptStatus {
    InProgress,
    Completed,
}

impl AttemptStatus {
    /// The status that a text names.
    pub open spec fn named_by(text: Seq<char>) -> Option<AttemptStatus> {
        if text == "in_progress"@ {
            Some(AttemptStatus::InProgress)
        } else if text == "completed"@ {
            Some(AttemptStatus::Completed)
        } else {
            None
        }
    }

    /// Reads a status from its name: `in_progress` or `completed`. Any other
    /// text is `None`.
    pub fn parse(text: &str) -> (r: Option<AttemptStatus>)
        ensures
            r == AttemptStatus::named_by(text@),
    {
        let given = text.to_owned();
        if given == "in_progress".to_owned() {
            Some(AttemptStatus::InProgress)
        } else if given == "completed".to_owned() {
            Some(AttemptStatus::Completed)
        } else {
            None
        }
    }

    /// The name of the status.
    pub fn as_text(&self) -> (r: &'static str)
        ensures
            AttemptStatus::named_by(r@) == Some(*self),
    {
        proof {
            reveal_strlit("in_progress");
            reveal_strlit("completed");
            assert("in_progress"@[0] != "completed"@[0]);
        }
        match self {
            AttemptStatus::InProgress => "in_progress",
            AttemptStatus::Completed => "completed",
        }
    }
}

/// The place of a row in its list: the value sent as `order`, or else the
/// one sent as `order_index`.
pub fn order_of(order: Option<i64>, order_index: Option<i64>) -> (r: Option<i64>)
    ensures
        r == match order {
            Some(o) => Some(o),
            None => order_index,
        },
{
    match order {
        Some(o) => Some(o),
        None => order_index,
    }
}

/// The image of a course: where the course came with an image record, that
/// record's identifier, if it has one; else the identifier that the course
/// names itself.
pub fn course_image_id(has_image: bool, image_record_id: Option<String>, image_id: Option<String>)
    -> (r: Option<String>)
    ensures
        r == if has_image {
            image_record_id
        } else {
            image_id
        },
{
    if has_image {
        image_record_id
    } else {
        image_id
    }
}

/// The identifier under which the progress on the content item `content_id`
/// under the enrolment `enrollment_id` is kept: `cp_`, the enrolment, `_`,
/// the content item.
pub fn content_progress_id(enrollment_id: &str, content_id: &str) -> (r: String)
    ensures
        r@ == "cp_"@ + enrollment_id@ + "_"@ + content_id@,
{
    let mut id = "cp_".to_owned();
    id.append(enrollment_id);
    id.append("_");
    id.append(content_id);
    id
}

/// A user known on this device.
#[derive(Debug, Clone, PartialEq, Eq)]
pub struct Student {
    pub id: String,
}

impl Keyed for Student {
    type Key = Seq<char>;

    open spec fn key(&self) -> Seq<char> {
        self.id@
    }

    fn same_key(&self, other: &Self) -> (r: bool) {
        self.id == other.id
    }
}

impl Student {
    /// A copy of the row.
    pub fn duplicate(&self) -> (r: Student)
        ensures
            r == *self,
    {
        Student { id: self.id.clone() }
    }
}

/// A student's enrolment in a course: the root of that student's progress in
/// the course. `updated_at` is the time of the last activity.
#[derive(Debug, Clone, PartialEq, Eq)]
pub struct Enrollment {
    pub id: String,
    pub student_id: String,
    pub course_id: String,
    pub created_at: i64,
    pub updated_at: i64,
}

impl Keyed for Enrollment {
    type Key = Seq<char>;

    open spec fn key(&self) -> Seq<char> {
        self.id@
    }

    fn same_key(&self, other: &Self) -> (r: bool) {
        self.id == other.id
    }
}

impl Enrollment {
    /// A copy of the row.
    pub fn duplicate(&self) -> (r: Enrollment)
        ensures
            r == *self,
    {
        Enrollment {
            id: self.id.clone(),
            student_id: self.student_id.clone(),
            course_id: self.course_id.clone(),
            created_at: self.created_at,
            updated_at: self.updated_at,
        }
    }
}

/// A module of a course, as far as the progress rules read it.
#[derive(Debug, Clone, PartialEq, Eq)]
pub struct Module {
    pub id: String,
    pub course_id: String,
    pub order_index: i64,
    pub has_quiz: bool,
}

impl Keyed for Module {
    type Key = Seq<char>;

    open spec fn key(&self) -> Seq<char> {
        self.id@
    }

    fn same_key(&self, other: &Self) -> (r: bool) {
        self.id == other.id
    }
}

impl Ranked for Module {
    /// In the order of the course's modules.
    open spec fn rank(&self) -> int {
        self.order_index as int
    }

    fn comes_before(&self, other: &Self) -> (r: bool) {
        self.order_index < other.order_index
    }
}

impl Module {
    /// A copy of the row.
    pub fn duplicate(&self) -> (r: Module)
        ensures
            r == *self,
    {
        Module {
            id: self.id.clone(),
            course_id: self.course_id.clone(),
            order_index: self.order_index,
            has_quiz: self.has_quiz,
        }
    }
}

/// A content item of a module.
#[derive(Debug, Clone, PartialEq, Eq)]
pub struct ContentBlock {
    pub id: String,
    pub module_id: String,
    pub order_index: i64,
}

impl Keyed for ContentBlock {
    type Key = Seq<char>;

    open spec fn key(&self) -> Seq<char> {
        self.id@
    }

    fn same_key(&self, other: &Self) -> (r: bool) {
        self.id == other.id
    }
}

impl ContentBlock {
    /// A copy of the row.
    pub fn duplicate(&self) -> (r: ContentBlock)
        ensures
            r == *self,
    {
        ContentBlock {
            id: self.id.clone(),
            module_id: self.module_id.clone(),
            order_index: self.order_index,
        }
    }
}

/// A quiz. A module quiz names its module; a course-level exam names none.
#[derive(Debug, Clone, PartialEq, Eq)]
pub struct Quiz {
    pub id: String,
    pub module_id: Option<String>,
}

impl Keyed for Quiz {
    type Key = Seq<char>;

    open spec fn key(&self) -> Seq<char> {
        self.id@
    }

    fn same_key(&self, other: &Self) -> (r: bool) {
        self.id == other.id
    }
}

impl Quiz {
    /// The quiz belongs to the module `module_id`.
    pub open spec fn is_for(&self, module_id: Seq<char>) -> bool {
        self.module_id matches Some(m) && m@ == module_id
    }

    /// A copy of the row.
    pub fn duplicate(&self) -> (r: Quiz)
        ensures
            r == *self,
    {
        let module_id = match &self.module_id {
            Some(m) => Some(m.clone()),
            None => None,
        };
        Quiz { id: self.id.clone(), module_id }
    }
}

/// A question of a quiz. `points` is what a right answer earns, in
/// hundredths of a point.
#[derive(Debug, Clone, PartialEq, Eq)]
pub struct Question {
    pub id: String,
    pub quiz_id: String,
    pub order_index: i64,
    pub points: u32,
}

impl Keyed for Question {
    type Key = Seq<char>;

    open spec fn key(&self) -> Seq<char> {
        self.id@
    }

    fn same_key(&self, other: &Self) -> (r: bool) {
        self.id == other.id
    }
}

impl Ranked for Question {
    /// In the order of the quiz's questions.
    open spec fn rank(&self) -> int {
        self.order_index as int
    }

    fn comes_before(&self, other: &Self) -> (r: bool) {
        self.order_index < other.order_index
    }
}

impl Question {
    /// A copy of the row.
    pub fn duplicate(&self) -> (r: Question)
        ensures
            r == *self,
    {
        Question {
            id: self.id.clone(),
            quiz_id: self.quiz_id.clone(),
            order_index: self.order_index,
            points: self.points,
        }
    }
}

/// A learner's progress on one content item: one row for each pair of
/// enrolment and content item.
#[derive(Debug, Clone, PartialEq, Eq)]
pub struct ContentProgress {
    pub enrollment_id: String,
    pub content_id: String,
    pub is_completed: bool,
    pub viewed_at: Option<i64>,
    pub completed_at: Option<i64>,
    pub created_at: i64,
    pub updated_at: i64,
}

impl Keyed for ContentProgress {
    type Key = (Seq<char>, Seq<char>);

    open spec fn key(&self) -> (Seq<char>, Seq<char>) {
        (self.enrollment_id@, self.content_id@)
    }

    fn same_key(&self, other: &Self) -> (r: bool) {
        self.enrollment_id == other.enrollment_id && self.content_id == other.content_id
    }
}

impl Ranked for ContentProgress {
    /// The row created first comes first.
    open spec fn rank(&self) -> int {
        self.created_at as int
    }

    fn comes_before(&self, other: &Self) -> (r: bool) {
        self.created_at < other.created_at
    }
}

impl ContentProgress {
    /// A copy of the row.
    pub fn duplicate(&self) -> (r: ContentProgress)
        ensures
            r == *self,
    {
        ContentProgress {
            enrollment_id: self.enrollment_id.clone(),
            content_id: self.content_id.clone(),
            is_completed: self.is_completed,
            viewed_at: self.viewed_at,
            completed_at: self.completed_at,
            created_at: self.created_at,
            updated_at: self.updated_at,
        }
    }
}

/// A learner's progress on one module: one row for each pair of enrolment
/// and module. `id` is the record's name on the remote side and is carried
/// through untouched.
#[derive(Debug, Clone, PartialEq, Eq)]
pub struct ModuleProgress {
    pub id: String,
    pub enrollment_id: String,
    pub module_id: String,
    pub status: ModuleStatus,
    pub started_at: Option<i64>,
    pub completed_at: Option<i64>,
    pub auto_completed: bool,
    pub completed_content_count: u64,
    pub total_content_count: u64,
    pub content_completion_percentage: u64,
    pub created_at: i64,
    pub updated_at: i64,
}

impl Keyed for ModuleProgress {
    type Key = (Seq<char>, Seq<char>);

    open spec fn key(&self) -> (Seq<char>, Seq<char>) {
        (self.enrollment_id@, self.module_id@)
    }

    fn same_key(&self, other: &Self) -> (r: bool) {
        self.enrollment_id == other.enrollment_id && self.module_id == other.module_id
    }
}

impl ModuleProgress {
    /// The counters are consistent: no more items are completed than exist.
    pub open spec fn counts_ok(&self) -> bool {
        self.completed_content_count <= self.total_content_count
    }

    /// A copy of the row.
    pub fn duplicate(&self) -> (r: ModuleProgress)
        ensures
            r == *self,
    {
        ModuleProgress {
            id: self.id.clone(),
            enrollment_id: self.enrollment_id.clone(),
            module_id: self.module_id.clone(),
            status: self.status,
            started_at: self.started_at,
            completed_at: self.completed_at,
            auto_completed: self.auto_completed,
            completed_content_count: self.completed_content_count,
            total_content_count: self.total_content_count,
            content_completion_percentage: self.content_completion_percentage,
            created_at: self.created_at,
            updated_at: self.updated_at,
        }
    }
}

/// One attempt of a student at a quiz. `score` is in hundredths of a point.
#[derive(Debug, Clone, PartialEq, Eq)]
pub struct QuizAttempt {
    pub id: String,
    pub student_id: String,
    pub quiz_id: String,
    pub attempt_number: u64,
    pub status: AttemptStatus,
    pub started_at: Option<i64>,
    pub completed_at: Option<i64>,
    pub score: Option<i64>,
    pub passed: bool,
    pub time_remaining_seconds: Option<i64>,
    pub created_at: i64,
    pub updated_at: i64,
}

impl Keyed for QuizAttempt {
    type Key = Seq<char>;

    open spec fn key(&self) -> Seq<char> {
        self.id@
    }

    fn same_key(&self, other: &Self) -> (r: bool) {
        self.id == other.id
    }
}

impl Ranked for QuizAttempt {
    /// The attempt with the highest number comes first.
    open spec fn rank(&self) -> int {
        -(self.attempt_number as int)
    }

    fn comes_before(&self, other: &Self) -> (r: bool) {
        self.attempt_number > other.attempt_number
    }
}

impl QuizAttempt {
    /// The attempt is finished and was passed.
    pub open spec fn is_pass(&self) -> bool {
        self.status == AttemptStatus::Completed && self.passed
    }

    /// `self` and `other` are attempts of one student at one quiz.
    pub open spec fn same_series(&self, other: &QuizAttempt) -> bool {
        self.student_id@ == other.student_id@ && self.quiz_id@ == other.quiz_id@
    }

    /// A copy of the row.
    pub fn duplicate(&self) -> (r: QuizAttempt)
        ensures
            r == *self,
    {
        QuizAttempt {
            id: self.id.clone(),
            student_id: self.student_id.clone(),
            quiz_id: self.quiz_id.clone(),
            attempt_number: self.attempt_number,
            status: self.status,
            started_at: self.started_at,
            completed_at: self.completed_at,
            score: self.score,
            passed: self.passed,
            time_remaining_seconds: self.time_remaining_seconds,
            created_at: self.created_at,
            updated_at: self.updated_at,
        }
    }
}

/// The answer given to one question in one attempt: one row for each pair
/// of attempt and question. `points_earned` is in hundredths of a point.
#[derive(Debug, Clone, PartialEq, Eq)]
pub struct QuizAnswer {
    pub id: String,
    pub attempt_id: String,
    pub question_id: String,
    pub selected_option_id: Option<String>,
    pub is_correct: bool,
    pub points_earned: u32,
    pub created_at: i64,
    pub updated_at: i64,
}

impl Keyed for QuizAnswer {
    type Key = (Seq<char>, Seq<char>);

    open spec fn key(&self) -> (Seq<char>, Seq<char>) {
        (self.attempt_id@, self.question_id@)
    }

    fn same_key(&self, other: &Self) -> (r: bool) {
        self.attempt_id == other.attempt_id && self.question_id == other.question_id
    }
}

impl QuizAnswer {
    /// A copy of the row.
    pub fn duplicate(&self) -> (r: QuizAnswer)
        ensures
            r == *self,
    {
        let selected_option_id = match &self.selected_option_id {
            Some(o) => Some(o.clone()),
            None => None,
        };
        QuizAnswer {
            id: self.id.clone(),
            attempt_id: self.attempt_id.clone(),
            question_id: self.question_id.clone(),
            selected_option_id,
            is_correct: self.is_correct,
            points_earned: self.points_earned,
            created_at: self.created_at,
            updated_at: self.updated_at,
        }
    }
}

} // verus!
