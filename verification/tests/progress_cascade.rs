use offline_learning::catalog::Catalog;
use offline_learning::error::{Entity, StoreError};
use offline_learning::progress::{correctness_flag, percent_of, ProgressStore};
use offline_learning::records::{
    AttemptStatus, ContentBlock, ContentProgress, Enrollment, Module, ModuleProgress,
    ModuleStatus, Quiz, QuizAnswer, QuizAttempt, Student,
};

fn module(id: &str, course: &str, order: i64, has_quiz: bool) -> Module {
    Module { id: id.to_string(), course_id: course.to_string(), order_index: order, has_quiz }
}

fn block(id: &str, module: &str, order: i64) -> ContentBlock {
    ContentBlock { id: id.to_string(), module_id: module.to_string(), order_index: order }
}

fn enrollment(id: &str, student: &str, course: &str, created_at: i64) -> Enrollment {
    Enrollment {
        id: id.to_string(),
        student_id: student.to_string(),
        course_id: course.to_string(),
        created_at,
        updated_at: created_at,
    }
}

fn module_row(enrollment: &str, module: &str, status: ModuleStatus) -> ModuleProgress {
    ModuleProgress {
        id: format!("mp_{}_{}", enrollment, module),
        enrollment_id: enrollment.to_string(),
        module_id: module.to_string(),
        status,
        started_at: None,
        completed_at: None,
        auto_completed: false,
        completed_content_count: 0,
        total_content_count: 0,
        content_completion_percentage: 0,
        created_at: 1,
        updated_at: 1,
    }
}

fn attempt(id: &str, student: &str, quiz: &str, number: u64, passed: bool) -> QuizAttempt {
    QuizAttempt {
        id: id.to_string(),
        student_id: student.to_string(),
        quiz_id: quiz.to_string(),
        attempt_number: number,
        status: AttemptStatus::Completed,
        started_at: Some(10),
        completed_at: Some(20),
        score: Some(if passed { 9000 } else { 2000 }),
        passed,
        time_remaining_seconds: None,
        created_at: 10,
        updated_at: 20,
    }
}

/// Course `c1` with module `m1`; `blocks` content items `b1`, `b2`, ...;
/// student `s1` enrolled as `e1`; the module begun.
fn course_with_blocks(blocks: usize, has_quiz: bool) -> (Catalog, ProgressStore) {
    let mut catalog = Catalog::new();
    catalog.save_module(module("m1", "c1", 1, has_quiz));
    for i in 1..=blocks {
        catalog.save_content_block(block(&format!("b{}", i), "m1", i as i64));
    }
    if has_quiz {
        catalog.save_quiz(Quiz { id: "q1".to_string(), module_id: Some("m1".to_string()) });
    }
    let mut store = ProgressStore::new();
    store.save_student(Student { id: "s1".to_string() });
    store.save_enrollment(enrollment("e1", "s1", "c1", 100));
    store.save_module_progress(module_row("e1", "m1", ModuleStatus::InProgress), 150).unwrap();
    (catalog, store)
}

fn module_state(store: &ProgressStore) -> ModuleProgress {
    let at = store.find_module_progress("e1", "m1").unwrap();
    store.module_progress()[at].clone()
}

#[test]
fn two_blocks_without_quiz_complete_the_module() {
    let (catalog, mut store) = course_with_blocks(2, false);

    store.mark_content_as_completed(&catalog, "b1", 200).unwrap();
    let row = module_state(&store);
    assert_eq!(row.content_completion_percentage, 50);
    assert_eq!(row.completed_content_count, 1);
    assert_eq!(row.total_content_count, 2);
    assert_eq!(row.status, ModuleStatus::InProgress);
    assert!(!row.auto_completed);
    assert_eq!(row.completed_at, None);
    assert_eq!(store.enrollments()[0].updated_at, 200);

    store.mark_content_as_completed(&catalog, "b2", 300).unwrap();
    let row = module_state(&store);
    assert_eq!(row.content_completion_percentage, 100);
    assert_eq!(row.completed_content_count, 2);
    assert_eq!(row.status, ModuleStatus::Completed);
    assert!(row.auto_completed);
    assert_eq!(row.completed_at, Some(300));
    assert_eq!(row.updated_at, 300);
    assert_eq!(store.enrollments()[0].updated_at, 300);
}

#[test]
fn module_completes_only_with_its_last_item() {
    let (catalog, mut store) = course_with_blocks(4, false);
    for (i, id) in ["b1", "b2", "b3"].iter().enumerate() {
        store.mark_content_as_completed(&catalog, id, 200 + i as i64).unwrap();
        let row = module_state(&store);
        assert_ne!(row.status, ModuleStatus::Completed);
        assert_eq!(row.completed_content_count, i as u64 + 1);
        assert!(!row.auto_completed);
    }
    assert_eq!(module_state(&store).content_completion_percentage, 75);
    store.mark_content_as_completed(&catalog, "b4", 400).unwrap();
    let row = module_state(&store);
    assert_eq!(row.status, ModuleStatus::Completed);
    assert!(row.auto_completed);
    assert_eq!(row.completed_at, Some(400));
}

#[test]
fn a_completed_module_is_not_completed_again() {
    let (catalog, mut store) = course_with_blocks(1, false);
    store.mark_content_as_completed(&catalog, "b1", 200).unwrap();
    assert_eq!(module_state(&store).completed_at, Some(200));
    store.mark_content_as_completed(&catalog, "b1", 900).unwrap();
    let row = module_state(&store);
    assert_eq!(row.status, ModuleStatus::Completed);
    assert_eq!(row.completed_at, Some(200));
    assert!(row.auto_completed);
    assert_eq!(row.updated_at, 900);
}

#[test]
fn a_manual_completion_is_not_overwritten_by_the_cascade() {
    let (catalog, mut store) = course_with_blocks(1, false);
    assert_eq!(store.update_module_status("e1", "m1", ModuleStatus::Completed, 180), Ok(true));
    store.mark_content_as_completed(&catalog, "b1", 200).unwrap();
    let row = module_state(&store);
    assert_eq!(row.status, ModuleStatus::Completed);
    assert!(!row.auto_completed);
    assert_eq!(row.completed_at, Some(180));
    assert_eq!(row.completed_content_count, 1);
}

#[test]
fn completing_twice_at_one_moment_is_completing_once() {
    let (catalog, mut once) = course_with_blocks(2, false);
    let (_, mut twice) = course_with_blocks(2, false);
    once.mark_content_as_completed(&catalog, "b1", 200).unwrap();
    twice.mark_content_as_completed(&catalog, "b1", 200).unwrap();
    twice.mark_content_as_completed(&catalog, "b1", 200).unwrap();
    assert_eq!(once.content_progress(), twice.content_progress());
    assert_eq!(once.module_progress(), twice.module_progress());
    assert_eq!(once.enrollments(), twice.enrollments());
    assert_eq!(twice.content_progress().len(), 1);
}

#[test]
fn completing_again_later_only_refreshes_the_times() {
    let (catalog, mut store) = course_with_blocks(2, false);
    store.mark_content_as_completed(&catalog, "b1", 200).unwrap();
    store.mark_content_as_completed(&catalog, "b1", 250).unwrap();
    let rows = store.content_progress();
    assert_eq!(rows.len(), 1);
    assert!(rows[0].is_completed);
    assert_eq!(rows[0].completed_at, Some(250));
    assert_eq!(rows[0].created_at, 200);
    assert_eq!(module_state(&store).completed_content_count, 1);
}

#[test]
fn viewing_keeps_a_completion() {
    let (catalog, mut store) = course_with_blocks(2, false);
    store.mark_content_as_completed(&catalog, "b1", 200).unwrap();
    store.mark_content_as_viewed(&catalog, "b1", 300).unwrap();
    let row = &store.content_progress()[0];
    assert!(row.is_completed);
    assert_eq!(row.completed_at, Some(200));
    assert_eq!(row.viewed_at, Some(300));
    assert_eq!(row.updated_at, 300);
    assert!(store.is_content_completed("e1", "b1"));
    assert_eq!(store.enrollments()[0].updated_at, 300);
}

#[test]
fn viewing_creates_a_row_that_is_not_completed() {
    let (catalog, mut store) = course_with_blocks(2, false);
    store.mark_content_as_viewed(&catalog, "b2", 210).unwrap();
    assert_eq!(
        store.content_progress()[0],
        ContentProgress {
            enrollment_id: "e1".to_string(),
            content_id: "b2".to_string(),
            is_completed: false,
            viewed_at: Some(210),
            completed_at: None,
            created_at: 210,
            updated_at: 210,
        }
    );
    assert!(!store.is_content_completed("e1", "b2"));
    // viewing does not run the cascade
    assert_eq!(module_state(&store).completed_content_count, 0);
    assert_eq!(module_state(&store).updated_at, 1);
}

#[test]
fn a_failed_quiz_holds_the_module_back_and_a_passed_one_completes_it() {
    let (catalog, mut store) = course_with_blocks(2, true);
    store.save_quiz_attempt(&catalog, attempt("a1", "s1", "q1", 1, false), 190).unwrap();
    store.mark_content_as_completed(&catalog, "b1", 200).unwrap();
    store.mark_content_as_completed(&catalog, "b2", 210).unwrap();
    let row = module_state(&store);
    assert_eq!(row.status, ModuleStatus::InProgress);
    assert_eq!(row.content_completion_percentage, 100);
    assert!(!row.auto_completed);

    store.save_quiz_attempt(&catalog, attempt("a2", "s1", "q1", 2, true), 300).unwrap();
    let row = module_state(&store);
    assert_eq!(row.status, ModuleStatus::Completed);
    assert!(row.auto_completed);
    assert_eq!(row.completed_at, Some(300));
    assert_eq!(store.enrollments()[0].updated_at, 300);
}

#[test]
fn finishing_an_attempt_with_a_pass_completes_the_module() {
    let (catalog, mut store) = course_with_blocks(1, true);
    store.mark_content_as_completed(&catalog, "b1", 200).unwrap();
    let mut open = attempt("a1", "s1", "q1", 1, false);
    open.status = AttemptStatus::InProgress;
    open.score = None;
    store.save_quiz_attempt(&catalog, open, 210).unwrap();
    assert_eq!(module_state(&store).status, ModuleStatus::InProgress);

    let found = store.update_quiz_attempt_status(
        &catalog,
        "a1",
        AttemptStatus::Completed,
        Some(8000),
        Some(true),
        400,
    );
    assert!(found);
    let stored = store.get_quiz_attempt_by_id("a1").unwrap();
    assert_eq!(stored.status, AttemptStatus::Completed);
    assert_eq!(stored.score, Some(8000));
    assert!(stored.passed);
    assert_eq!(stored.completed_at, Some(400));
    let row = module_state(&store);
    assert_eq!(row.status, ModuleStatus::Completed);
    assert_eq!(row.completed_at, Some(400));
}

#[test]
fn another_students_pass_does_not_count() {
    let (catalog, mut store) = course_with_blocks(1, true);
    store.save_student(Student { id: "s2".to_string() });
    store.save_quiz_attempt(&catalog, attempt("a1", "s2", "q1", 1, true), 190).unwrap();
    store.mark_content_as_completed(&catalog, "b1", 200).unwrap();
    assert_eq!(module_state(&store).status, ModuleStatus::InProgress);
    assert!(!store.has_passed_quiz(&catalog, "s1", "m1"));
    assert!(store.has_passed_quiz(&catalog, "s2", "m1"));
}

#[test]
fn unknown_content_module_and_enrollment_are_not_found() {
    let (mut catalog, mut store) = course_with_blocks(1, false);
    catalog.save_content_block(block("orphan", "nowhere", 1));
    catalog.save_module(module("m9", "c9", 1, false));
    catalog.save_content_block(block("b9", "m9", 1));
    let before = store.content_progress().clone();

    assert_eq!(
        store.mark_content_as_completed(&catalog, "missing", 200),
        Err(StoreError::NotFound(Entity::Content))
    );
    assert_eq!(
        store.mark_content_as_completed(&catalog, "orphan", 200),
        Err(StoreError::NotFound(Entity::Module))
    );
    assert_eq!(
        store.mark_content_as_completed(&catalog, "b9", 200),
        Err(StoreError::NotFound(Entity::Enrollment))
    );
    assert_eq!(
        store.mark_content_as_viewed(&catalog, "missing", 200),
        Err(StoreError::NotFound(Entity::Content))
    );
    assert_eq!(store.content_progress(), &before);
    assert_eq!(store.enrollments()[0].updated_at, 150);
}

#[test]
fn events_are_booked_on_the_latest_enrollment_of_a_known_student() {
    let (catalog, mut store) = course_with_blocks(1, false);
    store.save_enrollment(enrollment("e2", "s1", "c1", 500));
    store.save_enrollment(enrollment("e3", "stranger", "c1", 900));
    assert_eq!(store.resolve_enrollment("c1", None), Some(1));
    store.mark_content_as_completed(&catalog, "b1", 1000).unwrap();
    assert!(store.is_content_completed("e2", "b1"));
    assert!(!store.is_content_completed("e1", "b1"));
    assert!(!store.is_content_completed("e3", "b1"));
    // after sign-out nobody is known and nothing resolves
    store.clear_students();
    assert_eq!(store.resolve_enrollment("c1", None), None);
    assert_eq!(
        store.mark_content_as_completed(&catalog, "b1", 1100),
        Err(StoreError::NotFound(Entity::Enrollment))
    );
}

#[test]
fn of_enrollments_created_together_the_first_is_taken() {
    let mut store = ProgressStore::new();
    store.save_student(Student { id: "s1".to_string() });
    store.save_enrollment(enrollment("e1", "s1", "c1", 100));
    store.save_enrollment(enrollment("e2", "s1", "c1", 100));
    assert_eq!(store.resolve_enrollment("c1", None), Some(0));
    assert_eq!(store.resolve_enrollment("c1", Some("s1")), Some(0));
    assert_eq!(store.resolve_enrollment("c1", Some("s2")), None);
    assert!(store.check_enrollment_exists("s1", "c1"));
    assert!(!store.check_enrollment_exists("s1", "c2"));
}

#[test]
fn percentages_are_rounded_to_the_nearest_whole() {
    assert_eq!(percent_of(0, 0), 0);
    assert_eq!(percent_of(0, 3), 0);
    assert_eq!(percent_of(1, 3), 33);
    assert_eq!(percent_of(2, 3), 67);
    assert_eq!(percent_of(1, 2), 50);
    assert_eq!(percent_of(1, 8), 13);
    assert_eq!(percent_of(29, 200), 15);
    assert_eq!(percent_of(199, 200), 100);
    assert_eq!(percent_of(7, 7), 100);
    assert_eq!(percent_of(3, 2), 150);
}

#[test]
fn module_rows_with_bad_counters_are_refused() {
    let (_, mut store) = course_with_blocks(1, false);
    let mut row = module_row("e1", "m2", ModuleStatus::NotStarted);
    row.completed_content_count = 3;
    row.total_content_count = 2;
    assert_eq!(store.save_module_progress(row, 160), Err(StoreError::InvalidInput));
    let mut row = module_row("e1", "m2", ModuleStatus::NotStarted);
    row.content_completion_percentage = 101;
    assert_eq!(store.save_module_progress(row, 160), Err(StoreError::InvalidInput));
    assert_eq!(store.module_progress().len(), 1);
    assert_eq!(store.enrollments()[0].updated_at, 150);
}

#[test]
fn a_module_never_goes_back_in_status() {
    let (_, mut store) = course_with_blocks(1, false);
    assert_eq!(
        store.save_module_progress(module_row("e1", "m1", ModuleStatus::NotStarted), 160),
        Err(StoreError::InvalidInput)
    );
    assert_eq!(
        store.update_module_status("e1", "m1", ModuleStatus::NotStarted, 170),
        Err(StoreError::InvalidInput)
    );
    assert_eq!(module_state(&store).status, ModuleStatus::InProgress);
    assert_eq!(module_state(&store).updated_at, 1);
}

#[test]
fn setting_a_status_stamps_the_module() {
    let mut store = ProgressStore::new();
    store.save_module_progress(module_row("e1", "m1", ModuleStatus::NotStarted), 10).unwrap();
    assert_eq!(store.update_module_status("e1", "m1", ModuleStatus::InProgress, 20), Ok(true));
    let row = module_state(&store);
    assert_eq!(row.status, ModuleStatus::InProgress);
    assert_eq!(row.started_at, Some(20));
    assert_eq!(row.completed_at, None);
    assert_eq!(row.updated_at, 20);
    assert_eq!(store.update_module_status("e1", "m1", ModuleStatus::Completed, 30), Ok(true));
    let row = module_state(&store);
    assert_eq!(row.status, ModuleStatus::Completed);
    assert_eq!(row.started_at, Some(20));
    assert_eq!(row.completed_at, Some(30));
    assert!(!row.auto_completed);
    assert_eq!(store.update_module_status("e1", "nope", ModuleStatus::Completed, 40), Ok(false));
}

#[test]
fn saving_module_progress_marks_the_enrollment_as_active() {
    let (_, mut store) = course_with_blocks(1, false);
    assert_eq!(store.enrollments()[0].updated_at, 150);
    store.save_module_progress(module_row("e1", "m1", ModuleStatus::Completed), 777).unwrap();
    assert_eq!(store.enrollments()[0].updated_at, 777);
    assert_eq!(store.module_progress().len(), 1);
    // a row of an enrolment that the store does not have is stored all the same
    store.save_module_progress(module_row("e7", "m1", ModuleStatus::InProgress), 800).unwrap();
    assert_eq!(store.module_progress().len(), 2);
    assert_eq!(store.enrollments()[0].updated_at, 777);
}

#[test]
fn attempts_of_a_series_are_numbered_upwards() {
    let (catalog, mut store) = course_with_blocks(1, true);
    store.save_quiz_attempt(&catalog, attempt("a1", "s1", "q1", 1, false), 10).unwrap();
    store.save_quiz_attempt(&catalog, attempt("a2", "s1", "q1", 2, false), 20).unwrap();
    // a new attempt may not reuse or go below a number
    assert_eq!(
        store.save_quiz_attempt(&catalog, attempt("a3", "s1", "q1", 2, true), 30),
        Err(StoreError::ConstraintViolation)
    );
    assert_eq!(
        store.save_quiz_attempt(&catalog, attempt("a3", "s1", "q1", 1, true), 30),
        Err(StoreError::ConstraintViolation)
    );
    // a known attempt may not change its number or its student
    assert_eq!(
        store.save_quiz_attempt(&catalog, attempt("a1", "s1", "q1", 5, true), 30),
        Err(StoreError::ConstraintViolation)
    );
    assert_eq!(
        store.save_quiz_attempt(&catalog, attempt("a1", "s2", "q1", 1, true), 30),
        Err(StoreError::ConstraintViolation)
    );
    assert_eq!(store.quiz_attempts().len(), 2);
    // other series are free
    store.save_quiz_attempt(&catalog, attempt("b1", "s2", "q1", 1, false), 40).unwrap();
    store.save_quiz_attempt(&catalog, attempt("c1", "s1", "q2", 1, false), 40).unwrap();
    // the same attempt may be stored again
    store.save_quiz_attempt(&catalog, attempt("a2", "s1", "q1", 2, true), 50).unwrap();
    assert_eq!(store.quiz_attempts().len(), 4);
    assert!(store.quiz_attempts()[1].passed);
}

#[test]
fn an_attempt_that_is_not_finished_changes_only_its_status() {
    let (catalog, mut store) = course_with_blocks(1, true);
    store.save_quiz_attempt(&catalog, attempt("a1", "s1", "q1", 1, false), 10).unwrap();
    assert!(store.update_quiz_attempt_status(
        &catalog,
        "a1",
        AttemptStatus::InProgress,
        Some(9999),
        Some(true),
        60
    ));
    let stored = store.get_quiz_attempt_by_id("a1").unwrap();
    assert_eq!(stored.status, AttemptStatus::InProgress);
    assert_eq!(stored.score, Some(2000));
    assert!(!stored.passed);
    assert_eq!(stored.completed_at, Some(20));
    assert_eq!(stored.updated_at, 60);
    assert!(!store.update_quiz_attempt_status(
        &catalog,
        "zz",
        AttemptStatus::Completed,
        None,
        None,
        70
    ));
    assert_eq!(
        store.get_quiz_attempt_by_id("zz"),
        Err(StoreError::NotFound(Entity::QuizAttempt))
    );
}

#[test]
fn an_answer_needs_its_attempt() {
    let (catalog, mut store) = course_with_blocks(1, true);
    let answer = QuizAnswer {
        id: "an1".to_string(),
        attempt_id: "a1".to_string(),
        question_id: "qu1".to_string(),
        selected_option_id: Some("o1".to_string()),
        is_correct: true,
        points_earned: 150,
        created_at: 5,
        updated_at: 5,
    };
    assert_eq!(store.save_quiz_answer(answer.clone()), Err(StoreError::ConstraintViolation));
    store.save_quiz_attempt(&catalog, attempt("a1", "s1", "q1", 1, false), 10).unwrap();
    assert_eq!(store.save_quiz_answer(answer.clone()), Ok(()));
    let mut changed = answer.clone();
    changed.is_correct = false;
    changed.points_earned = 0;
    assert_eq!(store.save_quiz_answer(changed), Ok(()));
    assert_eq!(store.quiz_answers().len(), 1);
    assert!(!store.quiz_answers()[0].is_correct);
}

#[test]
fn correctness_is_read_from_a_number_or_a_flag() {
    assert_eq!(correctness_flag(Some(1), None), 1);
    assert_eq!(correctness_flag(Some(0), Some(true)), 0);
    assert_eq!(correctness_flag(Some(5), Some(false)), 5);
    assert_eq!(correctness_flag(None, Some(true)), 1);
    assert_eq!(correctness_flag(None, Some(false)), 0);
    assert_eq!(correctness_flag(None, None), 0);
}

#[test]
fn raw_content_rows_replace_by_enrollment_and_item() {
    let mut store = ProgressStore::new();
    let row = ContentProgress {
        enrollment_id: "e1".to_string(),
        content_id: "b1".to_string(),
        is_completed: true,
        viewed_at: Some(1),
        completed_at: Some(2),
        created_at: 1,
        updated_at: 2,
    };
    assert_eq!(store.save_content_progress(row.clone()), Ok(()));
    let mut other = row.clone();
    other.content_id = "b2".to_string();
    other.is_completed = false;
    assert_eq!(store.save_content_progress(other), Ok(()));
    let mut newer = row.clone();
    newer.updated_at = 9;
    assert_eq!(store.save_content_progress(newer.clone()), Ok(()));
    // a row from elsewhere does not take back a completion
    let mut undone = row.clone();
    undone.is_completed = false;
    assert_eq!(store.save_content_progress(undone), Err(StoreError::InvalidInput));
    assert_eq!(store.content_progress().len(), 2);
    assert_eq!(store.content_progress()[0], newer);
    assert_eq!(store.get_content_progress_by_content_id("e1", "b1"), Ok(newer));
    assert_eq!(
        store.get_content_progress_by_content_id("e1", "b3"),
        Err(StoreError::NotFound(Entity::ContentProgress))
    );
}

#[test]
fn the_check_for_auto_completion_wants_content() {
    let (catalog, mut store) = course_with_blocks(0, false);
    assert!(!store.check_module_auto_completion(&catalog, "e1", "m1"));
    assert_eq!(store.run_cascade(&catalog, "e1", "m1", 500), Ok(()));
    let row = module_state(&store);
    assert_eq!(row.status, ModuleStatus::InProgress);
    assert_eq!(row.content_completion_percentage, 0);
    assert_eq!(row.total_content_count, 0);
    assert_eq!(row.updated_at, 500);
    assert_eq!(store.enrollments()[0].updated_at, 500);
}

#[test]
fn without_a_module_row_the_cascade_only_marks_the_enrollment() {
    let mut catalog = Catalog::new();
    catalog.save_module(module("m1", "c1", 1, false));
    catalog.save_content_block(block("b1", "m1", 1));
    let mut store = ProgressStore::new();
    store.save_student(Student { id: "s1".to_string() });
    store.save_enrollment(enrollment("e1", "s1", "c1", 100));
    store.mark_content_as_completed(&catalog, "b1", 200).unwrap();
    assert!(store.module_progress().is_empty());
    assert!(store.is_content_completed("e1", "b1"));
    assert_eq!(store.count_completed_content(&catalog, "e1", "m1"), 1);
    assert_eq!(store.enrollments()[0].updated_at, 200);
}

#[test]
fn the_cascade_wants_an_enrollment() {
    let (catalog, mut store) = course_with_blocks(1, false);
    assert_eq!(
        store.run_cascade(&catalog, "e9", "m1", 500),
        Err(StoreError::NotFound(Entity::Enrollment))
    );
    assert_eq!(store.enrollments()[0].updated_at, 150);
    assert_eq!(module_state(&store).updated_at, 1);
}

#[test]
fn the_check_for_auto_completion_follows_content_and_quiz() {
    let (catalog, mut store) = course_with_blocks(2, true);
    assert!(!store.check_module_auto_completion(&catalog, "e1", "m1"));
    store.mark_content_as_completed(&catalog, "b1", 200).unwrap();
    store.mark_content_as_completed(&catalog, "b2", 210).unwrap();
    // all content is done, the quiz is not passed
    assert!(!store.check_module_auto_completion(&catalog, "e1", "m1"));
    store.save_quiz_attempt(&catalog, attempt("a1", "s1", "q1", 1, true), 300).unwrap();
    assert!(store.check_module_auto_completion(&catalog, "e1", "m1"));
    assert!(!store.check_module_auto_completion(&catalog, "e2", "m1"));
    assert!(!store.check_module_auto_completion(&catalog, "e1", "m2"));

    let (catalog, mut store) = course_with_blocks(1, false);
    store.mark_content_as_completed(&catalog, "b1", 200).unwrap();
    assert!(store.check_module_auto_completion(&catalog, "e1", "m1"));
}

#[test]
fn a_store_is_restored_from_rows_that_keep_its_rules() {
    let rows = vec![module_row("e1", "m1", ModuleStatus::InProgress)];
    let attempts = vec![attempt("a1", "s1", "q1", 1, false), attempt("a2", "s1", "q1", 2, true)];
    let store = ProgressStore::restore(
        vec![Student { id: "s1".to_string() }],
        vec![enrollment("e1", "s1", "c1", 100)],
        vec![],
        rows.clone(),
        attempts.clone(),
        vec![],
    )
    .unwrap();
    assert_eq!(store.module_progress(), &rows);
    assert_eq!(store.quiz_attempts(), &attempts);
    assert_eq!(store.enrollments()[0].updated_at, 100);
    assert_eq!(store.students().len(), 1);
}

#[test]
fn rows_that_break_the_rules_are_not_restored() {
    let twice = vec![enrollment("e1", "s1", "c1", 100), enrollment("e1", "s2", "c2", 200)];
    assert!(matches!(
        ProgressStore::restore(vec![], twice, vec![], vec![], vec![], vec![]),
        Err(StoreError::ConstraintViolation)
    ));
    let mut bad = module_row("e1", "m1", ModuleStatus::InProgress);
    bad.completed_content_count = 2;
    bad.total_content_count = 1;
    assert!(matches!(
        ProgressStore::restore(vec![], vec![], vec![], vec![bad], vec![], vec![]),
        Err(StoreError::ConstraintViolation)
    ));
    let backwards = vec![attempt("a2", "s1", "q1", 2, false), attempt("a1", "s1", "q1", 1, false)];
    assert!(matches!(
        ProgressStore::restore(vec![], vec![], vec![], vec![], backwards, vec![]),
        Err(StoreError::ConstraintViolation)
    ));
    let same_pair = vec![
        module_row("e1", "m1", ModuleStatus::InProgress),
        module_row("e1", "m1", ModuleStatus::Completed),
    ];
    assert!(matches!(
        ProgressStore::restore(vec![], vec![], vec![], same_pair, vec![], vec![]),
        Err(StoreError::ConstraintViolation)
    ));
}

#[test]
fn an_event_can_name_its_enrollment() {
    let (mut catalog, mut store) = course_with_blocks(2, false);
    catalog.save_module(module("m9", "c9", 1, false));
    catalog.save_content_block(block("b9", "m9", 1));
    store.save_enrollment(enrollment("e2", "stranger", "c1", 900));
    store.save_enrollment(enrollment("e3", "s1", "c9", 50));
    store.save_module_progress(module_row("e2", "m1", ModuleStatus::NotStarted), 160).unwrap();

    // the enrolment of a student who is not known on this device can be named
    assert_eq!(store.record_content_completed(&catalog, "e2", "b1", 1000), Ok(()));
    assert!(store.is_content_completed("e2", "b1"));
    assert!(!store.is_content_completed("e1", "b1"));
    assert_eq!(store.enrollments()[1].updated_at, 1000);
    assert_eq!(store.enrollments()[0].updated_at, 150);
    let at = store.find_module_progress("e2", "m1").unwrap();
    assert_eq!(store.module_progress()[at].completed_content_count, 1);
    assert_eq!(store.module_progress()[at].content_completion_percentage, 50);
    assert_eq!(store.module_progress()[at].status, ModuleStatus::NotStarted);

    assert_eq!(store.record_content_viewed(&catalog, "e2", "b2", 1100), Ok(()));
    let viewed = store.get_content_progress_by_content_id("e2", "b2").unwrap();
    assert!(!viewed.is_completed);
    assert_eq!(viewed.viewed_at, Some(1100));

    assert_eq!(store.record_content_completed(&catalog, "e2", "b2", 1200), Ok(()));
    assert_eq!(store.module_progress()[at].status, ModuleStatus::Completed);
    assert!(store.module_progress()[at].auto_completed);
    assert_eq!(module_state(&store).completed_content_count, 0);
}

#[test]
fn a_named_enrollment_has_to_exist_and_to_fit_the_course() {
    let (mut catalog, mut store) = course_with_blocks(1, false);
    catalog.save_module(module("m9", "c9", 1, false));
    catalog.save_content_block(block("b9", "m9", 1));
    assert_eq!(
        store.record_content_completed(&catalog, "nobody", "b1", 10),
        Err(StoreError::NotFound(Entity::Enrollment))
    );
    assert_eq!(
        store.record_content_completed(&catalog, "e1", "b9", 10),
        Err(StoreError::InvalidInput)
    );
    assert_eq!(
        store.record_content_viewed(&catalog, "e1", "b9", 10),
        Err(StoreError::InvalidInput)
    );
    assert_eq!(
        store.record_content_viewed(&catalog, "e1", "missing", 10),
        Err(StoreError::NotFound(Entity::Content))
    );
    assert!(store.content_progress().is_empty());
    assert_eq!(store.book_on(Some("e1"), "c1"), Ok(0));
    assert_eq!(store.book_on(None, "c1"), Ok(0));
    assert_eq!(store.book_on(None, "c9"), Err(StoreError::NotFound(Entity::Enrollment)));
    assert_eq!(store.locate(&catalog, None, "b1"), Ok((0, 0, 0)));
    assert_eq!(store.locate(&catalog, Some("e1"), "b1"), Ok((0, 0, 0)));
}

#[test]
fn naming_the_enrollment_that_would_be_found_changes_nothing() {
    let (catalog, mut found) = course_with_blocks(2, false);
    let (_, mut named) = course_with_blocks(2, false);
    found.mark_content_as_viewed(&catalog, "b1", 200).unwrap();
    found.mark_content_as_completed(&catalog, "b1", 210).unwrap();
    named.record_content_viewed(&catalog, "e1", "b1", 200).unwrap();
    named.record_content_completed(&catalog, "e1", "b1", 210).unwrap();
    assert_eq!(found.content_progress(), named.content_progress());
    assert_eq!(found.module_progress(), named.module_progress());
    assert_eq!(found.enrollments(), named.enrollments());
}
