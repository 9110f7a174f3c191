use offline_learning::catalog::Catalog;
use offline_learning::error::{Entity, StoreError};
use offline_learning::progress::ProgressStore;
use offline_learning::records::{
    AttemptStatus, ContentBlock, ContentProgress, Enrollment, Module, ModuleProgress,
    ModuleStatus, Question, Quiz, QuizAnswer, QuizAttempt, Student,
};
use offline_learning::reports::AttemptScore;

fn a_module(id: &str, course: &str, order: i64) -> Module {
    Module { id: id.to_string(), course_id: course.to_string(), order_index: order, has_quiz: false }
}

fn a_block(id: &str, module: &str, order: i64) -> ContentBlock {
    ContentBlock { id: id.to_string(), module_id: module.to_string(), order_index: order }
}

fn an_enrollment(id: &str, student: &str, course: &str) -> Enrollment {
    Enrollment {
        id: id.to_string(),
        student_id: student.to_string(),
        course_id: course.to_string(),
        created_at: 1,
        updated_at: 1,
    }
}

fn a_row(enrollment: &str, module: &str, status: ModuleStatus, updated_at: i64) -> ModuleProgress {
    ModuleProgress {
        id: format!("{}-{}", enrollment, module),
        enrollment_id: enrollment.to_string(),
        module_id: module.to_string(),
        status,
        started_at: None,
        completed_at: None,
        auto_completed: false,
        completed_content_count: 0,
        total_content_count: 0,
        content_completion_percentage: 0,
        created_at: 1,
        updated_at,
    }
}

fn an_attempt(id: &str, number: u64, status: AttemptStatus, score: Option<i64>) -> QuizAttempt {
    QuizAttempt {
        id: id.to_string(),
        student_id: "s1".to_string(),
        quiz_id: "q1".to_string(),
        attempt_number: number,
        status,
        started_at: None,
        completed_at: None,
        score,
        passed: false,
        time_remaining_seconds: Some(30),
        created_at: 1,
        updated_at: 1,
    }
}

fn an_answer(id: &str, attempt: &str, question: &str, correct: bool, points: u32) -> QuizAnswer {
    QuizAnswer {
        id: id.to_string(),
        attempt_id: attempt.to_string(),
        question_id: question.to_string(),
        selected_option_id: None,
        is_correct: correct,
        points_earned: points,
        created_at: 1,
        updated_at: 1,
    }
}

fn a_question(id: &str, quiz: &str, order: i64, points: u32) -> Question {
    Question { id: id.to_string(), quiz_id: quiz.to_string(), order_index: order, points }
}

#[test]
fn the_summary_counts_modules_by_status() {
    let mut catalog = Catalog::new();
    let given = vec![
        a_module("m1", "c1", 1),
        a_module("m2", "c1", 2),
        a_module("m3", "c1", 3),
        a_module("x1", "c2", 1),
    ];
    assert_eq!(catalog.save_modules_bulk(&given), 4);
    assert_eq!(catalog.count_modules("c1"), 3);
    let mut store = ProgressStore::new();
    store.save_enrollment(an_enrollment("e1", "s1", "c1"));
    store.save_module_progress(a_row("e1", "m1", ModuleStatus::Completed, 50), 60).unwrap();
    store.save_module_progress(a_row("e1", "m2", ModuleStatus::InProgress, 70), 80).unwrap();
    store.save_module_progress(a_row("e9", "m3", ModuleStatus::Completed, 99), 99).unwrap();

    let summary = store.get_course_progress_summary(&catalog, "e1").unwrap();
    assert_eq!(summary.total_modules, 3);
    assert_eq!(summary.completed_modules, 1);
    assert_eq!(summary.in_progress_modules, 1);
    assert_eq!(summary.not_started_modules, 1);
    assert_eq!(summary.completion_percentage, 33);
    assert_eq!(summary.last_accessed_at, Some(70));
    assert_eq!(summary.last_accessed_module_id, Some("m2".to_string()));

    assert_eq!(
        store.get_course_progress_summary(&catalog, "nobody"),
        Err(StoreError::NotFound(Entity::Enrollment))
    );
}

#[test]
fn the_summary_of_an_untouched_course_is_empty() {
    let catalog = Catalog::new();
    let mut store = ProgressStore::new();
    store.save_enrollment(an_enrollment("e1", "s1", "c1"));
    let summary = store.get_course_progress_summary(&catalog, "e1").unwrap();
    assert_eq!(summary.total_modules, 0);
    assert_eq!(summary.completed_modules, 0);
    assert_eq!(summary.not_started_modules, 0);
    assert_eq!(summary.completion_percentage, 0);
    assert_eq!(summary.last_accessed_at, None);
    assert_eq!(summary.last_accessed_module_id, None);
}

#[test]
fn progress_on_unknown_modules_makes_the_rest_negative() {
    let mut catalog = Catalog::new();
    catalog.save_module(a_module("m1", "c1", 1));
    let mut store = ProgressStore::new();
    store.save_enrollment(an_enrollment("e1", "s1", "c1"));
    store.save_module_progress(a_row("e1", "gone1", ModuleStatus::Completed, 5), 5).unwrap();
    store.save_module_progress(a_row("e1", "gone2", ModuleStatus::Completed, 5), 5).unwrap();
    let summary = store.get_course_progress_summary(&catalog, "e1").unwrap();
    assert_eq!(summary.total_modules, 1);
    assert_eq!(summary.completed_modules, 2);
    assert_eq!(summary.not_started_modules, -1);
    assert_eq!(summary.completion_percentage, 200);
    assert_eq!(summary.last_accessed_module_id, Some("gone1".to_string()));
}

#[test]
fn module_content_comes_in_order_with_progress() {
    let mut catalog = Catalog::new();
    catalog.save_module(a_module("m1", "c1", 1));
    let blocks = vec![
        a_block("b3", "m1", 3),
        a_block("b1", "m1", 1),
        a_block("other", "m2", 0),
        a_block("b2", "m1", 2),
    ];
    assert_eq!(catalog.save_content_blocks_bulk(&blocks), 4);
    assert_eq!(catalog.count_content("m1"), 3);
    let mut store = ProgressStore::new();
    store.save_student(Student { id: "s1".to_string() });
    store.save_enrollment(an_enrollment("e1", "s1", "c1"));
    store.mark_content_as_completed(&catalog, "b2", 40).unwrap();

    let listed = store.get_module_content(&catalog, "m1").unwrap();
    let ids: Vec<&str> = listed.iter().map(|v| v.block.id.as_str()).collect();
    assert_eq!(ids, vec!["b1", "b2", "b3"]);
    assert_eq!(listed[0].progress, None);
    assert_eq!(
        listed[1].progress,
        Some(ContentProgress {
            enrollment_id: "e1".to_string(),
            content_id: "b2".to_string(),
            is_completed: true,
            viewed_at: None,
            completed_at: Some(40),
            created_at: 40,
            updated_at: 40,
        })
    );
    assert_eq!(listed[2].progress, None);

    // without an enrolment the content still comes, without progress
    store.clear_students();
    let listed = store.get_module_content(&catalog, "m1").unwrap();
    assert_eq!(listed.len(), 3);
    assert!(listed.iter().all(|v| v.progress.is_none()));

    assert_eq!(
        store.get_module_content(&catalog, "m7"),
        Err(StoreError::NotFound(Entity::Module))
    );
}

#[test]
fn enrollment_progress_follows_the_order_of_the_modules() {
    let mut catalog = Catalog::new();
    catalog.save_module(a_module("m1", "c1", 2));
    catalog.save_module(a_module("m2", "c1", 1));
    let mut store = ProgressStore::new();
    store.save_module_progress(a_row("e1", "m1", ModuleStatus::InProgress, 5), 5).unwrap();
    store.save_module_progress(a_row("e1", "unknown", ModuleStatus::InProgress, 5), 5).unwrap();
    store.save_module_progress(a_row("e2", "m2", ModuleStatus::InProgress, 5), 5).unwrap();
    store.save_module_progress(a_row("e1", "m2", ModuleStatus::Completed, 5), 5).unwrap();
    let listed = store.get_enrollment_progress(&catalog, "e1");
    assert_eq!(listed.len(), 2);
    assert_eq!(listed[0].module.id, "m2");
    assert_eq!(listed[0].progress.status, ModuleStatus::Completed);
    assert_eq!(listed[1].module.id, "m1");
    assert_eq!(listed[1].progress.enrollment_id, "e1");
}

#[test]
fn content_progress_is_listed_oldest_first() {
    let catalog = {
        let mut c = Catalog::new();
        c.save_module(a_module("m1", "c1", 1));
        c.save_content_block(a_block("b1", "m1", 1));
        c.save_content_block(a_block("b2", "m1", 2));
        c
    };
    let mut store = ProgressStore::new();
    store.save_student(Student { id: "s1".to_string() });
    store.save_enrollment(an_enrollment("e1", "s1", "c1"));
    store.mark_content_as_viewed(&catalog, "b2", 300).unwrap();
    store.mark_content_as_viewed(&catalog, "b1", 100).unwrap();
    let listed = store.get_content_progress("e1");
    let ids: Vec<&str> = listed.iter().map(|r| r.content_id.as_str()).collect();
    assert_eq!(ids, vec!["b1", "b2"]);
    assert!(store.get_content_progress("e2").is_empty());
}

#[test]
fn attempts_are_listed_latest_first_and_the_best_score_is_found() {
    let catalog = Catalog::new();
    let mut store = ProgressStore::new();
    assert_eq!(store.get_best_quiz_score("q1", "s1"), None);
    store
        .save_quiz_attempt(&catalog, an_attempt("a1", 1, AttemptStatus::Completed, Some(4000)), 1)
        .unwrap();
    store
        .save_quiz_attempt(&catalog, an_attempt("a2", 2, AttemptStatus::Completed, Some(7550)), 2)
        .unwrap();
    store
        .save_quiz_attempt(&catalog, an_attempt("a3", 3, AttemptStatus::InProgress, Some(9900)), 3)
        .unwrap();
    store
        .save_quiz_attempt(&catalog, an_attempt("a4", 4, AttemptStatus::Completed, None), 4)
        .unwrap();
    let listed = store.get_quiz_attempts("q1", "s1");
    let numbers: Vec<u64> = listed.iter().map(|a| a.attempt_number).collect();
    assert_eq!(numbers, vec![4, 3, 2, 1]);
    assert!(store.get_quiz_attempts("q1", "s2").is_empty());
    assert_eq!(store.get_best_quiz_score("q1", "s1"), Some(7550));
    assert_eq!(store.get_best_quiz_score("q2", "s1"), None);
}

#[test]
fn an_attempt_is_scored_from_its_answers() {
    let mut catalog = Catalog::new();
    catalog.save_quiz(Quiz { id: "q1".to_string(), module_id: None });
    let questions = vec![
        a_question("u1", "q1", 2, 100),
        a_question("u2", "q1", 1, 100),
        a_question("u3", "q1", 3, 100),
        a_question("v1", "q2", 1, 500),
    ];
    assert_eq!(catalog.save_questions_bulk(&questions), 4);
    assert_eq!(catalog.sum_points("q1"), 300);
    let mut store = ProgressStore::new();
    store
        .save_quiz_attempt(&catalog, an_attempt("a1", 1, AttemptStatus::InProgress, None), 1)
        .unwrap();
    store
        .save_quiz_attempt(&catalog, an_attempt("a2", 2, AttemptStatus::InProgress, None), 1)
        .unwrap();
    store.save_quiz_answer(an_answer("n1", "a1", "u1", true, 100)).unwrap();
    store.save_quiz_answer(an_answer("n2", "a1", "u2", false, 0)).unwrap();
    store.save_quiz_answer(an_answer("n3", "a2", "u1", true, 100)).unwrap();
    store.save_quiz_answer(an_answer("n4", "a1", "zz", true, 100)).unwrap();

    assert_eq!(
        store.calculate_attempt_score(&catalog, "a1"),
        AttemptScore {
            total_questions: 3,
            correct_answers: 2,
            points_earned: 200,
            points_possible: 300,
            percentage: 6667,
        }
    );
    assert_eq!(
        store.calculate_attempt_score(&catalog, "nothing"),
        AttemptScore {
            total_questions: 0,
            correct_answers: 0,
            points_earned: 0,
            points_possible: 0,
            percentage: 0,
        }
    );

    // answers come in the order of the questions; the unknown question is left out
    let listed = store.get_attempt_answers(&catalog, "a1");
    let ids: Vec<&str> = listed.iter().map(|v| v.answer.id.as_str()).collect();
    assert_eq!(ids, vec!["n2", "n1"]);
    assert_eq!(listed[0].order_index, 1);
}
