use offline_learning::catalog::Catalog;
use offline_learning::error::{Entity, StoreError};
use offline_learning::listing::rank_rows;
use offline_learning::records::{ContentBlock, ContentProgress, Module, Question, Quiz};
use offline_learning::table::{drop_row, has_unique_keys, store_row};

fn a_module(id: &str, course: &str, has_quiz: bool) -> Module {
    Module { id: id.to_string(), course_id: course.to_string(), order_index: 0, has_quiz }
}

fn a_block(id: &str, module: &str) -> ContentBlock {
    ContentBlock { id: id.to_string(), module_id: module.to_string(), order_index: 0 }
}

fn a_row(content: &str, created_at: i64) -> ContentProgress {
    ContentProgress {
        enrollment_id: "e1".to_string(),
        content_id: content.to_string(),
        is_completed: false,
        viewed_at: None,
        completed_at: None,
        created_at,
        updated_at: created_at,
    }
}

#[test]
fn a_new_catalog_is_empty() {
    let catalog = Catalog::new();
    assert!(catalog.modules().is_empty());
    assert!(catalog.content_blocks().is_empty());
    assert!(catalog.quizzes().is_empty());
    assert!(catalog.questions().is_empty());
    assert_eq!(catalog.find_module("m1"), None);
    assert_eq!(catalog.count_content("m1"), 0);
    assert_eq!(catalog.count_modules("c1"), 0);
    assert!(!catalog.module_has_quiz("m1"));
    assert_eq!(catalog.sum_points("q1"), 0);
}

#[test]
fn storing_under_a_known_identifier_replaces() {
    let mut catalog = Catalog::new();
    catalog.save_module(a_module("m1", "c1", false));
    catalog.save_module(a_module("m2", "c1", true));
    catalog.save_module(a_module("m1", "c2", true));
    assert_eq!(catalog.modules().len(), 2);
    assert_eq!(catalog.modules()[0], a_module("m1", "c2", true));
    assert_eq!(catalog.find_module("m1"), Some(0));
    assert_eq!(catalog.find_module("m2"), Some(1));
    assert_eq!(catalog.find_module("m3"), None);
    assert!(catalog.module_has_quiz("m1"));
    assert_eq!(catalog.count_modules("c1"), 1);
    assert_eq!(catalog.count_modules("c2"), 1);

    catalog.save_content_block(a_block("b1", "m1"));
    catalog.save_content_block(a_block("b2", "m1"));
    catalog.save_content_block(a_block("b1", "m2"));
    assert_eq!(catalog.content_blocks().len(), 2);
    assert_eq!(catalog.find_content_block("b2"), Some(1));
    assert_eq!(catalog.count_content("m1"), 1);
    assert_eq!(catalog.count_content("m2"), 1);

    catalog.save_quiz(Quiz { id: "q1".to_string(), module_id: None });
    catalog.save_quiz(Quiz { id: "q1".to_string(), module_id: Some("m1".to_string()) });
    assert_eq!(catalog.quizzes().len(), 1);
    assert_eq!(catalog.find_quiz("q1"), Some(0));
    assert_eq!(catalog.quizzes()[0].module_id, Some("m1".to_string()));

    assert_eq!(catalog.quiz_for_module("m1"), Some(0));
    assert_eq!(catalog.quiz_for_module("m2"), None);
    catalog.save_quiz(Quiz { id: "q0".to_string(), module_id: Some("m1".to_string()) });
    catalog.save_quiz(Quiz { id: "x".to_string(), module_id: Some("m2".to_string()) });
    assert_eq!(catalog.quiz_for_module("m1"), Some(0));
    assert_eq!(catalog.quiz_for_module("m2"), Some(2));

    let question =
        |points| Question { id: "u1".to_string(), quiz_id: "q1".to_string(), order_index: 1, points };
    catalog.save_question(question(100));
    catalog.save_question(question(250));
    assert_eq!(catalog.questions().len(), 1);
    assert_eq!(catalog.find_question("u1"), Some(0));
    assert_eq!(catalog.find_question("u2"), None);
    assert_eq!(catalog.sum_points("q1"), 250);
}

#[test]
fn storing_many_is_storing_one_after_the_other() {
    let mut catalog = Catalog::new();
    let given = vec![a_module("m1", "c1", false), a_module("m2", "c1", false), a_module("m1", "c9", true)];
    assert_eq!(catalog.save_modules_bulk(&given), 3);
    assert_eq!(catalog.modules(), &vec![a_module("m1", "c9", true), a_module("m2", "c1", false)]);
    assert_eq!(catalog.save_modules_bulk(&vec![]), 0);
    assert_eq!(catalog.modules().len(), 2);
}

#[test]
fn keys_are_checked_and_rows_put_in_their_places() {
    let mut rows = vec![a_row("b1", 1), a_row("b2", 2)];
    assert!(has_unique_keys(&rows));
    store_row(&mut rows, Some(0), a_row("b1", 7));
    store_row(&mut rows, None, a_row("b3", 3));
    assert_eq!(rows, vec![a_row("b1", 7), a_row("b2", 2), a_row("b3", 3)]);
    drop_row(&mut rows, Some(1));
    drop_row(&mut rows, None);
    assert_eq!(rows, vec![a_row("b1", 7), a_row("b3", 3)]);
    rows.push(a_row("b1", 9));
    assert!(!has_unique_keys(&rows));
    assert!(has_unique_keys(&Vec::<ContentProgress>::new()));
}

#[test]
fn ranking_keeps_rows_of_one_rank_as_they_came() {
    let given = vec![a_row("d", 3), a_row("a", 1), a_row("c", 3), a_row("b", 1), a_row("e", 2)];
    let ranked = rank_rows(given);
    let order: Vec<&str> = ranked.iter().map(|r| r.content_id.as_str()).collect();
    assert_eq!(order, vec!["a", "b", "e", "d", "c"]);
    assert!(rank_rows(Vec::<ContentProgress>::new()).is_empty());
}

#[test]
fn the_catalog_answers_by_identifier() {
    let mut catalog = Catalog::new();
    catalog.save_module(a_module("m1", "c1", true));
    catalog.save_content_block(a_block("b1", "m1"));
    catalog.save_quiz(Quiz { id: "q1".to_string(), module_id: Some("m1".to_string()) });
    catalog.save_quiz(Quiz { id: "exam".to_string(), module_id: None });
    assert_eq!(catalog.get_module_by_id("m1"), Ok(a_module("m1", "c1", true)));
    assert_eq!(catalog.get_module_by_id("m2"), Err(StoreError::NotFound(Entity::Module)));
    assert_eq!(catalog.get_content_block_by_id("b1"), Ok(a_block("b1", "m1")));
    assert_eq!(
        catalog.get_content_block_by_id("b2"),
        Err(StoreError::NotFound(Entity::Content))
    );
    assert_eq!(catalog.get_quiz_by_id("exam"), Ok(Quiz { id: "exam".to_string(), module_id: None }));
    assert_eq!(catalog.get_quiz_by_id("q2"), Err(StoreError::NotFound(Entity::Quiz)));
    assert_eq!(catalog.get_module_quiz("m1").map(|q| q.id), Ok("q1".to_string()));
    assert_eq!(catalog.get_module_quiz("m2"), Err(StoreError::NotFound(Entity::Quiz)));
}

#[test]
fn modules_and_questions_come_in_their_order() {
    let mut catalog = Catalog::new();
    for (id, course, order) in [("m3", "c1", 3), ("m1", "c1", 1), ("x", "c2", 0), ("m2", "c1", 1)] {
        let mut module = a_module(id, course, false);
        module.order_index = order;
        catalog.save_module(module);
    }
    let listed = catalog.get_course_modules("c1");
    let ids: Vec<&str> = listed.iter().map(|m| m.id.as_str()).collect();
    assert_eq!(ids, vec!["m1", "m2", "m3"]);
    assert!(catalog.get_course_modules("c3").is_empty());

    for (id, quiz, order) in [("u2", "q1", 2), ("u1", "q1", 1), ("v", "q2", 1)] {
        catalog.save_question(Question {
            id: id.to_string(),
            quiz_id: quiz.to_string(),
            order_index: order,
            points: 100,
        });
    }
    let listed = catalog.get_quiz_questions("q1");
    let ids: Vec<&str> = listed.iter().map(|q| q.id.as_str()).collect();
    assert_eq!(ids, vec!["u1", "u2"]);
}
