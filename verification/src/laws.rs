//! What holds of the progress store whatever it holds: laws that relate its
//! operations to one another, proved over the model in `model`.
//!
//! Where a law has a parameter `enrollment`, it holds both of an event that
//! names its enrolment (`Some`) and of one that leaves the store to find it
//! (`None`).

use vstd::prelude::*;

use crate::catalog::CatalogState;
use crate::error::StoreError;
use crate::lemmas::{
    lemma_all_done_iff_counts_meet, lemma_cascade_frame,
    lemma_cascade_reads, lemma_cascade_settles, lemma_completed_marks_one, lemma_done_count_same,
    lemma_done_count_step, lemma_locate_bounds, lemma_locate_stable, lemma_mark_completed_effect,
    lemma_module_has_content, lemma_quiz_passed_reads, lemma_recorded_twice, lemma_resolve_stable,
    lemma_viewed_marks_none, same_enrollments,
};
use crate::model::{
    lemma_attempt_replaced, lemma_attempt_stored, lemma_done_within_total, lemma_percentage,
    percentage, with_attempt_status, with_status, StoreState,
};
use crate::records::{AttemptStatus, ContentProgress, ModuleProgress, ModuleStatus, QuizAttempt};
use crate::table::{
    index_of, lemma_index_of, lemma_index_of_unique, lemma_push_fresh, lemma_update_same_key,
    lemma_upsert_unique, upsert, Keyed,
};

verus! {

/// Completion is never taken back by a row from the remote side either: a
/// content item that is completed stays completed when any content progress
/// row is stored.
pub proof fn law_stored_rows_keep_completions(
    s: StoreState,
    row: ContentProgress,
    enrollment_id: Seq<char>,
    item: Seq<char>,
)
    requires
        s.wf(),
        s.content_done(enrollment_id, item),
    ensures
        s.save_content_progress(row) matches Ok(after) ==> after.wf() && after.content_done(
            enrollment_id,
            item,
        ),
{
    lemma_index_of(s.content_progress, row.key());
    lemma_index_of(s.content_progress, (enrollment_id, item));
    lemma_upsert_unique(s.content_progress, row);
    match index_of(s.content_progress, row.key()) {
        Some(i) => {
            lemma_update_same_key(s.content_progress, i, row);
        },
        None => {
            lemma_push_fresh(s.content_progress, row);
        },
    }
}

/// Naming the enrolment that would be found changes nothing: where an event
/// on a content item would be booked on an enrolment, marking the item as
/// viewed or as completed under that enrolment by name has the same outcome.
pub proof fn law_named_enrollment_agrees(
    s: StoreState,
    catalog: CatalogState,
    content_id: Seq<char>,
    now: i64,
)
    requires
        s.wf(),
    ensures
        s.locate(catalog, None, content_id) matches Ok((blk, m, e)) ==> {
            &&& s.mark_completed(catalog, Some(s.enrollments[e].id@), content_id, now)
                == s.mark_completed(catalog, None, content_id, now)
            &&& s.mark_viewed(catalog, Some(s.enrollments[e].id@), content_id, now)
                == s.mark_viewed(catalog, None, content_id, now)
        },
{
    lemma_locate_bounds(s, catalog, None, content_id);
    match s.locate(catalog, None, content_id) {
        Ok((blk, m, e)) => {
            lemma_index_of_unique(s.enrollments, e);
        },
        Err(_) => {},
    }
}

/// Completion is never taken back: a content item that is completed stays
/// completed, under every enrolment, when any content item is marked as
/// viewed or as completed.
pub proof fn law_completed_stays_completed(
    s: StoreState,
    catalog: CatalogState,
    enrollment: Option<Seq<char>>,
    content_id: Seq<char>,
    now: i64,
    enrollment_id: Seq<char>,
    item: Seq<char>,
)
    requires
        s.wf(),
        catalog.wf(),
        s.content_done(enrollment_id, item),
    ensures
        s.mark_completed(catalog, enrollment, content_id, now) matches Ok(after) ==> after.content_done(
            enrollment_id,
            item,
        ),
        s.mark_viewed(catalog, enrollment, content_id, now) matches Ok(after) ==> after.content_done(
            enrollment_id,
            item,
        ),
{
    lemma_locate_bounds(s, catalog, enrollment, content_id);
    match s.locate(catalog, enrollment, content_id) {
        Ok((blk, m, e)) => {
            let block = catalog.content_blocks[blk];
            lemma_completed_marks_one(s, e, block, now);
            lemma_viewed_marks_none(s, e, block, now);
            let completed = s.with_completed(e, block, now);
            let viewed = s.with_viewed(e, block, now);
            assert(completed.content_done(enrollment_id, item));
            assert(viewed.content_done(enrollment_id, item));
            lemma_cascade_frame(completed, catalog, e, block.module_id@, now);
        },
        Err(_) => {},
    }
}

/// Marking a content item as completed always leaves it completed under the
/// enrolment that the event was booked on.
pub proof fn law_marked_item_is_completed(
    s: StoreState,
    catalog: CatalogState,
    enrollment: Option<Seq<char>>,
    content_id: Seq<char>,
    now: i64,
)
    requires
        s.wf(),
        catalog.wf(),
    ensures
        s.mark_completed(catalog, enrollment, content_id, now) matches Ok(after) ==> {
            &&& after.wf()
            &&& s.locate(catalog, enrollment, content_id) matches Ok((blk, m, e)) && after.content_done(
                s.enrollments[e].id@,
                content_id,
            )
        },
{
    lemma_locate_bounds(s, catalog, enrollment, content_id);
    match s.locate(catalog, enrollment, content_id) {
        Ok((blk, m, e)) => {
            let block = catalog.content_blocks[blk];
            lemma_completed_marks_one(s, e, block, now);
            let completed = s.with_completed(e, block, now);
            assert(completed.content_done(s.enrollments[e].id@, content_id));
            lemma_cascade_frame(completed, catalog, e, block.module_id@, now);
        },
        Err(_) => {},
    }
}

/// Idempotence: marking a content item as completed a second time at the
/// same moment leaves the store exactly as the first marking left it.
pub proof fn law_completion_idempotent(
    s: StoreState,
    catalog: CatalogState,
    enrollment: Option<Seq<char>>,
    content_id: Seq<char>,
    now: i64,
)
    requires
        s.wf(),
        catalog.wf(),
    ensures
        s.mark_completed(catalog, enrollment, content_id, now) matches Ok(once)
            ==> once.mark_completed(
            catalog,
            enrollment,
            content_id,
            now,
        ) == Ok::<StoreState, StoreError>(once),
{
    lemma_locate_bounds(s, catalog, enrollment, content_id);
    match s.locate(catalog, enrollment, content_id) {
        Ok((blk, m, e)) => {
            let block = catalog.content_blocks[blk];
            let module_id = block.module_id@;
            let recorded = s.with_completed(e, block, now);
            let once = recorded.cascade(catalog, e, module_id, now);
            lemma_completed_marks_one(s, e, block, now);
            lemma_cascade_frame(recorded, catalog, e, module_id, now);
            lemma_locate_stable(s, once, catalog, enrollment, content_id);
            let again = once.with_completed(e, block, now);
            lemma_recorded_twice(s, e, block, now);
            assert(once.enrollments[e].id == s.enrollments[e].id);
            assert(again.content_progress =~= once.content_progress);
            assert(again == once);
            lemma_cascade_settles(recorded, catalog, e, module_id, now);
        },
        Err(_) => {},
    }
}

/// A repeated completion changes nothing but time stamps: marking a content
/// item as completed again, at whatever later or earlier moment, leaves
/// every content item as completed or not as it was, adds no row, and leaves
/// every module progress row as it was but for the time of its last update.
/// In particular a module that was completed is not completed a second time.
pub proof fn law_completion_repeated(
    s: StoreState,
    catalog: CatalogState,
    enrollment: Option<Seq<char>>,
    content_id: Seq<char>,
    first: i64,
    second: i64,
)
    requires
        s.wf(),
        catalog.wf(),
    ensures
        s.mark_completed(catalog, enrollment, content_id, first) matches Ok(once) ==> {
            &&& once.mark_completed(catalog, enrollment, content_id, second) matches Ok(twice) && {
                &&& twice.content_progress.len() == once.content_progress.len()
                &&& twice.module_progress.len() == once.module_progress.len()
                &&& forall|x: Seq<char>, y: Seq<char>|
                    #![trigger twice.content_done(x, y)]
                    twice.content_done(x, y) == once.content_done(x, y)
                &&& forall|i: int|
                    0 <= i < once.module_progress.len() ==> #[trigger] twice.module_progress[i]
                        == (ModuleProgress {
                        updated_at: twice.module_progress[i].updated_at,
                        ..once.module_progress[i]
                    })
            }
        },
{
    lemma_locate_bounds(s, catalog, enrollment, content_id);
    match s.locate(catalog, enrollment, content_id) {
        Ok((blk, m, e)) => {
            let block = catalog.content_blocks[blk];
            let module_id = block.module_id@;
            let eid = s.enrollments[e].id@;
            let recorded = s.with_completed(e, block, first);
            let once = recorded.cascade(catalog, e, module_id, first);
            lemma_completed_marks_one(s, e, block, first);
            lemma_cascade_frame(recorded, catalog, e, module_id, first);
            lemma_locate_stable(s, once, catalog, enrollment, content_id);
            lemma_recorded_twice(s, e, block, first);
            assert(once.enrollments[e].id == s.enrollments[e].id);
            let again = once.with_completed(e, block, second);
            let twice = again.cascade(catalog, e, module_id, second);
            lemma_completed_marks_one(once, e, block, second);
            lemma_cascade_frame(again, catalog, e, module_id, second);
            assert(once.content_done(eid, block.id@));
            assert forall|y: Seq<char>| #![trigger again.content_done(eid, y)]
                again.content_done(eid, y) == recorded.content_done(eid, y) by {
                assert(again.content_done(eid, y) == (once.content_done(eid, y) || (eid == eid && y
                    == block.id@)));
            }
            lemma_done_count_same(
                again,
                recorded,
                catalog,
                eid,
                module_id,
                catalog.content_blocks.len() as int,
            );
            lemma_quiz_passed_reads(again, recorded, catalog, s.enrollments[e].student_id@, module_id);
            lemma_index_of(recorded.module_progress, (eid, module_id));
            assert forall|x: Seq<char>, y: Seq<char>| #![trigger twice.content_done(x, y)]
                twice.content_done(x, y) == once.content_done(x, y) by {
                assert(again.content_done(x, y) == (once.content_done(x, y) || (x == eid && y
                    == block.id@)));
            }
        },
        Err(_) => {},
    }
}

/// Cascade correctness. When a content item is marked as completed:
///
/// - the count of completed items of its module goes up by one if the item
///   was not completed before, and stays otherwise; it never passes the count
///   of the module's items;
/// - the module's progress row, if there is one, shows these counts and the
///   share they make;
/// - a module that was completed stays as it was: it is neither completed
///   again nor stamped again;
/// - a module without a quiz that was not completed is completed exactly when
///   the last of its items is now completed, which is when every item of the
///   module is; it is then marked as completed automatically at `now`; as
///   long as an item is missing, its status stays what it was.
pub proof fn law_module_completes_with_last_item(
    s: StoreState,
    catalog: CatalogState,
    enrollment: Option<Seq<char>>,
    content_id: Seq<char>,
    now: i64,
)
    requires
        s.wf(),
        catalog.wf(),
    ensures
        s.mark_completed(catalog, enrollment, content_id, now) matches Ok(after)
            ==> s.locate(
            catalog,
            enrollment,
            content_id,
        ) matches Ok((blk, m, e)) && ({
            let module_id = catalog.content_blocks[blk].module_id@;
            let eid = s.enrollments[e].id@;
            let total = catalog.content_count(module_id);
            let done = after.done_count(catalog, eid, module_id);
            &&& total >= 1
            &&& done <= total
            &&& done == s.done_count(catalog, eid, module_id) + if s.content_done(eid, content_id) {
                0nat
            } else {
                1nat
            }
            &&& done == total <==> forall|i: int|
                0 <= i < catalog.content_blocks.len() && (
                #[trigger] catalog.content_blocks[i]).module_id@ == module_id
                    ==> after.content_done(eid, catalog.content_blocks[i].id@)
            &&& index_of(s.module_progress, (eid, module_id)) matches Some(p) ==> {
                let was = s.module_progress[p];
                let is = after.module_progress[p];
                &&& is.completed_content_count == done
                &&& is.total_content_count == total
                &&& is.content_completion_percentage == percentage(done, total)
                &&& was.status == ModuleStatus::Completed ==> is == (ModuleProgress {
                    completed_content_count: is.completed_content_count,
                    total_content_count: is.total_content_count,
                    content_completion_percentage: is.content_completion_percentage,
                    updated_at: now,
                    ..was
                })
                &&& was.status != ModuleStatus::Completed && !catalog.module_has_quiz(module_id)
                    ==> {
                    &&& is.status == ModuleStatus::Completed <==> done == total
                    &&& done == total ==> is.auto_completed && is.completed_at == Some(now)
                    &&& done < total ==> is.status == was.status && is.auto_completed
                        == was.auto_completed && is.completed_at == was.completed_at
                }
            }
        }),
{
    lemma_locate_bounds(s, catalog, enrollment, content_id);
    match s.locate(catalog, enrollment, content_id) {
        Ok((blk, m, e)) => {
            let block = catalog.content_blocks[blk];
            let module_id = block.module_id@;
            let eid = s.enrollments[e].id@;
            let n = catalog.content_blocks.len() as int;
            let recorded = s.with_completed(e, block, now);
            let after = recorded.cascade(catalog, e, module_id, now);
            lemma_completed_marks_one(s, e, block, now);
            lemma_cascade_frame(recorded, catalog, e, module_id, now);
            lemma_module_has_content(catalog, blk, n);
            lemma_cascade_reads(recorded, after, catalog, e, module_id);
            assert forall|y: Seq<char>| #![trigger recorded.content_done(eid, y)]
                recorded.content_done(eid, y) == (s.content_done(eid, y) || y == block.id@) by {
                assert(recorded.content_done(eid, y) == (s.content_done(eid, y) || (eid == eid && y
                    == block.id@)));
            }
            lemma_done_count_step(s, recorded, catalog, eid, module_id, blk, n);
            lemma_done_within_total(recorded, catalog, eid, module_id, n);
            lemma_all_done_iff_counts_meet(after, catalog, eid, module_id, n);
            lemma_index_of(s.module_progress, (eid, module_id));
            let total = catalog.content_count(module_id);
            let done = after.done_count(catalog, eid, module_id);
            assert(done <= usize::MAX);
            lemma_percentage(done, total);
        },
        Err(_) => {},
    }
}

/// Quiz gating. When a content item of a module with a quiz is marked as
/// completed while the enrolled student has not passed the module's quiz,
/// the status of a module that is not completed stays what it was, even if
/// this was the last item.
pub proof fn law_quiz_gates_completion(
    s: StoreState,
    catalog: CatalogState,
    enrollment: Option<Seq<char>>,
    content_id: Seq<char>,
    now: i64,
)
    requires
        s.wf(),
        catalog.wf(),
    ensures
        s.mark_completed(catalog, enrollment, content_id, now) matches Ok(after)
            ==> s.locate(
            catalog,
            enrollment,
            content_id,
        ) matches Ok((blk, m, e)) && ({
            let module_id = catalog.content_blocks[blk].module_id@;
            let eid = s.enrollments[e].id@;
            index_of(s.module_progress, (eid, module_id)) matches Some(p) ==> {
                let was = s.module_progress[p];
                let is = after.module_progress[p];
                was.status != ModuleStatus::Completed && catalog.module_has_quiz(module_id)
                    && !s.quiz_passed(catalog, s.enrollments[e].student_id@, module_id)
                    ==> is.status == was.status && is.auto_completed == was.auto_completed
                    && is.completed_at == was.completed_at
            }
        }),
{
    lemma_locate_bounds(s, catalog, enrollment, content_id);
    match s.locate(catalog, enrollment, content_id) {
        Ok((blk, m, e)) => {
            let block = catalog.content_blocks[blk];
            let module_id = block.module_id@;
            let eid = s.enrollments[e].id@;
            let recorded = s.with_completed(e, block, now);
            lemma_completed_marks_one(s, e, block, now);
            lemma_cascade_frame(recorded, catalog, e, module_id, now);
            lemma_quiz_passed_reads(s, recorded, catalog, s.enrollments[e].student_id@, module_id);
            lemma_index_of(s.module_progress, (eid, module_id));
        },
        Err(_) => {},
    }
}

/// Passing the quiz completes the module. Let all content of a module be
/// completed under a student's enrolment, and let the module have a progress
/// row. When a finished, passed attempt of that student at the module's quiz
/// is stored, the module is completed; if it was not completed before, it is
/// marked as completed automatically at `now`.
///
/// `e` and `q` are the positions that `quiz_target` names for the attempt,
/// `p` is the position of the module's progress row.
pub proof fn law_passing_quiz_completes_module(
    s: StoreState,
    catalog: CatalogState,
    attempt: QuizAttempt,
    now: i64,
    e: int,
    q: int,
    p: int,
)
    requires
        s.wf(),
        catalog.wf(),
        attempt.is_pass(),
        s.admits_attempt(attempt),
        s.quiz_target(catalog, attempt.quiz_id@, attempt.student_id@) == Some((e, q)),
        catalog.content_count(catalog.quizzes[q].module_id->0@) >= 1,
        s.done_count(catalog, s.enrollments[e].id@, catalog.quizzes[q].module_id->0@)
            == catalog.content_count(catalog.quizzes[q].module_id->0@),
        index_of(s.module_progress, (s.enrollments[e].id@, catalog.quizzes[q].module_id->0@))
            == Some(p),
    ensures
        s.save_quiz_attempt(catalog, attempt, now) matches Ok(after) && {
            &&& after.wf()
            &&& after.module_progress[p].status == ModuleStatus::Completed
            &&& s.module_progress[p].status != ModuleStatus::Completed ==> {
                &&& after.module_progress[p].auto_completed
                &&& after.module_progress[p].completed_at == Some(now)
            }
            &&& s.module_progress[p].status == ModuleStatus::Completed ==> {
                &&& after.module_progress[p].auto_completed == s.module_progress[p].auto_completed
                &&& after.module_progress[p].completed_at == s.module_progress[p].completed_at
            }
        },
{
    let module_id = catalog.quizzes[q].module_id->0@;
    let stored = StoreState { quiz_attempts: upsert(s.quiz_attempts, attempt), ..s };
    lemma_attempt_stored(s, attempt);
    lemma_index_of(catalog.quizzes, attempt.quiz_id@);
    lemma_index_of(catalog.modules, module_id);
    let m = index_of(catalog.modules, module_id)->0;
    let course_id = catalog.modules[m].course_id@;
    lemma_resolve_stable(s, stored, course_id, Some(attempt.student_id@));
    assert(s.newest_candidate(course_id, Some(attempt.student_id@), e));
    assert(stored.quiz_target(catalog, attempt.quiz_id@, attempt.student_id@) == Some((e, q)));
    lemma_upsert_unique(s.quiz_attempts, attempt);
    lemma_index_of(s.quiz_attempts, attempt.id@);
    let w = match index_of(s.quiz_attempts, attempt.id@) {
        Some(i) => i,
        None => s.quiz_attempts.len() as int,
    };
    assert(stored.quiz_attempts[w] == attempt);
    assert(stored.is_pass_for(
        catalog,
        stored.quiz_attempts[w],
        s.enrollments[e].student_id@,
        module_id,
    ));
    assert(stored.quiz_passed(catalog, s.enrollments[e].student_id@, module_id));
    lemma_done_count_same(
        s,
        stored,
        catalog,
        s.enrollments[e].id@,
        module_id,
        catalog.content_blocks.len() as int,
    );
    lemma_cascade_frame(stored, catalog, e, module_id, now);
    lemma_index_of(s.module_progress, (s.enrollments[e].id@, module_id));
}

/// Finishing an attempt with a pass completes the module. Let all content
/// of a module be completed under a student's enrolment, and let the module
/// have a progress row. When an attempt of that student at the module's quiz
/// is set to finished and passed, the module is completed; if it was not
/// completed before, it is marked as completed automatically at `now`.
///
/// `i` is the position of the attempt, `e` and `q` are the positions that
/// `quiz_target` names for it, `p` is the position of the module's progress
/// row.
pub proof fn law_finishing_with_pass_completes_module(
    s: StoreState,
    catalog: CatalogState,
    attempt_id: Seq<char>,
    score: Option<i64>,
    now: i64,
    i: int,
    e: int,
    q: int,
    p: int,
)
    requires
        s.wf(),
        catalog.wf(),
        index_of(s.quiz_attempts, attempt_id) == Some(i),
        s.quiz_target(catalog, s.quiz_attempts[i].quiz_id@, s.quiz_attempts[i].student_id@) == Some(
            (e, q),
        ),
        catalog.content_count(catalog.quizzes[q].module_id->0@) >= 1,
        s.done_count(catalog, s.enrollments[e].id@, catalog.quizzes[q].module_id->0@)
            == catalog.content_count(catalog.quizzes[q].module_id->0@),
        index_of(s.module_progress, (s.enrollments[e].id@, catalog.quizzes[q].module_id->0@))
            == Some(p),
    ensures
        ({
            let after = s.update_quiz_attempt_status(
                catalog,
                attempt_id,
                AttemptStatus::Completed,
                score,
                Some(true),
                now,
            );
            &&& after.wf()
            &&& after.quiz_attempts[i].is_pass()
            &&& after.module_progress[p].status == ModuleStatus::Completed
            &&& s.module_progress[p].status != ModuleStatus::Completed ==> {
                &&& after.module_progress[p].auto_completed
                &&& after.module_progress[p].completed_at == Some(now)
            }
            &&& s.module_progress[p].status == ModuleStatus::Completed ==> {
                &&& after.module_progress[p].auto_completed == s.module_progress[p].auto_completed
                &&& after.module_progress[p].completed_at == s.module_progress[p].completed_at
            }
        }),
{
    lemma_index_of(s.quiz_attempts, attempt_id);
    let row = with_attempt_status(
        s.quiz_attempts[i],
        AttemptStatus::Completed,
        score,
        Some(true),
        now,
    );
    lemma_attempt_replaced(s, i, row);
    law_passing_quiz_completes_module(s, catalog, row, now, e, q, p);
    lemma_cascade_frame(
        StoreState { quiz_attempts: s.quiz_attempts.update(i, row), ..s },
        catalog,
        e,
        catalog.quizzes[q].module_id->0@,
        now,
    );
}

/// The store after the first `n` of the content items `ids` were marked as
/// completed, one after the other, the one at `k` at the time `times[k]`. A
/// marking that is refused changes nothing.
pub open spec fn marked_all(
    s: StoreState,
    catalog: CatalogState,
    enrollment: Option<Seq<char>>,
    ids: Seq<Seq<char>>,
    times: Seq<i64>,
    n: int,
) -> StoreState
    decreases n,
{
    if n <= 0 {
        s
    } else {
        let before = marked_all(s, catalog, enrollment, ids, times, n - 1);
        match before.mark_completed(catalog, enrollment, ids[n - 1], times[n - 1]) {
            Ok(after) => after,
            Err(_) => before,
        }
    }
}

/// Every content item of the module `module_id` is completed under the
/// enrolment `enrollment_id`.
pub open spec fn all_done(
    s: StoreState,
    catalog: CatalogState,
    enrollment_id: Seq<char>,
    module_id: Seq<char>,
) -> bool {
    forall|i: int|
        0 <= i < catalog.content_blocks.len() && (#[trigger] catalog.content_blocks[i]).module_id@
            == module_id ==> s.content_done(enrollment_id, catalog.content_blocks[i].id@)
}

/// Cascade correctness over any number of completions. Take a module without
/// a quiz that has a progress row and is not completed, and of whose content
/// something is still to do. Mark content items of that module as completed,
/// in any order and as often as you like. Then:
///
/// - an item is completed exactly if it was before or was among those marked;
/// - the module is completed exactly if all of its items are now completed:
///   as long as one is missing, it keeps the status it had;
/// - once it is completed, it was completed automatically, by the marking
///   that completed the last missing item and at the time of that marking,
///   and by no other.
///
/// `m` is the position of the module in the catalog, `e` that of the
/// enrolment that events in its course are booked on, `p` that of the
/// module's progress row.
pub proof fn law_module_completes_when_all_items_are(
    s: StoreState,
    catalog: CatalogState,
    enrollment: Option<Seq<char>>,
    ids: Seq<Seq<char>>,
    times: Seq<i64>,
    n: int,
    module_id: Seq<char>,
    m: int,
    e: int,
    p: int,
)
    requires
        s.wf(),
        catalog.wf(),
        0 <= n <= ids.len(),
        ids.len() == times.len(),
        index_of(catalog.modules, module_id) == Some(m),
        !catalog.modules[m].has_quiz,
        s.book_on(enrollment, catalog.modules[m].course_id@) == Ok::<int, StoreError>(e),
        index_of(s.module_progress, (s.enrollments[e].id@, module_id)) == Some(p),
        s.module_progress[p].status != ModuleStatus::Completed,
        !all_done(s, catalog, s.enrollments[e].id@, module_id),
        forall|k: int|
            0 <= k < ids.len() ==> (index_of(catalog.content_blocks, #[trigger] ids[k]) matches Some(
                b,
            ) && catalog.content_blocks[b].module_id@ == module_id),
    ensures
        ({
            let after = marked_all(s, catalog, enrollment, ids, times, n);
            let eid = s.enrollments[e].id@;
            let is = after.module_progress[p];
            &&& after.wf()
            &&& forall|y: Seq<char>|
                #![trigger after.content_done(eid, y)]
                after.content_done(eid, y) == (s.content_done(eid, y) || exists|k: int|
                    0 <= k < n && #[trigger] ids[k] == y)
            &&& is.status == ModuleStatus::Completed <==> all_done(after, catalog, eid, module_id)
            &&& !all_done(after, catalog, eid, module_id) ==> is.status == s.module_progress[p].status
                && is.auto_completed == s.module_progress[p].auto_completed && is.completed_at
                == s.module_progress[p].completed_at
            &&& all_done(after, catalog, eid, module_id) ==> is.auto_completed && exists|j: int|
                0 <= j < n && is.completed_at == Some(#[trigger] times[j]) && !all_done(
                    marked_all(s, catalog, enrollment, ids, times, j),
                    catalog,
                    eid,
                    module_id,
                ) && all_done(
                    marked_all(s, catalog, enrollment, ids, times, j + 1),
                    catalog,
                    eid,
                    module_id,
                )
        }),
    decreases n,
{
    let eid = s.enrollments[e].id@;
    lemma_steps_keep_places(s, catalog, enrollment, ids, times, n, module_id, m, e, p);
    if n > 0 {
        law_module_completes_when_all_items_are(
            s,
            catalog,
            enrollment,
            ids,
            times,
            n - 1,
            module_id,
            m,
            e,
            p,
        );
        lemma_steps_keep_places(s, catalog, enrollment, ids, times, n - 1, module_id, m, e, p);
        let before = marked_all(s, catalog, enrollment, ids, times, n - 1);
        let id = ids[n - 1];
        let now = times[n - 1];
        let after = marked_all(s, catalog, enrollment, ids, times, n);
        lemma_mark_completed_effect(before, catalog, enrollment, id, now);
        law_module_completes_with_last_item(before, catalog, enrollment, id, now);
        lemma_all_done_iff_counts_meet(
            before,
            catalog,
            eid,
            module_id,
            catalog.content_blocks.len() as int,
        );
        lemma_done_within_total(before, catalog, eid, module_id, catalog.content_blocks.len() as int);
        assert(before.enrollments[e].id == s.enrollments[e].id);
        assert(after == before.mark_completed(catalog, enrollment, id, now)->Ok_0);
        assert forall|y: Seq<char>| #![trigger after.content_done(eid, y)]
            after.content_done(eid, y) == (s.content_done(eid, y) || exists|k: int|
                0 <= k < n && #[trigger] ids[k] == y) by {
            assert(after.content_done(eid, y) == (before.content_done(eid, y) || (eid == eid && y
                == id)));
            if before.content_done(eid, y) && !s.content_done(eid, y) {
                let k = choose|k: int| 0 <= k < n - 1 && #[trigger] ids[k] == y;
                assert(0 <= k < n && ids[k] == y);
            }
            if y == id {
                assert(0 <= n - 1 < n && ids[n - 1] == y);
            }
            if exists|k: int| 0 <= k < n && #[trigger] ids[k] == y {
                let k = choose|k: int| 0 <= k < n && #[trigger] ids[k] == y;
                if k < n - 1 {
                    assert(0 <= k < n - 1 && ids[k] == y);
                }
            }
        }
        let was = before.module_progress[p];
        let is = after.module_progress[p];
        if all_done(after, catalog, eid, module_id) {
            if all_done(before, catalog, eid, module_id) {
                let j = choose|j: int|
                    0 <= j < n - 1 && was.completed_at == Some(#[trigger] times[j]) && !all_done(
                        marked_all(s, catalog, enrollment, ids, times, j),
                        catalog,
                        eid,
                        module_id,
                    ) && all_done(
                    marked_all(s, catalog, enrollment, ids, times, j + 1),
                    catalog,
                    eid,
                    module_id,
                );
                assert(0 <= j < n && is.completed_at == Some(times[j]));
            } else {
                assert(is.completed_at == Some(times[n - 1]));
                assert(marked_all(s, catalog, enrollment, ids, times, n - 1 + 1) == after);
            }
        }
    }
}

/// While content items of one module are marked as completed, every marking
/// succeeds, events stay booked on the same enrolment, and the module's
/// progress row stays where it is.
proof fn lemma_steps_keep_places(
    s: StoreState,
    catalog: CatalogState,
    enrollment: Option<Seq<char>>,
    ids: Seq<Seq<char>>,
    times: Seq<i64>,
    n: int,
    module_id: Seq<char>,
    m: int,
    e: int,
    p: int,
)
    requires
        s.wf(),
        catalog.wf(),
        0 <= n <= ids.len(),
        ids.len() == times.len(),
        index_of(catalog.modules, module_id) == Some(m),
        s.book_on(enrollment, catalog.modules[m].course_id@) == Ok::<int, StoreError>(e),
        index_of(s.module_progress, (s.enrollments[e].id@, module_id)) == Some(p),
        forall|k: int|
            0 <= k < ids.len() ==> (index_of(catalog.content_blocks, #[trigger] ids[k]) matches Some(
                b,
            ) && catalog.content_blocks[b].module_id@ == module_id),
    ensures
        ({
            let after = marked_all(s, catalog, enrollment, ids, times, n);
            &&& after.wf()
            &&& same_enrollments(s, after)
            &&& 0 <= e < s.enrollments.len()
            &&& 0 <= p < after.module_progress.len()
            &&& after.module_progress.len() == s.module_progress.len()
            &&& index_of(after.module_progress, (s.enrollments[e].id@, module_id)) == Some(p)
            &&& n < ids.len() ==> after.locate(catalog, enrollment, ids[n]) == Ok::<
                (int, int, int),
                StoreError,
            >((index_of(catalog.content_blocks, ids[n])->0, m, e))
        }),
    decreases n,
{
    lemma_index_of(s.module_progress, (s.enrollments[e].id@, module_id));
    lemma_index_of(catalog.modules, module_id);
    match enrollment {
        Some(id) => {
            lemma_index_of(s.enrollments, id);
        },
        None => {},
    }
    if n > 0 {
        lemma_steps_keep_places(s, catalog, enrollment, ids, times, n - 1, module_id, m, e, p);
        let before = marked_all(s, catalog, enrollment, ids, times, n - 1);
        lemma_mark_completed_effect(before, catalog, enrollment, ids[n - 1], times[n - 1]);
        let after = marked_all(s, catalog, enrollment, ids, times, n);
        assert(after == before.mark_completed(catalog, enrollment, ids[n - 1], times[n - 1])->Ok_0);
        assert forall|i: int| 0 <= i < s.enrollments.len() implies {
            &&& (#[trigger] s.enrollments[i]).id == after.enrollments[i].id
            &&& s.enrollments[i].student_id == after.enrollments[i].student_id
            &&& s.enrollments[i].course_id == after.enrollments[i].course_id
            &&& s.enrollments[i].created_at == after.enrollments[i].created_at
        } by {
            assert(s.enrollments[i].id == before.enrollments[i].id);
            assert(before.enrollments[i].id == after.enrollments[i].id);
        }
    }
    let after = marked_all(s, catalog, enrollment, ids, times, n);
    if n < ids.len() {
        assert(index_of(catalog.content_blocks, ids[n]) is Some);
        lemma_index_of(catalog.content_blocks, ids[n]);
        lemma_locate_stable(s, after, catalog, enrollment, ids[n]);
    }
}

/// The status of the module `module_id` under the enrolment `enrollment_id`,
/// if the store has a progress row for the pair.
pub open spec fn status_of(s: StoreState, enrollment_id: Seq<char>, module_id: Seq<char>) -> Option<
    ModuleStatus,
> {
    match index_of(s.module_progress, (enrollment_id, module_id)) {
        Some(p) => Some(s.module_progress[p].status),
        None => None,
    }
}

/// The module has in `after` a status that is not behind the one it has in
/// `before`, if it has one there.
pub open spec fn not_behind(
    before: StoreState,
    after: StoreState,
    enrollment_id: Seq<char>,
    module_id: Seq<char>,
) -> bool {
    status_of(before, enrollment_id, module_id) matches Some(was) ==> (status_of(
        after,
        enrollment_id,
        module_id,
    ) matches Some(is) && was.rank() <= is.rank())
}

/// The cascade takes no module back.
proof fn lemma_cascade_never_regresses(
    s: StoreState,
    catalog: CatalogState,
    e: int,
    cascaded: Seq<char>,
    now: i64,
    enrollment_id: Seq<char>,
    module_id: Seq<char>,
)
    requires
        s.wf(),
        catalog.wf(),
        0 <= e < s.enrollments.len(),
    ensures
        not_behind(s, s.cascade(catalog, e, cascaded, now), enrollment_id, module_id),
{
    lemma_cascade_frame(s, catalog, e, cascaded, now);
    lemma_index_of(s.module_progress, (enrollment_id, module_id));
    lemma_index_of(s.module_progress, (s.enrollments[e].id@, cascaded));
}

/// Status never goes back. Whatever is done to the store (a content item
/// viewed or completed, a row stored, a status set, a quiz attempt stored or
/// finished), no module that has a progress row is afterwards behind the
/// status it had: from not started a module goes to in progress and to
/// completed, and never the other way.
pub proof fn law_status_never_regresses(
    s: StoreState,
    catalog: CatalogState,
    enrollment: Option<Seq<char>>,
    enrollment_id: Seq<char>,
    module_id: Seq<char>,
    content_id: Seq<char>,
    content_row: ContentProgress,
    module_row: ModuleProgress,
    status: ModuleStatus,
    attempt: QuizAttempt,
    attempt_id: Seq<char>,
    attempt_status: AttemptStatus,
    score: Option<i64>,
    passed: Option<bool>,
    now: i64,
)
    requires
        s.wf(),
        catalog.wf(),
    ensures
        s.mark_completed(catalog, enrollment, content_id, now) matches Ok(after) ==> not_behind(
            s,
            after,
            enrollment_id,
            module_id,
        ),
        s.mark_viewed(catalog, enrollment, content_id, now) matches Ok(after) ==> not_behind(
            s,
            after,
            enrollment_id,
            module_id,
        ),
        s.save_content_progress(content_row) matches Ok(after) ==> not_behind(
            s,
            after,
            enrollment_id,
            module_id,
        ),
        s.save_module_progress(module_row, now) matches Ok(after) ==> not_behind(
            s,
            after,
            enrollment_id,
            module_id,
        ),
        s.update_module_status(enrollment_id, module_id, status, now) matches Ok(after)
            ==> not_behind(s, after, enrollment_id, module_id),
        s.save_quiz_attempt(catalog, attempt, now) matches Ok(after) ==> not_behind(
            s,
            after,
            enrollment_id,
            module_id,
        ),
        not_behind(
            s,
            s.update_quiz_attempt_status(catalog, attempt_id, attempt_status, score, passed, now),
            enrollment_id,
            module_id,
        ),
{
    let k = (enrollment_id, module_id);
    lemma_index_of(s.module_progress, k);
    // a content item completed
    lemma_locate_bounds(s, catalog, enrollment, content_id);
    match s.locate(catalog, enrollment, content_id) {
        Ok((blk, m, e)) => {
            let block = catalog.content_blocks[blk];
            lemma_completed_marks_one(s, e, block, now);
            lemma_cascade_never_regresses(
                s.with_completed(e, block, now),
                catalog,
                e,
                block.module_id@,
                now,
                enrollment_id,
                module_id,
            );
        },
        Err(_) => {},
    }
    // a module progress row stored
    if s.save_module_progress(module_row, now) is Ok {
        lemma_index_of(s.module_progress, module_row.key());
        lemma_upsert_unique(s.module_progress, module_row);
        match index_of(s.module_progress, module_row.key()) {
            Some(i) => {
                lemma_update_same_key(s.module_progress, i, module_row);
            },
            None => {
                lemma_push_fresh(s.module_progress, module_row);
            },
        }
    }
    // a status set
    match index_of(s.module_progress, k) {
        Some(p) => {
            lemma_update_same_key(
                s.module_progress,
                p,
                with_status(s.module_progress[p], status, now),
            );
        },
        None => {},
    }
    // a quiz attempt stored
    if s.admits_attempt(attempt) {
        lemma_attempt_stored(s, attempt);
        let stored = StoreState { quiz_attempts: upsert(s.quiz_attempts, attempt), ..s };
        lemma_after_attempt_never_regresses(stored, catalog, attempt, now, enrollment_id, module_id);
    }
    // a quiz attempt finished
    lemma_index_of(s.quiz_attempts, attempt_id);
    match index_of(s.quiz_attempts, attempt_id) {
        Some(i) => {
            let row = with_attempt_status(s.quiz_attempts[i], attempt_status, score, passed, now);
            lemma_attempt_replaced(s, i, row);
            let stored = StoreState { quiz_attempts: s.quiz_attempts.update(i, row), ..s };
            lemma_after_attempt_never_regresses(stored, catalog, row, now, enrollment_id, module_id);
        },
        None => {},
    }
}

/// Drawing the consequences of an attempt takes no module back.
proof fn lemma_after_attempt_never_regresses(
    s: StoreState,
    catalog: CatalogState,
    attempt: QuizAttempt,
    now: i64,
    enrollment_id: Seq<char>,
    module_id: Seq<char>,
)
    requires
        s.wf(),
        catalog.wf(),
    ensures
        not_behind(s, s.after_attempt(catalog, attempt, now), enrollment_id, module_id),
{
    lemma_index_of(s.module_progress, (enrollment_id, module_id));
    match s.quiz_target(catalog, attempt.quiz_id@, attempt.student_id@) {
        Some((e, q)) => {
            lemma_index_of(catalog.quizzes, attempt.quiz_id@);
            let m = index_of(catalog.modules, catalog.quizzes[q].module_id->0@)->0;
            assert(s.newest_candidate(
                catalog.modules[m].course_id@,
                Some(attempt.student_id@),
                e,
            ));
            lemma_cascade_never_regresses(
                s,
                catalog,
                e,
                catalog.quizzes[q].module_id->0@,
                now,
                enrollment_id,
                module_id,
            );
        },
        None => {},
    }
}

/// A view never clears a completion: after a content item was marked as
/// viewed, every progress row that was there is completed as it was and has
/// the time of completion it had.
pub proof fn law_viewing_keeps_completion_time(
    s: StoreState,
    catalog: CatalogState,
    enrollment: Option<Seq<char>>,
    content_id: Seq<char>,
    now: i64,
    i: int,
)
    requires
        s.wf(),
        0 <= i < s.content_progress.len(),
    ensures
        s.mark_viewed(catalog, enrollment, content_id, now) matches Ok(after) ==> {
            &&& i < after.content_progress.len()
            &&& after.content_progress[i].key() == s.content_progress[i].key()
            &&& after.content_progress[i].is_completed == s.content_progress[i].is_completed
            &&& after.content_progress[i].completed_at == s.content_progress[i].completed_at
        },
{
    lemma_locate_bounds(s, catalog, enrollment, content_id);
    match s.locate(catalog, enrollment, content_id) {
        Ok((blk, m, e)) => {
            lemma_index_of(
                s.content_progress,
                (s.enrollments[e].id@, catalog.content_blocks[blk].id@),
            );
        },
        Err(_) => {},
    }
}

} // verus!
