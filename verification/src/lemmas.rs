//! What the laws of the progress store rest on: how the operations of the
//! model act on the completion of content, on the counts of a module, and on
//! the places of rows.

use vstd::prelude::*;

use crate::catalog::CatalogState;
use crate::error::StoreError;
use crate::model::{lemma_done_within_total, lemma_percentage, StoreState};
use crate::records::ContentBlock;
use crate::table::{
    index_of, lemma_index_of, lemma_index_of_absent, lemma_index_of_found, lemma_push_fresh,
    lemma_update_same_key, lemma_upsert_unique, upsert, Keyed,
};

verus! {

/// Two stores know the same students and hold the same enrolments but for
/// the times of their last activity.
pub open spec fn same_enrollments(a: StoreState, b: StoreState) -> bool {
    &&& a.students == b.students
    &&& a.enrollments.len() == b.enrollments.len()
    &&& forall|i: int|
        0 <= i < a.enrollments.len() ==> {
            &&& (#[trigger] a.enrollments[i]).id == b.enrollments[i].id
            &&& a.enrollments[i].student_id == b.enrollments[i].student_id
            &&& a.enrollments[i].course_id == b.enrollments[i].course_id
            &&& a.enrollments[i].created_at == b.enrollments[i].created_at
        }
}

/// The enrolment that the newest-candidate rule singles out is the one that
/// `resolve_enrollment` names.
pub proof fn lemma_resolve_is(s: StoreState, course_id: Seq<char>, student: Option<Seq<char>>, i: int)
    requires
        s.newest_candidate(course_id, student, i),
    ensures
        s.resolve_enrollment(course_id, student) == Some(i),
{
    let c = choose|c: int| s.newest_candidate(course_id, student, c);
    assert(s.candidate(course_id, student, c));
    assert(s.candidate(course_id, student, i));
}

/// Which enrolment an event is booked on does not depend on when the
/// enrolments were last active.
pub proof fn lemma_resolve_stable(
    a: StoreState,
    b: StoreState,
    course_id: Seq<char>,
    student: Option<Seq<char>>,
)
    requires
        same_enrollments(a, b),
    ensures
        a.resolve_enrollment(course_id, student) == b.resolve_enrollment(course_id, student),
{
    assert forall|i: int|
        a.candidate(course_id, student, i) == b.candidate(course_id, student, i) by {
        if 0 <= i < a.enrollments.len() {
            assert(a.enrollments[i].id == b.enrollments[i].id);
        }
    }
    if exists|i: int| a.newest_candidate(course_id, student, i) {
        let i = choose|i: int| a.newest_candidate(course_id, student, i);
        assert(b.newest_candidate(course_id, student, i)) by {
            assert forall|j: int| #[trigger]
                b.candidate(course_id, student, j) && j != i implies {
                ||| b.enrollments[j].created_at < b.enrollments[i].created_at
                ||| (b.enrollments[j].created_at == b.enrollments[i].created_at && i < j)
            } by {
                assert(a.candidate(course_id, student, j));
                assert(a.enrollments[j].id == b.enrollments[j].id);
                assert(a.enrollments[i].id == b.enrollments[i].id);
            }
        }
        lemma_resolve_is(b, course_id, student, i);
    } else if exists|i: int| b.newest_candidate(course_id, student, i) {
        let i = choose|i: int| b.newest_candidate(course_id, student, i);
        assert(a.newest_candidate(course_id, student, i)) by {
            assert forall|j: int| #[trigger]
                a.candidate(course_id, student, j) && j != i implies {
                ||| a.enrollments[j].created_at < a.enrollments[i].created_at
                ||| (a.enrollments[j].created_at == a.enrollments[i].created_at && i < j)
            } by {
                assert(b.candidate(course_id, student, j));
                assert(a.enrollments[j].id == b.enrollments[j].id);
                assert(a.enrollments[i].id == b.enrollments[i].id);
            }
        }
        assert(false);
    }
}

/// Where two stores agree on the enrolments, an event on a content item
/// belongs to the same place in both.
pub proof fn lemma_locate_stable(
    a: StoreState,
    b: StoreState,
    catalog: CatalogState,
    enrollment: Option<Seq<char>>,
    content_id: Seq<char>,
)
    requires
        same_enrollments(a, b),
    ensures
        a.locate(catalog, enrollment, content_id) == b.locate(catalog, enrollment, content_id),
{
    match index_of(catalog.content_blocks, content_id) {
        Some(blk) => match index_of(catalog.modules, catalog.content_blocks[blk].module_id@) {
            Some(m) => {
                lemma_book_on_stable(a, b, enrollment, catalog.modules[m].course_id@);
            },
            None => {},
        },
        None => {},
    }
}

/// Where two stores agree on the enrolments, an event in a course is booked
/// on the same enrolment in both.
pub proof fn lemma_book_on_stable(
    a: StoreState,
    b: StoreState,
    enrollment: Option<Seq<char>>,
    course_id: Seq<char>,
)
    requires
        same_enrollments(a, b),
    ensures
        a.book_on(enrollment, course_id) == b.book_on(enrollment, course_id),
{
    match enrollment {
        Some(id) => {
            lemma_index_of(a.enrollments, id);
            lemma_index_of(b.enrollments, id);
            match index_of(a.enrollments, id) {
                Some(i) => {
                    assert(a.enrollments[i].id == b.enrollments[i].id);
                    assert forall|j: int| 0 <= j < i implies #[trigger] b.enrollments[j].key()
                        != id by {
                        assert(a.enrollments[j].id == b.enrollments[j].id);
                        assert(a.enrollments[j].key() != id);
                    }
                    lemma_index_of_found(b.enrollments, id, i);
                },
                None => {
                    assert forall|j: int|
                        0 <= j < b.enrollments.len() implies #[trigger] b.enrollments[j].key()
                        != id by {
                        assert(a.enrollments[j].id == b.enrollments[j].id);
                        assert(a.enrollments[j].key() != id);
                    }
                    lemma_index_of_absent(b.enrollments, id);
                },
            }
        },
        None => {
            lemma_resolve_stable(a, b, course_id, None);
        },
    }
}

/// What recording a completion does to the completion of every content item:
/// the recorded item is now completed, and nothing else has changed.
pub proof fn lemma_completed_marks_one(s: StoreState, e: int, block: ContentBlock, now: i64)
    requires
        s.wf(),
        0 <= e < s.enrollments.len(),
    ensures
        s.with_completed(e, block, now).wf(),
        forall|x: Seq<char>, y: Seq<char>|
            #![trigger s.with_completed(e, block, now).content_done(x, y)]
            s.with_completed(e, block, now).content_done(x, y) == (s.content_done(x, y) || (x
                == s.enrollments[e].id@ && y == block.id@)),
{
    let after = s.with_completed(e, block, now);
    let k = (s.enrollments[e].id@, block.id@);
    lemma_index_of(s.content_progress, k);
    match index_of(s.content_progress, k) {
        Some(i) => {
            lemma_update_same_key(s.content_progress, i, after.content_progress[i]);
            assert forall|x: Seq<char>, y: Seq<char>|
                #![trigger after.content_done(x, y)]
                after.content_done(x, y) == (s.content_done(x, y) || (x, y) == k) by {
                lemma_index_of(s.content_progress, (x, y));
                if (x, y) != k {
                    match index_of(s.content_progress, (x, y)) {
                        Some(p) => {
                            assert(p != i);
                        },
                        None => {},
                    }
                }
            }
        },
        None => {
            lemma_push_fresh(
                s.content_progress,
                after.content_progress[s.content_progress.len() as int],
            );
            lemma_upsert_unique(
                s.content_progress,
                after.content_progress[s.content_progress.len() as int],
            );
            assert(after.content_progress == upsert(
                s.content_progress,
                after.content_progress[s.content_progress.len() as int],
            ));
            assert forall|x: Seq<char>, y: Seq<char>|
                #![trigger after.content_done(x, y)]
                after.content_done(x, y) == (s.content_done(x, y) || (x, y) == k) by {
                lemma_index_of(s.content_progress, (x, y));
            }
        },
    }
}

/// Recording a view changes the completion of no content item.
pub proof fn lemma_viewed_marks_none(s: StoreState, e: int, block: ContentBlock, now: i64)
    requires
        s.wf(),
        0 <= e < s.enrollments.len(),
    ensures
        s.with_viewed(e, block, now).wf(),
        forall|x: Seq<char>, y: Seq<char>|
            #![trigger s.with_viewed(e, block, now).content_done(x, y)]
            s.with_viewed(e, block, now).content_done(x, y) == s.content_done(x, y),
{
    let after = s.with_viewed(e, block, now);
    let k = (s.enrollments[e].id@, block.id@);
    lemma_index_of(s.content_progress, k);
    match index_of(s.content_progress, k) {
        Some(i) => {
            lemma_update_same_key(s.content_progress, i, after.content_progress[i]);
            assert forall|x: Seq<char>, y: Seq<char>|
                #![trigger after.content_done(x, y)]
                after.content_done(x, y) == s.content_done(x, y) by {
                lemma_index_of(s.content_progress, (x, y));
            }
        },
        None => {
            lemma_push_fresh(
                s.content_progress,
                after.content_progress[s.content_progress.len() as int],
            );
            lemma_upsert_unique(
                s.content_progress,
                after.content_progress[s.content_progress.len() as int],
            );
            assert(after.content_progress == upsert(
                s.content_progress,
                after.content_progress[s.content_progress.len() as int],
            ));
            assert forall|x: Seq<char>, y: Seq<char>|
                #![trigger after.content_done(x, y)]
                after.content_done(x, y) == s.content_done(x, y) by {
                lemma_index_of(s.content_progress, (x, y));
            }
        },
    }
}

/// The count of completed items depends only on which items are completed.
pub proof fn lemma_done_count_same(
    a: StoreState,
    b: StoreState,
    catalog: CatalogState,
    enrollment_id: Seq<char>,
    module_id: Seq<char>,
    n: int,
)
    requires
        forall|y: Seq<char>|
            #![trigger a.content_done(enrollment_id, y)]
            a.content_done(enrollment_id, y) == b.content_done(enrollment_id, y),
    ensures
        a.done_upto(catalog, enrollment_id, module_id, n) == b.done_upto(
            catalog,
            enrollment_id,
            module_id,
            n,
        ),
    decreases n,
{
    if n > 0 {
        lemma_done_count_same(a, b, catalog, enrollment_id, module_id, n - 1);
        assert(a.content_done(enrollment_id, catalog.content_blocks[n - 1].id@)
            == b.content_done(enrollment_id, catalog.content_blocks[n - 1].id@));
    }
}

/// Completing the catalog's item at `blk` raises the count of its module by
/// one if the item was not completed, and leaves every count as it was
/// otherwise.
pub proof fn lemma_done_count_step(
    before: StoreState,
    after: StoreState,
    catalog: CatalogState,
    enrollment_id: Seq<char>,
    module_id: Seq<char>,
    blk: int,
    n: int,
)
    requires
        catalog.wf(),
        0 <= blk < catalog.content_blocks.len(),
        n <= catalog.content_blocks.len(),
        forall|y: Seq<char>|
            #![trigger after.content_done(enrollment_id, y)]
            after.content_done(enrollment_id, y) == (before.content_done(enrollment_id, y) || y
                == catalog.content_blocks[blk].id@),
    ensures
        after.done_upto(catalog, enrollment_id, module_id, n) == before.done_upto(
            catalog,
            enrollment_id,
            module_id,
            n,
        ) + if blk < n && catalog.content_blocks[blk].module_id@ == module_id
            && !before.content_done(enrollment_id, catalog.content_blocks[blk].id@) {
            1nat
        } else {
            0nat
        },
    decreases n,
{
    if n > 0 {
        lemma_done_count_step(before, after, catalog, enrollment_id, module_id, blk, n - 1);
        let y = catalog.content_blocks[n - 1].id@;
        assert(after.content_done(enrollment_id, y) == (before.content_done(enrollment_id, y) || y
            == catalog.content_blocks[blk].id@));
        if n - 1 != blk {
            if n - 1 < blk {
                assert(catalog.content_blocks[n - 1].key() != catalog.content_blocks[blk].key());
            } else {
                assert(catalog.content_blocks[blk].key() != catalog.content_blocks[n - 1].key());
            }
        }
    }
}

/// All content of a module is completed exactly when the count of completed
/// items reaches the count of items.
pub proof fn lemma_all_done_iff_counts_meet(
    s: StoreState,
    catalog: CatalogState,
    enrollment_id: Seq<char>,
    module_id: Seq<char>,
    n: int,
)
    requires
        0 <= n <= catalog.content_blocks.len(),
    ensures
        s.done_upto(catalog, enrollment_id, module_id, n) == catalog.content_upto(module_id, n)
            <==> forall|i: int|
            0 <= i < n && (#[trigger] catalog.content_blocks[i]).module_id@ == module_id
                ==> s.content_done(enrollment_id, catalog.content_blocks[i].id@),
    decreases n,
{
    if n > 0 {
        lemma_all_done_iff_counts_meet(s, catalog, enrollment_id, module_id, n - 1);
        lemma_done_within_total(s, catalog, enrollment_id, module_id, n - 1);
        let last = catalog.content_blocks[n - 1];
        if s.done_upto(catalog, enrollment_id, module_id, n) == catalog.content_upto(module_id, n) {
            assert forall|i: int|
                0 <= i < n && (#[trigger] catalog.content_blocks[i]).module_id@
                    == module_id implies s.content_done(
                enrollment_id,
                catalog.content_blocks[i].id@,
            ) by {}
        } else {
            if s.done_upto(catalog, enrollment_id, module_id, n - 1) == catalog.content_upto(
                module_id,
                n - 1,
            ) {
                assert(last.module_id@ == module_id && !s.content_done(enrollment_id, last.id@));
            } else {
                let i = choose|i: int|
                    0 <= i < n - 1 && (#[trigger] catalog.content_blocks[i]).module_id@ == module_id
                        && !s.content_done(enrollment_id, catalog.content_blocks[i].id@);
                assert(0 <= i < n);
            }
        }
    }
}

/// Where an event on a content item can be placed, the positions that
/// `locate` names are positions of the catalog and of the store.
pub proof fn lemma_locate_bounds(
    s: StoreState,
    catalog: CatalogState,
    enrollment: Option<Seq<char>>,
    content_id: Seq<char>,
)
    ensures
        s.locate(catalog, enrollment, content_id) matches Ok((blk, m, e)) ==> {
            &&& 0 <= blk < catalog.content_blocks.len()
            &&& catalog.content_blocks[blk].id@ == content_id
            &&& 0 <= m < catalog.modules.len()
            &&& catalog.modules[m].id@ == catalog.content_blocks[blk].module_id@
            &&& 0 <= e < s.enrollments.len()
            &&& s.enrollments[e].course_id@ == catalog.modules[m].course_id@
            &&& s.book_on(enrollment, catalog.modules[m].course_id@) == Ok::<int, StoreError>(e)
            &&& enrollment matches Some(id) ==> s.enrollments[e].id@ == id
            &&& enrollment is None ==> s.newest_candidate(catalog.modules[m].course_id@, None, e)
        },
{
    lemma_index_of(catalog.content_blocks, content_id);
    match index_of(catalog.content_blocks, content_id) {
        Some(blk) => {
            lemma_index_of(catalog.modules, catalog.content_blocks[blk].module_id@);
            match enrollment {
                Some(id) => {
                    lemma_index_of(s.enrollments, id);
                },
                None => {},
            }
        },
        None => {},
    }
}

/// What the cascade leaves alone: content progress, students, attempts and
/// answers, and of the enrolments all but the time of the last activity. It
/// keeps the store well formed.
pub proof fn lemma_cascade_frame(
    s: StoreState,
    catalog: CatalogState,
    e: int,
    module_id: Seq<char>,
    now: i64,
)
    requires
        s.wf(),
        catalog.wf(),
        0 <= e < s.enrollments.len(),
    ensures
        s.cascade(catalog, e, module_id, now).wf(),
        s.cascade(catalog, e, module_id, now).content_progress == s.content_progress,
        s.cascade(catalog, e, module_id, now).students == s.students,
        s.cascade(catalog, e, module_id, now).quiz_attempts == s.quiz_attempts,
        s.cascade(catalog, e, module_id, now).quiz_answers == s.quiz_answers,
        s.cascade(catalog, e, module_id, now).module_progress.len() == s.module_progress.len(),
        same_enrollments(s, s.cascade(catalog, e, module_id, now)),
        forall|k: (Seq<char>, Seq<char>)|
            index_of(s.cascade(catalog, e, module_id, now).module_progress, k) == index_of(
                s.module_progress,
                k,
            ),
{
    let after = s.cascade(catalog, e, module_id, now);
    let enrollment = s.enrollments[e];
    lemma_update_same_key(s.enrollments, e, after.enrollments[e]);
    lemma_index_of(s.module_progress, (enrollment.id@, module_id));
    lemma_done_within_total(
        s,
        catalog,
        enrollment.id@,
        module_id,
        catalog.content_blocks.len() as int,
    );
    let done = s.done_count(catalog, enrollment.id@, module_id);
    let total = catalog.content_count(module_id);
    if total > 0 {
        lemma_percentage(done, total);
    }
    match index_of(s.module_progress, (enrollment.id@, module_id)) {
        Some(p) => {
            lemma_update_same_key(s.module_progress, p, after.module_progress[p]);
            assert forall|i: int| 0 <= i < after.module_progress.len() implies {
                &&& (#[trigger] after.module_progress[i]).counts_ok()
                &&& after.module_progress[i].content_completion_percentage <= 100
            } by {
                if i != p {
                    assert(s.module_progress[i].counts_ok());
                }
            }
        },
        None => {},
    }
}

/// Running the cascade a second time at the same moment changes nothing.
pub proof fn lemma_cascade_settles(
    s: StoreState,
    catalog: CatalogState,
    e: int,
    module_id: Seq<char>,
    now: i64,
)
    requires
        s.wf(),
        catalog.wf(),
        0 <= e < s.enrollments.len(),
    ensures
        s.cascade(catalog, e, module_id, now).cascade(catalog, e, module_id, now) == s.cascade(
            catalog,
            e,
            module_id,
            now,
        ),
{
    let once = s.cascade(catalog, e, module_id, now);
    let twice = once.cascade(catalog, e, module_id, now);
    let enrollment = s.enrollments[e];
    lemma_cascade_frame(s, catalog, e, module_id, now);
    lemma_cascade_frame(once, catalog, e, module_id, now);
    lemma_cascade_reads(s, once, catalog, e, module_id);
    assert(once.enrollments[e].id == enrollment.id);
    lemma_index_of(s.module_progress, (enrollment.id@, module_id));
    assert(twice.enrollments =~= once.enrollments);
    assert(twice.module_progress =~= once.module_progress);
}

/// What the cascade reads: two stores that agree on students, content
/// progress and attempts, and on the enrolment at `e`, count the same and
/// decide the same.
pub proof fn lemma_cascade_reads(
    a: StoreState,
    b: StoreState,
    catalog: CatalogState,
    e: int,
    module_id: Seq<char>,
)
    requires
        a.students == b.students,
        a.content_progress == b.content_progress,
        a.quiz_attempts == b.quiz_attempts,
        0 <= e < a.enrollments.len(),
        e < b.enrollments.len(),
        a.enrollments[e].id == b.enrollments[e].id,
        a.enrollments[e].student_id == b.enrollments[e].student_id,
    ensures
        a.done_count(catalog, a.enrollments[e].id@, module_id) == b.done_count(
            catalog,
            a.enrollments[e].id@,
            module_id,
        ),
        a.quiz_passed(catalog, a.enrollments[e].student_id@, module_id) == b.quiz_passed(
            catalog,
            a.enrollments[e].student_id@,
            module_id,
        ),
        a.should_auto_complete(catalog, e, module_id) == b.should_auto_complete(
            catalog,
            e,
            module_id,
        ),
{
    let eid = a.enrollments[e].id@;
    let sid = a.enrollments[e].student_id@;
    lemma_done_count_same(a, b, catalog, eid, module_id, catalog.content_blocks.len() as int);
    if a.quiz_passed(catalog, sid, module_id) {
        let i = choose|i: int|
            0 <= i < a.quiz_attempts.len() && a.is_pass_for(
                catalog,
                #[trigger] a.quiz_attempts[i],
                sid,
                module_id,
            );
        assert(b.is_pass_for(catalog, b.quiz_attempts[i], sid, module_id));
    }
    if b.quiz_passed(catalog, sid, module_id) {
        let i = choose|i: int|
            0 <= i < b.quiz_attempts.len() && b.is_pass_for(
                catalog,
                #[trigger] b.quiz_attempts[i],
                sid,
                module_id,
            );
        assert(a.is_pass_for(catalog, a.quiz_attempts[i], sid, module_id));
    }
}

/// Recording a completion that was recorded at the same moment changes no
/// row.
pub proof fn lemma_recorded_twice(s: StoreState, e: int, block: ContentBlock, now: i64)
    requires
        s.wf(),
        0 <= e < s.enrollments.len(),
    ensures
        ({
            let rows = s.with_completed(e, block, now).content_progress;
            let k = (s.enrollments[e].id@, block.id@);
            index_of(rows, k) matches Some(i) && 0 <= i < rows.len() && rows[i].is_completed
                && rows[i].completed_at == Some(now) && rows[i].updated_at == now
        }),
{
    let after = s.with_completed(e, block, now);
    let k = (s.enrollments[e].id@, block.id@);
    lemma_index_of(s.content_progress, k);
    match index_of(s.content_progress, k) {
        Some(i) => {
            lemma_update_same_key(s.content_progress, i, after.content_progress[i]);
        },
        None => {
            lemma_push_fresh(
                s.content_progress,
                after.content_progress[s.content_progress.len() as int],
            );
        },
    }
}

/// Whether a quiz was passed depends only on the students and the attempts.
pub proof fn lemma_quiz_passed_reads(
    a: StoreState,
    b: StoreState,
    catalog: CatalogState,
    student_id: Seq<char>,
    module_id: Seq<char>,
)
    requires
        a.students == b.students,
        a.quiz_attempts == b.quiz_attempts,
    ensures
        a.quiz_passed(catalog, student_id, module_id) == b.quiz_passed(
            catalog,
            student_id,
            module_id,
        ),
{
    if a.quiz_passed(catalog, student_id, module_id) {
        let i = choose|i: int|
            0 <= i < a.quiz_attempts.len() && a.is_pass_for(
                catalog,
                #[trigger] a.quiz_attempts[i],
                student_id,
                module_id,
            );
        assert(b.is_pass_for(catalog, b.quiz_attempts[i], student_id, module_id));
    }
    if b.quiz_passed(catalog, student_id, module_id) {
        let i = choose|i: int|
            0 <= i < b.quiz_attempts.len() && b.is_pass_for(
                catalog,
                #[trigger] b.quiz_attempts[i],
                student_id,
                module_id,
            );
        assert(a.is_pass_for(catalog, a.quiz_attempts[i], student_id, module_id));
    }
}

/// A module that holds the catalog's item at `blk` has at least one item.
pub proof fn lemma_module_has_content(catalog: CatalogState, blk: int, n: int)
    requires
        0 <= blk < n,
    ensures
        catalog.content_upto(catalog.content_blocks[blk].module_id@, n) >= 1,
    decreases n,
{
    if n - 1 > blk {
        lemma_module_has_content(catalog, blk, n - 1);
    }
}

/// What marking a content item as completed changes and what it leaves: the
/// store stays well formed; the item is now completed under the enrolment
/// that the event was booked on, and no other completion has changed; the
/// enrolments are the same but for the time of the last activity; and every
/// module progress row is where it was.
pub proof fn lemma_mark_completed_effect(
    s: StoreState,
    catalog: CatalogState,
    enrollment: Option<Seq<char>>,
    content_id: Seq<char>,
    now: i64,
)
    requires
        s.wf(),
        catalog.wf(),
    ensures
        s.mark_completed(catalog, enrollment, content_id, now) matches Ok(after)
            ==> s.locate(
            catalog,
            enrollment,
            content_id,
        ) matches Ok((blk, m, e)) && {
            &&& after.wf()
            &&& same_enrollments(s, after)
            &&& after.quiz_attempts == s.quiz_attempts
            &&& after.module_progress.len() == s.module_progress.len()
            &&& forall|k: (Seq<char>, Seq<char>)|
                index_of(after.module_progress, k) == index_of(s.module_progress, k)
            &&& forall|x: Seq<char>, y: Seq<char>|
                #![trigger after.content_done(x, y)]
                after.content_done(x, y) == (s.content_done(x, y) || (x == s.enrollments[e].id@ && y
                    == content_id))
        },
{
    lemma_locate_bounds(s, catalog, enrollment, content_id);
    match s.locate(catalog, enrollment, content_id) {
        Ok((blk, m, e)) => {
            let block = catalog.content_blocks[blk];
            let recorded = s.with_completed(e, block, now);
            let after = recorded.cascade(catalog, e, block.module_id@, now);
            lemma_completed_marks_one(s, e, block, now);
            lemma_cascade_frame(recorded, catalog, e, block.module_id@, now);
            assert forall|x: Seq<char>, y: Seq<char>| #![trigger after.content_done(x, y)]
                after.content_done(x, y) == (s.content_done(x, y) || (x == s.enrollments[e].id@ && y
                    == content_id)) by {
                assert(after.content_done(x, y) == recorded.content_done(x, y));
            }
        },
        Err(_) => {},
    }
}

} // verus!
