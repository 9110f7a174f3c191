//! The catalog: which modules a course has, which content items a module
//! has, and which quiz belongs to which module. The progress rules read it
//! and never change it.

use vstd::prelude::*;

use crate::error::{Entity, StoreError};
use crate::listing::{is_ranking_of, rank_rows};
use crate::records::{ContentBlock, Module, Question, Quiz};
use crate::table::{
    as_index, index_of, lemma_index_of_absent, lemma_index_of_found, lemma_take_ends,
    lemma_take_next, store_row, unique_keys, upsert, upsert_all,
};

verus! {

/// The modules of the course `course_id`, as a selection.
pub open spec fn of_course(course_id: Seq<char>) -> spec_fn(Module) -> bool {
    |module: Module| module.course_id@ == course_id
}

/// The questions of the quiz `quiz_id`, as a selection.
pub open spec fn of_quiz(quiz_id: Seq<char>) -> spec_fn(Question) -> bool {
    |question: Question| question.quiz_id@ == quiz_id
}

/// What a catalog holds.
pub struct CatalogState {
    pub modules: Seq<Module>,
    pub content_blocks: Seq<ContentBlock>,
    pub quizzes: Seq<Quiz>,
    pub questions: Seq<Question>,
}

impl CatalogState {
    /// No identifier names two modules, two content items, two quizzes or
    /// two questions, and the content items can be counted in a machine word.
    pub open spec fn wf(self) -> bool {
        &&& unique_keys(self.modules)
        &&& unique_keys(self.content_blocks)
        &&& unique_keys(self.quizzes)
        &&& unique_keys(self.questions)
        &&& self.content_blocks.len() <= usize::MAX
    }

    /// What the first `n` questions that belong to the quiz `quiz_id` are
    /// worth together, in hundredths of a point.
    pub open spec fn points_upto(self, quiz_id: Seq<char>, n: int) -> nat
        decreases n,
    {
        if n <= 0 {
            0
        } else {
            self.points_upto(quiz_id, n - 1) + if self.questions[n - 1].quiz_id@ == quiz_id {
                self.questions[n - 1].points as nat
            } else {
                0nat
            }
        }
    }

    /// What the questions of the quiz `quiz_id` are worth together, in
    /// hundredths of a point.
    pub open spec fn points_possible(self, quiz_id: Seq<char>) -> nat {
        self.points_upto(quiz_id, self.questions.len() as int)
    }

    /// The number of modules among the first `n` that belong to `course_id`.
    pub open spec fn modules_upto(self, course_id: Seq<char>, n: int) -> nat
        decreases n,
    {
        if n <= 0 {
            0
        } else {
            self.modules_upto(course_id, n - 1) + if self.modules[n - 1].course_id@ == course_id {
                1nat
            } else {
                0nat
            }
        }
    }

    /// The number of modules of the course `course_id`.
    pub open spec fn module_count(self, course_id: Seq<char>) -> nat {
        self.modules_upto(course_id, self.modules.len() as int)
    }

    /// The number of content items among the first `n` that belong to
    /// `module_id`.
    pub open spec fn content_upto(self, module_id: Seq<char>, n: int) -> nat
        decreases n,
    {
        if n <= 0 {
            0
        } else {
            self.content_upto(module_id, n - 1) + if self.content_blocks[n - 1].module_id@
                == module_id {
                1nat
            } else {
                0nat
            }
        }
    }

    /// The number of content items of the module `module_id`.
    pub open spec fn content_count(self, module_id: Seq<char>) -> nat {
        self.content_upto(module_id, self.content_blocks.len() as int)
    }

    /// The quiz at `i` is the first quiz of the module `module_id`.
    pub open spec fn first_quiz_of(self, module_id: Seq<char>, i: int) -> bool {
        &&& 0 <= i < self.quizzes.len()
        &&& self.quizzes[i].is_for(module_id)
        &&& forall|j: int| 0 <= j < i ==> !(#[trigger] self.quizzes[j]).is_for(module_id)
    }

    /// Whether the module `module_id` is marked as having a quiz. A module
    /// that the catalog does not know has none.
    pub open spec fn module_has_quiz(self, module_id: Seq<char>) -> bool {
        match index_of(self.modules, module_id) {
            Some(i) => self.modules[i].has_quiz,
            None => false,
        }
    }
}

/// The catalog.
pub struct Catalog {
    modules: Vec<Module>,
    content_blocks: Vec<ContentBlock>,
    quizzes: Vec<Quiz>,
    questions: Vec<Question>,
}

impl View for Catalog {
    type V = CatalogState;

    closed spec fn view(&self) -> CatalogState {
        CatalogState {
            modules: self.modules@,
            content_blocks: self.content_blocks@,
            quizzes: self.quizzes@,
            questions: self.questions@,
        }
    }
}

impl Catalog {
    /// The invariant of a catalog: see [`CatalogState::wf`].
    pub open spec fn wf(&self) -> bool {
        self@.wf()
    }

    /// A catalog that holds nothing.
    pub fn new() -> (r: Catalog)
        ensures
            r.wf(),
            r@.modules.len() == 0,
            r@.content_blocks.len() == 0,
            r@.quizzes.len() == 0,
            r@.questions.len() == 0,
    {
        Catalog {
            modules: Vec::new(),
            content_blocks: Vec::new(),
            quizzes: Vec::new(),
            questions: Vec::new(),
        }
    }

    /// The modules, in the order in which they were first stored.
    pub fn modules(&self) -> (r: &Vec<Module>)
        ensures
            r@ == self@.modules,
    {
        &self.modules
    }

    /// The content items, in the order in which they were first stored.
    pub fn content_blocks(&self) -> (r: &Vec<ContentBlock>)
        ensures
            r@ == self@.content_blocks,
    {
        &self.content_blocks
    }

    /// The quizzes, in the order in which they were first stored.
    pub fn quizzes(&self) -> (r: &Vec<Quiz>)
        ensures
            r@ == self@.quizzes,
    {
        &self.quizzes
    }

    /// Where the module `id` is.
    pub fn find_module(&self, id: &str) -> (r: Option<usize>)
        ensures
            as_index(r) == index_of(self@.modules, id@),
            r matches Some(i) ==> i < self@.modules.len() && self@.modules[i as int].id@ == id@,
    {
        let probe = id.to_owned();
        let mut i: usize = 0;
        while i < self.modules.len()
            invariant
                i <= self.modules.len(),
                probe@ == id@,
                forall|j: int| 0 <= j < i ==> (#[trigger] self.modules@[j]).id@ != id@,
            decreases self.modules.len() - i,
        {
            if self.modules[i].id == probe {
                proof {
                    lemma_index_of_found(self.modules@, id@, i as int);
                }
                return Some(i);
            }
            i += 1;
        }
        proof {
            lemma_index_of_absent(self.modules@, id@);
        }
        None
    }

    /// Where the content item `id` is.
    pub fn find_content_block(&self, id: &str) -> (r: Option<usize>)
        ensures
            as_index(r) == index_of(self@.content_blocks, id@),
            r matches Some(i) ==> i < self@.content_blocks.len()
                && self@.content_blocks[i as int].id@ == id@,
    {
        let probe = id.to_owned();
        let mut i: usize = 0;
        while i < self.content_blocks.len()
            invariant
                i <= self.content_blocks.len(),
                probe@ == id@,
                forall|j: int| 0 <= j < i ==> (#[trigger] self.content_blocks@[j]).id@ != id@,
            decreases self.content_blocks.len() - i,
        {
            if self.content_blocks[i].id == probe {
                proof {
                    lemma_index_of_found(self.content_blocks@, id@, i as int);
                }
                return Some(i);
            }
            i += 1;
        }
        proof {
            lemma_index_of_absent(self.content_blocks@, id@);
        }
        None
    }

    /// Where the quiz `id` is.
    pub fn find_quiz(&self, id: &str) -> (r: Option<usize>)
        ensures
            as_index(r) == index_of(self@.quizzes, id@),
            r matches Some(i) ==> i < self@.quizzes.len() && self@.quizzes[i as int].id@ == id@,
    {
        let probe = id.to_owned();
        let mut i: usize = 0;
        while i < self.quizzes.len()
            invariant
                i <= self.quizzes.len(),
                probe@ == id@,
                forall|j: int| 0 <= j < i ==> (#[trigger] self.quizzes@[j]).id@ != id@,
            decreases self.quizzes.len() - i,
        {
            if self.quizzes[i].id == probe {
                proof {
                    lemma_index_of_found(self.quizzes@, id@, i as int);
                }
                return Some(i);
            }
            i += 1;
        }
        proof {
            lemma_index_of_absent(self.quizzes@, id@);
        }
        None
    }

    /// Where the quiz of the module `module_id` is: the first one stored, if
    /// the module has several; `None` if it has none.
    pub fn quiz_for_module(&self, module_id: &str) -> (r: Option<usize>)
        ensures
            match r {
                Some(i) => self@.first_quiz_of(module_id@, i as int),
                None => forall|j: int|
                    0 <= j < self@.quizzes.len() ==> !(#[trigger] self@.quizzes[j]).is_for(
                        module_id@,
                    ),
            },
    {
        let probe = module_id.to_owned();
        let mut i: usize = 0;
        while i < self.quizzes.len()
            invariant
                i <= self.quizzes.len(),
                probe@ == module_id@,
                forall|j: int| 0 <= j < i ==> !(#[trigger] self.quizzes@[j]).is_for(module_id@),
            decreases self.quizzes.len() - i,
        {
            let of_module = match &self.quizzes[i].module_id {
                Some(m) => *m == probe,
                None => false,
            };
            if of_module {
                return Some(i);
            }
            i += 1;
        }
        None
    }

    /// Stores a module: it replaces the module with its identifier, or is
    /// added when the identifier is new.
    pub fn save_module(&mut self, module: Module)
        requires
            old(self).wf(),
        ensures
            final(self).wf(),
            final(self)@ == (CatalogState {
                modules: upsert(old(self)@.modules, module),
                ..old(self)@
            }),
    {
        let at = self.find_module(module.id.as_str());
        store_row(&mut self.modules, at, module);
    }

    /// Stores a content item: it replaces the item with its identifier, or is
    /// added when the identifier is new.
    pub fn save_content_block(&mut self, block: ContentBlock)
        requires
            old(self).wf(),
        ensures
            final(self).wf(),
            final(self)@ == (CatalogState {
                content_blocks: upsert(old(self)@.content_blocks, block),
                ..old(self)@
            }),
    {
        let at = self.find_content_block(block.id.as_str());
        store_row(&mut self.content_blocks, at, block);
        assert(self.content_blocks.len() <= usize::MAX);
    }

    /// Stores a quiz: it replaces the quiz with its identifier, or is added
    /// when the identifier is new.
    pub fn save_quiz(&mut self, quiz: Quiz)
        requires
            old(self).wf(),
        ensures
            final(self).wf(),
            final(self)@ == (CatalogState { quizzes: upsert(old(self)@.quizzes, quiz), ..old(self)@ }),
    {
        let at = self.find_quiz(quiz.id.as_str());
        store_row(&mut self.quizzes, at, quiz);
    }

    /// The number of modules of the course `course_id`.
    pub fn count_modules(&self, course_id: &str) -> (r: usize)
        ensures
            r == self@.module_count(course_id@),
    {
        let probe = course_id.to_owned();
        let mut n: usize = 0;
        let mut i: usize = 0;
        while i < self.modules.len()
            invariant
                i <= self.modules.len(),
                probe@ == course_id@,
                n <= i,
                n == self@.modules_upto(course_id@, i as int),
            decreases self.modules.len() - i,
        {
            if self.modules[i].course_id == probe {
                n += 1;
            }
            i += 1;
        }
        n
    }

    /// The number of content items of the module `module_id`.
    pub fn count_content(&self, module_id: &str) -> (r: usize)
        ensures
            r == self@.content_count(module_id@),
    {
        let probe = module_id.to_owned();
        let mut n: usize = 0;
        let mut i: usize = 0;
        while i < self.content_blocks.len()
            invariant
                i <= self.content_blocks.len(),
                probe@ == module_id@,
                n <= i,
                n == self@.content_upto(module_id@, i as int),
            decreases self.content_blocks.len() - i,
        {
            if self.content_blocks[i].module_id == probe {
                n += 1;
            }
            i += 1;
        }
        n
    }

    /// Whether the module `module_id` is marked as having a quiz.
    pub fn module_has_quiz(&self, module_id: &str) -> (r: bool)
        ensures
            r == self@.module_has_quiz(module_id@),
    {
        match self.find_module(module_id) {
            Some(i) => self.modules[i].has_quiz,
            None => false,
        }
    }
}

impl Catalog {
    /// The questions, in the order in which they were first stored.
    pub fn questions(&self) -> (r: &Vec<Question>)
        ensures
            r@ == self@.questions,
    {
        &self.questions
    }

    /// Where the question `id` is.
    pub fn find_question(&self, id: &str) -> (r: Option<usize>)
        ensures
            as_index(r) == index_of(self@.questions, id@),
            r matches Some(i) ==> i < self@.questions.len() && self@.questions[i as int].id@ == id@,
    {
        let probe = id.to_owned();
        let mut i: usize = 0;
        while i < self.questions.len()
            invariant
                i <= self.questions.len(),
                probe@ == id@,
                forall|j: int| 0 <= j < i ==> (#[trigger] self.questions@[j]).id@ != id@,
            decreases self.questions.len() - i,
        {
            if self.questions[i].id == probe {
                proof {
                    lemma_index_of_found(self.questions@, id@, i as int);
                }
                return Some(i);
            }
            i += 1;
        }
        proof {
            lemma_index_of_absent(self.questions@, id@);
        }
        None
    }

    /// Stores a question: it replaces the question with its identifier, or
    /// is added when the identifier is new.
    pub fn save_question(&mut self, question: Question)
        requires
            old(self).wf(),
        ensures
            final(self).wf(),
            final(self)@ == (CatalogState {
                questions: upsert(old(self)@.questions, question),
                ..old(self)@
            }),
    {
        let at = self.find_question(question.id.as_str());
        store_row(&mut self.questions, at, question);
    }

    /// Stores modules one after the other, and returns how many were given.
    pub fn save_modules_bulk(&mut self, modules: &Vec<Module>) -> (r: usize)
        requires
            old(self).wf(),
        ensures
            final(self).wf(),
            final(self)@ == (CatalogState {
                modules: upsert_all(old(self)@.modules, modules@, modules@.len() as int),
                ..old(self)@
            }),
            r == modules@.len(),
    {
        let mut i: usize = 0;
        while i < modules.len()
            invariant
                i <= modules.len(),
                self.wf(),
                self@ == (CatalogState {
                    modules: upsert_all(old(self)@.modules, modules@, i as int),
                    ..old(self)@
                }),
            decreases modules.len() - i,
        {
            self.save_module(modules[i].duplicate());
            i += 1;
        }
        i
    }

    /// Stores content items one after the other, and returns how many were
    /// given.
    pub fn save_content_blocks_bulk(&mut self, blocks: &Vec<ContentBlock>) -> (r: usize)
        requires
            old(self).wf(),
        ensures
            final(self).wf(),
            final(self)@ == (CatalogState {
                content_blocks: upsert_all(old(self)@.content_blocks, blocks@, blocks@.len() as int),
                ..old(self)@
            }),
            r == blocks@.len(),
    {
        let mut i: usize = 0;
        while i < blocks.len()
            invariant
                i <= blocks.len(),
                self.wf(),
                self@ == (CatalogState {
                    content_blocks: upsert_all(old(self)@.content_blocks, blocks@, i as int),
                    ..old(self)@
                }),
            decreases blocks.len() - i,
        {
            self.save_content_block(blocks[i].duplicate());
            i += 1;
        }
        i
    }

    /// Stores questions one after the other, and returns how many were
    /// given.
    pub fn save_questions_bulk(&mut self, questions: &Vec<Question>) -> (r: usize)
        requires
            old(self).wf(),
        ensures
            final(self).wf(),
            final(self)@ == (CatalogState {
                questions: upsert_all(old(self)@.questions, questions@, questions@.len() as int),
                ..old(self)@
            }),
            r == questions@.len(),
    {
        let mut i: usize = 0;
        while i < questions.len()
            invariant
                i <= questions.len(),
                self.wf(),
                self@ == (CatalogState {
                    questions: upsert_all(old(self)@.questions, questions@, i as int),
                    ..old(self)@
                }),
            decreases questions.len() - i,
        {
            self.save_question(questions[i].duplicate());
            i += 1;
        }
        i
    }

    /// What the questions of the quiz `quiz_id` are worth together, in
    /// hundredths of a point.
    pub fn sum_points(&self, quiz_id: &str) -> (r: u128)
        ensures
            r == self@.points_possible(quiz_id@),
    {
        let probe = quiz_id.to_owned();
        let mut sum: u128 = 0;
        let mut i: usize = 0;
        while i < self.questions.len()
            invariant
                i <= self.questions.len(),
                probe@ == quiz_id@,
                sum <= i * 0xffff_ffff,
                sum == self@.points_upto(quiz_id@, i as int),
            decreases self.questions.len() - i,
        {
            if self.questions[i].quiz_id == probe {
                sum = sum + self.questions[i].points as u128;
            }
            i += 1;
        }
        sum
    }
}

impl Catalog {
    /// The modules of the course `course_id` in their order; modules with
    /// the same place in the order in which they were first stored.
    pub fn get_course_modules(&self, course_id: &str) -> (r: Vec<Module>)
        ensures
            is_ranking_of(r@, self@.modules.filter(of_course(course_id@))),
    {
        let probe = course_id.to_owned();
        let ghost pred = of_course(course_id@);
        let mut picked: Vec<Module> = Vec::new();
        let mut i: usize = 0;
        proof {
            lemma_take_ends(self.modules@, pred);
        }
        while i < self.modules.len()
            invariant
                i <= self.modules.len(),
                probe@ == course_id@,
                pred == of_course(course_id@),
                picked@ == self.modules@.take(i as int).filter(pred),
            decreases self.modules.len() - i,
        {
            proof {
                lemma_take_next(self.modules@, i as int);
                self.modules@.take(i as int).lemma_filter_push(self.modules@[i as int], pred);
            }
            if self.modules[i].course_id == probe {
                picked.push(self.modules[i].duplicate());
            }
            i += 1;
        }
        proof {
            lemma_take_ends(self.modules@, pred);
        }
        rank_rows(picked)
    }

    /// The questions of the quiz `quiz_id` in their order; questions with
    /// the same place in the order in which they were first stored.
    pub fn get_quiz_questions(&self, quiz_id: &str) -> (r: Vec<Question>)
        ensures
            is_ranking_of(r@, self@.questions.filter(of_quiz(quiz_id@))),
    {
        let probe = quiz_id.to_owned();
        let ghost pred = of_quiz(quiz_id@);
        let mut picked: Vec<Question> = Vec::new();
        let mut i: usize = 0;
        proof {
            lemma_take_ends(self.questions@, pred);
        }
        while i < self.questions.len()
            invariant
                i <= self.questions.len(),
                probe@ == quiz_id@,
                pred == of_quiz(quiz_id@),
                picked@ == self.questions@.take(i as int).filter(pred),
            decreases self.questions.len() - i,
        {
            proof {
                lemma_take_next(self.questions@, i as int);
                self.questions@.take(i as int).lemma_filter_push(self.questions@[i as int], pred);
            }
            if self.questions[i].quiz_id == probe {
                picked.push(self.questions[i].duplicate());
            }
            i += 1;
        }
        proof {
            lemma_take_ends(self.questions@, pred);
        }
        rank_rows(picked)
    }

    /// The module `module_id`; `NotFound` when the catalog has none.
    pub fn get_module_by_id(&self, module_id: &str) -> (r: Result<Module, StoreError>)
        ensures
            match index_of(self@.modules, module_id@) {
                Some(i) => r == Ok::<Module, StoreError>(self@.modules[i]),
                None => r == Err::<Module, StoreError>(StoreError::NotFound(Entity::Module)),
            },
    {
        match self.find_module(module_id) {
            Some(i) => Ok(self.modules[i].duplicate()),
            None => Err(StoreError::NotFound(Entity::Module)),
        }
    }

    /// The content item `content_id`; `NotFound` when the catalog has none.
    pub fn get_content_block_by_id(&self, content_id: &str) -> (r: Result<ContentBlock, StoreError>)
        ensures
            match index_of(self@.content_blocks, content_id@) {
                Some(i) => r == Ok::<ContentBlock, StoreError>(self@.content_blocks[i]),
                None => r == Err::<ContentBlock, StoreError>(StoreError::NotFound(Entity::Content)),
            },
    {
        match self.find_content_block(content_id) {
            Some(i) => Ok(self.content_blocks[i].duplicate()),
            None => Err(StoreError::NotFound(Entity::Content)),
        }
    }

    /// The quiz `quiz_id`; `NotFound` when the catalog has none.
    pub fn get_quiz_by_id(&self, quiz_id: &str) -> (r: Result<Quiz, StoreError>)
        ensures
            match index_of(self@.quizzes, quiz_id@) {
                Some(i) => r == Ok::<Quiz, StoreError>(self@.quizzes[i]),
                None => r == Err::<Quiz, StoreError>(StoreError::NotFound(Entity::Quiz)),
            },
    {
        match self.find_quiz(quiz_id) {
            Some(i) => Ok(self.quizzes[i].duplicate()),
            None => Err(StoreError::NotFound(Entity::Quiz)),
        }
    }

    /// The quiz of the module `module_id`: the first one stored, if the
    /// module has several; `NotFound` when it has none.
    pub fn get_module_quiz(&self, module_id: &str) -> (r: Result<Quiz, StoreError>)
        ensures
            match r {
                Ok(quiz) => exists|i: int|
                    self@.first_quiz_of(module_id@, i) && quiz == #[trigger] self@.quizzes[i],
                Err(e) => e == StoreError::NotFound(Entity::Quiz) && forall|j: int|
                    0 <= j < self@.quizzes.len() ==> !(#[trigger] self@.quizzes[j]).is_for(
                        module_id@,
                    ),
            },
    {
        match self.quiz_for_module(module_id) {
            Some(i) => Ok(self.quizzes[i].duplicate()),
            None => Err(StoreError::NotFound(Entity::Quiz)),
        }
    }
}

} // verus!
