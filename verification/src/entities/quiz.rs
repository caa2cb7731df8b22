use vstd::prelude::*;
use vstd::pervasive::cloned;

verus! {

/// A write-once localized text record; every user-facing string elsewhere
/// refers to one of these rows by id.
#[derive(Debug)]
pub struct Translation {
    pub id: String,
    pub language_code: String,
    pub content: String,
}

pub ghost struct TranslationV {
    pub id: Seq<char>,
    pub language_code: Seq<char>,
    pub content: Seq<char>,
}

impl View for Translation {
    type V = TranslationV;

    open spec fn view(&self) -> TranslationV {
        TranslationV {
            id: self.id@,
            language_code: self.language_code@,
            content: self.content@,
        }
    }
}

impl DeepView for Translation {
    type V = TranslationV;

    open spec fn deep_view(&self) -> TranslationV {
        self.view()
    }
}

impl Clone for Translation {
    fn clone(&self) -> (r: Self)
        ensures
            r@ == self@,
    {
        Translation {
            id: self.id.clone(),
            language_code: self.language_code.clone(),
            content: self.content.clone(),
        }
    }
}

/// A question whose answer is picked from an ordered list of choices.
#[derive(Debug)]
pub struct MultipleChoiceQuestion {
    pub answers: Vec<String>,
    pub correct_answer: i32,
}

pub ghost struct MultipleChoiceQuestionV {
    pub answers: Seq<Seq<char>>,
    pub correct_answer: i32,
}

impl View for MultipleChoiceQuestion {
    type V = MultipleChoiceQuestionV;

    open spec fn view(&self) -> MultipleChoiceQuestionV {
        MultipleChoiceQuestionV {
            answers: self.answers.deep_view(),
            correct_answer: self.correct_answer,
        }
    }
}

impl DeepView for MultipleChoiceQuestion {
    type V = MultipleChoiceQuestionV;

    open spec fn deep_view(&self) -> MultipleChoiceQuestionV {
        self.view()
    }
}

impl Clone for MultipleChoiceQuestion {
    fn clone(&self) -> (r: Self)
        ensures
            r@ == self@,
    {
        let answers = self.answers.clone();
        proof {
            assert forall|i: int| 0 <= i < self.answers@.len() implies answers@[i]
                == self.answers@[i] by {
                assert(cloned::<String>(self.answers@[i], answers@[i]));
            }
            assert(answers@ =~= self.answers@);
            assert(answers.deep_view() =~= self.answers.deep_view());
        }
        MultipleChoiceQuestion { answers, correct_answer: self.correct_answer }
    }
}

/// A question answered with a number inside an inclusive range.
#[derive(Clone, Copy, Debug)]
pub struct NumericQuestion {
    pub range_start: i32,
    pub range_end: i32,
}

pub ghost struct NumericQuestionV {
    pub range_start: i32,
    pub range_end: i32,
}

impl View for NumericQuestion {
    type V = NumericQuestionV;

    open spec fn view(&self) -> NumericQuestionV {
        NumericQuestionV { range_start: self.range_start, range_end: self.range_end }
    }
}

impl DeepView for NumericQuestion {
    type V = NumericQuestionV;

    open spec fn deep_view(&self) -> NumericQuestionV {
        self.view()
    }
}

/// A question answered with true or false.
#[derive(Clone, Copy, Debug)]
pub struct TrueOrFalseQuestion {
    pub correct_answer: bool,
}

pub ghost struct TrueOrFalseQuestionV {
    pub correct_answer: bool,
}

impl View for TrueOrFalseQuestion {
    type V = TrueOrFalseQuestionV;

    open spec fn view(&self) -> TrueOrFalseQuestionV {
        TrueOrFalseQuestionV { correct_answer: self.correct_answer }
    }
}

impl DeepView for TrueOrFalseQuestion {
    type V = TrueOrFalseQuestionV;

    open spec fn deep_view(&self) -> TrueOrFalseQuestionV {
        self.view()
    }
}

/// The tagged payload of a question: exactly one of the three known shapes.
#[derive(Debug)]
pub enum QuestionType {
    MultipleChoice(MultipleChoiceQuestion),
    Numeric(NumericQuestion),
    TrueOrFalse(TrueOrFalseQuestion),
}

pub ghost enum QuestionTypeV {
    MultipleChoice(MultipleChoiceQuestionV),
    Numeric(NumericQuestionV),
    TrueOrFalse(TrueOrFalseQuestionV),
}

impl View for QuestionType {
    type V = QuestionTypeV;

    open spec fn view(&self) -> QuestionTypeV {
        match self {
            QuestionType::MultipleChoice(q) => QuestionTypeV::MultipleChoice(q.view()),
            QuestionType::Numeric(q) => QuestionTypeV::Numeric(q.view()),
            QuestionType::TrueOrFalse(q) => QuestionTypeV::TrueOrFalse(q.view()),
        }
    }
}

impl DeepView for QuestionType {
    type V = QuestionTypeV;

    open spec fn deep_view(&self) -> QuestionTypeV {
        self.view()
    }
}

impl Clone for QuestionType {
    fn clone(&self) -> (r: Self)
        ensures
            r@ == self@,
    {
        match self {
            QuestionType::MultipleChoice(q) => QuestionType::MultipleChoice(q.clone()),
            QuestionType::Numeric(q) => QuestionType::Numeric(*q),
            QuestionType::TrueOrFalse(q) => QuestionType::TrueOrFalse(*q),
        }
    }
}

/// A question as the store presents it on read, with its text resolved from
/// the translation it references.
#[derive(Debug)]
pub struct DBQuizQuestion {
    pub id: String,
    pub quiz_id: String,
    pub question: String,
    pub data: QuestionType,
}

/// A question as the interface presents it.
#[derive(Debug)]
pub struct APIQuizQuestion {
    pub id: String,
    pub quiz_id: String,
    pub question: String,
    pub data: QuestionType,
}

pub ghost struct QuizQuestionV {
    pub id: Seq<char>,
    pub quiz_id: Seq<char>,
    pub question: Seq<char>,
    pub data: QuestionTypeV,
}

impl View for DBQuizQuestion {
    type V = QuizQuestionV;

    open spec fn view(&self) -> QuizQuestionV {
        QuizQuestionV {
            id: self.id@,
            quiz_id: self.quiz_id@,
            question: self.question@,
            data: self.data.view(),
        }
    }
}

impl DeepView for DBQuizQuestion {
    type V = QuizQuestionV;

    open spec fn deep_view(&self) -> QuizQuestionV {
        self.view()
    }
}

impl Clone for DBQuizQuestion {
    fn clone(&self) -> (r: Self)
        ensures
            r@ == self@,
    {
        DBQuizQuestion {
            id: self.id.clone(),
            quiz_id: self.quiz_id.clone(),
            question: self.question.clone(),
            data: self.data.clone(),
        }
    }
}

impl View for APIQuizQuestion {
    type V = QuizQuestionV;

    open spec fn view(&self) -> QuizQuestionV {
        QuizQuestionV {
            id: self.id@,
            quiz_id: self.quiz_id@,
            question: self.question@,
            data: self.data.view(),
        }
    }
}

impl DeepView for APIQuizQuestion {
    type V = QuizQuestionV;

    open spec fn deep_view(&self) -> QuizQuestionV {
        self.view()
    }
}

impl Clone for APIQuizQuestion {
    fn clone(&self) -> (r: Self)
        ensures
            r@ == self@,
    {
        APIQuizQuestion {
            id: self.id.clone(),
            quiz_id: self.quiz_id.clone(),
            question: self.question.clone(),
            data: self.data.clone(),
        }
    }
}

/// The quiz aggregate as the store keeps it: the quiz row joined with its
/// title translation, owning its questions in order.
#[derive(Debug)]
pub struct DBQuiz {
    pub id: String,
    pub title: String,
    pub created_at: u64,
    pub created_by: String,
    pub questions: Vec<DBQuizQuestion>,
}

/// The quiz aggregate as the interface presents it.
#[derive(Debug)]
pub struct APIQuiz {
    pub id: String,
    pub title: String,
    pub created_at: u64,
    pub created_by: String,
    pub questions: Vec<APIQuizQuestion>,
}

pub ghost struct QuizV {
    pub id: Seq<char>,
    pub title: Seq<char>,
    pub created_at: u64,
    pub created_by: Seq<char>,
    pub questions: Seq<QuizQuestionV>,
}

impl View for DBQuiz {
    type V = QuizV;

    open spec fn view(&self) -> QuizV {
        QuizV {
            id: self.id@,
            title: self.title@,
            created_at: self.created_at,
            created_by: self.created_by@,
            questions: self.questions.deep_view(),
        }
    }
}

impl DeepView for DBQuiz {
    type V = QuizV;

    open spec fn deep_view(&self) -> QuizV {
        self.view()
    }
}

impl View for APIQuiz {
    type V = QuizV;

    open spec fn view(&self) -> QuizV {
        QuizV {
            id: self.id@,
            title: self.title@,
            created_at: self.created_at,
            created_by: self.created_by@,
            questions: self.questions.deep_view(),
        }
    }
}

impl DeepView for APIQuiz {
    type V = QuizV;

    open spec fn deep_view(&self) -> QuizV {
        self.view()
    }
}

impl From<APIQuizQuestion> for DBQuizQuestion {
    fn from(value: APIQuizQuestion) -> (r: DBQuizQuestion) {
        DBQuizQuestion {
            id: value.id,
            quiz_id: value.quiz_id,
            question: value.question,
            data: value.data,
        }
    }
}

impl vstd::std_specs::convert::FromSpecImpl<APIQuizQuestion> for DBQuizQuestion {
    open spec fn obeys_from_spec() -> bool {
        true
    }

    open spec fn from_spec(value: APIQuizQuestion) -> DBQuizQuestion {
        DBQuizQuestion {
            id: value.id,
            quiz_id: value.quiz_id,
            question: value.question,
            data: value.data,
        }
    }
}

impl From<DBQuizQuestion> for APIQuizQuestion {
    fn from(value: DBQuizQuestion) -> (r: APIQuizQuestion) {
        APIQuizQuestion {
            id: value.id,
            quiz_id: value.quiz_id,
            question: value.question,
            data: value.data,
        }
    }
}

impl vstd::std_specs::convert::FromSpecImpl<DBQuizQuestion> for APIQuizQuestion {
    open spec fn obeys_from_spec() -> bool {
        true
    }

    open spec fn from_spec(value: DBQuizQuestion) -> APIQuizQuestion {
        APIQuizQuestion {
            id: value.id,
            quiz_id: value.quiz_id,
            question: value.question,
            data: value.data,
        }
    }
}

impl APIQuiz {
    /// The same aggregate in its store-facing shape.
    pub fn into_db(self) -> (r: DBQuiz)
        ensures
            r@ == self@,
    {
        let src = self.questions;
        let ghost all = src.deep_view();
        let mut i: usize = 0;
        let n = src.len();
        let mut out: Vec<DBQuizQuestion> = Vec::new();
        while i < n
            invariant
                i <= n,
                n == src.len(),
                src.deep_view() == all,
                out.len() == i,
                out.deep_view() =~= all.subrange(0, i as int),
            decreases n - i,
        {
            let q = src[i].clone();
            assert(q@ == all[i as int]);
            let row = DBQuizQuestion::from(q);
            assert(row@ == all[i as int]);
            let ghost prevs = out@;
            let ghost prevdeep = out.deep_view();
            out.push(row);
            i = i + 1;
            proof {
                assert forall|k: int| 0 <= k < i implies out.deep_view()[k] == all[k] by {
                    if k < i - 1 {
                        assert(out@[k] == prevs[k]);
                        assert(prevdeep[k] == all[k]);
                    } else {
                        assert(out@[k] == row);
                    }
                }
                assert(out.deep_view() =~= all.subrange(0, i as int));
            }
        }
        proof {
            assert(out.deep_view() =~= all);
        }
        DBQuiz {
            id: self.id,
            title: self.title,
            created_at: self.created_at,
            created_by: self.created_by,
            questions: out,
        }
    }
}

impl DBQuiz {
    /// The same aggregate in its interface-facing shape.
    pub fn into_api(self) -> (r: APIQuiz)
        ensures
            r@ == self@,
    {
        let src = self.questions;
        let ghost all = src.deep_view();
        let mut i: usize = 0;
        let n = src.len();
        let mut out: Vec<APIQuizQuestion> = Vec::new();
        while i < n
            invariant
                i <= n,
                n == src.len(),
                src.deep_view() == all,
                out.len() == i,
                out.deep_view() =~= all.subrange(0, i as int),
            decreases n - i,
        {
            let q = src[i].clone();
            assert(q@ == all[i as int]);
            let row = APIQuizQuestion::from(q);
            assert(row@ == all[i as int]);
            let ghost prevs = out@;
            let ghost prevdeep = out.deep_view();
            out.push(row);
            i = i + 1;
            proof {
                assert forall|k: int| 0 <= k < i implies out.deep_view()[k] == all[k] by {
                    if k < i - 1 {
                        assert(out@[k] == prevs[k]);
                        assert(prevdeep[k] == all[k]);
                    } else {
                        assert(out@[k] == row);
                    }
                }
                assert(out.deep_view() =~= all.subrange(0, i as int));
            }
        }
        proof {
            assert(out.deep_view() =~= all);
        }
        APIQuiz {
            id: self.id,
            title: self.title,
            created_at: self.created_at,
            created_by: self.created_by,
            questions: out,
        }
    }
}


impl Default for DBQuiz {
    fn default() -> (r: Self)
        ensures
            r@.id.len() == 0,
            r@.title.len() == 0,
            r@.created_at == 0,
            r@.created_by.len() == 0,
            r@.questions.len() == 0,
    {
        DBQuiz {
            id: String::new(),
            title: String::new(),
            created_at: 0,
            created_by: String::new(),
            questions: Vec::new(),
        }
    }
}

impl Clone for DBQuiz {
    fn clone(&self) -> (r: Self)
        ensures
            r@ == self@,
    {
        let ghost all = self.questions.deep_view();
        let n = self.questions.len();
        let mut out: Vec<DBQuizQuestion> = Vec::new();
        let mut i: usize = 0;
        while i < n
            invariant
                i <= n,
                n == self.questions.len(),
                all == self.questions.deep_view(),
                out.len() == i,
                out.deep_view() =~= all.subrange(0, i as int),
            decreases n - i,
        {
            let q = self.questions[i].clone();
            assert(q@ == all[i as int]);
            let ghost prevs = out@;
            let ghost prevdeep = out.deep_view();
            let ghost growq = q;
            out.push(q);
            i = i + 1;
            proof {
                assert forall|k: int| 0 <= k < i implies out.deep_view()[k] == all[k] by {
                    if k < i - 1 {
                        assert(out@[k] == prevs[k]);
                        assert(prevdeep[k] == all[k]);
                    } else {
                        assert(out@[k] == growq);
                    }
                }
                assert(out.deep_view() =~= all.subrange(0, i as int));
            }
        }
        proof {
            assert(out.deep_view() =~= all);
        }
        DBQuiz {
            id: self.id.clone(),
            title: self.title.clone(),
            created_at: self.created_at,
            created_by: self.created_by.clone(),
            questions: out,
        }
    }
}

impl Clone for APIQuiz {
    fn clone(&self) -> (r: Self)
        ensures
            r@ == self@,
    {
        let ghost all = self.questions.deep_view();
        let n = self.questions.len();
        let mut out: Vec<APIQuizQuestion> = Vec::new();
        let mut i: usize = 0;
        while i < n
            invariant
                i <= n,
                n == self.questions.len(),
                all == self.questions.deep_view(),
                out.len() == i,
                out.deep_view() =~= all.subrange(0, i as int),
            decreases n - i,
        {
            let q = self.questions[i].clone();
            assert(q@ == all[i as int]);
            let ghost prevs = out@;
            let ghost prevdeep = out.deep_view();
            let ghost growq = q;
            out.push(q);
            i = i + 1;
            proof {
                assert forall|k: int| 0 <= k < i implies out.deep_view()[k] == all[k] by {
                    if k < i - 1 {
                        assert(out@[k] == prevs[k]);
                        assert(prevdeep[k] == all[k]);
                    } else {
                        assert(out@[k] == growq);
                    }
                }
                assert(out.deep_view() =~= all.subrange(0, i as int));
            }
        }
        proof {
            assert(out.deep_view() =~= all);
        }
        APIQuiz {
            id: self.id.clone(),
            title: self.title.clone(),
            created_at: self.created_at,
            created_by: self.created_by.clone(),
            questions: out,
        }
    }
}

} // verus!

