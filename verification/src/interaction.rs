//! Typed, bounded questions from the model to the user.
use vstd::prelude::*;
use vstd::string::*;

use crate::json;
use crate::json::{Json, Tree};
use crate::text;

verus! {

pub const MAX_QUESTION_CHARS: usize = 1_024;

pub const MAX_QUESTION_OPTIONS: usize = 5;

pub const MAX_OPTION_LABEL_CHARS: usize = 80;

pub const MAX_OPTION_DESCRIPTION_CHARS: usize = 256;

pub const MAX_CUSTOM_ANSWER_BYTES: usize = 16_384;

/// Most characters of a request id.
pub const MAX_REQUEST_ID_CHARS: usize = 256;

/// Most questions that wait on one route.
pub const MAX_INTERACTIONS_PER_ROUTE: usize = 64;

#[derive(Clone, Debug, PartialEq, Eq)]
pub struct QuestionOption {
    pub label: String,
    pub description: String,
}

#[verifier::ext_equal]
pub struct OptionView {
    pub label: Seq<char>,
    pub description: Seq<char>,
}

impl View for QuestionOption {
    type V = OptionView;

    open spec fn view(&self) -> OptionView {
        OptionView { label: self.label@, description: self.description@ }
    }
}

pub open spec fn option_views(options: Seq<QuestionOption>) -> Seq<OptionView> {
    options.map_values(|o: QuestionOption| o@)
}

impl QuestionOption {
    pub fn copy(&self) -> (r: QuestionOption)
        ensures
            r == *self,
    {
        QuestionOption { label: self.label.clone(), description: self.description.clone() }
    }
}

pub fn copy_options(options: &Vec<QuestionOption>) -> (out: Vec<QuestionOption>)
    ensures
        out@ == options@,
{
    let mut out: Vec<QuestionOption> = Vec::new();
    let mut i: usize = 0;
    while i < options.len()
        invariant
            i <= options@.len(),
            out@ == options@.take(i as int),
        decreases options@.len() - i,
    {
        out.push(options[i].copy());
        assert(options@.take(i + 1) =~= options@.take(i as int).push(options@[i as int]));
        i = i + 1;
    }
    assert(options@.take(options@.len() as int) =~= options@);
    out
}

#[derive(Clone, Debug, PartialEq, Eq)]
pub struct AskQuestion {
    pub question: String,
    pub options: Vec<QuestionOption>,
}

/// The parts of an option that a fault can lie in.
#[derive(Clone, Copy, Debug, PartialEq, Eq, Structural)]
pub enum OptionField {
    Label,
    Description,
}

#[derive(Clone, Debug, PartialEq, Eq)]
pub enum InteractionError {
    InvalidJson { message: String },
    InvalidQuestion,
    InvalidOptionCount { count: usize },
    InvalidOption { index: usize, field: OptionField },
    DuplicateOption { index: usize },
    InvalidAnswer,
    InvalidRequestId,
    DuplicateRequest { request_id: String },
    StaleRequest { request_id: String },
    RouteCapacity,
    RouteClosed,
}

/// The words of an error.
pub open spec fn error_words(error: InteractionError) -> Seq<char> {
    match error {
        InteractionError::InvalidJson { message } => "invalid ask_question payload: "@ + message@,
        InteractionError::InvalidQuestion => "question must be one non-empty bounded line"@,
        InteractionError::InvalidOptionCount { count } =>
            "question requires zero or 2..=5 options, got "@ + text::decimal(count as nat),
        InteractionError::InvalidOption { index, field } => "invalid question option "@
            + text::decimal(index as nat) + " field "@ + match field {
            OptionField::Label => "label"@,
            OptionField::Description => "description"@,
        },
        InteractionError::DuplicateOption { index } => "duplicate question option "@
            + text::decimal(index as nat),
        InteractionError::InvalidAnswer =>
            "question answer must be non-empty and at most 16 KiB"@,
        InteractionError::InvalidRequestId => "interaction request id is invalid"@,
        InteractionError::DuplicateRequest { request_id } =>
            "interaction request already registered: "@ + request_id@,
        InteractionError::StaleRequest { request_id } => "interaction request is not pending: "@
            + request_id@,
        InteractionError::RouteCapacity => "interaction route capacity exhausted"@,
        InteractionError::RouteClosed => "interaction route is closed"@,
    }
}

fn joined(head: &str, tail: &str) -> (r: String)
    ensures
        r@ == head@ + tail@,
{
    let mut out = head.to_owned();
    out.append(tail);
    out
}

impl InteractionError {
    /// The error in words.
    pub fn message(&self) -> (r: String)
        ensures
            r@ == error_words(*self),
    {
        match self {
            InteractionError::InvalidJson { message } => joined(
                "invalid ask_question payload: ",
                message.as_str(),
            ),
            InteractionError::InvalidQuestion =>
                "question must be one non-empty bounded line".to_owned(),
            InteractionError::InvalidOptionCount { count } => joined(
                "question requires zero or 2..=5 options, got ",
                text::decimal_of(*count as u64).as_str(),
            ),
            InteractionError::InvalidOption { index, field } => {
                let mut out = joined(
                    "invalid question option ",
                    text::decimal_of(*index as u64).as_str(),
                );
                out.append(" field ");
                match field {
                    OptionField::Label => out.append("label"),
                    OptionField::Description => out.append("description"),
                }
                out
            },
            InteractionError::DuplicateOption { index } => joined(
                "duplicate question option ",
                text::decimal_of(*index as u64).as_str(),
            ),
            InteractionError::InvalidAnswer =>
                "question answer must be non-empty and at most 16 KiB".to_owned(),
            InteractionError::InvalidRequestId => "interaction request id is invalid".to_owned(),
            InteractionError::DuplicateRequest { request_id } => joined(
                "interaction request already registered: ",
                request_id.as_str(),
            ),
            InteractionError::StaleRequest { request_id } => joined(
                "interaction request is not pending: ",
                request_id.as_str(),
            ),
            InteractionError::RouteCapacity => "interaction route capacity exhausted".to_owned(),
            InteractionError::RouteClosed => "interaction route is closed".to_owned(),
        }
    }
}

/// Whether a text is trimmed, holds no control character, and has from
/// `minimum` to `maximum` characters.
pub open spec fn single_line(value: Seq<char>, minimum: int, maximum: int) -> bool {
    &&& minimum <= value.len() <= maximum
    &&& text::trim(value) == value
    &&& !text::has_control(value)
}

fn valid_single_line(value: &str, minimum: usize, maximum: usize) -> (r: bool)
    ensures
        r == single_line(value@, minimum as int, maximum as int),
{
    let trimmed = text::trimmed(value);
    let count: usize = text::char_count(value);
    count >= minimum && count <= maximum && text::same(trimmed.as_str(), value)
        && !text::any_control(value)
}

/// The identity of a question; one trimmed line.
#[derive(Debug, PartialEq, Eq, Hash)]
pub struct InteractionRequestId(String);

impl View for InteractionRequestId {
    type V = Seq<char>;

    closed spec fn view(&self) -> Seq<char> {
        self.0@
    }
}

impl InteractionRequestId {
    #[verifier::type_invariant]
    spec fn inv(self) -> bool {
        single_line(self.0@, 1, MAX_REQUEST_ID_CHARS as int)
    }

    pub fn new(value: String) -> (r: Result<InteractionRequestId, InteractionError>)
        ensures
            match r {
                Ok(id) => single_line(value@, 1, MAX_REQUEST_ID_CHARS as int) && id@ == value@,
                Err(e) => !single_line(value@, 1, MAX_REQUEST_ID_CHARS as int)
                    && e is InvalidRequestId,
            },
    {
        if valid_single_line(value.as_str(), 1, MAX_REQUEST_ID_CHARS) {
            Ok(InteractionRequestId(value))
        } else {
            Err(InteractionError::InvalidRequestId)
        }
    }

    pub fn as_str(&self) -> (r: &str)
        ensures
            r@ == self@,
            single_line(r@, 1, MAX_REQUEST_ID_CHARS as int),
    {
        proof {
            use_type_invariant(self);
        }
        self.0.as_str()
    }

    pub fn copy(&self) -> (r: InteractionRequestId)
        ensures
            r@ == self@,
    {
        proof {
            use_type_invariant(self);
        }
        InteractionRequestId(self.0.clone())
    }
}

impl Clone for InteractionRequestId {
    fn clone(&self) -> (r: InteractionRequestId)
        ensures
            r@ == self@,
    {
        self.copy()
    }
}

#[derive(Clone, Copy, Debug, PartialEq, Eq, Structural)]
pub enum QuestionAnswerSource {
    Option { option_index: usize },
    Custom,
}

#[derive(Clone, Debug, PartialEq, Eq)]
pub struct QuestionAnswer {
    pub answer: String,
    pub source: QuestionAnswerSource,
}

/// Whether an answer says something and is not too long.
pub open spec fn acceptable_answer(answer: Seq<char>) -> bool {
    text::trim(answer).len() > 0 && text::byte_len(answer) <= MAX_CUSTOM_ANSWER_BYTES
}

impl QuestionAnswer {
    /// The answer that picks an option.
    pub fn option(index: usize, answer: String) -> (r: Result<QuestionAnswer, InteractionError>)
        ensures
            match r {
                Ok(a) => acceptable_answer(answer@) && a.answer@ == answer@ && a.source == (
                QuestionAnswerSource::Option { option_index: index }),
                Err(e) => !acceptable_answer(answer@) && e is InvalidAnswer,
            },
    {
        QuestionAnswer::new(answer, QuestionAnswerSource::Option { option_index: index })
    }

    /// An answer in the user's own words.
    pub fn custom(answer: String) -> (r: Result<QuestionAnswer, InteractionError>)
        ensures
            match r {
                Ok(a) => acceptable_answer(answer@) && a.answer@ == answer@ && a.source is Custom,
                Err(e) => !acceptable_answer(answer@) && e is InvalidAnswer,
            },
    {
        QuestionAnswer::new(answer, QuestionAnswerSource::Custom)
    }

    fn new(answer: String, source: QuestionAnswerSource) -> (r: Result<
        QuestionAnswer,
        InteractionError,
    >)
        ensures
            match r {
                Ok(a) => acceptable_answer(answer@) && a.answer@ == answer@ && a.source == source,
                Err(e) => !acceptable_answer(answer@) && e is InvalidAnswer,
            },
    {
        let trimmed = text::trimmed(answer.as_str());
        if trimmed.as_str().is_empty() || text::byte_count(answer.as_str())
            > MAX_CUSTOM_ANSWER_BYTES {
            return Err(InteractionError::InvalidAnswer);
        }
        Ok(QuestionAnswer { answer, source })
    }
}

/// Whether two labels are the same to a reader: trimmed, and without regard to
/// ASCII case.
pub open spec fn same_label(a: Seq<char>, b: Seq<char>) -> bool {
    text::lower(text::trim(a)) == text::lower(text::trim(b))
}

/// Whether an option before `index` has its label.
pub open spec fn repeats(options: Seq<OptionView>, index: int) -> bool {
    exists|k: int| 0 <= k < index && same_label((#[trigger] options[k]).label, options[index].label)
}

/// What is wrong with the option at `index`, if anything.
pub open spec fn option_fault(options: Seq<OptionView>, index: int) -> Option<InteractionError> {
    if !single_line(options[index].label, 1, MAX_OPTION_LABEL_CHARS as int) {
        Some(InteractionError::InvalidOption { index: index as usize, field: OptionField::Label })
    } else if !single_line(options[index].description, 0, MAX_OPTION_DESCRIPTION_CHARS as int) {
        Some(
            InteractionError::InvalidOption {
                index: index as usize,
                field: OptionField::Description,
            },
        )
    } else if repeats(options, index) {
        Some(InteractionError::DuplicateOption { index: index as usize })
    } else {
        None
    }
}

/// The first fault among the options from `from` on.
pub open spec fn options_fault(options: Seq<OptionView>, from: int) -> Option<InteractionError>
    decreases options.len() - from,
{
    if from < 0 || from >= options.len() {
        None
    } else {
        match option_fault(options, from) {
            Some(e) => Some(e),
            None => options_fault(options, from + 1),
        }
    }
}

/// What is wrong with a question, if anything.
pub open spec fn question_fault(question: Seq<char>, options: Seq<OptionView>) -> Option<
    InteractionError,
> {
    if !single_line(question, 1, MAX_QUESTION_CHARS as int) {
        Some(InteractionError::InvalidQuestion)
    } else if options.len() == 1 || options.len() > MAX_QUESTION_OPTIONS {
        Some(InteractionError::InvalidOptionCount { count: options.len() as usize })
    } else {
        options_fault(options, 0)
    }
}

fn labels_agree(a: &str, b: &str) -> (r: bool)
    ensures
        r == same_label(a@, b@),
{
    let left = text::trimmed(a);
    let right = text::trimmed(b);
    text::same_ignoring_case(left.as_str(), right.as_str())
}

fn is_repeat(options: &Vec<QuestionOption>, index: usize) -> (r: bool)
    requires
        index < options@.len(),
    ensures
        r == repeats(option_views(options@), index as int),
{
    let ghost all = option_views(options@);
    let mut k: usize = 0;
    while k < index
        invariant
            k <= index < options@.len(),
            all == option_views(options@),
            forall|j: int| 0 <= j < k ==> !same_label((#[trigger] all[j]).label, all[index as int].label),
        decreases index - k,
    {
        if labels_agree(options[k].label.as_str(), options[index].label.as_str()) {
            assert(same_label(all[k as int].label, all[index as int].label));
            return true;
        }
        assert(!same_label(all[k as int].label, all[index as int].label));
        k = k + 1;
    }
    false
}

impl AskQuestion {
    /// The question, or the error of the JSON that should have held it, once
    /// the question has been held against its bounds.
    pub fn from_parsed(parsed: Result<AskQuestion, String>) -> (r: Result<
        AskQuestion,
        InteractionError,
    >)
        ensures
            match parsed {
                Err(message) => r == Err::<AskQuestion, InteractionError>(
                    InteractionError::InvalidJson { message },
                ),
                Ok(question) => match question_fault(
                    question.question@,
                    option_views(question.options@),
                ) {
                    Some(e) => r == Err::<AskQuestion, InteractionError>(e),
                    None => r == Ok::<AskQuestion, InteractionError>(question),
                },
            },
    {
        match parsed {
            Err(message) => Err(InteractionError::InvalidJson { message }),
            Ok(question) => match question.validate() {
                Err(e) => Err(e),
                Ok(_) => Ok(question),
            },
        }
    }

    /// Holds a question against its bounds.
    pub fn validate(&self) -> (r: Result<(), InteractionError>)
        ensures
            match question_fault(self.question@, option_views(self.options@)) {
                Some(e) => r == Err::<(), InteractionError>(e),
                None => r is Ok,
            },
    {
        if !valid_single_line(self.question.as_str(), 1, MAX_QUESTION_CHARS) {
            return Err(InteractionError::InvalidQuestion);
        }
        let count: usize = self.options.len();
        if count == 1 || count > MAX_QUESTION_OPTIONS {
            return Err(InteractionError::InvalidOptionCount { count });
        }
        let ghost all = option_views(self.options@);
        let ghost whole = question_fault(self.question@, all);
        let mut index: usize = 0;
        while index < self.options.len()
            invariant
                index <= self.options@.len(),
                all == option_views(self.options@),
                whole == question_fault(self.question@, all),
                whole == options_fault(all, index as int),
            decreases self.options@.len() - index,
        {
            let option = &self.options[index];
            assert(all[index as int] == option@);
            if !valid_single_line(option.label.as_str(), 1, MAX_OPTION_LABEL_CHARS) {
                return Err(InteractionError::InvalidOption { index, field: OptionField::Label });
            }
            if !valid_single_line(option.description.as_str(), 0, MAX_OPTION_DESCRIPTION_CHARS) {
                return Err(
                    InteractionError::InvalidOption { index, field: OptionField::Description },
                );
            }
            if is_repeat(&self.options, index) {
                return Err(InteractionError::DuplicateOption { index });
            }
            index = index + 1;
        }
        Ok(())
    }
}

/// The options of a valid question have labels that differ for a reader.
pub proof fn law_valid_labels_differ(question: Seq<char>, options: Seq<OptionView>, i: int, j: int)
    requires
        question_fault(question, options) is None,
        0 <= i < j < options.len(),
    ensures
        !same_label(options[i].label, options[j].label),
{
    lemma_no_fault_at(options, 0, j);
    if same_label(options[i].label, options[j].label) {
        assert(repeats(options, j));
    }
}

proof fn lemma_no_fault_at(options: Seq<OptionView>, from: int, at: int)
    requires
        0 <= from <= at < options.len(),
        options_fault(options, from) is None,
    ensures
        option_fault(options, at) is None,
    decreases at - from,
{
    if from < at {
        lemma_no_fault_at(options, from + 1, at);
    }
}

/// The questions of one route: those that wait for their answer, and those that
/// are over. No id stands in it twice.
pub struct InteractionRouteState {
    pending: Vec<InteractionRequestId>,
    completed: Vec<InteractionRequestId>,
}

pub open spec fn id_views(ids: Seq<InteractionRequestId>) -> Seq<Seq<char>> {
    ids.map_values(|id: InteractionRequestId| id@)
}

fn index_of(ids: &Vec<InteractionRequestId>, id: &InteractionRequestId) -> (r: Option<usize>)
    ensures
        match r {
            Some(i) => i < ids@.len() && id_views(ids@)[i as int] == id@,
            None => !id_views(ids@).contains(id@),
        },
{
    let mut i: usize = 0;
    while i < ids.len()
        invariant
            i <= ids@.len(),
            forall|k: int| 0 <= k < i ==> id_views(ids@)[k] != id@,
        decreases ids@.len() - i,
    {
        if text::same(ids[i].as_str(), id.as_str()) {
            return Some(i);
        }
        i = i + 1;
    }
    None
}

impl InteractionRouteState {
    pub closed spec fn pending(&self) -> Seq<Seq<char>> {
        id_views(self.pending@)
    }

    pub closed spec fn completed(&self) -> Seq<Seq<char>> {
        id_views(self.completed@)
    }

    #[verifier::type_invariant]
    spec fn inv(self) -> bool {
        &&& id_views(self.pending@).no_duplicates()
        &&& forall|i: int, j: int|
            0 <= i < self.pending@.len() && 0 <= j < self.completed@.len() ==> id_views(
                self.pending@,
            )[i] != id_views(self.completed@)[j]
        &&& self.pending@.len() <= MAX_INTERACTIONS_PER_ROUTE
    }

    pub fn new() -> (r: InteractionRouteState)
        ensures
            r.pending() == Seq::<Seq<char>>::empty(),
            r.completed() == Seq::<Seq<char>>::empty(),
    {
        let pending: Vec<InteractionRequestId> = Vec::new();
        let completed: Vec<InteractionRequestId> = Vec::new();
        assert(id_views(pending@) =~= Seq::empty());
        assert(id_views(completed@) =~= Seq::empty());
        InteractionRouteState { pending, completed }
    }

    /// Puts a question on the route. An id that was ever on it is refused, and
    /// so is a question beyond the capacity.
    pub fn register(self, request_id: &InteractionRequestId) -> (r: (
        InteractionRouteState,
        Result<(), InteractionError>,
    ))
        ensures
            r.0.completed() == self.completed(),
            r.0.pending().len() <= MAX_INTERACTIONS_PER_ROUTE,
            if self.pending().contains(request_id@) || self.completed().contains(request_id@) {
                &&& r.0.pending() == self.pending()
                &&& r.1 matches Err(InteractionError::DuplicateRequest { request_id: id })
                    && id@ == request_id@
            } else if self.pending().len() >= MAX_INTERACTIONS_PER_ROUTE {
                &&& r.0.pending() == self.pending()
                &&& r.1 matches Err(e) && e is RouteCapacity
            } else {
                &&& r.0.pending() == self.pending().push(request_id@)
                &&& r.1 is Ok
            },
    {
        proof {
            use_type_invariant(&self);
        }
        let waiting = index_of(&self.pending, request_id);
        let over = index_of(&self.completed, request_id);
        if waiting.is_some() || over.is_some() {
            return (
                self,
                Err(
                    InteractionError::DuplicateRequest {
                        request_id: request_id.as_str().to_owned(),
                    },
                ),
            );
        }
        if self.pending.len() >= MAX_INTERACTIONS_PER_ROUTE {
            return (self, Err(InteractionError::RouteCapacity));
        }
        let mut pending = self.pending;
        let ghost before = pending@;
        pending.push(request_id.copy());
        assert(id_views(pending@) =~= id_views(before).push(request_id@));
        (InteractionRouteState { pending, completed: self.completed }, Ok(()))
    }

    /// Takes a waiting question off the route for good; tells whether it waited.
    fn close(self, request_id: &InteractionRequestId) -> (r: (InteractionRouteState, bool))
        ensures
            r.1 == self.pending().contains(request_id@),
            !r.1 ==> r.0.pending() == self.pending() && r.0.completed() == self.completed(),
            r.1 ==> {
                &&& r.0.completed() == self.completed().push(request_id@)
                &&& exists|i: int|
                    0 <= i < self.pending().len() && self.pending()[i] == request_id@
                        && r.0.pending() == #[trigger] self.pending().remove(i)
                &&& !r.0.pending().contains(request_id@)
            },
    {
        proof {
            use_type_invariant(&self);
        }
        match index_of(&self.pending, request_id) {
            None => (self, false),
            Some(i) => {
                let ghost all = id_views(self.pending@);
                let mut pending = self.pending;
                let mut completed = self.completed;
                let ghost over = completed@;
                let _ = pending.remove(i);
                completed.push(request_id.copy());
                proof {
                    assert(id_views(pending@) =~= all.remove(i as int));
                    assert(id_views(completed@) =~= id_views(over).push(request_id@));
                    let rest = id_views(pending@);
                    assert forall|a: int| 0 <= a < rest.len() implies rest[a] != request_id@ by {
                        let b = if a < i { a } else { a + 1 };
                        assert(rest[a] == all[b]);
                        assert(all[b] != all[i as int]);
                    }
                    assert forall|a: int, b: int|
                        0 <= a < rest.len() && 0 <= b < rest.len() && a != b implies rest[a]
                        != rest[b] by {
                        let c = if a < i { a } else { a + 1 };
                        let d = if b < i { b } else { b + 1 };
                        assert(all[c] != all[d]);
                    }
                    assert forall|a: int, b: int|
                        0 <= a < rest.len() && 0 <= b < completed@.len() implies rest[a]
                        != id_views(completed@)[b] by {
                        let c = if a < i { a } else { a + 1 };
                        assert(rest[a] == all[c]);
                        if b < over.len() {
                            assert(all[c] != id_views(over)[b]);
                        }
                    }
                }
                (InteractionRouteState { pending, completed }, true)
            },
        }
    }

    /// Takes the question that an answer is for off the route. An answer for a
    /// question that does not wait is refused.
    pub fn answer(self, request_id: &InteractionRequestId) -> (r: (
        InteractionRouteState,
        Result<(), InteractionError>,
    ))
        ensures
            if self.pending().contains(request_id@) {
                &&& r.1 is Ok
                &&& r.0.completed() == self.completed().push(request_id@)
                &&& exists|i: int|
                    0 <= i < self.pending().len() && self.pending()[i] == request_id@
                        && r.0.pending() == #[trigger] self.pending().remove(i)
                &&& !r.0.pending().contains(request_id@)
            } else {
                &&& r.1 matches Err(InteractionError::StaleRequest { request_id: id })
                    && id@ == request_id@
                &&& r.0.pending() == self.pending()
                &&& r.0.completed() == self.completed()
            },
    {
        let (state, waited) = self.close(request_id);
        if waited {
            (state, Ok(()))
        } else {
            (
                state,
                Err(
                    InteractionError::StaleRequest { request_id: request_id.as_str().to_owned() },
                ),
            )
        }
    }

    /// Gives a question up. One that was answered already stays as it is.
    pub fn abandon(self, request_id: &InteractionRequestId) -> (r: InteractionRouteState)
        ensures
            if self.pending().contains(request_id@) {
                &&& r.completed() == self.completed().push(request_id@)
                &&& exists|i: int|
                    0 <= i < self.pending().len() && self.pending()[i] == request_id@
                        && r.pending() == #[trigger] self.pending().remove(i)
                &&& !r.pending().contains(request_id@)
            } else {
                &&& r.pending() == self.pending()
                &&& r.completed() == self.completed()
            },
    {
        let (state, _) = self.close(request_id);
        state
    }
}

/// A text that a schema bounds.
pub open spec fn text_schema(minimum: Option<nat>, maximum: nat) -> Tree {
    let typed = json::empty_object().with("type"@, Tree::Text("string"@));
    let bounded = match minimum {
        Some(n) => typed.with("minLength"@, Tree::Number(text::decimal(n))),
        None => typed,
    };
    bounded.with("maxLength"@, Tree::Number(text::decimal(maximum)))
}

pub open spec fn option_schema() -> Tree {
    json::empty_object().with("type"@, Tree::Text("object"@)).with(
        "properties"@,
        json::empty_object().with(
            "label"@,
            text_schema(Some(1), MAX_OPTION_LABEL_CHARS as nat),
        ).with("description"@, text_schema(None, MAX_OPTION_DESCRIPTION_CHARS as nat)),
    ).with("required"@, Tree::Array(seq![Tree::Text("label"@)])).with(
        "additionalProperties"@,
        Tree::Bool(false),
    )
}

/// The definition of the tool that asks a question.
pub open spec fn question_tool() -> Tree {
    json::empty_object().with("name"@, Tree::Text("ask_question"@)).with(
        "description"@,
        Tree::Text(
            "Ask the user one bounded question when a missing choice blocks progress. Use options for concrete alternatives; omit options for a free-form answer."@,
        ),
    ).with(
        "input_schema"@,
        json::empty_object().with("type"@, Tree::Text("object"@)).with(
            "properties"@,
            json::empty_object().with(
                "question"@,
                text_schema(Some(1), MAX_QUESTION_CHARS as nat),
            ).with(
                "options"@,
                json::empty_object().with("type"@, Tree::Text("array"@)).with(
                    "maxItems"@,
                    Tree::Number(text::decimal(MAX_QUESTION_OPTIONS as nat)),
                ).with("items"@, option_schema()),
            ),
        ).with("required"@, Tree::Array(seq![Tree::Text("question"@)])).with(
            "additionalProperties"@,
            Tree::Bool(false),
        ),
    )
}

fn bounded_text(minimum: Option<u64>, maximum: u64) -> (r: Json)
    ensures
        r@ == text_schema(
            match minimum {
                Some(n) => Some(n as nat),
                None => None,
            },
            maximum as nat,
        ),
{
    let typed = Json::object().with("type", Json::string("string"));
    let bounded = match minimum {
        Some(n) => typed.with("minLength", Json::number(n)),
        None => typed,
    };
    bounded.with("maxLength", Json::number(maximum))
}

fn only(name: &str) -> (r: Json)
    ensures
        r@ == Tree::Array(seq![Tree::Text(name@)]),
{
    broadcast use json::lemma_json_view;

    let mut names: Vec<Json> = Vec::new();
    names.push(Json::string(name));
    assert(json::trees(names@) =~= seq![Tree::Text(name@)]);
    Json::Array(names)
}

fn option_definition() -> (r: Json)
    ensures
        r@ == option_schema(),
{
    let properties = Json::object().with(
        "label",
        bounded_text(Some(1), MAX_OPTION_LABEL_CHARS as u64),
    ).with("description", bounded_text(None, MAX_OPTION_DESCRIPTION_CHARS as u64));
    Json::object().with("type", Json::string("object")).with("properties", properties).with(
        "required",
        only("label"),
    ).with("additionalProperties", Json::Bool(false))
}

/// The definition of the tool that asks a question.
pub fn ask_question_definition() -> (r: Json)
    ensures
        r@ == question_tool(),
{
    let options = Json::object().with("type", Json::string("array")).with(
        "maxItems",
        Json::number(MAX_QUESTION_OPTIONS as u64),
    ).with("items", option_definition());
    let properties = Json::object().with(
        "question",
        bounded_text(Some(1), MAX_QUESTION_CHARS as u64),
    ).with("options", options);
    let schema = Json::object().with("type", Json::string("object")).with(
        "properties",
        properties,
    ).with("required", only("question")).with("additionalProperties", Json::Bool(false));
    Json::object().with("name", Json::string("ask_question")).with(
        "description",
        Json::string(
            "Ask the user one bounded question when a missing choice blocks progress. Use options for concrete alternatives; omit options for a free-form answer.",
        ),
    ).with("input_schema", schema)
}

} // verus!
