//! The decisions of the streaming pipeline.
//!
//! The pipeline waits for signals, makes a record of each, has a query
//! engine filter the record and prints what comes back. Waiting, querying
//! and printing are done around this library; what to do next is decided
//! here, one step at a time.

use crate::convert::error_text;
use crate::convert::ConvertError;
use crate::convert::ConvertErrorView;
use crate::record::build_record;
use crate::record::record_document;
use crate::record::spec_record;
use crate::record::Record;
use crate::record::RecordView;
use crate::render::compact_text;
use crate::render::record_text;
use crate::value::views;
use crate::value::BusValue;
use crate::value::BusValueView;
use vstd::prelude::*;
use vstd::string::StringExecFns;

verus! {

/// The stage at which a run failed, with the account of the failure.
#[derive(Debug, PartialEq, Eq)]
pub enum Failure {
    /// The payload of a signal could not be read.
    Payload(String),
    /// The arguments of a signal have no JSON document.
    Conversion(ConvertError),
    /// The query engine failed on a record.
    Query(String),
}

/// How a run has ended.
#[derive(Debug, PartialEq, Eq)]
pub enum Ending {
    /// The stream of signals ended.
    Exhausted,
    Failed(Failure),
}

/// Where a run stands.
#[derive(Debug, PartialEq, Eq)]
pub enum State {
    Listening,
    Terminated(Ending),
}

/// What has happened around the pipeline.
#[derive(Debug, PartialEq, Eq)]
pub enum Input {
    /// A signal arrived and its payload was read.
    Signal { member: Option<String>, arguments: Vec<BusValue> },
    /// A signal arrived and its payload could not be read.
    Unreadable(String),
    /// The query engine has filtered the last record.
    Filtered(String),
    /// The query engine has failed on the last record.
    QueryFailed(String),
    /// The stream of signals has ended.
    Exhausted,
}

/// What is to be done next.
#[derive(Debug, PartialEq, Eq)]
pub enum Action {
    /// Hand the record to the query engine, as JSON text in compact
    /// form. `text` holds that text, unless the record is one that
    /// cannot be written here (see `Json::writable`).
    Query { record: Record, text: Option<String> },
    /// Print the line, followed by a newline.
    Print(String),
    /// End the run with the exit code.
    Exit(i32),
}

/// The mathematical content of a [`Failure`].
pub enum FailureView {
    Payload(Seq<char>),
    Conversion(ConvertErrorView),
    Query(Seq<char>),
}

/// The mathematical content of an [`Ending`].
pub enum EndingView {
    Exhausted,
    Failed(FailureView),
}

/// The mathematical content of a [`State`].
pub enum StateView {
    Listening,
    Terminated(EndingView),
}

/// The mathematical content of an [`Input`].
pub enum InputView {
    Signal { member: Option<Seq<char>>, arguments: Seq<BusValueView> },
    Unreadable(Seq<char>),
    Filtered(Seq<char>),
    QueryFailed(Seq<char>),
    Exhausted,
}

/// The mathematical content of an [`Action`].
pub enum ActionView {
    Query(RecordView),
    Print(Seq<char>),
    Exit(i32),
}

impl Failure {
    /// The mathematical content.
    pub open spec fn view(&self) -> FailureView {
        match self {
            Failure::Payload(cause) => FailureView::Payload(cause@),
            Failure::Conversion(e) => FailureView::Conversion(e@),
            Failure::Query(cause) => FailureView::Query(cause@),
        }
    }
}

impl Ending {
    /// The mathematical content.
    pub open spec fn view(&self) -> EndingView {
        match self {
            Ending::Exhausted => EndingView::Exhausted,
            Ending::Failed(failure) => EndingView::Failed(failure@),
        }
    }

    /// The exit code of a run that has ended in this way.
    pub fn exit_code(&self) -> (code: i32)
        ensures
            code == exit_code(self@),
    {
        match self {
            Ending::Exhausted => 0,
            Ending::Failed(_) => 1,
        }
    }
}

impl State {
    /// The mathematical content.
    pub open spec fn view(&self) -> StateView {
        match self {
            State::Listening => StateView::Listening,
            State::Terminated(ending) => StateView::Terminated(ending@),
        }
    }
}

impl Input {
    /// The mathematical content.
    pub open spec fn view(&self) -> InputView {
        match self {
            Input::Signal { member, arguments } => InputView::Signal {
                member: match member {
                    Some(name) => Some(name@),
                    None => None,
                },
                arguments: views(arguments@),
            },
            Input::Unreadable(cause) => InputView::Unreadable(cause@),
            Input::Filtered(text) => InputView::Filtered(text@),
            Input::QueryFailed(cause) => InputView::QueryFailed(cause@),
            Input::Exhausted => InputView::Exhausted,
        }
    }
}

impl Action {
    /// The content of an action. The text that goes with a record to
    /// query is no part of it: what that text is follows from the record.
    pub open spec fn view(&self) -> ActionView {
        match self {
            Action::Query { record, .. } => ActionView::Query(record@),
            Action::Print(line) => ActionView::Print(line@),
            Action::Exit(code) => ActionView::Exit(*code),
        }
    }
}

/// The exit code of a run: zero where the stream of signals ended, one
/// where a stage failed.
pub open spec fn exit_code(ending: EndingView) -> i32 {
    match ending {
        EndingView::Exhausted => 0,
        EndingView::Failed(_) => 1,
    }
}

/// A text without its last character, if that is a line feed; else the
/// text as it is.
pub open spec fn without_line_end(text: Seq<char>) -> Seq<char> {
    if text.len() > 0 && text.last() == '\n' {
        text.drop_last()
    } else {
        text
    }
}

/// The state after a step, and what is to be done.
///
/// While listening: a signal whose arguments have a document gives a
/// record to query, and what the query engine hands back is printed
/// without its line end; the run goes on listening. The end of the
/// stream ends the run with exit code zero. A payload that cannot be
/// read, arguments without a document and a failure of the query engine
/// each end the run with exit code one. A run that has ended stays as
/// it ended, whatever happens: nothing is queried or printed any more.
pub open spec fn spec_step(state: StateView, input: InputView) -> (StateView, ActionView) {
    match state {
        StateView::Terminated(ending) => (state, ActionView::Exit(exit_code(ending))),
        StateView::Listening => match input {
            InputView::Signal { member, arguments } => match spec_record(member, arguments) {
                Ok(record) => (StateView::Listening, ActionView::Query(record)),
                Err(e) => failed(FailureView::Conversion(e)),
            },
            InputView::Unreadable(cause) => failed(FailureView::Payload(cause)),
            InputView::Filtered(text) => (
                StateView::Listening,
                ActionView::Print(without_line_end(text)),
            ),
            InputView::QueryFailed(cause) => failed(FailureView::Query(cause)),
            InputView::Exhausted => (
                StateView::Terminated(EndingView::Exhausted),
                ActionView::Exit(0),
            ),
        },
    }
}

/// The end of a run by a failure.
pub open spec fn failed(failure: FailureView) -> (StateView, ActionView) {
    (StateView::Terminated(EndingView::Failed(failure)), ActionView::Exit(1))
}

/// Takes one trailing line feed off a text, if there is one.
pub fn strip_line_end(text: String) -> (r: String)
    ensures
        r@ == without_line_end(text@),
{
    let length = text.as_str().unicode_len();
    if length > 0 && text.as_str().get_char(length - 1) == '\n' {
        let kept = text.as_str().substring_char(0, length - 1);
        proof {
            assert(text@.subrange(0, length - 1) =~= text@.drop_last());
        }
        String::from_str(kept)
    } else {
        text
    }
}

/// Takes one step of the pipeline.
pub fn step(state: State, input: Input) -> (r: (State, Action))
    ensures
        (r.0@, r.1@) == spec_step(state@, input@),
        r.1 matches Action::Query { record, text } ==> {
            &&& record.wf()
            &&& text is Some <==> record.data.writable() && record.signature.writable()
            &&& text matches Some(written) ==> written@ == compact_text(record_document(record@))
        },
{
    match state {
        State::Terminated(ending) => {
            let code = ending.exit_code();
            (State::Terminated(ending), Action::Exit(code))
        },
        State::Listening => match input {
            Input::Signal { member, arguments } => match build_record(member, arguments) {
                Ok(record) => {
                    let text = record_text(&record);
                    (State::Listening, Action::Query { record, text })
                },
                Err(e) => (State::Terminated(Ending::Failed(Failure::Conversion(e))), Action::Exit(1)),
            },
            Input::Unreadable(cause) => (
                State::Terminated(Ending::Failed(Failure::Payload(cause))),
                Action::Exit(1),
            ),
            Input::Filtered(text) => (State::Listening, Action::Print(strip_line_end(text))),
            Input::QueryFailed(cause) => (
                State::Terminated(Ending::Failed(Failure::Query(cause))),
                Action::Exit(1),
            ),
            Input::Exhausted => (State::Terminated(Ending::Exhausted), Action::Exit(0)),
        },
    }
}

/// The account of a failure, layer by layer, from what the run was doing
/// down to the cause.
pub open spec fn cause_chain(failure: FailureView) -> Seq<Seq<char>> {
    match failure {
        FailureView::Payload(cause) => seq![
            "Failed while receiving messages"@,
            "Couldn't deserialize message"@,
            cause,
        ],
        FailureView::Conversion(e) => seq![
            "Failed while receiving messages"@,
            "Couldn't convert message"@,
            error_text(e),
        ],
        FailureView::Query(cause) => seq![
            "Failed while receiving messages"@,
            "Query engine failed to run"@,
            cause,
        ],
    }
}

/// The texts of a sequence of strings, in order.
pub open spec fn texts(lines: Seq<String>) -> Seq<Seq<char>> {
    Seq::new(lines.len(), |i: int| lines[i]@)
}

impl Failure {
    /// Writes the account of the failure, layer by layer.
    pub fn causes(&self) -> (r: Vec<String>)
        ensures
            texts(r@) == cause_chain(self@),
    {
        let mut chain: Vec<String> = Vec::new();
        chain.push(String::from_str("Failed while receiving messages"));
        match self {
            Failure::Payload(cause) => {
                chain.push(String::from_str("Couldn't deserialize message"));
                chain.push(cause.clone());
            },
            Failure::Conversion(e) => {
                chain.push(String::from_str("Couldn't convert message"));
                chain.push(e.message());
            },
            Failure::Query(cause) => {
                chain.push(String::from_str("Query engine failed to run"));
                chain.push(cause.clone());
            },
        }
        proof {
            assert(texts(chain@) =~= cause_chain(self@));
        }
        chain
    }
}

/// The state of a run that started listening and has taken a step for
/// each of the inputs, in order.
pub open spec fn state_after(inputs: Seq<InputView>) -> StateView
    decreases inputs.len(),
{
    if inputs.len() == 0 {
        StateView::Listening
    } else {
        spec_step(state_after(inputs.drop_last()), inputs.last()).0
    }
}

/// What the step for `inputs[i]` asks for, in a run that started
/// listening and has taken a step for each input before it.
pub open spec fn action_at(inputs: Seq<InputView>, i: int) -> ActionView {
    spec_step(state_after(inputs.take(i)), inputs[i]).1
}

/// A run that has ended stays as it ended: whatever happens then, the
/// step asks for nothing but the exit.
pub proof fn lemma_ended_run_stays(ending: EndingView, input: InputView)
    ensures
        spec_step(StateView::Terminated(ending), input) == (
            StateView::Terminated(ending),
            ActionView::Exit(exit_code(ending)),
        ),
{
}

/// A run ends with exit code zero exactly where the stream of signals
/// ended.
pub proof fn lemma_exit_code_tells_failure(ending: EndingView)
    ensures
        exit_code(ending) == 0 <==> ending is Exhausted,
{
}

/// Once a run has ended, no later input is queried or printed: each of
/// the later steps asks for the exit, with the code of the ending, and
/// the run stays as it ended.
pub proof fn lemma_nothing_after_the_end(inputs: Seq<InputView>, k: int, i: int)
    requires
        0 <= k <= i < inputs.len(),
        state_after(inputs.take(k)) is Terminated,
    ensures
        state_after(inputs.take(i)) == state_after(inputs.take(k)),
        state_after(inputs.take(i + 1)) == state_after(inputs.take(k)),
        action_at(inputs, i) == ActionView::Exit(exit_code(state_after(inputs.take(k))->Terminated_0)),
    decreases i - k,
{
    if k < i {
        lemma_nothing_after_the_end(inputs, k, i - 1);
    } else {
    }
    assert(inputs.take(i + 1).drop_last() =~= inputs.take(i));
    assert(inputs.take(i + 1).last() == inputs[i]);
}

/// A run ends at the first input that is no signal with a document and
/// no filtered text: while every input is one of these, the run goes on
/// listening.
pub proof fn lemma_listening_goes_on(inputs: Seq<InputView>)
    requires
        forall|i: int|
            0 <= i < inputs.len() ==> match #[trigger] inputs[i] {
                InputView::Signal { member, arguments } => spec_record(member, arguments) is Ok,
                InputView::Filtered(_) => true,
                _ => false,
            },
    ensures
        state_after(inputs) == StateView::Listening,
    decreases inputs.len(),
{
    if inputs.len() > 0 {
        let front = inputs.drop_last();
        assert forall|i: int| 0 <= i < front.len() implies match #[trigger] front[i] {
            InputView::Signal { member, arguments } => spec_record(member, arguments) is Ok,
            InputView::Filtered(_) => true,
            _ => false,
        } by {
            assert(front[i] == inputs[i]);
        }
        lemma_listening_goes_on(front);
        assert(inputs.last() == inputs[inputs.len() - 1]);
    }
}

} // verus!
