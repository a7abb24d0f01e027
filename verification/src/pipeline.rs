//! The life of one attachment that is re-encoded, as a state machine.
//!
//! The host performs each [`Action`] and reports whether it succeeded; the
//! machine answers with the next action. The machine keeps account of the
//! files that the run has brought into being and still has to remove.

use vstd::prelude::*;
use vstd::string::*;
use crate::attachment::Attachment;

verus! {

/// The step that a run is waiting on.
#[derive(Clone, Copy, Debug, PartialEq, Eq, Structural)]
pub enum Stage {
    /// Fetching the attachment's bytes.
    Download,
    /// Writing the bytes to the staging file.
    Staging,
    /// The encoder is running.
    Encoding,
    /// Removing the staging file.
    CleanupInput,
    /// Sending the reply with the encoder's output attached.
    Replying,
    /// Removing the encoder's output.
    CleanupOutput,
    /// Nothing is left to do.
    Finished,
}

/// What the host is asked to do next.
#[derive(Clone, Copy, Debug, PartialEq, Eq, Structural)]
pub enum Action {
    /// Fetch the attachment's bytes from its locator.
    Download,
    /// Write the fetched bytes to the staging file.
    WriteInput,
    /// Run the encoder from the staging file to the output file and wait.
    Encode,
    /// Remove the staging file.
    RemoveInput,
    /// Reply in the same channel, quoting the message, with the output file.
    Reply,
    /// Remove the output file.
    RemoveOutput,
    /// The run is over; touch nothing.
    Stop,
}

/// One run of the pipeline, for one attachment.
#[derive(Clone, Copy, Debug, PartialEq, Eq, Structural)]
pub struct Run {
    /// The attachment's id, from which both file names derive.
    pub id: u64,
    pub stage: Stage,
    /// The encoder has reported success.
    pub encoded: bool,
    /// The staging file may exist and its removal has not been attempted.
    pub input_owed: bool,
    /// The output file exists and its removal has not been attempted.
    pub output_owed: bool,
    /// The host has been asked to send the reply.
    pub reply_requested: bool,
}

/// The run and first action for an attachment with this id, by whether the
/// trigger rule selects it.
pub open spec fn begin(id: u64, qualifies: bool) -> (Run, Action) {
    let run = Run {
        id,
        stage: if qualifies { Stage::Download } else { Stage::Finished },
        encoded: false,
        input_owed: false,
        output_owed: false,
        reply_requested: false,
    };
    (run, if qualifies { Action::Download } else { Action::Stop })
}

/// The transition: `ok` tells whether the action that `run` was waiting on
/// succeeded.
pub open spec fn step(run: Run, ok: bool) -> (Run, Action) {
    match run.stage {
        Stage::Download => if ok {
            (Run { stage: Stage::Staging, input_owed: true, ..run }, Action::WriteInput)
        } else {
            (Run { stage: Stage::Finished, ..run }, Action::Stop)
        },
        Stage::Staging => if ok {
            (Run { stage: Stage::Encoding, ..run }, Action::Encode)
        } else {
            (Run { stage: Stage::CleanupInput, ..run }, Action::RemoveInput)
        },
        Stage::Encoding => (
            Run { stage: Stage::CleanupInput, encoded: ok, output_owed: ok, ..run },
            Action::RemoveInput,
        ),
        Stage::CleanupInput => if run.encoded {
            (
                Run { stage: Stage::Replying, input_owed: false, reply_requested: true, ..run },
                Action::Reply,
            )
        } else {
            (Run { stage: Stage::Finished, input_owed: false, ..run }, Action::Stop)
        },
        Stage::Replying => (Run { stage: Stage::CleanupOutput, ..run }, Action::RemoveOutput),
        Stage::CleanupOutput => (
            Run { stage: Stage::Finished, output_owed: false, ..run },
            Action::Stop,
        ),
        Stage::Finished => (run, Action::Stop),
    }
}

/// The run after the host has reported `outcomes`, one per action, in order.
pub open spec fn after(run: Run, outcomes: Seq<bool>) -> Run
    decreases outcomes.len(),
{
    if outcomes.len() == 0 {
        run
    } else {
        step(after(run, outcomes.drop_last()), outcomes.last()).0
    }
}

/// The actions that the host was given while reporting `outcomes`, one per
/// outcome, in order.
pub open spec fn issued(run: Run, outcomes: Seq<bool>) -> Seq<Action>
    decreases outcomes.len(),
{
    if outcomes.len() == 0 {
        Seq::empty()
    } else {
        issued(run, outcomes.drop_last()).push(
            step(after(run, outcomes.drop_last()), outcomes.last()).1,
        )
    }
}

impl Run {
    /// What holds of every run that began with [`Run::start`], at every moment.
    pub open spec fn consistent(self) -> bool {
        match self.stage {
            Stage::Download => !self.encoded && !self.input_owed && !self.output_owed
                && !self.reply_requested,
            Stage::Staging | Stage::Encoding => !self.encoded && self.input_owed
                && !self.output_owed && !self.reply_requested,
            Stage::CleanupInput => self.input_owed && self.output_owed == self.encoded
                && !self.reply_requested,
            Stage::Replying | Stage::CleanupOutput => self.encoded && !self.input_owed
                && self.output_owed && self.reply_requested,
            Stage::Finished => !self.input_owed && !self.output_owed && self.reply_requested
                == self.encoded,
        }
    }

    /// Begins the run for `attachment`. An attachment that the trigger rule
    /// does not select gets a run that is over before it began.
    pub fn start(attachment: &Attachment) -> (first: (Run, Action))
        ensures
            first == begin(attachment.id, attachment.qualifies()),
            first.0.consistent(),
    {
        let qualifies = attachment.needs_transcode();
        let run = Run {
            id: attachment.id,
            stage: if qualifies { Stage::Download } else { Stage::Finished },
            encoded: false,
            input_owed: false,
            output_owed: false,
            reply_requested: false,
        };
        (run, if qualifies { Action::Download } else { Action::Stop })
    }

    /// Takes the outcome of the action that the run was waiting on and gives
    /// the run's next state and the next action. For the encoder, `ok` is
    /// whether it reported success. A failed removal or reply does not change
    /// what follows.
    pub fn advance(self, ok: bool) -> (next: (Run, Action))
        ensures
            next == step(self, ok),
            next.0.id == self.id,
            self.consistent() ==> next.0.consistent(),
            next.1 == Action::Reply <==> self.stage == Stage::CleanupInput && self.encoded,
            next.1 == Action::Stop <==> next.0.stage == Stage::Finished,
    {
        let mut run = self;
        match self.stage {
            Stage::Download => {
                if ok {
                    run.stage = Stage::Staging;
                    run.input_owed = true;
                    (run, Action::WriteInput)
                } else {
                    run.stage = Stage::Finished;
                    (run, Action::Stop)
                }
            },
            Stage::Staging => {
                if ok {
                    run.stage = Stage::Encoding;
                    (run, Action::Encode)
                } else {
                    run.stage = Stage::CleanupInput;
                    (run, Action::RemoveInput)
                }
            },
            Stage::Encoding => {
                run.stage = Stage::CleanupInput;
                run.encoded = ok;
                run.output_owed = ok;
                (run, Action::RemoveInput)
            },
            Stage::CleanupInput => {
                run.input_owed = false;
                if self.encoded {
                    run.stage = Stage::Replying;
                    run.reply_requested = true;
                    (run, Action::Reply)
                } else {
                    run.stage = Stage::Finished;
                    (run, Action::Stop)
                }
            },
            Stage::Replying => {
                run.stage = Stage::CleanupOutput;
                (run, Action::RemoveOutput)
            },
            Stage::CleanupOutput => {
                run.stage = Stage::Finished;
                run.output_owed = false;
                (run, Action::Stop)
            },
            Stage::Finished => (run, Action::Stop),
        }
    }

    /// Whether the run is over.
    pub fn is_finished(&self) -> (done: bool)
        ensures
            done == (self.stage == Stage::Finished),
    {
        match self.stage {
            Stage::Finished => true,
            _ => false,
        }
    }
}

/// The text that accompanies the re-encoded file.
pub open spec fn caption_text() -> Seq<char> {
    seq![
        'D', 'i', 's', 'c', 'o', 'r', 'd', '-', 'f', 'r', 'i', 'e', 'n', 'd', 'l', 'y', ' ', 'v',
        'e', 'r', 's', 'i', 'o', 'n', ':', ' ',
    ]
}

/// The caption of the reply that carries the re-encoded file.
pub fn reply_caption() -> (caption: &'static str)
    ensures
        caption@ == caption_text(),
{
    proof {
        reveal_strlit("Discord-friendly version: ");
    }
    let caption: &'static str = "Discord-friendly version: ";
    assert(caption@ =~= caption_text());
    caption
}

/// The number of steps that a run in this stage can still take, at most.
pub open spec fn steps_left(stage: Stage) -> nat {
    match stage {
        Stage::Download => 6,
        Stage::Staging => 5,
        Stage::Encoding => 4,
        Stage::CleanupInput => 3,
        Stage::Replying => 2,
        Stage::CleanupOutput => 1,
        Stage::Finished => 0,
    }
}

/// An attachment that the trigger rule does not select causes no work: its run
/// is finished from the start, and every action it is ever given is `Stop`.
pub proof fn lemma_unselected_does_nothing(id: u64, outcomes: Seq<bool>)
    ensures
        begin(id, false).1 == Action::Stop,
        after(begin(id, false).0, outcomes) == begin(id, false).0,
        forall|i: int| 0 <= i < issued(begin(id, false).0, outcomes).len() ==> issued(
            begin(id, false).0,
            outcomes,
        )[i] == Action::Stop,
    decreases outcomes.len(),
{
    if outcomes.len() > 0 {
        lemma_unselected_does_nothing(id, outcomes.drop_last());
    }
}

/// How often `action` occurs in `trace`.
pub open spec fn times(trace: Seq<Action>, action: Action) -> nat
    decreases trace.len(),
{
    if trace.len() == 0 {
        0
    } else {
        let here: nat = if trace.last() == action {
            1
        } else {
            0
        };
        times(trace.drop_last(), action) + here
    }
}

/// Whether one of `outcomes` was the encoder's report and told of success.
pub open spec fn encoder_succeeded(run: Run, outcomes: Seq<bool>) -> bool
    decreases outcomes.len(),
{
    if outcomes.len() == 0 {
        false
    } else {
        encoder_succeeded(run, outcomes.drop_last()) || (after(run, outcomes.drop_last()).stage
            == Stage::Encoding && outcomes.last())
    }
}

/// How the actions given so far relate to the stage that a run has reached.
pub open spec fn accounted(run: Run, trace: Seq<Action>) -> bool {
    let writes = times(trace, Action::WriteInput);
    let encodes = times(trace, Action::Encode);
    let input_removals = times(trace, Action::RemoveInput);
    let replies = times(trace, Action::Reply);
    let output_removals = times(trace, Action::RemoveOutput);
    let expected: nat = if run.encoded {
        1
    } else {
        0
    };
    &&& times(trace, Action::Download) == 0
    &&& run.encoded ==> encodes == 1
    &&& match run.stage {
        Stage::Download => writes == 0 && encodes == 0 && input_removals == 0 && replies == 0
            && output_removals == 0,
        Stage::Staging => writes == 1 && encodes == 0 && input_removals == 0 && replies == 0
            && output_removals == 0,
        Stage::Encoding => writes == 1 && encodes == 1 && input_removals == 0 && replies == 0
            && output_removals == 0,
        Stage::CleanupInput => writes == 1 && encodes <= 1 && input_removals == 1 && replies == 0
            && output_removals == 0,
        Stage::Replying => writes == 1 && encodes == 1 && input_removals == 1 && replies == 1
            && output_removals == 0,
        Stage::CleanupOutput => writes == 1 && encodes == 1 && input_removals == 1 && replies
            == 1 && output_removals == 1,
        Stage::Finished => writes <= 1 && encodes <= writes && input_removals == writes
            && replies == expected && output_removals == expected,
    }
}

/// The actions that a run has been given always fit the stage it is in, and
/// the run remembers a success of the encoder exactly if one was reported.
pub proof fn lemma_trace_accounts(id: u64, qualifies: bool, outcomes: Seq<bool>)
    ensures
        after(begin(id, qualifies).0, outcomes).consistent(),
        accounted(after(begin(id, qualifies).0, outcomes), issued(begin(id, qualifies).0, outcomes)),
        after(begin(id, qualifies).0, outcomes).encoded == encoder_succeeded(
            begin(id, qualifies).0,
            outcomes,
        ),
    decreases outcomes.len(),
{
    let first = begin(id, qualifies).0;
    if outcomes.len() > 0 {
        let earlier = outcomes.drop_last();
        lemma_trace_accounts(id, qualifies, earlier);
        let given = step(after(first, earlier), outcomes.last()).1;
        let trace = issued(first, outcomes);
        assert(trace.drop_last() =~= issued(first, earlier));
        assert(trace.last() == given);
    }
}

/// When a run is over, whatever happened on the way, no file is left behind.
/// The staging file was asked to be removed as often as it was asked to be
/// written, the output file was asked to be removed exactly if the encoder
/// had reported success, and the run holds no file as still owed.
pub proof fn lemma_finished_run_leaves_nothing(id: u64, qualifies: bool, outcomes: Seq<bool>)
    requires
        after(begin(id, qualifies).0, outcomes).stage == Stage::Finished,
    ensures
        ({
            let first = begin(id, qualifies).0;
            let trace = issued(first, outcomes);
            let removals: nat = if encoder_succeeded(first, outcomes) {
                1
            } else {
                0
            };
            &&& times(trace, Action::RemoveInput) == times(trace, Action::WriteInput)
            &&& times(trace, Action::RemoveOutput) == removals
            &&& !after(first, outcomes).input_owed
            &&& !after(first, outcomes).output_owed
        }),
{
    lemma_trace_accounts(id, qualifies, outcomes);
}

/// The reply with the file is asked for only after the encoder reported
/// success, never twice, and a finished run has asked for it exactly if the
/// encoder reported success.
pub proof fn lemma_reply_iff_encoded(id: u64, qualifies: bool, outcomes: Seq<bool>)
    ensures
        ({
            let first = begin(id, qualifies).0;
            let replies = times(issued(first, outcomes), Action::Reply);
            &&& replies <= 1
            &&& replies == 1 ==> encoder_succeeded(first, outcomes)
            &&& after(first, outcomes).stage == Stage::Finished ==> (replies == 1
                <==> encoder_succeeded(first, outcomes))
            &&& after(first, outcomes).reply_requested == (replies == 1)
        }),
{
    lemma_trace_accounts(id, qualifies, outcomes);
}

/// Each report brings a run closer to its end.
pub proof fn lemma_step_progress(run: Run, ok: bool)
    ensures
        run.stage != Stage::Finished ==> steps_left(step(run, ok).0.stage) < steps_left(
            run.stage,
        ),
        run.stage == Stage::Finished ==> step(run, ok).0 == run,
{
}

/// Every run is over after six reports.
pub proof fn lemma_run_ends(run: Run, outcomes: Seq<bool>)
    ensures
        steps_left(after(run, outcomes).stage) + outcomes.len() <= steps_left(run.stage)
            || after(run, outcomes).stage == Stage::Finished,
        outcomes.len() >= 6 ==> after(run, outcomes).stage == Stage::Finished,
    decreases outcomes.len(),
{
    if outcomes.len() > 0 {
        lemma_run_ends(run, outcomes.drop_last());
        lemma_step_progress(after(run, outcomes.drop_last()), outcomes.last());
    }
}

} // verus!
