//! The external encoder: how it is invoked and how its exit is read.

use vstd::prelude::*;
use vstd::string::*;
use crate::text::texts;

verus! {

/// Why an encoder invocation counts as failed.
#[derive(Clone, Copy, Debug, PartialEq, Eq, Structural)]
pub enum EncodeFailure {
    /// The process could not be started.
    SpawnFailed,
    /// The process ended without an exit code.
    Terminated,
    /// The process ended with this non-zero exit code.
    ExitCode(i32),
}

/// What one encoder invocation came to.
#[derive(Clone, Copy, Debug, PartialEq, Eq, Structural)]
pub enum EncodeOutcome {
    Success,
    Failure(EncodeFailure),
}

/// The outcome that an observed process result stands for: only a started
/// process that exits with code zero is a success.
pub open spec fn outcome_of(spawned: bool, code: Option<i32>) -> EncodeOutcome {
    if !spawned {
        EncodeOutcome::Failure(EncodeFailure::SpawnFailed)
    } else {
        match code {
            None => EncodeOutcome::Failure(EncodeFailure::Terminated),
            Some(c) => if c == 0 {
                EncodeOutcome::Success
            } else {
                EncodeOutcome::Failure(EncodeFailure::ExitCode(c))
            },
        }
    }
}

impl EncodeOutcome {
    /// Reads the result of waiting for the encoder process. `spawned` tells
    /// whether the process started at all, `code` is its exit code if it had one.
    pub fn from_exit(spawned: bool, code: Option<i32>) -> (outcome: EncodeOutcome)
        ensures
            outcome == outcome_of(spawned, code),
            outcome.is_success() <==> spawned && code == Some(0i32),
    {
        if !spawned {
            return EncodeOutcome::Failure(EncodeFailure::SpawnFailed);
        }
        match code {
            None => EncodeOutcome::Failure(EncodeFailure::Terminated),
            Some(c) => {
                if c == 0 {
                    EncodeOutcome::Success
                } else {
                    EncodeOutcome::Failure(EncodeFailure::ExitCode(c))
                }
            },
        }
    }

    pub open spec fn is_success(self) -> bool {
        self == EncodeOutcome::Success
    }

    /// Whether the encoder reported success.
    pub fn succeeded(&self) -> (ok: bool)
        ensures
            ok == self.is_success(),
    {
        match self {
            EncodeOutcome::Success => true,
            EncodeOutcome::Failure(_) => false,
        }
    }
}

/// The bound on encoder processes that run at the same time.
#[derive(Debug)]
pub struct EncoderSlots {
    limit: usize,
    busy: usize,
}

impl EncoderSlots {
    /// Never more processes run than the limit allows.
    pub closed spec fn wf(&self) -> bool {
        self.busy <= self.limit
    }

    /// The most processes that may run at once.
    pub closed spec fn limit(&self) -> nat {
        self.limit as nat
    }

    /// The processes that run now.
    pub closed spec fn busy(&self) -> nat {
        self.busy as nat
    }

    /// Slots for at most `limit` processes, all free.
    pub fn new(limit: usize) -> (slots: EncoderSlots)
        ensures
            slots.wf(),
            slots.limit() == limit,
            slots.busy() == 0,
    {
        EncoderSlots { limit, busy: 0 }
    }

    /// Takes a slot if one is free. The encoder may be started only after
    /// this has answered `true`.
    pub fn try_acquire(&mut self) -> (granted: bool)
        requires
            old(self).wf(),
        ensures
            final(self).wf(),
            final(self).limit() == old(self).limit(),
            granted == (old(self).busy() < old(self).limit()),
            granted ==> final(self).busy() == old(self).busy() + 1,
            !granted ==> final(self).busy() == old(self).busy(),
    {
        if self.busy < self.limit {
            self.busy = self.busy + 1;
            true
        } else {
            false
        }
    }

    /// Gives back a slot once its process has ended. Without a slot taken
    /// there is nothing to give back, and nothing changes.
    pub fn release(&mut self) -> (released: bool)
        requires
            old(self).wf(),
        ensures
            final(self).wf(),
            final(self).limit() == old(self).limit(),
            released == (old(self).busy() > 0),
            released ==> final(self).busy() == old(self).busy() - 1,
            !released ==> final(self).busy() == old(self).busy(),
    {
        if self.busy > 0 {
            self.busy = self.busy - 1;
            true
        } else {
            false
        }
    }

    /// The number of slots taken.
    pub fn in_use(&self) -> (n: usize)
        ensures
            n == self.busy(),
    {
        self.busy
    }
}

/// The arguments of one encoder invocation: read `input`, encode the video
/// stream with `codec`, write `output`.
pub open spec fn argument_list(input: Seq<char>, codec: Seq<char>, output: Seq<char>) -> Seq<
    Seq<char>,
> {
    seq![seq!['-', 'i'], input, seq!['-', 'c', ':', 'v'], codec, output]
}

/// The name under which the encoder is started.
pub fn encoder_tool() -> (tool: &'static str)
    ensures
        tool@ == seq!['f', 'f', 'm', 'p', 'e', 'g'],
{
    proof {
        reveal_strlit("ffmpeg");
    }
    let tool: &'static str = "ffmpeg";
    assert(tool@ =~= seq!['f', 'f', 'm', 'p', 'e', 'g']);
    tool
}

/// The video codec that clients can preview.
pub fn target_codec() -> (codec: &'static str)
    ensures
        codec@ == seq!['l', 'i', 'b', 'x', '2', '6', '4'],
{
    proof {
        reveal_strlit("libx264");
    }
    let codec: &'static str = "libx264";
    assert(codec@ =~= seq!['l', 'i', 'b', 'x', '2', '6', '4']);
    codec
}

/// Fills the fixed argument template of the encoder with the two paths and
/// the codec.
pub fn encoder_arguments(input: &str, codec: &str, output: &str) -> (arguments: Vec<String>)
    ensures
        texts(arguments@) == argument_list(input@, codec@, output@),
{
    proof {
        reveal_strlit("-i");
        reveal_strlit("-c:v");
    }
    let mut arguments: Vec<String> = Vec::new();
    arguments.push(String::from_str("-i"));
    arguments.push(String::from_str(input));
    arguments.push(String::from_str("-c:v"));
    arguments.push(String::from_str(codec));
    arguments.push(String::from_str(output));
    proof {
        assert("-i"@ =~= seq!['-', 'i']);
        assert("-c:v"@ =~= seq!['-', 'c', ':', 'v']);
        assert(texts(arguments@) =~= argument_list(input@, codec@, output@));
    }
    arguments
}

} // verus!
