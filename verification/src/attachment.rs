//! Attachments as the gateway reports them, the rule that selects the ones to
//! re-encode, and the names of the files that stage them.

use vstd::prelude::*;
use vstd::string::*;
use crate::text::{decimal, decimal_string, has_prefix, lemma_decimal_digits, lemma_decimal_injective, is_digit, digit};

verus! {

/// One file attached to a message.
#[derive(Clone, Debug)]
pub struct Attachment {
    /// Unique among the attachments in flight.
    pub id: u64,
    /// The declared media type, if the sender's client gave one.
    pub content_type: Option<String>,
    /// Present only when the platform could render a preview.
    pub width: Option<u64>,
    /// Present only when the platform could render a preview.
    pub height: Option<u64>,
    /// Length in bytes.
    pub size: u64,
    /// Where the content can be fetched.
    pub url: String,
}

/// The media-type prefix of the attachments that are re-encoded.
pub open spec fn video_prefix() -> Seq<char> {
    seq!['v', 'i', 'd', 'e', 'o', '/']
}

/// The suffix that turns a staging name into the name of the encoder's output.
pub open spec fn output_suffix() -> Seq<char> {
    seq!['.', 'm', 'p', '4']
}

/// The name of the file that holds the downloaded bytes of attachment `id`.
pub open spec fn input_name(id: u64) -> Seq<char> {
    decimal(id as nat)
}

/// The name of the file that the encoder writes for attachment `id`.
pub open spec fn output_name(id: u64) -> Seq<char> {
    decimal(id as nat) + output_suffix()
}

impl Attachment {
    /// The trigger rule: no preview dimensions at all, and a declared media
    /// type that begins with `video/`.
    pub open spec fn qualifies(&self) -> bool {
        &&& self.width is None
        &&& self.height is None
        &&& self.content_type is Some
        &&& video_prefix().is_prefix_of(self.content_type->0@)
    }

    /// Whether this attachment is to be re-encoded.
    pub fn needs_transcode(&self) -> (yes: bool)
        ensures
            yes == self.qualifies(),
    {
        if self.width.is_some() || self.height.is_some() {
            return false;
        }
        match &self.content_type {
            None => false,
            Some(kind) => {
                proof {
                    reveal_strlit("video/");
                    assert("video/"@ =~= video_prefix());
                }
                has_prefix(kind.as_str(), "video/")
            },
        }
    }
}

/// The positions in `attachments` of those that the trigger rule selects, in
/// ascending order.
pub open spec fn selected(attachments: Seq<Attachment>) -> Seq<int>
    decreases attachments.len(),
{
    if attachments.len() == 0 {
        Seq::empty()
    } else {
        let earlier = selected(attachments.drop_last());
        if attachments.last().qualifies() {
            earlier.push(attachments.len() - 1)
        } else {
            earlier
        }
    }
}

/// The selection holds exactly the positions of the attachments that
/// qualify, each once, in ascending order.
pub proof fn lemma_selected(attachments: Seq<Attachment>)
    ensures
        forall|i: int|
            selected(attachments).contains(i) <==> 0 <= i < attachments.len()
                && attachments[i].qualifies(),
        forall|j: int, k: int|
            0 <= j < k < selected(attachments).len() ==> selected(attachments)[j] < selected(
                attachments,
            )[k],
    decreases attachments.len(),
{
    if attachments.len() > 0 {
        let front = attachments.drop_last();
        let earlier = selected(front);
        let last = attachments.len() - 1;
        lemma_selected(front);
        assert forall|i: int|
            selected(attachments).contains(i) <==> 0 <= i < attachments.len()
                && attachments[i].qualifies() by {
            if earlier.contains(i) {
                let at = choose|at: int| 0 <= at < earlier.len() && earlier[at] == i;
                assert(selected(attachments)[at] == i);
                assert(front[i] == attachments[i]);
            }
            if 0 <= i < last && attachments[i].qualifies() {
                assert(front[i] == attachments[i]);
                assert(earlier.contains(i));
            }
            if i == last && attachments[i].qualifies() {
                assert(selected(attachments)[earlier.len() as int] == i);
            }
        }
        assert forall|j: int, k: int| 0 <= j < k < selected(attachments).len() implies selected(
            attachments,
        )[j] < selected(attachments)[k] by {
            if k == earlier.len() {
                assert(earlier.contains(earlier[j]));
            }
        }
    }
}

/// Scans the attachments of a message and gives the positions of those to
/// re-encode, in the order in which they are attached. Each gets a run of
/// its own.
pub fn scan(attachments: &Vec<Attachment>) -> (picked: Vec<usize>)
    ensures
        picked@.map_values(|i: usize| i as int) == selected(attachments@),
{
    let mut picked: Vec<usize> = Vec::new();
    let mut i: usize = 0;
    assert(picked@.map_values(|i: usize| i as int) =~= Seq::<int>::empty());
    while i < attachments.len()
        invariant
            i <= attachments.len(),
            picked@.map_values(|i: usize| i as int) == selected(attachments@.subrange(0, i as int)),
        decreases attachments.len() - i,
    {
        let ghost before = picked@;
        assert(attachments@.subrange(0, i + 1).drop_last() =~= attachments@.subrange(0, i as int));
        assert(attachments@.subrange(0, i + 1).last() == attachments@[i as int]);
        if attachments[i].needs_transcode() {
            picked.push(i);
            assert(picked@.map_values(|i: usize| i as int) =~= before.map_values(
                |i: usize| i as int,
            ).push(i as int));
        }
        i += 1;
    }
    assert(attachments@.subrange(0, i as int) =~= attachments@);
    picked
}

/// The staging file name for attachment `id`: its decimal numeral.
pub fn input_path(id: u64) -> (path: String)
    ensures
        path@ == input_name(id),
{
    decimal_string(id)
}

/// The output file name for attachment `id`: the staging name followed by `.mp4`.
pub fn output_path(id: u64) -> (path: String)
    ensures
        path@ == output_name(id),
{
    proof {
        reveal_strlit(".mp4");
        assert(".mp4"@ =~= output_suffix());
    }
    decimal_string(id).concat(".mp4")
}

/// Two runs for different attachments never share a file name: staging names
/// differ, output names differ, and no staging name is another run's output
/// name.
pub proof fn lemma_paths_never_collide(a: u64, b: u64)
    ensures
        a != b ==> input_name(a) != input_name(b),
        a != b ==> output_name(a) != output_name(b),
        input_name(a) != output_name(b),
{
    if input_name(a) == input_name(b) {
        lemma_decimal_injective(a as nat, b as nat);
    }
    if output_name(a) == output_name(b) {
        let x = decimal(a as nat);
        let y = decimal(b as nat);
        assert(output_suffix().len() == 4);
        assert(output_name(a).len() == x.len() + 4);
        assert(output_name(b).len() == y.len() + 4);
        assert(x =~= output_name(a).subrange(0, x.len() as int));
        assert(y =~= output_name(b).subrange(0, y.len() as int));
        lemma_decimal_injective(a as nat, b as nat);
    }
    if input_name(a) == output_name(b) {
        let y = decimal(b as nat);
        lemma_decimal_digits(a as nat);
        assert(output_suffix().len() == 4);
        assert(output_name(b).len() == y.len() + 4);
        assert(output_name(b)[y.len() as int] == output_suffix()[0]);
        assert(is_digit(input_name(a)[y.len() as int]));
        let d = choose|d: nat| d < 10 && '.' == #[trigger] digit(d);
        assert(false);
    }
}

} // verus!
