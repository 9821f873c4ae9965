//! One sampling pass over the process list.
//!
//! The caller enumerates processes and reports each step of the enumeration
//! to a [`SamplingPass`]; the pass decides what to do next and, once the list
//! is exhausted, whether a target was present.

use vstd::prelude::*;
use vstd::string::StringSliceAdditionalSpecFns;
use vstd::utf8::valid_utf8;
use crate::names::{TargetSet, names_target};

verus! {

/// A process as the system lists it: its id and the raw bytes of its
/// executable name, which end at the first NUL byte if there is one.
pub struct ProcessEntry {
    pub id: u32,
    pub exe_file: Vec<u8>,
}

/// The index of the first NUL byte of `raw` at or after `i`, or the length of
/// `raw` where there is none.
pub open spec fn nul_from(raw: Seq<u8>, i: int) -> int
    decreases raw.len() - i,
{
    if 0 <= i < raw.len() && raw[i] != 0 {
        nul_from(raw, i + 1)
    } else {
        i
    }
}

/// The bytes of a NUL-terminated name buffer up to the terminator.
pub open spec fn name_bytes(raw: Seq<u8>) -> Seq<u8> {
    raw.take(nul_from(raw, 0))
}

/// Whether a listed process counts as a target: its name reads as UTF-8 text
/// and ends in one of the targets.
pub open spec fn entry_matches(targets: Seq<Seq<u8>>, raw: Seq<u8>) -> bool {
    valid_utf8(name_bytes(raw)) && names_target(targets, name_bytes(raw))
}

/// How many leading bytes of `bytes` form valid UTF-8 at most: the largest
/// `n` such that `bytes[..n]` is valid.
pub open spec fn is_valid_prefix_len(bytes: Seq<u8>, n: int) -> bool {
    &&& 0 <= n <= bytes.len()
    &&& valid_utf8(bytes.take(n))
    &&& forall|k: int| n < k <= bytes.len() ==> !valid_utf8(#[trigger] bytes.take(k))
}

/// Relies on std::str::from_utf8: it succeeds exactly on valid UTF-8 and then
/// returns the same bytes as text; on failure, its error's `valid_up_to` is
/// the largest index up to which the bytes are valid UTF-8.
#[verifier::external_body]
fn text_of(bytes: &[u8]) -> (r: Result<&str, usize>)
    ensures
        r is Ok <==> valid_utf8(bytes@),
        match r {
            Ok(t) => t.spec_bytes() == bytes@,
            Err(n) => is_valid_prefix_len(bytes@, n as int),
        },
{
    match std::str::from_utf8(bytes) {
        Ok(t) => Ok(t),
        Err(e) => Err(e.valid_up_to()),
    }
}

/// The text of a NUL-terminated name buffer. Where the bytes before the
/// terminator are not valid UTF-8, the error tells how many of them are.
pub fn get_winstring(data: &[u8]) -> (r: Result<&str, usize>)
    ensures
        r is Ok <==> valid_utf8(name_bytes(data@)),
        match r {
            Ok(t) => t.spec_bytes() == name_bytes(data@),
            Err(n) => is_valid_prefix_len(name_bytes(data@), n as int),
        },
{
    let mut len: usize = 0;
    while len < data.len() && data[len] != 0
        invariant
            len <= data@.len(),
            nul_from(data@, 0) == nul_from(data@, len as int),
        decreases data@.len() - len,
    {
        len = len + 1;
    }
    let name: &[u8] = vstd::slice::slice_subrange(data, 0, len);
    assert(name@ =~= name_bytes(data@));
    text_of(name)
}

/// The id and name of a listed process; where its name is not valid text,
/// the error is its id.
pub fn get_process_data(process: &ProcessEntry) -> (r: Result<(u32, &str), u32>)
    ensures
        r is Ok <==> valid_utf8(name_bytes(process.exe_file@)),
        match r {
            Ok((id, name)) => id == process.id && name.spec_bytes() == name_bytes(
                process.exe_file@,
            ),
            Err(id) => id == process.id,
        },
{
    match get_winstring(process.exe_file.as_slice()) {
        Ok(name) => Ok((process.id, name)),
        Err(_) => Err(process.id),
    }
}

/// Why a sampling pass could not produce a result.
#[derive(Clone, Copy, Debug, PartialEq, Eq, Structural)]
pub enum SampleError {
    /// No snapshot of the process list could be taken.
    SnapshotUnavailable,
    /// A snapshot was taken but its first entry could not be read.
    FirstEntryUnavailable,
}

/// What the caller does after reporting a step of the enumeration.
#[derive(Clone, Copy, Debug, PartialEq, Eq, Structural)]
pub enum PassAction {
    /// Read the next entry of the snapshot.
    ReadNext,
    /// Release the snapshot: the pass is over.
    Release,
    /// Nothing: the pass was already over.
    Finish,
}

/// The state of one sampling pass.
#[derive(Clone, Copy, Debug, PartialEq, Eq)]
pub enum SamplingPass {
    /// A snapshot is held and being read. `first` is true until an entry
    /// has been read; `present` tells whether one of the entries read so far
    /// was a target.
    Reading { first: bool, present: bool },
    /// The pass is over, with its result.
    Done(Result<bool, SampleError>),
}

/// The state in which a pass begins, depending on whether the snapshot
/// could be taken.
pub open spec fn pass_start(snapshot_taken: bool) -> SamplingPass {
    if snapshot_taken {
        SamplingPass::Reading { first: true, present: false }
    } else {
        SamplingPass::Done(Err(SampleError::SnapshotUnavailable))
    }
}

/// One step of a pass: `Some(m)` reports an entry read, `m` telling whether it
/// is a target; `None` reports that no further entry could be read.
pub open spec fn pass_step(s: SamplingPass, step: Option<bool>) -> (SamplingPass, PassAction) {
    match s {
        SamplingPass::Reading { first, present } => match step {
            Some(m) => (SamplingPass::Reading { first: false, present: present || m }, PassAction::ReadNext),
            None => (
                SamplingPass::Done(
                    if first {
                        Err(SampleError::FirstEntryUnavailable)
                    } else {
                        Ok(present)
                    },
                ),
                PassAction::Release,
            ),
        },
        SamplingPass::Done(o) => (SamplingPass::Done(o), PassAction::Finish),
    }
}

/// The state after `steps` and the actions asked for on the way.
pub open spec fn run_pass(s: SamplingPass, steps: Seq<Option<bool>>) -> (SamplingPass, Seq<PassAction>)
    decreases steps.len(),
{
    if steps.len() == 0 {
        (s, seq![])
    } else {
        let (s1, a) = pass_step(s, steps[0]);
        let (s2, rest) = run_pass(s1, steps.drop_first());
        (s2, seq![a] + rest)
    }
}

/// How many times `actions` asks for the snapshot to be released.
pub open spec fn releases(actions: Seq<PassAction>) -> nat
    decreases actions.len(),
{
    if actions.len() == 0 {
        0
    } else {
        (if actions[0] == PassAction::Release { 1nat } else { 0nat }) + releases(
            actions.drop_first(),
        )
    }
}

proof fn lemma_releases_prepend(a: PassAction, rest: Seq<PassAction>)
    ensures
        releases(seq![a] + rest) == (if a == PassAction::Release { 1nat } else { 0nat })
            + releases(rest),
{
    assert((seq![a] + rest).drop_first() =~= rest);
}

proof fn lemma_run_from(s: SamplingPass, steps: Seq<Option<bool>>)
    ensures
        ({
            let (t, acts) = run_pass(s, steps);
            &&& s is Done ==> t == s && releases(acts) == 0
            &&& s is Reading ==> releases(acts) == (if steps.contains(None) { 1nat } else { 0nat })
            &&& s is Reading ==> (t is Done <==> steps.contains(None))
        }),
    decreases steps.len(),
{
    if steps.len() > 0 {
        let (s1, a) = pass_step(s, steps[0]);
        let (s2, rest) = run_pass(s1, steps.drop_first());
        lemma_run_from(s1, steps.drop_first());
        lemma_releases_prepend(a, rest);
        if steps[0] is Some {
            assert(steps.contains(None) <==> steps.drop_first().contains(None)) by {
                if steps.contains(None) {
                    let j = choose|j: int| 0 <= j < steps.len() && steps[j] == None::<bool>;
                    assert(steps.drop_first()[j - 1] == None::<bool>);
                }
                if steps.drop_first().contains(None) {
                    let j = choose|j: int|
                        0 <= j < steps.drop_first().len() && steps.drop_first()[j] == None::<bool>;
                    assert(steps[j + 1] == None::<bool>);
                }
            }
        } else {
            assert(steps[0] == None::<bool>);
            assert(steps.contains(None));
        }
    }
}

/// A pass asks for the snapshot to be released at most once: exactly once
/// where a snapshot was taken and its end was reported, whatever entries came
/// before, and never where no snapshot was taken. The pass is over exactly
/// when one of these happened.
pub proof fn lemma_pass_releases_once(snapshot_taken: bool, steps: Seq<Option<bool>>)
    ensures
        ({
            let (t, acts) = run_pass(pass_start(snapshot_taken), steps);
            &&& releases(acts) == (if snapshot_taken && steps.contains(None) {
                1nat
            } else {
                0nat
            })
            &&& (t is Done <==> !snapshot_taken || steps.contains(None))
        }),
{
    lemma_run_from(pass_start(snapshot_taken), steps);
}

proof fn lemma_result_from(first: bool, present: bool, steps: Seq<Option<bool>>, k: int)
    requires
        0 <= k < steps.len(),
        steps[k] is None,
        forall|i: int| 0 <= i < k ==> steps[i] is Some,
    ensures
        run_pass(SamplingPass::Reading { first, present }, steps).0 == SamplingPass::Done(
            if first && k == 0 {
                Err(SampleError::FirstEntryUnavailable)
            } else {
                Ok(present || exists|i: int| 0 <= i < k && steps[i] == Some(true))
            },
        ),
    decreases k,
{
    let s = SamplingPass::Reading { first, present };
    let (s1, a) = pass_step(s, steps[0]);
    lemma_run_from(s1, steps.drop_first());
    if k > 0 {
        let m = steps[0]->0;
        let tail = steps.drop_first();
        assert forall|i: int| 0 <= i < k - 1 implies tail[i] is Some by {
            assert(steps[i + 1] is Some);
        }
        lemma_result_from(false, present || m, tail, k - 1);
        let any_all = exists|i: int| 0 <= i < k && steps[i] == Some(true);
        let any_tail = exists|i: int| 0 <= i < k - 1 && tail[i] == Some(true);
        assert(any_all == (m || any_tail)) by {
            if any_all {
                let i = choose|i: int| 0 <= i < k && steps[i] == Some(true);
                if i > 0 {
                    assert(tail[i - 1] == Some(true));
                }
            }
            if any_tail {
                let i = choose|i: int| 0 <= i < k - 1 && tail[i] == Some(true);
                assert(steps[i + 1] == Some(true));
            }
            if m {
                assert(steps[0] == Some(true));
            }
        }
    } else {
        assert(!exists|i: int| 0 <= i < k && steps[i] == Some(true));
    }
}

/// Once a snapshot is taken, the first report that no entry could be read
/// ends the pass: with an error where no entry was read before it, and
/// otherwise with whether any entry read before it was a target.
pub proof fn lemma_pass_result(steps: Seq<Option<bool>>, k: int)
    requires
        0 <= k < steps.len(),
        steps[k] is None,
        forall|i: int| 0 <= i < k ==> steps[i] is Some,
    ensures
        run_pass(pass_start(true), steps).0 == SamplingPass::Done(
            if k == 0 {
                Err(SampleError::FirstEntryUnavailable)
            } else {
                Ok(exists|i: int| 0 <= i < k && steps[i] == Some(true))
            },
        ),
{
    lemma_result_from(true, false, steps, k);
}

impl SamplingPass {
    /// Begins a pass; `snapshot_taken` tells whether the system produced a
    /// snapshot of the process list.
    pub fn start(snapshot_taken: bool) -> (r: SamplingPass)
        ensures
            r == pass_start(snapshot_taken),
    {
        if snapshot_taken {
            SamplingPass::Reading { first: true, present: false }
        } else {
            SamplingPass::Done(Err(SampleError::SnapshotUnavailable))
        }
    }

    /// Reports an entry read from the snapshot. An entry whose name is not
    /// valid text is skipped: it does not count as a target.
    pub fn entry(&mut self, targets: &TargetSet, process: &ProcessEntry) -> (r: PassAction)
        ensures
            (*final(self), r) == pass_step(
                *old(self),
                Some(entry_matches(targets@, process.exe_file@)),
            ),
    {
        match *self {
            SamplingPass::Reading { first: _, present } => {
                let m = match get_process_data(process) {
                    Ok((_id, name)) => targets.matches(name),
                    Err(_id) => false,
                };
                *self = SamplingPass::Reading { first: false, present: present || m };
                PassAction::ReadNext
            },
            SamplingPass::Done(_) => PassAction::Finish,
        }
    }

    /// Reports that no further entry could be read from the snapshot.
    pub fn end(&mut self) -> (r: PassAction)
        ensures
            (*final(self), r) == pass_step(*old(self), None),
    {
        match *self {
            SamplingPass::Reading { first, present } => {
                *self = SamplingPass::Done(
                    if first {
                        Err(SampleError::FirstEntryUnavailable)
                    } else {
                        Ok(present)
                    },
                );
                PassAction::Release
            },
            SamplingPass::Done(_) => PassAction::Finish,
        }
    }

    /// The result of the pass, once it is over.
    pub fn outcome(&self) -> (r: Option<Result<bool, SampleError>>)
        ensures
            r == (match *self {
                SamplingPass::Done(o) => Some(o),
                SamplingPass::Reading { .. } => None,
            }),
    {
        match *self {
            SamplingPass::Done(o) => Some(o),
            SamplingPass::Reading { .. } => None,
        }
    }
}

} // verus!
