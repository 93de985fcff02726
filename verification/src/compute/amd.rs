//! The AMD backend: what is asked of the HIP runtime, in which order, and what
//! its answers mean. The calls themselves are made outside.
use vstd::prelude::*;
use vstd::string::*;

use crate::compute::range::RangeResult;

verus! {

/// How many threads a block of the kernel has.
pub const THREADS_PER_BLOCK: u32 = 256;

/// The code of a HIP call that went well.
pub const HIP_SUCCESS: i32 = 0;

/// Why a backend cannot be made or a call of it failed.
pub enum AmdError {
    /// The kernel is built for another number of threads per block.
    ThreadsPerBlock,
    /// A HIP call failed; the text describes the failure.
    Hip(String),
}

impl AmdError {
    /// The words in which the error is reported.
    pub open spec fn text(self) -> Seq<char> {
        match self {
            AmdError::ThreadsPerBlock =>
                "kernel.hip hardcodes 256 threads/block; set amd_threads_per_block = 256"@,
            AmdError::Hip(described) => "HIP error: "@ + described@,
        }
    }

    pub fn message(&self) -> (r: String)
        ensures
            r@ == self.text(),
    {
        match self {
            AmdError::ThreadsPerBlock =>
                "kernel.hip hardcodes 256 threads/block; set amd_threads_per_block = 256".to_owned(),
            AmdError::Hip(described) => "HIP error: ".to_owned().concat(described.as_str()),
        }
    }
}

/// The outcome of a HIP call with the given code, where `described` is what the
/// runtime says of that code.
pub fn hip_check(err: i32, described: String) -> (r: Result<(), AmdError>)
    ensures
        r is Ok <==> err == HIP_SUCCESS,
        r matches Err(e) ==> e == AmdError::Hip(described),
{
    if err == HIP_SUCCESS {
        return Ok(());
    }
    Err(AmdError::Hip(described))
}

/// A block of device memory.
#[derive(Clone, Copy, Debug, PartialEq, Eq, Structural)]
pub enum DeviceBuffer {
    /// The winner: its score in the high half, its thread in the low half.
    Best,
    /// One board per thread.
    Arrays,
    /// One shuffle index per thread.
    Indices,
}

/// A call that brings the device up.
#[derive(Clone, Copy, Debug, PartialEq, Eq, Structural)]
pub enum SetupCall {
    Init { flags: u32 },
    SetDevice { device: i32 },
    LoadModule,
    /// Look up the kernel by its name.
    GetKernel,
    CreateStream,
    Malloc { buffer: DeviceBuffer, bytes: usize },
}

/// A call that gives back what the device holds.
#[derive(Clone, Copy, Debug, PartialEq, Eq, Structural)]
pub enum ReleaseCall {
    Free(DeviceBuffer),
    DestroyStream,
    UnloadModule,
}

/// A call that one range takes.
pub enum RangeCall {
    /// Set all bytes of the winner to zero.
    ResetBest { bytes: usize },
    /// Start the kernel on a grid of `blocks` times 1 times 1 blocks with
    /// `threads` times 1 times 1 threads each.
    Launch { base_seed: u64, lo: u64, hi: u64, blocks: u32, threads: u32 },
    /// Wait for the kernel.
    Synchronize,
    /// Copy the winner to the host.
    ReadBest { bytes: usize },
    /// Copy the boards into this buffer.
    ReadArrays { arrays: Vec<u8> },
    /// Copy the shuffle indices into this buffer.
    ReadIndices { indices: Vec<u64> },
}

/// How the call that was asked for last came out.
pub enum HipEvent {
    Failed(AmdError),
    Done,
    Best(u64),
    Arrays(Vec<u8>),
    Indices(Vec<u64>),
}

/// What comes next in a range.
pub enum RangeStep {
    Call(RangeCall),
    Done(RangeResult),
    /// The range cannot be finished, for the reason given.
    Fail(String),
}

/// The call of a range that is under way.
#[derive(Clone, Copy, Debug, PartialEq, Eq, Structural)]
pub enum Stage {
    Reset,
    Launch,
    Synchronize,
    ReadBest,
    ReadArrays,
    ReadIndices,
    Finished,
}

impl Stage {
    /// What the stage is doing, as it is named in a failure.
    pub open spec fn doing(self) -> Seq<char> {
        match self {
            Stage::Reset => "hipMemset dev_best"@,
            Stage::Launch => "hipModuleLaunchKernel"@,
            Stage::Synchronize => "hipStreamSynchronize"@,
            Stage::ReadBest => "D2H dev_best"@,
            Stage::ReadArrays => "D2H arrays"@,
            Stage::ReadIndices => "D2H indices"@,
            Stage::Finished => ""@,
        }
    }

    /// How many calls a range may still take, the one under way included.
    pub open spec fn calls_left(self) -> nat {
        match self {
            Stage::Reset => 6,
            Stage::Launch => 5,
            Stage::Synchronize => 4,
            Stage::ReadBest => 3,
            Stage::ReadArrays => 2,
            Stage::ReadIndices => 1,
            Stage::Finished => 0,
        }
    }

    fn name(self) -> (r: String)
        ensures
            r@ == self.doing(),
    {
        match self {
            Stage::Reset => "hipMemset dev_best".to_owned(),
            Stage::Launch => "hipModuleLaunchKernel".to_owned(),
            Stage::Synchronize => "hipStreamSynchronize".to_owned(),
            Stage::ReadBest => "D2H dev_best".to_owned(),
            Stage::ReadArrays => "D2H arrays".to_owned(),
            Stage::ReadIndices => "D2H indices".to_owned(),
            Stage::Finished => "".to_owned(),
        }
    }
}

/// A range that the device works on.
pub struct RangeRun {
    pub base_seed: u64,
    pub lo: u64,
    pub hi: u64,
    pub stage: Stage,
    /// The winner, once it was read.
    pub best: u64,
}

/// The score that the winner word holds.
pub open spec fn winner_score(best: u64) -> i32 {
    (best >> 32u64) as i32
}

/// The thread that the winner word names.
pub open spec fn winner_thread(best: u64) -> int {
    (best & 0xffff_ffff) as int
}

/// Law: a winner word gives back the score and the thread that were put into
/// its halves.
pub proof fn law_winner_word(score: u32, thread: u32)
    requires
        score <= i32::MAX,
    ensures
        winner_score(((score as u64) << 32u64) | thread as u64) == score,
        winner_thread(((score as u64) << 32u64) | thread as u64) == thread,
{
    let best: u64 = ((score as u64) << 32u64) | thread as u64;
    assert((best >> 32u64) as i32 == score && best & 0xffff_ffff == thread) by (bit_vector)
        requires
            best == ((score as u64) << 32u64) | thread as u64,
            score <= 0x7fff_ffff,
    ;
}

/// The report of a range in which the kernel found nothing.
pub open spec fn is_nothing_found(r: RangeResult, lo: u64, hi: u64) -> bool {
    &&& r.lo == lo
    &&& r.hi == hi
    &&& r.best_correct == -1
    &&& r.best_arr@ == Seq::new(25, |i: int| 0u8)
    &&& r.best_index == lo
}

/// The report of a range whose winner word is `best`, with the boards and the
/// shuffle indices of all threads at hand.
pub open spec fn is_winner(
    r: RangeResult,
    lo: u64,
    hi: u64,
    best: u64,
    arrays: Seq<u8>,
    indices: Seq<u64>,
) -> bool {
    &&& r.lo == lo
    &&& r.hi == hi
    &&& r.best_correct == winner_score(best)
    &&& r.best_arr@ == arrays.subrange(
        winner_thread(best) * 25,
        winner_thread(best) * 25 + 25,
    )
    &&& r.best_index == indices[winner_thread(best)]
}

/// The host side of the device: the size of the grid, and the buffers that the
/// boards and shuffle indices of all threads are copied to.
pub struct AmdBackend {
    blocks: u32,
    host_arrays: Vec<u8>,
    host_indices: Vec<u64>,
}

impl AmdBackend {
    /// The number of blocks in the grid.
    pub closed spec fn grid(self) -> u32 {
        self.blocks
    }

    /// The number of threads in the grid.
    pub open spec fn threads(self) -> int {
        self.grid() as int * 256
    }

    /// The boards that were copied last.
    pub closed spec fn arrays(self) -> Seq<u8> {
        self.host_arrays@
    }

    /// The shuffle indices that were copied last.
    pub closed spec fn indices(self) -> Seq<u64> {
        self.host_indices@
    }

    /// The buffers have room for every thread of the grid.
    pub open spec fn is_ready(self) -> bool {
        &&& self.threads() * 25 <= usize::MAX
        &&& self.arrays().len() == self.threads() * 25
        &&& self.indices().len() == self.threads()
    }

    /// The backend may take `event` as the outcome of the call of `run` that is
    /// under way. A buffer that was lent comes back with its length.
    pub open spec fn expects(self, run: RangeRun, event: HipEvent) -> bool {
        &&& self.threads() * 25 <= usize::MAX
        &&& match run.stage {
            Stage::Reset | Stage::Launch | Stage::Synchronize => {
                (event is Failed || event is Done) && self.is_ready()
            },
            Stage::ReadBest => (event is Failed || event is Best) && self.is_ready(),
            Stage::ReadArrays => {
                &&& event is Failed || (event matches HipEvent::Arrays(a) && a@.len()
                    == self.threads() * 25)
                &&& self.indices().len() == self.threads()
                &&& winner_thread(run.best) < self.threads()
            },
            Stage::ReadIndices => {
                &&& event is Failed || (event matches HipEvent::Indices(x) && x@.len()
                    == self.threads())
                &&& self.arrays().len() == self.threads() * 25
                &&& winner_thread(run.best) < self.threads()
            },
            Stage::Finished => false,
        }
    }

    /// A backend for a grid of `blocks` blocks. Only kernels with 256 threads
    /// per block exist.
    pub fn new(blocks: u32, threads_per_block: u32) -> (r: Result<Self, AmdError>)
        requires
            threads_per_block == THREADS_PER_BLOCK ==> blocks * 256 * 25 <= usize::MAX,
        ensures
            r is Ok <==> threads_per_block == THREADS_PER_BLOCK,
            r matches Err(e) ==> e == AmdError::ThreadsPerBlock,
            r matches Ok(b) ==> {
                &&& b.is_ready()
                &&& b.grid() == blocks
                &&& b.arrays() == Seq::new((blocks * 256 * 25) as nat, |i: int| 0u8)
                &&& b.indices() == Seq::new((blocks * 256) as nat, |i: int| 0u64)
            },
    {
        if threads_per_block != THREADS_PER_BLOCK {
            return Err(AmdError::ThreadsPerBlock);
        }
        let n: usize = blocks as usize * 256;
        let host_arrays: Vec<u8> = vec![0u8; n * 25];
        let host_indices: Vec<u64> = vec![0u64; n];
        proof {
            assert(host_arrays@ =~= Seq::new((blocks * 256 * 25) as nat, |i: int| 0u8));
            assert(host_indices@ =~= Seq::new((blocks * 256) as nat, |i: int| 0u64));
        }
        Ok(AmdBackend { blocks, host_arrays, host_indices })
    }

    /// The calls that bring the device up, in order.
    pub open spec fn setup_sequence(self) -> Seq<SetupCall> {
        seq![
            SetupCall::Init { flags: 0 },
            SetupCall::SetDevice { device: 0 },
            SetupCall::LoadModule,
            SetupCall::GetKernel,
            SetupCall::CreateStream,
            SetupCall::Malloc { buffer: DeviceBuffer::Best, bytes: 8 },
            SetupCall::Malloc {
                buffer: DeviceBuffer::Arrays,
                bytes: (self.threads() * 25) as usize,
            },
            SetupCall::Malloc {
                buffer: DeviceBuffer::Indices,
                bytes: (self.threads() * 8) as usize,
            },
        ]
    }

    pub fn setup_calls(&self) -> (r: Vec<SetupCall>)
        requires
            self.is_ready(),
        ensures
            r@ == self.setup_sequence(),
    {
        let n: usize = self.blocks as usize * 256;
        let mut calls: Vec<SetupCall> = Vec::new();
        calls.push(SetupCall::Init { flags: 0 });
        calls.push(SetupCall::SetDevice { device: 0 });
        calls.push(SetupCall::LoadModule);
        calls.push(SetupCall::GetKernel);
        calls.push(SetupCall::CreateStream);
        calls.push(SetupCall::Malloc { buffer: DeviceBuffer::Best, bytes: 8 });
        calls.push(SetupCall::Malloc { buffer: DeviceBuffer::Arrays, bytes: n * 25 });
        calls.push(SetupCall::Malloc { buffer: DeviceBuffer::Indices, bytes: n * 8 });
        calls
    }

    /// What comes after `done` calls, the last of which gave `code`: a failure
    /// ends the attempt, else the next call follows, and none after the last.
    pub open spec fn after_call(self, done: int, code: i32, described: String) -> Result<
        Option<SetupCall>,
        AmdError,
    > {
        if code != HIP_SUCCESS {
            Err(AmdError::Hip(described))
        } else if done < self.setup_sequence().len() {
            Ok(Some(self.setup_sequence()[done]))
        } else {
            Ok(None)
        }
    }

    /// The next call of bringing the device up, after `done` calls of which the
    /// last gave `code`, described by the runtime as `described`. Before the
    /// first call the code is that of success.
    pub fn set_up(&self, done: usize, code: i32, described: String) -> (r: Result<
        Option<SetupCall>,
        AmdError,
    >)
        requires
            self.is_ready(),
        ensures
            r == self.after_call(done as int, code, described),
    {
        match hip_check(code, described) {
            Err(e) => Err(e),
            Ok(()) => {
                let calls: Vec<SetupCall> = self.setup_calls();
                if done < calls.len() {
                    Ok(Some(calls[done]))
                } else {
                    Ok(None)
                }
            },
        }
    }

    /// How bringing the device up ends after `done` calls that went well, where
    /// call `i` gives the code `codes[i]`: how many calls are made in all, and
    /// whether the device is up.
    pub open spec fn set_up_end(
        self,
        codes: Seq<i32>,
        described: Seq<String>,
        done: int,
    ) -> (int, Result<(), AmdError>)
        decreases self.setup_sequence().len() - done,
    {
        if done < 0 || done >= self.setup_sequence().len() {
            (done, Ok(()))
        } else {
            match self.after_call(done + 1, codes[done], described[done]) {
                Err(e) => (done + 1, Err(e)),
                Ok(None) => (done + 1, Ok(())),
                Ok(Some(_)) => self.set_up_end(codes, described, done + 1),
            }
        }
    }

    /// The calls that give the device back, in order, whatever each returns.
    pub fn release_calls() -> (r: Vec<ReleaseCall>)
        ensures
            r@ == seq![
                ReleaseCall::Free(DeviceBuffer::Best),
                ReleaseCall::Free(DeviceBuffer::Arrays),
                ReleaseCall::Free(DeviceBuffer::Indices),
                ReleaseCall::DestroyStream,
                ReleaseCall::UnloadModule,
            ],
    {
        let mut calls: Vec<ReleaseCall> = Vec::new();
        calls.push(ReleaseCall::Free(DeviceBuffer::Best));
        calls.push(ReleaseCall::Free(DeviceBuffer::Arrays));
        calls.push(ReleaseCall::Free(DeviceBuffer::Indices));
        calls.push(ReleaseCall::DestroyStream);
        calls.push(ReleaseCall::UnloadModule);
        calls
    }

    /// Begins a range: the winner is reset first.
    pub fn compute_range(&self, base_seed: u64, lo: u64, hi: u64) -> (r: (RangeRun, RangeStep))
        ensures
            r.0 == (RangeRun { base_seed, lo, hi, stage: Stage::Reset, best: 0 }),
            r.1 == RangeStep::Call(RangeCall::ResetBest { bytes: 8 }),
    {
        let run = RangeRun { base_seed, lo, hi, stage: Stage::Reset, best: 0 };
        (run, RangeStep::Call(RangeCall::ResetBest { bytes: 8 }))
    }

    /// Takes the outcome of the call that is under way and says what comes next.
    ///
    /// After the reset the kernel is launched, then waited for, then the winner
    /// is read. Where it is zero the kernel found nothing; else the boards and
    /// the shuffle indices are read, and those of the winner are reported.
    pub fn advance(&mut self, run: &mut RangeRun, event: HipEvent) -> (step: RangeStep)
        requires
            old(self).expects(*old(run), event),
        ensures
            final(self).grid() == old(self).grid(),
            final(run).base_seed == old(run).base_seed,
            final(run).lo == old(run).lo,
            final(run).hi == old(run).hi,
            event matches HipEvent::Failed(e) ==> {
                &&& final(run).stage == Stage::Finished
                &&& step matches RangeStep::Fail(why) && why@ == old(run).stage.doing() + ": "@
                    + e.text()
                &&& *final(self) == *old(self)
            },
            !(event is Best) ==> final(run).best == old(run).best,
            event is Done ==> *final(self) == *old(self),
            // A range comes to an end: each call leaves fewer to be made.
            final(run).stage.calls_left() < old(run).stage.calls_left(),
            step is Call <==> final(run).stage != Stage::Finished,
            !(event is Failed) && old(run).stage == Stage::Reset ==> {
                &&& final(run).stage == Stage::Launch
                &&& step == RangeStep::Call(
                    RangeCall::Launch {
                        base_seed: old(run).base_seed,
                        lo: old(run).lo,
                        hi: old(run).hi,
                        blocks: old(self).grid(),
                        threads: THREADS_PER_BLOCK,
                    },
                )
            },
            !(event is Failed) && old(run).stage == Stage::Launch ==> {
                &&& final(run).stage == Stage::Synchronize
                &&& step == RangeStep::Call(RangeCall::Synchronize)
            },
            !(event is Failed) && old(run).stage == Stage::Synchronize ==> {
                &&& final(run).stage == Stage::ReadBest
                &&& step == RangeStep::Call(RangeCall::ReadBest { bytes: 8 })
            },
            event matches HipEvent::Best(best) ==> {
                &&& final(run).best == best
                &&& best == 0 ==> {
                    &&& final(run).stage == Stage::Finished
                    &&& step matches RangeStep::Done(r) && is_nothing_found(
                        r,
                        old(run).lo,
                        old(run).hi,
                    )
                    &&& *final(self) == *old(self)
                }
                &&& best != 0 && winner_thread(best) < old(self).threads() ==> {
                    &&& final(run).stage == Stage::ReadArrays
                    &&& step matches RangeStep::Call(RangeCall::ReadArrays { arrays }) && arrays@
                        == old(self).arrays()
                    &&& final(self).indices() == old(self).indices()
                    &&& final(self).arrays() == Seq::<u8>::empty()
                }
                &&& best != 0 && winner_thread(best) >= old(self).threads() ==> {
                    &&& final(run).stage == Stage::Finished
                    &&& step matches RangeStep::Fail(why) && why@
                        == "the winner is no thread of the grid"@
                    &&& *final(self) == *old(self)
                }
            },
            event matches HipEvent::Arrays(a) ==> {
                &&& final(run).stage == Stage::ReadIndices
                &&& final(run).best == old(run).best
                &&& step matches RangeStep::Call(RangeCall::ReadIndices { indices }) && indices@
                    == old(self).indices()
                &&& final(self).arrays() == a@
                &&& final(self).indices() == Seq::<u64>::empty()
            },
            event matches HipEvent::Indices(x) ==> {
                &&& final(run).stage == Stage::Finished
                &&& step matches RangeStep::Done(r) && is_winner(
                    r,
                    old(run).lo,
                    old(run).hi,
                    old(run).best,
                    old(self).arrays(),
                    x@,
                )
                &&& final(self).arrays() == old(self).arrays()
                &&& final(self).indices() == x@
            },
            // The report is that of the thread in the low half of the winner word.
            event matches HipEvent::Indices(x) ==> forall|score: u32, thread: u32|
                old(run).best == #[trigger] (((score as u64) << 32u64) | thread as u64) && score
                    <= i32::MAX ==> (step matches RangeStep::Done(r) && r.best_correct == score
                    && r.best_index == x@[thread as int] && forall|k: int|
                    0 <= k < 25 ==> #[trigger] r.best_arr@[k] == old(self).arrays()[25 * thread
                        + k]),
    {
        match event {
            HipEvent::Failed(e) => {
                let why = run.stage.name().concat(": ").concat(e.message().as_str());
                run.stage = Stage::Finished;
                RangeStep::Fail(why)
            },
            HipEvent::Done => {
                match run.stage {
                    Stage::Reset => {
                        run.stage = Stage::Launch;
                        RangeStep::Call(
                            RangeCall::Launch {
                                base_seed: run.base_seed,
                                lo: run.lo,
                                hi: run.hi,
                                blocks: self.blocks,
                                threads: THREADS_PER_BLOCK,
                            },
                        )
                    },
                    Stage::Launch => {
                        run.stage = Stage::Synchronize;
                        RangeStep::Call(RangeCall::Synchronize)
                    },
                    _ => {
                        run.stage = Stage::ReadBest;
                        RangeStep::Call(RangeCall::ReadBest { bytes: 8 })
                    },
                }
            },
            HipEvent::Best(best) => {
                run.best = best;
                if best == 0 {
                    run.stage = Stage::Finished;
                    let best_arr: [u8; 25] = [0; 25];
                    proof {
                        assert(best_arr@ =~= Seq::new(25, |i: int| 0u8));
                    }
                    return RangeStep::Done(
                        RangeResult {
                            lo: run.lo,
                            hi: run.hi,
                            best_correct: -1,
                            best_arr,
                            best_index: run.lo,
                        },
                    );
                }
                if best & 0xffff_ffff >= self.blocks as u64 * 256 {
                    run.stage = Stage::Finished;
                    return RangeStep::Fail("the winner is no thread of the grid".to_owned());
                }
                run.stage = Stage::ReadArrays;
                let mut arrays: Vec<u8> = Vec::new();
                std::mem::swap(&mut arrays, &mut self.host_arrays);
                RangeStep::Call(RangeCall::ReadArrays { arrays })
            },
            HipEvent::Arrays(a) => {
                self.host_arrays = a;
                run.stage = Stage::ReadIndices;
                let mut indices: Vec<u64> = Vec::new();
                std::mem::swap(&mut indices, &mut self.host_indices);
                RangeStep::Call(RangeCall::ReadIndices { indices })
            },
            HipEvent::Indices(x) => {
                self.host_indices = x;
                run.stage = Stage::Finished;
                let bid: usize = (run.best & 0xffff_ffff) as usize;
                let first: usize = bid * 25;
                let mut best_arr: [u8; 25] = [0; 25];
                let mut k: usize = 0;
                while k < 25
                    invariant
                        k <= 25,
                        first + 25 <= self.host_arrays.len(),
                        forall|m: int| 0 <= m < k ==> best_arr[m] == self.host_arrays@[first + m],
                    decreases 25 - k,
                {
                    best_arr[k] = self.host_arrays[first + k];
                    k = k + 1;
                }
                proof {
                    assert(best_arr@ =~= self.host_arrays@.subrange(bid * 25, bid * 25 + 25));
                    assert forall|score: u32, thread: u32|
                        run.best == #[trigger] (((score as u64) << 32u64) | thread as u64) && score
                            <= i32::MAX implies (run.best >> 32) as i32 == score && bid
                        == thread by {
                        law_winner_word(score, thread);
                    }
                }
                RangeStep::Done(
                    RangeResult {
                        lo: run.lo,
                        hi: run.hi,
                        best_correct: (run.best >> 32) as i32,
                        best_arr,
                        best_index: self.host_indices[bid],
                    },
                )
            },
        }
    }
}

/// The name of the kernel that works on a range.
pub fn kernel_name() -> (r: &'static str)
    ensures
        r@ == "bogo_range_kernel"@,
{
    "bogo_range_kernel"
}

/// The call at which bringing the device up fails, or how many calls there are.
pub open spec fn first_failure(codes: Seq<i32>, from: int) -> int
    decreases codes.len() - from,
{
    if from < 0 || from >= codes.len() || codes[from] != HIP_SUCCESS {
        from
    } else {
        first_failure(codes, from + 1)
    }
}

proof fn lemma_first_failure(codes: Seq<i32>, from: int)
    requires
        0 <= from <= codes.len(),
    ensures
        from <= first_failure(codes, from) <= codes.len(),
        forall|i: int| from <= i < first_failure(codes, from) ==> codes[i] == HIP_SUCCESS,
        first_failure(codes, from) < codes.len() ==> codes[first_failure(codes, from)]
            != HIP_SUCCESS,
    decreases codes.len() - from,
{
    if from < codes.len() && codes[from] == HIP_SUCCESS {
        lemma_first_failure(codes, from + 1);
    }
}

proof fn lemma_set_up_end(b: AmdBackend, codes: Seq<i32>, described: Seq<String>, done: int)
    requires
        0 <= done < 8,
        codes.len() == 8,
    ensures
        b.set_up_end(codes, described, done) == ({
            let f = first_failure(codes, done);
            if f < 8 {
                (f + 1, Err::<(), AmdError>(AmdError::Hip(described[f])))
            } else {
                (8, Ok::<(), AmdError>(()))
            }
        }),
    decreases 8 - done,
{
    if codes[done] == HIP_SUCCESS {
        if done < 7 {
            lemma_set_up_end(b, codes, described, done + 1);
        } else {
            assert(first_failure(codes, 8) == 8);
        }
    }
}

/// Law: the device is up exactly when every call gave the code of success.
/// Else the first failure is the error, and no later call is made.
pub proof fn law_set_up_stops_at_the_first_failure(
    b: AmdBackend,
    codes: Seq<i32>,
    described: Seq<String>,
)
    requires
        b.is_ready(),
        codes.len() == b.setup_sequence().len(),
        described.len() == codes.len(),
    ensures
        ({
            let (made, outcome) = b.set_up_end(codes, described, 0);
            let f = first_failure(codes, 0);
            &&& outcome is Ok <==> forall|i: int|
                0 <= i < codes.len() ==> #[trigger] codes[i] == HIP_SUCCESS
            &&& outcome is Ok ==> made == codes.len()
            &&& outcome matches Err(e) ==> {
                &&& 0 <= f < codes.len()
                &&& codes[f] != HIP_SUCCESS
                &&& forall|i: int| 0 <= i < f ==> codes[i] == HIP_SUCCESS
                &&& e == AmdError::Hip(described[f])
                &&& made == f + 1
            }
        }),
{
    lemma_first_failure(codes, 0);
    lemma_set_up_end(b, codes, described, 0);
}

/// Law: the report of a range has the score of the winning thread, and the board
/// and the shuffle index that this very thread left, whatever thread of the grid
/// it is.
pub proof fn law_report_is_of_the_winning_thread(
    r: RangeResult,
    lo: u64,
    hi: u64,
    score: u32,
    thread: u32,
    arrays: Seq<u8>,
    indices: Seq<u64>,
)
    requires
        score <= i32::MAX,
        thread < indices.len(),
        arrays.len() == 25 * indices.len(),
        is_winner(r, lo, hi, ((score as u64) << 32u64) | thread as u64, arrays, indices),
    ensures
        r.lo == lo,
        r.hi == hi,
        r.best_correct == score,
        r.best_index == indices[thread as int],
        forall|k: int| 0 <= k < 25 ==> #[trigger] r.best_arr@[k] == arrays[25 * thread + k],
{
    law_winner_word(score, thread);
}

/// Law: where the kernel found nothing, the report has a score of -1, a board of
/// zeros, and the first index of the range.
pub proof fn law_nothing_found_is_reported(r: RangeResult, lo: u64, hi: u64)
    requires
        is_nothing_found(r, lo, hi),
    ensures
        r.lo == lo,
        r.hi == hi,
        r.best_correct == -1,
        r.best_index == lo,
        forall|k: int| 0 <= k < 25 ==> #[trigger] r.best_arr@[k] == 0,
{
}

/// Law: the device has room for one board and one index of each thread, 256
/// threads to a block, and for one winner word.
pub proof fn law_buffers_hold_every_thread(b: AmdBackend, calls: Vec<SetupCall>, k: int)
    requires
        b.is_ready(),
        b.grid() * 256 * 25 <= usize::MAX,
        call_ensures(AmdBackend::setup_calls, (&b,), calls),
        0 <= k < calls.len(),
    ensures
        calls.len() == 8,
        calls@[k] matches SetupCall::Malloc { buffer, bytes } ==> bytes == (match buffer {
            DeviceBuffer::Best => 8int,
            DeviceBuffer::Arrays => b.grid() * 256 * 25,
            DeviceBuffer::Indices => b.grid() * 256 * 8,
        }),
        b.arrays().len() == b.grid() * 256 * 25,
        b.indices().len() == b.grid() * 256,
{
}

/// Law: the device is brought up in order: the runtime, the device, the module,
/// its kernel and a stream, and then memory for the winner, the boards and the
/// indices.
pub proof fn law_device_comes_up_in_order(b: AmdBackend, calls: Vec<SetupCall>)
    requires
        b.is_ready(),
        call_ensures(AmdBackend::setup_calls, (&b,), calls),
    ensures
        calls@.len() == 8,
        calls@[0] == (SetupCall::Init { flags: 0 }),
        calls@[1] == (SetupCall::SetDevice { device: 0 }),
        calls@[2] == SetupCall::LoadModule,
        calls@[3] == SetupCall::GetKernel,
        calls@[4] == SetupCall::CreateStream,
        calls@[5] matches SetupCall::Malloc { buffer, bytes } && buffer == DeviceBuffer::Best,
        calls@[6] matches SetupCall::Malloc { buffer, bytes } && buffer == DeviceBuffer::Arrays,
        calls@[7] matches SetupCall::Malloc { buffer, bytes } && buffer == DeviceBuffer::Indices,
{
}

/// Law: a failure names the call that failed.
pub proof fn law_failures_name_their_call(stage: Stage)
    ensures
        stage == Stage::Reset ==> stage.doing() == "hipMemset dev_best"@,
        stage == Stage::Launch ==> stage.doing() == "hipModuleLaunchKernel"@,
        stage == Stage::Synchronize ==> stage.doing() == "hipStreamSynchronize"@,
        stage == Stage::ReadBest ==> stage.doing() == "D2H dev_best"@,
        stage == Stage::ReadArrays ==> stage.doing() == "D2H arrays"@,
        stage == Stage::ReadIndices ==> stage.doing() == "D2H indices"@,
{
}

/// Law: an error of the runtime is told in the runtime's own words.
pub proof fn law_errors_keep_their_words(e: AmdError, r: String)
    requires
        call_ensures(AmdError::message, (&e,), r),
    ensures
        e matches AmdError::Hip(described) ==> r@ == "HIP error: "@ + described@,
        e == AmdError::ThreadsPerBlock ==> r@
            == "kernel.hip hardcodes 256 threads/block; set amd_threads_per_block = 256"@,
{
}

/// Law: bringing the device up asks for one call after another, in order, as long
/// as each goes well, and for none after the last. A code other than zero is an
/// error, in the runtime's words.
pub proof fn law_set_up_asks_in_order(
    b: AmdBackend,
    calls: Vec<SetupCall>,
    done: usize,
    code: i32,
    described: String,
    r: Result<Option<SetupCall>, AmdError>,
)
    requires
        b.is_ready(),
        call_ensures(AmdBackend::setup_calls, (&b,), calls),
        call_ensures(AmdBackend::set_up, (&b, done, code, described), r),
    ensures
        r is Err <==> code != 0,
        r matches Err(e) ==> e == AmdError::Hip(described),
        code == 0 && done < 8 ==> r == Ok::<Option<SetupCall>, AmdError>(Some(calls@[done as int])),
        code == 0 && done >= 8 ==> r == Ok::<Option<SetupCall>, AmdError>(None),
{
}

} // verus!
