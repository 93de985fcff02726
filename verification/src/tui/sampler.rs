//! The sampler: once a second it reads the host and, where a tool tells, the
//! GPU.
use vstd::prelude::*;

use crate::tui::smi::GpuSample;

verus! {

/// A program that tells about the GPU.
#[derive(Clone, Copy, Debug, PartialEq, Eq, Structural)]
pub enum GpuTool {
    Nvidia,
    Rocm,
}

/// The sleep before the first reading, in milliseconds: load is measured
/// between two looks at the host.
pub const WARM_UP_MILLIS: u64 = 300;

/// One slice of the sleep between two rounds, in milliseconds.
pub const SLICE_MILLIS: u64 = 100;

/// How many slices there are between two rounds.
pub const SLICES: u8 = 10;

/// What the sampler does next.
#[derive(Debug)]
pub enum SamplerCall {
    /// Sleep this many milliseconds.
    Sleep(u64),
    /// Run the tool and read what it prints.
    Run(GpuTool),
    /// Forget the GPU.
    ClearGpu,
    /// Keep this reading of the GPU.
    StoreGpu(GpuSample),
    /// Look whether the program is to stop.
    CheckCancel,
    /// Read the host and keep the reading.
    StoreHost,
    /// Stop sampling.
    Finish,
}

/// How the last call came out.
#[derive(Debug)]
pub enum SamplerEvent {
    Done,
    Cancelled(bool),
    Sampled(Option<GpuSample>),
}

/// What the sampler is at.
#[derive(Clone, Copy, Debug, PartialEq, Eq, Structural)]
pub enum SamplerStage {
    WarmUp,
    /// Find out whether a tool answers.
    Probe(GpuTool),
    /// Look whether to stop before a round.
    CheckRound,
    Host,
    Gpu(GpuTool),
    Store,
    /// No tool answered when they were tried.
    NoTool,
    /// The tool in use does not answer any more.
    Lost,
    /// Look whether to stop with this many slices left to sleep.
    CheckSlice(u8),
    /// Sleep, with this many slices left after it.
    Slice(u8),
    Finished,
}

/// The sampler between two calls. Without a tool the GPU is not read.
#[derive(Clone, Copy, Debug, PartialEq, Eq, Structural)]
pub struct Sampler {
    pub tool: Option<GpuTool>,
    pub stage: SamplerStage,
}

impl Sampler {
    /// Whether the event can be the outcome of the call under way.
    pub open spec fn expects(self, event: SamplerEvent) -> bool {
        match self.stage {
            SamplerStage::Probe(_) | SamplerStage::Gpu(_) => event is Sampled,
            SamplerStage::CheckRound | SamplerStage::CheckSlice(_) => event is Cancelled,
            SamplerStage::Finished => false,
            _ => event is Done,
        }
    }

    /// Where the GPU is known to have no tool, or its tool is the one in use.
    pub open spec fn is_valid(self) -> bool {
        &&& self.stage matches SamplerStage::Gpu(tool) ==> self.tool == Some(tool)
        &&& self.stage matches SamplerStage::CheckSlice(left) ==> 0 < left <= SLICES
        &&& self.stage matches SamplerStage::Slice(left) ==> left < SLICES
    }

    /// Whether the sampler still looks for a tool.
    pub open spec fn is_probing(self) -> bool {
        self.stage == SamplerStage::WarmUp || self.stage is Probe
    }

    /// The sampler after the event.
    ///
    /// The first tool that answers is used, `nvidia-smi` before `rocm-smi`. A
    /// tool that stops answering is not asked again.
    pub open spec fn next(self, event: SamplerEvent) -> Sampler {
        let found = event matches SamplerEvent::Sampled(Some(_));
        let stop = event == SamplerEvent::Cancelled(true);
        match self.stage {
            SamplerStage::WarmUp => Sampler {
                tool: self.tool,
                stage: SamplerStage::Probe(GpuTool::Nvidia),
            },
            SamplerStage::Probe(tool) => if found {
                Sampler { tool: Some(tool), stage: SamplerStage::CheckRound }
            } else if tool == GpuTool::Nvidia {
                Sampler { tool: self.tool, stage: SamplerStage::Probe(GpuTool::Rocm) }
            } else {
                Sampler { tool: None, stage: SamplerStage::NoTool }
            },
            SamplerStage::NoTool => Sampler { tool: self.tool, stage: SamplerStage::CheckRound },
            SamplerStage::CheckRound => Sampler {
                tool: self.tool,
                stage: if stop {
                    SamplerStage::Finished
                } else {
                    SamplerStage::Host
                },
            },
            SamplerStage::Host => Sampler {
                tool: self.tool,
                stage: match self.tool {
                    Some(tool) => SamplerStage::Gpu(tool),
                    None => SamplerStage::CheckSlice(SLICES),
                },
            },
            SamplerStage::Gpu(_) => if found {
                Sampler { tool: self.tool, stage: SamplerStage::Store }
            } else {
                Sampler { tool: None, stage: SamplerStage::Lost }
            },
            SamplerStage::Store => Sampler {
                tool: self.tool,
                stage: SamplerStage::CheckSlice(SLICES),
            },
            SamplerStage::Lost => Sampler {
                tool: self.tool,
                stage: SamplerStage::CheckSlice(SLICES),
            },
            SamplerStage::CheckSlice(left) => Sampler {
                tool: self.tool,
                stage: if stop {
                    SamplerStage::Finished
                } else {
                    SamplerStage::Slice((left - 1) as u8)
                },
            },
            SamplerStage::Slice(left) => Sampler {
                tool: self.tool,
                stage: if left == 0 {
                    SamplerStage::CheckRound
                } else {
                    SamplerStage::CheckSlice(left)
                },
            },
            SamplerStage::Finished => self,
        }
    }

    /// The call for the stage, which `event` led to.
    pub open spec fn is_call(self, event: SamplerEvent, call: SamplerCall) -> bool {
        match self.stage {
            SamplerStage::WarmUp => call == SamplerCall::Sleep(WARM_UP_MILLIS),
            SamplerStage::Probe(tool) => call == SamplerCall::Run(tool),
            SamplerStage::CheckRound | SamplerStage::CheckSlice(_) => call
                == SamplerCall::CheckCancel,
            SamplerStage::Host => call == SamplerCall::StoreHost,
            SamplerStage::Gpu(tool) => call == SamplerCall::Run(tool),
            SamplerStage::Store => event matches SamplerEvent::Sampled(Some(sample)) && call
                == SamplerCall::StoreGpu(sample),
            SamplerStage::NoTool | SamplerStage::Lost => call == SamplerCall::ClearGpu,
            SamplerStage::Slice(_) => call == SamplerCall::Sleep(SLICE_MILLIS),
            SamplerStage::Finished => call == SamplerCall::Finish,
        }
    }

    /// The sampler sleeps first.
    pub fn start() -> (r: (Sampler, SamplerCall))
        ensures
            r.0 == (Sampler { tool: None, stage: SamplerStage::WarmUp }),
            r.1 == SamplerCall::Sleep(WARM_UP_MILLIS),
            r.0.is_valid(),
    {
        (
            Sampler { tool: None, stage: SamplerStage::WarmUp },
            SamplerCall::Sleep(WARM_UP_MILLIS),
        )
    }

    /// Takes the outcome of the call under way and says what comes next.
    pub fn advance(&mut self, event: SamplerEvent) -> (call: SamplerCall)
        requires
            old(self).is_valid(),
            old(self).expects(event),
        ensures
            *final(self) == old(self).next(event),
            final(self).is_call(event, call),
            final(self).is_valid(),
    {
        match event {
            SamplerEvent::Cancelled(stop) => {
                if stop {
                    self.stage = SamplerStage::Finished;
                    return SamplerCall::Finish;
                }
                match self.stage {
                    SamplerStage::CheckSlice(left) => {
                        self.stage = SamplerStage::Slice(left - 1);
                        SamplerCall::Sleep(SLICE_MILLIS)
                    },
                    _ => {
                        self.stage = SamplerStage::Host;
                        SamplerCall::StoreHost
                    },
                }
            },
            SamplerEvent::Sampled(sample) => match self.stage {
                SamplerStage::Probe(tool) => match sample {
                    Some(_) => {
                        self.tool = Some(tool);
                        self.stage = SamplerStage::CheckRound;
                        SamplerCall::CheckCancel
                    },
                    None => match tool {
                        GpuTool::Nvidia => {
                            self.stage = SamplerStage::Probe(GpuTool::Rocm);
                            SamplerCall::Run(GpuTool::Rocm)
                        },
                        GpuTool::Rocm => {
                            self.tool = None;
                            self.stage = SamplerStage::NoTool;
                            SamplerCall::ClearGpu
                        },
                    },
                },
                _ => match sample {
                    Some(reading) => {
                        self.stage = SamplerStage::Store;
                        SamplerCall::StoreGpu(reading)
                    },
                    None => {
                        self.tool = None;
                        self.stage = SamplerStage::Lost;
                        SamplerCall::ClearGpu
                    },
                },
            },
            SamplerEvent::Done => match self.stage {
                SamplerStage::WarmUp => {
                    self.stage = SamplerStage::Probe(GpuTool::Nvidia);
                    SamplerCall::Run(GpuTool::Nvidia)
                },
                SamplerStage::NoTool => {
                    self.stage = SamplerStage::CheckRound;
                    SamplerCall::CheckCancel
                },
                SamplerStage::Host => match self.tool {
                    Some(tool) => {
                        self.stage = SamplerStage::Gpu(tool);
                        SamplerCall::Run(tool)
                    },
                    None => {
                        self.stage = SamplerStage::CheckSlice(SLICES);
                        SamplerCall::CheckCancel
                    },
                },
                SamplerStage::Slice(left) => {
                    if left == 0 {
                        self.stage = SamplerStage::CheckRound;
                    } else {
                        self.stage = SamplerStage::CheckSlice(left);
                    }
                    SamplerCall::CheckCancel
                },
                _ => {
                    self.stage = SamplerStage::CheckSlice(SLICES);
                    SamplerCall::CheckCancel
                },
            },
        }
    }

    /// How many slices of sleep the round has ahead of it.
    pub open spec fn slices_ahead(self) -> int {
        match self.stage {
            SamplerStage::CheckSlice(left) => left as int,
            SamplerStage::Slice(left) => left as int,
            _ => SLICES as int,
        }
    }
}

/// Law: a tool that did not answer is never run again.
pub proof fn law_lost_tool_stays_lost(s: Sampler, event: SamplerEvent)
    requires
        s.is_valid(),
        s.expects(event),
        !s.is_probing(),
        s.tool is None,
    ensures
        s.next(event).tool is None,
        !s.next(event).is_probing(),
        s.next(event).stage !is Gpu,
{
}

/// Law: between two looks at whether to stop there is at most one slice of
/// sleep, and a look that says so ends the sampler.
pub proof fn law_cancel_lands_within_a_slice(s: Sampler, event: SamplerEvent)
    requires
        s.is_valid(),
        s.expects(event),
    ensures
        s.stage is Slice ==> s.next(event).stage is CheckSlice || s.next(event).stage
            == SamplerStage::CheckRound,
        s.next(event).stage is Slice ==> s.stage is CheckSlice,
        event == SamplerEvent::Cancelled(true) ==> s.next(event).stage == SamplerStage::Finished,
{
}

/// Law: a round that is not stopped sleeps all of its slices: each look is
/// followed by one slice, and the next round begins after the last.
pub proof fn law_round_sleeps_every_slice(s: Sampler, event: SamplerEvent)
    requires
        s.is_valid(),
        s.expects(event),
        event != SamplerEvent::Cancelled(true),
    ensures
        s.stage is CheckSlice ==> s.next(event).stage is Slice && s.next(event).slices_ahead()
            == s.slices_ahead() - 1,
        s.stage is Slice && s.slices_ahead() > 0 ==> s.next(event).stage is CheckSlice && s.next(
            event,
        ).slices_ahead() == s.slices_ahead(),
        s.stage is Slice && s.slices_ahead() == 0 ==> s.next(event).stage
            == SamplerStage::CheckRound,
        s.stage !is CheckSlice && s.stage !is Slice && s.next(event).stage is CheckSlice
            ==> s.next(event).slices_ahead() == SLICES,
{
}

/// Law: the sampler tries `nvidia-smi` first and `rocm-smi` after it, and keeps
/// to the first that answers. Where neither does, there is no GPU.
pub proof fn law_first_tool_that_answers_is_used(
    s: Sampler,
    event: SamplerEvent,
    call: SamplerCall,
)
    requires
        s.is_valid(),
        s.expects(event),
        s.next(event).is_call(event, call),
    ensures
        s.stage == SamplerStage::WarmUp ==> call == SamplerCall::Run(GpuTool::Nvidia),
        s.stage matches SamplerStage::Probe(tool) ==> {
            &&& event matches SamplerEvent::Sampled(Some(_)) ==> s.next(event).tool == Some(tool)
                && call == SamplerCall::CheckCancel
            &&& event == SamplerEvent::Sampled(None) && tool == GpuTool::Nvidia ==> call
                == SamplerCall::Run(GpuTool::Rocm)
            &&& event == SamplerEvent::Sampled(None) && tool == GpuTool::Rocm ==> call
                == SamplerCall::ClearGpu && s.next(event).tool is None
        },
        s.stage == SamplerStage::NoTool ==> call == SamplerCall::CheckCancel,
{
}

/// Law: a round that is not stopped reads the host, runs the tool in use where
/// there is one, keeps what it says or forgets the GPU where it says nothing, and
/// then sleeps ten slices of a tenth of a second, with a look before each.
pub proof fn law_round_reads_host_and_gpu(s: Sampler, event: SamplerEvent, call: SamplerCall)
    requires
        s.is_valid(),
        s.expects(event),
        s.next(event).is_call(event, call),
    ensures
        s.stage == SamplerStage::CheckRound ==> {
            &&& event == SamplerEvent::Cancelled(true) ==> call == SamplerCall::Finish
            &&& event == SamplerEvent::Cancelled(false) ==> call == SamplerCall::StoreHost
        },
        s.stage == SamplerStage::Host ==> call == (match s.tool {
            Some(tool) => SamplerCall::Run(tool),
            None => SamplerCall::CheckCancel,
        }),
        s.stage is Gpu ==> {
            &&& event matches SamplerEvent::Sampled(Some(reading)) ==> call
                == SamplerCall::StoreGpu(reading) && s.next(event).tool == s.tool
            &&& event == SamplerEvent::Sampled(None) ==> call == SamplerCall::ClearGpu && s.next(
                event,
            ).tool is None
        },
        s.stage == SamplerStage::Store || s.stage == SamplerStage::Lost || (s.stage
            == SamplerStage::Host && s.tool is None) ==> s.next(event).stage
            == SamplerStage::CheckSlice(10) && call == SamplerCall::CheckCancel,
        s.stage is CheckSlice ==> {
            &&& event == SamplerEvent::Cancelled(true) ==> call == SamplerCall::Finish
            &&& event == SamplerEvent::Cancelled(false) ==> call == SamplerCall::Sleep(100)
        },
        s.stage is Slice ==> call == SamplerCall::CheckCancel,
        s.stage != SamplerStage::Finished && !(s.stage is Probe) && !(s.stage is Gpu) ==> s.next(
            event,
        ).tool == s.tool,
{
}

} // verus!
