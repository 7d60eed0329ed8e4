//! The order of the steps that take the machine from the firmware to the
//! kernel.
//!
//! The caller reads the file, acquires memory and talks to the firmware; this
//! module decides what it is to do next. After every step the caller reports
//! what happened as an `Event` and is told the next `Action`. The stages are
//! passed through in one direction only. A failure stops the boot for good,
//! and once the firmware has ended its boot services nothing is asked of
//! anyone again.

use vstd::prelude::*;
use crate::error::BootError;
use crate::header::{FileHeader, ELF64_HEADER_SIZE};
use crate::layout::ImageLayout;

verus! {

/// How far the boot has come.
#[derive(Clone, Copy, Debug, PartialEq, Eq, Structural)]
pub enum BootStage {
    /// The firmware runs the machine and the image is not loaded yet.
    FirmwareOwned,
    /// The image stands in memory; the firmware's services are still there.
    ImageLoaded,
    /// The firmware has ended its boot services. There is no way back, and no
    /// diagnostic output any more.
    ServicesExited,
    /// Control has passed to the kernel.
    KernelRunning,
}

impl BootStage {
    /// Position of the stage in the order in which the stages are passed.
    pub open spec fn rank(self) -> nat {
        match self {
            BootStage::FirmwareOwned => 0,
            BootStage::ImageLoaded => 1,
            BootStage::ServicesExited => 2,
            BootStage::KernelRunning => 3,
        }
    }

    /// The firmware's services are still there at this stage.
    pub open spec fn spec_has_boot_services(self) -> bool {
        self.rank() < 2
    }

    /// Whether the firmware's services are still there at this stage.
    #[verifier::when_used_as_spec(spec_has_boot_services)]
    pub fn has_boot_services(self) -> (there: bool)
        ensures
            there == self.spec_has_boot_services(),
    {
        match self {
            BootStage::FirmwareOwned => true,
            BootStage::ImageLoaded => true,
            BootStage::ServicesExited => false,
            BootStage::KernelRunning => false,
        }
    }
}

/// What the boot waits for.
#[derive(Clone, Copy, Debug, PartialEq, Eq, Structural)]
pub enum Awaiting {
    /// The word to begin.
    Start,
    /// The file header.
    Header,
    /// The layout that was planned from the segment table.
    Layout,
    /// The memory for the image.
    Memory,
    /// The loaded image.
    Image,
    /// The size of the firmware's memory map.
    MemoryMapSize,
    /// The firmware's answer to the request to end its boot services.
    ExitAnswer,
    /// The jump into the kernel.
    Entry,
    /// Nothing: the kernel runs.
    Nothing,
}

impl Awaiting {
    /// The stage at which the boot waits for this.
    pub open spec fn spec_stage(self) -> BootStage {
        match self {
            Awaiting::MemoryMapSize | Awaiting::ExitAnswer => BootStage::ImageLoaded,
            Awaiting::Entry => BootStage::ServicesExited,
            Awaiting::Nothing => BootStage::KernelRunning,
            _ => BootStage::FirmwareOwned,
        }
    }

    /// The stage at which the boot waits for this.
    #[verifier::when_used_as_spec(spec_stage)]
    pub fn stage(self) -> (stage: BootStage)
        ensures
            stage == self.spec_stage(),
    {
        match self {
            Awaiting::MemoryMapSize | Awaiting::ExitAnswer => BootStage::ImageLoaded,
            Awaiting::Entry => BootStage::ServicesExited,
            Awaiting::Nothing => BootStage::KernelRunning,
            _ => BootStage::FirmwareOwned,
        }
    }
}

/// What the caller reports.
#[derive(Clone, Copy, Debug, PartialEq, Eq, Structural)]
pub enum Event {
    /// The boot begins.
    Started,
    /// The file header was read and parsed.
    HeaderParsed { header: FileHeader },
    /// The segment table was read and parsed, and the layout planned.
    Planned { layout: ImageLayout },
    /// Reading, parsing, planning or loading failed. As long as the
    /// firmware's services are there this stops the boot, also where it is
    /// reported late, after the image was taken as loaded.
    LoadFailed { error: BootError },
    /// The memory for the image was acquired.
    MemoryAcquired,
    /// The memory for the image could not be acquired.
    MemoryRefused,
    /// The segments are loaded; the image is to be entered at this address.
    ImageReady { entry_address: u64 },
    /// The firmware gave the size that a buffer for its memory map needs now.
    MemoryMapSize { size: usize },
    /// The firmware ended its boot services.
    ExitAccepted,
    /// The firmware refused to end its boot services.
    ExitRejected,
    /// Control has passed to the kernel.
    KernelEntered,
}

/// What the caller is to do next.
#[derive(Clone, Copy, Debug, PartialEq, Eq, Structural)]
pub enum Action {
    /// Nothing: the event has no place here.
    Nothing,
    /// Read `len` bytes at the start of the image file and parse them as the
    /// file header.
    ReadHeader { len: usize },
    /// Read `len` bytes at `offset` of the image file, parse them as the
    /// segment table and plan the layout.
    ReadSegmentTable { offset: u64, len: usize },
    /// Acquire `size` bytes of zeros at an address that is a multiple of
    /// `alignment`.
    AcquireMemory { size: u64, alignment: u64 },
    /// Load the segments into the acquired memory.
    LoadSegments,
    /// Ask the firmware for the size of its memory map.
    QueryMemoryMapSize,
    /// Acquire a buffer of at least `buffer_size` bytes and ask the firmware
    /// to end its boot services, with that buffer for the memory map.
    ExitBootServices { buffer_size: usize },
    /// Call the entry address. The call does not return.
    EnterKernel { entry_address: u64 },
    /// Stop the machine. Where `diagnosable` holds the firmware can still show
    /// the error, and the caller reports it first.
    Halt { error: BootError, diagnosable: bool },
}

impl Action {
    /// The action asks something of the firmware, or enters the kernel.
    pub open spec fn is_operation(self) -> bool {
        !(self is Nothing) && !(self is Halt)
    }
}

/// What a fatal error at `stage` comes to: a halt, which can be reported as
/// long as the firmware's services are there.
pub open spec fn fatal(stage: BootStage, error: BootError) -> Action {
    Action::Halt { error, diagnosable: stage.has_boot_services() }
}

/// Decides how the machine stops on a fatal error at `stage`.
pub fn panic(stage: BootStage, error: BootError) -> (halt: Action)
    ensures
        halt == fatal(stage, error),
{
    Action::Halt { error, diagnosable: stage.has_boot_services() }
}

/// The state of a boot.
#[derive(Clone, Copy, Debug, PartialEq, Eq, Structural)]
pub struct Handoff {
    pub awaiting: Awaiting,
    /// Address at which the kernel is entered, once the image is loaded.
    pub entry_address: u64,
    /// How many more times the firmware may be asked to end its boot
    /// services.
    pub attempts_left: u32,
    /// The error on which the boot has stopped.
    pub failure: Option<BootError>,
}

impl Handoff {
    /// The state before anything has happened.
    pub open spec fn initial(attempts: u32) -> Handoff {
        Handoff { awaiting: Awaiting::Start, entry_address: 0, attempts_left: attempts, failure: None }
    }

    /// The stage that the boot has reached.
    pub open spec fn spec_stage(&self) -> BootStage {
        self.awaiting.stage()
    }

    /// The boot has neither stopped on an error nor left the firmware's
    /// services behind.
    pub open spec fn live(self) -> bool {
        self.failure is None && self.spec_stage().has_boot_services()
    }

    /// The state stopped on `error`.
    pub open spec fn failed(self, error: BootError) -> Handoff {
        Handoff { failure: Some(error), ..self }
    }

    /// The state that waits for `awaiting`.
    pub open spec fn waiting_for(self, awaiting: Awaiting) -> Handoff {
        Handoff { awaiting, ..self }
    }

    /// The state after `event`, and the action that answers it, in a boot that
    /// is live.
    pub open spec fn advance(self, event: Event) -> (Handoff, Action) {
        match (self.awaiting, event) {
            (Awaiting::Start, Event::Started) => (
                self.waiting_for(Awaiting::Header),
                Action::ReadHeader { len: ELF64_HEADER_SIZE },
            ),
            (Awaiting::Header, Event::HeaderParsed { header }) => (
                self.waiting_for(Awaiting::Layout),
                Action::ReadSegmentTable {
                    offset: header.segment_table_offset,
                    len: header.segment_table_len(),
                },
            ),
            (Awaiting::Layout, Event::Planned { layout }) => if layout.start <= layout.end {
                (
                    self.waiting_for(Awaiting::Memory),
                    Action::AcquireMemory {
                        size: (layout.end - layout.start) as u64,
                        alignment: layout.alignment,
                    },
                )
            } else {
                (
                    self.failed(BootError::AllocationFailure),
                    fatal(self.spec_stage(), BootError::AllocationFailure),
                )
            },
            (Awaiting::Memory, Event::MemoryAcquired) => (
                self.waiting_for(Awaiting::Image),
                Action::LoadSegments,
            ),
            (Awaiting::Memory, Event::MemoryRefused) => (
                self.failed(BootError::AllocationFailure),
                fatal(self.spec_stage(), BootError::AllocationFailure),
            ),
            (Awaiting::Image, Event::ImageReady { entry_address }) => (
                Handoff { awaiting: Awaiting::MemoryMapSize, entry_address, ..self },
                Action::QueryMemoryMapSize,
            ),
            (Awaiting::MemoryMapSize, Event::MemoryMapSize { size }) => if self.attempts_left == 0 {
                (
                    self.failed(BootError::ExitBootServicesFailure),
                    fatal(self.spec_stage(), BootError::ExitBootServicesFailure),
                )
            } else {
                (
                    Handoff {
                        awaiting: Awaiting::ExitAnswer,
                        attempts_left: (self.attempts_left - 1) as u32,
                        ..self
                    },
                    Action::ExitBootServices { buffer_size: size },
                )
            },
            (Awaiting::ExitAnswer, Event::ExitAccepted) => (
                self.waiting_for(Awaiting::Entry),
                Action::EnterKernel { entry_address: self.entry_address },
            ),
            (Awaiting::ExitAnswer, Event::ExitRejected) => if self.attempts_left == 0 {
                (
                    self.failed(BootError::ExitBootServicesFailure),
                    fatal(self.spec_stage(), BootError::ExitBootServicesFailure),
                )
            } else {
                (self.waiting_for(Awaiting::MemoryMapSize), Action::QueryMemoryMapSize)
            },
            (_, Event::LoadFailed { error }) => (
                self.failed(error),
                fatal(self.spec_stage(), error),
            ),
            _ => (self, Action::Nothing),
        }
    }

    /// The state after `event`, and the action that answers it.
    ///
    /// Once the firmware's services are gone the only thing that still
    /// happens is that the kernel is entered, and no event is answered by an
    /// action. Before that, a boot that has stopped on an error answers every
    /// event with the same halt.
    pub open spec fn next(self, event: Event) -> (Handoff, Action) {
        if !self.spec_stage().has_boot_services() {
            if self.awaiting == Awaiting::Entry && event == Event::KernelEntered {
                (self.waiting_for(Awaiting::Nothing), Action::Nothing)
            } else {
                (self, Action::Nothing)
            }
        } else if self.failure is Some {
            (self, fatal(self.spec_stage(), self.failure.unwrap()))
        } else {
            self.advance(event)
        }
    }

    /// Starts a boot in which the firmware is asked at most `attempts` times
    /// to end its boot services. With no attempt at all the boot stops with
    /// `ExitBootServicesFailure` when the exit is due, and the firmware is
    /// never asked.
    pub fn new(attempts: u32) -> (handoff: Handoff)
        ensures
            handoff == Handoff::initial(attempts),
    {
        Handoff { awaiting: Awaiting::Start, entry_address: 0, attempts_left: attempts, failure: None }
    }

    /// The stage that the boot has reached.
    #[verifier::when_used_as_spec(spec_stage)]
    pub fn stage(&self) -> (stage: BootStage)
        ensures
            stage == self.spec_stage(),
    {
        self.awaiting.stage()
    }

    /// Stops the boot on `error`.
    fn fail(&mut self, error: BootError) -> (halt: Action)
        ensures
            *final(self) == old(self).failed(error),
            halt == fatal(old(self).spec_stage(), error),
    {
        self.failure = Some(error);
        panic(self.awaiting.stage(), error)
    }

    /// Goes on to wait for `awaiting`, with `action` for the caller.
    fn wait_for(&mut self, awaiting: Awaiting, action: Action) -> (same: Action)
        ensures
            *final(self) == old(self).waiting_for(awaiting),
            same == action,
    {
        self.awaiting = awaiting;
        action
    }

    /// One step of a boot that is live.
    fn step_live(&mut self, event: Event) -> (action: Action)
        requires
            old(self).live(),
        ensures
            (*final(self), action) == old(self).advance(event),
    {
        match (self.awaiting, event) {
            (Awaiting::Start, Event::Started) => self.wait_for(
                Awaiting::Header,
                Action::ReadHeader { len: ELF64_HEADER_SIZE },
            ),
            (Awaiting::Header, Event::HeaderParsed { header }) => self.wait_for(
                Awaiting::Layout,
                Action::ReadSegmentTable {
                    offset: header.segment_table_offset,
                    len: header.segment_table_len(),
                },
            ),
            (Awaiting::Layout, Event::Planned { layout }) => {
                if layout.start <= layout.end {
                    self.wait_for(
                        Awaiting::Memory,
                        Action::AcquireMemory { size: layout.size(), alignment: layout.alignment },
                    )
                } else {
                    self.fail(BootError::AllocationFailure)
                }
            },
            (Awaiting::Memory, Event::MemoryAcquired) => self.wait_for(
                Awaiting::Image,
                Action::LoadSegments,
            ),
            (Awaiting::Memory, Event::MemoryRefused) => self.fail(BootError::AllocationFailure),
            (Awaiting::Image, Event::ImageReady { entry_address }) => {
                self.entry_address = entry_address;
                self.wait_for(Awaiting::MemoryMapSize, Action::QueryMemoryMapSize)
            },
            (Awaiting::MemoryMapSize, Event::MemoryMapSize { size }) => {
                if self.attempts_left == 0 {
                    self.fail(BootError::ExitBootServicesFailure)
                } else {
                    self.attempts_left = self.attempts_left - 1;
                    self.wait_for(
                        Awaiting::ExitAnswer,
                        Action::ExitBootServices { buffer_size: size },
                    )
                }
            },
            (Awaiting::ExitAnswer, Event::ExitAccepted) => {
                let entry_address = self.entry_address;
                self.wait_for(Awaiting::Entry, Action::EnterKernel { entry_address })
            },
            (Awaiting::ExitAnswer, Event::ExitRejected) => {
                if self.attempts_left == 0 {
                    self.fail(BootError::ExitBootServicesFailure)
                } else {
                    self.wait_for(Awaiting::MemoryMapSize, Action::QueryMemoryMapSize)
                }
            },
            (_, Event::LoadFailed { error }) => self.fail(error),
            _ => Action::Nothing,
        }
    }

    /// Takes in what happened and says what to do next.
    pub fn step(&mut self, event: Event) -> (action: Action)
        ensures
            (*final(self), action) == old(self).next(event),
    {
        if !self.awaiting.stage().has_boot_services() {
            if self.awaiting == Awaiting::Entry && event == Event::KernelEntered {
                self.awaiting = Awaiting::Nothing;
            }
            Action::Nothing
        } else {
            match self.failure {
                Some(error) => panic(self.awaiting.stage(), error),
                None => self.step_live(event),
            }
        }
    }
}

impl Handoff {
    /// The state after a run of events.
    pub open spec fn after(self, events: Seq<Event>) -> Handoff
        decreases events.len(),
    {
        if events.len() == 0 {
            self
        } else {
            self.after(events.drop_last()).next(events.last()).0
        }
    }

    /// The action that answers the last event of a run.
    pub open spec fn answer(self, events: Seq<Event>) -> Action
        recommends
            events.len() > 0,
    {
        self.after(events.drop_last()).next(events.last()).1
    }

    /// How often the answers to a run ask the firmware to end its boot
    /// services.
    pub open spec fn exit_requests(self, events: Seq<Event>) -> nat
        decreases events.len(),
    {
        if events.len() == 0 {
            0
        } else if self.answer(events) is ExitBootServices {
            self.exit_requests(events.drop_last()) + 1
        } else {
            self.exit_requests(events.drop_last())
        }
    }
}

/// A step never goes back to an earlier stage, and it skips none.
pub proof fn lemma_stage_moves_forward(state: Handoff, event: Event)
    ensures
        state.spec_stage().rank() <= state.next(event).0.spec_stage().rank()
            <= state.spec_stage().rank() + 1,
{
}

/// Whatever happens, the boot is never at an earlier stage than before.
pub proof fn lemma_stages_in_order(state: Handoff, events: Seq<Event>)
    ensures
        state.spec_stage().rank() <= state.after(events).spec_stage().rank(),
    decreases events.len(),
{
    if events.len() > 0 {
        lemma_stages_in_order(state, events.drop_last());
        lemma_stage_moves_forward(state.after(events.drop_last()), events.last());
    }
}

/// A run in two parts leads where the second part leads from the end of the
/// first.
pub proof fn lemma_after_both(state: Handoff, first: Seq<Event>, second: Seq<Event>)
    ensures
        state.after(first + second) == state.after(first).after(second),
    decreases second.len(),
{
    if second.len() == 0 {
        assert(first + second =~= first);
    } else {
        assert((first + second).drop_last() =~= first + second.drop_last());
        assert((first + second).last() == second.last());
        lemma_after_both(state, first, second.drop_last());
    }
}

/// Once the firmware has ended its boot services, no event is answered by an
/// action.
pub proof fn lemma_silent_after_exit(state: Handoff, events: Seq<Event>)
    requires
        !state.spec_stage().has_boot_services(),
        events.len() > 0,
    ensures
        state.answer(events) == Action::Nothing,
{
    lemma_stages_in_order(state, events.drop_last());
}

/// The kernel is entered on the step that leaves the firmware's services
/// behind, and on no other.
pub proof fn lemma_entry_follows_exit(state: Handoff, event: Event)
    ensures
        state.next(event).1 is EnterKernel <==> state.spec_stage().has_boot_services()
            && !state.next(event).0.spec_stage().has_boot_services(),
        state.next(event).1 is EnterKernel ==> state.next(event).1 == (Action::EnterKernel {
            entry_address: state.entry_address,
        }),
{
}

/// In every run, from every state: once the run has left the firmware's
/// services behind, every later event is answered by no action. So nothing is
/// asked of the firmware after that, and the kernel, which is entered on the
/// step that leaves them behind, is entered at most once.
pub proof fn lemma_nothing_twice_after_exit(state: Handoff, events: Seq<Event>, i: int, j: int)
    requires
        0 <= i < j <= events.len(),
        !state.after(events.take(i)).spec_stage().has_boot_services(),
    ensures
        state.answer(events.take(j)) == Action::Nothing,
{
    let middle = events.subrange(i, j - 1);
    assert(events.take(j).drop_last() =~= events.take(i) + middle);
    lemma_after_both(state, events.take(i), middle);
    lemma_stages_in_order(state.after(events.take(i)), middle);
}

/// The answers to a run hold at most one entry into the kernel.
pub proof fn lemma_kernel_entered_once(state: Handoff, events: Seq<Event>, i: int, j: int)
    requires
        0 < i < j <= events.len(),
        state.answer(events.take(i)) is EnterKernel,
    ensures
        state.answer(events.take(j)) == Action::Nothing,
{
    let before = state.after(events.take(i).drop_last());
    lemma_entry_follows_exit(before, events.take(i).last());
    lemma_nothing_twice_after_exit(state, events, i, j);
}

/// A boot that has stopped on an error stays as it is and answers every
/// event with the same halt, as long as the firmware's services are there: it
/// reads nothing, acquires nothing and asks nothing of the firmware.
pub proof fn lemma_failure_is_final(state: Handoff, events: Seq<Event>)
    requires
        state.failure is Some,
        state.spec_stage().has_boot_services(),
    ensures
        state.after(events) == state,
        events.len() > 0 ==> state.answer(events) == fatal(
            state.spec_stage(),
            state.failure.unwrap(),
        ),
    decreases events.len(),
{
    if events.len() > 0 {
        lemma_failure_is_final(state, events.drop_last());
    }
}

/// A failure of parsing, planning or loading, such as an image without a
/// loadable segment, stops a live boot at once, with that error, at whatever
/// step it is reported. No memory is acquired after it, and the kernel is not
/// entered.
pub proof fn lemma_load_failure_stops(
    state: Handoff,
    error: BootError,
    events: Seq<Event>,
)
    requires
        state.live(),
        events.len() > 0,
    ensures
        state.next(Event::LoadFailed { error }).1 == (Action::Halt { error, diagnosable: true }),
        !(state.next(Event::LoadFailed { error }).0.answer(events) is AcquireMemory),
        !(state.next(Event::LoadFailed { error }).0.answer(events) is EnterKernel),
        !state.next(Event::LoadFailed { error }).0.answer(events).is_operation(),
{
    lemma_failure_is_final(state.next(Event::LoadFailed { error }).0, events);
}

/// The firmware is asked to end its boot services no more often than the
/// boot has attempts left.
pub proof fn lemma_exit_requests_bounded(state: Handoff, events: Seq<Event>)
    ensures
        state.exit_requests(events) + state.after(events).attempts_left <= state.attempts_left,
    decreases events.len(),
{
    if events.len() > 0 {
        lemma_exit_requests_bounded(state, events.drop_last());
    }
}

} // verus!
