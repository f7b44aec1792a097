//! Decisions of the task that gathers piped input: when to hand the input
//! gathered so far to the pipeline, and when to pause and resume the reader.
use vstd::prelude::*;

verus! {

/// What the user can ask of input reading.
pub enum StdinControllerAction {
    /// Pause reading, or resume it when paused.
    Toggle,
}

/// What happens to the input controller.
pub enum ControllerEvent {
    /// The reader read these bytes.
    Read(Vec<u8>),
    /// The reader reached the end of the input.
    ReaderCompleted,
    /// The update interval passed since the last update.
    IntervalElapsed,
    /// The user asked something.
    Control(StdinControllerAction),
}

/// What the controller asks the application to do.
pub enum ControllerOutput {
    /// Run the pipeline on this input (the application also restarts the
    /// update interval).
    UpdateStdin(Vec<u8>),
    /// Tell the user that the whole input was read.
    StdinCompleted,
    /// Ask the reader to stop reading.
    Hold,
    /// Ask the reader to read again (the application also restarts the
    /// update interval).
    Continue,
}

/// The input gathered so far, whether some of it was not yet handed to the
/// pipeline, whether the first update was sent, whether reading is paused,
/// whether to pause after the first update, whether the end of the input
/// came while paused (it is taken when reading resumes), and whether the
/// input ended.
pub struct StdinController {
    pub bytes: Vec<u8>,
    pub new_data: bool,
    pub first_update_sent: bool,
    pub paused: bool,
    pub pause_after_first_update: bool,
    pub end_pending: bool,
    pub finished: bool,
}

/// A controller as plain values.
pub struct ControllerState {
    pub bytes: Seq<u8>,
    pub new_data: bool,
    pub first_update_sent: bool,
    pub paused: bool,
    pub pause_after_first_update: bool,
    pub end_pending: bool,
    pub finished: bool,
}

/// An event as plain values.
pub enum EventModel {
    Read(Seq<u8>),
    ReaderCompleted,
    IntervalElapsed,
    Toggle,
}

/// An output as plain values.
pub enum OutputModel {
    UpdateStdin(Seq<u8>),
    StdinCompleted,
    Hold,
    Continue,
}

impl View for StdinController {
    type V = ControllerState;

    open spec fn view(&self) -> ControllerState {
        ControllerState {
            bytes: self.bytes@,
            new_data: self.new_data,
            first_update_sent: self.first_update_sent,
            paused: self.paused,
            pause_after_first_update: self.pause_after_first_update,
            end_pending: self.end_pending,
            finished: self.finished,
        }
    }
}

impl View for ControllerEvent {
    type V = EventModel;

    open spec fn view(&self) -> EventModel {
        match self {
            ControllerEvent::Read(b) => EventModel::Read(b@),
            ControllerEvent::ReaderCompleted => EventModel::ReaderCompleted,
            ControllerEvent::IntervalElapsed => EventModel::IntervalElapsed,
            ControllerEvent::Control(StdinControllerAction::Toggle) => EventModel::Toggle,
        }
    }
}

impl View for ControllerOutput {
    type V = OutputModel;

    open spec fn view(&self) -> OutputModel {
        match self {
            ControllerOutput::UpdateStdin(b) => OutputModel::UpdateStdin(b@),
            ControllerOutput::StdinCompleted => OutputModel::StdinCompleted,
            ControllerOutput::Hold => OutputModel::Hold,
            ControllerOutput::Continue => OutputModel::Continue,
        }
    }
}

/// The outputs as plain values.
pub open spec fn outputs_view(out: Seq<ControllerOutput>) -> Seq<OutputModel> {
    out.map_values(|o: ControllerOutput| o@)
}

/// One step of the controller. Read bytes are appended to the input. When
/// the interval passed, reading is not paused and new bytes arrived, the
/// whole input goes to the pipeline, and, the first time, reading pauses if
/// so configured. At the end of the input, the user is told and the whole
/// input goes to the pipeline; while reading is paused, the end is kept and
/// taken when reading resumes. A toggle pauses or resumes reading. Once the
/// input ended, events change nothing.
pub open spec fn controller_step(s: ControllerState, e: EventModel) -> (ControllerState, Seq<OutputModel>) {
    if s.finished {
        (s, Seq::empty())
    } else {
        match e {
            EventModel::Read(b) => (ControllerState { bytes: s.bytes + b, new_data: true, ..s }, Seq::empty()),
            EventModel::ReaderCompleted => if s.paused {
                (ControllerState { end_pending: true, ..s }, Seq::empty())
            } else {
                (
                    ControllerState { finished: true, ..s },
                    seq![OutputModel::StdinCompleted, OutputModel::UpdateStdin(s.bytes)],
                )
            },
            EventModel::IntervalElapsed => if s.new_data && !s.paused {
                if s.pause_after_first_update && !s.first_update_sent {
                    (
                        ControllerState { new_data: false, first_update_sent: true, paused: true, ..s },
                        seq![OutputModel::UpdateStdin(s.bytes), OutputModel::Hold],
                    )
                } else {
                    (ControllerState { new_data: false, ..s }, seq![OutputModel::UpdateStdin(s.bytes)])
                }
            } else {
                (s, Seq::empty())
            },
            EventModel::Toggle => if s.paused {
                if s.end_pending {
                    (
                        ControllerState { paused: false, end_pending: false, finished: true, ..s },
                        seq![OutputModel::Continue, OutputModel::StdinCompleted, OutputModel::UpdateStdin(s.bytes)],
                    )
                } else {
                    (ControllerState { paused: false, ..s }, seq![OutputModel::Continue])
                }
            } else {
                (ControllerState { paused: true, ..s }, seq![OutputModel::Hold])
            },
        }
    }
}

/// The controller after a series of events, with everything it asked for.
pub open spec fn controller_run(s: ControllerState, events: Seq<EventModel>) -> (ControllerState, Seq<OutputModel>)
    decreases events.len(),
{
    if events.len() == 0 {
        (s, Seq::empty())
    } else {
        let (mid, out) = controller_run(s, events.drop_last());
        let (end, more) = controller_step(mid, events.last());
        (end, out + more)
    }
}

/// The bytes carried by the read events, in order.
pub open spec fn bytes_read(events: Seq<EventModel>) -> Seq<u8>
    decreases events.len(),
{
    if events.len() == 0 {
        Seq::empty()
    } else {
        bytes_read(events.drop_last()) + match events.last() {
            EventModel::Read(b) => b,
            _ => Seq::empty(),
        }
    }
}

/// Whether none of the events is the end of the input.
pub open spec fn no_end(events: Seq<EventModel>) -> bool {
    forall|i: int| 0 <= i < events.len() ==> !(#[trigger] events[i] is ReaderCompleted)
}

proof fn lemma_run_keeps_reads(s: ControllerState, events: Seq<EventModel>)
    requires
        !s.finished,
        !s.end_pending,
        no_end(events),
    ensures
        !controller_run(s, events).0.finished,
        !controller_run(s, events).0.end_pending,
        controller_run(s, events).0.bytes == s.bytes + bytes_read(events),
        controller_run(s, events).0.pause_after_first_update == s.pause_after_first_update,
    decreases events.len(),
{
    if events.len() > 0 {
        let init = events.drop_last();
        assert(no_end(init)) by {
            assert forall|i: int| 0 <= i < init.len() implies !(#[trigger] init[i] is ReaderCompleted) by {
                assert(init[i] == events[i]);
            }
        }
        lemma_run_keeps_reads(s, init);
        assert(!(events[events.len() - 1] is ReaderCompleted));
        let mid = controller_run(s, init).0;
        match events.last() {
            EventModel::Read(b) => {
                assert(mid.bytes + b =~= s.bytes + (bytes_read(init) + b));
            },
            _ => {
                assert(bytes_read(events) =~= bytes_read(init));
            },
        }
    }
}

/// Nothing read is lost: when the input ends, the last thing the controller
/// asks for is a run of the pipeline on everything read, in order; when
/// reading is paused at that moment, it does so as reading resumes.
pub proof fn law_all_input_reaches_the_pipeline(s: ControllerState, events: Seq<EventModel>)
    requires
        !s.finished,
        !s.end_pending,
        no_end(events),
    ensures
        ({
            let ended = events.push(EventModel::ReaderCompleted);
            let all = if controller_run(s, events).0.paused { ended.push(EventModel::Toggle) } else { ended };
            let (end, out) = controller_run(s, all);
            &&& end.finished
            &&& out.last() == OutputModel::UpdateStdin(s.bytes + bytes_read(events))
        }),
{
    lemma_run_keeps_reads(s, events);
    let ended = events.push(EventModel::ReaderCompleted);
    assert(ended.drop_last() =~= events);
    let mid = controller_run(s, events).0;
    let after_end = controller_run(s, ended);
    assert(after_end.0 == controller_step(mid, EventModel::ReaderCompleted).0);
    assert(after_end.1 == controller_run(s, events).1 + controller_step(mid, EventModel::ReaderCompleted).1);
    if mid.paused {
        let resumed = ended.push(EventModel::Toggle);
        assert(resumed.drop_last() =~= ended);
        assert(after_end.0.end_pending && after_end.0.paused && !after_end.0.finished);
        let (end, out) = controller_run(s, resumed);
        assert(out == after_end.1 + controller_step(after_end.0, EventModel::Toggle).1);
        assert(out.last() == controller_step(after_end.0, EventModel::Toggle).1.last());
    } else {
        assert(after_end.1.last() == controller_step(mid, EventModel::ReaderCompleted).1.last());
    }
}

/// Every update interval in which new input arrived runs the pipeline on
/// everything read so far, whatever updates were sent before: after any
/// events that leave reading running, reading more bytes and then letting
/// the interval pass makes the next request a run of the pipeline on all
/// the bytes read, in order, and leaves no new data pending.
pub proof fn law_each_interval_updates_with_all_input(s: ControllerState, events: Seq<EventModel>, more: Seq<u8>)
    requires
        !s.finished,
        !s.end_pending,
        no_end(events),
        !controller_run(s, events).0.paused,
    ensures
        ({
            let before = controller_run(s, events).1;
            let (end, out) = controller_run(s, events.push(EventModel::Read(more)).push(EventModel::IntervalElapsed));
            &&& out.len() > before.len()
            &&& out[before.len() as int] == OutputModel::UpdateStdin(s.bytes + bytes_read(events) + more)
            &&& !end.new_data
            &&& end.bytes == s.bytes + bytes_read(events) + more
        }),
{
    lemma_run_keeps_reads(s, events);
    let read = events.push(EventModel::Read(more));
    let all = read.push(EventModel::IntervalElapsed);
    assert(read.drop_last() =~= events);
    assert(all.drop_last() =~= read);
    let mid = controller_run(s, events).0;
    let after_read = controller_run(s, read);
    assert(after_read.0 == controller_step(mid, EventModel::Read(more)).0);
    assert(after_read.1 =~= controller_run(s, events).1);
    let step = controller_step(after_read.0, EventModel::IntervalElapsed);
    let (end, out) = controller_run(s, all);
    assert(out == after_read.1 + step.1);
    assert(out[controller_run(s, events).1.len() as int] == step.1[0]);
}

impl StdinController {
    pub fn new(pause_after_first_update: bool) -> (c: StdinController)
        ensures
            c@ == (ControllerState {
                bytes: Seq::empty(),
                new_data: false,
                first_update_sent: false,
                paused: false,
                pause_after_first_update,
                end_pending: false,
                finished: false,
            }),
    {
        let c = StdinController {
            bytes: Vec::new(),
            new_data: false,
            first_update_sent: false,
            paused: false,
            pause_after_first_update,
            end_pending: false,
            finished: false,
        };
        assert(c@.bytes =~= Seq::<u8>::empty());
        c
    }
}

/// Handles one event of the input controller (see `controller_step`) and
/// returns what the application is to do, in order.
pub fn stdin_controller_task(controller: &mut StdinController, event: ControllerEvent) -> (out: Vec<ControllerOutput>)
    ensures
        (final(controller)@, outputs_view(out@)) == controller_step(old(controller)@, event@),
{
    let mut out: Vec<ControllerOutput> = Vec::new();
    if controller.finished {
        assert(outputs_view(out@) =~= Seq::empty());
        return out;
    }
    match event {
        ControllerEvent::Read(b) => {
            let ghost start = controller.bytes@;
            controller.bytes.extend_from_slice(b.as_slice());
            assert(controller.bytes@ =~= start + b@);
            controller.new_data = true;
        },
        ControllerEvent::ReaderCompleted => {
            if controller.paused {
                controller.end_pending = true;
            } else {
                controller.finished = true;
                out.push(ControllerOutput::StdinCompleted);
                let all = controller.bytes.clone();
                assert(all@ =~= controller.bytes@);
                out.push(ControllerOutput::UpdateStdin(all));
            }
        },
        ControllerEvent::IntervalElapsed => {
            if controller.new_data && !controller.paused {
                controller.new_data = false;
                let update = controller.bytes.clone();
                assert(update@ =~= controller.bytes@);
                out.push(ControllerOutput::UpdateStdin(update));
                if controller.pause_after_first_update && !controller.first_update_sent {
                    controller.first_update_sent = true;
                    controller.paused = true;
                    out.push(ControllerOutput::Hold);
                }
            }
        },
        ControllerEvent::Control(StdinControllerAction::Toggle) => {
            if controller.paused {
                controller.paused = false;
                out.push(ControllerOutput::Continue);
                if controller.end_pending {
                    controller.end_pending = false;
                    controller.finished = true;
                    out.push(ControllerOutput::StdinCompleted);
                    let all = controller.bytes.clone();
                    assert(all@ =~= controller.bytes@);
                    out.push(ControllerOutput::UpdateStdin(all));
                }
            } else {
                controller.paused = true;
                out.push(ControllerOutput::Hold);
            }
        },
    }
    assert(outputs_view(out@) =~= controller_step(old(controller)@, event@).1);
    out
}

} // verus!
