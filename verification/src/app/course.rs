//! The course of a start, from the launched process to the published route.
//!
//! An app is told to the proxy only once it has answered on its socket, and not
//! if it bound a port that can be reached from elsewhere.

use vstd::prelude::*;

use crate::app::start;
use crate::app::start::{
    Ending, Look, StartFailure, StartFailureV, WaitContext, WaitStep, WaitStepV, Watch,
};
use crate::sys::output;
use crate::sys::proc::ProcessSnapshot;
use crate::text;

verus! {

/// Where a start is: what is to be done or looked at next.
#[derive(Debug, Clone, Copy)]
pub enum Phase {
    /// The pid is recorded.
    RecordPid,
    /// What runs under it is recorded, once it has had a moment to appear.
    RecordRun,
    /// The process is looked at for the first time before its socket is there.
    MeetFile,
    /// The socket is waited for.
    AwaitFile(Watch),
    /// The process is looked at for the first time before it accepts.
    MeetAccept,
    /// A connection is waited for.
    AwaitAccept(Watch),
    /// The ports are looked at once more.
    LastLook,
    /// The proxy marker is written.
    Publish,
    /// The web server is given access to the socket.
    Grant,
    /// The flag that boot recovery reads is written.
    Enable,
    /// The proxy is told.
    Tell,
    /// The app is up.
    Up,
}

impl Phase {
    /// A wait in this phase has not given up.
    pub open spec fn going(self) -> bool {
        match self {
            Phase::AwaitFile(w) => w.going(),
            Phase::AwaitAccept(w) => w.going(),
            _ => true,
        }
    }

    /// Everything that decides whether the app is published is behind.
    pub open spec fn settled(self) -> bool {
        self is Publish || self is Grant || self is Enable || self is Tell || self is Up
    }
}

/// What came of a phase.
pub enum Event {
    /// It was done.
    Done,
    /// It failed, with this error.
    Failed(String),
    /// The process was seen, in this state where one could be read.
    Saw(Option<ProcessSnapshot>),
    /// The app was looked at.
    Looked(Look),
}

pub enum EventV {
    Done,
    Failed(Seq<char>),
    Saw(Option<ProcessSnapshot>),
    Looked(Look),
}

impl View for Event {
    type V = EventV;

    open spec fn view(&self) -> EventV {
        match self {
            Event::Done => EventV::Done,
            Event::Failed(e) => EventV::Failed(e@),
            Event::Saw(s) => EventV::Saw(*s),
            Event::Looked(l) => EventV::Looked(*l),
        }
    }
}

/// How a start goes on.
pub enum Course {
    On(Phase),
    Failed(StartFailure),
}

pub enum CourseV {
    On(Phase),
    Failed(StartFailureV),
}

impl View for Course {
    type V = CourseV;

    open spec fn view(&self) -> CourseV {
        match self {
            Course::On(p) => CourseV::On(*p),
            Course::Failed(f) => CourseV::Failed(f@),
        }
    }
}

/// A start whose records could not be written: nothing would find the process
/// again, so it is killed.
pub open spec fn unrecorded(error: Seq<char>, cleanup: Seq<Seq<char>>) -> StartFailureV {
    StartFailureV {
        ending: Ending::Kill,
        cleanup,
        response: output::broken("state_write_failed"@, error),
    }
}

/// A start whose route could not be published.
pub open spec fn unpublished(error: Seq<char>) -> StartFailureV {
    StartFailureV {
        ending: Ending::Nothing,
        cleanup: Seq::empty(),
        response: output::broken("marker_failed"@, error),
    }
}

/// How a start goes on after a look, where `ready` comes next.
pub open spec fn looked(step: WaitStepV, ready: Phase, again: spec_fn(Watch) -> Phase) -> CourseV {
    match step {
        WaitStepV::Ready => CourseV::On(ready),
        WaitStepV::Failed(f) => CourseV::Failed(f),
        WaitStepV::Again(w) => CourseV::On(again(w)),
    }
}

/// The state in which a process was seen, where it was.
pub open spec fn seen(event: EventV) -> Option<ProcessSnapshot> {
    match event {
        EventV::Saw(s) => s,
        _ => None,
    }
}

/// How a start goes on. A wait goes on until the app has been looked at.
pub open spec fn after(ctx: WaitContext<'_>, phase: Phase, event: EventV) -> CourseV {
    match phase {
        Phase::RecordPid => match event {
            EventV::Failed(e) => CourseV::Failed(unrecorded(e, Seq::empty())),
            _ => CourseV::On(Phase::RecordRun),
        },
        Phase::RecordRun => match event {
            EventV::Failed(e) => CourseV::Failed(unrecorded(e, seq![ctx.pid_file@])),
            _ => CourseV::On(Phase::MeetFile),
        },
        Phase::MeetFile => CourseV::On(Phase::AwaitFile(Watch { last: seen(event), stuck: 0 })),
        Phase::AwaitFile(w) => match event {
            EventV::Looked(l) => looked(
                start::file_step(ctx, w, l),
                Phase::MeetAccept,
                |next: Watch| Phase::AwaitFile(next),
            ),
            _ => CourseV::On(phase),
        },
        Phase::MeetAccept => CourseV::On(Phase::AwaitAccept(Watch { last: seen(event), stuck: 0 })),
        Phase::AwaitAccept(w) => match event {
            EventV::Looked(l) => looked(
                start::accept_step(ctx, w, l),
                Phase::LastLook,
                |next: Watch| Phase::AwaitAccept(next),
            ),
            _ => CourseV::On(phase),
        },
        Phase::LastLook => match event {
            EventV::Looked(l) => if l.external_port {
                CourseV::Failed(start::port_failure(ctx, true))
            } else {
                CourseV::On(Phase::Publish)
            },
            _ => CourseV::On(phase),
        },
        Phase::Publish => match event {
            EventV::Failed(e) => CourseV::Failed(unpublished(e)),
            _ => CourseV::On(Phase::Grant),
        },
        Phase::Grant => CourseV::On(Phase::Enable),
        Phase::Enable => CourseV::On(Phase::Tell),
        Phase::Tell => CourseV::On(Phase::Up),
        Phase::Up => CourseV::On(Phase::Up),
    }
}

fn first_sight(event: &Event) -> (r: Watch)
    ensures
        r == (Watch { last: seen(event@), stuck: 0 }),
        r.going(),
{
    match event {
        Event::Saw(s) => Watch::begin(*s),
        _ => Watch::begin(None),
    }
}

fn fail_to_record(error: &str, cleanup: Vec<String>) -> (r: StartFailure)
    ensures
        r@ == unrecorded(error@, text::views(cleanup@)),
{
    StartFailure {
        ending: Ending::Kill,
        cleanup,
        response: output::system_error("state_write_failed", error),
    }
}

/// How a start goes on after what came of a phase. Access and the flag for the
/// next boot need not succeed: the app is up without them.
pub fn start_step(ctx: &WaitContext<'_>, phase: Phase, event: &Event) -> (r: Course)
    requires
        phase.going(),
    ensures
        r@ == after(*ctx, phase, event@),
        r matches Course::On(next) ==> next.going(),
{
    match phase {
        Phase::RecordPid => match event {
            Event::Failed(e) => {
                let nothing: Vec<String> = Vec::new();
                assert(text::views(nothing@) =~= Seq::<Seq<char>>::empty());
                Course::Failed(fail_to_record(e, nothing))
            },
            _ => Course::On(Phase::RecordRun),
        },
        Phase::RecordRun => match event {
            Event::Failed(e) => {
                let mut files: Vec<String> = Vec::new();
                files.push(ctx.pid_file.to_string());
                assert(text::views(files@) =~= seq![ctx.pid_file@]);
                Course::Failed(fail_to_record(e, files))
            },
            _ => Course::On(Phase::MeetFile),
        },
        Phase::MeetFile => Course::On(Phase::AwaitFile(first_sight(event))),
        Phase::AwaitFile(w) => match event {
            Event::Looked(l) => match start::wait_for_socket_file(ctx, w, *l) {
                WaitStep::Ready => Course::On(Phase::MeetAccept),
                WaitStep::Failed(f) => Course::Failed(f),
                WaitStep::Again(next) => Course::On(Phase::AwaitFile(next)),
            },
            _ => Course::On(phase),
        },
        Phase::MeetAccept => Course::On(Phase::AwaitAccept(first_sight(event))),
        Phase::AwaitAccept(w) => match event {
            Event::Looked(l) => match start::wait_for_socket_accept(ctx, w, *l) {
                WaitStep::Ready => Course::On(Phase::LastLook),
                WaitStep::Failed(f) => Course::Failed(f),
                WaitStep::Again(next) => Course::On(Phase::AwaitAccept(next)),
            },
            _ => Course::On(phase),
        },
        Phase::LastLook => match event {
            Event::Looked(l) => match start::refuse_external_port(ctx, l.external_port) {
                Some(f) => Course::Failed(f),
                None => Course::On(Phase::Publish),
            },
            _ => Course::On(phase),
        },
        Phase::Publish => match event {
            Event::Failed(e) => {
                let nothing: Vec<String> = Vec::new();
                assert(text::views(nothing@) =~= Seq::<Seq<char>>::empty());
                Course::Failed(
                    StartFailure {
                        ending: Ending::Nothing,
                        cleanup: nothing,
                        response: output::system_error("marker_failed", e),
                    },
                )
            },
            _ => Course::On(Phase::Grant),
        },
        Phase::Grant => Course::On(Phase::Enable),
        Phase::Enable => Course::On(Phase::Tell),
        Phase::Tell => Course::On(Phase::Up),
        Phase::Up => Course::On(Phase::Up),
    }
}

/// Where a start is after all of these events, from the launched process on.
pub open spec fn course(ctx: WaitContext<'_>, events: Seq<EventV>) -> CourseV
    decreases events.len(),
{
    if events.len() == 0 {
        CourseV::On(Phase::RecordPid)
    } else {
        match course(ctx, events.drop_last()) {
            CourseV::On(p) => after(ctx, p, events.last()),
            CourseV::Failed(f) => CourseV::Failed(f),
        }
    }
}

/// The app accepted a connection at this event, in time.
pub open spec fn answered_at(ctx: WaitContext<'_>, events: Seq<EventV>, i: int) -> bool {
    &&& 0 <= i < events.len()
    &&& course(ctx, events.take(i)) matches CourseV::On(p) && p is AwaitAccept
    &&& events[i] matches EventV::Looked(l) && l.there && !l.too_late
}

/// The app was seen, at this event, to hold no port that can be reached from
/// elsewhere, when that was looked at for the last time.
pub open spec fn cleared_at(ctx: WaitContext<'_>, events: Seq<EventV>, i: int) -> bool {
    &&& 0 <= i < events.len()
    &&& course(ctx, events.take(i)) == CourseV::On(Phase::LastLook)
    &&& events[i] matches EventV::Looked(l) && !l.external_port
}

proof fn lemma_course(ctx: WaitContext<'_>, events: Seq<EventV>)
    ensures
        course(ctx, events) matches CourseV::On(p) ==> {
            &&& p is LastLook ==> exists|i: int| answered_at(ctx, events, i)
            &&& p.settled() ==> exists|i: int, j: int|
                i < j && #[trigger] answered_at(ctx, events, i) && #[trigger] cleared_at(
                    ctx,
                    events,
                    j,
                )
        },
    decreases events.len(),
{
    if events.len() > 0 {
        let rest = events.drop_last();
        let n = rest.len() as int;
        lemma_course(ctx, rest);
        assert(events.take(n) =~= rest);
        assert forall|i: int| answered_at(ctx, rest, i) implies answered_at(ctx, events, i) by {
            assert(events.take(i) =~= rest.take(i));
        }
        assert forall|i: int| cleared_at(ctx, rest, i) implies cleared_at(ctx, events, i) by {
            assert(events.take(i) =~= rest.take(i));
        }
        if let CourseV::On(was) = course(ctx, rest) {
            if let CourseV::On(now) = course(ctx, events) {
                if now is LastLook {
                    if was is LastLook {
                        let i = choose|i: int| answered_at(ctx, rest, i);
                        assert(answered_at(ctx, events, i));
                    } else {
                        assert(answered_at(ctx, events, n));
                    }
                }
                if now.settled() {
                    if was.settled() {
                        let (i, j) = choose|i: int, j: int|
                            i < j && #[trigger] answered_at(ctx, rest, i)
                                && #[trigger] cleared_at(ctx, rest, j);
                        assert(answered_at(ctx, events, i) && cleared_at(ctx, events, j));
                    } else {
                        let i = choose|i: int| answered_at(ctx, rest, i);
                        assert(answered_at(ctx, events, i) && cleared_at(ctx, events, n));
                    }
                }
            }
        }
    }
}

/// An app is published only after it accepted a connection in time and was seen,
/// after that, to hold no port that can be reached from elsewhere.
pub proof fn law_published_apps_answer(ctx: WaitContext<'_>, events: Seq<EventV>)
    requires
        course(ctx, events) matches CourseV::On(p) && p.settled(),
    ensures
        exists|i: int, j: int|
            i < j && #[trigger] answered_at(ctx, events, i) && #[trigger] cleared_at(ctx, events, j),
{
    lemma_course(ctx, events);
}

/// A start that fails while the app is waited for leaves neither of its records
/// behind, nor a process: what still lives is ended.
pub proof fn law_failed_start_leaves_nothing(ctx: WaitContext<'_>, phase: Phase, look: Look)
    requires
        phase is AwaitFile || phase is AwaitAccept || phase is LastLook,
    ensures
        after(ctx, phase, EventV::Looked(look)) matches CourseV::Failed(f) ==> {
            &&& f.cleanup.contains(ctx.pid_file@)
            &&& f.cleanup.contains(ctx.meta_file@)
            &&& f.ending == Ending::Nothing ==> !look.alive
        },
{
    if let CourseV::Failed(f) = after(ctx, phase, EventV::Looked(look)) {
        assert(f.cleanup[0] == ctx.pid_file@);
        assert(f.cleanup[1] == ctx.meta_file@);
    }
}

/// A start whose every step goes well comes up: once its records are written, the
/// socket is there, a connection was accepted in time and no port is open.
pub proof fn law_healthy_starts_come_up(
    ctx: WaitContext<'_>,
    a: Option<ProcessSnapshot>,
    b: Option<ProcessSnapshot>,
    file: Look,
    accept: Look,
    last: Look,
)
    requires
        file.there,
        accept.there && !accept.too_late,
        !last.external_port,
    ensures
        course(
            ctx,
            seq![
                EventV::Done,
                EventV::Done,
                EventV::Saw(a),
                EventV::Looked(file),
                EventV::Saw(b),
                EventV::Looked(accept),
                EventV::Looked(last),
                EventV::Done,
                EventV::Done,
                EventV::Done,
                EventV::Done,
            ],
        ) == CourseV::On(Phase::Up),
{
    let e = seq![
        EventV::Done,
        EventV::Done,
        EventV::Saw(a),
        EventV::Looked(file),
        EventV::Saw(b),
        EventV::Looked(accept),
        EventV::Looked(last),
        EventV::Done,
        EventV::Done,
        EventV::Done,
        EventV::Done,
    ];
    lemma_course_step(ctx, e, 0);
    lemma_course_step(ctx, e, 1);
    lemma_course_step(ctx, e, 2);
    lemma_course_step(ctx, e, 3);
    lemma_course_step(ctx, e, 4);
    lemma_course_step(ctx, e, 5);
    lemma_course_step(ctx, e, 6);
    lemma_course_step(ctx, e, 7);
    lemma_course_step(ctx, e, 8);
    lemma_course_step(ctx, e, 9);
    lemma_course_step(ctx, e, 10);
    assert(e.take(11) =~= e);
    assert(course(ctx, e.take(0)) == CourseV::On(Phase::RecordPid));
}

proof fn lemma_course_step(ctx: WaitContext<'_>, e: Seq<EventV>, i: int)
    requires
        0 <= i < e.len(),
    ensures
        course(ctx, e.take(i + 1)) == (match course(ctx, e.take(i)) {
            CourseV::On(p) => after(ctx, p, e[i]),
            CourseV::Failed(f) => CourseV::Failed(f),
        }),
{
    assert(e.take(i + 1).drop_last() =~= e.take(i));
    assert(e.take(i + 1).last() == e[i]);
}

/// What a failed step comes to. Where the records cannot be written the process is
/// killed, and what was written of them goes; where the route cannot be published
/// the app stays up. What the web server and the panel are told afterwards decides
/// nothing.
pub proof fn law_failed_steps_are_answered(ctx: WaitContext<'_>, error: Seq<char>)
    ensures
        after(ctx, Phase::RecordPid, EventV::Failed(error)) matches CourseV::Failed(f) && f.ending
            == Ending::Kill && f.cleanup.len() == 0 && f.response == output::broken(
            "state_write_failed"@,
            error,
        ),
        after(ctx, Phase::RecordRun, EventV::Failed(error)) matches CourseV::Failed(f) && f.ending
            == Ending::Kill && f.cleanup == seq![ctx.pid_file@] && f.response == output::broken(
            "state_write_failed"@,
            error,
        ),
        after(ctx, Phase::Publish, EventV::Failed(error)) matches CourseV::Failed(f) && f.ending
            == Ending::Nothing && f.cleanup.len() == 0 && f.response == output::broken(
            "marker_failed"@,
            error,
        ),
        after(ctx, Phase::Grant, EventV::Failed(error)) == CourseV::On(Phase::Enable),
        after(ctx, Phase::Enable, EventV::Failed(error)) == CourseV::On(Phase::Tell),
        after(ctx, Phase::Tell, EventV::Failed(error)) == CourseV::On(Phase::Up),
{
}

/// A port that is open at the last look ends the start, socket and all.
pub proof fn law_last_look_decides(ctx: WaitContext<'_>, look: Look)
    ensures
        !look.external_port ==> after(ctx, Phase::LastLook, EventV::Looked(look)) == CourseV::On(
            Phase::Publish,
        ),
        look.external_port ==> (after(ctx, Phase::LastLook, EventV::Looked(look))
            matches CourseV::Failed(f) && f.ending == Ending::TermThenKill && f.cleanup == seq![
            ctx.pid_file@,
            ctx.meta_file@,
            ctx.socket@,
        ] && f.response == output::refused(
            "network_port_forbidden"@,
            start::NETWORK_PORT_FORBIDDEN_MSG@,
        )),
{
}

/// A start that has failed stays failed.
pub proof fn law_failures_are_final(ctx: WaitContext<'_>, events: Seq<EventV>, more: Seq<EventV>)
    requires
        course(ctx, events) is Failed,
    ensures
        course(ctx, events + more) == course(ctx, events),
    decreases more.len(),
{
    if more.len() == 0 {
        assert(events + more =~= events);
    } else {
        law_failures_are_final(ctx, events, more.drop_last());
        assert((events + more).drop_last() =~= events + more.drop_last());
    }
}

} // verus!
