//! What holds of every run of the pipeline, whatever the system answers.
//!
//! A run is the pipeline's first state and the events it is answered with.
//! From these alone follow the actions it asked for, the resources that were
//! taken and the resources that were given back. The laws here say that the
//! two always match when the run is over, that every run is over after a
//! bounded number of answers, and that a finished capture leaves nothing but
//! the pixel buffer behind.

use vstd::prelude::*;
use vstd::multiset::Multiset;
use crate::guard::{lemma_without_last, without_last, Resource};
use crate::pipeline::{
    finished, initial, next, outcome, pending, Action, Event, PipelineView, Stage,
};
use crate::region::Region;

verus! {

/// The order in which a capture takes its resources.
pub open spec fn capture_chain() -> Seq<Resource> {
    seq![
        Resource::Session,
        Resource::ScreenSurface,
        Resource::MemorySurface,
        Resource::PixelBuffer,
        Resource::Binding,
    ]
}

/// What the capture still holds once the pixel buffer has left its guard.
pub open spec fn return_chain() -> Seq<Resource> {
    seq![
        Resource::Session,
        Resource::ScreenSurface,
        Resource::MemorySurface,
        Resource::Binding,
    ]
}

/// The order in which saving takes its resources, the captured buffer
/// included.
pub open spec fn save_chain() -> Seq<Resource> {
    seq![Resource::Session, Resource::PixelBuffer, Resource::Image, Resource::EncoderList]
}

/// `held` is the beginning of `chain`.
pub open spec fn starts(chain: Seq<Resource>, held: Seq<Resource>) -> bool {
    held.len() <= chain.len() && held == chain.take(held.len() as int)
}

/// What holds of the state of every pipeline: each stage has its own stack of
/// held resources, the pixel buffer is between owners only while the capture
/// returns, and after a failure nothing is done but giving back.
pub open spec fn well_formed(v: PipelineView) -> bool {
    &&& v.carried ==> v.stage is Returning
    &&& v.error is Some ==> v.stage is Unwinding || v.stage is Finished
    &&& match v.stage {
        Stage::Starting => v.held.len() == 0,
        Stage::AcquiringScreen => v.held == capture_chain().take(1),
        Stage::CreatingMemory => v.held == capture_chain().take(2),
        Stage::Allocating => v.held == capture_chain().take(3),
        Stage::Binding => v.held == capture_chain().take(4),
        Stage::Copying => v.held == capture_chain(),
        Stage::Returning => v.carried && v.held.len() >= 2 && starts(return_chain(), v.held),
        Stage::Wrapping => v.held == save_chain().take(2),
        Stage::Measuring | Stage::Reserving | Stage::Saving => v.held == save_chain().take(3),
        Stage::Listing | Stage::Dropping => v.held == save_chain(),
        Stage::Unwinding => v.held.len() > 0 && (starts(capture_chain(), v.held) || starts(
            save_chain(),
            v.held,
        )),
        Stage::Finished => v.held.len() == 0,
    }
}

/// An upper bound on the number of answers that state `v` still takes.
pub open spec fn steps_left(v: PipelineView) -> nat {
    match v.stage {
        Stage::Starting => 18,
        Stage::AcquiringScreen => 17,
        Stage::CreatingMemory => 16,
        Stage::Allocating => 15,
        Stage::Binding => 14,
        Stage::Copying => 13,
        Stage::Returning => v.held.len() + 8,
        Stage::Wrapping => 9,
        Stage::Measuring => 8,
        Stage::Reserving => 7,
        Stage::Listing => 6,
        Stage::Dropping => 5,
        Stage::Saving => 4,
        Stage::Unwinding => v.held.len(),
        Stage::Finished => 0,
    }
}

/// The longest run: every operation succeeds.
pub open spec fn longest_run() -> nat {
    18
}

/// The resource that `action` takes when it is answered by `event`.
pub open spec fn gained(action: Action, event: Event) -> Option<Resource> {
    if event is Done {
        match action {
            Action::StartSession => Some(Resource::Session),
            Action::AcquireScreenSurface => Some(Resource::ScreenSurface),
            Action::CreateMemorySurface => Some(Resource::MemorySurface),
            Action::AllocatePixelBuffer { .. } => Some(Resource::PixelBuffer),
            Action::BindPixelBuffer => Some(Resource::Binding),
            Action::WrapImage => Some(Resource::Image),
            Action::ReserveEncoderList { .. } => Some(Resource::EncoderList),
            _ => None,
        }
    } else {
        None
    }
}

/// The resource that `action` gives back.
pub open spec fn given_back(action: Action) -> Option<Resource> {
    match action {
        Action::Release(resource) => Some(resource),
        _ => None,
    }
}

/// The state after `start` has been answered with `events`, one by one.
pub open spec fn run(start: PipelineView, events: Seq<Event>) -> PipelineView
    decreases events.len(),
{
    if events.len() == 0 {
        start
    } else {
        next(run(start, events.drop_last()), events.last())
    }
}

/// The resources taken in the run, in the order in which they were taken.
pub open spec fn acquired(start: PipelineView, events: Seq<Event>) -> Seq<Resource>
    decreases events.len(),
{
    if events.len() == 0 {
        Seq::empty()
    } else {
        let before = acquired(start, events.drop_last());
        match gained(pending(run(start, events.drop_last())), events.last()) {
            Some(resource) => before.push(resource),
            None => before,
        }
    }
}

/// The resources given back in the run, in the order in which they were
/// given back.
pub open spec fn released(start: PipelineView, events: Seq<Event>) -> Seq<Resource>
    decreases events.len(),
{
    if events.len() == 0 {
        Seq::empty()
    } else {
        let before = released(start, events.drop_last());
        match given_back(pending(run(start, events.drop_last()))) {
            Some(resource) => before.push(resource),
            None => before,
        }
    }
}

/// The image was saved in the run: a request to save it was answered with
/// success.
pub open spec fn saved(start: PipelineView, events: Seq<Event>) -> bool
    decreases events.len(),
{
    events.len() > 0 && (saved(start, events.drop_last()) || (pending(
        run(start, events.drop_last()),
    ) is SaveImage && events.last() is Done))
}

/// The pixels were copied in the run: a request to copy them was answered
/// with success. From then on the pixel buffer outlives the surfaces that
/// were taken before it.
pub open spec fn copied(start: PipelineView, events: Seq<Event>) -> bool
    decreases events.len(),
{
    events.len() > 0 && (copied(start, events.drop_last()) || (pending(
        run(start, events.drop_last()),
    ) is CopyPixels && events.last() is Done))
}

/// What in state `v` is taken and not given back: what is under guard, and
/// the pixel buffer while it is between owners.
pub open spec fn outstanding(v: PipelineView) -> Multiset<Resource> {
    if v.carried {
        v.held.to_multiset().insert(Resource::PixelBuffer)
    } else {
        v.held.to_multiset()
    }
}

/// Adding the same element on both sides of a balance keeps it.
proof fn lemma_balance_insert(
    taken: Multiset<Resource>,
    first: Multiset<Resource>,
    back: Multiset<Resource>,
    out: Multiset<Resource>,
    resource: Resource,
)
    requires
        taken.add(first) =~= back.add(out),
    ensures
        taken.insert(resource).add(first) =~= back.add(out.insert(resource)),
{
    assert forall|x: Resource|
        taken.insert(resource).add(first).count(x) == back.add(out.insert(resource)).count(
            x,
        ) by {
        assert(taken.add(first).count(x) == back.add(out).count(x));
    }
}

/// Moving an element from what is outstanding to what was given back keeps a
/// balance.
proof fn lemma_balance_move(
    taken: Multiset<Resource>,
    first: Multiset<Resource>,
    back: Multiset<Resource>,
    out: Multiset<Resource>,
    resource: Resource,
)
    requires
        taken.add(first) =~= back.add(out.insert(resource)),
    ensures
        taken.add(first) =~= back.insert(resource).add(out),
{
    assert forall|x: Resource|
        taken.add(first).count(x) == back.insert(resource).add(out).count(x) by {
        assert(taken.add(first).count(x) == back.add(out.insert(resource)).count(x));
    }
}

proof fn lemma_chains()
    ensures
        capture_chain().len() == 5,
        return_chain().len() == 4,
        save_chain().len() == 4,
        without_last(capture_chain(), Resource::PixelBuffer) == return_chain(),
        capture_chain().contains(Resource::PixelBuffer),
        capture_chain().take(5) == capture_chain(),
        save_chain().take(4) == save_chain(),
        return_chain().take(4) == return_chain(),
        return_chain().take(1).push(Resource::PixelBuffer) == save_chain().take(2),
        forall|n: int|
            0 <= n < 5 ==> #[trigger] capture_chain().take(n).push(capture_chain()[n])
                == capture_chain().take(n + 1),
        forall|n: int|
            0 <= n < 4 ==> #[trigger] save_chain().take(n).push(save_chain()[n])
                == save_chain().take(n + 1),
        forall|n: int|
            0 < n <= 5 ==> #[trigger] capture_chain().take(n).drop_last() == capture_chain().take(
                n - 1,
            ),
        forall|n: int|
            0 < n <= 4 ==> #[trigger] save_chain().take(n).drop_last() == save_chain().take(n - 1),
        forall|n: int|
            0 < n <= 4 ==> #[trigger] return_chain().take(n).drop_last() == return_chain().take(
                n - 1,
            ),
{
    reveal_with_fuel(without_last, 3);
    assert(capture_chain().drop_last().drop_last() =~= capture_chain().take(3));
    assert(capture_chain().take(3).push(Resource::Binding) =~= return_chain());
    assert(capture_chain()[3] == Resource::PixelBuffer);
    assert(capture_chain().take(5) =~= capture_chain());
    assert(save_chain().take(4) =~= save_chain());
    assert(return_chain().take(4) =~= return_chain());
    assert(return_chain().take(1).push(Resource::PixelBuffer) =~= save_chain().take(2));
    assert forall|n: int| 0 <= n < 5 implies #[trigger] capture_chain().take(n).push(
        capture_chain()[n],
    ) == capture_chain().take(n + 1) by {
        assert(capture_chain().take(n).push(capture_chain()[n]) =~= capture_chain().take(n + 1));
    }
    assert forall|n: int| 0 <= n < 4 implies #[trigger] save_chain().take(n).push(
        save_chain()[n],
    ) == save_chain().take(n + 1) by {
        assert(save_chain().take(n).push(save_chain()[n]) =~= save_chain().take(n + 1));
    }
    assert forall|n: int| 0 < n <= 5 implies #[trigger] capture_chain().take(n).drop_last()
        == capture_chain().take(n - 1) by {
        assert(capture_chain().take(n).drop_last() =~= capture_chain().take(n - 1));
    }
    assert forall|n: int| 0 < n <= 4 implies #[trigger] save_chain().take(n).drop_last()
        == save_chain().take(n - 1) by {
        assert(save_chain().take(n).drop_last() =~= save_chain().take(n - 1));
    }
    assert forall|n: int| 0 < n <= 4 implies #[trigger] return_chain().take(n).drop_last()
        == return_chain().take(n - 1) by {
        assert(return_chain().take(n).drop_last() =~= return_chain().take(n - 1));
    }
}

/// One answer keeps a state well formed and brings it nearer to its end; a
/// finished state stays as it is.
pub proof fn lemma_step(v: PipelineView, event: Event)
    requires
        well_formed(v),
    ensures
        well_formed(next(v, event)),
        finished(v) <==> v.stage is Finished,
        finished(v) ==> next(v, event) == v,
        !finished(v) ==> steps_left(next(v, event)) < steps_left(v),
        steps_left(v) <= longest_run(),
{
    lemma_chains();
    let n = v.held.len() as int;
    match v.stage {
        Stage::Returning => {
            assert(v.held == return_chain().take(n));
            assert(return_chain().take(n).drop_last() == return_chain().take(n - 1));
            let rest = v.held.drop_last();
            if rest.len() > 1 {
                assert(next(v, event).held == rest);
                assert(starts(return_chain(), rest));
            } else {
                assert(n == 2);
                assert(next(v, event).held == save_chain().take(2));
            }
        },
        Stage::Unwinding => {
            if starts(capture_chain(), v.held) {
                assert(capture_chain().take(n).drop_last() == capture_chain().take(n - 1));
            } else {
                assert(save_chain().take(n).drop_last() == save_chain().take(n - 1));
            }
        },
        Stage::Dropping => {
            assert(save_chain().take(4).drop_last() == save_chain().take(3));
        },
        Stage::Starting => {
            assert(v.held =~= capture_chain().take(0));
            assert(capture_chain().take(0).push(capture_chain()[0]) == capture_chain().take(1));
        },
        Stage::AcquiringScreen => {
            assert(capture_chain().take(1).push(capture_chain()[1]) == capture_chain().take(2));
        },
        Stage::CreatingMemory => {
            assert(capture_chain().take(2).push(capture_chain()[2]) == capture_chain().take(3));
        },
        Stage::Allocating => {
            assert(capture_chain().take(3).push(capture_chain()[3]) == capture_chain().take(4));
        },
        Stage::Binding => {
            assert(capture_chain().take(4).push(capture_chain()[4]) == capture_chain().take(5));
        },
        Stage::Wrapping => {
            assert(save_chain().take(2).push(save_chain()[2]) == save_chain().take(3));
        },
        Stage::Reserving => {
            assert(save_chain().take(3).push(save_chain()[3]) == save_chain().take(4));
        },
        _ => {},
    }
}

/// One answer changes what is outstanding by exactly what the answered action
/// took or gave back.
proof fn lemma_step_ledger(v: PipelineView, event: Event)
    requires
        well_formed(v),
    ensures
        match (gained(pending(v), event), given_back(pending(v))) {
            (Some(resource), _) => outstanding(next(v, event)) =~= outstanding(v).insert(resource),
            (None, Some(resource)) => outstanding(next(v, event)).insert(resource)
                =~= outstanding(v),
            (None, None) => outstanding(next(v, event)) =~= outstanding(v),
        },
{
    broadcast use vstd::seq_lib::group_to_multiset_ensures;

    lemma_chains();
    lemma_step(v, event);
    let after = next(v, event);
    match v.stage {
        Stage::Copying => {
            lemma_without_last(v.held, Resource::PixelBuffer);
        },
        Stage::Returning | Stage::Dropping | Stage::Unwinding => {
            let rest = v.held.drop_last();
            assert(v.held =~= rest.push(v.held.last()));
            assert(v.held.to_multiset() =~= rest.to_multiset().insert(v.held.last()));
            if v.stage is Returning && rest.len() <= 1 {
                assert(after.held == rest.push(Resource::PixelBuffer));
                assert(after.held.to_multiset() =~= rest.to_multiset().insert(
                    Resource::PixelBuffer,
                ));
            }
        },
        _ => {},
    }
}

/// The state after any run from a well-formed state is well formed, and what
/// was taken is what was given back together with what is outstanding.
pub proof fn lemma_run(start: PipelineView, events: Seq<Event>)
    requires
        well_formed(start),
    ensures
        well_formed(run(start, events)),
        acquired(start, events).to_multiset().add(outstanding(start)) =~= released(
            start,
            events,
        ).to_multiset().add(outstanding(run(start, events))),
        steps_left(run(start, events)) <= steps_left(start),
        steps_left(start) <= events.len() ==> finished(run(start, events)),
        steps_left(run(start, events)) + events.len() <= steps_left(start) || finished(
            run(start, events),
        ),
    decreases events.len(),
{
    broadcast use vstd::seq_lib::group_to_multiset_ensures;

    if events.len() == 0 {
        lemma_step(start, Event::Done);
        assert(acquired(start, events).to_multiset() =~= Multiset::empty());
        assert(released(start, events).to_multiset() =~= Multiset::empty());
    } else {
        let earlier = events.drop_last();
        lemma_run(start, earlier);
        let v = run(start, earlier);
        lemma_step(v, events.last());
        lemma_step_ledger(v, events.last());
        let taken = acquired(start, earlier);
        let back = released(start, earlier);
        match gained(pending(v), events.last()) {
            Some(resource) => {
                assert(acquired(start, events) == taken.push(resource));
                assert(taken.push(resource).to_multiset() =~= taken.to_multiset().insert(
                    resource,
                ));
            },
            None => {
                assert(acquired(start, events) == taken);
            },
        }
        match given_back(pending(v)) {
            Some(resource) => {
                assert(released(start, events) == back.push(resource));
                assert(back.push(resource).to_multiset() =~= back.to_multiset().insert(resource));
            },
            None => {
                assert(released(start, events) == back);
            },
        }
        let out = outstanding(v);
        let after = outstanding(run(start, events));
        match (gained(pending(v), events.last()), given_back(pending(v))) {
            (Some(resource), _) => {
                assert(given_back(pending(v)) is None);
                lemma_balance_insert(
                    taken.to_multiset(),
                    outstanding(start),
                    back.to_multiset(),
                    out,
                    resource,
                );
            },
            (None, Some(resource)) => {
                assert(out == after.insert(resource));
                lemma_balance_move(
                    taken.to_multiset(),
                    outstanding(start),
                    back.to_multiset(),
                    after,
                    resource,
                );
            },
            (None, None) => {},
        }
    }
}

/// Resource balance: when a run is over, every resource that was taken has
/// been given back, and nothing was given back that had not been taken.
/// This holds whichever operations failed. While the run is not over, what
/// was taken and not given back is exactly what the pipeline knows as
/// outstanding.
pub proof fn lemma_resources_balance(
    region: Region,
    extension: Option<Seq<char>>,
    events: Seq<Event>,
)
    ensures
        ({
            let start = initial(region, extension);
            let end = run(start, events);
            &&& acquired(start, events).to_multiset() =~= released(
                start,
                events,
            ).to_multiset().add(outstanding(end))
            &&& finished(end) ==> acquired(start, events).to_multiset() =~= released(
                start,
                events,
            ).to_multiset()
            &&& finished(end) ==> acquired(start, events).len() == released(start, events).len()
        }),
{
    broadcast use vstd::seq_lib::group_to_multiset_ensures;

    let start = initial(region, extension);
    let end = run(start, events);
    lemma_run(start, events);
    lemma_step(end, Event::Done);
    let taken = acquired(start, events).to_multiset();
    let back = released(start, events).to_multiset();
    assert(start.held =~= Seq::empty());
    assert(outstanding(start) =~= Multiset::empty());
    assert(taken.add(Multiset::empty()) =~= taken);
    if finished(end) {
        assert(end.held =~= Seq::empty());
        assert(outstanding(end) =~= Multiset::empty());
        assert(back.add(Multiset::empty()) =~= back);
        assert(acquired(start, events).to_multiset().len() == acquired(start, events).len());
        assert(released(start, events).to_multiset().len() == released(start, events).len());
        assert(acquired(start, events).to_multiset() =~= released(start, events).to_multiset());
    }
}

/// Every run ends: after as many answers as the longest run has, whatever
/// they were, the pipeline is finished.
pub proof fn lemma_every_run_ends(
    region: Region,
    extension: Option<Seq<char>>,
    events: Seq<Event>,
)
    requires
        events.len() >= longest_run(),
    ensures
        finished(run(initial(region, extension), events)),
{
    let start = initial(region, extension);
    lemma_run(start, events);
    lemma_step(start, Event::Done);
}

/// Exclusive hand-over: when the pipeline asks for the captured buffer to be
/// wrapped, the capture has returned, and of all it took only the session and
/// the pixel buffer are still held. The desktop surface, the memory surface
/// and the binding have each been given back as often as they were taken.
pub proof fn lemma_capture_keeps_only_the_buffer(
    region: Region,
    extension: Option<Seq<char>>,
    events: Seq<Event>,
)
    requires
        pending(run(initial(region, extension), events)) == Action::WrapImage,
    ensures
        ({
            let start = initial(region, extension);
            let end = run(start, events);
            let taken = acquired(start, events).to_multiset();
            let back = released(start, events).to_multiset();
            &&& end.held == seq![Resource::Session, Resource::PixelBuffer]
            &&& !end.carried
            &&& taken.count(Resource::ScreenSurface) == back.count(Resource::ScreenSurface)
            &&& taken.count(Resource::MemorySurface) == back.count(Resource::MemorySurface)
            &&& taken.count(Resource::Binding) == back.count(Resource::Binding)
            &&& taken.count(Resource::PixelBuffer) == back.count(Resource::PixelBuffer) + 1
            &&& taken.count(Resource::Session) == back.count(Resource::Session) + 1
        }),
{
    broadcast use vstd::seq_lib::group_to_multiset_ensures;

    let start = initial(region, extension);
    let end = run(start, events);
    lemma_resources_balance(region, extension, events);
    lemma_run(start, events);
    lemma_chains();
    assert(end.stage is Wrapping);
    assert(end.held =~= seq![Resource::Session, Resource::PixelBuffer]);
    let two = seq![Resource::Session].push(Resource::PixelBuffer);
    assert(two =~= end.held);
    assert(seq![Resource::Session] =~= Seq::<Resource>::empty().push(Resource::Session));
    assert(Seq::<Resource>::empty().to_multiset() =~= Multiset::empty());
    assert(end.held.to_multiset() =~= Multiset::empty().insert(Resource::Session).insert(
        Resource::PixelBuffer,
    ));
}

/// Until something is taken the pipeline is at its start or already over,
/// and the first thing taken is the session.
proof fn lemma_first_taken(start: PipelineView, events: Seq<Event>)
    requires
        well_formed(start),
        start.stage is Starting || start.stage is Finished,
    ensures
        acquired(start, events).len() == 0 ==> run(start, events).stage is Starting || run(
            start,
            events,
        ).stage is Finished,
        acquired(start, events).len() > 0 ==> acquired(start, events)[0] == Resource::Session,
    decreases events.len(),
{
    if events.len() > 0 {
        let earlier = events.drop_last();
        lemma_first_taken(start, earlier);
        lemma_run(start, earlier);
        lemma_step(run(start, earlier), events.last());
    }
}

/// The session is outermost: whatever is held, the session was taken first
/// and lies at the bottom; it is given back only when nothing else is
/// outstanding; and it is held whenever the image is wrapped, the encoders
/// are asked for, or the file is written.
pub proof fn lemma_session_is_outermost(
    region: Region,
    extension: Option<Seq<char>>,
    events: Seq<Event>,
)
    ensures
        ({
            let start = initial(region, extension);
            let now = run(start, events);
            &&& now.held.len() > 0 ==> now.held[0] == Resource::Session
            &&& acquired(start, events).len() > 0 ==> acquired(start, events)[0]
                == Resource::Session
            &&& pending(now) == Action::Release(Resource::Session) ==> now.held
                == seq![Resource::Session] && !now.carried
            &&& (pending(now) is WrapImage || pending(now) is MeasureEncoders || pending(now)
                is ReserveEncoderList || pending(now) is ListEncoders || pending(now)
                is SaveImage) ==> now.held.len() > 0 && now.held[0] == Resource::Session
        }),
{
    let start = initial(region, extension);
    let now = run(start, events);
    lemma_run(start, events);
    lemma_first_taken(start, events);
    lemma_chains();
    let n = now.held.len() as int;
    if n > 0 {
        assert(capture_chain()[0] == Resource::Session);
        assert(return_chain()[0] == Resource::Session);
        assert(save_chain()[0] == Resource::Session);
        assert(capture_chain().take(n)[0] == capture_chain()[0]);
        if n <= 4 {
            assert(return_chain().take(n)[0] == return_chain()[0]);
            assert(save_chain().take(n)[0] == save_chain()[0]);
        }
        assert(now.held[0] == Resource::Session);
    }
    if pending(now) == Action::Release(Resource::Session) {
        assert(now.held[n - 1] == Resource::Session);
        assert(capture_chain()[1] != Resource::Session && capture_chain()[2] != Resource::Session
            && capture_chain()[3] != Resource::Session && capture_chain()[4]
            != Resource::Session);
        assert(return_chain()[1] != Resource::Session && return_chain()[2] != Resource::Session
            && return_chain()[3] != Resource::Session);
        assert(save_chain()[1] != Resource::Session && save_chain()[2] != Resource::Session
            && save_chain()[3] != Resource::Session);
        assert(n == 1);
        assert(now.held =~= seq![Resource::Session]);
    }
}

/// Success means a written file, and nothing else does: a run that saved the
/// image ends well, and a finished run that ended well saved the image.
pub proof fn lemma_success_means_saved(
    region: Region,
    extension: Option<Seq<char>>,
    events: Seq<Event>,
)
    ensures
        ({
            let start = initial(region, extension);
            let end = run(start, events);
            &&& saved(start, events) ==> end.error is None && (end.stage is Unwinding
                || end.stage is Finished)
            &&& !saved(start, events) && (end.stage is Unwinding || end.stage is Finished)
                ==> end.error is Some
            &&& finished(end) ==> (outcome(end) is Ok <==> saved(start, events))
        }),
    decreases events.len(),
{
    let start = initial(region, extension);
    lemma_run(start, events);
    lemma_step(run(start, events), Event::Done);
    if events.len() > 0 {
        let earlier = events.drop_last();
        lemma_success_means_saved(region, extension, earlier);
        lemma_run(start, earlier);
        lemma_step(run(start, earlier), events.last());
    }
}

/// The first failure is the one reported: once a run has failed, no answer
/// changes the failure, and the only work left is giving back.
pub proof fn lemma_failure_is_kept(
    region: Region,
    extension: Option<Seq<char>>,
    events: Seq<Event>,
    answer: Event,
)
    requires
        run(initial(region, extension), events).error is Some,
    ensures
        ({
            let now = run(initial(region, extension), events);
            &&& next(now, answer).error == now.error
            &&& pending(now) is Release || pending(now) is Finish
        }),
{
    let start = initial(region, extension);
    lemma_run(start, events);
    lemma_step(run(start, events), answer);
}

/// As long as the pixels have not been copied, what was given back is the
/// newest of what was taken, in reverse order, and what is held is the rest.
proof fn lemma_reverse_order(start: PipelineView, events: Seq<Event>)
    requires
        well_formed(start),
        start.stage is Starting || start.stage is Finished,
    ensures
        !copied(start, events) ==> acquired(start, events) == run(start, events).held + released(
            start,
            events,
        ).reverse(),
        !copied(start, events) ==> !(run(start, events).stage is Returning || run(
            start,
            events,
        ).stage is Wrapping || run(start, events).stage is Measuring || run(
            start,
            events,
        ).stage is Reserving || run(start, events).stage is Listing || run(
            start,
            events,
        ).stage is Dropping || run(start, events).stage is Saving),
        !copied(start, events) && released(start, events).len() > 0 ==> run(
            start,
            events,
        ).stage is Unwinding || run(start, events).stage is Finished,
    decreases events.len(),
{
    if events.len() == 0 {
        assert(start.held + Seq::<Resource>::empty().reverse() =~= start.held);
        assert(start.held =~= Seq::<Resource>::empty());
    } else if !copied(start, events) {
        let earlier = events.drop_last();
        let before = run(start, earlier);
        let after = run(start, events);
        lemma_reverse_order(start, earlier);
        lemma_run(start, earlier);
        lemma_step(before, events.last());
        let taken = acquired(start, earlier);
        let back = released(start, earlier);
        match given_back(pending(before)) {
            Some(resource) => {
                assert(before.held =~= after.held.push(resource));
                assert(back.push(resource).reverse() =~= seq![resource] + back.reverse());
                assert(after.held + back.push(resource).reverse() =~= before.held
                    + back.reverse());
            },
            None => {
                match gained(pending(before), events.last()) {
                    Some(resource) => {
                        assert(back.len() == 0);
                        assert(after.held == before.held.push(resource));
                        assert(after.held + back.reverse() =~= (before.held
                            + back.reverse()).push(resource));
                    },
                    None => {
                        assert(after.held == before.held);
                    },
                }
            },
        }
    }
}

/// Reverse order: in a run that ends before the pixels were copied, the
/// resources are given back in exactly the reverse of the order in which
/// they were taken. (After the copy the pixel buffer changes owner and
/// outlives the surfaces taken before it; see
/// [`lemma_capture_keeps_only_the_buffer`].)
pub proof fn lemma_failed_capture_unwinds_in_reverse(
    region: Region,
    extension: Option<Seq<char>>,
    events: Seq<Event>,
)
    requires
        !copied(initial(region, extension), events),
    ensures
        ({
            let start = initial(region, extension);
            let end = run(start, events);
            &&& acquired(start, events) == end.held + released(start, events).reverse()
            &&& finished(end) ==> released(start, events) == acquired(start, events).reverse()
        }),
{
    let start = initial(region, extension);
    let end = run(start, events);
    lemma_run(start, events);
    lemma_step(end, Event::Done);
    lemma_reverse_order(start, events);
    if finished(end) {
        let back = released(start, events);
        assert(end.held =~= Seq::<Resource>::empty());
        assert(end.held + back.reverse() =~= back.reverse());
        assert(back.reverse().reverse() =~= back);
    }
}

/// Newest first: whenever the pipeline asks for a release, it is of the
/// resource that came under its guard last, and the answer takes just that
/// one off the guard. (After the capture's last release the pixel buffer
/// comes back under the guard with its new owner.)
pub proof fn lemma_release_is_newest(
    region: Region,
    extension: Option<Seq<char>>,
    events: Seq<Event>,
    answer: Event,
)
    requires
        pending(run(initial(region, extension), events)) is Release,
    ensures
        ({
            let now = run(initial(region, extension), events);
            let after = next(now, answer);
            &&& now.held.len() > 0
            &&& pending(now) == Action::Release(now.held.last())
            &&& after.held == now.held.drop_last() || (now.stage is Returning && after.held
                == now.held.drop_last().push(Resource::PixelBuffer))
        }),
{
    let start = initial(region, extension);
    lemma_run(start, events);
}

} // verus!
