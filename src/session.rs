//! The window session: one context object that owns every protocol handle,
//! drives the surface through its lifecycle and the configure handshake,
//! and decides each turn of the frame loop.
//!
//! The caller performs the protocol and graphics calls. Each step here takes
//! what the server handed back (a handle, an event) and returns the next
//! request to issue. Handles are opaque non-zero numbers; zero stands for a
//! null handle.
use vstd::prelude::*;

use crate::error::{BootstrapError, HandleKind};
use crate::registry::GlobalKind;

verus! {

/// A protocol request that the session asks its caller to issue.
#[derive(Clone, Copy, Debug, PartialEq, Eq, Structural)]
pub enum Request {
    /// Create a drawable surface from the compositor.
    CreateSurface { compositor: u64 },
    /// Wrap the surface in a shell surface.
    GetShellSurface { shell: u64, surface: u64 },
    /// Give the shell surface the top-level window role.
    GetToplevel { shell_surface: u64 },
    /// Acknowledge the configuration carrying `serial`.
    AckConfigure { shell_surface: u64, serial: u32 },
    /// Commit the surface's pending state.
    Commit { surface: u64 },
    /// Create the native window that ties the surface to the rendering API.
    CreateNativeWindow { surface: u64, width: i32, height: i32 },
    /// Make the context current on the drawable made from the native window.
    MakeCurrent { native_window: u64, drawable: u64, context: u64 },
}

/// Width of the window, fixed for the session.
pub const WINDOW_WIDTH: i32 = 512;
/// Height of the window, fixed for the session.
pub const WINDOW_HEIGHT: i32 = 512;

/// The native window request for `surface`, at the session's fixed size.
pub open spec fn window_request(surface: u64) -> Request {
    Request::CreateNativeWindow { surface, width: WINDOW_WIDTH, height: WINDOW_HEIGHT }
}

/// A notification from the server, delivered by the message drain.
#[derive(Clone, Copy, Debug, PartialEq, Eq, Structural)]
pub enum Event {
    /// The shell surface was configured; the serial must be acknowledged.
    Configure { serial: u32 },
    /// The top-level role proposes a size; sizes are fixed, so it is ignored.
    ToplevelConfigure { width: i32, height: i32 },
    /// The user asked for the window to close.
    Close,
}

/// Where the session stands in bringing the window up.
#[derive(Clone, Copy, Debug, PartialEq, Eq, Structural)]
pub enum Stage {
    /// Globals are being discovered and bound.
    Negotiating,
    /// Both globals are bound; no surface exists yet.
    Uncreated,
    SurfaceCreated,
    ShellWrapped,
    /// The top-level role is assigned and the initial commit, with no
    /// buffer attached, went out; the first configure is awaited.
    AwaitingConfigure,
    /// A configure was acknowledged and the surface committed.
    Committed,
    /// The native window for the surface was requested.
    WindowRequested,
    /// A drawable is bound to the surface and made current.
    Presentable,
}

/// What the frame loop does on one turn, after draining messages.
#[derive(Clone, Copy, Debug, PartialEq, Eq, Structural)]
pub enum LoopAction {
    /// Leave the loop without drawing.
    Exit,
    /// Invoke the frame callback, then present the frame.
    RenderAndPresent,
}

/// True for the stages in which the shell surface exists.
pub open spec fn has_shell_surface(stage: Stage) -> bool {
    match stage {
        Stage::Negotiating | Stage::Uncreated | Stage::SurfaceCreated => false,
        _ => true,
    }
}

/// The serials acknowledged in a request log, in the order they were sent.
pub open spec fn ack_serials(log: Seq<Request>) -> Seq<u32>
    decreases log.len(),
{
    if log.len() == 0 {
        Seq::empty()
    } else {
        let earlier = ack_serials(log.drop_last());
        match log.last() {
            Request::AckConfigure { serial, .. } => earlier.push(serial),
            _ => earlier,
        }
    }
}

/// The context that owns every handle of one window for its lifetime: the
/// bound globals, the surface and its shell objects, the presentation
/// objects, the lifecycle stage and the close flag.
pub struct Session {
    display: u64,
    compositor: u64,
    shell: u64,
    surface: u64,
    shell_surface: u64,
    toplevel: u64,
    native_window: u64,
    drawable: u64,
    context: u64,
    stage: Stage,
    closed: bool,
    log: Ghost<Seq<Request>>,
    configures: Ghost<Seq<u32>>,
}

/// What a session holds, as seen by contracts.
pub ghost struct SessionView {
    /// Connection to the display server.
    pub display: u64,
    pub compositor: u64,
    pub shell: u64,
    pub surface: u64,
    pub shell_surface: u64,
    pub toplevel: u64,
    pub native_window: u64,
    pub drawable: u64,
    pub context: u64,
    pub stage: Stage,
    /// Set once the user asked for the window to close; never cleared.
    pub closed: bool,
    /// Every request the session has asked its caller to issue, in order.
    pub log: Seq<Request>,
    /// The serials of the configure events handled, in order of receipt.
    pub configures: Seq<u32>,
}

impl View for Session {
    type V = SessionView;

    closed spec fn view(&self) -> SessionView {
        SessionView {
            display: self.display,
            compositor: self.compositor,
            shell: self.shell,
            surface: self.surface,
            shell_surface: self.shell_surface,
            toplevel: self.toplevel,
            native_window: self.native_window,
            drawable: self.drawable,
            context: self.context,
            stage: self.stage,
            closed: self.closed,
            log: self.log@,
            configures: self.configures@,
        }
    }
}

/// Every commit follows an acknowledgment or the role assignment, every
/// acknowledgment is directly followed by a commit of `surface`, and the
/// acknowledged serials are exactly `configures`, in order.
#[verifier::opaque]
pub open spec fn handshake_ordered(log: Seq<Request>, surface: u64, configures: Seq<u32>) -> bool {
    &&& forall|i: int|
        0 <= i < log.len() && (#[trigger] log[i]) is Commit ==> i > 0 && (log[i - 1] is AckConfigure
            || log[i - 1] is GetToplevel)
    &&& forall|i: int|
        0 <= i < log.len() && (#[trigger] log[i]) is AckConfigure ==> i + 1 < log.len() && log[i
            + 1] == (Request::Commit { surface })
    &&& ack_serials(log) == configures
}

/// Every surface creation in `log` was requested from `compositor`.
#[verifier::opaque]
pub open spec fn surfaces_from(log: Seq<Request>, compositor: u64) -> bool {
    forall|i: int|
        0 <= i < log.len() && (#[trigger] log[i]) is CreateSurface ==> log[i] == (
        Request::CreateSurface { compositor })
}

/// True for the stages in which the shell surface's listeners are in place.
pub open spec fn listening(stage: Stage) -> bool {
    match stage {
        Stage::AwaitingConfigure | Stage::Committed | Stage::WindowRequested
        | Stage::Presentable => true,
        _ => false,
    }
}

/// No commit and no acknowledgment has been requested.
#[verifier::opaque]
pub open spec fn no_handshake(log: Seq<Request>) -> bool {
    forall|i: int| 0 <= i < log.len() ==> !((#[trigger] log[i]) is Commit) && !(log[i] is AckConfigure)
}

proof fn lemma_no_handshake(log: Seq<Request>, surface: u64)
    requires
        no_handshake(log),
    ensures
        handshake_ordered(log, surface, Seq::empty()),
    decreases log.len(),
{
    reveal(no_handshake);
    reveal(handshake_ordered);
    if log.len() > 0 {
        let d = log.drop_last();
        assert(no_handshake(d)) by {
            assert forall|i: int| 0 <= i < d.len() implies !((#[trigger] d[i]) is Commit) && !(d[i] is AckConfigure) by {
                assert(d[i] == log[i]);
            }
        }
        lemma_no_handshake(d, surface);
        assert(!(log[log.len() - 1] is AckConfigure));
    }
}

proof fn lemma_empty_log(surface: u64, compositor: u64)
    ensures
        no_handshake(Seq::empty()),
        handshake_ordered(Seq::empty(), surface, Seq::empty()),
        surfaces_from(Seq::empty(), compositor),
        !made_current(Seq::empty()),
{
    reveal(no_handshake);
    reveal(made_current);
    reveal(surfaces_from);
    lemma_no_handshake(Seq::empty(), surface);
}

/// Appending a request that is neither a commit nor an acknowledgment keeps
/// the handshake ordered.
proof fn lemma_push_other(log: Seq<Request>, surface: u64, configures: Seq<u32>, x: Request)
    requires
        handshake_ordered(log, surface, configures),
        !(x is Commit),
        !(x is AckConfigure),
    ensures
        handshake_ordered(log.push(x), surface, configures),
{
    reveal(handshake_ordered);
    let l = log.push(x);
    assert(l.drop_last() == log);
    assert forall|i: int| 0 <= i < l.len() && (#[trigger] l[i]) is Commit implies i > 0 && (
    l[i - 1] is AckConfigure || l[i - 1] is GetToplevel) by {
        assert(l[i] == log[i]);
    }
    assert forall|i: int| 0 <= i < l.len() && (#[trigger] l[i]) is AckConfigure implies i + 1
        < l.len() && l[i + 1] == (Request::Commit { surface }) by {
        assert(l[i] == log[i]);
    }
}

proof fn lemma_push_no_handshake(log: Seq<Request>, x: Request)
    requires
        no_handshake(log),
        !(x is Commit),
        !(x is AckConfigure),
    ensures
        no_handshake(log.push(x)),
{
    reveal(no_handshake);
    let l = log.push(x);
    assert forall|i: int| 0 <= i < l.len() implies !((#[trigger] l[i]) is Commit) && !(l[i] is AckConfigure) by {
        if i < log.len() {
            assert(l[i] == log[i]);
        }
    }
}

/// The commit that follows the role assignment keeps the handshake ordered.
proof fn lemma_push_initial_commit(log: Seq<Request>, surface: u64)
    requires
        no_handshake(log),
        log.len() > 0,
        log.last() is GetToplevel,
    ensures
        handshake_ordered(log.push(Request::Commit { surface }), surface, Seq::empty()),
{
    lemma_no_handshake(log, surface);
    reveal(handshake_ordered);
    reveal(no_handshake);
    let l = log.push(Request::Commit { surface });
    assert(l.drop_last() == log);
    assert forall|i: int| 0 <= i < l.len() && (#[trigger] l[i]) is Commit implies i > 0 && (
    l[i - 1] is AckConfigure || l[i - 1] is GetToplevel) by {
        if i < log.len() {
            assert(l[i] == log[i]);
        }
    }
    assert forall|i: int| 0 <= i < l.len() && (#[trigger] l[i]) is AckConfigure implies i + 1
        < l.len() && l[i + 1] == (Request::Commit { surface }) by {
        if i < log.len() {
            assert(l[i] == log[i]);
        }
    }
}

/// Appending a request that is not a surface creation keeps `surfaces_from`.
proof fn lemma_push_not_create(log: Seq<Request>, compositor: u64, x: Request)
    requires
        surfaces_from(log, compositor),
        !(x is CreateSurface),
    ensures
        surfaces_from(log.push(x), compositor),
{
    reveal(surfaces_from);
    let l = log.push(x);
    assert forall|i: int| 0 <= i < l.len() && (#[trigger] l[i]) is CreateSurface implies l[i]
        == (Request::CreateSurface { compositor }) by {
        assert(l[i] == log[i]);
    }
}

/// Every make-current in `log` binds the given native window, drawable and
/// context, follows a request for the native window of `surface` at the
/// fixed size, and there is at most one.
#[verifier::opaque]
pub open spec fn current_once(
    log: Seq<Request>,
    surface: u64,
    native_window: u64,
    drawable: u64,
    context: u64,
) -> bool {
    &&& forall|m: int|
        0 <= m < log.len() && (#[trigger] log[m]) is MakeCurrent ==> log[m] == (
        Request::MakeCurrent { native_window, drawable, context }) && exists|k: int|
            0 <= k < m && log[k] == window_request(surface)
    &&& forall|i: int, j: int|
        0 <= i < log.len() && 0 <= j < log.len() && (#[trigger] log[i]) is MakeCurrent && (
        #[trigger] log[j]) is MakeCurrent ==> i == j
}

/// Some make-current was requested.
#[verifier::opaque]
pub open spec fn made_current(log: Seq<Request>) -> bool {
    exists|m: int| 0 <= m < log.len() && (#[trigger] log[m]) is MakeCurrent
}

/// The native window of `surface` was requested.
#[verifier::opaque]
pub open spec fn window_requested(log: Seq<Request>, surface: u64) -> bool {
    exists|k: int| 0 <= k < log.len() && (#[trigger] log[k]) == window_request(surface)
}

proof fn lemma_unpresented(log: Seq<Request>, surface: u64, native_window: u64, drawable: u64, context: u64)
    requires
        !made_current(log),
    ensures
        current_once(log, surface, native_window, drawable, context),
{
    reveal(made_current);
    reveal(current_once);
}

/// Appending a request other than a make-current keeps what was and was
/// not requested about presentation.
proof fn lemma_push_not_current(
    log: Seq<Request>,
    x: Request,
    surface: u64,
    native_window: u64,
    drawable: u64,
    context: u64,
)
    requires
        current_once(log, surface, native_window, drawable, context),
        !(x is MakeCurrent),
    ensures
        current_once(log.push(x), surface, native_window, drawable, context),
        made_current(log.push(x)) == made_current(log),
        window_requested(log, surface) ==> window_requested(log.push(x), surface),
        x == window_request(surface) ==> window_requested(log.push(x), surface),
{
    reveal(current_once);
    reveal(made_current);
    reveal(window_requested);
    let l = log.push(x);
    let n = log.len() as int;
    assert forall|m: int| 0 <= m < l.len() && (#[trigger] l[m]) is MakeCurrent implies l[m] == (
    Request::MakeCurrent { native_window, drawable, context }) && exists|k: int|
        0 <= k < m && l[k] == window_request(surface) by {
        assert(l[m] == log[m]);
        let k = choose|k: int| 0 <= k < m && log[k] == window_request(surface);
        assert(l[k] == log[k]);
    }
    if made_current(l) {
        let m = choose|m: int| 0 <= m < l.len() && (#[trigger] l[m]) is MakeCurrent;
        assert(log[m] == l[m]);
    }
    if made_current(log) {
        let m = choose|m: int| 0 <= m < log.len() && (#[trigger] log[m]) is MakeCurrent;
        assert(log[m] == l[m]);
    }
    if window_requested(log, surface) {
        let k = choose|k: int| 0 <= k < log.len() && (#[trigger] log[k]) == window_request(surface);
        assert(log[k] == l[k]);
    }
    if x == window_request(surface) {
        assert(l[n] == x);
    }
}

/// The first make-current, after the native window request, is the only one.
proof fn lemma_push_current(log: Seq<Request>, surface: u64, native_window: u64, drawable: u64, context: u64)
    requires
        !made_current(log),
        window_requested(log, surface),
    ensures
        current_once(
            log.push(Request::MakeCurrent { native_window, drawable, context }),
            surface,
            native_window,
            drawable,
            context,
        ),
        made_current(log.push(Request::MakeCurrent { native_window, drawable, context })),
        window_requested(log.push(Request::MakeCurrent { native_window, drawable, context }), surface),
{
    reveal(current_once);
    reveal(made_current);
    reveal(window_requested);
    let x = Request::MakeCurrent { native_window, drawable, context };
    let l = log.push(x);
    let n = log.len() as int;
    let k = choose|k: int| 0 <= k < log.len() && (#[trigger] log[k]) == window_request(surface);
    assert(l[k] == log[k]);
    assert forall|m: int| 0 <= m < l.len() && (#[trigger] l[m]) is MakeCurrent implies l[m] == x
        && exists|k: int| 0 <= k < m && l[k] == window_request(surface) by {
        if m < n {
            assert(l[m] == log[m]);
        }
    }
    assert forall|i: int, j: int|
        0 <= i < l.len() && 0 <= j < l.len() && (#[trigger] l[i]) is MakeCurrent && (
        #[trigger] l[j]) is MakeCurrent implies i == j by {
        if i < n {
            assert(l[i] == log[i]);
        }
        if j < n {
            assert(l[j] == log[j]);
        }
    }
    assert(l[n] == x);
}

/// Appending nothing to `out` leaves it and `log` as they were.
proof fn lemma_nothing_appended(out: Seq<Request>, log: Seq<Request>)
    ensures
        out.subrange(out.len() as int, out.len() as int) == Seq::<Request>::empty(),
        out.subrange(0, out.len() as int) == out,
        log + Seq::<Request>::empty() == log,
{
    assert(out.subrange(out.len() as int, out.len() as int) =~= Seq::<Request>::empty());
    assert(out.subrange(0, out.len() as int) =~= out);
    assert(log + Seq::<Request>::empty() =~= log);
}

/// A configure answered by its acknowledgment and a commit keeps the
/// handshake ordered, with the serial appended to those received.
proof fn lemma_push_ack_commit(
    log: Seq<Request>,
    surface: u64,
    configures: Seq<u32>,
    shell_surface: u64,
    serial: u32,
)
    requires
        handshake_ordered(log, surface, configures),
    ensures
        handshake_ordered(
            log.push(Request::AckConfigure { shell_surface, serial }).push(
                Request::Commit { surface },
            ),
            surface,
            configures.push(serial),
        ),
{
    reveal(handshake_ordered);
    let a = log.push(Request::AckConfigure { shell_surface, serial });
    let l = a.push(Request::Commit { surface });
    assert(l.drop_last() == a);
    assert(a.drop_last() == log);
    assert(ack_serials(a) == ack_serials(log).push(serial));
    assert(ack_serials(l) == ack_serials(a));
    let n = log.len() as int;
    assert(l[n] == Request::AckConfigure { shell_surface, serial });
    assert(l[n + 1] == Request::Commit { surface });
    assert forall|i: int| 0 <= i < l.len() && (#[trigger] l[i]) is Commit implies i > 0 && (
    l[i - 1] is AckConfigure || l[i - 1] is GetToplevel) by {
        if i < n {
            assert(l[i] == log[i]);
            assert(l[i - 1] == log[i - 1]);
        }
    }
    assert forall|i: int| 0 <= i < l.len() && (#[trigger] l[i]) is AckConfigure implies i + 1
        < l.len() && l[i + 1] == (Request::Commit { surface }) by {
        if i < n {
            assert(l[i] == log[i]);
            assert(l[i + 1] == a[i + 1]);
        }
    }
}

/// The session after one event has been handled. A configure is answered,
/// once the listeners are in place, by acknowledging its serial and then
/// committing the surface; a close sets the close flag; a proposed
/// top-level size changes nothing.
pub open spec fn apply_event(s: SessionView, e: Event) -> SessionView {
    match e {
        Event::Configure { serial } => if listening(s.stage) {
            SessionView {
                stage: if s.stage == Stage::AwaitingConfigure {
                    Stage::Committed
                } else {
                    s.stage
                },
                log: s.log.push(
                        Request::AckConfigure { shell_surface: s.shell_surface, serial },
                    ).push(Request::Commit { surface: s.surface }),
                configures: s.configures.push(serial),
                ..s
            }
        } else {
            s
        },
        Event::ToplevelConfigure { .. } => s,
        Event::Close => SessionView { closed: true, ..s },
    }
}

/// The session after the events have been handled in order.
pub open spec fn apply_events(s: SessionView, events: Seq<Event>) -> SessionView
    decreases events.len(),
{
    if events.len() == 0 {
        s
    } else {
        apply_event(apply_events(s, events.drop_last()), events.last())
    }
}

/// What the frame loop does once messages have been drained.
pub open spec fn frame_action(s: SessionView) -> LoopAction {
    if s.closed || s.stage != Stage::Presentable {
        LoopAction::Exit
    } else {
        LoopAction::RenderAndPresent
    }
}

impl SessionView {
    /// The session's invariant: handles exist for every stage reached, and
    /// the requests issued so far keep the handshake and presentation order.
    pub open spec fn wf(self) -> bool {
        &&& self.display != 0
        &&& self.stage != Stage::Negotiating ==> self.compositor != 0 && self.shell != 0
        &&& !(self.stage == Stage::Negotiating || self.stage == Stage::Uncreated) ==> self.surface
            != 0
        &&& has_shell_surface(self.stage) ==> self.shell_surface != 0
        &&& listening(self.stage) ==> self.toplevel != 0
        &&& self.stage == Stage::ShellWrapped ==> self.log.len() > 0 && self.log.last() is GetToplevel
        &&& !listening(self.stage) ==> no_handshake(self.log) && self.configures.len() == 0
        &&& handshake_ordered(self.log, self.surface, self.configures)
        &&& surfaces_from(self.log, self.compositor)
        &&& current_once(self.log, self.surface, self.native_window, self.drawable, self.context)
        &&& (self.stage == Stage::Presentable <==> made_current(self.log))
        &&& (self.stage == Stage::WindowRequested || self.stage == Stage::Presentable)
            ==> window_requested(self.log, self.surface)
        &&& self.stage == Stage::Negotiating ==> self.log.len() == 0
    }
}

impl Session {
    pub open spec fn wf(&self) -> bool {
        self@.wf()
    }

    /// Starts a session on a connection; fails when no server was reached.
    pub fn new(display: u64) -> (r: Result<Session, BootstrapError>)
        ensures
            display == 0 ==> r == Err::<Session, BootstrapError>(BootstrapError::NoDisplay),
            display != 0 ==> r is Ok,
            r matches Ok(s) ==> s.wf() && s@ == (SessionView {
                display,
                compositor: 0,
                shell: 0,
                surface: 0,
                shell_surface: 0,
                toplevel: 0,
                native_window: 0,
                drawable: 0,
                context: 0,
                stage: Stage::Negotiating,
                closed: false,
                log: Seq::empty(),
                configures: Seq::empty(),
            }),
    {
        if display == 0 {
            return Err(BootstrapError::NoDisplay);
        }
        proof {
            lemma_empty_log(0, 0);
            lemma_unpresented(Seq::empty(), 0, 0, 0, 0);
        }
        Ok(
            Session {
                display,
                compositor: 0,
                shell: 0,
                surface: 0,
                shell_surface: 0,
                toplevel: 0,
                native_window: 0,
                drawable: 0,
                context: 0,
                stage: Stage::Negotiating,
                closed: false,
                log: Ghost(Seq::empty()),
                configures: Ghost(Seq::empty()),
            },
        )
    }

    /// Records the handle that binding a required global produced. Once the
    /// registry round-trip has been checked the bindings are fixed, and
    /// later ones are ignored.
    pub fn record_binding(&mut self, kind: GlobalKind, handle: u64)
        requires
            old(self).wf(),
        ensures
            final(self).wf(),
            final(self)@ == record_spec(old(self)@, kind, handle),
    {
        if self.stage != Stage::Negotiating {
            return;
        }
        proof {
            lemma_empty_log(self.surface, handle);
            assert(self.log@ =~= Seq::empty());
        }
        match kind {
            GlobalKind::Compositor => self.compositor = handle,
            GlobalKind::Shell => self.shell = handle,
        }
    }

    /// Checks, after the registry round-trip, that both required globals
    /// were bound. On success the bindings are fixed from then on.
    pub fn finish_registry(&mut self) -> (r: Result<(), BootstrapError>)
        requires
            old(self).wf(),
            old(self)@.stage == Stage::Negotiating,
        ensures
            final(self).wf(),
            old(self)@.compositor == 0 ==> r == Err::<(), BootstrapError>(
                BootstrapError::NoCompositor,
            ),
            old(self)@.compositor != 0 && old(self)@.shell == 0 ==> r == Err::<(), BootstrapError>(
                BootstrapError::NoShell,
            ),
            old(self)@.compositor != 0 && old(self)@.shell != 0 ==> r is Ok,
            r is Ok ==> final(self)@ == (SessionView { stage: Stage::Uncreated, ..old(self)@ }),
            r is Ok ==> final(self)@.compositor != 0 && final(self)@.shell != 0,
            r is Err ==> final(self)@ == old(self)@,
    {
        if self.compositor == 0 {
            return Err(BootstrapError::NoCompositor);
        }
        if self.shell == 0 {
            return Err(BootstrapError::NoShell);
        }
        self.stage = Stage::Uncreated;
        Ok(())
    }

    /// Asks for the surface to be created from the bound compositor.
    pub fn create_surface(&mut self) -> (r: Request)
        requires
            old(self).wf(),
            old(self)@.stage == Stage::Uncreated,
        ensures
            final(self).wf(),
            r == (Request::CreateSurface { compositor: old(self)@.compositor }),
            final(self)@ == (SessionView { log: old(self)@.log.push(r), ..old(self)@ }),
    {
        let r = Request::CreateSurface { compositor: self.compositor };
        self.log = Ghost(self.log@.push(r));
        proof {
            lemma_push_other(old(self).log@, self.surface, self.configures@, r);
            lemma_push_no_handshake(old(self).log@, r);
            lemma_push_not_current(old(self).log@, r, self.surface, self.native_window, self.drawable, self.context);
            reveal(surfaces_from);
            let l = self.log@;
            assert forall|i: int| 0 <= i < l.len() && (#[trigger] l[i]) is CreateSurface implies l[i]
                == (Request::CreateSurface { compositor: self.compositor }) by {
                if i < l.len() - 1 {
                    assert(l[i] == old(self).log@[i]);
                }
            }
        }
        r
    }

    /// Takes the surface handle the compositor handed back and asks for it
    /// to be wrapped in a shell surface.
    pub fn surface_created(&mut self, handle: u64) -> (r: Result<Request, BootstrapError>)
        requires
            old(self).wf(),
            old(self)@.stage == Stage::Uncreated,
        ensures
            final(self).wf(),
            handle == 0 ==> r == Err::<Request, BootstrapError>(
                BootstrapError::NullHandle(HandleKind::Surface),
            ) && final(self)@ == old(self)@,
            handle != 0 ==> r == Ok::<Request, BootstrapError>(
                Request::GetShellSurface { shell: old(self)@.shell, surface: handle },
            ) && final(self)@ == (SessionView {
                surface: handle,
                stage: Stage::SurfaceCreated,
                log: old(self)@.log.push(r->Ok_0),
                ..old(self)@
            }),
    {
        if handle == 0 {
            return Err(BootstrapError::NullHandle(HandleKind::Surface));
        }
        let r = Request::GetShellSurface { shell: self.shell, surface: handle };
        proof {
            assert(self.configures@ =~= Seq::<u32>::empty());
            lemma_no_handshake(self.log@, handle);
            lemma_push_other(self.log@, handle, self.configures@, r);
            lemma_push_no_handshake(self.log@, r);
            lemma_push_not_create(self.log@, self.compositor, r);
            lemma_push_not_current(self.log@, r, self.surface, self.native_window, self.drawable, self.context);
            lemma_unpresented(self.log@.push(r), handle, self.native_window, self.drawable, self.context);
        }
        self.surface = handle;
        self.stage = Stage::SurfaceCreated;
        self.log = Ghost(self.log@.push(r));
        Ok(r)
    }

    /// Takes the shell surface handle and asks for the top-level role.
    pub fn shell_surface_created(&mut self, handle: u64) -> (r: Result<Request, BootstrapError>)
        requires
            old(self).wf(),
            old(self)@.stage == Stage::SurfaceCreated,
        ensures
            final(self).wf(),
            handle == 0 ==> r == Err::<Request, BootstrapError>(
                BootstrapError::NullHandle(HandleKind::ShellSurface),
            ) && final(self)@ == old(self)@,
            handle != 0 ==> r == Ok::<Request, BootstrapError>(
                Request::GetToplevel { shell_surface: handle },
            ) && final(self)@ == (SessionView {
                shell_surface: handle,
                stage: Stage::ShellWrapped,
                log: old(self)@.log.push(r->Ok_0),
                ..old(self)@
            }),
    {
        if handle == 0 {
            return Err(BootstrapError::NullHandle(HandleKind::ShellSurface));
        }
        let r = Request::GetToplevel { shell_surface: handle };
        proof {
            lemma_push_other(self.log@, self.surface, self.configures@, r);
            lemma_push_no_handshake(self.log@, r);
            lemma_push_not_create(self.log@, self.compositor, r);
            lemma_push_not_current(self.log@, r, self.surface, self.native_window, self.drawable, self.context);
        }
        self.shell_surface = handle;
        self.stage = Stage::ShellWrapped;
        self.log = Ghost(self.log@.push(r));
        Ok(r)
    }

    /// Takes the top-level role handle, whose configure and close listeners
    /// the caller has registered, and asks for the initial commit. That
    /// commit attaches no buffer: it only requests the first configure.
    pub fn toplevel_created(&mut self, handle: u64) -> (r: Result<Request, BootstrapError>)
        requires
            old(self).wf(),
            old(self)@.stage == Stage::ShellWrapped,
        ensures
            final(self).wf(),
            handle == 0 ==> r == Err::<Request, BootstrapError>(
                BootstrapError::NullHandle(HandleKind::Toplevel),
            ) && final(self)@ == old(self)@,
            handle != 0 ==> r == Ok::<Request, BootstrapError>(
                Request::Commit { surface: old(self)@.surface },
            ) && final(self)@ == (SessionView {
                toplevel: handle,
                stage: Stage::AwaitingConfigure,
                log: old(self)@.log.push(r->Ok_0),
                ..old(self)@
            }),
    {
        if handle == 0 {
            return Err(BootstrapError::NullHandle(HandleKind::Toplevel));
        }
        let r = Request::Commit { surface: self.surface };
        proof {
            assert(self.configures@ =~= Seq::<u32>::empty());
            lemma_push_initial_commit(self.log@, self.surface);
            lemma_push_not_create(self.log@, self.compositor, r);
            lemma_push_not_current(self.log@, r, self.surface, self.native_window, self.drawable, self.context);
        }
        self.toplevel = handle;
        self.stage = Stage::AwaitingConfigure;
        self.log = Ghost(self.log@.push(r));
        Ok(r)
    }

    /// Handles one event, appending the requests it calls for to `out`.
    fn handle_event(&mut self, event: Event, out: &mut Vec<Request>)
        requires
            old(self).wf(),
        ensures
            final(self).wf(),
            final(self)@ == apply_event(old(self)@, event),
            final(self)@.log == old(self)@.log + (final(out)@.subrange(
                old(out)@.len() as int,
                final(out)@.len() as int,
            )),
            old(out)@.len() <= final(out)@.len(),
            final(out)@.subrange(0, old(out)@.len() as int) == old(out)@,
    {
        match event {
            Event::Configure { serial } => {
                if self.stage == Stage::AwaitingConfigure || self.stage == Stage::Committed
                    || self.stage == Stage::WindowRequested || self.stage == Stage::Presentable {
                    let ack = Request::AckConfigure { shell_surface: self.shell_surface, serial };
                    let commit = Request::Commit { surface: self.surface };
                    proof {
                        lemma_push_ack_commit(
                            self.log@,
                            self.surface,
                            self.configures@,
                            self.shell_surface,
                            serial,
                        );
                        lemma_push_not_current(self.log@, ack, self.surface, self.native_window, self.drawable, self.context);
                        lemma_push_not_current(self.log@.push(ack), commit, self.surface, self.native_window, self.drawable, self.context);
                        reveal(surfaces_from);
                        let l = self.log@.push(ack).push(commit);
                        assert forall|i: int| 0 <= i < l.len() && (#[trigger] l[i]) is CreateSurface implies l[i]
                            == (Request::CreateSurface { compositor: self.compositor }) by {
                            if i < self.log@.len() {
                                assert(l[i] == self.log@[i]);
                            }
                        }
                    }
                    if self.stage == Stage::AwaitingConfigure {
                        self.stage = Stage::Committed;
                    }
                    self.log = Ghost(self.log@.push(ack).push(commit));
                    self.configures = Ghost(self.configures@.push(serial));
                    let ghost before = out@;
                    out.push(ack);
                    out.push(commit);
                    assert(out@.subrange(before.len() as int, out@.len() as int) =~= seq![ack, commit]);
                    assert(out@.subrange(0, before.len() as int) =~= before);
                    assert(old(self).log@ + seq![ack, commit] =~= self.log@);
                } else {
                    proof {
                        lemma_nothing_appended(out@, self.log@);
                    }
                }
            },
            Event::ToplevelConfigure { .. } => {
                proof {
                    lemma_nothing_appended(out@, self.log@);
                }
            },
            Event::Close => {
                self.closed = true;
                proof {
                    lemma_nothing_appended(out@, self.log@);
                }
            },
        }
    }

    /// Drains the pending server messages without blocking: handles each
    /// queued event in order and returns the requests to issue, in order.
    pub fn dispatch(&mut self, events: &Vec<Event>) -> (r: Vec<Request>)
        requires
            old(self).wf(),
        ensures
            final(self).wf(),
            final(self)@ == apply_events(old(self)@, events@),
            final(self)@.log == old(self)@.log + r@,
            old(self)@.closed ==> final(self)@.closed,
            events@.len() == 0 ==> final(self)@ == old(self)@ && r@.len() == 0,
    {
        let mut out: Vec<Request> = Vec::new();
        let mut i: usize = 0;
        while i < events.len()
            invariant
                i <= events@.len(),
                self.wf(),
                self@ == apply_events(old(self)@, events@.take(i as int)),
                self.log@ == old(self).log@ + out@,
            decreases events@.len() - i,
        {
            let ghost before = out@;
            self.handle_event(events[i], &mut out);
            proof {
                assert(events@.take(i as int + 1).drop_last() =~= events@.take(i as int));
                let added = out@.subrange(before.len() as int, out@.len() as int);
                assert(out@ =~= before + added);
                assert(self.log@ =~= old(self).log@ + out@);
            }
            i = i + 1;
        }
        proof {
            assert(events@.take(events@.len() as int) =~= events@);
            lemma_closed_stays(old(self)@, events@);
            if events@.len() == 0 {
                assert(old(self).log@ + out@ =~= old(self).log@ + Seq::empty());
                assert(out@.len() == (old(self).log@ + out@).len() - old(self).log@.len());
            }
        }
        out
    }

    /// Asks for the native window of the surface, at the fixed window size,
    /// once a configure has been acknowledged and committed.
    pub fn request_native_window(&mut self) -> (r: Request)
        requires
            old(self).wf(),
            old(self)@.stage == Stage::Committed,
        ensures
            final(self).wf(),
            r == window_request(old(self)@.surface),
            final(self)@ == (SessionView {
                stage: Stage::WindowRequested,
                log: old(self)@.log.push(r),
                ..old(self)@
            }),
    {
        let r = Request::CreateNativeWindow {
            surface: self.surface,
            width: WINDOW_WIDTH,
            height: WINDOW_HEIGHT,
        };
        proof {
            lemma_push_other(self.log@, self.surface, self.configures@, r);
            lemma_push_not_create(self.log@, self.compositor, r);
            lemma_push_not_current(self.log@, r, self.surface, self.native_window, self.drawable, self.context);
        }
        self.stage = Stage::WindowRequested;
        self.log = Ghost(self.log@.push(r));
        r
    }

    /// Checks the native window, the drawable surface made from it and the
    /// rendering context, and asks for the context to be made current on
    /// that drawable. The surface is then presentable.
    pub fn bind_presentation(&mut self, native_window: u64, drawable: u64, context: u64) -> (r:
        Result<Request, BootstrapError>)
        requires
            old(self).wf(),
            old(self)@.stage == Stage::WindowRequested,
        ensures
            final(self).wf(),
            native_window == 0 ==> r == Err::<Request, BootstrapError>(
                BootstrapError::NullHandle(HandleKind::NativeWindow),
            ),
            native_window != 0 && drawable == 0 ==> r == Err::<Request, BootstrapError>(
                BootstrapError::NullHandle(HandleKind::Drawable),
            ),
            native_window != 0 && drawable != 0 && context == 0 ==> r == Err::<
                Request,
                BootstrapError,
            >(BootstrapError::NullHandle(HandleKind::Context)),
            r is Err ==> final(self)@ == old(self)@,
            native_window != 0 && drawable != 0 && context != 0 ==> r == Ok::<
                Request,
                BootstrapError,
            >(Request::MakeCurrent { native_window, drawable, context }) && final(self)@ == (
            SessionView {
                native_window,
                drawable,
                context,
                stage: Stage::Presentable,
                log: old(self)@.log.push(r->Ok_0),
                ..old(self)@
            }),
    {
        if native_window == 0 {
            return Err(BootstrapError::NullHandle(HandleKind::NativeWindow));
        }
        if drawable == 0 {
            return Err(BootstrapError::NullHandle(HandleKind::Drawable));
        }
        if context == 0 {
            return Err(BootstrapError::NullHandle(HandleKind::Context));
        }
        let r = Request::MakeCurrent { native_window, drawable, context };
        proof {
            lemma_push_other(self.log@, self.surface, self.configures@, r);
            lemma_push_not_create(self.log@, self.compositor, r);
            lemma_push_current(self.log@, self.surface, native_window, drawable, context);
        }
        self.native_window = native_window;
        self.drawable = drawable;
        self.context = context;
        self.stage = Stage::Presentable;
        self.log = Ghost(self.log@.push(r));
        Ok(r)
    }

    pub fn display(&self) -> (r: u64)
        ensures
            r == self@.display,
    {
        self.display
    }

    pub fn compositor(&self) -> (r: u64)
        ensures
            r == self@.compositor,
    {
        self.compositor
    }

    pub fn shell(&self) -> (r: u64)
        ensures
            r == self@.shell,
    {
        self.shell
    }

    pub fn surface(&self) -> (r: u64)
        ensures
            r == self@.surface,
    {
        self.surface
    }

    pub fn shell_surface(&self) -> (r: u64)
        ensures
            r == self@.shell_surface,
    {
        self.shell_surface
    }

    pub fn toplevel(&self) -> (r: u64)
        ensures
            r == self@.toplevel,
    {
        self.toplevel
    }

    pub fn native_window(&self) -> (r: u64)
        ensures
            r == self@.native_window,
    {
        self.native_window
    }

    pub fn drawable(&self) -> (r: u64)
        ensures
            r == self@.drawable,
    {
        self.drawable
    }

    pub fn context(&self) -> (r: u64)
        ensures
            r == self@.context,
    {
        self.context
    }

    pub fn stage(&self) -> (r: Stage)
        ensures
            r == self@.stage,
    {
        self.stage
    }

    /// Whether the user asked for the window to close.
    pub fn is_closed(&self) -> (r: bool)
        ensures
            r == self@.closed,
    {
        self.closed
    }

    /// Decides the frame loop's turn after a drain: draw and present only
    /// once the context is current, and exit without drawing once the close
    /// flag is set.
    pub fn next_action(&self) -> (r: LoopAction)
        ensures
            r == frame_action(self@),
    {
        if self.closed || self.stage != Stage::Presentable {
            LoopAction::Exit
        } else {
            LoopAction::RenderAndPresent
        }
    }
}

/// The session after the handle of a bound global has been recorded.
pub open spec fn record_spec(s: SessionView, kind: GlobalKind, handle: u64) -> SessionView {
    if s.stage != Stage::Negotiating {
        s
    } else if kind == GlobalKind::Compositor {
        SessionView { compositor: handle, ..s }
    } else {
        SessionView { shell: handle, ..s }
    }
}

/// The session after each advertisement, an interface identifier with the
/// handle that binding it gave, has been classified and, where it names a
/// required global, recorded.
pub open spec fn enumerate_spec(s: SessionView, adverts: Seq<(Seq<u8>, u64)>) -> SessionView
    decreases adverts.len(),
{
    if adverts.len() == 0 {
        s
    } else {
        let before = enumerate_spec(s, adverts.drop_last());
        match crate::registry::kind_of(adverts.last().0) {
            Some(kind) => record_spec(before, kind, adverts.last().1),
            None => before,
        }
    }
}

/// After the registry round-trip, starting from a fresh session: the
/// compositor is bound exactly when some advertisement names it and the
/// last one to do so gave a non-null handle, and likewise the shell. So
/// when both are advertised and bound the check succeeds, and when the
/// shell is never advertised it reports the missing shell.
pub proof fn lemma_enumeration(s: SessionView, adverts: Seq<(Seq<u8>, u64)>)
    requires
        s.stage == Stage::Negotiating,
        s.compositor == 0,
        s.shell == 0,
    ensures
        enumerate_spec(s, adverts).stage == Stage::Negotiating,
        (forall|i: int|
            0 <= i < adverts.len() && adverts[i].0 == crate::registry::compositor_interface()
                ==> adverts[i].1 != 0) && (exists|i: int|
            0 <= i < adverts.len() && adverts[i].0 == crate::registry::compositor_interface())
            ==> enumerate_spec(s, adverts).compositor != 0,
        (forall|i: int|
            0 <= i < adverts.len() && adverts[i].0 == crate::registry::shell_interface() ==> adverts[i].1
                != 0) && (exists|i: int|
            0 <= i < adverts.len() && adverts[i].0 == crate::registry::shell_interface())
            ==> enumerate_spec(s, adverts).shell != 0,
        (forall|i: int|
            0 <= i < adverts.len() ==> adverts[i].0 != crate::registry::compositor_interface())
            ==> enumerate_spec(s, adverts).compositor == 0,
        (forall|i: int| 0 <= i < adverts.len() ==> adverts[i].0 != crate::registry::shell_interface())
            ==> enumerate_spec(s, adverts).shell == 0,
    decreases adverts.len(),
{
    if adverts.len() > 0 {
        let d = adverts.drop_last();
        let n = adverts.len() - 1;
        lemma_enumeration(s, d);
        assert forall|i: int| 0 <= i < d.len() implies d[i] == adverts[i] by {}
        assert(crate::registry::compositor_interface() != crate::registry::shell_interface()) by {
            assert(crate::registry::compositor_interface().len() != crate::registry::shell_interface().len());
        }
        if exists|i: int| 0 <= i < adverts.len() && adverts[i].0 == crate::registry::compositor_interface() {
            if adverts[n].0 != crate::registry::compositor_interface() {
                let i = choose|i: int| 0 <= i < adverts.len() && adverts[i].0 == crate::registry::compositor_interface();
                assert(d[i] == adverts[i]);
            }
        }
        if exists|i: int| 0 <= i < adverts.len() && adverts[i].0 == crate::registry::shell_interface() {
            if adverts[n].0 != crate::registry::shell_interface() {
                let i = choose|i: int| 0 <= i < adverts.len() && adverts[i].0 == crate::registry::shell_interface();
                assert(d[i] == adverts[i]);
            }
        }
    }
}

/// In every well-formed session, each surface creation was requested from
/// the bound compositor, and both the compositor and the shell were bound
/// (non-null) when it was.
pub proof fn lemma_bindings_precede_surface(s: SessionView)
    requires
        s.wf(),
    ensures
        forall|i: int|
            0 <= i < s.log.len() && (#[trigger] s.log[i]) is CreateSurface ==> s.log[i] == (
            Request::CreateSurface { compositor: s.compositor }) && s.compositor != 0 && s.shell
                != 0,
{
    reveal(surfaces_from);
}

/// In every well-formed session, each configure serial received is
/// acknowledged, in order of receipt, and each acknowledgment is directly
/// followed by the commit of the surface; every other commit is the
/// initial one, right after the role assignment.
pub proof fn lemma_ack_precedes_commit(s: SessionView)
    requires
        s.wf(),
    ensures
        ack_serials(s.log) == s.configures,
        forall|i: int|
            0 <= i < s.log.len() && (#[trigger] s.log[i]) is AckConfigure ==> i + 1 < s.log.len()
                && s.log[i + 1] == (Request::Commit { surface: s.surface }),
        forall|i: int|
            0 <= i < s.log.len() && (#[trigger] s.log[i]) is Commit ==> i > 0 && (s.log[i
                - 1] is AckConfigure || s.log[i - 1] is GetToplevel),
{
    reveal(handshake_ordered);
}

/// In every well-formed session, the frame loop draws only once the context
/// has been made current, and then exactly once: on the drawable of the
/// native window requested for the session's surface at the fixed size.
pub proof fn lemma_current_before_frames(s: SessionView)
    requires
        s.wf(),
    ensures
        frame_action(s) == LoopAction::RenderAndPresent ==> exists|m: int|
            0 <= m < s.log.len() && s.log[m] == (Request::MakeCurrent {
                native_window: s.native_window,
                drawable: s.drawable,
                context: s.context,
            }) && exists|k: int| 0 <= k < m && s.log[k] == window_request(s.surface),
        forall|i: int, j: int|
            0 <= i < s.log.len() && 0 <= j < s.log.len() && (#[trigger] s.log[i]) is MakeCurrent
                && (#[trigger] s.log[j]) is MakeCurrent ==> i == j,
{
    reveal(current_once);
    reveal(made_current);
    if frame_action(s) == LoopAction::RenderAndPresent {
        let m = choose|m: int| 0 <= m < s.log.len() && (#[trigger] s.log[m]) is MakeCurrent;
        assert(s.log[m] is MakeCurrent);
    }
}

/// From a presentable session, a drain decides the loop's next turn by the
/// close notifications alone: with none among the events the frame is drawn
/// and presented, with one the loop exits before drawing.
pub proof fn lemma_turn_after_drain(s: SessionView, events: Seq<Event>)
    requires
        s.stage == Stage::Presentable,
    ensures
        !s.closed && (forall|i: int| 0 <= i < events.len() ==> events[i] != Event::Close)
            ==> frame_action(apply_events(s, events)) == LoopAction::RenderAndPresent,
        (exists|i: int| 0 <= i < events.len() && events[i] == Event::Close) ==> frame_action(
            apply_events(s, events),
        ) == LoopAction::Exit,
        apply_events(s, events).stage == Stage::Presentable,
    decreases events.len(),
{
    if events.len() > 0 {
        let d = events.drop_last();
        lemma_turn_after_drain(s, d);
        assert forall|i: int| 0 <= i < d.len() implies d[i] == events[i] by {}
        if exists|i: int| 0 <= i < events.len() && events[i] == Event::Close {
            let i = choose|i: int| 0 <= i < events.len() && events[i] == Event::Close;
            if i < d.len() {
                assert(d[i] == events[i]);
            }
        }
    }
}

/// Draining an empty queue changes nothing.
pub proof fn lemma_empty_drain(s: SessionView)
    ensures
        apply_events(s, Seq::empty()) == s,
{
}

/// Once the close flag is set, no sequence of events clears it, and every
/// later turn of the frame loop exits without invoking the frame callback.
pub proof fn lemma_closed_stays(s: SessionView, events: Seq<Event>)
    ensures
        s.closed ==> apply_events(s, events).closed,
        s.closed ==> frame_action(apply_events(s, events)) == LoopAction::Exit,
    decreases events.len(),
{
    if events.len() > 0 {
        lemma_closed_stays(s, events.drop_last());
    }
}

} // verus!
