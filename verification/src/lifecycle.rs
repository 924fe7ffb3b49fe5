//! The capture lifecycle state machine.
//!
//! A `CaptureSession` owns the decision logic of `start`/`stop`: it validates
//! the configuration the backend reported, enforces the state transitions,
//! and tells the backend which native action to perform (acquire or release
//! the stream). The backend performs the action and reports the outcome
//! through `confirm_start`/`confirm_stop`; asynchronous stream faults arrive
//! through `report_stream_fault`.

use vstd::prelude::*;

use crate::encoding::NativeSampleEncoding;
use crate::shape::SourceLayout;

verus! {

/// Errors surfaced by the capture lifecycle.
#[derive(Clone, Copy, Debug, PartialEq, Eq, Structural)]
pub enum CaptureError {
    /// No usable device/format, or the backend reported a sample encoding
    /// outside the supported set.
    Configuration,
    /// `stop` was called while no stream was active.
    NothingToStop,
    /// `start` or `stop` was called while the opposite transition was still
    /// being confirmed.
    TransitionPending,
    /// The native layer failed to acquire the stream.
    StreamAcquisition,
    /// The native layer failed to release the stream.
    StreamRelease,
    /// The native layer reported an asynchronous stream fault.
    StreamFault,
}

/// The lifecycle states of a capture session.
#[derive(Clone, Copy, Debug, PartialEq, Eq, Structural)]
pub enum LifecycleState {
    /// Constructed or cleanly stopped; no native stream is held.
    Idle,
    /// `start` was accepted; the backend is acquiring the native stream.
    Starting,
    /// The native stream is live.
    Running,
    /// `stop` was accepted; the backend is releasing the native stream.
    Stopping,
    /// A fatal error occurred; the session does not self-heal.
    Failed(CaptureError),
}

/// The native action a backend must perform after `start`/`stop` accepted.
#[derive(Clone, Copy, Debug, PartialEq, Eq, Structural)]
pub enum BackendAction {
    /// Build and attach the native stream, then begin capture.
    AcquireStream,
    /// Release the native stream.
    ReleaseStream,
    /// Nothing to do (the request was an idempotent no-op).
    NoAction,
}

/// One lifecycle-managed attachment to a native audio stream, from
/// construction to final teardown.
pub struct CaptureSession {
    state: LifecycleState,
    encoding: NativeSampleEncoding,
    layout: SourceLayout,
    stream_attached: bool,
}

impl CaptureSession {
    /// A session is well formed when it holds a native stream exactly in the
    /// states where one can be live.
    pub closed spec fn wf(self) -> bool {
        self.stream_attached <==> (self.state == LifecycleState::Running
            || self.state == LifecycleState::Stopping)
    }

    pub closed spec fn spec_state(self) -> LifecycleState {
        self.state
    }

    pub closed spec fn spec_encoding(self) -> NativeSampleEncoding {
        self.encoding
    }

    pub closed spec fn spec_layout(self) -> SourceLayout {
        self.layout
    }

    pub closed spec fn spec_stream_attached(self) -> bool {
        self.stream_attached
    }

    /// Creates a session from what the device/format probe reported.
    ///
    /// A backend that cannot map the native format onto the supported
    /// encoding set passes `None`: the session is then constructed already
    /// failed with a configuration error, and can never start.
    pub fn new(reported: Option<NativeSampleEncoding>, layout: SourceLayout) -> (s: CaptureSession)
        ensures
            s.wf(),
            !s.spec_stream_attached(),
            s.spec_layout() == layout,
            reported is Some ==> s.spec_state() == LifecycleState::Idle
                && s.spec_encoding() == reported->0,
            reported is None ==> s.spec_state()
                == LifecycleState::Failed(CaptureError::Configuration),
    {
        match reported {
            Some(encoding) => CaptureSession {
                state: LifecycleState::Idle,
                encoding,
                layout,
                stream_attached: false,
            },
            None => CaptureSession {
                state: LifecycleState::Failed(CaptureError::Configuration),
                encoding: NativeSampleEncoding::Float32,
                layout,
                stream_attached: false,
            },
        }
    }

    /// Requests capture to start.
    ///
    /// From `Idle` the session moves to `Starting` and the backend must
    /// acquire the stream. While `Starting` or `Running` the request is
    /// idempotent: no second stream is created. A failed session reports its
    /// fault instead of starting.
    pub fn start(&mut self) -> (r: Result<BackendAction, CaptureError>)
        requires
            old(self).wf(),
        ensures
            final(self).wf(),
            start_transition(*old(self), *final(self), r),
            final(self).spec_encoding() == old(self).spec_encoding(),
            final(self).spec_layout() == old(self).spec_layout(),
            final(self).spec_stream_attached() == old(self).spec_stream_attached(),
            old(self).spec_state() == LifecycleState::Idle ==> r == Ok::<_, CaptureError>(
                BackendAction::AcquireStream,
            ) && final(self).spec_state() == LifecycleState::Starting,
            old(self).spec_state() == LifecycleState::Starting || old(self).spec_state()
                == LifecycleState::Running ==> r == Ok::<_, CaptureError>(BackendAction::NoAction)
                && final(self).spec_state() == old(self).spec_state(),
            old(self).spec_state() == LifecycleState::Stopping ==> r == Err::<BackendAction, _>(
                CaptureError::TransitionPending,
            ) && final(self).spec_state() == old(self).spec_state(),
            (forall|e: CaptureError|
                old(self).spec_state() == LifecycleState::Failed(e) ==> r == Err::<
                    BackendAction,
                    _,
                >(e) && final(self).spec_state() == old(self).spec_state()),
    {
        match self.state {
            LifecycleState::Idle => {
                self.state = LifecycleState::Starting;
                Ok(BackendAction::AcquireStream)
            },
            LifecycleState::Starting => Ok(BackendAction::NoAction),
            LifecycleState::Running => Ok(BackendAction::NoAction),
            LifecycleState::Stopping => Err(CaptureError::TransitionPending),
            LifecycleState::Failed(e) => Err(e),
        }
    }

    /// Reports the outcome of the stream acquisition that `start` requested.
    ///
    /// Success moves the session to `Running` with the stream attached;
    /// failure moves it to `Failed` and surfaces the acquisition error.
    pub fn confirm_start(&mut self, acquired: bool) -> (r: Result<(), CaptureError>)
        requires
            old(self).wf(),
            old(self).spec_state() == LifecycleState::Starting,
        ensures
            final(self).wf(),
            final(self).spec_encoding() == old(self).spec_encoding(),
            final(self).spec_layout() == old(self).spec_layout(),
            acquired ==> r == Ok::<(), CaptureError>(()) && final(self).spec_state()
                == LifecycleState::Running && final(self).spec_stream_attached(),
            !acquired ==> r == Err::<(), _>(CaptureError::StreamAcquisition) && final(self).spec_state() == LifecycleState::Failed(CaptureError::StreamAcquisition) && !final(self).spec_stream_attached(),
    {
        if acquired {
            self.state = LifecycleState::Running;
            self.stream_attached = true;
            Ok(())
        } else {
            self.state = LifecycleState::Failed(CaptureError::StreamAcquisition);
            Err(CaptureError::StreamAcquisition)
        }
    }

    /// Requests capture to stop.
    ///
    /// From `Running` the session moves to `Stopping` and the backend must
    /// release the stream. Stopping a session that never started (or already
    /// stopped) is diagnosable: it returns `NothingToStop`, not silent
    /// success. A failed session reports its fault.
    pub fn stop(&mut self) -> (r: Result<BackendAction, CaptureError>)
        requires
            old(self).wf(),
        ensures
            final(self).wf(),
            stop_transition(*old(self), *final(self), r),
            final(self).spec_encoding() == old(self).spec_encoding(),
            final(self).spec_layout() == old(self).spec_layout(),
            final(self).spec_stream_attached() == old(self).spec_stream_attached(),
            old(self).spec_state() == LifecycleState::Running ==> r == Ok::<_, CaptureError>(
                BackendAction::ReleaseStream,
            ) && final(self).spec_state() == LifecycleState::Stopping,
            old(self).spec_state() == LifecycleState::Idle ==> r == Err::<BackendAction, _>(
                CaptureError::NothingToStop,
            ) && final(self).spec_state() == old(self).spec_state(),
            old(self).spec_state() == LifecycleState::Starting || old(self).spec_state()
                == LifecycleState::Stopping ==> r == Err::<BackendAction, _>(
                CaptureError::TransitionPending,
            ) && final(self).spec_state() == old(self).spec_state(),
            (forall|e: CaptureError|
                old(self).spec_state() == LifecycleState::Failed(e) ==> r == Err::<
                    BackendAction,
                    _,
                >(e) && final(self).spec_state() == old(self).spec_state()),
    {
        match self.state {
            LifecycleState::Running => {
                self.state = LifecycleState::Stopping;
                Ok(BackendAction::ReleaseStream)
            },
            LifecycleState::Idle => Err(CaptureError::NothingToStop),
            LifecycleState::Starting => Err(CaptureError::TransitionPending),
            LifecycleState::Stopping => Err(CaptureError::TransitionPending),
            LifecycleState::Failed(e) => Err(e),
        }
    }

    /// Reports the outcome of the stream release that `stop` requested.
    ///
    /// The stream handle is gone either way; on success the session returns
    /// to `Idle` (reusable), on failure it moves to `Failed`.
    pub fn confirm_stop(&mut self, released: bool) -> (r: Result<(), CaptureError>)
        requires
            old(self).wf(),
            old(self).spec_state() == LifecycleState::Stopping,
        ensures
            final(self).wf(),
            final(self).spec_encoding() == old(self).spec_encoding(),
            final(self).spec_layout() == old(self).spec_layout(),
            !final(self).spec_stream_attached(),
            released ==> r == Ok::<(), CaptureError>(()) && final(self).spec_state()
                == LifecycleState::Idle,
            !released ==> r == Err::<(), _>(CaptureError::StreamRelease) && final(self).spec_state() == LifecycleState::Failed(CaptureError::StreamRelease),
    {
        self.stream_attached = false;
        if released {
            self.state = LifecycleState::Idle;
            Ok(())
        } else {
            self.state = LifecycleState::Failed(CaptureError::StreamRelease);
            Err(CaptureError::StreamRelease)
        }
    }

    /// Records an asynchronous error the native layer reported mid-capture.
    ///
    /// The session becomes `Failed` and stays observable as such on every
    /// later `start`/`stop`; a session that already failed keeps its first
    /// fault. The native handle is considered dead.
    pub fn report_stream_fault(&mut self)
        requires
            old(self).wf(),
        ensures
            final(self).wf(),
            final(self).spec_encoding() == old(self).spec_encoding(),
            final(self).spec_layout() == old(self).spec_layout(),
            !final(self).spec_stream_attached(),
            old(self).spec_state() matches LifecycleState::Failed(_) ==> final(self).spec_state()
                == old(self).spec_state(),
            !(old(self).spec_state() matches LifecycleState::Failed(_)) ==> final(self).spec_state() == LifecycleState::Failed(CaptureError::StreamFault),
    {
        self.stream_attached = false;
        match self.state {
            LifecycleState::Failed(_) => (),
            _ => {
                self.state = LifecycleState::Failed(CaptureError::StreamFault);
            },
        }
    }

    /// Shapes one native delivery with the encoding and layout this
    /// session was configured with: the wiring of converter and shaper
    /// that every backend shares.
    pub fn shape(&self, buffers: &Vec<Vec<u8>>) -> (out: Vec<Vec<u32>>)
        ensures
            crate::shape::capture_shape_ok(
                self.spec_encoding(),
                self.spec_layout(),
                buffers@,
                out@,
            ),
    {
        crate::shape::shape_capture(self.encoding, self.layout, buffers)
    }

    /// The current lifecycle state.
    pub fn state(&self) -> (s: LifecycleState)
        ensures
            s == self.spec_state(),
    {
        self.state
    }

    /// The sample encoding selected at construction.
    pub fn encoding(&self) -> (e: NativeSampleEncoding)
        ensures
            e == self.spec_encoding(),
    {
        self.encoding
    }

    /// The source layout selected at construction.
    pub fn layout(&self) -> (l: SourceLayout)
        ensures
            l == self.spec_layout(),
    {
        self.layout
    }
}

/// Law: stopping a freshly constructed, never-started session reports
/// "nothing to stop" — it neither succeeds nor panics, and the session
/// stays idle.
pub proof fn lemma_stop_before_start_is_diagnosable(
    pre: CaptureSession,
    post: CaptureSession,
    r: Result<BackendAction, CaptureError>,
)
    requires
        pre.wf(),
        pre.spec_state() == LifecycleState::Idle,
        stop_transition(pre, post, r),
    ensures
        r == Err::<BackendAction, _>(CaptureError::NothingToStop),
        post.spec_state() == LifecycleState::Idle,
{
}

/// Law: a second `start` while a stream is already live performs no native
/// action, so no second stream can be created.
pub proof fn lemma_start_is_idempotent(
    pre: CaptureSession,
    post: CaptureSession,
    r: Result<BackendAction, CaptureError>,
)
    requires
        pre.wf(),
        pre.spec_state() == LifecycleState::Running,
        start_transition(pre, post, r),
    ensures
        r == Ok::<_, CaptureError>(BackendAction::NoAction),
        post.spec_state() == LifecycleState::Running,
        post.spec_stream_attached() == pre.spec_stream_attached(),
{
}

/// What `start` promises, as a relation between the session before and
/// after the call.
pub open spec fn start_transition(
    pre: CaptureSession,
    post: CaptureSession,
    r: Result<BackendAction, CaptureError>,
) -> bool {
    &&& post.spec_encoding() == pre.spec_encoding()
    &&& post.spec_layout() == pre.spec_layout()
    &&& post.spec_stream_attached() == pre.spec_stream_attached()
    &&& (pre.spec_state() == LifecycleState::Idle ==> r == Ok::<_, CaptureError>(
        BackendAction::AcquireStream,
    ) && post.spec_state() == LifecycleState::Starting)
    &&& (pre.spec_state() == LifecycleState::Starting || pre.spec_state()
        == LifecycleState::Running ==> r == Ok::<_, CaptureError>(BackendAction::NoAction)
        && post.spec_state() == pre.spec_state())
}

/// What `stop` promises, as a relation between the session before and
/// after the call.
pub open spec fn stop_transition(
    pre: CaptureSession,
    post: CaptureSession,
    r: Result<BackendAction, CaptureError>,
) -> bool {
    &&& post.spec_encoding() == pre.spec_encoding()
    &&& post.spec_layout() == pre.spec_layout()
    &&& post.spec_stream_attached() == pre.spec_stream_attached()
    &&& (pre.spec_state() == LifecycleState::Running ==> r == Ok::<_, CaptureError>(
        BackendAction::ReleaseStream,
    ) && post.spec_state() == LifecycleState::Stopping)
    &&& (pre.spec_state() == LifecycleState::Idle ==> r == Err::<BackendAction, _>(
        CaptureError::NothingToStop,
    ) && post.spec_state() == pre.spec_state())
}

} // verus!
