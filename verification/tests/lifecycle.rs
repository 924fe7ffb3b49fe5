use ruhear::encoding::NativeSampleEncoding;
use ruhear::lifecycle::{BackendAction, CaptureError, CaptureSession, LifecycleState};
use ruhear::shape::SourceLayout;

fn fresh() -> CaptureSession {
    CaptureSession::new(
        Some(NativeSampleEncoding::Float32),
        SourceLayout::Interleaved { channel_count: 2 },
    )
}

#[test]
fn stop_before_start_reports_nothing_to_stop() {
    let mut session = fresh();
    assert_eq!(session.state(), LifecycleState::Idle);
    assert_eq!(session.stop(), Err(CaptureError::NothingToStop));
    assert_eq!(session.state(), LifecycleState::Idle);
}

#[test]
fn start_acquires_then_runs() {
    let mut session = fresh();
    assert_eq!(session.start(), Ok(BackendAction::AcquireStream));
    assert_eq!(session.state(), LifecycleState::Starting);
    assert_eq!(session.confirm_start(true), Ok(()));
    assert_eq!(session.state(), LifecycleState::Running);
}

#[test]
fn second_start_is_idempotent() {
    let mut session = fresh();
    assert_eq!(session.start(), Ok(BackendAction::AcquireStream));
    session.confirm_start(true).unwrap();
    // no second stream: the running session asks for no native action
    assert_eq!(session.start(), Ok(BackendAction::NoAction));
    assert_eq!(session.state(), LifecycleState::Running);
}

#[test]
fn stop_releases_then_idles_and_is_reusable() {
    let mut session = fresh();
    session.start().unwrap();
    session.confirm_start(true).unwrap();
    assert_eq!(session.stop(), Ok(BackendAction::ReleaseStream));
    assert_eq!(session.state(), LifecycleState::Stopping);
    assert_eq!(session.confirm_stop(true), Ok(()));
    assert_eq!(session.state(), LifecycleState::Idle);
    assert_eq!(session.stop(), Err(CaptureError::NothingToStop));
    assert_eq!(session.start(), Ok(BackendAction::AcquireStream));
}

#[test]
fn unsupported_encoding_fails_construction_and_never_runs() {
    let mut session = CaptureSession::new(None, SourceLayout::Interleaved { channel_count: 2 });
    assert_eq!(
        session.state(),
        LifecycleState::Failed(CaptureError::Configuration)
    );
    assert_eq!(session.start(), Err(CaptureError::Configuration));
    assert!(session.state() != LifecycleState::Running);
    assert_eq!(session.stop(), Err(CaptureError::Configuration));
}

#[test]
fn failed_acquisition_surfaces_and_sticks() {
    let mut session = fresh();
    session.start().unwrap();
    assert_eq!(
        session.confirm_start(false),
        Err(CaptureError::StreamAcquisition)
    );
    assert_eq!(
        session.state(),
        LifecycleState::Failed(CaptureError::StreamAcquisition)
    );
    assert_eq!(session.start(), Err(CaptureError::StreamAcquisition));
}

#[test]
fn failed_release_moves_to_failed() {
    let mut session = fresh();
    session.start().unwrap();
    session.confirm_start(true).unwrap();
    session.stop().unwrap();
    assert_eq!(session.confirm_stop(false), Err(CaptureError::StreamRelease));
    assert_eq!(
        session.state(),
        LifecycleState::Failed(CaptureError::StreamRelease)
    );
}

#[test]
fn asynchronous_fault_is_observable_on_next_call() {
    let mut session = fresh();
    session.start().unwrap();
    session.confirm_start(true).unwrap();
    session.report_stream_fault();
    assert_eq!(
        session.state(),
        LifecycleState::Failed(CaptureError::StreamFault)
    );
    assert_eq!(session.start(), Err(CaptureError::StreamFault));
    assert_eq!(session.stop(), Err(CaptureError::StreamFault));
}

#[test]
fn fault_keeps_its_first_cause() {
    let mut session = CaptureSession::new(None, SourceLayout::PerChannelBuffers {
        channel_count: 1,
    });
    session.report_stream_fault();
    assert_eq!(
        session.state(),
        LifecycleState::Failed(CaptureError::Configuration)
    );
}

#[test]
fn session_keeps_its_configuration() {
    let session = CaptureSession::new(
        Some(NativeSampleEncoding::Int16),
        SourceLayout::PerChannelBuffers { channel_count: 4 },
    );
    assert_eq!(session.encoding(), NativeSampleEncoding::Int16);
    assert_eq!(
        session.layout(),
        SourceLayout::PerChannelBuffers { channel_count: 4 }
    );
}

#[test]
fn session_shapes_with_its_own_configuration() {
    let session = CaptureSession::new(
        Some(NativeSampleEncoding::Int16),
        SourceLayout::Interleaved { channel_count: 2 },
    );
    let bytes: Vec<u8> = vec![0xE8, 0x03, 0x18, 0xFC];
    let out = session.shape(&vec![bytes]);
    assert_eq!(out.len(), 2);
    assert!((f32::from_bits(out[0][0]) - 1000.0 / 32767.0).abs() < 1e-6);
    assert!((f32::from_bits(out[1][0]) + 1000.0 / 32767.0).abs() < 1e-6);
}

#[test]
fn stop_while_starting_is_a_pending_transition() {
    let mut session = fresh();
    session.start().unwrap();
    assert_eq!(session.stop(), Err(CaptureError::TransitionPending));
    assert_eq!(session.state(), LifecycleState::Starting);
}
