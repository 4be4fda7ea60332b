use rpc_proxy::codec::FrameError;
use rpc_proxy::session::{on_event, LoopAction, Peer, ReadEvent, Session, SessionError};

#[test]
fn clean_close_ends_loop_without_error() {
    assert_eq!(on_event(ReadEvent::FrameFailed(FrameError::UnexpectedEof)), LoopAction::End);
}

#[test]
fn framing_errors_end_the_loop() {
    assert_eq!(
        on_event(ReadEvent::FrameFailed(FrameError::Truncated)),
        LoopAction::Fail(SessionError::Framing(FrameError::Truncated))
    );
    assert_eq!(
        on_event(ReadEvent::FrameFailed(FrameError::MissingLengthHeader)),
        LoopAction::Fail(SessionError::Framing(FrameError::MissingLengthHeader))
    );
    assert_eq!(on_event(ReadEvent::MalformedJson), LoopAction::Fail(SessionError::MalformedJson));
    assert_eq!(on_event(ReadEvent::QueueClosed), LoopAction::Fail(SessionError::QueueClosed));
    assert_eq!(on_event(ReadEvent::StreamFailed), LoopAction::Fail(SessionError::Stream));
}

#[test]
fn bad_message_and_hook_failure_are_local() {
    assert_eq!(on_event(ReadEvent::InvalidShape), LoopAction::Continue);
    assert_eq!(on_event(ReadEvent::HookFailed), LoopAction::Continue);
}

#[test]
fn session_succeeds_only_when_both_loops_close_cleanly() {
    let mut s = Session::new();
    assert!(!s.is_closed());
    s.loop_ended(Peer::Client, Ok(()));
    assert!(!s.is_closed());
    s.loop_ended(Peer::Server, Ok(()));
    assert!(s.is_closed());
    assert_eq!(s.result(), Ok(()));
}

#[test]
fn session_keeps_first_failure() {
    let mut s = Session::new();
    s.loop_ended(Peer::Server, Err(SessionError::Framing(FrameError::Truncated)));
    s.loop_ended(Peer::Client, Err(SessionError::QueueClosed));
    assert!(s.is_closed());
    assert_eq!(s.result(), Err(SessionError::Framing(FrameError::Truncated)));
}
