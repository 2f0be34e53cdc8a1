use my_cava::control::{
    end_program_through_worker, init_atomicbool, is_default_sink, quits, raises_flag, KeyCode,
    TerminalEvent,
};
use my_cava::flag::FlagHandle;
use std::sync::atomic::Ordering;
use std::sync::Arc;

#[test]
fn flag_starts_lowered() {
    assert!(!init_atomicbool().load(Ordering::Relaxed));
}

#[test]
fn leaving_the_screen_raises_the_flag() {
    let flag = init_atomicbool();
    let result: Result<(), String> = end_program_through_worker(&mut FlagHandle::new(Arc::clone(&flag)), || Ok(()));
    assert_eq!(result, Ok(()));
    assert!(flag.load(Ordering::Relaxed));
}

#[test]
fn failing_to_leave_the_screen_keeps_the_flag() {
    let flag = init_atomicbool();
    let result = end_program_through_worker(&mut FlagHandle::new(Arc::clone(&flag)), || Err("no terminal".to_string()));
    assert_eq!(result, Err("no terminal".to_string()));
    assert!(!flag.load(Ordering::Relaxed));
}

#[test]
fn only_success_raises_the_flag() {
    assert!(raises_flag(&Ok::<(), u8>(())));
    assert!(!raises_flag(&Err::<(), u8>(1)));
}

#[test]
fn flags_are_separate() {
    let (one, two) = (init_atomicbool(), init_atomicbool());
    let result: Result<(), u8> = end_program_through_worker(&mut FlagHandle::new(Arc::clone(&one)), || Ok(()));
    assert_eq!(result, Ok(()));
    assert!(one.load(Ordering::Relaxed));
    assert!(!two.load(Ordering::Relaxed));
}

#[test]
fn handles_share_the_flag() {
    let flag = init_atomicbool();
    let mut one = FlagHandle::new(Arc::clone(&flag));
    let mut two = FlagHandle::new(Arc::clone(&flag));
    one.store(true);
    assert!(flag.load(Ordering::Relaxed));
    two.store(false);
    assert!(!flag.load(Ordering::Relaxed));
}

#[test]
fn only_q_quits() {
    assert!(quits(Some(TerminalEvent::Key(KeyCode::Char('q')))));
    assert!(!quits(Some(TerminalEvent::Key(KeyCode::Char('Q')))));
    assert!(!quits(Some(TerminalEvent::Key(KeyCode::Other))));
    assert!(!quits(Some(TerminalEvent::Other)));
    assert!(!quits(None));
}

#[test]
fn only_the_default_sink_is_chosen() {
    assert!(is_default_sink(Some("default_sink".to_string())));
    assert!(!is_default_sink(Some("default_sink2".to_string())));
    assert!(!is_default_sink(Some(String::new())));
    assert!(!is_default_sink(None));
}
