//! What starts and ends the program.
use crate::flag::FlagHandle;
use std::sync::atomic::{AtomicBool, Ordering};
use std::sync::Arc;
use vstd::prelude::*;

verus! {

/// The flag that ends the program, made with the value `false`: not raised. The flag is shared
/// between the workers, and what it holds later is left open here.
pub fn init_atomicbool() -> (flag: Arc<AtomicBool>)
    ensures
        call_ensures(AtomicBool::new, (false,), *flag),
{
    Arc::new(AtomicBool::new(false))
}

/// Whether the flag is to be raised, by how leaving the alternate screen went: only where it
/// worked.
pub fn raises_flag<E>(left: &Result<(), E>) -> (raise: bool)
    ensures
        raise == (*left is Ok),
{
    left.is_ok()
}

/// Ends the program from a worker: leaves the alternate screen and, if that worked, raises the
/// flag. If it did not, nothing is stored in the flag and the error is returned.
pub fn end_program_through_worker<E, F: FnOnce() -> Result<(), E>>(
    shutdown_worker: &mut FlagHandle,
    exit_alternate_screen: F,
) -> (result: Result<(), E>)
    requires
        call_requires(exit_alternate_screen, ()),
    ensures
        call_ensures(exit_alternate_screen, (), result),
        final(shutdown_worker).flag() == old(shutdown_worker).flag(),
        result is Ok ==> final(shutdown_worker).stores() == old(shutdown_worker).stores().push(
            true,
        ),
        result is Ok ==> call_ensures(
            AtomicBool::store,
            (&*old(shutdown_worker).flag(), true, Ordering::Relaxed),
            (),
        ),
        result is Err ==> final(shutdown_worker).stores() == old(shutdown_worker).stores(),
{
    let result = exit_alternate_screen();
    if raises_flag(&result) {
        shutdown_worker.store(true);
    }
    result
}

/// A key of the keyboard.
#[derive(Clone, Copy, Debug, PartialEq, Eq, Structural)]
pub enum KeyCode {
    /// The key of a character.
    Char(char),
    /// Any other key.
    Other,
}

/// An event of the terminal.
#[derive(Clone, Copy, Debug, PartialEq, Eq, Structural)]
pub enum TerminalEvent {
    /// A key event.
    Key(KeyCode),
    /// Any other event.
    Other,
}

/// Whether the user asks to quit. `None` means that no event came in time.
pub fn quits(event: Option<TerminalEvent>) -> (quit: bool)
    ensures
        quit == (event == Some(TerminalEvent::Key(KeyCode::Char('q')))),
{
    match event {
        Some(TerminalEvent::Key(KeyCode::Char(ch))) => ch == 'q',
        _ => false,
    }
}

/// Whether an input device with the given name, if it has one, is the one to listen to.
pub fn is_default_sink(name: Option<String>) -> (chosen: bool)
    ensures
        chosen == (name matches Some(text) && text@ == "default_sink"@),
{
    match name {
        Some(text) => text == str::to_owned("default_sink"),
        None => false,
    }
}

/// The key of the letter q, and nothing else, ends the program.
pub proof fn law_only_q_quits(event: Option<TerminalEvent>, quit: bool)
    requires
        call_ensures(quits, (event,), quit),
    ensures
        quit <==> (event matches Some(TerminalEvent::Key(KeyCode::Char(ch))) && ch == 'q'),
{
}

/// The device named `default_sink`, and no other, is listened to.
pub proof fn law_only_the_default_sink_is_chosen(name: Option<String>, chosen: bool)
    requires
        call_ensures(is_default_sink, (name,), chosen),
    ensures
        chosen <==> (name matches Some(text) && text@ == "default_sink"@),
{
}

/// A worker that ends the program stores `true` in the flag once where leaving the screen worked,
/// and nothing where it did not. The result is that of leaving the screen.
pub proof fn law_flag_is_raised_after_leaving<E, F: FnOnce() -> Result<(), E>>(
    shutdown_worker: &mut FlagHandle,
    exit_alternate_screen: F,
    result: Result<(), E>,
)
    requires
        call_ensures(
            end_program_through_worker::<E, F>,
            (shutdown_worker, exit_alternate_screen),
            result,
        ),
    ensures
        call_ensures(exit_alternate_screen, (), result),
        final(shutdown_worker).flag() == old(shutdown_worker).flag(),
        match result {
            Ok(_) => final(shutdown_worker).stores() == old(shutdown_worker).stores() + seq![true],
            Err(_) => final(shutdown_worker).stores() == old(shutdown_worker).stores(),
        },
{
    if result is Ok {
        assert(old(shutdown_worker).stores().push(true) =~= old(shutdown_worker).stores()
            + seq![true]);
    }
}

/// The flag is to be raised exactly where leaving the screen did not fail.
pub proof fn law_failure_raises_no_flag<E>(left: &Result<(), E>, raise: bool)
    requires
        call_ensures(raises_flag::<E>, (left,), raise),
    ensures
        *left is Err <==> !raise,
{
}

/// A new flag is made with the value `false`.
pub proof fn law_flag_starts_lowered(flag: Arc<AtomicBool>)
    requires
        call_ensures(init_atomicbool, (), flag),
    ensures
        call_ensures(AtomicBool::new, (false,), *flag),
{
}

} // verus!
