//! Translation of OS signals into engine currency. The embedding program
//! catches the signals; the mapping from signal to event, and the names a
//! descriptor may use, are decided here.
use crate::formats::Event;
use vstd::prelude::*;

verus! {

/// Signal number of `SIGCHLD`, the one signal the reaper counts.
pub const SIGCHLD: i32 = 17;

/// Signal number of `SIGKILL`, sent when a grace period elapses.
pub const SIGKILL: u8 = 9;

/// `s` and the literal `lit` hold the same characters.
fn eq_lit(s: &String, lit: &str) -> (r: bool)
    ensures
        r == (s@ == lit@),
{
    *s == String::from_str(lit)
}

/// The signal numbers the engine can send, by name.
pub open spec fn signal_number_spec(name: Seq<char>) -> Option<u8> {
    if name == "HUP"@ {
        Some(1u8)
    } else if name == "INT"@ {
        Some(2u8)
    } else if name == "QUIT"@ {
        Some(3u8)
    } else if name == "KILL"@ {
        Some(9u8)
    } else if name == "USR1"@ {
        Some(10u8)
    } else if name == "USR2"@ {
        Some(12u8)
    } else if name == "ALRM"@ {
        Some(14u8)
    } else if name == "TERM"@ {
        Some(15u8)
    } else if name == "CONT"@ {
        Some(18u8)
    } else if name == "STOP"@ {
        Some(19u8)
    } else {
        None
    }
}

/// Resolves a termination signal name to its number; `None` for a name
/// the engine does not know.
pub fn signal_number(name: &String) -> (r: Option<u8>)
    ensures
        r == signal_number_spec(name@),
{
    if eq_lit(name, "HUP") {
        Some(1)
    } else if eq_lit(name, "INT") {
        Some(2)
    } else if eq_lit(name, "QUIT") {
        Some(3)
    } else if eq_lit(name, "KILL") {
        Some(9)
    } else if eq_lit(name, "USR1") {
        Some(10)
    } else if eq_lit(name, "USR2") {
        Some(12)
    } else if eq_lit(name, "ALRM") {
        Some(14)
    } else if eq_lit(name, "TERM") {
        Some(15)
    } else if eq_lit(name, "CONT") {
        Some(18)
    } else if eq_lit(name, "STOP") {
        Some(19)
    } else {
        None
    }
}

/// The default termination signal is a known one.
pub proof fn lemma_term_signal_known()
    ensures
        signal_number_spec("TERM"@) == Some(15u8),
{
    reveal_strlit("HUP");
    reveal_strlit("INT");
    reveal_strlit("QUIT");
    reveal_strlit("KILL");
    reveal_strlit("USR1");
    reveal_strlit("USR2");
    reveal_strlit("ALRM");
    reveal_strlit("TERM");
    assert("TERM"@.len() == 4 && "HUP"@.len() == 3 && "INT"@.len() == 3);
    assert("TERM"@ != "HUP"@);
    assert("TERM"@ != "INT"@);
    assert("TERM"@ != "QUIT"@) by {
        assert("TERM"@[0] == 'T' && "QUIT"@[0] == 'Q');
    }
    assert("TERM"@ != "KILL"@) by {
        assert("TERM"@[0] == 'T' && "KILL"@[0] == 'K');
    }
    assert("TERM"@ != "USR1"@) by {
        assert("TERM"@[0] == 'T' && "USR1"@[0] == 'U');
    }
    assert("TERM"@ != "USR2"@) by {
        assert("TERM"@[0] == 'T' && "USR2"@[0] == 'U');
    }
    assert("TERM"@ != "ALRM"@) by {
        assert("TERM"@[0] == 'T' && "ALRM"@[0] == 'A');
    }
}

/// The signals that request shutdown: `SIGINT`, `SIGQUIT`, `SIGTERM`.
pub open spec fn is_shutdown_signal(sig: int) -> bool {
    sig == 2 || sig == 3 || sig == 15
}

/// The event a caught signal turns into: a shutdown request for
/// `SIGINT`, `SIGQUIT` and `SIGTERM`, nothing for any other signal.
/// `SIGCHLD` is not an event: it only bumps the reaper's counter.
pub fn event_for_signal(sig: i32) -> (r: Option<Event>)
    ensures
        is_shutdown_signal(sig as int) ==> r == Some(Event::ShutdownRequested),
        !is_shutdown_signal(sig as int) ==> r is None,
{
    if sig == 2 || sig == 3 || sig == 15 {
        Some(Event::ShutdownRequested)
    } else {
        None
    }
}

} // verus!
