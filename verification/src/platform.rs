//! What the engine keeps of its links to the outside: where the simulated
//! platform listens, where the log goes, and the signal of an interruption.
use vstd::prelude::*;

verus! {

/// The address and the port at which the platform listens.
pub struct SocketInfo {
    pub addr: String,
    pub port: usize,
}

impl Default for SocketInfo {
    fn default() -> (s: Self)
        ensures
            s.addr@ == Seq::<char>::empty(),
            s.port == 0,
    {
        SocketInfo { addr: String::new(), port: 0 }
    }
}

/// Where the log goes: the standard output, or the file at the given path.
#[derive(Debug)]
pub enum LogOutput {
    Stdout,
    File(String),
}

/// What an interruption channel gave when it was asked.
#[derive(Clone, Copy, Debug, PartialEq, Eq, Structural)]
pub enum InterruptSignal {
    Interrupted,
    NInterrupted,
}

/// What is read from an interruption channel that may have nothing to give:
/// a signal that was sent, or the word that none was.
pub fn signal_or_none(received: Option<InterruptSignal>) -> (s: InterruptSignal)
    ensures
        s == match received {
            Some(i) => i,
            None => InterruptSignal::NInterrupted,
        },
{
    match received {
        Some(i) => i,
        None => InterruptSignal::NInterrupted,
    }
}

} // verus!
