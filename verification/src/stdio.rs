//! Writing to the standard output without panics.
use vstd::prelude::*;
use vstd::string::*;

verus! {

/// What is known of the standard output.
#[derive(Clone, Copy, Debug, PartialEq, Eq, Structural)]
pub struct StdoutState {
    pub has_written: bool,
    /// Something holds the standard output to write to it.
    pub locked: bool,
}

/// Why nothing was written.
#[derive(Debug)]
pub enum StdioError<E> {
    /// The output is in use.
    AlreadyLocked,
    /// Writing failed.
    ClientIo(E),
    /// What was to be written could not be made.
    Other(String),
}

/// Whether anything was ever meant for the standard output.
pub fn has_written_to_stdout(state: &StdoutState) -> (r: bool)
    ensures
        r == state.has_written,
{
    state.has_written
}

/// Asks for the standard output, which then counts as written to. It is refused while it is in
/// use.
pub fn stdout<E>(state: &mut StdoutState) -> (r: Result<(), StdioError<E>>)
    ensures
        if old(state).locked {
            (r matches Err(StdioError::AlreadyLocked)) && *final(state) == *old(state)
        } else {
            r is Ok && *final(state) == (StdoutState { has_written: true, locked: false })
        },
{
    if state.locked {
        return Err(StdioError::AlreadyLocked);
    }
    state.has_written = true;
    Ok(())
}

/// The outcome of writing.
pub fn write_outcome<E>(written: Result<(), E>) -> (r: Result<(), StdioError<E>>)
    ensures
        match written {
            Ok(_) => r is Ok,
            Err(e) => r == Err::<(), StdioError<E>>(StdioError::ClientIo(e)),
        },
{
    match written {
        Ok(_) => Ok(()),
        Err(e) => Err(StdioError::ClientIo(e)),
    }
}

/// Why a writer of its own stopped.
pub enum WriterError<E> {
    Io(E),
    Other(String),
}

/// Takes the standard output for a writer of its own.
pub fn begin_print_with_writer<E>(state: &mut StdoutState) -> (r: Result<(), StdioError<E>>)
    ensures
        if old(state).locked {
            (r matches Err(StdioError::AlreadyLocked)) && *final(state) == *old(state)
        } else {
            r is Ok && *final(state) == (StdoutState { has_written: true, locked: true })
        },
{
    match stdout(state) {
        Ok(_) => {
            state.locked = true;
            Ok(())
        },
        Err(e) => Err(e),
    }
}

/// Gives the standard output back, whatever the writer came to.
pub fn print_with_writer<E>(state: &mut StdoutState, outcome: Result<(), WriterError<E>>) -> (r:
    Result<(), StdioError<E>>)
    requires
        old(state).locked,
    ensures
        !final(state).locked,
        final(state).has_written == old(state).has_written,
        match outcome {
            Ok(_) => r is Ok,
            Err(WriterError::Io(e)) => r == Err::<(), StdioError<E>>(StdioError::ClientIo(e)),
            Err(WriterError::Other(e)) => r == Err::<(), StdioError<E>>(StdioError::Other(e)),
        },
{
    state.locked = false;
    match outcome {
        Ok(_) => Ok(()),
        Err(WriterError::Io(e)) => Err(StdioError::ClientIo(e)),
        Err(WriterError::Other(e)) => Err(StdioError::Other(e)),
    }
}

} // verus!
