//! Errors that end a connection, and the message each one carries.

use vstd::prelude::*;

verus! {

/// An error report: malformed or unacceptable data, with a fixed explanation.
#[derive(Debug, Clone, Copy)]
pub struct InvalidData {
    pub message: &'static str,
}

/// Wraps a fixed message into the error it stands for. Always an `Err`.
pub fn strerror(s: &'static str) -> (r: Result<(), InvalidData>)
    ensures
        r == Err::<(), InvalidData>(InvalidData { message: s }),
{
    Err(InvalidData { message: s })
}

/// What the command line may ask for: TRIM and RESIZE support are refused.
pub fn check_options(trim: bool, resize: bool) -> (r: Result<(), InvalidData>)
    ensures
        r.is_err() <==> trim || resize,
        r matches Err(e) ==> e.message == "This option is not supported yet",
{
    if trim || resize {
        strerror("This option is not supported yet")
    } else {
        Ok(())
    }
}

/// Why a connection cannot go on. None of these is answered on the wire: the
/// connection is closed.
#[derive(Debug, Clone, Copy, PartialEq, Eq, Structural)]
pub enum Fault {
    /// The stream ended inside a structure or a payload.
    Truncated,
    /// A structure did not begin with its magic number.
    BadMagic,
    /// An option announced more data than `MAX_OPTION_LEN`.
    OversizedOption,
    /// The client's handshake flags are not a set that this server serves.
    ClientFlags,
    /// The requested export name is not UTF-8.
    ExportName,
    /// No export is registered under the requested name.
    UnknownExport,
    /// The backing store reported a failure.
    Store,
    /// The backing store gave fewer bytes than the request asked for.
    ShortRead,
    /// The backing store took fewer bytes than the request carried.
    ShortWrite,
}

impl Fault {
    pub open spec fn text(self) -> &'static str {
        match self {
            Fault::Truncated => "sudden EOF",
            Fault::BadMagic => "Invalid magic",
            Fault::OversizedOption => "Suspiciously big option length",
            Fault::ClientFlags => "Invalid client flag",
            Fault::ExportName => "Non-UTF8 export name requested",
            Fault::UnknownExport => "Unknown export requested",
            Fault::Store => "Backing store failure",
            Fault::ShortRead => "Short read from the backing store",
            Fault::ShortWrite => "Short write to the backing store",
        }
    }

    /// The explanation that goes with this fault.
    pub fn message(self) -> (m: &'static str)
        ensures
            m == self.text(),
    {
        match self {
            Fault::Truncated => "sudden EOF",
            Fault::BadMagic => "Invalid magic",
            Fault::OversizedOption => "Suspiciously big option length",
            Fault::ClientFlags => "Invalid client flag",
            Fault::ExportName => "Non-UTF8 export name requested",
            Fault::UnknownExport => "Unknown export requested",
            Fault::Store => "Backing store failure",
            Fault::ShortRead => "Short read from the backing store",
            Fault::ShortWrite => "Short write to the backing store",
        }
    }

    /// This fault as the error report that a caller hands on.
    pub fn report(self) -> (r: Result<(), InvalidData>)
        ensures
            r == Err::<(), InvalidData>(InvalidData { message: self.text() }),
    {
        strerror(self.message())
    }
}

/// How a connection ended.
#[derive(Debug, Clone, Copy, PartialEq, Eq, Structural)]
pub enum End {
    /// The client sent a disconnect request.
    Disconnected,
    /// The stream ended between two requests.
    Closed,
    /// The client gave up during negotiation.
    Aborted,
    /// The connection was dropped because of a fault.
    Failed(Fault),
}

impl End {
    /// What a caller is told of a connection that ended this way: nothing to
    /// report after a disconnect or a stream that ended between requests, an
    /// error after anything else.
    pub open spec fn outcome(self) -> Result<(), InvalidData> {
        match self {
            End::Disconnected => Ok(()),
            End::Closed => Ok(()),
            End::Aborted => Err(InvalidData { message: "Client abort" }),
            End::Failed(f) => Err(InvalidData { message: f.text() }),
        }
    }

    /// This end as the result that a caller hands on.
    pub fn report(self) -> (r: Result<(), InvalidData>)
        ensures
            r == self.outcome(),
    {
        match self {
            End::Disconnected => Ok(()),
            End::Closed => Ok(()),
            End::Aborted => strerror("Client abort"),
            End::Failed(f) => f.report(),
        }
    }
}

} // verus!
