//! The debug-line lookup that the coverage and profile sinks rely on.

use crate::cfg::RawLocation;
use crate::packet::TraceError;
use vstd::prelude::*;

verus! {

#[verifier::external_type_specification]
#[verifier::external_body]
pub struct ExLoader(addr2line::Loader);

/// Relies on addr2line's `Loader::find_location`: it resolves an address
/// against the binary's debug-line data into a source file and line, or
/// fails. What comes back depends on the binary the loader was built
/// from, so nothing is assumed of the value; callers take it as it is.
/// A failure of the lookup is surfaced as the library's input error.
#[verifier::external_body]
pub fn resolve_location(loader: &addr2line::Loader, addr: u64) -> (r: Result<
    Option<RawLocation>,
    TraceError,
>)
    ensures
        r is Err ==> r->Err_0 == TraceError::InputIO,
{
    match loader.find_location(addr) {
        Ok(Some(l)) => Ok(
            Some(RawLocation { file: l.file.map(|f| f.to_string()), line: l.line }),
        ),
        Ok(None) => Ok(None),
        Err(_) => Err(TraceError::InputIO),
    }
}

} // verus!
