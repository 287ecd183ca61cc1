use vstd::prelude::*;

verus! {

/// Error a windowing or rendering collaborator reports; the geometry core
/// itself never raises it.
#[derive(Debug, Clone, Copy, PartialEq, Eq, Structural)]
pub enum VideoError {
    NotInitialised,
}

} // verus!
