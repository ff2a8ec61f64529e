use vstd::prelude::*;

verus! {

/// Why a ground map could not be loaded.
#[derive(Debug, Clone, Copy, PartialEq, Eq, Structural)]
pub enum GndError {
    /// Bad magic, truncated input, or a field outside its declared range.
    FormatError,
    /// A tile or texture reference that exceeds its table.
    IndexError,
    /// Grid dimensions that make no sense for the rest of the file.
    ConfigError,
}

} // verus!
