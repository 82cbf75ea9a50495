//! The leak data model: a candidate leak extracted from source, and a
//! confirmed leak located in a binary.

use vstd::prelude::*;

use crate::transcode::{spec_literal_bytes, string_literal_to_bytes, TranscodeError};

verus! {

/// Mathematical value of an [`InformationLeakDescription`].
pub struct LeakView {
    pub leaked_information: Seq<char>,
    pub bytes: Seq<u8>,
    pub file: Seq<char>,
    pub line: u32,
}

/// A candidate leak: a source-level string literal that might survive,
/// byte for byte, into a compiled binary.
///
/// Identity is defined on `leaked_information` alone: two occurrences with
/// identical literal text are the same leak, whatever their bytes or
/// location.
pub struct InformationLeakDescription {
    /// Leaked information, as represented in the source code (raw lexical
    /// text, quotes and prefix included).
    pub leaked_information: String,
    /// Byte pattern to match: the leaked information as represented in the
    /// binary file.
    pub bytes: Vec<u8>,
    /// Where the leaked information is declared in the source code
    /// (file path, 1-based line number).
    pub declaration_metadata: (String, u32),
}

impl View for InformationLeakDescription {
    type V = LeakView;

    open spec fn view(&self) -> LeakView {
        LeakView {
            leaked_information: self.leaked_information@,
            bytes: self.bytes@,
            file: self.declaration_metadata.0@,
            line: self.declaration_metadata.1,
        }
    }
}

impl PartialEq for InformationLeakDescription {
    /// Equality on the literal text alone, as the identity of a leak is.
    fn eq(&self, other: &Self) -> (r: bool) {
        self.leaked_information.eq(&other.leaked_information)
    }
}

impl vstd::std_specs::cmp::PartialEqSpecImpl for InformationLeakDescription {
    open spec fn obeys_eq_spec() -> bool {
        true
    }

    open spec fn eq_spec(&self, other: &Self) -> bool {
        self.leaked_information@ == other.leaked_information@
    }
}

/// A well-formed candidate leak: its bytes are exactly what a conforming
/// compiler emits for its literal text.
pub open spec fn leak_well_formed(leak: LeakView) -> bool {
    spec_literal_bytes(leak.leaked_information) == Ok::<Seq<u8>, TranscodeError>(leak.bytes)
}

impl InformationLeakDescription {
    /// Builds the candidate leak for one literal occurrence, transcoding its
    /// raw text; fails exactly when the text cannot be transcoded.
    pub fn new(leaked_information: String, file: String, line: u32) -> (r: Result<
        Self,
        TranscodeError,
    >)
        ensures
            r matches Ok(leak) ==> {
                &&& leak@.leaked_information == leaked_information@
                &&& leak@.file == file@
                &&& leak@.line == line
                &&& spec_literal_bytes(leaked_information@) == Ok::<Seq<u8>, TranscodeError>(
                    leak@.bytes,
                )
            },
            r matches Err(e) ==> spec_literal_bytes(leaked_information@) == Err::<
                Seq<u8>,
                TranscodeError,
            >(e),
    {
        match string_literal_to_bytes(leaked_information.as_str()) {
            Ok(bytes) => Ok(InformationLeakDescription {
                leaked_information,
                bytes,
                declaration_metadata: (file, line),
            }),
            Err(e) => Err(e),
        }
    }
}

/// Where a confirmed leak was declared in source.
pub struct SourceLocation {
    /// Path of the declaring source file.
    pub file: String,
    /// 1-based line of the declaration.
    pub line: u32,
}

/// Where a confirmed leak was found in a binary.
pub struct BinaryLocation {
    /// Path of the scanned binary file.
    pub file: String,
    /// Byte offset of the first match.
    pub offset: u64,
}

/// The two locations of a confirmed leak.
pub struct LeakLocation {
    pub source: SourceLocation,
    pub binary: BinaryLocation,
}

/// Mathematical value of a [`ConfirmedLeak`].
pub struct ConfirmedLeakView {
    pub leaked_information: Seq<char>,
    pub source_file: Seq<char>,
    pub source_line: u32,
    pub binary_file: Seq<char>,
    pub offset: u64,
}

/// A candidate leak whose byte pattern was located in a binary.
pub struct ConfirmedLeak {
    /// The literal text, copied from the candidate.
    pub leaked_information: String,
    /// Declaring source location and the binary location of the first match.
    pub location: LeakLocation,
}

impl View for ConfirmedLeak {
    type V = ConfirmedLeakView;

    open spec fn view(&self) -> ConfirmedLeakView {
        ConfirmedLeakView {
            leaked_information: self.leaked_information@,
            source_file: self.location.source.file@,
            source_line: self.location.source.line,
            binary_file: self.location.binary.file@,
            offset: self.location.binary.offset,
        }
    }
}

} // verus!
