//! Values fixed by the foreign interface: version constants, the closed
//! error-code enumeration, reference-class tags and array release modes.
//! The numeric encodings the C tables use are exposed through `number` and
//! `code` rather than baked into the enums.

use vstd::prelude::*;

verus! {

/// The interface versions a runtime can be asked for.
#[allow(non_camel_case_types)]
#[derive(Clone, Copy, Debug, PartialEq, Eq, Structural)]
pub enum JniVersion {
    JNI_VERSION_1_1,
    JNI_VERSION_1_2,
    JNI_VERSION_1_4,
    JNI_VERSION_1_6,
    JNI_VERSION_1_7,
    JNI_VERSION_1_8,
}

impl JniVersion {
    /// The constant for this version as the foreign interface encodes it:
    /// major in the upper half, minor in the lower.
    pub open spec fn spec_number(self) -> u32 {
        match self {
            JniVersion::JNI_VERSION_1_1 => 0x00010001,
            JniVersion::JNI_VERSION_1_2 => 0x00010002,
            JniVersion::JNI_VERSION_1_4 => 0x00010004,
            JniVersion::JNI_VERSION_1_6 => 0x00010006,
            JniVersion::JNI_VERSION_1_7 => 0x00010007,
            JniVersion::JNI_VERSION_1_8 => 0x00010008,
        }
    }

    /// The version constant as a number, for handing to the foreign tables.
    pub fn number(self) -> (n: u32)
        ensures
            n == self.spec_number(),
    {
        match self {
            JniVersion::JNI_VERSION_1_1 => 0x00010001,
            JniVersion::JNI_VERSION_1_2 => 0x00010002,
            JniVersion::JNI_VERSION_1_4 => 0x00010004,
            JniVersion::JNI_VERSION_1_6 => 0x00010006,
            JniVersion::JNI_VERSION_1_7 => 0x00010007,
            JniVersion::JNI_VERSION_1_8 => 0x00010008,
        }
    }
}

/// The closed set of error codes the runtime reports. `JNI_OK` is success;
/// every other code names a recoverable failure.
#[allow(non_camel_case_types)]
#[derive(Clone, Copy, Debug, PartialEq, Eq, Structural)]
pub enum JniError {
    JNI_OK,
    JNI_ERR,
    JNI_EDETACHED,
    JNI_EVERSION,
    JNI_ENOMEM,
    JNI_EEXIST,
    JNI_EINVAL,
}

impl JniError {
    /// The code as the foreign interface encodes it: zero for success,
    /// small negative numbers for the failures.
    pub open spec fn spec_code(self) -> i32 {
        match self {
            JniError::JNI_OK => 0i32,
            JniError::JNI_ERR => -1i32,
            JniError::JNI_EDETACHED => -2i32,
            JniError::JNI_EVERSION => -3i32,
            JniError::JNI_ENOMEM => -4i32,
            JniError::JNI_EEXIST => -5i32,
            JniError::JNI_EINVAL => -6i32,
        }
    }

    /// The numeric error code, for comparing with what the foreign tables
    /// return.
    pub fn code(self) -> (c: i32)
        ensures
            c == self.spec_code(),
    {
        match self {
            JniError::JNI_OK => 0,
            JniError::JNI_ERR => -1,
            JniError::JNI_EDETACHED => -2,
            JniError::JNI_EVERSION => -3,
            JniError::JNI_ENOMEM => -4,
            JniError::JNI_EEXIST => -5,
            JniError::JNI_EINVAL => -6,
        }
    }
}

/// How borrowed array storage is handed back: write and free, write and
/// keep, or discard.
#[allow(non_camel_case_types)]
#[derive(Clone, Copy, Debug, PartialEq, Eq, Structural)]
pub enum JniReleaseArrayElementsMode {
    JNI_ZERO,
    JNI_COMMIT,
    JNI_ABORT,
}

/// The reference classification the runtime itself reports for a handle.
#[allow(non_camel_case_types)]
#[derive(Clone, Copy, Debug, PartialEq, Eq, Structural)]
pub enum jobjectRefType {
    JNIInvalidRefType,
    JNILocalRefType,
    JNIGlobalRefType,
    JNIWeakGlobalRefType,
}

} // verus!
