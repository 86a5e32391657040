//! Safe bindings for an embedded Java virtual machine.
//!
//! The crate has two layers. `j_chars` is the text codec: it converts host
//! Unicode strings to and from the virtual machine's Modified-UTF-8 wire
//! encoding, with proofs that the conversion round-trips and that decoding
//! rejects every byte pattern the encoder cannot produce. `jni` is the
//! call protocol: capability tokens that encode "no exception is pending",
//! reference-class bookkeeping for the three handle lifetimes, and the
//! per-thread environment binding through which all calls are issued.

pub mod j_chars;
pub mod jni;
pub mod native;

pub use j_chars::JavaChars;
pub use jni::ArrVal;
pub use jni::Capability;
pub use jni::JArrayElem;
pub use jni::JavaArray;
pub use jni::Exception;
pub use jni::JavaClass;
pub use jni::JavaDirectByteBuffer;
pub use jni::JavaEnv;
pub use jni::JavaMonitor;
pub use jni::JavaObject;
pub use jni::JavaString;
pub use jni::JavaThrowable;
pub use jni::JavaVM;
pub use jni::JavaVMAttachArgs;
pub use jni::JavaVMInitArgs;
pub use jni::JavaVMOption;
pub use jni::JniResult;
pub use jni::RefType;
pub use native::JniError;
pub use native::JniVersion;
