//! The call protocol: capability tokens, reference-class bookkeeping, and
//! the per-thread environment binding.
//!
//! The runtime is modelled by the state a binding can observe through the
//! foreign interface: a table of objects (classes, instances, strings and
//! direct buffers), a table of references each carrying one of the three
//! reference classes, per-object monitor counts, and the pending-exception
//! flag. Every operation's contract says exactly how it moves that state.
//!
//! Exception discipline: an operation that can raise an exception consumes a
//! [`Capability`] by value and returns either its result with a fresh token
//! or an [`Exception`] token — never both. An operation that merely must not
//! run while an exception is pending borrows the token. On top of the moved
//! tokens, every such operation requires `!pending_excn()` of the binding,
//! so a verified caller cannot reach any exception-sensitive entry point
//! between raising an exception and clearing it.

use vstd::prelude::*;
use crate::native::JniVersion;
use crate::native::JniError;
use crate::j_chars::JavaChars;
use crate::j_chars::mutf8_encode;
use crate::j_chars::lemma_mutf8_round_trip;
use crate::j_chars::utf16_len;
use crate::j_chars::utf16_length;

verus! {

/// A token witnessing that the current thread has no pending exception.
///
/// It must be presented to any operation that is unsafe to run while an
/// exception is pending. An operation that can itself raise an exception
/// takes the token by value, so the caller cannot reuse it afterwards: the
/// only way onward is the fresh token such an operation returns on success,
/// or clearing the [`Exception`] it returns instead.
#[derive(Debug)]
pub struct Capability {
    _cap: (),
}

impl Capability {
    fn new() -> Capability {
        Capability { _cap: () }
    }
}

/// A token witnessing that an exception is pending on the current thread.
///
/// Only the exception-inspection operations accept it; clearing it yields a
/// fresh [`Capability`].
#[derive(Debug)]
pub struct Exception {
    _cap: (),
}

impl Exception {
    fn new() -> Exception {
        Exception { _cap: () }
    }
}

/// What an exception-raising operation returns: the result with a fresh
/// clear token, or the pending-exception token — never both.
pub type JniResult<T> = Result<(T, Capability), Exception>;

/// Character-for-character string equality.
fn str_eq(a: &str, b: &str) -> (r: bool)
    ensures
        r == (a@ == b@),
{
    let na = a.unicode_len();
    let nb = b.unicode_len();
    if na != nb {
        return false;
    }
    let mut i: usize = 0;
    while i < na
        invariant
            i <= na,
            na == a@.len(),
            nb == b@.len(),
            na == nb,
            forall|j: int| 0 <= j < i ==> a@[j] == b@[j],
        decreases na - i,
    {
        if a.get_char(i) != b.get_char(i) {
            return false;
        }
        i = i + 1;
    }
    proof {
        assert(a@ =~= b@);
    }
    true
}

/// Byte-for-byte buffer equality.
fn bytes_eq(a: &Vec<u8>, b: &Vec<u8>) -> (r: bool)
    ensures
        r == (a@ == b@),
{
    let na = a.len();
    let nb = b.len();
    if na != nb {
        return false;
    }
    let mut i: usize = 0;
    while i < na
        invariant
            i <= na,
            na == a@.len(),
            nb == b@.len(),
            na == nb,
            forall|j: int| 0 <= j < i ==> a@[j] == b@[j],
        decreases na - i,
    {
        if a[i] != b[i] {
            return false;
        }
        i = i + 1;
    }
    proof {
        assert(a@ =~= b@);
    }
    true
}

/// One startup option for the virtual machine: the option text and an
/// opaque extra-info word (an address in the foreign interface; carried
/// here as a plain number).
#[allow(non_snake_case)]
#[derive(Debug)]
pub struct JavaVMOption {
    /// The option to be passed to the machine.
    pub optionString: String,
    /// Extra info for the machine; zero when absent.
    pub extraInfo: usize,
}

impl JavaVMOption {
    /// Constructs an option with no extra info.
    pub fn new(option: &str) -> (r: JavaVMOption)
        ensures
            r.optionString@ == option@,
            r.extraInfo == 0,
    {
        Self::new_extra(option, 0)
    }

    /// Constructs an option with extra info.
    pub fn new_extra(option: &str, extra: usize) -> (r: JavaVMOption)
        ensures
            r.optionString@ == option@,
            r.extraInfo == extra,
    {
        JavaVMOption { optionString: option.to_owned(), extraInfo: extra }
    }

    /// An equal copy.
    pub fn duplicate(&self) -> (r: JavaVMOption)
        ensures
            r == *self,
    {
        JavaVMOption { optionString: self.optionString.clone(), extraInfo: self.extraInfo }
    }
}

impl<'a> PartialEq<&'a str> for JavaVMOption {
    /// An option equals a string when its option text does.
    fn eq(&self, other: &&'a str) -> (r: bool) {
        str_eq(self.optionString.as_str(), *other)
    }
}

impl<'a> vstd::std_specs::cmp::PartialEqSpecImpl<&'a str> for JavaVMOption {
    open spec fn obeys_eq_spec() -> bool {
        true
    }

    open spec fn eq_spec(&self, other: &&'a str) -> bool {
        self.optionString@ == other@
    }
}

/// The startup arguments for a virtual machine: required interface version,
/// option list, and whether unrecognized options are ignored rather than
/// rejected.
#[allow(non_snake_case)]
#[derive(Debug)]
pub struct JavaVMInitArgs {
    /// The interface version required of the machine.
    pub version: JniVersion,
    /// The options to be passed to the machine.
    pub options: Vec<JavaVMOption>,
    /// If `true`, the machine ignores options it does not recognize;
    /// if `false`, such an option makes startup fail.
    pub ignoreUnrecognized: bool,
}

impl JavaVMInitArgs {
    /// Gathers startup arguments, copying the option list.
    #[allow(non_snake_case)]
    pub fn new(version: JniVersion, options: &[JavaVMOption], ignoreUnrecognized: bool) -> (r:
        JavaVMInitArgs)
        ensures
            r.version == version,
            r.options@ =~= options@,
            r.ignoreUnrecognized == ignoreUnrecognized,
    {
        let n = options.len();
        let mut copied: Vec<JavaVMOption> = Vec::new();
        let mut i: usize = 0;
        while i < n
            invariant
                i <= n,
                n == options@.len(),
                copied@ =~= options@.take(i as int),
            decreases n - i,
        {
            copied.push(options[i].duplicate());
            proof {
                assert(options@.take(i as int).push(options@[i as int]) =~= options@.take(
                    i + 1 as int,
                ));
            }
            i = i + 1;
        }
        proof {
            assert(options@.take(n as int) =~= options@);
        }
        JavaVMInitArgs { version, options: copied, ignoreUnrecognized }
    }
}

/// The three reference lifetime classes a handle can carry, fixed at its
/// creation: frame-bound, explicit-release cross-thread, or liveness-checked.
#[derive(Clone, Copy, Debug, PartialEq, Eq, Structural)]
pub enum RefType {
    Local,
    Global,
    Weak,
}

/// The payload of an array object: one vector per element type the
/// machine's primitive arrays store here.
#[derive(Debug)]
pub enum ArrVal {
    Bools(Vec<bool>),
    Bytes(Vec<u8>),
    Chars(Vec<char>),
    Shorts(Vec<i16>),
    Ints(Vec<i32>),
    Longs(Vec<i64>),
}

// What one slot of the binding's object table holds.
enum ObjKind {
    // A loaded class: its name as text and as the wire-form buffer the
    // foreign interface compares, and its superclass slot, if any.
    Class { chars: Vec<char>, data: JavaChars, sup: Option<usize> },
    // A plain instance of the class at the given slot.
    Instance { class: usize },
    // A string object: its characters and their wire-form buffer.
    Text { chars: Vec<char>, data: JavaChars },
    // A direct byte buffer of the given capacity.
    Buffer { size: usize },
    // A primitive array.
    Arr(ArrVal),
}

// One object together with its intrinsic-monitor entry count.
struct ObjEntry {
    kind: ObjKind,
    locks: u64,
}

// One registered reference: what it points at, its class, and whether it
// has been released.
struct RefEntry {
    target: usize,
    rtype: RefType,
    alive: bool,
}

/// Bootstrap object-table slot of the root class object.
pub const OBJECT_CLASS: usize = 0;

/// Bootstrap slot of the class that class objects themselves belong to.
pub const CLASS_CLASS: usize = 1;

/// Bootstrap slot of the string class.
pub const STRING_CLASS: usize = 2;

/// Bootstrap slot of the root throwable class.
pub const THROWABLE_CLASS: usize = 3;

/// Bootstrap slot of the direct-buffer class.
pub const BUFFER_CLASS: usize = 4;

/// A running virtual machine. Bindings for the current thread are obtained
/// from it with [`JavaVM::get_env`].
#[derive(Debug)]
pub struct JavaVM {
    version: JniVersion,
}

/// A per-thread binding to the virtual machine: the frame within which
/// handles are valid and through which every call is issued. It must not be
/// shared across threads.
pub struct JavaEnv {
    jvm: JavaVM,
    objects: Vec<ObjEntry>,
    refs: Vec<RefEntry>,
    pending: Option<usize>,
    detach: bool,
}

impl JavaEnv {
    /// How many objects the binding has seen: class objects, instances,
    /// strings and buffers alike, addressed by table slot.
    pub closed spec fn obj_count(&self) -> int {
        self.objects@.len() as int
    }

    /// How many references have ever been registered, released ones included.
    pub closed spec fn ref_count(&self) -> int {
        self.refs@.len() as int
    }

    /// Whether an exception is pending on this binding.
    pub closed spec fn pending_excn(&self) -> bool {
        self.pending is Some
    }

    /// The object slot of the pending exception.
    pub closed spec fn pending_target(&self) -> int
        recommends
            self.pending_excn(),
    {
        self.pending.unwrap() as int
    }

    /// The interface version of the machine this binding belongs to.
    pub closed spec fn env_version(&self) -> JniVersion {
        self.jvm.version
    }

    /// Whether this binding attached the thread and so owes a detach.
    pub closed spec fn detach_owed(&self) -> bool {
        self.detach
    }

    /// Whether slot `t` holds a class object.
    pub closed spec fn is_class(&self, t: int) -> bool {
        0 <= t < self.objects@.len() && self.objects@[t].kind is Class
    }

    /// The name of the class at slot `t`.
    pub closed spec fn class_name(&self, t: int) -> Seq<char> {
        if 0 <= t < self.objects@.len() {
            match self.objects@[t].kind {
                ObjKind::Class { chars, .. } => chars@,
                _ => Seq::empty(),
            }
        } else {
            Seq::empty()
        }
    }

    /// The superclass slot of the class at slot `t`, if it has one.
    pub closed spec fn class_sup(&self, t: int) -> Option<int> {
        if 0 <= t < self.objects@.len() {
            match self.objects@[t].kind {
                ObjKind::Class { sup, .. } => match sup {
                    Some(p) => Some(p as int),
                    None => None,
                },
                _ => None,
            }
        } else {
            None
        }
    }

    /// Whether slot `t` holds a plain instance.
    pub closed spec fn is_instance(&self, t: int) -> bool {
        0 <= t < self.objects@.len() && self.objects@[t].kind is Instance
    }

    /// The class slot of the instance at slot `t`.
    pub closed spec fn instance_class(&self, t: int) -> int {
        if 0 <= t < self.objects@.len() {
            match self.objects@[t].kind {
                ObjKind::Instance { class } => class as int,
                _ => 0,
            }
        } else {
            0
        }
    }

    /// Whether slot `t` holds a string object.
    pub closed spec fn is_text(&self, t: int) -> bool {
        0 <= t < self.objects@.len() && self.objects@[t].kind is Text
    }

    /// The characters of the string object at slot `t`.
    pub closed spec fn text_chars(&self, t: int) -> Seq<char> {
        if 0 <= t < self.objects@.len() {
            match self.objects@[t].kind {
                ObjKind::Text { chars, .. } => chars@,
                _ => Seq::empty(),
            }
        } else {
            Seq::empty()
        }
    }

    /// Whether slot `t` holds a direct byte buffer.
    pub closed spec fn is_buffer(&self, t: int) -> bool {
        0 <= t < self.objects@.len() && self.objects@[t].kind is Buffer
    }

    /// The capacity of the buffer at slot `t`.
    pub closed spec fn buffer_size(&self, t: int) -> int {
        if 0 <= t < self.objects@.len() {
            match self.objects@[t].kind {
                ObjKind::Buffer { size } => size as int,
                _ => 0,
            }
        } else {
            0
        }
    }

    /// Whether slot `t` holds a primitive array.
    pub closed spec fn is_arr(&self, t: int) -> bool {
        0 <= t < self.objects@.len() && self.objects@[t].kind is Arr
    }

    /// The payload of the array at slot `t`.
    pub closed spec fn arr_val(&self, t: int) -> Option<ArrVal> {
        if 0 <= t < self.objects@.len() {
            match self.objects@[t].kind {
                ObjKind::Arr(v) => Some(v),
                _ => None,
            }
        } else {
            None
        }
    }

    /// How often the intrinsic monitor of the object at slot `t` has been
    /// entered and not yet exited.
    pub closed spec fn lock_count(&self, t: int) -> int {
        if 0 <= t < self.objects@.len() {
            self.objects@[t].locks as int
        } else {
            0
        }
    }

    /// Whether reference `s` is still registered (not yet released).
    pub closed spec fn ref_alive(&self, s: int) -> bool {
        0 <= s < self.refs@.len() && self.refs@[s].alive
    }

    /// The reference class reference `s` was registered with.
    pub closed spec fn ref_class(&self, s: int) -> RefType {
        if 0 <= s < self.refs@.len() {
            self.refs@[s].rtype
        } else {
            RefType::Local
        }
    }

    /// The object slot reference `s` points at.
    pub closed spec fn ref_target(&self, s: int) -> int {
        if 0 <= s < self.refs@.len() {
            self.refs@[s].target as int
        } else {
            0
        }
    }

    /// A live reference of the given class pointing at a real object.
    pub open spec fn valid_ref(&self, s: int, rt: RefType) -> bool {
        &&& 0 <= s < self.ref_count()
        &&& self.ref_alive(s)
        &&& self.ref_class(s) == rt
        &&& 0 <= self.ref_target(s) < self.obj_count()
    }

    /// The class object of the object at slot `t`: its own class for an
    /// instance, and the bootstrap class objects for classes, strings and
    /// buffers.
    pub open spec fn class_of(&self, t: int) -> int {
        if self.is_instance(t) {
            self.instance_class(t)
        } else if self.is_class(t) {
            CLASS_CLASS as int
        } else if self.is_text(t) {
            STRING_CLASS as int
        } else if self.is_buffer(t) {
            BUFFER_CLASS as int
        } else {
            OBJECT_CLASS as int
        }
    }

    /// Whether some loaded class bears the given name.
    pub open spec fn has_class(&self, name: Seq<char>) -> bool {
        exists|t: int| #![auto] self.is_class(t) && self.class_name(t) == name
    }

    /// Whether the class at slot `sub` is the class at slot `sup` or a
    /// subclass of it, along the superclass chain.
    pub closed spec fn assignable(&self, sub: int, sup: int) -> bool
        decreases sub,
    {
        sub == sup || (self.is_class(sub) && match self.class_sup(sub) {
            Some(p) => 0 <= p < sub && self.assignable(p, sup),
            None => false,
        })
    }

    // One object-table entry is internally consistent: wire buffers match
    // their text, class chains point strictly downward, instances point at
    // classes, and string lengths stay within the interface's 32-bit reach.
    closed spec fn obj_ok(&self, t: int) -> bool {
        match self.objects@[t].kind {
            ObjKind::Class { chars, data, sup } => {
                &&& data@ == mutf8_encode(chars@) + seq![0u8]
                &&& match sup {
                    Some(p) => (p as int) < t && 0 <= p < self.objects@.len()
                        && self.objects@[p as int].kind is Class,
                    None => true,
                }
            },
            ObjKind::Instance { class } => (class as int) < self.objects@.len()
                && self.objects@[class as int].kind is Class,
            ObjKind::Text { chars, data } => {
                &&& data@ == mutf8_encode(chars@) + seq![0u8]
                &&& utf16_len(chars@) <= 0x7FFF_FFFF
            },
            ObjKind::Buffer { .. } => true,
            ObjKind::Arr(..) => true,
        }
    }

    /// The binding's invariant. Constructors establish it and every
    /// operation preserves it.
    pub closed spec fn wf(&self) -> bool {
        &&& self.objects@.len() >= 5
        &&& forall|t: int| 0 <= t < self.objects@.len() ==> self.obj_ok(t)
        &&& forall|s: int|
            0 <= s < self.refs@.len() ==> (self.refs@[s].target as int) < self.objects@.len()
        &&& match self.pending {
            Some(t) => (t as int) < self.objects@.len(),
            None => true,
        }
        &&& self.is_class(OBJECT_CLASS as int) && self.class_sup(OBJECT_CLASS as int) is None
        &&& self.is_class(CLASS_CLASS as int)
        &&& self.is_class(STRING_CLASS as int)
        &&& self.is_class(THROWABLE_CLASS as int)
        &&& self.is_class(BUFFER_CLASS as int)
    }
}

// ---------------------------------------------------------------------------
// Frame predicates: what an operation leaves untouched
// ---------------------------------------------------------------------------
/// Object slot `t` describes the same object in `post` as in `pre`.
pub open spec fn obj_unchanged(pre: JavaEnv, post: JavaEnv, t: int) -> bool {
    &&& post.is_class(t) == pre.is_class(t)
    &&& post.class_name(t) == pre.class_name(t)
    &&& post.class_sup(t) == pre.class_sup(t)
    &&& post.is_instance(t) == pre.is_instance(t)
    &&& post.instance_class(t) == pre.instance_class(t)
    &&& post.is_text(t) == pre.is_text(t)
    &&& post.text_chars(t) == pre.text_chars(t)
    &&& post.is_buffer(t) == pre.is_buffer(t)
    &&& post.buffer_size(t) == pre.buffer_size(t)
    &&& post.is_arr(t) == pre.is_arr(t)
    &&& post.arr_val(t) == pre.arr_val(t)
}

/// Reference `s` is registered the same way in `post` as in `pre`.
pub open spec fn ref_unchanged(pre: JavaEnv, post: JavaEnv, s: int) -> bool {
    &&& post.ref_alive(s) == pre.ref_alive(s)
    &&& post.ref_class(s) == pre.ref_class(s)
    &&& post.ref_target(s) == pre.ref_target(s)
}

/// The binding only grew: every object, monitor count and reference that
/// existed before is exactly as it was, and the machine identity is the
/// same. Pending-exception state is not covered; each operation's contract
/// says what happens to it.
pub open spec fn env_extends(pre: JavaEnv, post: JavaEnv) -> bool {
    &&& post.env_version() == pre.env_version()
    &&& post.detach_owed() == pre.detach_owed()
    &&& pre.obj_count() <= post.obj_count()
    &&& forall|t: int| 0 <= t < pre.obj_count() ==> obj_unchanged(pre, post, t)
    &&& forall|t: int| 0 <= t < pre.obj_count() ==> post.lock_count(t) == pre.lock_count(t)
    &&& pre.ref_count() <= post.ref_count()
    &&& forall|s: int| 0 <= s < pre.ref_count() ==> ref_unchanged(pre, post, s)
}

/// The pending-exception state is exactly as it was.
pub open spec fn pending_unchanged(pre: JavaEnv, post: JavaEnv) -> bool {
    &&& post.pending_excn() == pre.pending_excn()
    &&& pre.pending_excn() ==> post.pending_target() == pre.pending_target()
}

// ---------------------------------------------------------------------------
// Handles
// ---------------------------------------------------------------------------
/// A handle to any object of the machine, carrying the reference class it
/// was registered with.
#[derive(Debug)]
pub struct JavaObject {
    slot: usize,
    rtype: RefType,
}

/// A handle to a class object.
#[derive(Debug)]
pub struct JavaClass {
    slot: usize,
    rtype: RefType,
}

/// A handle to a throwable object.
#[derive(Debug)]
pub struct JavaThrowable {
    slot: usize,
    rtype: RefType,
}

/// A handle to a string object.
#[derive(Debug)]
pub struct JavaString {
    slot: usize,
    rtype: RefType,
}

/// A handle to a direct byte buffer.
#[derive(Debug)]
pub struct JavaDirectByteBuffer {
    slot: usize,
    rtype: RefType,
}

impl JavaObject {
    /// The reference-table slot this handle occupies.
    pub closed spec fn slot_id(&self) -> int {
        self.slot as int
    }

    /// The reference class fixed at this handle's creation.
    pub closed spec fn spec_ref_type(&self) -> RefType {
        self.rtype
    }

    /// The handle is a live, correctly-classed reference in `env`.
    pub open spec fn valid_in(&self, env: &JavaEnv) -> bool {
        env.valid_ref(self.slot_id(), self.spec_ref_type())
    }

    /// The object slot this handle refers to.
    pub open spec fn target(&self, env: &JavaEnv) -> int {
        env.ref_target(self.slot_id())
    }

    /// The reference class this handle was created with.
    pub fn ref_type(&self) -> (r: RefType)
        ensures
            r == self.spec_ref_type(),
    {
        self.rtype
    }

    /// The same handle: the plain object view of a plain object handle.
    pub fn as_object(&self) -> (r: JavaObject)
        ensures
            r.slot_id() == self.slot_id(),
            r.spec_ref_type() == self.spec_ref_type(),
    {
        JavaObject { slot: self.slot, rtype: self.rtype }
    }
}

impl JavaClass {
    /// The reference-table slot this handle occupies.
    pub closed spec fn slot_id(&self) -> int {
        self.slot as int
    }

    /// The reference class fixed at this handle's creation.
    pub closed spec fn spec_ref_type(&self) -> RefType {
        self.rtype
    }

    /// The handle is a live, correctly-classed reference in `env`.
    pub open spec fn valid_in(&self, env: &JavaEnv) -> bool {
        env.valid_ref(self.slot_id(), self.spec_ref_type())
    }

    /// The object slot this handle refers to.
    pub open spec fn target(&self, env: &JavaEnv) -> int {
        env.ref_target(self.slot_id())
    }

    /// The handle is valid and refers to a class object.
    pub open spec fn valid_class(&self, env: &JavaEnv) -> bool {
        self.valid_in(env) && env.is_class(self.target(env))
    }

    /// The reference class this handle was created with.
    pub fn ref_type(&self) -> (r: RefType)
        ensures
            r == self.spec_ref_type(),
    {
        self.rtype
    }

    /// This handle, seen as a plain object handle: same reference, same
    /// reference class.
    pub fn as_object(&self) -> (r: JavaObject)
        ensures
            r.slot_id() == self.slot_id(),
            r.spec_ref_type() == self.spec_ref_type(),
    {
        JavaObject { slot: self.slot, rtype: self.rtype }
    }
}

impl JavaThrowable {
    /// The reference-table slot this handle occupies.
    pub closed spec fn slot_id(&self) -> int {
        self.slot as int
    }

    /// The reference class fixed at this handle's creation.
    pub closed spec fn spec_ref_type(&self) -> RefType {
        self.rtype
    }

    /// The handle is a live, correctly-classed reference in `env`.
    pub open spec fn valid_in(&self, env: &JavaEnv) -> bool {
        env.valid_ref(self.slot_id(), self.spec_ref_type())
    }

    /// The object slot this handle refers to.
    pub open spec fn target(&self, env: &JavaEnv) -> int {
        env.ref_target(self.slot_id())
    }

    /// The reference class this handle was created with.
    pub fn ref_type(&self) -> (r: RefType)
        ensures
            r == self.spec_ref_type(),
    {
        self.rtype
    }

    /// This handle, seen as a plain object handle.
    pub fn as_object(&self) -> (r: JavaObject)
        ensures
            r.slot_id() == self.slot_id(),
            r.spec_ref_type() == self.spec_ref_type(),
    {
        JavaObject { slot: self.slot, rtype: self.rtype }
    }
}

impl JavaString {
    /// The reference-table slot this handle occupies.
    pub closed spec fn slot_id(&self) -> int {
        self.slot as int
    }

    /// The reference class fixed at this handle's creation.
    pub closed spec fn spec_ref_type(&self) -> RefType {
        self.rtype
    }

    /// The handle is a live, correctly-classed reference in `env`.
    pub open spec fn valid_in(&self, env: &JavaEnv) -> bool {
        env.valid_ref(self.slot_id(), self.spec_ref_type())
    }

    /// The object slot this handle refers to.
    pub open spec fn target(&self, env: &JavaEnv) -> int {
        env.ref_target(self.slot_id())
    }

    /// The handle is valid and refers to a string object.
    pub open spec fn valid_text(&self, env: &JavaEnv) -> bool {
        self.valid_in(env) && env.is_text(self.target(env))
    }

    /// The reference class this handle was created with.
    pub fn ref_type(&self) -> (r: RefType)
        ensures
            r == self.spec_ref_type(),
    {
        self.rtype
    }

    /// This handle, seen as a plain object handle.
    pub fn as_object(&self) -> (r: JavaObject)
        ensures
            r.slot_id() == self.slot_id(),
            r.spec_ref_type() == self.spec_ref_type(),
    {
        JavaObject { slot: self.slot, rtype: self.rtype }
    }
}

impl JavaDirectByteBuffer {
    /// The reference-table slot this handle occupies.
    pub closed spec fn slot_id(&self) -> int {
        self.slot as int
    }

    /// The reference class fixed at this handle's creation.
    pub closed spec fn spec_ref_type(&self) -> RefType {
        self.rtype
    }

    /// The handle is a live, correctly-classed reference in `env`.
    pub open spec fn valid_in(&self, env: &JavaEnv) -> bool {
        env.valid_ref(self.slot_id(), self.spec_ref_type())
    }

    /// The object slot this handle refers to.
    pub open spec fn target(&self, env: &JavaEnv) -> int {
        env.ref_target(self.slot_id())
    }

    /// The handle is valid and refers to a direct buffer.
    pub open spec fn valid_buffer(&self, env: &JavaEnv) -> bool {
        self.valid_in(env) && env.is_buffer(self.target(env))
    }

    /// This handle, seen as a plain object handle.
    pub fn as_object(&self) -> (r: JavaObject)
        ensures
            r.slot_id() == self.slot_id(),
            r.spec_ref_type() == self.spec_ref_type(),
    {
        JavaObject { slot: self.slot, rtype: self.rtype }
    }
}

/// Arguments for attaching a thread to the machine: required version, a
/// thread name, and the thread group to join.
#[derive(Debug)]
pub struct JavaVMAttachArgs {
    /// The interface version required.
    pub version: JniVersion,
    /// The name for the attached thread.
    pub name: String,
    /// The thread group the new thread joins.
    pub group: JavaObject,
}

impl JavaVMAttachArgs {
    /// Gathers thread-attachment arguments.
    pub fn new(version: JniVersion, name: &str, group: JavaObject) -> (r: JavaVMAttachArgs)
        ensures
            r.version == version,
            r.name@ == name@,
            r.group == group,
    {
        JavaVMAttachArgs { version, name: name.to_owned(), group }
    }
}

// ---------------------------------------------------------------------------
// The virtual machine and the binding constructor
// ---------------------------------------------------------------------------
// Turns a string into its characters.
fn str_chars(value: &str) -> (r: Vec<char>)
    ensures
        r@ == value@,
{
    let n = value.unicode_len();
    let mut out: Vec<char> = Vec::new();
    let mut i: usize = 0;
    while i < n
        invariant
            i <= n,
            n == value@.len(),
            out@ == value@.take(i as int),
        decreases n - i,
    {
        out.push(value.get_char(i));
        proof {
            assert(value@.take(i as int).push(value@[i as int]) =~= value@.take(i + 1 as int));
        }
        i = i + 1;
    }
    proof {
        assert(value@.take(n as int) =~= value@);
    }
    out
}

// Builds one bootstrap class entry.
fn boot_class(name: &str, sup: Option<usize>) -> (e: ObjEntry)
    ensures
        e.locks == 0,
        ({
            match e.kind {
                ObjKind::Class { chars, data, sup: s } => {
                    &&& chars@ == name@
                    &&& data@ == mutf8_encode(name@) + seq![0u8]
                    &&& s == sup
                },
                _ => false,
            }
        }),
{
    let chars = str_chars(name);
    let data = JavaChars::new(name);
    ObjEntry { kind: ObjKind::Class { chars, data, sup }, locks: 0 }
}

impl JavaVM {
    /// The interface version this machine was constructed with.
    pub closed spec fn spec_version(&self) -> JniVersion {
        self.version
    }

    /// Starts a virtual machine. Succeeds for every version the interface
    /// defines except the earliest, which the construction entry point
    /// itself no longer accepts; that case reports a version error, as do
    /// rejected options when `ignoreUnrecognized` is off (none exist in this
    /// machine: every option is recognized).
    pub fn new(args: JavaVMInitArgs) -> (r: Result<JavaVM, JniError>)
        ensures
            r is Ok <==> args.version != JniVersion::JNI_VERSION_1_1,
            r is Ok ==> r.unwrap().spec_version() == args.version,
            r is Err ==> r.unwrap_err() == JniError::JNI_EVERSION,
    {
        match args.version {
            JniVersion::JNI_VERSION_1_1 => Err(JniError::JNI_EVERSION),
            _ => Ok(JavaVM { version: args.version }),
        }
    }

    /// The version of the machine.
    pub fn version(&self) -> (v: JniVersion)
        ensures
            v == self.spec_version(),
    {
        self.version
    }

    /// Attaches the current thread and returns a binding together with the
    /// initial clear capability: a fresh binding never has an exception
    /// pending. The binding owes a detach when it is released.
    pub fn get_env(&self) -> (r: Result<(JavaEnv, Capability), JniError>)
        ensures
            r is Ok,
            ({
                let env = r.unwrap().0;
                &&& env.wf()
                &&& !env.pending_excn()
                &&& env.env_version() == self.spec_version()
                &&& env.detach_owed()
                &&& env.ref_count() == 0
                &&& env.obj_count() == 5
                &&& env.class_name(OBJECT_CLASS as int) == "java/lang/Object"@
                &&& env.class_name(CLASS_CLASS as int) == "java/lang/Class"@
                &&& env.class_name(STRING_CLASS as int) == "java/lang/String"@
                &&& env.class_name(THROWABLE_CLASS as int) == "java/lang/Throwable"@
                &&& env.class_name(BUFFER_CLASS as int) == "java/nio/ByteBuffer"@
                &&& env.has_class("java/lang/String"@)
                &&& env.has_class("java/lang/Object"@)
                &&& env.has_class("java/lang/Throwable"@)
            }),
    {
        Ok((self.make_env(), Capability::new()))
    }

    /// Attaches the current thread as a daemon, so that it does not keep
    /// the machine alive; the binding itself behaves as one from
    /// [`JavaVM::get_env`].
    pub fn get_env_daemon(&self) -> (r: Result<(JavaEnv, Capability), JniError>)
        ensures
            r is Ok,
            ({
                let env = r.unwrap().0;
                &&& env.wf()
                &&& !env.pending_excn()
                &&& env.env_version() == self.spec_version()
                &&& env.detach_owed()
                &&& env.ref_count() == 0
                &&& env.has_class("java/lang/String"@)
            }),
    {
        Ok((self.make_env(), Capability::new()))
    }

    // Builds a fresh binding with the bootstrap classes in their fixed
    // slots, no references, and no pending exception.
    fn make_env(&self) -> (env: JavaEnv)
        ensures
            env.wf(),
            !env.pending_excn(),
            env.env_version() == self.spec_version(),
            env.detach_owed(),
            env.ref_count() == 0,
            env.obj_count() == 5,
            env.class_name(OBJECT_CLASS as int) == "java/lang/Object"@,
            env.class_name(CLASS_CLASS as int) == "java/lang/Class"@,
            env.class_name(STRING_CLASS as int) == "java/lang/String"@,
            env.class_name(THROWABLE_CLASS as int) == "java/lang/Throwable"@,
            env.class_name(BUFFER_CLASS as int) == "java/nio/ByteBuffer"@,
            env.has_class("java/lang/String"@),
            env.has_class("java/lang/Object"@),
            env.has_class("java/lang/Throwable"@),
    {
        let mut objects: Vec<ObjEntry> = Vec::new();
        objects.push(boot_class("java/lang/Object", None));
        objects.push(boot_class("java/lang/Class", Some(OBJECT_CLASS)));
        objects.push(boot_class("java/lang/String", Some(OBJECT_CLASS)));
        objects.push(boot_class("java/lang/Throwable", Some(OBJECT_CLASS)));
        objects.push(boot_class("java/nio/ByteBuffer", Some(OBJECT_CLASS)));
        let env = JavaEnv {
            jvm: JavaVM { version: self.version },
            objects,
            refs: Vec::new(),
            pending: None,
            detach: true,
        };
        proof {
            assert forall|t: int| 0 <= t < env.objects@.len() implies env.obj_ok(t) by {}
        }
        env
    }
}

/// A held entry of an object's intrinsic monitor. Obtained by entering the
/// monitor and given back by [`JavaMonitor::exit`]: holding the value stands
/// for holding the lock, so exiting consumes it.
#[derive(Debug)]
pub struct JavaMonitor {
    target: usize,
}

impl JavaMonitor {
    /// The object slot whose monitor this entry holds.
    pub closed spec fn target_id(&self) -> int {
        self.target as int
    }

    /// Enters the object's monitor, blocking until it is acquired.
    pub fn new(env: &mut JavaEnv, obj: &JavaObject, cap: &Capability) -> (r: Result<
        JavaMonitor,
        JniError,
    >)
        requires
            old(env).wf(),
            obj.valid_in(old(env)),
            old(env).lock_count(obj.target(old(env))) < 0xFFFF_FFFF_FFFF_FFFF,
        ensures
            final(env).wf(),
            final(env).obj_count() == old(env).obj_count(),
            final(env).ref_count() == old(env).ref_count(),
            pending_unchanged(*old(env), *final(env)),
            forall|s: int| 0 <= s < old(env).ref_count() ==> ref_unchanged(*old(env), *final(env), s),
            forall|t: int|
                0 <= t < old(env).obj_count() ==> obj_unchanged(*old(env), *final(env), t),
            r is Ok,
            ({
                let m = r.unwrap();
                &&& m.target_id() == obj.target(old(env))
                &&& final(env).lock_count(m.target_id()) == old(env).lock_count(m.target_id()) + 1
                &&& forall|t: int|
                    0 <= t < old(env).obj_count() && t != m.target_id() ==> final(env).lock_count(
                        t,
                    ) == old(env).lock_count(t)
            }),
    {
        let err = env.monitor_enter(obj, cap);
        if err != JniError::JNI_OK {
            return Err(err);
        }
        let target = env.refs[obj.slot].target;
        proof {
            assert(ref_unchanged(*old(env), *env, obj.slot_id()));
        }
        Ok(JavaMonitor { target })
    }

    /// Leaves the monitor, consuming the held entry.
    pub fn exit(self, env: &mut JavaEnv, cap: &Capability) -> (r: JniError)
        requires
            old(env).wf(),
            self.target_id() < old(env).obj_count(),
            old(env).lock_count(self.target_id()) > 0,
        ensures
            final(env).wf(),
            final(env).obj_count() == old(env).obj_count(),
            final(env).ref_count() == old(env).ref_count(),
            pending_unchanged(*old(env), *final(env)),
            forall|s: int| 0 <= s < old(env).ref_count() ==> ref_unchanged(*old(env), *final(env), s),
            forall|t: int|
                0 <= t < old(env).obj_count() ==> obj_unchanged(*old(env), *final(env), t),
            r == JniError::JNI_OK,
            final(env).lock_count(self.target_id()) == old(env).lock_count(self.target_id()) - 1,
            forall|t: int|
                0 <= t < old(env).obj_count() && t != self.target_id() ==> final(env).lock_count(
                    t,
                ) == old(env).lock_count(t),
    {
        let _ = cap;
        let t = self.target;
        let n = env.objects[t].locks;
        env.objects[t].locks = n - 1;
        proof {
            assert forall|j: int| 0 <= j < env.objects@.len() implies env.obj_ok(j) by {
                if j != t {
                    assert(env.objects@[j] == old(env).objects@[j]);
                }
                assert(old(env).obj_ok(j));
            }
            assert(env.wf());
            assert forall|j: int|
                0 <= j < old(env).obj_count() implies obj_unchanged(*old(env), *env, j) by {
                if j != t {
                    assert(env.objects@[j] == old(env).objects@[j]);
                }
            }
            assert forall|s: int|
                0 <= s < old(env).ref_count() implies ref_unchanged(*old(env), *env, s) by {}
        }
        JniError::JNI_OK
    }
}

/// Reference-class discipline: each release operation succeeds exactly on
/// live references of its own class — that is the `Ok` condition of
/// [`JavaEnv::delete_local_ref`] and its siblings — so a reference
/// registered with one class never satisfies another class's release
/// operation, whether or not it is still live.
pub proof fn lemma_release_discipline(env: JavaEnv, s: int, used: RefType)
    requires
        env.ref_class(s) != used,
    ensures
        !(env.ref_alive(s) && env.ref_class(s) == used),
{
}

/// A valid reference stays valid, with the same target, across any
/// operation that only extends the binding.
pub proof fn lemma_valid_ref_extends(pre: JavaEnv, post: JavaEnv, s: int, rt: RefType)
    requires
        env_extends(pre, post),
        pre.valid_ref(s, rt),
    ensures
        post.valid_ref(s, rt),
        post.ref_target(s) == pre.ref_target(s),
{
    assert(ref_unchanged(pre, post, s));
}

/// Chaining two extensions is an extension.
pub proof fn lemma_env_extends_trans(a: JavaEnv, b: JavaEnv, c: JavaEnv)
    requires
        env_extends(a, b),
        env_extends(b, c),
    ensures
        env_extends(a, c),
{
    assert forall|t: int| 0 <= t < a.obj_count() implies obj_unchanged(a, c, t) by {
        assert(obj_unchanged(a, b, t));
        assert(obj_unchanged(b, c, t));
    }
    assert forall|t: int| 0 <= t < a.obj_count() implies c.lock_count(t) == a.lock_count(t) by {
        assert(b.lock_count(t) == a.lock_count(t));
    }
    assert forall|s: int| 0 <= s < a.ref_count() implies ref_unchanged(a, c, s) by {
        assert(ref_unchanged(a, b, s));
        assert(ref_unchanged(b, c, s));
    }
}

// Whether the entry is a class whose wire-form name buffer equals `jname`.
fn entry_is_class_named(e: &ObjEntry, jname: &JavaChars) -> (r: bool)
    ensures
        r == match e.kind {
            ObjKind::Class { data, .. } => data@ == jname@,
            _ => false,
        },
{
    match &e.kind {
        ObjKind::Class { data, .. } => bytes_eq(data.as_vec(), jname.as_vec()),
        _ => false,
    }
}

impl JavaEnv {
    // Registers a fresh reference of the given class to an existing object
    // and returns its slot.
    fn add_ref(&mut self, target: usize, rtype: RefType) -> (h: usize)
        requires
            old(self).wf(),
            (target as int) < old(self).obj_count(),
        ensures
            final(self).wf(),
            env_extends(*old(self), *final(self)),
            pending_unchanged(*old(self), *final(self)),
            final(self).obj_count() == old(self).obj_count(),
            final(self).ref_count() == old(self).ref_count() + 1,
            h as int == old(self).ref_count(),
            final(self).valid_ref(h as int, rtype),
            final(self).ref_target(h as int) == target as int,
    {
        let h = self.refs.len();
        self.refs.push(RefEntry { target, rtype, alive: true });
        proof {
            assert forall|t: int| 0 <= t < self.objects@.len() implies self.obj_ok(t) by {
                assert(old(self).obj_ok(t));
            }
            assert forall|s: int|
                0 <= s < self.refs@.len() implies (self.refs@[s].target as int)
                    < self.objects@.len() by {
                if s < old(self).refs@.len() {
                    assert(self.refs@[s] == old(self).refs@[s]);
                }
            }
            assert(self.wf());
            assert forall|t: int|
                0 <= t < old(self).obj_count() implies obj_unchanged(*old(self), *self, t) by {}
            assert forall|s: int|
                0 <= s < old(self).ref_count() implies ref_unchanged(*old(self), *self, s) by {
                assert(self.refs@[s] == old(self).refs@[s]);
            }
        }
        h
    }

    // Appends a fresh object and returns its slot; the caller shows the
    // entry is internally consistent.
    fn add_obj(&mut self, entry: ObjEntry) -> (t: usize)
        requires
            old(self).wf(),
            entry.locks == 0,
            match entry.kind {
                ObjKind::Class { chars, data, sup } => {
                    &&& data@ == mutf8_encode(chars@) + seq![0u8]
                    &&& match sup {
                        Some(p) => (p as int) < old(self).obj_count() && old(self).is_class(
                            p as int,
                        ),
                        None => true,
                    }
                },
                ObjKind::Instance { class } => old(self).is_class(class as int),
                ObjKind::Text { chars, data } => {
                    &&& data@ == mutf8_encode(chars@) + seq![0u8]
                    &&& utf16_len(chars@) <= 0x7FFF_FFFF
                },
                ObjKind::Buffer { .. } => true,
                ObjKind::Arr(..) => true,
            },
        ensures
            final(self).wf(),
            env_extends(*old(self), *final(self)),
            pending_unchanged(*old(self), *final(self)),
            final(self).ref_count() == old(self).ref_count(),
            final(self).obj_count() == old(self).obj_count() + 1,
            t as int == old(self).obj_count(),
            final(self).lock_count(t as int) == 0,
            match entry.kind {
                ObjKind::Class { chars, sup, .. } => {
                    &&& final(self).is_class(t as int)
                    &&& final(self).class_name(t as int) == chars@
                    &&& final(self).class_sup(t as int) == match sup {
                        Some(p) => Some(p as int),
                        None => None::<int>,
                    }
                },
                ObjKind::Instance { class } => final(self).is_instance(t as int)
                    && final(self).instance_class(t as int) == class as int,
                ObjKind::Text { chars, .. } => final(self).is_text(t as int)
                    && final(self).text_chars(t as int) == chars@,
                ObjKind::Buffer { size } => final(self).is_buffer(t as int)
                    && final(self).buffer_size(t as int) == size as int,
                ObjKind::Arr(v) => final(self).is_arr(t as int) && final(self).arr_val(t as int)
                    == Some(v),
            },
    {
        let t = self.objects.len();
        self.objects.push(entry);
        proof {
            assert forall|j: int| 0 <= j < self.objects@.len() implies self.obj_ok(j) by {
                if j < t {
                    assert(self.objects@[j] == old(self).objects@[j]);
                    assert(old(self).obj_ok(j));
                }
            }
            assert forall|s: int|
                0 <= s < self.refs@.len() implies (self.refs@[s].target as int)
                    < self.objects@.len() by {}
            assert(self.wf());
            assert forall|j: int|
                0 <= j < old(self).obj_count() implies obj_unchanged(*old(self), *self, j) by {
                assert(self.objects@[j] == old(self).objects@[j]);
            }
            assert forall|j: int|
                0 <= j < old(self).obj_count() implies self.lock_count(j) == old(self).lock_count(
                j,
            ) by {
                assert(self.objects@[j] == old(self).objects@[j]);
            }
            assert forall|s: int|
                0 <= s < old(self).ref_count() implies ref_unchanged(*old(self), *self, s) by {}
        }
        t
    }

    // Records the object at `idx` as the pending exception.
    fn set_pending(&mut self, idx: usize)
        requires
            old(self).wf(),
            (idx as int) < old(self).obj_count(),
        ensures
            final(self).wf(),
            env_extends(*old(self), *final(self)),
            final(self).pending_excn(),
            final(self).pending_target() == idx as int,
            final(self).obj_count() == old(self).obj_count(),
            final(self).ref_count() == old(self).ref_count(),
    {
        self.pending = Some(idx);
        proof {
            assert forall|t: int| 0 <= t < self.objects@.len() implies self.obj_ok(t) by {
                assert(old(self).obj_ok(t));
            }
            assert(self.wf());
            assert forall|t: int|
                0 <= t < old(self).obj_count() implies obj_unchanged(*old(self), *self, t) by {}
            assert forall|s: int|
                0 <= s < old(self).ref_count() implies ref_unchanged(*old(self), *self, s) by {}
        }
    }

    // Finds the slot of the class whose wire-form name buffer equals the
    // query's; the ghost argument carries the query's characters.
    fn class_lookup(&self, jname: &JavaChars, name: Ghost<Seq<char>>) -> (r: Option<usize>)
        requires
            self.wf(),
            jname@ == mutf8_encode(name@) + seq![0u8],
        ensures
            match r {
                Some(t) => (t as int) < self.obj_count() && self.is_class(t as int)
                    && self.class_name(t as int) == name@,
                None => !self.has_class(name@),
            },
    {
        let n = self.objects.len();
        let mut t: usize = 0;
        while t < n
            invariant
                t <= n,
                n == self.obj_count(),
                self.wf(),
                jname@ == mutf8_encode(name@) + seq![0u8],
                forall|j: int| 0 <= j < t ==> !(self.is_class(j) && self.class_name(j) == name@),
            decreases n - t,
        {
            let matched = entry_is_class_named(&self.objects[t], jname);
            proof {
                if self.is_class(t as int) {
                    assert(self.obj_ok(t as int));
                    // equal buffers carry equal names: both sides decode by
                    // the round-trip law, and a name determines its buffer
                    lemma_mutf8_round_trip(self.class_name(t as int));
                    lemma_mutf8_round_trip(name@);
                    assert(matched == (mutf8_encode(self.class_name(t as int)) + seq![0u8]
                        == jname@));
                    assert(matched == (self.class_name(t as int) == name@));
                }
            }
            if matched {
                return Some(t);
            }
            t = t + 1;
        }
        None
    }

    /// The machine this binding belongs to.
    pub fn jvm(&self) -> (vm: &JavaVM)
        ensures
            vm.spec_version() == self.env_version(),
    {
        &self.jvm
    }

    /// The interface version of the machine, which never exceeds what the
    /// binding was attached with.
    pub fn version(&self, _cap: &Capability) -> (v: JniVersion)
        ensures
            v == self.env_version(),
    {
        self.jvm.version
    }

    /// Looks a class up by name. Returns a fresh scoped handle to it, or
    /// raises an exception — a not-found throwable becomes the pending
    /// exception — exactly when no loaded class bears the name.
    pub fn find_class(&mut self, name: &str, cap: Capability) -> (r: JniResult<JavaClass>)
        requires
            old(self).wf(),
            !old(self).pending_excn(),
        ensures
            final(self).wf(),
            env_extends(*old(self), *final(self)),
            r is Ok <==> old(self).has_class(name@),
            r is Ok ==> ({
                let cls = r.unwrap().0;
                &&& !final(self).pending_excn()
                &&& cls.valid_class(final(self))
                &&& cls.spec_ref_type() == RefType::Local
                &&& final(self).class_name(cls.target(final(self))) == name@
                &&& final(self).obj_count() == old(self).obj_count()
                &&& final(self).ref_count() == old(self).ref_count() + 1
            }),
            r is Err ==> ({
                &&& final(self).pending_excn()
                &&& final(self).is_instance(final(self).pending_target())
                &&& final(self).instance_class(final(self).pending_target())
                    == THROWABLE_CLASS as int
                &&& final(self).ref_count() == old(self).ref_count()
                &&& final(self).obj_count() == old(self).obj_count() + 1
            }),
    {
        let _ = cap;
        let jname = JavaChars::new(name);
        match self.class_lookup(&jname, Ghost(name@)) {
            Some(t) => {
                proof {
                    assert(old(self).is_class(t as int) && old(self).class_name(t as int)
                        == name@);
                    assert(old(self).has_class(name@));
                }
                let slot = self.add_ref(t, RefType::Local);
                proof {
                    assert(obj_unchanged(*old(self), *self, t as int));
                }
                Ok((JavaClass { slot, rtype: RefType::Local }, Capability::new()))
            },
            None => {
                let idx = self.add_obj(
                    ObjEntry { kind: ObjKind::Instance { class: THROWABLE_CLASS }, locks: 0 },
                );
                let ghost mid = *self;
                self.set_pending(idx);
                proof {
                    lemma_env_extends_trans(*old(self), mid, *self);
                    assert(obj_unchanged(mid, *self, idx as int));
                }
                Err(Exception::new())
            },
        }
    }

    /// Defines a new class under the given name, from a loader and class
    /// bytes. Raises an exception — the duplicate-definition throwable
    /// becomes pending — exactly when the name is already taken; the class
    /// bytes themselves are the machine's business.
    pub fn define_class(
        &mut self,
        name: &str,
        loader: &JavaObject,
        buf: &[u8],
        cap: Capability,
    ) -> (r: JniResult<JavaClass>)
        requires
            old(self).wf(),
            !old(self).pending_excn(),
            loader.valid_in(old(self)),
        ensures
            final(self).wf(),
            env_extends(*old(self), *final(self)),
            r is Ok <==> !old(self).has_class(name@),
            r is Ok ==> ({
                let cls = r.unwrap().0;
                &&& !final(self).pending_excn()
                &&& cls.valid_class(final(self))
                &&& cls.spec_ref_type() == RefType::Local
                &&& final(self).class_name(cls.target(final(self))) == name@
                &&& final(self).class_sup(cls.target(final(self))) == Some(OBJECT_CLASS as int)
                &&& final(self).has_class(name@)
                &&& final(self).obj_count() == old(self).obj_count() + 1
            }),
            r is Err ==> final(self).pending_excn(),
    {
        let _ = cap;
        let _ = buf;
        let jname = JavaChars::new(name);
        match self.class_lookup(&jname, Ghost(name@)) {
            Some(t) => {
                proof {
                    assert(old(self).is_class(t as int) && old(self).class_name(t as int)
                        == name@);
                    assert(old(self).has_class(name@));
                }
                let idx = self.add_obj(
                    ObjEntry { kind: ObjKind::Instance { class: THROWABLE_CLASS }, locks: 0 },
                );
                let ghost mid = *self;
                self.set_pending(idx);
                proof {
                    lemma_env_extends_trans(*old(self), mid, *self);
                }
                Err(Exception::new())
            },
            None => {
                let chars = str_chars(name);
                let idx = self.add_obj(
                    ObjEntry {
                        kind: ObjKind::Class { chars, data: jname, sup: Some(OBJECT_CLASS) },
                        locks: 0,
                    },
                );
                let ghost mid = *self;
                let slot = self.add_ref(idx, RefType::Local);
                proof {
                    lemma_env_extends_trans(*old(self), mid, *self);
                    assert(obj_unchanged(mid, *self, idx as int));
                    assert(self.is_class(idx as int) && self.class_name(idx as int) == name@);
                    assert(self.has_class(name@));
                }
                Ok((JavaClass { slot, rtype: RefType::Local }, Capability::new()))
            },
        }
    }

    /// The class of the given object, as a fresh scoped handle. Never
    /// fails: every object has a class.
    pub fn get_object_class(&mut self, obj: &JavaObject, _cap: &Capability) -> (cls: JavaClass)
        requires
            old(self).wf(),
            obj.valid_in(old(self)),
        ensures
            final(self).wf(),
            env_extends(*old(self), *final(self)),
            pending_unchanged(*old(self), *final(self)),
            final(self).obj_count() == old(self).obj_count(),
            final(self).ref_count() == old(self).ref_count() + 1,
            cls.valid_class(final(self)),
            cls.spec_ref_type() == RefType::Local,
            cls.target(final(self)) == old(self).class_of(obj.target(old(self))),
    {
        let target = self.refs[obj.slot].target;
        proof {
            assert(self.obj_ok(target as int));
        }
        let c = match &self.objects[target].kind {
            ObjKind::Class { .. } => CLASS_CLASS,
            ObjKind::Instance { class } => *class,
            ObjKind::Text { .. } => STRING_CLASS,
            ObjKind::Buffer { .. } => BUFFER_CLASS,
            ObjKind::Arr(..) => OBJECT_CLASS,
        };
        proof {
            assert((c as int) < self.obj_count() && self.is_class(c as int));
            assert(c as int == self.class_of(obj.target(self)));
        }
        let slot = self.add_ref(c, RefType::Local);
        proof {
            assert(obj_unchanged(*old(self), *self, c as int));
        }
        JavaClass { slot, rtype: RefType::Local }
    }

    /// The superclass of the given class, as a fresh scoped handle; `None`
    /// exactly for the root class.
    pub fn get_super_class(&mut self, cls: &JavaClass, _cap: &Capability) -> (r: Option<
        JavaClass,
    >)
        requires
            old(self).wf(),
            cls.valid_class(old(self)),
        ensures
            final(self).wf(),
            env_extends(*old(self), *final(self)),
            pending_unchanged(*old(self), *final(self)),
            final(self).obj_count() == old(self).obj_count(),
            r is Some <==> old(self).class_sup(cls.target(old(self))) is Some,
            r is Some ==> ({
                let sup = r.unwrap();
                &&& sup.valid_class(final(self))
                &&& sup.spec_ref_type() == RefType::Local
                &&& Some(sup.target(final(self))) == old(self).class_sup(cls.target(old(self)))
            }),
            r is None ==> final(self).ref_count() == old(self).ref_count(),
    {
        let target = self.refs[cls.slot].target;
        proof {
            assert(self.obj_ok(target as int));
        }
        let sup = match &self.objects[target].kind {
            ObjKind::Class { sup, .. } => *sup,
            _ => None,
        };
        match sup {
            Some(p) => {
                proof {
                    assert((p as int) < self.obj_count() && self.is_class(p as int));
                }
                let slot = self.add_ref(p, RefType::Local);
                proof {
                    assert(obj_unchanged(*old(self), *self, p as int));
                }
                Some(JavaClass { slot, rtype: RefType::Local })
            },
            None => None,
        }
    }

    // Walks the superclass chain upward from `from`, looking for `to`.
    fn class_walk(&self, from: usize, to: usize) -> (r: bool)
        requires
            self.wf(),
            self.is_class(from as int),
            (to as int) < self.obj_count(),
        ensures
            r == self.assignable(from as int, to as int),
    {
        let mut cur = from;
        loop
            invariant
                self.wf(),
                self.is_class(cur as int),
                (to as int) < self.obj_count(),
                self.assignable(from as int, to as int) == self.assignable(
                    cur as int,
                    to as int,
                ),
            decreases cur,
        {
            if cur == to {
                return true;
            }
            proof {
                assert(self.obj_ok(cur as int));
            }
            let nxt = match &self.objects[cur].kind {
                ObjKind::Class { sup, .. } => *sup,
                _ => None,
            };
            match nxt {
                Some(p) => {
                    cur = p;
                },
                None => {
                    return false;
                },
            }
        }
    }

    /// Whether a value of class `sub` can be used where class `sup` is
    /// asked for: `sub` is `sup` or inherits from it.
    pub fn is_assignable_from(&self, sub: &JavaClass, sup: &JavaClass, _cap: &Capability) -> (r:
        bool)
        requires
            self.wf(),
            sub.valid_class(self),
            sup.valid_class(self),
        ensures
            r == self.assignable(sub.target(self), sup.target(self)),
    {
        let f = self.refs[sub.slot].target;
        let t = self.refs[sup.slot].target;
        self.class_walk(f, t)
    }

    /// Whether the object could be assigned to the given class.
    pub fn is_instance_of(&self, obj: &JavaObject, cls: &JavaClass, _cap: &Capability) -> (r:
        bool)
        requires
            self.wf(),
            obj.valid_in(self),
            cls.valid_class(self),
        ensures
            r == self.assignable(self.class_of(obj.target(self)), cls.target(self)),
    {
        let target = self.refs[obj.slot].target;
        proof {
            assert(self.obj_ok(target as int));
        }
        let c = match &self.objects[target].kind {
            ObjKind::Class { .. } => CLASS_CLASS,
            ObjKind::Instance { class } => *class,
            ObjKind::Text { .. } => STRING_CLASS,
            ObjKind::Buffer { .. } => BUFFER_CLASS,
            ObjKind::Arr(..) => OBJECT_CLASS,
        };
        proof {
            assert(c as int == self.class_of(obj.target(self)) && self.is_class(c as int));
        }
        let t = self.refs[cls.slot].target;
        self.class_walk(c, t)
    }

    /// Whether two handles refer to the same object.
    pub fn is_same_object(&self, a: &JavaObject, b: &JavaObject, _cap: &Capability) -> (r: bool)
        requires
            self.wf(),
            a.valid_in(self),
            b.valid_in(self),
        ensures
            r == (a.target(self) == b.target(self)),
    {
        self.refs[a.slot].target == self.refs[b.slot].target
    }

    /// Whether the handle refers to the null object. A live reference in
    /// this machine never does: nothing is collected behind a registered
    /// reference.
    pub fn is_null(&self, obj: &JavaObject, _cap: &Capability) -> (r: bool)
        requires
            self.wf(),
            obj.valid_in(self),
        ensures
            !r,
    {
        let _ = obj;
        false
    }

    /// Makes the given throwable the pending exception. The thrown object
    /// is accepted as it stands, so this always succeeds; afterwards only
    /// the exception-inspection operations are reachable.
    pub fn throw(&mut self, obj: &JavaThrowable, cap: Capability) -> (r: Result<
        Exception,
        JniError,
    >)
        requires
            old(self).wf(),
            !old(self).pending_excn(),
            obj.valid_in(old(self)),
        ensures
            final(self).wf(),
            env_extends(*old(self), *final(self)),
            final(self).obj_count() == old(self).obj_count(),
            final(self).ref_count() == old(self).ref_count(),
            r is Ok,
            final(self).pending_excn(),
            final(self).pending_target() == obj.target(old(self)),
    {
        let _ = cap;
        let target = self.refs[obj.slot].target;
        self.set_pending(target);
        Ok(Exception::new())
    }

    /// Creates a fresh instance of the given throwable class with the given
    /// message and makes it pending. Always succeeds for a valid class; the
    /// message text is the machine's to keep.
    pub fn throw_new(&mut self, cls: &JavaClass, msg: &str, cap: Capability) -> (r: Result<
        Exception,
        JniError,
    >)
        requires
            old(self).wf(),
            !old(self).pending_excn(),
            cls.valid_class(old(self)),
        ensures
            final(self).wf(),
            env_extends(*old(self), *final(self)),
            final(self).obj_count() == old(self).obj_count() + 1,
            final(self).ref_count() == old(self).ref_count(),
            r is Ok,
            final(self).pending_excn(),
            final(self).pending_target() == old(self).obj_count(),
            final(self).is_instance(final(self).pending_target()),
            final(self).instance_class(final(self).pending_target()) == cls.target(old(self)),
    {
        let _ = cap;
        let _ = msg;
        let target = self.refs[cls.slot].target;
        let idx = self.add_obj(ObjEntry { kind: ObjKind::Instance { class: target }, locks: 0 });
        let ghost mid = *self;
        self.set_pending(idx);
        proof {
            lemma_env_extends_trans(*old(self), mid, *self);
            assert(obj_unchanged(mid, *self, idx as int));
        }
        Ok(Exception::new())
    }

    /// Reports whether an exception is pending, as a token: the clear
    /// capability exactly when none is.
    pub fn exception_check(&self) -> (r: Result<Capability, Exception>)
        ensures
            r is Ok <==> !self.pending_excn(),
    {
        match self.pending {
            None => Ok(Capability::new()),
            Some(_) => Err(Exception::new()),
        }
    }

    /// Like [`JavaEnv::exception_check`], but on a pending exception also
    /// hands out a fresh scoped handle to the thrown object.
    pub fn exception_occured(&mut self) -> (r: Result<Capability, (JavaThrowable, Exception)>)
        requires
            old(self).wf(),
        ensures
            final(self).wf(),
            env_extends(*old(self), *final(self)),
            pending_unchanged(*old(self), *final(self)),
            final(self).obj_count() == old(self).obj_count(),
            r is Ok <==> !old(self).pending_excn(),
            r is Ok ==> final(self).ref_count() == old(self).ref_count(),
            r is Err ==> ({
                let t = r.unwrap_err().0;
                &&& t.valid_in(final(self))
                &&& t.spec_ref_type() == RefType::Local
                &&& t.target(final(self)) == old(self).pending_target()
            }),
    {
        match self.pending {
            None => Ok(Capability::new()),
            Some(t) => {
                let slot = self.add_ref(t, RefType::Local);
                Err((JavaThrowable { slot, rtype: RefType::Local }, Exception::new()))
            },
        }
    }

    /// Writes the pending exception's description to the machine's
    /// diagnostic channel; the binding's state is untouched.
    pub fn exception_describe(&self, _exn: &Exception) {
    }

    /// Clears the pending exception, consuming its token; the returned
    /// capability witnesses that the thread is clear again.
    pub fn exception_clear(&mut self, exn: Exception) -> (cap: Capability)
        requires
            old(self).wf(),
        ensures
            final(self).wf(),
            env_extends(*old(self), *final(self)),
            !final(self).pending_excn(),
            final(self).obj_count() == old(self).obj_count(),
            final(self).ref_count() == old(self).ref_count(),
    {
        let _ = exn;
        self.pending = None;
        proof {
            assert forall|t: int| 0 <= t < self.objects@.len() implies self.obj_ok(t) by {
                assert(old(self).obj_ok(t));
            }
            assert(self.wf());
            assert forall|t: int|
                0 <= t < old(self).obj_count() implies obj_unchanged(*old(self), *self, t) by {}
            assert forall|s: int|
                0 <= s < old(self).ref_count() implies ref_unchanged(*old(self), *self, s) by {}
        }
        Capability::new()
    }

    /// Allocates a fresh, uninitialized instance of the given class and
    /// returns a scoped handle to it. Never fails for a valid class.
    pub fn alloc_object(&mut self, cls: &JavaClass, cap: Capability) -> (r: JniResult<
        JavaObject,
    >)
        requires
            old(self).wf(),
            !old(self).pending_excn(),
            cls.valid_class(old(self)),
        ensures
            final(self).wf(),
            env_extends(*old(self), *final(self)),
            !final(self).pending_excn(),
            r is Ok,
            final(self).obj_count() == old(self).obj_count() + 1,
            final(self).ref_count() == old(self).ref_count() + 1,
            ({
                let obj = r.unwrap().0;
                &&& obj.valid_in(final(self))
                &&& obj.spec_ref_type() == RefType::Local
                &&& final(self).is_instance(obj.target(final(self)))
                &&& final(self).instance_class(obj.target(final(self))) == cls.target(old(self))
            }),
    {
        let _ = cap;
        let target = self.refs[cls.slot].target;
        let idx = self.add_obj(ObjEntry { kind: ObjKind::Instance { class: target }, locks: 0 });
        let ghost mid = *self;
        let slot = self.add_ref(idx, RefType::Local);
        proof {
            lemma_env_extends_trans(*old(self), mid, *self);
            assert(obj_unchanged(mid, *self, idx as int));
        }
        Ok((JavaObject { slot, rtype: RefType::Local }, Capability::new()))
    }

    /// Registers one more scoped reference to the object and returns the
    /// fresh handle.
    pub fn new_local_ref(&mut self, obj: &JavaObject, cap: Capability) -> (r: JniResult<
        JavaObject,
    >)
        requires
            old(self).wf(),
            !old(self).pending_excn(),
            obj.valid_in(old(self)),
        ensures
            final(self).wf(),
            env_extends(*old(self), *final(self)),
            !final(self).pending_excn(),
            r is Ok,
            final(self).obj_count() == old(self).obj_count(),
            final(self).ref_count() == old(self).ref_count() + 1,
            ({
                let h = r.unwrap().0;
                &&& h.valid_in(final(self))
                &&& h.spec_ref_type() == RefType::Local
                &&& h.target(final(self)) == obj.target(old(self))
            }),
    {
        let _ = cap;
        let t = self.refs[obj.slot].target;
        let slot = self.add_ref(t, RefType::Local);
        Ok((JavaObject { slot, rtype: RefType::Local }, Capability::new()))
    }

    /// Registers a durable reference to the object: one that survives the
    /// binding's frame and may be shared across threads until explicitly
    /// released.
    pub fn new_global_ref(&mut self, obj: &JavaObject, cap: Capability) -> (r: JniResult<
        JavaObject,
    >)
        requires
            old(self).wf(),
            !old(self).pending_excn(),
            obj.valid_in(old(self)),
        ensures
            final(self).wf(),
            env_extends(*old(self), *final(self)),
            !final(self).pending_excn(),
            r is Ok,
            final(self).obj_count() == old(self).obj_count(),
            final(self).ref_count() == old(self).ref_count() + 1,
            ({
                let h = r.unwrap().0;
                &&& h.valid_in(final(self))
                &&& h.spec_ref_type() == RefType::Global
                &&& h.target(final(self)) == obj.target(old(self))
            }),
    {
        let _ = cap;
        let t = self.refs[obj.slot].target;
        let slot = self.add_ref(t, RefType::Global);
        Ok((JavaObject { slot, rtype: RefType::Global }, Capability::new()))
    }

    /// Registers a weak reference to the object: the referent may be
    /// collected, so every use must re-check liveness.
    pub fn new_weak_ref(&mut self, obj: &JavaObject, cap: Capability) -> (r: JniResult<
        JavaObject,
    >)
        requires
            old(self).wf(),
            !old(self).pending_excn(),
            obj.valid_in(old(self)),
        ensures
            final(self).wf(),
            env_extends(*old(self), *final(self)),
            !final(self).pending_excn(),
            r is Ok,
            final(self).obj_count() == old(self).obj_count(),
            final(self).ref_count() == old(self).ref_count() + 1,
            ({
                let h = r.unwrap().0;
                &&& h.valid_in(final(self))
                &&& h.spec_ref_type() == RefType::Weak
                &&& h.target(final(self)) == obj.target(old(self))
            }),
    {
        let _ = cap;
        let t = self.refs[obj.slot].target;
        let slot = self.add_ref(t, RefType::Weak);
        Ok((JavaObject { slot, rtype: RefType::Weak }, Capability::new()))
    }

    // Releases a reference, insisting that it was registered with exactly
    // the reference class `expect`: using the wrong release operation for a
    // handle's class is a contract violation and is reported, never ignored.
    fn delete_ref_typed(&mut self, obj: JavaObject, expect: RefType) -> (r: Result<(), JniError>)
        requires
            old(self).wf(),
        ensures
            final(self).wf(),
            final(self).env_version() == old(self).env_version(),
            final(self).detach_owed() == old(self).detach_owed(),
            final(self).obj_count() == old(self).obj_count(),
            final(self).ref_count() == old(self).ref_count(),
            pending_unchanged(*old(self), *final(self)),
            forall|t: int|
                0 <= t < old(self).obj_count() ==> obj_unchanged(*old(self), *final(self), t),
            forall|t: int|
                0 <= t < old(self).obj_count() ==> final(self).lock_count(t) == old(
                    self,
                ).lock_count(t),
            forall|s: int|
                0 <= s < old(self).ref_count() && s != obj.slot_id() ==> ref_unchanged(
                    *old(self),
                    *final(self),
                    s,
                ),
            r is Ok <==> old(self).ref_alive(obj.slot_id()) && old(self).ref_class(obj.slot_id())
                == expect,
            r is Ok ==> !final(self).ref_alive(obj.slot_id()),
            r is Err ==> ref_unchanged(*old(self), *final(self), obj.slot_id()) && r.unwrap_err()
                == JniError::JNI_EINVAL,
    {
        let slot = obj.slot;
        if slot >= self.refs.len() {
            return Err(JniError::JNI_EINVAL);
        }
        let alive = self.refs[slot].alive;
        let rt = self.refs[slot].rtype;
        if !(alive && rt == expect) {
            return Err(JniError::JNI_EINVAL);
        }
        self.refs[slot].alive = false;
        proof {
            assert forall|t: int| 0 <= t < self.objects@.len() implies self.obj_ok(t) by {
                assert(old(self).obj_ok(t));
            }
            assert forall|s: int|
                0 <= s < self.refs@.len() implies (self.refs@[s].target as int)
                    < self.objects@.len() by {
                if s != slot {
                    assert(self.refs@[s] == old(self).refs@[s]);
                }
            }
            assert(self.wf());
            assert forall|t: int|
                0 <= t < old(self).obj_count() implies obj_unchanged(*old(self), *self, t) by {}
            assert forall|s: int|
                0 <= s < old(self).ref_count() && s != obj.slot_id() implies ref_unchanged(
                *old(self),
                *self,
                s,
            ) by {
                assert(self.refs@[s] == old(self).refs@[s]);
            }
        }
        Ok(())
    }

    /// Releases a scoped reference. Fails with an invalid-argument error —
    /// and releases nothing — unless the handle is live and scoped.
    pub fn delete_local_ref(&mut self, obj: JavaObject, _cap: &Capability) -> (r: Result<
        (),
        JniError,
    >)
        requires
            old(self).wf(),
        ensures
            final(self).wf(),
            final(self).obj_count() == old(self).obj_count(),
            final(self).ref_count() == old(self).ref_count(),
            pending_unchanged(*old(self), *final(self)),
            forall|s: int|
                0 <= s < old(self).ref_count() && s != obj.slot_id() ==> ref_unchanged(
                    *old(self),
                    *final(self),
                    s,
                ),
            forall|t: int|
                0 <= t < old(self).obj_count() ==> obj_unchanged(*old(self), *final(self), t),
            r is Ok <==> old(self).ref_alive(obj.slot_id()) && old(self).ref_class(obj.slot_id())
                == RefType::Local,
            r is Ok ==> !final(self).ref_alive(obj.slot_id()),
            r is Err ==> ref_unchanged(*old(self), *final(self), obj.slot_id()) && r.unwrap_err()
                == JniError::JNI_EINVAL,
    {
        self.delete_ref_typed(obj, RefType::Local)
    }

    /// Releases a durable reference. Fails with an invalid-argument error —
    /// and releases nothing — unless the handle is live and durable.
    pub fn delete_global_ref(&mut self, obj: JavaObject, _cap: &Capability) -> (r: Result<
        (),
        JniError,
    >)
        requires
            old(self).wf(),
        ensures
            final(self).wf(),
            final(self).obj_count() == old(self).obj_count(),
            final(self).ref_count() == old(self).ref_count(),
            pending_unchanged(*old(self), *final(self)),
            forall|s: int|
                0 <= s < old(self).ref_count() && s != obj.slot_id() ==> ref_unchanged(
                    *old(self),
                    *final(self),
                    s,
                ),
            forall|t: int|
                0 <= t < old(self).obj_count() ==> obj_unchanged(*old(self), *final(self), t),
            r is Ok <==> old(self).ref_alive(obj.slot_id()) && old(self).ref_class(obj.slot_id())
                == RefType::Global,
            r is Ok ==> !final(self).ref_alive(obj.slot_id()),
            r is Err ==> ref_unchanged(*old(self), *final(self), obj.slot_id()) && r.unwrap_err()
                == JniError::JNI_EINVAL,
    {
        self.delete_ref_typed(obj, RefType::Global)
    }

    /// Releases a weak reference. Fails with an invalid-argument error —
    /// and releases nothing — unless the handle is live and weak.
    pub fn delete_weak_ref(&mut self, obj: JavaObject, _cap: &Capability) -> (r: Result<
        (),
        JniError,
    >)
        requires
            old(self).wf(),
        ensures
            final(self).wf(),
            final(self).obj_count() == old(self).obj_count(),
            final(self).ref_count() == old(self).ref_count(),
            pending_unchanged(*old(self), *final(self)),
            forall|s: int|
                0 <= s < old(self).ref_count() && s != obj.slot_id() ==> ref_unchanged(
                    *old(self),
                    *final(self),
                    s,
                ),
            forall|t: int|
                0 <= t < old(self).obj_count() ==> obj_unchanged(*old(self), *final(self), t),
            r is Ok <==> old(self).ref_alive(obj.slot_id()) && old(self).ref_class(obj.slot_id())
                == RefType::Weak,
            r is Ok ==> !final(self).ref_alive(obj.slot_id()),
            r is Err ==> ref_unchanged(*old(self), *final(self), obj.slot_id()) && r.unwrap_err()
                == JniError::JNI_EINVAL,
    {
        self.delete_ref_typed(obj, RefType::Weak)
    }

    /// Releases a handle by the operation its own reference class
    /// prescribes: the release logic is selected by the tag the handle
    /// carries, so a live handle is always released successfully.
    pub fn delete_ref(&mut self, obj: JavaObject, cap: &Capability) -> (r: Result<(), JniError>)
        requires
            old(self).wf(),
        ensures
            final(self).wf(),
            final(self).obj_count() == old(self).obj_count(),
            final(self).ref_count() == old(self).ref_count(),
            pending_unchanged(*old(self), *final(self)),
            r is Ok <==> old(self).ref_alive(obj.slot_id()) && old(self).ref_class(obj.slot_id())
                == obj.spec_ref_type(),
            r is Ok ==> !final(self).ref_alive(obj.slot_id()),
    {
        let rt = obj.rtype;
        match rt {
            RefType::Local => self.delete_local_ref(obj, cap),
            RefType::Global => self.delete_global_ref(obj, cap),
            RefType::Weak => self.delete_weak_ref(obj, cap),
        }
    }

    /// Enters the object's intrinsic monitor, blocking until it is
    /// acquired; entries nest.
    pub fn monitor_enter(&mut self, obj: &JavaObject, _cap: &Capability) -> (r: JniError)
        requires
            old(self).wf(),
            obj.valid_in(old(self)),
            old(self).lock_count(obj.target(old(self))) < 0xFFFF_FFFF_FFFF_FFFF,
        ensures
            final(self).wf(),
            final(self).env_version() == old(self).env_version(),
            final(self).obj_count() == old(self).obj_count(),
            final(self).ref_count() == old(self).ref_count(),
            pending_unchanged(*old(self), *final(self)),
            forall|s: int| 0 <= s < old(self).ref_count() ==> ref_unchanged(*old(self), *final(self), s),
            forall|t: int|
                0 <= t < old(self).obj_count() ==> obj_unchanged(*old(self), *final(self), t),
            forall|t: int|
                0 <= t < old(self).obj_count() && t != obj.target(old(self))
                    ==> final(self).lock_count(t) == old(self).lock_count(t),
            final(self).lock_count(obj.target(old(self))) == old(self).lock_count(
                obj.target(old(self)),
            ) + 1,
            r == JniError::JNI_OK,
    {
        let t = self.refs[obj.slot].target;
        let n = self.objects[t].locks;
        self.objects[t].locks = n + 1;
        proof {
            assert forall|j: int| 0 <= j < self.objects@.len() implies self.obj_ok(j) by {
                if j != t {
                    assert(self.objects@[j] == old(self).objects@[j]);
                }
                assert(old(self).obj_ok(j));
            }
            assert(self.wf());
            assert forall|j: int|
                0 <= j < old(self).obj_count() implies obj_unchanged(*old(self), *self, j) by {
                if j != t {
                    assert(self.objects@[j] == old(self).objects@[j]);
                }
            }
            assert forall|s: int|
                0 <= s < old(self).ref_count() implies ref_unchanged(*old(self), *self, s) by {}
        }
        JniError::JNI_OK
    }

    /// Leaves the object's intrinsic monitor. Reports an error — and
    /// changes nothing — when the monitor is not held.
    pub fn monitor_exit(&mut self, obj: &JavaObject, _cap: &Capability) -> (r: JniError)
        requires
            old(self).wf(),
            obj.valid_in(old(self)),
        ensures
            final(self).wf(),
            final(self).env_version() == old(self).env_version(),
            final(self).obj_count() == old(self).obj_count(),
            final(self).ref_count() == old(self).ref_count(),
            pending_unchanged(*old(self), *final(self)),
            forall|s: int| 0 <= s < old(self).ref_count() ==> ref_unchanged(*old(self), *final(self), s),
            forall|t: int|
                0 <= t < old(self).obj_count() ==> obj_unchanged(*old(self), *final(self), t),
            forall|t: int|
                0 <= t < old(self).obj_count() && t != obj.target(old(self))
                    ==> final(self).lock_count(t) == old(self).lock_count(t),
            r == JniError::JNI_OK <==> old(self).lock_count(obj.target(old(self))) > 0,
            r == JniError::JNI_OK ==> final(self).lock_count(obj.target(old(self)))
                == old(self).lock_count(obj.target(old(self))) - 1,
            r != JniError::JNI_OK ==> final(self).lock_count(obj.target(old(self)))
                == old(self).lock_count(obj.target(old(self))) && r == JniError::JNI_ERR,
    {
        let t = self.refs[obj.slot].target;
        let n = self.objects[t].locks;
        if n == 0 {
            return JniError::JNI_ERR;
        }
        self.objects[t].locks = n - 1;
        proof {
            assert forall|j: int| 0 <= j < self.objects@.len() implies self.obj_ok(j) by {
                if j != t {
                    assert(self.objects@[j] == old(self).objects@[j]);
                }
                assert(old(self).obj_ok(j));
            }
            assert(self.wf());
            assert forall|j: int|
                0 <= j < old(self).obj_count() implies obj_unchanged(*old(self), *self, j) by {
                if j != t {
                    assert(self.objects@[j] == old(self).objects@[j]);
                }
            }
            assert forall|s: int|
                0 <= s < old(self).ref_count() implies ref_unchanged(*old(self), *self, s) by {}
        }
        JniError::JNI_OK
    }

    /// Tears the binding down. An unhandled exception must never leak
    /// across a detachment boundary, so releasing requires the clear
    /// capability; the thread is then detached if this binding attached it.
    pub fn release(self, cap: Capability)
        requires
            self.wf(),
            !self.pending_excn(),
    {
        let _ = cap;
    }
}

impl JavaObject {
    /// A fresh scoped reference to this object.
    pub fn local(&self, env: &mut JavaEnv, cap: Capability) -> (r: JniResult<JavaObject>)
        requires
            old(env).wf(),
            !old(env).pending_excn(),
            self.valid_in(old(env)),
        ensures
            final(env).wf(),
            env_extends(*old(env), *final(env)),
            !final(env).pending_excn(),
            r is Ok,
            ({
                let h = r.unwrap().0;
                &&& h.valid_in(final(env))
                &&& h.spec_ref_type() == RefType::Local
                &&& h.target(final(env)) == self.target(old(env))
            }),
    {
        env.new_local_ref(self, cap)
    }

    /// A fresh durable reference to this object.
    pub fn global(&self, env: &mut JavaEnv, cap: Capability) -> (r: JniResult<JavaObject>)
        requires
            old(env).wf(),
            !old(env).pending_excn(),
            self.valid_in(old(env)),
        ensures
            final(env).wf(),
            env_extends(*old(env), *final(env)),
            !final(env).pending_excn(),
            r is Ok,
            ({
                let h = r.unwrap().0;
                &&& h.valid_in(final(env))
                &&& h.spec_ref_type() == RefType::Global
                &&& h.target(final(env)) == self.target(old(env))
            }),
    {
        env.new_global_ref(self, cap)
    }

    /// A fresh weak reference to this object.
    pub fn weak(&self, env: &mut JavaEnv, cap: Capability) -> (r: JniResult<JavaObject>)
        requires
            old(env).wf(),
            !old(env).pending_excn(),
            self.valid_in(old(env)),
        ensures
            final(env).wf(),
            env_extends(*old(env), *final(env)),
            !final(env).pending_excn(),
            r is Ok,
            ({
                let h = r.unwrap().0;
                &&& h.valid_in(final(env))
                &&& h.spec_ref_type() == RefType::Weak
                &&& h.target(final(env)) == self.target(old(env))
            }),
    {
        env.new_weak_ref(self, cap)
    }

    /// The class of this object, as a fresh scoped handle.
    pub fn get_class(&self, env: &mut JavaEnv, cap: &Capability) -> (cls: JavaClass)
        requires
            old(env).wf(),
            self.valid_in(old(env)),
        ensures
            final(env).wf(),
            env_extends(*old(env), *final(env)),
            pending_unchanged(*old(env), *final(env)),
            cls.valid_class(final(env)),
            cls.spec_ref_type() == RefType::Local,
            cls.target(final(env)) == old(env).class_of(self.target(old(env))),
    {
        env.get_object_class(self, cap)
    }

    /// Whether this object could be assigned to the given class.
    pub fn is_instance_of(&self, cls: &JavaClass, env: &JavaEnv, cap: &Capability) -> (r: bool)
        requires
            env.wf(),
            self.valid_in(env),
            cls.valid_class(env),
        ensures
            r == env.assignable(env.class_of(self.target(env)), cls.target(env)),
    {
        env.is_instance_of(self, cls, cap)
    }

    /// Whether this handle refers to the null object; see
    /// [`JavaEnv::is_null`].
    pub fn is_null(&self, env: &JavaEnv, cap: &Capability) -> (r: bool)
        requires
            env.wf(),
            self.valid_in(env),
        ensures
            !r,
    {
        env.is_null(self, cap)
    }

    /// Enters this object's intrinsic monitor.
    pub fn monitor(&self, env: &mut JavaEnv, cap: &Capability) -> (r: Result<
        JavaMonitor,
        JniError,
    >)
        requires
            old(env).wf(),
            self.valid_in(old(env)),
            old(env).lock_count(self.target(old(env))) < 0xFFFF_FFFF_FFFF_FFFF,
        ensures
            final(env).wf(),
            final(env).obj_count() == old(env).obj_count(),
            pending_unchanged(*old(env), *final(env)),
            r is Ok,
            ({
                let m = r.unwrap();
                &&& m.target_id() == self.target(old(env))
                &&& final(env).lock_count(m.target_id()) == old(env).lock_count(m.target_id()) + 1
            }),
    {
        JavaMonitor::new(env, self, cap)
    }
}

impl JavaClass {
    /// Looks a class up by name; see [`JavaEnv::find_class`].
    pub fn find(env: &mut JavaEnv, name: &str, cap: Capability) -> (r: JniResult<JavaClass>)
        requires
            old(env).wf(),
            !old(env).pending_excn(),
        ensures
            final(env).wf(),
            env_extends(*old(env), *final(env)),
            r is Ok <==> old(env).has_class(name@),
            r is Ok ==> ({
                let cls = r.unwrap().0;
                &&& !final(env).pending_excn()
                &&& cls.valid_class(final(env))
                &&& cls.spec_ref_type() == RefType::Local
                &&& final(env).class_name(cls.target(final(env))) == name@
            }),
            r is Err ==> final(env).pending_excn(),
    {
        env.find_class(name, cap)
    }

    /// Defines a new class; see [`JavaEnv::define_class`].
    pub fn define(
        env: &mut JavaEnv,
        name: &str,
        loader: &JavaObject,
        buf: &[u8],
        cap: Capability,
    ) -> (r: JniResult<JavaClass>)
        requires
            old(env).wf(),
            !old(env).pending_excn(),
            loader.valid_in(old(env)),
        ensures
            final(env).wf(),
            env_extends(*old(env), *final(env)),
            r is Ok <==> !old(env).has_class(name@),
            r is Ok ==> ({
                let cls = r.unwrap().0;
                &&& !final(env).pending_excn()
                &&& cls.valid_class(final(env))
                &&& final(env).class_name(cls.target(final(env))) == name@
                &&& final(env).has_class(name@)
            }),
            r is Err ==> final(env).pending_excn(),
    {
        env.define_class(name, loader, buf, cap)
    }

    /// Allocates an uninitialized instance of this class.
    pub fn allocate(&self, env: &mut JavaEnv, cap: Capability) -> (r: JniResult<JavaObject>)
        requires
            old(env).wf(),
            !old(env).pending_excn(),
            self.valid_class(old(env)),
        ensures
            final(env).wf(),
            env_extends(*old(env), *final(env)),
            !final(env).pending_excn(),
            r is Ok,
            ({
                let obj = r.unwrap().0;
                &&& obj.valid_in(final(env))
                &&& obj.spec_ref_type() == RefType::Local
                &&& final(env).is_instance(obj.target(final(env)))
                &&& final(env).instance_class(obj.target(final(env))) == self.target(old(env))
            }),
    {
        env.alloc_object(self, cap)
    }

    /// The superclass of this class; `None` exactly for the root class.
    pub fn get_super(&self, env: &mut JavaEnv, cap: &Capability) -> (r: Option<JavaClass>)
        requires
            old(env).wf(),
            self.valid_class(old(env)),
        ensures
            final(env).wf(),
            env_extends(*old(env), *final(env)),
            pending_unchanged(*old(env), *final(env)),
            r is Some <==> old(env).class_sup(self.target(old(env))) is Some,
            r is Some ==> ({
                let sup = r.unwrap();
                &&& sup.valid_class(final(env))
                &&& Some(sup.target(final(env))) == old(env).class_sup(self.target(old(env)))
            }),
    {
        env.get_super_class(self, cap)
    }

    /// Whether a value of this class can be used where `cls` is asked for.
    pub fn is_assignable_from(&self, cls: &JavaClass, env: &JavaEnv, cap: &Capability) -> (r:
        bool)
        requires
            env.wf(),
            self.valid_class(env),
            cls.valid_class(env),
        ensures
            r == env.assignable(self.target(env), cls.target(env)),
    {
        env.is_assignable_from(self, cls, cap)
    }
}

impl JavaThrowable {
    /// Makes the throwable the pending exception; see [`JavaEnv::throw`].
    pub fn throw(env: &mut JavaEnv, obj: &JavaThrowable, cap: Capability) -> (r: Result<
        Exception,
        JniError,
    >)
        requires
            old(env).wf(),
            !old(env).pending_excn(),
            obj.valid_in(old(env)),
        ensures
            final(env).wf(),
            env_extends(*old(env), *final(env)),
            r is Ok,
            final(env).pending_excn(),
            final(env).pending_target() == obj.target(old(env)),
    {
        env.throw(obj, cap)
    }

    /// Raises a fresh instance of the given class as the pending exception;
    /// see [`JavaEnv::throw_new`].
    pub fn throw_new(env: &mut JavaEnv, cls: &JavaClass, msg: &str, cap: Capability) -> (r:
        Result<Exception, JniError>)
        requires
            old(env).wf(),
            !old(env).pending_excn(),
            cls.valid_class(old(env)),
        ensures
            final(env).wf(),
            env_extends(*old(env), *final(env)),
            r is Ok,
            final(env).pending_excn(),
            final(env).is_instance(final(env).pending_target()),
            final(env).instance_class(final(env).pending_target()) == cls.target(old(env)),
    {
        env.throw_new(cls, msg, cap)
    }

    /// Reports the pending-exception state as a token; see
    /// [`JavaEnv::exception_check`].
    pub fn check(env: &JavaEnv) -> (r: Result<Capability, Exception>)
        ensures
            r is Ok <==> !env.pending_excn(),
    {
        env.exception_check()
    }

    /// Like [`JavaThrowable::check`], with a handle to the thrown object;
    /// see [`JavaEnv::exception_occured`].
    pub fn occured(env: &mut JavaEnv) -> (r: Result<Capability, (JavaThrowable, Exception)>)
        requires
            old(env).wf(),
        ensures
            final(env).wf(),
            env_extends(*old(env), *final(env)),
            pending_unchanged(*old(env), *final(env)),
            r is Ok <==> !old(env).pending_excn(),
            r is Err ==> ({
                let t = r.unwrap_err().0;
                &&& t.valid_in(final(env))
                &&& t.target(final(env)) == old(env).pending_target()
            }),
    {
        env.exception_occured()
    }

    /// Writes the pending exception's description to the machine's
    /// diagnostic channel.
    pub fn describe(env: &JavaEnv, exn: &Exception) {
        env.exception_describe(exn)
    }

    /// Clears the pending exception; see [`JavaEnv::exception_clear`].
    pub fn clear(env: &mut JavaEnv, exn: Exception) -> (cap: Capability)
        requires
            old(env).wf(),
        ensures
            final(env).wf(),
            env_extends(*old(env), *final(env)),
            !final(env).pending_excn(),
    {
        env.exception_clear(exn)
    }
}

/// An element type the machine stores in primitive arrays. Ties the typed
/// array operations to the matching payload; the floating-point element
/// types of the foreign interface have no place here.
pub trait JArrayElem: Sized {
    /// The elements of the array object at slot `t`, when it is an array
    /// of this element type.
    spec fn arr_elems(env: &JavaEnv, t: int) -> Option<Seq<Self>>;

    /// The zero value fresh arrays are filled with.
    spec fn arr_zero() -> Self;

    /// Creates an array of `len` zero elements and a scoped handle to it;
    /// `val` is a specimen of the element type and is not stored.
    fn new_array(env: &mut JavaEnv, len: usize, val: &Self, cap: Capability) -> (r: JniResult<
        JavaArray<Self>,
    >)
        requires
            old(env).wf(),
            !old(env).pending_excn(),
        ensures
            final(env).wf(),
            env_extends(*old(env), *final(env)),
            !final(env).pending_excn(),
            r is Ok,
            final(env).obj_count() == old(env).obj_count() + 1,
            ({
                let a = r.unwrap().0;
                &&& a.valid_in(final(env))
                &&& a.spec_ref_type() == RefType::Local
                &&& Self::arr_elems(final(env), a.target(final(env))) == Some(
                    Seq::new(len as nat, |i: int| Self::arr_zero()),
                )
            }),
    ;

    /// The element at `n`; past the end, an exception is raised instead.
    fn get(env: &mut JavaEnv, arr: &JavaArray<Self>, n: usize, cap: Capability) -> (r: JniResult<
        Self,
    >)
        requires
            old(env).wf(),
            !old(env).pending_excn(),
            arr.valid_in(old(env)),
            Self::arr_elems(old(env), arr.target(old(env))) is Some,
        ensures
            final(env).wf(),
            env_extends(*old(env), *final(env)),
            ({
                let elems = Self::arr_elems(old(env), arr.target(old(env))).unwrap();
                &&& (r is Ok <==> (n as int) < elems.len())
                &&& r is Ok ==> r.unwrap().0 == elems[n as int] && !final(env).pending_excn()
                &&& r is Err ==> final(env).pending_excn()
            }),
    ;

    /// Replaces the element at `n`; past the end, an exception is raised,
    /// to be observed through the exception operations.
    fn set(env: &mut JavaEnv, arr: &JavaArray<Self>, n: usize, val: &Self, cap: Capability)
        requires
            old(env).wf(),
            !old(env).pending_excn(),
            arr.valid_in(old(env)),
            Self::arr_elems(old(env), arr.target(old(env))) is Some,
        ensures
            final(env).wf(),
            final(env).env_version() == old(env).env_version(),
            final(env).ref_count() == old(env).ref_count(),
            forall|s: int| 0 <= s < old(env).ref_count() ==> ref_unchanged(*old(env), *final(env), s),
            forall|t: int|
                0 <= t < old(env).obj_count() && t != arr.target(old(env)) ==> obj_unchanged(
                    *old(env),
                    *final(env),
                    t,
                ),
            ({
                let elems = Self::arr_elems(old(env), arr.target(old(env))).unwrap();
                &&& (n as int) < elems.len() ==> !final(env).pending_excn() && Self::arr_elems(
                    final(env),
                    arr.target(old(env)),
                ) == Some(elems.update(n as int, *val)) && final(env).obj_count() == old(
                    env,
                ).obj_count()
                &&& (n as int) >= elems.len() ==> final(env).pending_excn() && obj_unchanged(
                    *old(env),
                    *final(env),
                    arr.target(old(env)),
                )
            }),
    ;

    /// How many elements the array holds.
    fn arr_len(env: &JavaEnv, arr: &JavaArray<Self>, cap: &Capability) -> (n: usize)
        requires
            env.wf(),
            arr.valid_in(env),
            Self::arr_elems(env, arr.target(env)) is Some,
        ensures
            n as int == Self::arr_elems(env, arr.target(env)).unwrap().len(),
    ;
}

/// A handle to an array of `T` elements.
#[derive(Debug)]
pub struct JavaArray<T> {
    slot: usize,
    rtype: RefType,
    phantom: core::marker::PhantomData<T>,
}

impl<T> JavaArray<T> {
    /// The reference-table slot this handle occupies.
    pub closed spec fn slot_id(&self) -> int {
        self.slot as int
    }

    /// The reference class fixed at this handle's creation.
    pub closed spec fn spec_ref_type(&self) -> RefType {
        self.rtype
    }

    /// The handle is a live, correctly-classed reference in `env`.
    pub open spec fn valid_in(&self, env: &JavaEnv) -> bool {
        env.valid_ref(self.slot_id(), self.spec_ref_type())
    }

    /// The object slot this handle refers to.
    pub open spec fn target(&self, env: &JavaEnv) -> int {
        env.ref_target(self.slot_id())
    }

    /// This handle, seen as a plain object handle.
    pub fn as_object(&self) -> (r: JavaObject)
        ensures
            r.slot_id() == self.slot_id(),
            r.spec_ref_type() == self.spec_ref_type(),
    {
        JavaObject { slot: self.slot, rtype: self.rtype }
    }
}

impl<T: JArrayElem> JavaArray<T> {
    /// The handle is valid and refers to an array of `T`.
    pub open spec fn valid_arr(&self, env: &JavaEnv) -> bool {
        self.valid_in(env) && T::arr_elems(env, self.target(env)) is Some
    }

    /// Creates an array of `len` zero elements.
    pub fn new(env: &mut JavaEnv, len: usize, obj: &T, cap: Capability) -> (r: JniResult<
        JavaArray<T>,
    >)
        requires
            old(env).wf(),
            !old(env).pending_excn(),
        ensures
            final(env).wf(),
            env_extends(*old(env), *final(env)),
            !final(env).pending_excn(),
            r is Ok,
            ({
                let a = r.unwrap().0;
                &&& a.valid_arr(final(env))
                &&& T::arr_elems(final(env), a.target(final(env))) == Some(
                    Seq::new(len as nat, |i: int| T::arr_zero()),
                )
            }),
    {
        T::new_array(env, len, obj, cap)
    }

    /// How many elements the array holds.
    pub fn len(&self, env: &JavaEnv, cap: &Capability) -> (n: usize)
        requires
            env.wf(),
            self.valid_arr(env),
        ensures
            n as int == T::arr_elems(env, self.target(env)).unwrap().len(),
    {
        T::arr_len(env, self, cap)
    }

    /// The element at `n`; past the end, an exception is raised instead.
    pub fn get(&self, env: &mut JavaEnv, n: usize, cap: Capability) -> (r: JniResult<T>)
        requires
            old(env).wf(),
            !old(env).pending_excn(),
            self.valid_arr(old(env)),
        ensures
            final(env).wf(),
            env_extends(*old(env), *final(env)),
            ({
                let elems = T::arr_elems(old(env), self.target(old(env))).unwrap();
                &&& (r is Ok <==> (n as int) < elems.len())
                &&& r is Ok ==> r.unwrap().0 == elems[n as int] && !final(env).pending_excn()
                &&& r is Err ==> final(env).pending_excn()
            }),
    {
        T::get(env, self, n, cap)
    }

    /// Replaces the element at `n`; past the end, an exception is raised.
    pub fn set(&self, env: &mut JavaEnv, n: usize, val: &T, cap: Capability)
        requires
            old(env).wf(),
            !old(env).pending_excn(),
            self.valid_arr(old(env)),
        ensures
            final(env).wf(),
            ({
                let elems = T::arr_elems(old(env), self.target(old(env))).unwrap();
                &&& (n as int) < elems.len() ==> !final(env).pending_excn() && T::arr_elems(
                    final(env),
                    self.target(old(env)),
                ) == Some(elems.update(n as int, *val))
                &&& (n as int) >= elems.len() ==> final(env).pending_excn()
            }),
    {
        T::set(env, self, n, val, cap)
    }
}

impl JArrayElem for i32 {
    open spec fn arr_elems(env: &JavaEnv, t: int) -> Option<Seq<i32>> {
        match env.arr_val(t) {
            Some(ArrVal::Ints(v)) => Some(v@),
            _ => None,
        }
    }

    open spec fn arr_zero() -> i32 {
        0
    }

    fn new_array(env: &mut JavaEnv, len: usize, val: &Self, cap: Capability) -> (r: JniResult<
        JavaArray<Self>,
    >) {
        let _ = cap;
        let _ = val;
        let mut v: Vec<i32> = Vec::new();
        let mut i: usize = 0;
        while i < len
            invariant
                i <= len,
                v@ =~= Seq::new(i as nat, |j: int| 0i32),
            decreases len - i,
        {
            v.push(0);
            proof {
                assert(v@ =~= Seq::new((i + 1) as nat, |j: int| 0i32));
            }
            i = i + 1;
        }
        let idx = env.add_obj(ObjEntry { kind: ObjKind::Arr(ArrVal::Ints(v)), locks: 0 });
        let ghost mid = *env;
        let slot = env.add_ref(idx, RefType::Local);
        proof {
            lemma_env_extends_trans(*old(env), mid, *env);
            assert(obj_unchanged(mid, *env, idx as int));
        }
        Ok((
            JavaArray { slot, rtype: RefType::Local, phantom: core::marker::PhantomData },
            Capability::new(),
        ))
    }

    fn get(env: &mut JavaEnv, arr: &JavaArray<Self>, n: usize, cap: Capability) -> (r: JniResult<
        Self,
    >) {
        let _ = cap;
        let t = env.refs[arr.slot].target;
        let out = match &env.objects[t].kind {
            ObjKind::Arr(ArrVal::Ints(v)) => {
                if n < v.len() {
                    Some(v[n])
                } else {
                    None
                }
            },
            _ => {
                proof {
                    assert(false);
                }
                None
            },
        };
        match out {
            Some(x) => Ok((x, Capability::new())),
            None => {
                let idx = env.add_obj(
                    ObjEntry { kind: ObjKind::Instance { class: THROWABLE_CLASS }, locks: 0 },
                );
                let ghost mid = *env;
                env.set_pending(idx);
                proof {
                    lemma_env_extends_trans(*old(env), mid, *env);
                }
                Err(Exception::new())
            },
        }
    }

    fn set(env: &mut JavaEnv, arr: &JavaArray<Self>, n: usize, val: &Self, cap: Capability) {
        let _ = cap;
        let t = env.refs[arr.slot].target;
        let within = match &env.objects[t].kind {
            ObjKind::Arr(ArrVal::Ints(v)) => n < v.len(),
            _ => {
                proof {
                    assert(false);
                }
                false
            },
        };
        if !within {
            let idx = env.add_obj(
                ObjEntry { kind: ObjKind::Instance { class: THROWABLE_CLASS }, locks: 0 },
            );
            let ghost mid = *env;
            env.set_pending(idx);
            proof {
                lemma_env_extends_trans(*old(env), mid, *env);
                assert(obj_unchanged(*old(env), *env, arr.target(old(env))));
            }
            return ;
        }
        match &mut env.objects[t].kind {
            ObjKind::Arr(ArrVal::Ints(v)) => {
                v[n] = *val;
            },
            _ => {},
        }
        proof {
            assert forall|j: int| 0 <= j < env.objects@.len() implies env.obj_ok(j) by {
                if j != t {
                    assert(env.objects@[j] == old(env).objects@[j]);
                }
                assert(old(env).obj_ok(j));
            }
            assert(env.wf());
            assert forall|j: int|
                0 <= j < old(env).obj_count() && j != t implies obj_unchanged(
                *old(env),
                *env,
                j,
            ) by {
                assert(env.objects@[j] == old(env).objects@[j]);
            }
            assert forall|s: int|
                0 <= s < old(env).ref_count() implies ref_unchanged(*old(env), *env, s) by {}
        }
    }

    fn arr_len(env: &JavaEnv, arr: &JavaArray<Self>, cap: &Capability) -> (n: usize) {
        let _ = cap;
        let t = env.refs[arr.slot].target;
        match &env.objects[t].kind {
            ObjKind::Arr(ArrVal::Ints(v)) => v.len(),
            _ => {
                proof {
                    assert(false);
                }
                0
            },
        }
    }
}

impl JArrayElem for bool {
    open spec fn arr_elems(env: &JavaEnv, t: int) -> Option<Seq<bool>> {
        match env.arr_val(t) {
            Some(ArrVal::Bools(v)) => Some(v@),
            _ => None,
        }
    }

    open spec fn arr_zero() -> bool {
        false
    }

    fn new_array(env: &mut JavaEnv, len: usize, val: &Self, cap: Capability) -> (r: JniResult<
        JavaArray<Self>,
    >) {
        let _ = cap;
        let _ = val;
        let mut v: Vec<bool> = Vec::new();
        let mut i: usize = 0;
        while i < len
            invariant
                i <= len,
                v@ =~= Seq::new(i as nat, |j: int| false),
            decreases len - i,
        {
            v.push(false);
            proof {
                assert(v@ =~= Seq::new((i + 1) as nat, |j: int| false));
            }
            i = i + 1;
        }
        let idx = env.add_obj(ObjEntry { kind: ObjKind::Arr(ArrVal::Bools(v)), locks: 0 });
        let ghost mid = *env;
        let slot = env.add_ref(idx, RefType::Local);
        proof {
            lemma_env_extends_trans(*old(env), mid, *env);
            assert(obj_unchanged(mid, *env, idx as int));
        }
        Ok((
            JavaArray { slot, rtype: RefType::Local, phantom: core::marker::PhantomData },
            Capability::new(),
        ))
    }

    fn get(env: &mut JavaEnv, arr: &JavaArray<Self>, n: usize, cap: Capability) -> (r: JniResult<
        Self,
    >) {
        let _ = cap;
        let t = env.refs[arr.slot].target;
        let out = match &env.objects[t].kind {
            ObjKind::Arr(ArrVal::Bools(v)) => {
                if n < v.len() {
                    Some(v[n])
                } else {
                    None
                }
            },
            _ => {
                proof {
                    assert(false);
                }
                None
            },
        };
        match out {
            Some(x) => Ok((x, Capability::new())),
            None => {
                let idx = env.add_obj(
                    ObjEntry { kind: ObjKind::Instance { class: THROWABLE_CLASS }, locks: 0 },
                );
                let ghost mid = *env;
                env.set_pending(idx);
                proof {
                    lemma_env_extends_trans(*old(env), mid, *env);
                }
                Err(Exception::new())
            },
        }
    }

    fn set(env: &mut JavaEnv, arr: &JavaArray<Self>, n: usize, val: &Self, cap: Capability) {
        let _ = cap;
        let t = env.refs[arr.slot].target;
        let within = match &env.objects[t].kind {
            ObjKind::Arr(ArrVal::Bools(v)) => n < v.len(),
            _ => {
                proof {
                    assert(false);
                }
                false
            },
        };
        if !within {
            let idx = env.add_obj(
                ObjEntry { kind: ObjKind::Instance { class: THROWABLE_CLASS }, locks: 0 },
            );
            let ghost mid = *env;
            env.set_pending(idx);
            proof {
                lemma_env_extends_trans(*old(env), mid, *env);
                assert(obj_unchanged(*old(env), *env, arr.target(old(env))));
            }
            return ;
        }
        match &mut env.objects[t].kind {
            ObjKind::Arr(ArrVal::Bools(v)) => {
                v[n] = *val;
            },
            _ => {},
        }
        proof {
            assert forall|j: int| 0 <= j < env.objects@.len() implies env.obj_ok(j) by {
                if j != t {
                    assert(env.objects@[j] == old(env).objects@[j]);
                }
                assert(old(env).obj_ok(j));
            }
            assert(env.wf());
            assert forall|j: int|
                0 <= j < old(env).obj_count() && j != t implies obj_unchanged(
                *old(env),
                *env,
                j,
            ) by {
                assert(env.objects@[j] == old(env).objects@[j]);
            }
            assert forall|s: int|
                0 <= s < old(env).ref_count() implies ref_unchanged(*old(env), *env, s) by {}
        }
    }

    fn arr_len(env: &JavaEnv, arr: &JavaArray<Self>, cap: &Capability) -> (n: usize) {
        let _ = cap;
        let t = env.refs[arr.slot].target;
        match &env.objects[t].kind {
            ObjKind::Arr(ArrVal::Bools(v)) => v.len(),
            _ => {
                proof {
                    assert(false);
                }
                0
            },
        }
    }
}

impl JArrayElem for u8 {
    open spec fn arr_elems(env: &JavaEnv, t: int) -> Option<Seq<u8>> {
        match env.arr_val(t) {
            Some(ArrVal::Bytes(v)) => Some(v@),
            _ => None,
        }
    }

    open spec fn arr_zero() -> u8 {
        0u8
    }

    fn new_array(env: &mut JavaEnv, len: usize, val: &Self, cap: Capability) -> (r: JniResult<
        JavaArray<Self>,
    >) {
        let _ = cap;
        let _ = val;
        let mut v: Vec<u8> = Vec::new();
        let mut i: usize = 0;
        while i < len
            invariant
                i <= len,
                v@ =~= Seq::new(i as nat, |j: int| 0u8),
            decreases len - i,
        {
            v.push(0);
            proof {
                assert(v@ =~= Seq::new((i + 1) as nat, |j: int| 0u8));
            }
            i = i + 1;
        }
        let idx = env.add_obj(ObjEntry { kind: ObjKind::Arr(ArrVal::Bytes(v)), locks: 0 });
        let ghost mid = *env;
        let slot = env.add_ref(idx, RefType::Local);
        proof {
            lemma_env_extends_trans(*old(env), mid, *env);
            assert(obj_unchanged(mid, *env, idx as int));
        }
        Ok((
            JavaArray { slot, rtype: RefType::Local, phantom: core::marker::PhantomData },
            Capability::new(),
        ))
    }

    fn get(env: &mut JavaEnv, arr: &JavaArray<Self>, n: usize, cap: Capability) -> (r: JniResult<
        Self,
    >) {
        let _ = cap;
        let t = env.refs[arr.slot].target;
        let out = match &env.objects[t].kind {
            ObjKind::Arr(ArrVal::Bytes(v)) => {
                if n < v.len() {
                    Some(v[n])
                } else {
                    None
                }
            },
            _ => {
                proof {
                    assert(false);
                }
                None
            },
        };
        match out {
            Some(x) => Ok((x, Capability::new())),
            None => {
                let idx = env.add_obj(
                    ObjEntry { kind: ObjKind::Instance { class: THROWABLE_CLASS }, locks: 0 },
                );
                let ghost mid = *env;
                env.set_pending(idx);
                proof {
                    lemma_env_extends_trans(*old(env), mid, *env);
                }
                Err(Exception::new())
            },
        }
    }

    fn set(env: &mut JavaEnv, arr: &JavaArray<Self>, n: usize, val: &Self, cap: Capability) {
        let _ = cap;
        let t = env.refs[arr.slot].target;
        let within = match &env.objects[t].kind {
            ObjKind::Arr(ArrVal::Bytes(v)) => n < v.len(),
            _ => {
                proof {
                    assert(false);
                }
                false
            },
        };
        if !within {
            let idx = env.add_obj(
                ObjEntry { kind: ObjKind::Instance { class: THROWABLE_CLASS }, locks: 0 },
            );
            let ghost mid = *env;
            env.set_pending(idx);
            proof {
                lemma_env_extends_trans(*old(env), mid, *env);
                assert(obj_unchanged(*old(env), *env, arr.target(old(env))));
            }
            return ;
        }
        match &mut env.objects[t].kind {
            ObjKind::Arr(ArrVal::Bytes(v)) => {
                v[n] = *val;
            },
            _ => {},
        }
        proof {
            assert forall|j: int| 0 <= j < env.objects@.len() implies env.obj_ok(j) by {
                if j != t {
                    assert(env.objects@[j] == old(env).objects@[j]);
                }
                assert(old(env).obj_ok(j));
            }
            assert(env.wf());
            assert forall|j: int|
                0 <= j < old(env).obj_count() && j != t implies obj_unchanged(
                *old(env),
                *env,
                j,
            ) by {
                assert(env.objects@[j] == old(env).objects@[j]);
            }
            assert forall|s: int|
                0 <= s < old(env).ref_count() implies ref_unchanged(*old(env), *env, s) by {}
        }
    }

    fn arr_len(env: &JavaEnv, arr: &JavaArray<Self>, cap: &Capability) -> (n: usize) {
        let _ = cap;
        let t = env.refs[arr.slot].target;
        match &env.objects[t].kind {
            ObjKind::Arr(ArrVal::Bytes(v)) => v.len(),
            _ => {
                proof {
                    assert(false);
                }
                0
            },
        }
    }
}

impl JArrayElem for char {
    open spec fn arr_elems(env: &JavaEnv, t: int) -> Option<Seq<char>> {
        match env.arr_val(t) {
            Some(ArrVal::Chars(v)) => Some(v@),
            _ => None,
        }
    }

    open spec fn arr_zero() -> char {
        '\0'
    }

    fn new_array(env: &mut JavaEnv, len: usize, val: &Self, cap: Capability) -> (r: JniResult<
        JavaArray<Self>,
    >) {
        let _ = cap;
        let _ = val;
        let mut v: Vec<char> = Vec::new();
        let mut i: usize = 0;
        while i < len
            invariant
                i <= len,
                v@ =~= Seq::new(i as nat, |j: int| '\0'),
            decreases len - i,
        {
            v.push('\0');
            proof {
                assert(v@ =~= Seq::new((i + 1) as nat, |j: int| '\0'));
            }
            i = i + 1;
        }
        let idx = env.add_obj(ObjEntry { kind: ObjKind::Arr(ArrVal::Chars(v)), locks: 0 });
        let ghost mid = *env;
        let slot = env.add_ref(idx, RefType::Local);
        proof {
            lemma_env_extends_trans(*old(env), mid, *env);
            assert(obj_unchanged(mid, *env, idx as int));
        }
        Ok((
            JavaArray { slot, rtype: RefType::Local, phantom: core::marker::PhantomData },
            Capability::new(),
        ))
    }

    fn get(env: &mut JavaEnv, arr: &JavaArray<Self>, n: usize, cap: Capability) -> (r: JniResult<
        Self,
    >) {
        let _ = cap;
        let t = env.refs[arr.slot].target;
        let out = match &env.objects[t].kind {
            ObjKind::Arr(ArrVal::Chars(v)) => {
                if n < v.len() {
                    Some(v[n])
                } else {
                    None
                }
            },
            _ => {
                proof {
                    assert(false);
                }
                None
            },
        };
        match out {
            Some(x) => Ok((x, Capability::new())),
            None => {
                let idx = env.add_obj(
                    ObjEntry { kind: ObjKind::Instance { class: THROWABLE_CLASS }, locks: 0 },
                );
                let ghost mid = *env;
                env.set_pending(idx);
                proof {
                    lemma_env_extends_trans(*old(env), mid, *env);
                }
                Err(Exception::new())
            },
        }
    }

    fn set(env: &mut JavaEnv, arr: &JavaArray<Self>, n: usize, val: &Self, cap: Capability) {
        let _ = cap;
        let t = env.refs[arr.slot].target;
        let within = match &env.objects[t].kind {
            ObjKind::Arr(ArrVal::Chars(v)) => n < v.len(),
            _ => {
                proof {
                    assert(false);
                }
                false
            },
        };
        if !within {
            let idx = env.add_obj(
                ObjEntry { kind: ObjKind::Instance { class: THROWABLE_CLASS }, locks: 0 },
            );
            let ghost mid = *env;
            env.set_pending(idx);
            proof {
                lemma_env_extends_trans(*old(env), mid, *env);
                assert(obj_unchanged(*old(env), *env, arr.target(old(env))));
            }
            return ;
        }
        match &mut env.objects[t].kind {
            ObjKind::Arr(ArrVal::Chars(v)) => {
                v[n] = *val;
            },
            _ => {},
        }
        proof {
            assert forall|j: int| 0 <= j < env.objects@.len() implies env.obj_ok(j) by {
                if j != t {
                    assert(env.objects@[j] == old(env).objects@[j]);
                }
                assert(old(env).obj_ok(j));
            }
            assert(env.wf());
            assert forall|j: int|
                0 <= j < old(env).obj_count() && j != t implies obj_unchanged(
                *old(env),
                *env,
                j,
            ) by {
                assert(env.objects@[j] == old(env).objects@[j]);
            }
            assert forall|s: int|
                0 <= s < old(env).ref_count() implies ref_unchanged(*old(env), *env, s) by {}
        }
    }

    fn arr_len(env: &JavaEnv, arr: &JavaArray<Self>, cap: &Capability) -> (n: usize) {
        let _ = cap;
        let t = env.refs[arr.slot].target;
        match &env.objects[t].kind {
            ObjKind::Arr(ArrVal::Chars(v)) => v.len(),
            _ => {
                proof {
                    assert(false);
                }
                0
            },
        }
    }
}

impl JArrayElem for i16 {
    open spec fn arr_elems(env: &JavaEnv, t: int) -> Option<Seq<i16>> {
        match env.arr_val(t) {
            Some(ArrVal::Shorts(v)) => Some(v@),
            _ => None,
        }
    }

    open spec fn arr_zero() -> i16 {
        0i16
    }

    fn new_array(env: &mut JavaEnv, len: usize, val: &Self, cap: Capability) -> (r: JniResult<
        JavaArray<Self>,
    >) {
        let _ = cap;
        let _ = val;
        let mut v: Vec<i16> = Vec::new();
        let mut i: usize = 0;
        while i < len
            invariant
                i <= len,
                v@ =~= Seq::new(i as nat, |j: int| 0i16),
            decreases len - i,
        {
            v.push(0);
            proof {
                assert(v@ =~= Seq::new((i + 1) as nat, |j: int| 0i16));
            }
            i = i + 1;
        }
        let idx = env.add_obj(ObjEntry { kind: ObjKind::Arr(ArrVal::Shorts(v)), locks: 0 });
        let ghost mid = *env;
        let slot = env.add_ref(idx, RefType::Local);
        proof {
            lemma_env_extends_trans(*old(env), mid, *env);
            assert(obj_unchanged(mid, *env, idx as int));
        }
        Ok((
            JavaArray { slot, rtype: RefType::Local, phantom: core::marker::PhantomData },
            Capability::new(),
        ))
    }

    fn get(env: &mut JavaEnv, arr: &JavaArray<Self>, n: usize, cap: Capability) -> (r: JniResult<
        Self,
    >) {
        let _ = cap;
        let t = env.refs[arr.slot].target;
        let out = match &env.objects[t].kind {
            ObjKind::Arr(ArrVal::Shorts(v)) => {
                if n < v.len() {
                    Some(v[n])
                } else {
                    None
                }
            },
            _ => {
                proof {
                    assert(false);
                }
                None
            },
        };
        match out {
            Some(x) => Ok((x, Capability::new())),
            None => {
                let idx = env.add_obj(
                    ObjEntry { kind: ObjKind::Instance { class: THROWABLE_CLASS }, locks: 0 },
                );
                let ghost mid = *env;
                env.set_pending(idx);
                proof {
                    lemma_env_extends_trans(*old(env), mid, *env);
                }
                Err(Exception::new())
            },
        }
    }

    fn set(env: &mut JavaEnv, arr: &JavaArray<Self>, n: usize, val: &Self, cap: Capability) {
        let _ = cap;
        let t = env.refs[arr.slot].target;
        let within = match &env.objects[t].kind {
            ObjKind::Arr(ArrVal::Shorts(v)) => n < v.len(),
            _ => {
                proof {
                    assert(false);
                }
                false
            },
        };
        if !within {
            let idx = env.add_obj(
                ObjEntry { kind: ObjKind::Instance { class: THROWABLE_CLASS }, locks: 0 },
            );
            let ghost mid = *env;
            env.set_pending(idx);
            proof {
                lemma_env_extends_trans(*old(env), mid, *env);
                assert(obj_unchanged(*old(env), *env, arr.target(old(env))));
            }
            return ;
        }
        match &mut env.objects[t].kind {
            ObjKind::Arr(ArrVal::Shorts(v)) => {
                v[n] = *val;
            },
            _ => {},
        }
        proof {
            assert forall|j: int| 0 <= j < env.objects@.len() implies env.obj_ok(j) by {
                if j != t {
                    assert(env.objects@[j] == old(env).objects@[j]);
                }
                assert(old(env).obj_ok(j));
            }
            assert(env.wf());
            assert forall|j: int|
                0 <= j < old(env).obj_count() && j != t implies obj_unchanged(
                *old(env),
                *env,
                j,
            ) by {
                assert(env.objects@[j] == old(env).objects@[j]);
            }
            assert forall|s: int|
                0 <= s < old(env).ref_count() implies ref_unchanged(*old(env), *env, s) by {}
        }
    }

    fn arr_len(env: &JavaEnv, arr: &JavaArray<Self>, cap: &Capability) -> (n: usize) {
        let _ = cap;
        let t = env.refs[arr.slot].target;
        match &env.objects[t].kind {
            ObjKind::Arr(ArrVal::Shorts(v)) => v.len(),
            _ => {
                proof {
                    assert(false);
                }
                0
            },
        }
    }
}

impl JArrayElem for i64 {
    open spec fn arr_elems(env: &JavaEnv, t: int) -> Option<Seq<i64>> {
        match env.arr_val(t) {
            Some(ArrVal::Longs(v)) => Some(v@),
            _ => None,
        }
    }

    open spec fn arr_zero() -> i64 {
        0i64
    }

    fn new_array(env: &mut JavaEnv, len: usize, val: &Self, cap: Capability) -> (r: JniResult<
        JavaArray<Self>,
    >) {
        let _ = cap;
        let _ = val;
        let mut v: Vec<i64> = Vec::new();
        let mut i: usize = 0;
        while i < len
            invariant
                i <= len,
                v@ =~= Seq::new(i as nat, |j: int| 0i64),
            decreases len - i,
        {
            v.push(0);
            proof {
                assert(v@ =~= Seq::new((i + 1) as nat, |j: int| 0i64));
            }
            i = i + 1;
        }
        let idx = env.add_obj(ObjEntry { kind: ObjKind::Arr(ArrVal::Longs(v)), locks: 0 });
        let ghost mid = *env;
        let slot = env.add_ref(idx, RefType::Local);
        proof {
            lemma_env_extends_trans(*old(env), mid, *env);
            assert(obj_unchanged(mid, *env, idx as int));
        }
        Ok((
            JavaArray { slot, rtype: RefType::Local, phantom: core::marker::PhantomData },
            Capability::new(),
        ))
    }

    fn get(env: &mut JavaEnv, arr: &JavaArray<Self>, n: usize, cap: Capability) -> (r: JniResult<
        Self,
    >) {
        let _ = cap;
        let t = env.refs[arr.slot].target;
        let out = match &env.objects[t].kind {
            ObjKind::Arr(ArrVal::Longs(v)) => {
                if n < v.len() {
                    Some(v[n])
                } else {
                    None
                }
            },
            _ => {
                proof {
                    assert(false);
                }
                None
            },
        };
        match out {
            Some(x) => Ok((x, Capability::new())),
            None => {
                let idx = env.add_obj(
                    ObjEntry { kind: ObjKind::Instance { class: THROWABLE_CLASS }, locks: 0 },
                );
                let ghost mid = *env;
                env.set_pending(idx);
                proof {
                    lemma_env_extends_trans(*old(env), mid, *env);
                }
                Err(Exception::new())
            },
        }
    }

    fn set(env: &mut JavaEnv, arr: &JavaArray<Self>, n: usize, val: &Self, cap: Capability) {
        let _ = cap;
        let t = env.refs[arr.slot].target;
        let within = match &env.objects[t].kind {
            ObjKind::Arr(ArrVal::Longs(v)) => n < v.len(),
            _ => {
                proof {
                    assert(false);
                }
                false
            },
        };
        if !within {
            let idx = env.add_obj(
                ObjEntry { kind: ObjKind::Instance { class: THROWABLE_CLASS }, locks: 0 },
            );
            let ghost mid = *env;
            env.set_pending(idx);
            proof {
                lemma_env_extends_trans(*old(env), mid, *env);
                assert(obj_unchanged(*old(env), *env, arr.target(old(env))));
            }
            return ;
        }
        match &mut env.objects[t].kind {
            ObjKind::Arr(ArrVal::Longs(v)) => {
                v[n] = *val;
            },
            _ => {},
        }
        proof {
            assert forall|j: int| 0 <= j < env.objects@.len() implies env.obj_ok(j) by {
                if j != t {
                    assert(env.objects@[j] == old(env).objects@[j]);
                }
                assert(old(env).obj_ok(j));
            }
            assert(env.wf());
            assert forall|j: int|
                0 <= j < old(env).obj_count() && j != t implies obj_unchanged(
                *old(env),
                *env,
                j,
            ) by {
                assert(env.objects@[j] == old(env).objects@[j]);
            }
            assert forall|s: int|
                0 <= s < old(env).ref_count() implies ref_unchanged(*old(env), *env, s) by {}
        }
    }

    fn arr_len(env: &JavaEnv, arr: &JavaArray<Self>, cap: &Capability) -> (n: usize) {
        let _ = cap;
        let t = env.refs[arr.slot].target;
        match &env.objects[t].kind {
            ObjKind::Arr(ArrVal::Longs(v)) => v.len(),
            _ => {
                proof {
                    assert(false);
                }
                0
            },
        }
    }
}

impl JavaString {
    /// Creates a string object from host text, which crosses the boundary
    /// in its Modified-UTF-8 form. Never fails: every host string encodes.
    /// The length bound is the interface's own: strings are indexed with a
    /// 32-bit count of UTF-16 units.
    pub fn new(env: &mut JavaEnv, val: &str, cap: Capability) -> (r: JniResult<JavaString>)
        requires
            old(env).wf(),
            !old(env).pending_excn(),
            utf16_len(val@) <= 0x7FFF_FFFF,
        ensures
            final(env).wf(),
            env_extends(*old(env), *final(env)),
            !final(env).pending_excn(),
            r is Ok,
            final(env).obj_count() == old(env).obj_count() + 1,
            final(env).ref_count() == old(env).ref_count() + 1,
            ({
                let s = r.unwrap().0;
                &&& s.valid_text(final(env))
                &&& s.spec_ref_type() == RefType::Local
                &&& final(env).text_chars(s.target(final(env))) == val@
            }),
    {
        let _ = cap;
        let chars = str_chars(val);
        let data = JavaChars::new(val);
        let idx = env.add_obj(ObjEntry { kind: ObjKind::Text { chars, data }, locks: 0 });
        let ghost mid = *env;
        let slot = env.add_ref(idx, RefType::Local);
        proof {
            lemma_env_extends_trans(*old(env), mid, *env);
            assert(obj_unchanged(mid, *env, idx as int));
        }
        Ok((JavaString { slot, rtype: RefType::Local }, Capability::new()))
    }

    /// The string's length as the machine counts it: in UTF-16 code units.
    pub fn len(&self, env: &JavaEnv, _cap: &Capability) -> (n: usize)
        requires
            env.wf(),
            self.valid_text(env),
        ensures
            n == utf16_len(env.text_chars(self.target(env))),
    {
        let target = env.refs[self.slot].target;
        proof {
            assert(env.obj_ok(target as int));
        }
        match &env.objects[target].kind {
            ObjKind::Text { chars, .. } => utf16_length(chars),
            _ => {
                proof {
                    assert(false);
                }
                0
            },
        }
    }

    /// The string's size in Modified-UTF-8 bytes, terminator not counted.
    pub fn size(&self, env: &JavaEnv, _cap: &Capability) -> (n: usize)
        requires
            env.wf(),
            self.valid_text(env),
        ensures
            n == mutf8_encode(env.text_chars(self.target(env))).len(),
    {
        let target = env.refs[self.slot].target;
        proof {
            assert(env.obj_ok(target as int));
        }
        match &env.objects[target].kind {
            ObjKind::Text { data, .. } => data.as_vec().len() - 1,
            _ => {
                proof {
                    assert(false);
                }
                0
            },
        }
    }

    /// The string's text, decoded from its wire form. A string object's
    /// buffer always decodes — it was made by the encoder — so this never
    /// returns `None` for a valid handle.
    pub fn to_str(&self, env: &JavaEnv, _cap: &Capability) -> (r: Option<String>)
        requires
            env.wf(),
            self.valid_text(env),
        ensures
            r is Some,
            r.unwrap()@ == env.text_chars(self.target(env)),
    {
        let target = env.refs[self.slot].target;
        proof {
            assert(env.obj_ok(target as int));
        }
        match &env.objects[target].kind {
            ObjKind::Text { data, .. } => {
                proof {
                    lemma_mutf8_round_trip(env.text_chars(self.target(env)));
                }
                data.to_string()
            },
            _ => {
                proof {
                    assert(false);
                }
                None
            },
        }
    }

    /// A range of the string, re-encoded as a fresh buffer. Positions count
    /// scalar values.
    pub fn region(&self, env: &JavaEnv, start: usize, length: usize, _cap: &Capability) -> (r:
        JavaChars)
        requires
            env.wf(),
            self.valid_text(env),
            start + length <= env.text_chars(self.target(env)).len(),
        ensures
            r@ == mutf8_encode(
                env.text_chars(self.target(env)).subrange(
                    start as int,
                    start + length,
                ),
            ) + seq![0u8],
    {
        let target = env.refs[self.slot].target;
        proof {
            assert(env.obj_ok(target as int));
        }
        match &env.objects[target].kind {
            ObjKind::Text { chars, .. } => {
                let n = chars.len();
                proof {
                    assert(start + length <= n);
                }
                JavaChars::encode_range(chars, start, start + length)
            },
            _ => {
                proof {
                    assert(false);
                }
                JavaChars::new("")
            },
        }
    }

    /// The whole string as a fresh Modified-UTF-8 buffer.
    pub fn as_chars(&self, env: &JavaEnv, _cap: &Capability) -> (r: JavaChars)
        requires
            env.wf(),
            self.valid_text(env),
        ensures
            r@ == mutf8_encode(env.text_chars(self.target(env))) + seq![0u8],
    {
        let target = env.refs[self.slot].target;
        proof {
            assert(env.obj_ok(target as int));
        }
        let r = match &env.objects[target].kind {
            ObjKind::Text { chars, .. } => JavaChars::encode_range(chars, 0, chars.len()),
            _ => {
                proof {
                    assert(false);
                }
                JavaChars::new("")
            },
        };
        proof {
            let cs = env.text_chars(self.target(env));
            assert(cs.subrange(0, cs.len() as int) =~= cs);
        }
        r
    }

    /// A range of the string as plain characters. Positions count scalar
    /// values.
    pub fn vec_region(&self, env: &JavaEnv, start: usize, length: usize, _cap: &Capability) -> (r:
        Vec<char>)
        requires
            env.wf(),
            self.valid_text(env),
            start + length <= env.text_chars(self.target(env)).len(),
        ensures
            r@ == env.text_chars(self.target(env)).subrange(start as int, start + length),
    {
        let target = env.refs[self.slot].target;
        proof {
            assert(env.obj_ok(target as int));
        }
        match &env.objects[target].kind {
            ObjKind::Text { chars, .. } => {
                let n = chars.len();
                proof {
                    assert(start + length <= n);
                }
                let mut out: Vec<char> = Vec::new();
                let mut i: usize = start;
                proof {
                    assert(chars@.subrange(start as int, start as int) =~= Seq::<char>::empty());
                }
                while i < start + length
                    invariant
                        start <= i <= start + length,
                        start + length <= n,
                        n == chars@.len(),
                        out@ == chars@.subrange(start as int, i as int),
                    decreases start + length - i,
                {
                    out.push(chars[i]);
                    proof {
                        assert(chars@.subrange(start as int, i as int).push(chars@[i as int])
                            =~= chars@.subrange(start as int, i + 1 as int));
                    }
                    i = i + 1;
                }
                out
            },
            _ => {
                proof {
                    assert(false);
                }
                Vec::new()
            },
        }
    }

    /// The whole string as plain characters.
    pub fn as_vec(&self, env: &JavaEnv, cap: &Capability) -> (r: Vec<char>)
        requires
            env.wf(),
            self.valid_text(env),
        ensures
            r@ == env.text_chars(self.target(env)),
    {
        let target = env.refs[self.slot].target;
        proof {
            assert(env.obj_ok(target as int));
        }
        let count = match &env.objects[target].kind {
            ObjKind::Text { chars, .. } => chars.len(),
            _ => {
                proof {
                    assert(false);
                }
                0
            },
        };
        let r = self.vec_region(env, 0, count, cap);
        proof {
            let cs = env.text_chars(self.target(env));
            assert(cs.subrange(0, cs.len() as int) =~= cs);
        }
        r
    }
}

impl JavaDirectByteBuffer {
    /// Creates a direct byte buffer of the given capacity and returns a
    /// scoped handle to it. Never fails: the backing store is the host's.
    pub fn new(env: &mut JavaEnv, capacity: usize, cap: Capability) -> (r: JniResult<
        JavaDirectByteBuffer,
    >)
        requires
            old(env).wf(),
            !old(env).pending_excn(),
        ensures
            final(env).wf(),
            env_extends(*old(env), *final(env)),
            !final(env).pending_excn(),
            r is Ok,
            final(env).obj_count() == old(env).obj_count() + 1,
            final(env).ref_count() == old(env).ref_count() + 1,
            ({
                let b = r.unwrap().0;
                &&& b.valid_buffer(final(env))
                &&& b.spec_ref_type() == RefType::Local
                &&& final(env).buffer_size(b.target(final(env))) == capacity as int
            }),
    {
        let _ = cap;
        let idx = env.add_obj(ObjEntry { kind: ObjKind::Buffer { size: capacity }, locks: 0 });
        let ghost mid = *env;
        let slot = env.add_ref(idx, RefType::Local);
        proof {
            lemma_env_extends_trans(*old(env), mid, *env);
            assert(obj_unchanged(mid, *env, idx as int));
        }
        Ok((JavaDirectByteBuffer { slot, rtype: RefType::Local }, Capability::new()))
    }

    /// The buffer's capacity in bytes.
    pub fn capacity(&self, env: &JavaEnv, _cap: &Capability) -> (n: usize)
        requires
            env.wf(),
            self.valid_buffer(env),
        ensures
            n as int == env.buffer_size(self.target(env)),
    {
        let target = env.refs[self.slot].target;
        match &env.objects[target].kind {
            ObjKind::Buffer { size } => *size,
            _ => {
                proof {
                    assert(false);
                }
                0
            },
        }
    }
}

} // verus!
