use jni::Capability;
use jni::JavaArray;
use jni::JavaChars;
use jni::JavaClass;
use jni::JavaDirectByteBuffer;
use jni::JavaEnv;
use jni::JavaString;
use jni::JavaThrowable;
use jni::JavaVM;
use jni::JavaVMAttachArgs;
use jni::JavaVMInitArgs;
use jni::JavaVMOption;
use jni::JniError;
use jni::JniVersion;
use jni::RefType;

fn fresh_env() -> (JavaVM, JavaEnv, Capability) {
    let args = JavaVMInitArgs::new(JniVersion::JNI_VERSION_1_8, &[], false);
    let vm = JavaVM::new(args).unwrap();
    let (env, cap) = vm.get_env().unwrap();
    (vm, env, cap)
}

#[test]
#[allow(non_snake_case)]
fn test_JavaVMOption() {
    for s in &["", "-Xcheck:jni", "a"] {
        let opt = JavaVMOption::new(s);
        assert!(opt.extraInfo == 0);
        assert!(opt.optionString == *s);
        assert!(opt == *s);
    }
}

#[test]
#[allow(non_snake_case)]
fn test_JavaVMInitArgs() {
    let args = JavaVMInitArgs::new(
        JniVersion::JNI_VERSION_1_8,
        &[JavaVMOption::new("-Xcheck:jni"), JavaVMOption::new("-ea")],
        false,
    );
    assert!(!args.ignoreUnrecognized);
    assert!(args.version == JniVersion::JNI_VERSION_1_8);
    assert!(args.options.len() == 2);
    assert!(args.options[0] == "-Xcheck:jni");
    assert!(args.options == ["-Xcheck:jni", "-ea"]);
}

#[test]
fn test_version_constants() {
    assert_eq!(JniVersion::JNI_VERSION_1_8.number(), 0x00010008);
    assert_eq!(JniVersion::JNI_VERSION_1_1.number(), 0x00010001);
    assert_eq!(JniError::JNI_OK.code(), 0);
    assert_eq!(JniError::JNI_EVERSION.code(), -3);
}

#[test]
fn test_earliest_version_is_rejected() {
    let args = JavaVMInitArgs::new(JniVersion::JNI_VERSION_1_1, &[], false);
    match JavaVM::new(args) {
        Err(e) => assert_eq!(e, JniError::JNI_EVERSION),
        Ok(_) => panic!("the construction entry point does not accept the earliest version"),
    }
}

#[test]
fn test_env_version_and_vm() {
    let (vm, env, cap) = fresh_env();
    assert!(env.version(&cap) == vm.version());
    assert!(env.jvm().version() == vm.version());
    let (env2, cap2) = vm.get_env_daemon().unwrap();
    assert!(env2.version(&cap2) == vm.version());
    env2.release(cap2);
    env.release(cap);
}

#[test]
fn test_attach_args() {
    let (_vm, mut env, cap) = fresh_env();
    let (cls, cap) = JavaClass::find(&mut env, "java/lang/Object", cap).unwrap();
    let (group, cap) = cls.allocate(&mut env, cap).unwrap();
    let args = JavaVMAttachArgs::new(JniVersion::JNI_VERSION_1_6, "worker", group);
    assert!(args.version == JniVersion::JNI_VERSION_1_6);
    assert!(args.name == "worker");
    env.release(cap);
}

// Constructs the machine, attaches, finds the string class, allocates an
// instance, compares its class with the found one, and runs a string
// through the boundary.
#[test]
fn test_end_to_end_string() {
    let (vm, mut env, cap) = fresh_env();
    assert!(env.version(&cap) == vm.version());

    let (cls, cap) = JavaClass::find(&mut env, "java/lang/String", cap).unwrap();
    let (obj, cap) = cls.allocate(&mut env, cap).unwrap();
    let cls1 = obj.get_class(&mut env, &cap);
    assert!(env.is_same_object(&cls1.as_object(), &cls.as_object(), &cap));

    let proto = "Hello, world!";
    let (sobj, cap) = JavaString::new(&mut env, proto, cap).unwrap();
    assert_eq!(sobj.to_str(&env, &cap), Some(proto.to_string()));
    assert_eq!(sobj.len(&env, &cap), 13);

    let scls = sobj.as_object().get_class(&mut env, &cap);
    assert!(!env.is_same_object(&scls.as_object(), &obj.as_object(), &cap));
    assert!(env.is_same_object(&scls.as_object(), &cls.as_object(), &cap));
    assert!(!sobj.as_object().is_null(&env, &cap));
    env.release(cap);
}

// Looks up a class that does not exist: the result must be the exception
// token, the pending state must be observable, and clearing it must make
// subsequent calls succeed.
#[test]
fn test_find_class_missing() {
    let (_vm, mut env, cap) = fresh_env();
    let r = JavaClass::find(&mut env, "java/lang/NoSuchClass", cap);
    let ex = match r {
        Ok(_) => panic!("an unknown class name must raise an exception"),
        Err(ex) => ex,
    };
    assert!(JavaThrowable::check(&env).is_err());
    match JavaThrowable::occured(&mut env) {
        Ok(_) => panic!("the pending exception must be observable"),
        Err((thrown, ex2)) => {
            JavaThrowable::describe(&env, &ex2);
            drop(ex2);
            drop(thrown);
        },
    }
    let cap = JavaThrowable::clear(&mut env, ex);
    assert!(JavaThrowable::check(&env).is_ok());
    let (_cls, cap) = JavaClass::find(&mut env, "java/lang/String", cap).unwrap();
    env.release(cap);
}

#[test]
fn test_throw_and_rethrow() {
    let (_vm, mut env, cap) = fresh_env();
    let (tcls, cap) = JavaClass::find(&mut env, "java/lang/Throwable", cap).unwrap();
    let ex = JavaThrowable::throw_new(&mut env, &tcls, "boom", cap).unwrap();
    let (thrown, _ex2) = match JavaThrowable::occured(&mut env) {
        Err(pair) => pair,
        Ok(_) => panic!("throw-new must leave an exception pending"),
    };
    let cap = JavaThrowable::clear(&mut env, ex);
    let instance_cls = thrown.as_object().get_class(&mut env, &cap);
    assert!(env.is_same_object(&instance_cls.as_object(), &tcls.as_object(), &cap));
    let _ex = JavaThrowable::throw(&mut env, &thrown, cap).unwrap();
    match JavaThrowable::occured(&mut env) {
        Err((again, ex3)) => {
            assert!(matches!(
                JavaThrowable::check(&env),
                Err(_)
            ));
            let cap = JavaThrowable::clear(&mut env, ex3);
            assert!(env.is_same_object(&again.as_object(), &thrown.as_object(), &cap));
            env.release(cap);
        },
        Ok(_) => panic!("throw must leave an exception pending"),
    }
}

#[test]
fn test_define_class() {
    let (_vm, mut env, cap) = fresh_env();
    let (obj_cls, cap) = JavaClass::find(&mut env, "java/lang/Object", cap).unwrap();
    let (loader, cap) = obj_cls.allocate(&mut env, cap).unwrap();
    let body = [0xCAu8, 0xFE, 0xBA, 0xBE];
    let (defined, cap) = JavaClass::define(&mut env, "com/example/Fresh", &loader, &body, cap)
        .unwrap();
    let (found, cap) = JavaClass::find(&mut env, "com/example/Fresh", cap).unwrap();
    assert!(env.is_same_object(&found.as_object(), &defined.as_object(), &cap));
    // the superclass of a defined class is the root class
    let sup = defined.get_super(&mut env, &cap).unwrap();
    assert!(env.is_same_object(&sup.as_object(), &obj_cls.as_object(), &cap));
    // defining the same name again raises an exception
    let r = JavaClass::define(&mut env, "com/example/Fresh", &loader, &body, cap);
    let ex = match r {
        Ok(_) => panic!("a duplicate definition must raise an exception"),
        Err(ex) => ex,
    };
    let cap = JavaThrowable::clear(&mut env, ex);
    env.release(cap);
}

#[test]
fn test_superclass_chain_and_assignability() {
    let (_vm, mut env, cap) = fresh_env();
    let (string_cls, cap) = JavaClass::find(&mut env, "java/lang/String", cap).unwrap();
    let (object_cls, cap) = JavaClass::find(&mut env, "java/lang/Object", cap).unwrap();
    let sup = string_cls.get_super(&mut env, &cap).unwrap();
    assert!(env.is_same_object(&sup.as_object(), &object_cls.as_object(), &cap));
    assert!(object_cls.get_super(&mut env, &cap).is_none());

    assert!(string_cls.is_assignable_from(&string_cls, &env, &cap));
    assert!(string_cls.is_assignable_from(&object_cls, &env, &cap));
    assert!(!object_cls.is_assignable_from(&string_cls, &env, &cap));

    let (obj, cap) = string_cls.allocate(&mut env, cap).unwrap();
    assert!(obj.is_instance_of(&string_cls, &env, &cap));
    assert!(obj.is_instance_of(&object_cls, &env, &cap));
    let (sobj, cap) = JavaString::new(&mut env, "x", cap).unwrap();
    assert!(sobj.as_object().is_instance_of(&string_cls, &env, &cap));
    env.release(cap);
}

// Creating a reference of one class and releasing it with another class's
// release operation must be rejected, never silently ignored.
#[test]
fn test_wrong_release_is_rejected() {
    let (_vm, mut env, cap) = fresh_env();
    let (cls, cap) = JavaClass::find(&mut env, "java/lang/String", cap).unwrap();
    let (obj, cap) = cls.allocate(&mut env, cap).unwrap();
    let (global, cap) = obj.global(&mut env, cap).unwrap();
    assert!(global.ref_type() == RefType::Global);
    // the durable reference cannot go through the scoped or weak release
    assert_eq!(env.delete_local_ref(global, &cap), Err(JniError::JNI_EINVAL));
    let (global, cap) = obj.global(&mut env, cap).unwrap();
    assert_eq!(env.delete_weak_ref(global, &cap), Err(JniError::JNI_EINVAL));
    // the matching release succeeds, once
    let (global, cap) = obj.global(&mut env, cap).unwrap();
    let (global2, cap) = obj.global(&mut env, cap).unwrap();
    assert_eq!(env.delete_global_ref(global, &cap), Ok(()));
    assert_eq!(env.delete_global_ref(global2, &cap), Ok(()));
    // and a scoped reference cannot go through the durable release
    let (local, cap) = obj.local(&mut env, cap).unwrap();
    assert_eq!(env.delete_global_ref(local, &cap), Err(JniError::JNI_EINVAL));
    env.release(cap);
}

#[test]
fn test_release_dispatches_on_the_tag() {
    let (_vm, mut env, cap) = fresh_env();
    let (cls, cap) = JavaClass::find(&mut env, "java/lang/Object", cap).unwrap();
    let (obj, cap) = cls.allocate(&mut env, cap).unwrap();
    let (local, cap) = obj.local(&mut env, cap).unwrap();
    let (global, cap) = obj.global(&mut env, cap).unwrap();
    let (weak, cap) = obj.weak(&mut env, cap).unwrap();
    assert!(local.ref_type() == RefType::Local);
    assert!(global.ref_type() == RefType::Global);
    assert!(weak.ref_type() == RefType::Weak);
    assert!(!weak.is_null(&env, &cap));
    assert_eq!(env.delete_ref(local, &cap), Ok(()));
    assert_eq!(env.delete_ref(global, &cap), Ok(()));
    assert_eq!(env.delete_ref(weak, &cap), Ok(()));
    env.release(cap);
}

#[test]
fn test_monitor_nesting() {
    let (_vm, mut env, cap) = fresh_env();
    let (cls, cap) = JavaClass::find(&mut env, "java/lang/Object", cap).unwrap();
    let (obj, cap) = cls.allocate(&mut env, cap).unwrap();
    assert_eq!(env.monitor_enter(&obj, &cap), JniError::JNI_OK);
    assert_eq!(env.monitor_enter(&obj, &cap), JniError::JNI_OK);
    assert_eq!(env.monitor_exit(&obj, &cap), JniError::JNI_OK);
    assert_eq!(env.monitor_exit(&obj, &cap), JniError::JNI_OK);
    // exiting a monitor the thread does not hold is an error
    assert_eq!(env.monitor_exit(&obj, &cap), JniError::JNI_ERR);
    // the scoped form pairs enter with a consuming exit
    let held = obj.monitor(&mut env, &cap).unwrap();
    assert_eq!(held.exit(&mut env, &cap), JniError::JNI_OK);
    assert_eq!(env.monitor_exit(&obj, &cap), JniError::JNI_ERR);
    env.release(cap);
}

#[test]
fn test_string_accessors() {
    let (_vm, mut env, cap) = fresh_env();
    let proto = "a\u{E9}\u{20AC}\u{1D11E}";
    let (sobj, cap) = JavaString::new(&mut env, proto, cap).unwrap();
    // four scalars; the last takes two UTF-16 units
    assert_eq!(sobj.len(&env, &cap), 5);
    // 1 + 2 + 3 + 6 bytes on the wire
    assert_eq!(sobj.size(&env, &cap), 12);
    assert_eq!(sobj.to_str(&env, &cap), Some(proto.to_string()));
    assert_eq!(sobj.as_vec(&env, &cap), proto.chars().collect::<Vec<char>>());
    assert_eq!(sobj.vec_region(&env, 1, 2, &cap), vec!['\u{E9}', '\u{20AC}']);
    let region = sobj.region(&env, 2, 2, &cap);
    assert_eq!(region.as_vec().as_slice(), &[0xE2, 0x82, 0xAC, 0xED, 0xA0, 0xB4, 0xED, 0xB4, 0x9E, 0x00]);
    assert_eq!(region.to_string(), Some("\u{20AC}\u{1D11E}".to_string()));
    let whole = sobj.as_chars(&env, &cap);
    assert_eq!(whole.as_vec(), JavaChars::new(proto).as_vec());
    env.release(cap);
}

#[test]
fn test_direct_byte_buffer() {
    let (_vm, mut env, cap) = fresh_env();
    let (buf, cap) = JavaDirectByteBuffer::new(&mut env, 64, cap).unwrap();
    assert_eq!(buf.capacity(&env, &cap), 64);
    let bcls = buf.as_object().get_class(&mut env, &cap);
    let (named, cap) = JavaClass::find(&mut env, "java/nio/ByteBuffer", cap).unwrap();
    assert!(env.is_same_object(&bcls.as_object(), &named.as_object(), &cap));
    env.release(cap);
}

#[test]
fn test_int_array() {
    let (_vm, mut env, cap) = fresh_env();
    let (arr, cap) = JavaArray::<i32>::new(&mut env, 3, &0, cap).unwrap();
    assert_eq!(arr.len(&env, &cap), 3);
    let (zero, cap) = arr.get(&mut env, 1, cap).unwrap();
    assert_eq!(zero, 0);
    arr.set(&mut env, 1, &42, cap);
    let cap = JavaThrowable::check(&env).expect("an in-range store leaves no exception");
    let (val, cap) = arr.get(&mut env, 1, cap).unwrap();
    assert_eq!(val, 42);
    let (kept, cap) = arr.get(&mut env, 0, cap).unwrap();
    assert_eq!(kept, 0);
    // reading past the end raises an exception
    let r = arr.get(&mut env, 3, cap);
    let ex = match r {
        Ok(_) => panic!("an out-of-range read must raise an exception"),
        Err(ex) => ex,
    };
    let cap = JavaThrowable::clear(&mut env, ex);
    // writing past the end raises one too
    arr.set(&mut env, 9, &7, cap);
    match JavaThrowable::check(&env) {
        Err(_) => (),
        Ok(_) => panic!("an out-of-range store must raise an exception"),
    }
    let (thrown, ex) = match JavaThrowable::occured(&mut env) {
        Err(pair) => pair,
        Ok(_) => panic!("the pending exception must be observable"),
    };
    drop(thrown);
    let cap = JavaThrowable::clear(&mut env, ex);
    env.release(cap);
}

#[test]
fn test_typed_arrays() {
    let (_vm, mut env, cap) = fresh_env();
    let (flags, cap) = JavaArray::<bool>::new(&mut env, 2, &false, cap).unwrap();
    flags.set(&mut env, 0, &true, cap);
    let cap = JavaThrowable::check(&env).unwrap();
    let (b, cap) = flags.get(&mut env, 0, cap).unwrap();
    assert!(b);
    let (chars, cap) = JavaArray::<char>::new(&mut env, 2, &'\0', cap).unwrap();
    chars.set(&mut env, 1, &'é', cap);
    let cap = JavaThrowable::check(&env).unwrap();
    let (c, cap) = chars.get(&mut env, 1, cap).unwrap();
    assert_eq!(c, 'é');
    let (longs, cap) = JavaArray::<i64>::new(&mut env, 1, &0, cap).unwrap();
    longs.set(&mut env, 0, &(1 << 40), cap);
    let cap = JavaThrowable::check(&env).unwrap();
    let (l, cap) = longs.get(&mut env, 0, cap).unwrap();
    assert_eq!(l, 1i64 << 40);
    let (bytes, cap) = JavaArray::<u8>::new(&mut env, 4, &0, cap).unwrap();
    assert_eq!(bytes.len(&env, &cap), 4);
    let (shorts, cap) = JavaArray::<i16>::new(&mut env, 4, &0, cap).unwrap();
    shorts.set(&mut env, 3, &-5, cap);
    let cap = JavaThrowable::check(&env).unwrap();
    let (s, cap) = shorts.get(&mut env, 3, cap).unwrap();
    assert_eq!(s, -5);
    // an array is an object with a class
    let acls = bytes.as_object().get_class(&mut env, &cap);
    let (ocls, cap) = JavaClass::find(&mut env, "java/lang/Object", cap).unwrap();
    assert!(env.is_same_object(&acls.as_object(), &ocls.as_object(), &cap));
    env.release(cap);
}
