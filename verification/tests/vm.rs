use neon_vm::macro_internal;
use neon_vm::mem::{Handle, Kind, Local, Tag};
use neon_vm::vm::internal::{
    ContextInternal, Frame, Isolate, Layout, Root, Scope, HANDLE_SCOPE_ALIGNMENT, HANDLE_SCOPE_SIZE,
};
use neon_vm::vm::{
    CallContext, CallKind, CallbackInfo, ClassMap, ClassMetadata, ComputeContext, Context,
    ErrorKind, ExecuteContext, JsResult, JsResultExt, ModuleContext, Ref, RefMut, TaskContext,
    Throw, VmResult,
};

const HOST: Layout = Layout { size: 24, alignment: 8 };

fn local(id: u64, tag: Tag) -> Local {
    Local { id, tag }
}

fn object(id: u64) -> Handle {
    Handle::new(local(id, Tag::Object), Kind::JsObject, 0).unwrap()
}

fn frame(args: Vec<Local>) -> CallbackInfo {
    CallbackInfo::new(args, local(50, Tag::Object), local(51, Tag::Undefined), false).unwrap()
}

#[test]
fn throw_says_what_it_is() {
    assert_eq!(Throw.to_string(), "JavaScript Error");
    assert_eq!(Throw.description(), "javascript error");
    assert_eq!(format!("{:?}", Throw), "Throw");
}

#[test]
fn a_new_instance_is_empty() {
    let isolate = Isolate::new(7, 99, HOST);
    assert_eq!(isolate.to_raw(), 7);
    assert_eq!(isolate.global(), 99);
    assert_eq!(isolate.layout(), HOST);
    assert!(isolate.is_compatible());
    assert_eq!(isolate.top(), None);
    assert!(!isolate.is_live(0));
    assert!(!isolate.is_throwing());
    assert!(isolate.properties().is_empty());
    assert_eq!(isolate.class(1), None);
}

#[test]
fn regions_are_numbered_as_they_are_entered() {
    let mut isolate = Isolate::new(1, 0, HOST);
    assert_eq!(isolate.enter(false), 0);
    assert_eq!(isolate.enter(true), 1);
    assert_eq!(isolate.top(), Some(Frame { serial: 1, escapable: true }));
    assert!(isolate.is_live(0));
    assert!(isolate.is_live(1));
    assert!(!isolate.is_live(2));
    isolate.exit();
    assert_eq!(isolate.top(), Some(Frame { serial: 0, escapable: false }));
    assert!(isolate.is_live(0));
    assert!(!isolate.is_live(1));
    assert_eq!(isolate.enter(false), 2);
    assert!(!isolate.is_live(1));
    isolate.exit();
    isolate.exit();
    assert_eq!(isolate.top(), None);
    assert!(!isolate.is_live(0));
}

#[test]
fn a_scope_is_entered_for_the_computation_and_exited_after_it() {
    let mut isolate = Isolate::new(3, 0, HOST);
    let seen = Scope::with(&mut isolate, Root::HandleScope, |scope| {
        assert!(scope.metadata.active);
        assert_eq!(scope.metadata.isolate, 3);
        assert_eq!(scope.root, Root::HandleScope);
        assert_eq!(scope.isolate.top(), Some(Frame { serial: 0, escapable: false }));
        scope.handle_scope
    });
    assert_eq!(seen, 0);
    assert_eq!(isolate.top(), None);
    let seen = Scope::with(&mut isolate, Root::EscapableHandleScope, |scope| {
        assert_eq!(scope.isolate.top(), Some(Frame { serial: 1, escapable: true }));
        scope.handle_scope
    });
    assert_eq!(seen, 1);
    assert_eq!(isolate.top(), None);
}

#[test]
fn an_inherited_scope_attaches_to_the_region_of_the_host() {
    let mut isolate = Isolate::new(3, 0, HOST);
    let region = isolate.enter(false);
    let seen = TaskContext::with(&mut isolate, |cx| {
        assert!(cx.is_active());
        assert_eq!(cx.scope.root, Root::InheritedHandleScope);
        assert_eq!(cx.isolate().top(), Some(Frame { serial: region, escapable: false }));
        cx.scope.handle_scope
    });
    assert_eq!(seen, region);
    // The region is the host's to exit.
    assert!(isolate.is_live(region));
    isolate.exit();
    assert!(!isolate.is_live(region));
}

#[test]
fn a_context_can_be_fenced_off() {
    let mut isolate = Isolate::new(1, 0, HOST);
    ExecuteContext::with(&mut isolate, |mut cx| {
        assert!(cx.is_active());
        assert!(cx.scope_metadata().active);
        cx.deactivate();
        assert!(!cx.is_active());
        assert!(!cx.scope_metadata().active);
        cx.deactivate();
        assert!(!cx.is_active());
        cx.activate();
        assert!(cx.is_active());
        cx.check_active();
        let guard = cx.lock();
        drop(guard);
    });
}

#[test]
fn the_outer_context_is_active_again_after_a_nested_computation() {
    let mut isolate = Isolate::new(1, 0, HOST);
    ExecuteContext::with(&mut isolate, |mut cx| {
        let outer = cx.scope.handle_scope;
        let inner = cx.execute_scoped(|inner| {
            assert!(inner.is_active());
            assert_eq!(inner.isolate().top().unwrap().serial, inner.scope.handle_scope);
            inner.scope.handle_scope
        });
        assert_ne!(inner, outer);
        assert!(cx.is_active());
        assert_eq!(cx.scope.handle_scope, outer);
        assert_eq!(cx.isolate().top().unwrap().serial, outer);
        assert!(!cx.isolate().is_live(inner));
        let result = cx.compute_scoped(|mut inner| Ok(inner.global()));
        assert!(result.is_ok());
        assert!(cx.is_active());
        let again = cx.execute_scoped(|mut inner| inner.execute_scoped(|innermost| {
            innermost.scope.handle_scope
        }));
        assert!(cx.is_active());
        assert!(!cx.isolate().is_live(again));
        let _guard = cx.lock();
    });
    assert_eq!(isolate.top(), None);
}

#[test]
fn an_escaped_value_outlives_its_scope_and_the_others_do_not() {
    let mut isolate = Isolate::new(1, 77, HOST);
    ExecuteContext::with(&mut isolate, |mut cx| {
        let mut left_behind = None;
        let escaped = cx
            .compute_scoped(|mut inner| {
                assert_eq!(inner.scope.root, Root::EscapableHandleScope);
                assert!(inner.isolate().top().unwrap().escapable);
                let created = inner.global();
                assert!(inner.isolate().is_rooted(&created));
                assert_eq!(created.scope(), inner.scope.handle_scope);
                left_behind = Some(created);
                Ok(created)
            })
            .unwrap();
        let left_behind = left_behind.unwrap();
        // The promoted value is the value that was created ...
        assert!(escaped == left_behind);
        assert_eq!(escaped.to_raw(), local(77, Tag::Object));
        assert_eq!(escaped.kind(), Kind::JsObject);
        // ... rooted where the outer context roots its values.
        assert_eq!(escaped.scope(), cx.scope.handle_scope);
        assert!(cx.isolate().is_rooted(&escaped));
        // What was not promoted went with the inner scope.
        assert_ne!(left_behind.scope(), escaped.scope());
        assert!(!cx.isolate().is_rooted(&left_behind));
        escaped
    });
}

#[test]
fn a_value_of_an_exited_scope_is_not_rooted() {
    let mut isolate = Isolate::new(1, 77, HOST);
    let handle = ExecuteContext::with(&mut isolate, |mut cx| {
        let handle = cx.global();
        assert!(cx.isolate().is_rooted(&handle));
        handle
    });
    assert!(!isolate.is_rooted(&handle));
    // A scope that is entered later does not root it again.
    ExecuteContext::with(&mut isolate, |cx| {
        assert!(!cx.isolate().is_rooted(&handle));
    });
}

#[test]
fn a_failed_computation_escapes_nothing() {
    let mut isolate = Isolate::new(1, 0, HOST);
    ExecuteContext::with(&mut isolate, |mut cx| {
        let result: JsResult =
            cx.compute_scoped(|mut inner| inner.throw(ErrorKind::RangeError, "out of range"));
        assert!(result.is_err());
        assert!(cx.is_active());
        assert!(cx.isolate().is_throwing());
    });
    let pending = isolate.take_pending().unwrap();
    assert_eq!(pending.kind, ErrorKind::RangeError);
    assert_eq!(pending.message, "out of range");
    assert!(!isolate.is_throwing());
    assert!(isolate.take_pending().is_none());
}

#[test]
fn the_global_object_is_rooted_in_the_context() {
    let mut isolate = Isolate::new(1, 1234, HOST);
    ExecuteContext::with(&mut isolate, |mut cx| {
        let global = cx.global();
        assert_eq!(global.to_raw(), local(1234, Tag::Object));
        assert_eq!(global.kind(), Kind::JsObject);
        assert_eq!(global.scope(), cx.scope.handle_scope);
        assert!(global == cx.global());
    });
}

#[test]
fn registries_of_two_instances_are_independent() {
    let mut first = Isolate::new(1, 0, HOST);
    let mut second = Isolate::new(2, 0, HOST);
    first.class_map().set(10, ClassMetadata { pointer: 0xa });
    assert_eq!(first.class(10), Some(ClassMetadata { pointer: 0xa }));
    assert_eq!(second.class(10), None);
    assert_eq!(second.class_map().get(&10), None);
    second.class_map().set(10, ClassMetadata { pointer: 0xb });
    second.class_map().set(11, ClassMetadata { pointer: 0xc });
    assert_eq!(first.class(10), Some(ClassMetadata { pointer: 0xa }));
    assert_eq!(first.class(11), None);
    assert_eq!(second.class(10), Some(ClassMetadata { pointer: 0xb }));
}

#[test]
fn a_class_is_registered_in_one_instance_only() {
    let mut instances = vec![Isolate::new(1, 0, HOST), Isolate::new(2, 0, HOST)];
    instances[0].register(10, ClassMetadata { pointer: 0xa });
    assert_eq!(instances[0].class(10), Some(ClassMetadata { pointer: 0xa }));
    assert_eq!(instances[1].class(10), None);
    instances[1].register(10, ClassMetadata { pointer: 0xb });
    instances[0].register(10, ClassMetadata { pointer: 0xc });
    assert_eq!(instances[0].class(10), Some(ClassMetadata { pointer: 0xc }));
    assert_eq!(instances[1].class(10), Some(ClassMetadata { pointer: 0xb }));
    assert_eq!(instances[0].class_map().get(&10), Some(&ClassMetadata { pointer: 0xc }));
}

#[test]
fn registering_a_class_again_overwrites_it() {
    let mut isolate = Isolate::new(1, 0, HOST);
    isolate.class_map().set(10, ClassMetadata { pointer: 1 });
    isolate.class_map().set(20, ClassMetadata { pointer: 2 });
    isolate.class_map().set(10, ClassMetadata { pointer: 3 });
    assert_eq!(isolate.class_map().get(&10), Some(&ClassMetadata { pointer: 3 }));
    assert_eq!(isolate.class_map().get(&20), Some(&ClassMetadata { pointer: 2 }));
    assert_eq!(isolate.class_map().get(&30), None);
}

#[test]
fn the_registry_is_made_once() {
    let mut isolate = Isolate::new(1, 0, HOST);
    assert_eq!(isolate.class_map().get(&1), None);
    isolate.class_map().set(1, ClassMetadata { pointer: 5 });
    // Asking for the registry again gives the one that holds the class.
    assert_eq!(isolate.class_map().get(&1), Some(&ClassMetadata { pointer: 5 }));
    ExecuteContext::with(&mut isolate, |cx| {
        assert_eq!(cx.isolate().class(1), Some(ClassMetadata { pointer: 5 }));
    });
}

#[test]
fn a_class_map_maps_types_to_metadata() {
    let mut map = ClassMap::new();
    assert_eq!(map.get(&1), None);
    map.set(1, ClassMetadata { pointer: 5 });
    map.set(2, ClassMetadata { pointer: 6 });
    assert_eq!(map.get(&1), Some(&ClassMetadata { pointer: 5 }));
    assert_eq!(map.get(&2), Some(&ClassMetadata { pointer: 6 }));
    map.set(1, ClassMetadata { pointer: 7 });
    assert_eq!(map.get(&1), Some(&ClassMetadata { pointer: 7 }));
}

#[test]
fn a_call_frame_gives_what_the_host_handed_in() {
    let mut info = CallbackInfo::new(
        vec![local(1, Tag::Number), local(2, Tag::Text)],
        local(3, Tag::Object),
        local(4, Tag::Function),
        true,
    )
    .unwrap();
    assert_eq!(info.len(), 2);
    assert_eq!(info.kind(), CallKind::Construct);
    assert_eq!(info.returned(), None);
    let value = Handle::new(local(9, Tag::Boolean), Kind::JsBoolean, 0).unwrap();
    info.set_return(value);
    assert_eq!(info.returned(), Some(local(9, Tag::Boolean)));
    assert_eq!(info.len(), 2);
    assert_eq!(frame(vec![]).kind(), CallKind::Call);
    assert_eq!(frame(vec![]).len(), 0);

    let mut isolate = Isolate::new(1, 0, HOST);
    ExecuteContext::with(&mut isolate, |mut cx| {
        let region = cx.scope.handle_scope;
        assert_eq!(info.this(&mut cx), local(3, Tag::Object));
        let data = info.data(&cx);
        assert_eq!(data.to_raw(), local(4, Tag::Function));
        assert_eq!(data.kind(), Kind::JsValue);
        assert_eq!(data.scope(), region);
        let first = info.get(&mut cx, 0).unwrap();
        assert_eq!(first.to_raw(), local(1, Tag::Number));
        assert_eq!(first.kind(), Kind::JsValue);
        assert_eq!(first.scope(), region);
        assert_eq!(info.get(&mut cx, 1).unwrap().to_raw(), local(2, Tag::Text));
        assert!(info.get(&mut cx, 2).is_none());
        assert!(info.get(&mut cx, -1).is_none());
        assert!(info.get(&mut cx, i32::MAX).is_none());
        assert!(info.get(&mut cx, i32::MIN).is_none());
        assert_eq!(info.require(&mut cx, 1).unwrap().to_raw(), local(2, Tag::Text));
        assert!(!cx.isolate().is_throwing());
        assert!(info.require(&mut cx, 2).is_err());
        assert!(cx.isolate().is_throwing());
    });
    let pending = isolate.take_pending().unwrap();
    assert_eq!(pending.kind, ErrorKind::TypeError);
    assert_eq!(pending.message, "not enough arguments");
}

#[test]
fn a_call_context_reads_its_frame() {
    let info = frame(vec![local(1, Tag::Number), local(2, Tag::Array)]);
    let mut isolate = Isolate::new(1, 0, HOST);
    CallContext::with(&mut isolate, &info, Kind::JsObject, |mut cx| {
        let region = cx.scope.handle_scope;
        assert!(cx.is_active());
        assert_eq!(cx.kind(), CallKind::Call);
        assert_eq!(cx.len(), 2);
        assert_eq!(cx.this_kind, Kind::JsObject);
        let this = cx.this();
        assert_eq!(this.to_raw(), local(50, Tag::Object));
        assert_eq!(this.kind(), Kind::JsObject);
        assert_eq!(this.scope(), region);
        let first = cx.argument_opt(0).unwrap();
        assert_eq!(first.to_raw(), local(1, Tag::Number));
        assert_eq!(first.kind(), Kind::JsValue);
        assert!(cx.argument_opt(2).is_none());
        assert!(cx.argument_opt(-1).is_none());
        let number = cx.argument(0, Kind::JsNumber).unwrap();
        assert_eq!(number.to_raw(), local(1, Tag::Number));
        assert_eq!(number.kind(), Kind::JsNumber);
        assert_eq!(number.scope(), region);
        let array = cx.argument(1, Kind::JsObject).unwrap();
        assert_eq!(array.to_raw(), local(2, Tag::Array));
        assert_eq!(array.kind(), Kind::JsObject);
        assert!(!cx.isolate().is_throwing());
    });
    assert_eq!(isolate.top(), None);
}

#[test]
fn an_argument_of_another_kind_is_a_type_error() {
    let info = frame(vec![local(1, Tag::Text)]);
    let mut isolate = Isolate::new(1, 0, HOST);
    let result = info.with_cx(&mut isolate, Kind::JsObject, |mut cx| {
        cx.argument(0, Kind::JsNumber)
    });
    assert!(result.is_err());
    let pending = isolate.take_pending().unwrap();
    assert_eq!(pending.kind, ErrorKind::TypeError);
    assert_eq!(pending.message, "failed downcast to number");
}

#[test]
fn a_missing_argument_is_a_type_error() {
    let info = frame(vec![]);
    let mut isolate = Isolate::new(1, 0, HOST);
    for i in [0, 1, 7, -1, i32::MAX, i32::MIN] {
        let result = CallContext::with(&mut isolate, &info, Kind::JsObject, |mut cx| {
            assert_eq!(cx.len(), 0);
            assert!(i >= cx.len() || i < 0);
            cx.argument(i, Kind::JsValue)
        });
        assert!(result.is_err());
        let pending = isolate.take_pending().unwrap();
        assert_eq!(pending.kind, ErrorKind::TypeError);
        assert_eq!(pending.message, "not enough arguments");
    }
}

// A host that keeps numbers: the value with the identity `i` is
// `numbers[i]`.
fn identity_of_number(numbers: &[f64], x: f64) -> u64 {
    numbers.iter().position(|n| *n == x).unwrap() as u64
}

#[test]
fn a_number_passes_the_boundary_unchanged() {
    let numbers = [9000.0_f64, 4294967296.0, -1.4747, -9000.0, 1.4747, 0.0];
    for x in numbers {
        let argument = local(identity_of_number(&numbers, x), Tag::Number);
        let mut info = frame(vec![argument]);
        let mut isolate = Isolate::new(1, 0, HOST);
        let result = CallContext::with(&mut isolate, &info, Kind::JsObject, |mut cx| {
            let number: Handle = cx.argument(0, Kind::JsNumber)?;
            Ok(number)
        });
        let returned: Handle = match result {
            Ok(handle) => handle,
            Err(Throw) => panic!("the function threw"),
        };
        info.set_return(returned);
        let slot = info.returned().unwrap();
        assert_eq!(slot, argument);
        assert_eq!(numbers[slot.id as usize], x);
        assert!(!isolate.is_throwing());
    }
}

#[test]
fn throwing_records_the_exception() {
    let mut isolate = Isolate::new(1, 0, HOST);
    let _sentinel: Throw = isolate.throw(ErrorKind::Error, "first");
    assert!(isolate.is_throwing());
    let _sentinel: Throw = isolate.throw(ErrorKind::SyntaxError, "second");
    let pending = isolate.take_pending().unwrap();
    assert_eq!(pending.kind, ErrorKind::SyntaxError);
    assert_eq!(pending.message, "second");
    ExecuteContext::with(&mut isolate, |mut cx| {
        let result: VmResult<u8> = cx.throw(ErrorKind::ReferenceError, "no such name");
        assert!(result.is_err());
        assert!(cx.is_active());
    });
    let pending = isolate.take_pending().unwrap();
    assert_eq!(pending.kind, ErrorKind::ReferenceError);
    assert_eq!(pending.message, "no such name");
}

#[test]
fn a_failed_downcast_can_be_thrown() {
    let mut isolate = Isolate::new(1, 0, HOST);
    ExecuteContext::with(&mut isolate, |mut cx| {
        let value = Handle::new(local(1, Tag::Null), Kind::JsValue, cx.scope.handle_scope).unwrap();
        let kept = value.downcast(Kind::JsNull).unwrap_or_throw(&mut cx).unwrap();
        assert!(kept == value);
        assert_eq!(kept.kind(), Kind::JsNull);
        assert!(!cx.isolate().is_throwing());
        assert!(value.downcast(Kind::JsFunction).unwrap_or_throw(&mut cx).is_err());
        assert!(cx.isolate().is_throwing());
    });
    let pending = isolate.take_pending().unwrap();
    assert_eq!(pending.kind, ErrorKind::TypeError);
    assert_eq!(pending.message, "failed downcast to function");
}

#[test]
fn a_module_exports_values() {
    let mut isolate = Isolate::new(1, 0, HOST);
    let exports = object(40);
    let result = ModuleContext::with(&mut isolate, exports, |mut cx| {
        assert!(cx.is_active());
        assert!(!cx.isolate().top().unwrap().escapable);
        assert!(cx.exports_object().unwrap() == exports);
        let value = Handle::new(local(1, Tag::Number), Kind::JsNumber, 0).unwrap();
        cx.export_value("answer", value)?;
        let function = Handle::new(local(2, Tag::Function), Kind::JsFunction, 0).unwrap();
        cx.export_function("hello", Ok(function))?;
        let constructor = Handle::new(local(3, Tag::Function), Kind::JsFunction, 0).unwrap();
        cx.export_class("User", Ok(constructor))?;
        assert!(cx.export_function("broken", Err(Throw)).is_err());
        assert!(cx.export_class("Broken", Err(Throw)).is_err());
        cx.export_value("answer", function)
    });
    assert!(result.is_ok());
    let exported: Vec<(u64, &str, Local)> = isolate
        .properties()
        .iter()
        .map(|p| (p.object, p.key.as_str(), p.value))
        .collect();
    assert_eq!(
        exported,
        vec![
            (40, "answer", local(1, Tag::Number)),
            (40, "hello", local(2, Tag::Function)),
            (40, "User", local(3, Tag::Function)),
            (40, "answer", local(2, Tag::Function)),
        ]
    );
}

#[test]
fn a_module_is_initialized_in_a_context_of_its_own() {
    let mut isolate = Isolate::new(1, 0, HOST);
    let exports = object(40);
    macro_internal::initialize_module(&mut isolate, exports, |mut cx| {
        let value = Handle::new(local(1, Tag::Text), Kind::JsString, 0).unwrap();
        cx.export_value("name", value)
    });
    assert_eq!(isolate.top(), None);
    assert_eq!(isolate.properties().len(), 1);
    assert_eq!(isolate.properties()[0].key, "name");
    // A failed initialization is not reported, but the VM is throwing.
    macro_internal::initialize_module(&mut isolate, exports, |mut cx| {
        cx.throw(ErrorKind::Error, "no luck")
    });
    assert_eq!(isolate.top(), None);
    assert!(isolate.is_throwing());
    assert_eq!(isolate.properties().len(), 1);
}

#[test]
fn memory_is_borrowed_for_the_computation() {
    let mut isolate = Isolate::new(1, 0, HOST);
    ExecuteContext::with(&mut isolate, |cx| {
        let buffer = Handle::new(local(8, Tag::ArrayBuffer), Kind::JsArrayBuffer, 0).unwrap();
        let seen = cx.borrow(&buffer, 0x4000, |data: Ref| data);
        assert_eq!(seen, Ref { value: local(8, Tag::ArrayBuffer), pointer: 0x4000 });
        let mut buffer = Handle::new(local(9, Tag::Buffer), Kind::JsBuffer, 0).unwrap();
        let seen = cx.borrow_mut(&mut buffer, 0x5000, |data: RefMut| data.pointer + 1);
        assert_eq!(seen, 0x5001);
        assert_eq!(buffer.to_raw(), local(9, Tag::Buffer));
        // Each lock starts from an empty ledger.
        let again = cx.borrow_mut(&mut buffer, 0x5000, |data: RefMut| data.value);
        assert_eq!(again, local(9, Tag::Buffer));
    });
}

#[test]
fn a_compute_context_is_a_context() {
    let mut isolate = Isolate::new(1, 5, HOST);
    let region = ComputeContext::with(&mut isolate, |mut cx| {
        assert!(cx.is_active());
        let global = cx.global();
        assert_eq!(global.scope(), cx.scope.handle_scope);
        cx.scope.handle_scope
    });
    assert!(!isolate.is_live(region));
}

#[test]
fn unwinding_exits_the_regions_that_were_entered_later() {
    let mut isolate = Isolate::new(1, 0, HOST);
    isolate.unwind_to(0);
    assert_eq!(isolate.top(), None);
    let first = isolate.enter(false);
    let second = isolate.enter(true);
    let third = isolate.enter(false);
    isolate.unwind_to(third);
    assert_eq!(isolate.top().unwrap().serial, third);
    isolate.unwind_to(u64::MAX);
    assert_eq!(isolate.top().unwrap().serial, third);
    isolate.unwind_to(first);
    assert_eq!(isolate.top(), Some(Frame { serial: first, escapable: false }));
    assert!(!isolate.is_live(second));
    assert!(!isolate.is_live(third));
    // The regions that are entered next get serials of their own.
    let fourth = isolate.enter(false);
    assert_eq!(fourth, 3);
    let fifth = isolate.enter(false);
    // Unwinding to a region that was exited stops at the next one below.
    isolate.unwind_to(second);
    assert_eq!(isolate.top().unwrap().serial, first);
    assert!(!isolate.is_live(fourth));
    assert!(!isolate.is_live(fifth));
}

#[test]
fn a_context_recovers_from_an_abandoned_computation() {
    let mut isolate = Isolate::new(1, 0, HOST);
    ExecuteContext::with(&mut isolate, |mut cx| {
        let region = cx.scope.handle_scope;
        // What a nested computation leaves when it does not return.
        cx.deactivate();
        let inner = cx.scope.isolate.enter(false);
        let innermost = cx.scope.isolate.enter(true);
        assert!(!cx.is_active());
        cx.recover();
        assert!(cx.is_active());
        assert_eq!(cx.scope.handle_scope, region);
        assert_eq!(cx.isolate().top().unwrap().serial, region);
        assert!(!cx.isolate().is_live(inner));
        assert!(!cx.isolate().is_live(innermost));
        // Where nothing was abandoned, recovering changes nothing.
        cx.recover();
        assert!(cx.is_active());
        assert_eq!(cx.isolate().top().unwrap().serial, region);
        let again = cx.execute_scoped(|nested| nested.scope.handle_scope);
        assert!(again > innermost);
    });
    assert_eq!(isolate.top(), None);
}

#[test]
fn recorded_properties_are_handed_over_once() {
    let mut isolate = Isolate::new(1, 0, HOST);
    isolate.set_property(40, "a", local(1, Tag::Number));
    isolate.set_property(41, "b", local(2, Tag::Null));
    assert_eq!(isolate.properties().len(), 2);
    let taken = isolate.take_properties();
    assert_eq!(taken.len(), 2);
    assert_eq!(
        (taken[0].object, taken[0].key.as_str(), taken[0].value),
        (40, "a", local(1, Tag::Number))
    );
    assert_eq!(
        (taken[1].object, taken[1].key.as_str(), taken[1].value),
        (41, "b", local(2, Tag::Null))
    );
    assert!(isolate.properties().is_empty());
    assert!(isolate.take_properties().is_empty());
    isolate.set_property(40, "c", local(3, Tag::Text));
    assert_eq!(isolate.take_properties().len(), 1);
}

#[test]
fn a_fresh_instance_can_enter_regions() {
    let mut isolate = Isolate::new(1, 0, HOST);
    assert!(isolate.can_enter());
    isolate.enter(false);
    assert!(isolate.can_enter());
}

#[test]
fn the_this_binding_is_read_off_the_frame() {
    let info = CallbackInfo::new(vec![], local(3, Tag::Array), local(4, Tag::Null), false).unwrap();
    assert_eq!(info.this_binding(), local(3, Tag::Array));
    let mut isolate = Isolate::new(1, 0, HOST);
    CallContext::with(&mut isolate, &info, Kind::JsArray, |mut cx| {
        let this = cx.this();
        assert_eq!(this.to_raw(), local(3, Tag::Array));
        assert_eq!(this.kind(), Kind::JsArray);
    });
}

#[test]
fn a_host_is_compatible_where_its_regions_fit() {
    assert_eq!(HANDLE_SCOPE_SIZE, 24);
    assert_eq!(HANDLE_SCOPE_ALIGNMENT, 8);
    assert!(Isolate::new(1, 0, Layout { size: 24, alignment: 8 }).is_compatible());
    assert!(Isolate::new(1, 0, Layout { size: 16, alignment: 4 }).is_compatible());
    assert!(Isolate::new(1, 0, Layout { size: 0, alignment: 1 }).is_compatible());
    assert!(!Isolate::new(1, 0, Layout { size: 25, alignment: 8 }).is_compatible());
    assert!(!Isolate::new(1, 0, Layout { size: 24, alignment: 16 }).is_compatible());
    assert!(!Isolate::new(1, 0, Layout { size: 32, alignment: 16 }).is_compatible());
}
