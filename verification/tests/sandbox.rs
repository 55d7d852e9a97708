use bytes::Bytes;
use isola::sandbox::{
    finish_call, lower_args, Arg, CallOutput, DirectoryMapping, Error, ErrorCode, FsPerms,
    GuestError, SandboxOptions, SandboxTemplate, WasmValue,
};
use isola::value::Value;

#[test]
fn sandbox_configuration_is_fluent() {
    let options = SandboxOptions::default()
        .max_memory(1024)
        .mount("/host", "/guest", FsPerms::ReadOnly)
        .env("KEY", "value");

    assert_eq!(options.max_memory, Some(1024));
    assert_eq!(options.directory_mappings.len(), 1);
    assert_eq!(options.env, [("KEY".to_string(), "value".to_string())]);

    let _builder = SandboxTemplate::<()>::builder()
        .max_memory(1024)
        .mount("/host", "/guest", FsPerms::ReadOnly)
        .env("KEY", "value");
}

fn pairs(env: &[(String, String)]) -> Vec<(&str, &str)> {
    env.iter().map(|(k, v)| (k.as_str(), v.as_str())).collect()
}

fn mounts(list: &[DirectoryMapping]) -> Vec<(&str, &str, FsPerms)> {
    list.iter().map(|m| (m.host.as_str(), m.guest.as_str(), m.perms)).collect()
}

#[test]
fn overrides_replace_by_key_in_place() {
    let base = SandboxOptions::default()
        .max_memory(10)
        .mount("/a", "/x", FsPerms::ReadOnly)
        .mount("/b", "/y", FsPerms::ReadOnly)
        .env("A", "1")
        .env("B", "2");
    let overrides = SandboxOptions::default()
        .mount("/c", "/x", FsPerms::ReadWrite)
        .mount("/d", "/z", FsPerms::ReadOnly)
        .env("B", "3")
        .env("C", "4")
        .env("C", "5");
    let merged = base.merged_with(&overrides);
    assert_eq!(merged.max_memory, Some(10));
    assert_eq!(
        mounts(&merged.directory_mappings),
        [
            ("/c", "/x", FsPerms::ReadWrite),
            ("/b", "/y", FsPerms::ReadOnly),
            ("/d", "/z", FsPerms::ReadOnly)
        ]
    );
    assert_eq!(pairs(&merged.env), [("A", "1"), ("B", "3"), ("C", "5")]);
    assert_eq!(
        base.merged_with(&SandboxOptions::default().max_memory(20)).max_memory,
        Some(20)
    );
}

#[test]
fn templates_hand_their_defaults_on() {
    let builder = SandboxTemplate::<u8>::builder()
        .cache(Some("/cache".to_string()))
        .max_memory(64)
        .mount("/lib", "/lib", FsPerms::ReadOnly)
        .env("HOME", "/")
        .prelude(Some("import x".to_string()));
    let module = builder.module_config();
    assert_eq!(module.cache.as_deref(), Some("/cache"));
    assert_eq!(module.max_memory, 64);
    assert_eq!(module.prelude.as_deref(), Some("import x"));
    assert_eq!(mounts(&module.directory_mappings), [("/lib", "/lib", FsPerms::ReadOnly)]);
    let template = builder.build(7u8);
    assert_eq!(template.component, 7);
    let instance = template.instantiate(
        SandboxOptions::default().mount("/own", "/lib", FsPerms::ReadWrite).env("HOME", "/home"),
    );
    assert_eq!(mounts(&instance.directory_mappings), [("/own", "/lib", FsPerms::ReadWrite)]);
    assert_eq!(pairs(&instance.env), [("HOME", "/home")]);
    assert_eq!(instance.max_memory, 64);
    let unlimited = SandboxTemplate::<u8>::builder().build(1u8);
    assert_eq!(unlimited.instantiate(SandboxOptions::default()).max_memory, usize::MAX);
}

#[test]
fn the_last_value_of_a_variable_wins() {
    let options = SandboxOptions::default().env("K", "a").env("L", "x").env("K", "b");
    assert_eq!(pairs(&options.env), [("K", "b"), ("L", "x")]);

    let builder = SandboxTemplate::<()>::builder().env("K", "a").env("K", "b");
    assert_eq!(pairs(&builder.module_config().env), [("K", "b")]);
    let template = builder.build(());
    assert_eq!(pairs(&template.instantiate(SandboxOptions::default()).env), [("K", "b")]);
    assert_eq!(pairs(&template.instantiate(options).env), [("K", "b"), ("L", "x")]);
}

#[test]
fn variables_that_are_listed_twice_are_handed_on_once() {
    let mut template = SandboxTemplate::<()>::builder().build(());
    template.base_options.env = vec![
        ("K".to_string(), "a".to_string()),
        ("L".to_string(), "x".to_string()),
        ("K".to_string(), "b".to_string()),
    ];
    let instance = template.instantiate(SandboxOptions::default());
    assert_eq!(pairs(&instance.env), [("K", "b"), ("L", "x")]);
    let mut builder = SandboxTemplate::<()>::builder();
    builder.base_options = template.base_options;
    assert_eq!(pairs(&builder.module_config().env), [("K", "b"), ("L", "x")]);
}

#[test]
fn mappings_are_read_only_by_default() {
    let mapping = DirectoryMapping::new("/h", "/g");
    assert_eq!(mapping.perms, FsPerms::ReadOnly);
    assert_eq!(mapping.with_permissions(FsPerms::ReadWrite).perms, FsPerms::ReadWrite);
}

fn value(bytes: &'static [u8]) -> Value {
    Value::from_cbor(Bytes::from_static(bytes))
}

#[test]
fn arguments_are_lowered_in_order() {
    let args = vec![
        Arg::Positional(value(b"\x01")),
        Arg::Named("n".to_string(), value(b"\x02")),
        Arg::PositionalStream(3u32),
        Arg::NamedStream("s".to_string(), 4u32),
    ];
    let raw = lower_args(args, |stream: u32| Ok::<u32, String>(stream + 10)).unwrap();
    assert_eq!(raw.len(), 4);
    assert!(raw[0].name.is_none());
    assert!(matches!(&raw[0].value, WasmValue::Cbor(b) if b.as_ref() == b"\x01"));
    assert_eq!(raw[1].name.as_deref(), Some("n"));
    assert!(matches!(raw[2].value, WasmValue::CborIterator(13)));
    assert!(matches!(raw[3].value, WasmValue::CborIterator(14)));
    assert_eq!(raw[3].name.as_deref(), Some("s"));

    let error = lower_args(
        vec![Arg::PositionalStream(1u32), Arg::PositionalStream(2u32)],
        |stream: u32| if stream == 2 { Err("table full".to_string()) } else { Ok(stream) },
    )
    .unwrap_err();
    assert_eq!(error.message(), "runtime error: table full");
}

#[test]
fn outcomes_of_guest_operations() {
    assert!(finish_call(Ok(Ok(())), Ok(())).is_ok());
    let trap = finish_call(Err("trap".to_string()), Ok(())).unwrap_err();
    assert_eq!(trap.message(), "wasm error: trap");
    let user = finish_call(
        Ok(Err(GuestError { code: ErrorCode::Aborted, message: "boom".to_string() })),
        Ok(()),
    )
    .unwrap_err();
    assert!(matches!(&user, Error::UserCode { message } if message == "boom"));
    assert_eq!(user.message(), "boom");
    let internal = finish_call(
        Ok(Err(GuestError { code: ErrorCode::Internal, message: "bug".to_string() })),
        Err("late".to_string()),
    )
    .unwrap_err();
    assert_eq!(internal.message(), "runtime error: [ErrorCode::Internal] bug");
    let late = finish_call(Ok(Ok(())), Err("late".to_string())).unwrap_err();
    assert_eq!(late.message(), "wasm error: late");
    assert_eq!(Error::Io("no such file".to_string()).message(), "io error: no such file");
}

#[test]
fn nothing_is_collected_at_first() {
    let output = CallOutput::default();
    assert!(output.items.is_empty());
    assert!(output.result.is_none());
}

#[test]
fn values_keep_their_bytes() {
    let one = value(b"\x82\x01\x02");
    assert_eq!(one.as_cbor(), b"\x82\x01\x02");
    assert_eq!(one.clone().into_cbor().as_ref(), b"\x82\x01\x02");
}
