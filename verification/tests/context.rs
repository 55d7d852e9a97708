use isola::context::{
    dedupe_mounts_by_guest, instantiated, parse_mounts, resolve_runtime_lib_dir, CacheDirConfig,
    ConfiguredMount, ContextConfigPatch, ContextCore, MountConfigInput, PendingSandboxConfig,
    PermissionConfig, RuntimeFlavor, SandboxConfigPatch, SdkError,
};
use isola::sandbox::FsPerms;

fn input(host: &str, guest: &str) -> MountConfigInput {
    MountConfigInput {
        host: host.to_string(),
        guest: guest.to_string(),
        dir_perms: None,
        file_perms: None,
    }
}

fn no_patch() -> ContextConfigPatch {
    ContextConfigPatch {
        cache_dir: None,
        max_memory: None,
        prelude: None,
        runtime_lib_dir: None,
        mounts: None,
        env: None,
    }
}

fn mounts(list: &[ConfiguredMount]) -> Vec<(&str, &str, FsPerms)> {
    list.iter().map(|m| (m.host.as_str(), m.guest.as_str(), m.perms)).collect()
}

fn mount(host: &str, guest: &str) -> ConfiguredMount {
    ConfiguredMount {
        host: host.to_string(),
        guest: guest.to_string(),
        perms: FsPerms::ReadOnly,
    }
}

#[test]
fn runtimes_by_name() {
    assert_eq!(RuntimeFlavor::parse("python").unwrap(), RuntimeFlavor::Python);
    assert_eq!(RuntimeFlavor::parse("js").unwrap(), RuntimeFlavor::Js);
    assert_eq!(
        RuntimeFlavor::parse("ruby").unwrap_err().message(),
        "unsupported runtime 'ruby', expected 'python' or 'js'"
    );
    assert_eq!(RuntimeFlavor::Js.bundle_file(), "js.wasm");
    assert!(RuntimeFlavor::Python.uses_runtime_lib_mount());
    assert!(!RuntimeFlavor::Js.uses_runtime_lib_mount());
}

#[test]
fn mounts_need_both_paths() {
    let mut writable = input("/a", "/x");
    writable.file_perms = Some(PermissionConfig::Write);
    let mut both = input("/b", "/y");
    both.dir_perms = Some(PermissionConfig::ReadWrite);
    let mut read = input("/c", "/z");
    read.dir_perms = Some(PermissionConfig::Read);
    let parsed = parse_mounts(vec![writable, both, read]).unwrap();
    assert_eq!(
        mounts(&parsed),
        [
            ("/a", "/x", FsPerms::ReadWrite),
            ("/b", "/y", FsPerms::ReadWrite),
            ("/c", "/z", FsPerms::ReadOnly)
        ]
    );
    assert_eq!(
        parse_mounts(vec![input("/a", ""), input("", "")]).unwrap_err().message(),
        "mount guest path must not be empty"
    );
    assert_eq!(
        parse_mounts(vec![input("", "")]).unwrap_err().message(),
        "mount host path must not be empty"
    );
}

#[test]
fn later_mounts_replace_earlier_ones() {
    let kept = dedupe_mounts_by_guest(vec![
        mount("/1", "/a"),
        mount("/2", "/b"),
        mount("/3", "/a"),
        mount("/4", "/c"),
        mount("/5", "/a"),
    ]);
    let guests: Vec<(&str, &str)> =
        kept.iter().map(|m| (m.host.as_str(), m.guest.as_str())).collect();
    assert_eq!(guests, [("/5", "/a"), ("/2", "/b"), ("/4", "/c")]);
}

#[test]
fn runtime_libraries() {
    assert_eq!(resolve_runtime_lib_dir("/t", Some("/own".into()), Some("/env".into())), "/own");
    assert_eq!(resolve_runtime_lib_dir("/t", None, Some("/env".into())), "/env/lib");
    assert_eq!(
        resolve_runtime_lib_dir("/t", None, None),
        "/t/wasm32-wasip2/wasi-deps/usr/local/lib"
    );
}

#[test]
fn templates_are_planned_once() {
    let mut context: ContextCore<u8> = ContextCore::new();
    assert_eq!(
        context.instantiate().unwrap_err().message(),
        "runtime template not initialized"
    );
    let mut patch = no_patch();
    patch.max_memory = Some(Some(1024));
    patch.prelude = Some(Some("x = 1".to_string()));
    patch.mounts = Some(vec![input("/data", "/data")]);
    patch.env = Some(vec![("A".to_string(), "1".to_string())]);
    context.configure(patch).unwrap();
    let plan = context.initialize_template("/run", None, None).unwrap();
    assert_eq!(plan.wasm_path, "/run/python.wasm");
    assert_eq!(plan.builder.cache.as_deref(), Some("/run/cache"));
    assert_eq!(plan.builder.prelude.as_deref(), Some("x = 1"));
    assert_eq!(plan.builder.base_options.max_memory, Some(1024));
    let placed: Vec<(&str, &str)> = plan
        .builder
        .base_options
        .directory_mappings
        .iter()
        .map(|m| (m.host.as_str(), m.guest.as_str()))
        .collect();
    assert_eq!(
        placed,
        [("/run/wasm32-wasip2/wasi-deps/usr/local/lib", "/lib"), ("/data", "/data")]
    );
    assert_eq!(plan.builder.base_options.env, [("A".to_string(), "1".to_string())]);

    assert_eq!(
        context.finish_template(Err("bad module".to_string())).unwrap_err().message(),
        "Failed to load runtime template: bad module"
    );
    context.finish_template(Ok(5)).unwrap();
    assert_eq!(*context.instantiate().unwrap(), 5);
    let again = "context template already initialized";
    assert_eq!(context.finish_template(Ok(6)).unwrap_err().message(), again);
    assert_eq!(*context.instantiate().unwrap(), 5);
    assert_eq!(context.configure(no_patch()).unwrap_err().message(), again);
    assert_eq!(
        context.initialize_template("/run", Some("js"), None).unwrap_err().message(),
        again
    );
    assert!(context.inner.has_template());
    context.close();
    assert_eq!(context.instantiate().unwrap_err().message(), "context is closed");
    assert_eq!(context.configure(no_patch()).unwrap_err().message(), "context is closed");
}

#[test]
fn configured_mounts_win_over_the_library() {
    let mut context: ContextCore<u8> = ContextCore::new();
    let mut patch = no_patch();
    patch.cache_dir = Some(None);
    patch.mounts = Some(vec![input("/mine", "/lib")]);
    context.configure(patch).unwrap();
    let plan =
        context.initialize_template("/run", Some("python"), Some("/env".to_string())).unwrap();
    assert!(plan.builder.cache.is_none());
    assert_eq!(plan.builder.base_options.directory_mappings.len(), 1);
    assert_eq!(plan.builder.base_options.directory_mappings[0].host, "/mine");
    let plan = context.initialize_template("/run", Some("js"), None).unwrap();
    assert_eq!(plan.wasm_path, "/run/js.wasm");
    assert_eq!(
        context.initialize_template("/run", Some("lua"), None).unwrap_err().message(),
        "unsupported runtime 'lua', expected 'python' or 'js'"
    );
}

#[test]
fn patches_apply_part_by_part() {
    let mut context: ContextCore<u8> = ContextCore::new();
    let mut patch = no_patch();
    patch.cache_dir = Some(Some("/c".to_string()));
    patch.prelude = Some(Some("p".to_string()));
    patch.mounts = Some(vec![input("", "/x")]);
    patch.env = Some(vec![("A".to_string(), "1".to_string())]);
    assert!(matches!(context.configure(patch), Err(SdkError::InvalidArgument(_))));
    let config = &context.inner.config;
    assert!(matches!(&config.cache_dir, CacheDirConfig::Custom(path) if path == "/c"));
    assert_eq!(config.prelude.as_deref(), Some("p"));
    assert!(config.mounts.is_empty());
    assert!(config.env.is_empty());

    let mut patch = no_patch();
    patch.prelude = Some(None);
    context.configure(patch).unwrap();
    assert!(context.inner.config.prelude.is_none());
}

#[test]
fn sandbox_configuration() {
    let mut config = PendingSandboxConfig::default();
    config
        .apply_patch(SandboxConfigPatch {
            max_memory: Some(Some(7)),
            mounts: Some(vec![input("/h", "/g")]),
            env: Some(vec![("K".to_string(), "V".to_string())]),
        })
        .unwrap();
    let options = config.to_options();
    assert_eq!(options.max_memory, Some(7));
    assert_eq!(options.directory_mappings.len(), 1);
    assert_eq!(options.env, [("K".to_string(), "V".to_string())]);
    config
        .apply_patch(SandboxConfigPatch { max_memory: Some(None), mounts: None, env: None })
        .unwrap();
    assert!(config.to_options().max_memory.is_none());
    assert_eq!(config.mounts.len(), 1);
}

fn variables(list: &[(&str, &str)]) -> Vec<(String, String)> {
    list.iter().map(|(name, value)| (name.to_string(), value.to_string())).collect()
}

#[test]
fn configured_variables_are_in_the_order_of_their_names() {
    let given = variables(&[("b", "1"), ("ab", "2"), ("Z", "3"), ("b", "4"), ("a", "5"), ("", "6")]);
    let kept = variables(&[("", "6"), ("Z", "3"), ("a", "5"), ("ab", "2"), ("b", "4")]);
    let mut config = PendingSandboxConfig::default();
    config
        .apply_patch(SandboxConfigPatch { max_memory: None, mounts: None, env: Some(given.clone()) })
        .unwrap();
    assert_eq!(config.env, kept);
    assert_eq!(config.to_options().env, kept);
    config
        .apply_patch(SandboxConfigPatch { max_memory: None, mounts: None, env: Some(vec![]) })
        .unwrap();
    assert!(config.env.is_empty());

    let mut context: ContextCore<u8> = ContextCore::new();
    let mut patch = no_patch();
    patch.env = Some(given);
    context.configure(patch).unwrap();
    assert_eq!(context.inner.config.env, kept);
    let plan = context.initialize_template("/run", None, None).unwrap();
    assert_eq!(plan.builder.base_options.env, kept);
}

#[test]
fn instances_that_cannot_be_created() {
    assert_eq!(instantiated(Ok(3)).unwrap(), 3);
    let error = instantiated::<u8>(Err("no memory".to_string())).unwrap_err();
    assert!(matches!(&error, SdkError::Internal(_)));
    assert_eq!(error.message(), "Failed to create instance: no memory");
}
