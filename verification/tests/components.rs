use std::hash::Hasher;

use isola::components::{
    assert_shared_pic_module, component_by_metadata, component_content_fingerprint,
    component_fingerprints_text, component_metadata_fingerprint, encode_rustflags, find_dylink,
    js_build, js_libraries, linker_env_key, python_build, python_libraries, runtime_path,
    scrub_host_build_env, wasm_linker, wasm_rustflags, BuildInput, CachedFingerprints,
    ComponentLibrary, ContentCheck, FileMetadata, LoadedComponentLibrary, MetadataCheck, Task,
};
use isola::paths::FoundPath;

fn build_inputs() -> Vec<BuildInput> {
    vec![
        BuildInput { name: "Cargo.toml".to_string(), contents: b"[workspace]".to_vec() },
        BuildInput { name: "Cargo.lock".to_string(), contents: b"version = 4".to_vec() },
    ]
}

fn library(
    name: &str,
    module: &[u8],
    dlopen: bool,
    async_shim_name: Option<&'static str>,
) -> LoadedComponentLibrary {
    LoadedComponentLibrary {
        name: name.to_string(),
        module: module.to_vec(),
        dlopen,
        async_shim_name,
    }
}

#[test]
fn component_content_fingerprint_tracks_every_link_input() {
    let inputs = build_inputs();
    let original = component_content_fingerprint(
        &inputs,
        &[library("runtime.so", b"runtime", false, Some("shim.so"))],
        1024,
    );

    assert_ne!(
        original,
        component_content_fingerprint(
            &inputs,
            &[library("renamed.so", b"runtime", false, Some("shim.so"))],
            1024
        )
    );
    assert_ne!(
        original,
        component_content_fingerprint(
            &inputs,
            &[library("runtime.so", b"changed", false, Some("shim.so"))],
            1024
        )
    );
    assert_ne!(
        original,
        component_content_fingerprint(
            &inputs,
            &[library("runtime.so", b"runtime", true, Some("shim.so"))],
            1024
        )
    );
    assert_ne!(
        original,
        component_content_fingerprint(
            &inputs,
            &[library("runtime.so", b"runtime", false, None)],
            1024
        )
    );
    assert_ne!(
        original,
        component_content_fingerprint(
            &inputs,
            &[library("runtime.so", b"runtime", false, Some("shim.so"))],
            2048
        )
    );
}

#[test]
fn fingerprint_is_two_hashes_in_hexadecimal() {
    let text = component_content_fingerprint(&[], &[], 7);
    let mut first = std::collections::hash_map::DefaultHasher::new();
    let mut second = std::collections::hash_map::DefaultHasher::new();
    second.write_u8(1);
    for hasher in [&mut first, &mut second] {
        hasher.write(&10u64.to_le_bytes());
        hasher.write(b"stack-size");
        hasher.write(&4u64.to_le_bytes());
        hasher.write(&7u32.to_le_bytes());
    }
    assert_eq!(text, format!("{:016x}{:016x}", first.finish(), second.finish()));
    assert_eq!(text.len(), 32);
}

#[test]
fn build_inputs_count_too() {
    let libraries = [library("runtime.so", b"runtime", false, None)];
    assert_ne!(
        component_content_fingerprint(&build_inputs(), &libraries, 1024),
        component_content_fingerprint(&[], &libraries, 1024)
    );
}

fn found(size: u64, after_epoch: bool, seconds: u64, nanoseconds: u32) -> String {
    component_metadata_fingerprint(
        &build_inputs(),
        &[(
            ComponentLibrary::new("libc.so", "/deps/lib/libc.so", false, None),
            FileMetadata { size, after_epoch, seconds, nanoseconds },
        )],
        1024,
    )
}

#[test]
fn metadata_fingerprint_tracks_the_file_system() {
    let original = found(10, true, 100, 5);
    assert_eq!(original, found(10, true, 100, 5));
    assert_ne!(original, found(11, true, 100, 5));
    assert_ne!(original, found(10, false, 100, 5));
    assert_ne!(original, found(10, true, 101, 5));
    assert_ne!(original, found(10, true, 100, 6));
}

#[test]
fn recorded_fingerprints_are_found_again() {
    let text = component_fingerprints_text("0a", "ff");
    assert_eq!(text, "0a\nff\n");
    let read = CachedFingerprints::read(&text);
    assert_eq!((read.metadata.as_str(), read.content.as_str()), ("0a", "ff"));

    let read = CachedFingerprints::read("one\r\ntwo\r");
    assert_eq!((read.metadata.as_str(), read.content.as_str()), ("one", "two\r"));
    let read = CachedFingerprints::read("");
    assert_eq!((read.metadata.as_str(), read.content.as_str()), ("", ""));
    let read = CachedFingerprints::read("\n\nthree");
    assert_eq!((read.metadata.as_str(), read.content.as_str()), ("", ""));
}

fn listed() -> Vec<(ComponentLibrary, FileMetadata)> {
    vec![(
        ComponentLibrary::new("libc.so", "/deps/lib/libc.so", false, None),
        FileMetadata { size: 3, after_epoch: true, seconds: 9, nanoseconds: 1 },
    )]
}

#[test]
fn components_are_linked_only_when_they_changed() {
    let inputs = build_inputs();
    let loaded = [library("libc.so", b"abc", false, None)];

    let pending = match component_by_metadata(&inputs, &listed(), 64, false, "") {
        MetadataCheck::Load(pending) => pending,
        MetadataCheck::UpToDate => panic!("nothing was built yet"),
    };
    let recorded = match pending.by_content(&inputs, &loaded, 64, false) {
        ContentCheck::Link(text) => text,
        ContentCheck::Refresh(_) => panic!("nothing was built yet"),
    };

    assert!(matches!(
        component_by_metadata(&inputs, &listed(), 64, true, &recorded),
        MetadataCheck::UpToDate
    ));
    assert!(matches!(
        component_by_metadata(&inputs, &listed(), 64, false, &recorded),
        MetadataCheck::Load(_)
    ));

    let mut touched = listed();
    touched[0].1.seconds = 10;
    let pending = match component_by_metadata(&inputs, &touched, 64, true, &recorded) {
        MetadataCheck::Load(pending) => pending,
        MetadataCheck::UpToDate => panic!("the file was touched"),
    };
    let refreshed = match pending.by_content(&inputs, &loaded, 64, true) {
        ContentCheck::Refresh(text) => text,
        ContentCheck::Link(_) => panic!("the contents are the same"),
    };
    assert_ne!(refreshed, recorded);
    assert_eq!(refreshed.lines().nth(1), recorded.lines().nth(1));
    let changed = [library("libc.so", b"abd", false, None)];
    assert!(matches!(
        pending.by_content(&inputs, &changed, 64, true),
        ContentCheck::Link(_)
    ));
}

#[test]
fn flags_are_encoded_word_by_word() {
    assert_eq!(
        encode_rustflags("  -C\ta=b \n -D\u{a0}x\u{3000}"),
        "-C\u{1f}a=b\u{1f}-D\u{1f}x"
    );
    assert_eq!(encode_rustflags(" \t"), "");
    assert_eq!(
        encode_rustflags(&wasm_rustflags("/deps")),
        "--cfg\u{1f}pyo3_disable_reference_pool\u{1f}-C\u{1f}relocation-model=pic\u{1f}-C\u{1f}\
         link-args=-Wl,--skip-wit-component\u{1f}-C\u{1f}link-arg=-shared\u{1f}-C\u{1f}\
         link-args=-Wl,--allow-undefined\u{1f}-C\u{1f}link-self-contained=n\u{1f}\
         -Lnative=/deps/lib"
    );
    let mixed = "a\u{b}b\u{85}c\u{1680}d\u{2007}e\u{2028}f\u{200b}g\u{1f}h";
    assert_eq!(
        encode_rustflags(mixed),
        mixed.split_whitespace().collect::<Vec<_>>().join("\u{1f}")
    );
}

#[test]
fn whitespace_is_the_unicode_property() {
    for code in 0..0x11_0000u32 {
        if let Some(c) = char::from_u32(code) {
            if c.is_whitespace() {
                assert_eq!(encode_rustflags(&format!("a{c}b")), "a\u{1f}b");
            } else if code % 97 == 0 {
                assert_eq!(encode_rustflags(&format!("a{c}b")), format!("a{c}b"));
            }
        }
    }
}

#[test]
fn host_configuration_is_scrubbed() {
    let keys = ["PATH", "RUSTFLAGS", "CARGO_HOME", "CARGO", "RUST", "CARGO_HOMES", "rustc", "RUS"];
    let removed = scrub_host_build_env(keys.iter().map(|key| key.to_string()).collect());
    assert_eq!(removed, ["RUSTFLAGS", "CARGO", "RUST", "CARGO_HOMES"]);
}

#[test]
fn linker_settings() {
    assert_eq!(linker_env_key(), "CARGO_TARGET_WASM32_WASIP2_LINKER");
    assert_eq!(wasm_linker("/sdk"), "/sdk/bin/clang");
}

fn summary(libraries: &[ComponentLibrary]) -> Vec<(&str, &str, bool, Option<&str>)> {
    libraries
        .iter()
        .map(|library| {
            (
                library.name.as_str(),
                library.path.as_str(),
                library.dlopen,
                library.async_shim_name,
            )
        })
        .collect()
}

#[test]
fn javascript_libraries() {
    let libraries = js_libraries("/deps", "target/js.wasm");
    assert_eq!(
        summary(&libraries),
        [
            ("libisola_js.so", "target/js.wasm", false, Some("libisola_js_async.so")),
            ("libc.so", "/deps/lib/libc.so", false, None),
            (
                "libwasi-emulated-signal.so",
                "/deps/lib/libwasi-emulated-signal.so",
                false,
                None
            ),
            (
                "libwasi-emulated-getpid.so",
                "/deps/lib/libwasi-emulated-getpid.so",
                false,
                None
            ),
            (
                "libwasi-emulated-process-clocks.so",
                "/deps/lib/libwasi-emulated-process-clocks.so",
                false,
                None
            ),
        ]
    );
}

fn found_path(path: &str) -> FoundPath {
    FoundPath {
        path: path.to_string(),
        components: std::path::Path::new(path)
            .components()
            .map(|c| c.as_os_str().to_string_lossy().into_owned())
            .collect(),
    }
}

#[test]
fn python_extensions_follow_in_path_order() {
    let root = found_path("/deps").components;
    let paths = ["/deps/lib/b.so", "/deps/lib/a/z.so", "/deps/lib/a-b/c.so", "/deps/lib/a.so"];
    let libraries = python_libraries(
        "/deps",
        &root,
        "target/python.wasm",
        paths.iter().map(|path| found_path(path)).collect(),
    )
    .unwrap();
    assert_eq!(libraries.len(), 12);
    assert_eq!(
        summary(&libraries)[0],
        ("libisola_python.so", "target/python.wasm", false, Some("libisola_python_async.so"))
    );
    assert_eq!(
        summary(&libraries)[7],
        ("libpython3.15.so", "/deps/lib/libpython3.15.so", false, None)
    );
    let mut sorted: Vec<std::path::PathBuf> = paths.iter().map(std::path::PathBuf::from).collect();
    sorted.sort();
    let expected: Vec<String> =
        sorted.iter().map(|path| path.to_string_lossy().into_owned()).collect();
    let placed: Vec<String> = libraries[8..].iter().map(|library| library.path.clone()).collect();
    assert_eq!(placed, expected);
    assert_eq!(summary(&libraries)[8], ("/lib/a/z.so", "/deps/lib/a/z.so", true, None));
}

#[test]
fn python_extensions_outside_the_root_are_refused() {
    let root = found_path("/deps").components;
    let error = python_libraries(
        "/deps",
        &root,
        "target/python.wasm",
        vec![found_path("/deps/lib/a.so"), found_path("/other/b.so")],
    )
    .unwrap_err();
    assert_eq!(error, "/other/b.so is outside the linker input root");
}

#[test]
fn guests_and_tasks() {
    assert_eq!(python_build().stack_size, 8_388_608);
    assert_eq!(python_build().extra_env, Some(("PYO3_CROSS_PYTHON_VERSION", "3.15")));
    assert_eq!(js_build().output, "target/js.wasm");
    assert_eq!(
        runtime_path("isola-python-runtime"),
        "target/wasm32-wasip2/release/isola_python_runtime.wasm"
    );
    assert_eq!(Task::named("build-js"), Some(Task::BuildJs));
    assert_eq!(Task::named("build"), None);
    assert_eq!(Task::BuildAll.guests(), [Task::BuildPython, Task::BuildJs]);
    let names: Vec<&str> = Task::all().iter().map(|task| task.name()).collect();
    assert_eq!(names, ["build-all", "build-python", "build-js"]);
}

fn module(sections: &[&str]) -> Vec<u8> {
    let mut bytes = b"\0asm\x01\0\0\0".to_vec();
    for name in sections {
        bytes.push(0);
        bytes.push(name.len() as u8 + 1);
        bytes.push(name.len() as u8);
        bytes.extend_from_slice(name.as_bytes());
    }
    bytes
}

#[test]
fn shared_modules_carry_their_section() {
    assert_eq!(assert_shared_pic_module(&module(&["name", "dylink.0"]), "a.wasm"), Ok(()));
    assert_eq!(assert_shared_pic_module(&module(&["dylink.0", "name"]), "a.wasm"), Ok(()));
    assert_eq!(
        assert_shared_pic_module(&module(&["name"]), "a.wasm"),
        Err("a.wasm has no dylink.0 section: it was not linked as a shared PIC module (check for \
             host RUSTFLAGS/CARGO_ENCODED_RUSTFLAGS leaking into the guest build)"
            .to_string())
    );
    let mut broken = module(&["dylink.0"]);
    broken.push(0x7f);
    assert_eq!(assert_shared_pic_module(&broken, "a.wasm"), Ok(()));
    let mut broken = module(&["name"]);
    broken.push(0x7f);
    broken.extend_from_slice(&module(&["dylink.0"])[8..]);
    assert!(assert_shared_pic_module(&broken, "a.wasm").is_err());
    assert!(assert_shared_pic_module(b"not a module", "a.wasm").is_err());
}

#[test]
fn the_search_stops_at_the_first_error() {
    assert_eq!(
        find_dylink(vec![Ok(None), Err("bad".to_string()), Ok(Some("dylink.0".to_string()))]),
        Err("bad".to_string())
    );
    assert_eq!(
        find_dylink(vec![Ok(Some("dylink.0".to_string())), Err("bad".to_string())]),
        Ok(true)
    );
    assert_eq!(find_dylink(vec![Ok(None), Ok(Some("name".to_string()))]), Ok(false));
}
