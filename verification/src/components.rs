//! The build of guest components: which flags and libraries go into one, and when it has to be
//! linked again.

use vstd::bytes::{
    lemma_auto_spec_u32_to_from_le_bytes, spec_u32_from_le_bytes, spec_u32_to_le_bytes,
    spec_u64_to_le_bytes, u32_to_le_bytes, u64_to_le_bytes,
};
use vstd::prelude::*;
use vstd::utf8::{encode_utf8, encode_utf8_decode_utf8};
use wasmparser::{Parser, Payload};

use crate::fingerprint::{
    fingerprint_digits, fingerprint_text, hashed_bytes, hashed_bytes_determine_fields,
    is_hex_digit, lengths_fit, Field, FingerprintHasher,
};
use crate::paths::{is_sorted, sort_paths, FoundPath};
use crate::text::{chars_of, concat2, concat3, join_path, joined, replace_char, string_of, text_eq};

verus! {

/// A file whose contents decide how components are built.
#[derive(Debug)]
pub struct BuildInput {
    pub name: String,
    pub contents: Vec<u8>,
}

/// A library that goes into a component, where it lies.
#[derive(Debug)]
pub struct ComponentLibrary {
    pub name: String,
    pub path: String,
    pub dlopen: bool,
    pub async_shim_name: Option<&'static str>,
}

/// What the file system says of a library.
#[derive(Debug, Clone, Copy)]
pub struct FileMetadata {
    pub size: u64,
    /// Whether it was modified at the epoch or after it.
    pub after_epoch: bool,
    /// The distance of its modification from the epoch.
    pub seconds: u64,
    pub nanoseconds: u32,
}

/// A library that goes into a component, with its contents.
#[derive(Debug)]
pub struct LoadedComponentLibrary {
    pub name: String,
    pub module: Vec<u8>,
    pub dlopen: bool,
    pub async_shim_name: Option<&'static str>,
}

impl ComponentLibrary {
    /// A library of this name at this path.
    pub fn new(
        name: &str,
        path: &str,
        dlopen: bool,
        async_shim_name: Option<&'static str>,
    ) -> (r: ComponentLibrary)
        ensures
            r@ == (LibraryView {
                name: name@,
                path: path@,
                dlopen,
                async_shim_name: shim_view(async_shim_name),
            }),
    {
        ComponentLibrary { name: name.to_owned(), path: path.to_owned(), dlopen, async_shim_name }
    }

    /// The library with its contents.
    pub fn load(self, module: Vec<u8>) -> (r: LoadedComponentLibrary)
        ensures
            r.name == self.name,
            r.module == module,
            r.dlopen == self.dlopen,
            r.async_shim_name == self.async_shim_name,
    {
        LoadedComponentLibrary {
            name: self.name,
            module,
            dlopen: self.dlopen,
            async_shim_name: self.async_shim_name,
        }
    }
}

/// The name of an asynchronous shim.
pub open spec fn shim_view(name: Option<&'static str>) -> Option<Seq<char>> {
    match name {
        Some(name) => Some(name@),
        None => None,
    }
}

/// A library, by the texts it holds.
#[verifier::ext_equal]
pub struct LibraryView {
    pub name: Seq<char>,
    pub path: Seq<char>,
    pub dlopen: bool,
    pub async_shim_name: Option<Seq<char>>,
}

impl View for ComponentLibrary {
    type V = LibraryView;

    open spec fn view(&self) -> LibraryView {
        LibraryView {
            name: self.name@,
            path: self.path@,
            dlopen: self.dlopen,
            async_shim_name: shim_view(self.async_shim_name),
        }
    }
}

/// The libraries of a list.
pub open spec fn library_views(libraries: Seq<ComponentLibrary>) -> Seq<LibraryView> {
    libraries.map_values(|library: ComponentLibrary| library@)
}

/// A field of a fingerprint.
pub open spec fn named(name: Seq<char>, value: Seq<u8>) -> Field {
    Field { name: encode_utf8(name), value }
}

/// A truth value as a byte.
pub open spec fn flag(b: bool) -> Seq<u8> {
    if b {
        seq![1u8]
    } else {
        seq![0u8]
    }
}

/// The bytes of the name of a shim; none is written as the empty name.
pub open spec fn shim_bytes(name: Option<&'static str>) -> Seq<u8> {
    match name {
        Some(name) => encode_utf8(name@),
        None => Seq::empty(),
    }
}

/// The field of a file that decides how components are built.
pub open spec fn input_field(input: BuildInput) -> Field {
    named(input.name@, input.contents@)
}

/// The fields that every component has.
pub open spec fn component_fields(inputs: Seq<BuildInput>, stack_size: u32) -> Seq<Field> {
    seq![named("stack-size"@, spec_u32_to_le_bytes(stack_size))] + inputs.map_values(
        |input: BuildInput| input_field(input),
    )
}

/// The fields of a library by its contents.
pub open spec fn content_fields(library: LoadedComponentLibrary) -> Seq<Field> {
    seq![
        named("library-name"@, encode_utf8(library.name@)),
        named("library-module"@, library.module@),
        named("library-dlopen"@, flag(library.dlopen)),
        named("library-async-shim"@, shim_bytes(library.async_shim_name)),
    ]
}

/// The fields of several libraries by their contents.
pub open spec fn all_content_fields(libraries: Seq<LoadedComponentLibrary>) -> Seq<Field>
    decreases libraries.len(),
{
    if libraries.len() == 0 {
        Seq::empty()
    } else {
        all_content_fields(libraries.drop_last()) + content_fields(libraries.last())
    }
}

/// The fields of a library by what the file system says of it.
pub open spec fn metadata_fields(library: ComponentLibrary, metadata: FileMetadata) -> Seq<Field> {
    seq![
        named("library-name"@, encode_utf8(library.name@)),
        named("library-path"@, encode_utf8(library.path@)),
        named("library-dlopen"@, flag(library.dlopen)),
        named("library-async-shim"@, shim_bytes(library.async_shim_name)),
        named("library-size"@, spec_u64_to_le_bytes(metadata.size)),
        named("library-modified-after-epoch"@, flag(metadata.after_epoch)),
        named("library-modified-seconds"@, spec_u64_to_le_bytes(metadata.seconds)),
        named("library-modified-nanoseconds"@, spec_u32_to_le_bytes(metadata.nanoseconds)),
    ]
}

/// The fields of several libraries by what the file system says of them.
pub open spec fn all_metadata_fields(
    libraries: Seq<(ComponentLibrary, FileMetadata)>,
) -> Seq<Field>
    decreases libraries.len(),
{
    if libraries.len() == 0 {
        Seq::empty()
    } else {
        all_metadata_fields(libraries.drop_last()) + metadata_fields(
            libraries.last().0,
            libraries.last().1,
        )
    }
}

/// Hashes a truth value.
fn hash_flag(hasher: &mut FingerprintHasher, name: &str, value: bool)
    requires
        old(hasher).wf(),
    ensures
        final(hasher).wf(),
        final(hasher)@ == old(hasher)@.push(named(name@, flag(value))),
{
    if value {
        let bytes: [u8; 1] = [1];
        hasher.hash_field(name, &bytes);
        proof {
            assert(bytes@ =~= flag(value));
        }
    } else {
        let bytes: [u8; 1] = [0];
        hasher.hash_field(name, &bytes);
        proof {
            assert(bytes@ =~= flag(value));
        }
    }
}

/// Hashes the name of a shim.
fn hash_shim(hasher: &mut FingerprintHasher, shim: Option<&'static str>)
    requires
        old(hasher).wf(),
    ensures
        final(hasher).wf(),
        final(hasher)@ == old(hasher)@.push(named("library-async-shim"@, shim_bytes(shim))),
{
    match shim {
        Some(name) => hasher.hash_field("library-async-shim", name.as_bytes()),
        None => {
            let none: [u8; 0] = [];
            proof {
                assert(none@ =~= shim_bytes(shim));
            }
            hasher.hash_field("library-async-shim", &none);
        },
    }
}

/// Hashes what every component has.
pub fn component_hasher(inputs: &[BuildInput], stack_size: u32) -> (r: FingerprintHasher)
    ensures
        r.wf(),
        r@ == component_fields(inputs@, stack_size),
{
    let mut hasher = FingerprintHasher::new();
    let size = u32_to_le_bytes(stack_size);
    hasher.hash_field("stack-size", size.as_slice());
    proof {
        assert(hasher@ =~= component_fields(inputs@.take(0), stack_size));
    }
    let mut i: usize = 0;
    while i < inputs.len()
        invariant
            i <= inputs@.len(),
            hasher.wf(),
            hasher@ == component_fields(inputs@.take(i as int), stack_size),
        decreases inputs@.len() - i,
    {
        hasher.hash_field(inputs[i].name.as_str(), inputs[i].contents.as_slice());
        proof {
            assert(hasher@ =~= component_fields(inputs@.take(i + 1), stack_size));
        }
        i = i + 1;
    }
    proof {
        assert(inputs@.take(i as int) =~= inputs@);
    }
    hasher
}

/// The fingerprint of a component by what the file system says of its libraries.
pub fn component_metadata_fingerprint(
    inputs: &[BuildInput],
    libraries: &[(ComponentLibrary, FileMetadata)],
    stack_size: u32,
) -> (r: String)
    ensures
        r@ == fingerprint_text(
            component_fields(inputs@, stack_size) + all_metadata_fields(libraries@),
        ),
{
    let mut hasher = component_hasher(inputs, stack_size);
    let ghost common = hasher@;
    proof {
        assert(hasher@ =~= common + all_metadata_fields(libraries@.take(0)));
    }
    let mut i: usize = 0;
    while i < libraries.len()
        invariant
            i <= libraries@.len(),
            hasher.wf(),
            hasher@ == common + all_metadata_fields(libraries@.take(i as int)),
        decreases libraries@.len() - i,
    {
        let library = &libraries[i].0;
        let metadata = libraries[i].1;
        hasher.hash_field("library-name", library.name.as_str().as_bytes());
        hasher.hash_field("library-path", library.path.as_str().as_bytes());
        hash_flag(&mut hasher, "library-dlopen", library.dlopen);
        hash_shim(&mut hasher, library.async_shim_name);
        let size = u64_to_le_bytes(metadata.size);
        hasher.hash_field("library-size", size.as_slice());
        hash_flag(&mut hasher, "library-modified-after-epoch", metadata.after_epoch);
        let seconds = u64_to_le_bytes(metadata.seconds);
        hasher.hash_field("library-modified-seconds", seconds.as_slice());
        let nanoseconds = u32_to_le_bytes(metadata.nanoseconds);
        hasher.hash_field("library-modified-nanoseconds", nanoseconds.as_slice());
        proof {
            let taken = libraries@.take(i + 1);
            assert(taken.drop_last() =~= libraries@.take(i as int));
            assert(taken.last() == libraries@[i as int]);
            assert(hasher@ =~= common + all_metadata_fields(taken));
        }
        i = i + 1;
    }
    proof {
        assert(libraries@.take(i as int) =~= libraries@);
    }
    hasher.finish()
}

/// The fingerprint of a component by the contents of its libraries.
pub fn component_content_fingerprint(
    inputs: &[BuildInput],
    libraries: &[LoadedComponentLibrary],
    stack_size: u32,
) -> (r: String)
    ensures
        r@ == fingerprint_text(
            component_fields(inputs@, stack_size) + all_content_fields(libraries@),
        ),
{
    let mut hasher = component_hasher(inputs, stack_size);
    let ghost common = hasher@;
    proof {
        assert(hasher@ =~= common + all_content_fields(libraries@.take(0)));
    }
    let mut i: usize = 0;
    while i < libraries.len()
        invariant
            i <= libraries@.len(),
            hasher.wf(),
            hasher@ == common + all_content_fields(libraries@.take(i as int)),
        decreases libraries@.len() - i,
    {
        let library = &libraries[i];
        hasher.hash_field("library-name", library.name.as_str().as_bytes());
        hasher.hash_field("library-module", library.module.as_slice());
        hash_flag(&mut hasher, "library-dlopen", library.dlopen);
        hash_shim(&mut hasher, library.async_shim_name);
        proof {
            let taken = libraries@.take(i + 1);
            assert(taken.drop_last() =~= libraries@.take(i as int));
            assert(taken.last() == libraries@[i as int]);
            assert(hasher@ =~= common + all_content_fields(taken));
        }
        i = i + 1;
    }
    proof {
        assert(libraries@.take(i as int) =~= libraries@);
    }
    hasher.finish()
}

/// What the linker makes use of in a library. A shim without a name is no shim.
#[verifier::ext_equal]
pub struct LinkInput {
    pub name: Seq<char>,
    pub module: Seq<u8>,
    pub dlopen: bool,
    pub async_shim_name: Seq<char>,
}

/// What the linker makes use of in a library.
pub open spec fn link_input(library: LoadedComponentLibrary) -> LinkInput {
    LinkInput {
        name: library.name@,
        module: library.module@,
        dlopen: library.dlopen,
        async_shim_name: match library.async_shim_name {
            Some(name) => name@,
            None => Seq::empty(),
        },
    }
}

/// What the linker makes use of in several libraries.
pub open spec fn link_inputs(libraries: Seq<LoadedComponentLibrary>) -> Seq<LinkInput> {
    libraries.map_values(|library: LoadedComponentLibrary| link_input(library))
}

/// The fields by which a component's contents are told apart.
pub open spec fn contents_of(
    inputs: Seq<BuildInput>,
    libraries: Seq<LoadedComponentLibrary>,
    stack_size: u32,
) -> Seq<Field> {
    component_fields(inputs, stack_size) + all_content_fields(libraries)
}

/// Each library has four fields.
proof fn content_fields_counted(libraries: Seq<LoadedComponentLibrary>)
    ensures
        all_content_fields(libraries).len() == 4 * libraries.len(),
    decreases libraries.len(),
{
    if libraries.len() > 0 {
        content_fields_counted(libraries.drop_last());
    }
}

/// The fields of a library determine what the linker makes use of.
proof fn content_fields_determine_library(a: LoadedComponentLibrary, b: LoadedComponentLibrary)
    requires
        content_fields(a) == content_fields(b),
    ensures
        link_input(a) == link_input(b),
{
    let x = content_fields(a);
    let y = content_fields(b);
    assert(x[0] == y[0] && x[1] == y[1] && x[2] == y[2] && x[3] == y[3]);
    encode_utf8_decode_utf8(a.name@);
    encode_utf8_decode_utf8(b.name@);
    assert(flag(a.dlopen)[0] == flag(b.dlopen)[0]);
    let p = link_input(a).async_shim_name;
    let q = link_input(b).async_shim_name;
    encode_utf8_decode_utf8(p);
    encode_utf8_decode_utf8(q);
    assert(encode_utf8(Seq::<char>::empty()) =~= Seq::<u8>::empty());
    assert(shim_bytes(a.async_shim_name) == encode_utf8(p));
    assert(shim_bytes(b.async_shim_name) == encode_utf8(q));
}

/// The fields of several libraries determine what the linker makes use of.
proof fn content_fields_determine_libraries(
    a: Seq<LoadedComponentLibrary>,
    b: Seq<LoadedComponentLibrary>,
)
    requires
        all_content_fields(a) == all_content_fields(b),
    ensures
        link_inputs(a) == link_inputs(b),
    decreases a.len(),
{
    content_fields_counted(a);
    content_fields_counted(b);
    if a.len() > 0 {
        let n = 4 * a.len() - 4;
        content_fields_counted(a.drop_last());
        content_fields_counted(b.drop_last());
        let all = all_content_fields(a);
        assert(all.take(n) =~= all_content_fields(a.drop_last()));
        assert(all.take(n) =~= all_content_fields(b.drop_last()));
        assert(all.skip(n) =~= content_fields(a.last()));
        assert(all.skip(n) =~= content_fields(b.last()));
        content_fields_determine_libraries(a.drop_last(), b.drop_last());
        content_fields_determine_library(a.last(), b.last());
        assert(link_inputs(a) =~= link_inputs(a.drop_last()).push(link_input(a.last())));
        assert(link_inputs(b) =~= link_inputs(b.drop_last()).push(link_input(b.last())));
    } else {
        assert(link_inputs(a) =~= link_inputs(b));
    }
}

/// Every link input counts: two components built from the same files feed the same bytes to the
/// hashers of their content fingerprints only if their stack sizes are equal and their libraries
/// agree in order, name, contents, the way they are opened, and the name of the shim.
pub proof fn content_fingerprint_tracks_every_link_input(
    inputs: Seq<BuildInput>,
    a: Seq<LoadedComponentLibrary>,
    stack_a: u32,
    b: Seq<LoadedComponentLibrary>,
    stack_b: u32,
)
    requires
        lengths_fit(contents_of(inputs, a, stack_a)),
        lengths_fit(contents_of(inputs, b, stack_b)),
        hashed_bytes(contents_of(inputs, a, stack_a)) == hashed_bytes(
            contents_of(inputs, b, stack_b),
        ),
    ensures
        stack_a == stack_b,
        link_inputs(a) == link_inputs(b),
{
    let x = contents_of(inputs, a, stack_a);
    let y = contents_of(inputs, b, stack_b);
    hashed_bytes_determine_fields(x, y);
    lemma_auto_spec_u32_to_from_le_bytes();
    assert(x[0].value == spec_u32_to_le_bytes(stack_a));
    assert(y[0].value == spec_u32_to_le_bytes(stack_b));
    assert(spec_u32_from_le_bytes(x[0].value) == stack_a);
    assert(spec_u32_from_le_bytes(y[0].value) == stack_b);
    let n = 1 + inputs.len();
    assert(x.skip(n as int) =~= all_content_fields(a));
    assert(y.skip(n as int) =~= all_content_fields(b));
    content_fields_determine_libraries(a, b);
}

/// The target that guests are built for.
pub const TARGET: &'static str = "wasm32-wasip2";

/// The flags with which a guest is compiled and linked as a shared library.
///
/// - `--cfg pyo3_disable_reference_pool`: the guest has one thread and one interpreter, so the
///   lock around deferred reference counts is pure overhead.
/// - `-Wl,--skip-wit-component`: stops the linker at the core module, which the component linker
///   takes as a shared library.
/// - `-C link-self-contained=n`: takes libc from the sysroot of the linker driver, so that the
///   guest shares the libc that the other libraries use.
pub fn wasm_rustflags(wasi_deps_dir: &str) -> (r: String)
    ensures
        r@
            == "--cfg pyo3_disable_reference_pool -C relocation-model=pic -C link-args=-Wl,--skip-wit-component -C link-arg=-shared -C link-args=-Wl,--allow-undefined -C link-self-contained=n -Lnative="@
            + wasi_deps_dir@ + "/lib"@,
{
    concat3(
        "--cfg pyo3_disable_reference_pool -C relocation-model=pic -C link-args=-Wl,--skip-wit-component -C link-arg=-shared -C link-args=-Wl,--allow-undefined -C link-self-contained=n -Lnative=",
        wasi_deps_dir,
        "/lib",
    )
}

/// The linker: the clang driver of the SDK.
pub fn wasm_linker(wasi_sdk: &str) -> (r: String)
    ensures
        r@ == wasi_sdk@ + "/bin/clang"@,
{
    concat2(wasi_sdk, "/bin/clang")
}

/// The variable from which cargo reads the linker for the target.
pub fn linker_env_key() -> (r: String)
    ensures
        r@ == "CARGO_TARGET_WASM32_WASIP2_LINKER"@,
{
    "CARGO_TARGET_WASM32_WASIP2_LINKER".to_owned()
}

/// Whether a text starts with another.
pub open spec fn starts_with(text: Seq<char>, prefix: Seq<char>) -> bool {
    prefix.len() <= text.len() && text.take(prefix.len() as int) == prefix
}

/// Whether a text starts with another.
fn has_prefix(text: &str, prefix: &str) -> (r: bool)
    ensures
        r == starts_with(text@, prefix@),
{
    let all = chars_of(text);
    let start = chars_of(prefix);
    if start.len() > all.len() {
        return false;
    }
    let head = string_of(&all, 0, start.len());
    proof {
        assert(all@.subrange(0, start.len() as int) =~= text@.take(prefix@.len() as int));
    }
    text_eq(head.as_str(), prefix)
}

/// Whether a variable belongs to the configuration of the build on the host, which a guest build
/// must not see. Where dependencies are found is kept.
pub open spec fn is_host_build_key(key: Seq<char>) -> bool {
    key != "CARGO_HOME"@ && (starts_with(key, "RUST"@) || starts_with(key, "CARGO"@))
}

/// The variables to take out of the environment of a guest build.
pub fn scrub_host_build_env(keys: Vec<String>) -> (r: Vec<String>)
    ensures
        r@ == keys@.filter(|key: String| is_host_build_key(key@)),
{
    let ghost given = keys@;
    let mut removed: Vec<String> = Vec::new();
    proof {
        assert(given.take(0) =~= Seq::<String>::empty());
        reveal(Seq::filter);
    }
    for key in it: keys
        invariant
            it.seq() == given,
            removed@ == given.take(it.index() as int).filter(
                |key: String| is_host_build_key(key@),
            ),
    {
        let ghost n = it.index() as int;
        proof {
            let taken = given.take(n + 1);
            assert(taken.drop_last() =~= given.take(n));
            assert(taken.last() == key);
            reveal(Seq::filter);
        }
        let host = !text_eq(key.as_str(), "CARGO_HOME") && (has_prefix(key.as_str(), "RUST")
            || has_prefix(key.as_str(), "CARGO"));
        if host {
            removed.push(key);
        }
    }
    proof {
        assert(given.take(given.len() as int) =~= given);
    }
    removed
}

/// The characters that separate words.
pub open spec fn is_space(c: char) -> bool {
    let n = c as u32;
    ||| 0x9 <= n <= 0xd
    ||| n == 0x20
    ||| n == 0x85
    ||| n == 0xa0
    ||| n == 0x1680
    ||| 0x2000 <= n <= 0x200a
    ||| n == 0x2028
    ||| n == 0x2029
    ||| n == 0x202f
    ||| n == 0x205f
    ||| n == 0x3000
}

/// Whether a character has the Unicode property `White_Space`.
fn separates(c: char) -> (r: bool)
    ensures
        r == is_space(c),
{
    let n: u32 = c as u32;
    (0x9 <= n && n <= 0xd) || n == 0x20 || n == 0x85 || n == 0xa0 || n == 0x1680 || (0x2000 <= n
        && n <= 0x200a) || n == 0x2028 || n == 0x2029 || n == 0x202f || n == 0x205f || n == 0x3000
}

/// The words of a text that begins in the middle of this word.
pub open spec fn words_after(word: Seq<char>, text: Seq<char>) -> Seq<Seq<char>>
    decreases text.len(),
{
    let done = if word.len() > 0 {
        seq![word]
    } else {
        Seq::empty()
    };
    if text.len() == 0 {
        done
    } else if is_space(text[0]) {
        done + words_after(Seq::empty(), text.skip(1))
    } else {
        words_after(word.push(text[0]), text.skip(1))
    }
}

/// The words of a text: the longest runs without a separator.
pub open spec fn words(text: Seq<char>) -> Seq<Seq<char>> {
    words_after(Seq::empty(), text)
}

/// Texts with a separator between them.
pub open spec fn separated(parts: Seq<Seq<char>>, by: char) -> Seq<char>
    decreases parts.len(),
{
    if parts.len() == 0 {
        Seq::empty()
    } else if parts.len() == 1 {
        parts[0]
    } else {
        separated(parts.drop_last(), by).push(by) + parts.last()
    }
}

/// Encodes flags for the variable that takes precedence over all other sources of them: word by
/// word, separated by the unit separator.
pub fn encode_rustflags(rustflags: &str) -> (r: String)
    ensures
        r@ == separated(words(rustflags@), '\u{1f}'),
{
    let chars = chars_of(rustflags);
    let ghost all = words(rustflags@);
    let ghost mut done: Seq<Seq<char>> = Seq::empty();
    let mut out: String = String::new();
    let mut word: String = String::new();
    let mut count: usize = 0;
    let mut i: usize = 0;
    proof {
        assert(chars@.skip(0) =~= chars@);
        assert(done + words_after(word@, chars@) =~= all);
    }
    while i < chars.len()
        invariant
            i <= chars@.len(),
            chars@ == rustflags@,
            count <= i,
            all == words(rustflags@),
            done + words_after(word@, chars@.skip(i as int)) == all,
            out@ == separated(done, '\u{1f}'),
            count == done.len(),
            word@.len() + count <= i,
        decreases chars@.len() - i,
    {
        let ghost rest = chars@.skip(i as int);
        proof {
            assert(rest[0] == chars@[i as int]);
            assert(rest.skip(1) =~= chars@.skip(i + 1));
        }
        if separates(chars[i]) {
            if !text_eq(word.as_str(), "") {
                let ghost before = done;
                if count > 0 {
                    out.push('\u{1f}');
                }
                out.append(word.as_str());
                count = count + 1;
                proof {
                    reveal_strlit("");
                    done = before.push(word@);
                    assert(done.drop_last() =~= before);
                    assert(out@ =~= separated(done, '\u{1f}'));
                    assert(word@.len() > 0) by {
                        if word@.len() == 0 {
                            assert(word@ =~= ""@);
                        }
                    }
                    assert(before + (seq![word@] + words_after(Seq::empty(), rest.skip(1)))
                        =~= done + words_after(Seq::empty(), rest.skip(1)));
                }
            } else {
                proof {
                    reveal_strlit("");
                    assert(word@.len() == 0);
                    assert(Seq::<Seq<char>>::empty() + words_after(Seq::empty(), rest.skip(1))
                        =~= words_after(Seq::empty(), rest.skip(1)));
                }
            }
            word = String::new();
            proof {
                assert(word@ =~= Seq::<char>::empty());
            }
        } else {
            word.push(chars[i]);
        }
        i = i + 1;
    }
    proof {
        reveal_strlit("");
        assert(chars@.skip(i as int).len() == 0);
        if word@.len() == 0 {
            assert(word@ =~= ""@);
            assert(done + Seq::<Seq<char>>::empty() =~= done);
        } else {
            assert(done + seq![word@] =~= done.push(word@));
            assert(done.push(word@).drop_last() =~= done);
        }
    }
    if !text_eq(word.as_str(), "") {
        if count > 0 {
            out.push('\u{1f}');
        }
        out.append(word.as_str());
        proof {
            assert(out@ =~= separated(done.push(word@), '\u{1f}'));
        }
    }
    out
}

/// The directory of the libraries that a guest is linked with.
pub open spec fn lib_dir(wasi_deps_dir: Seq<char>) -> Seq<char> {
    joined(wasi_deps_dir, "lib"@)
}

/// A library that is linked as it is found.
pub open spec fn system_library(wasi_deps_dir: Seq<char>, name: Seq<char>) -> LibraryView {
    LibraryView {
        name,
        path: joined(lib_dir(wasi_deps_dir), name),
        dlopen: false,
        async_shim_name: None,
    }
}

/// The runtime of a guest, which has a shim.
pub open spec fn runtime_library(
    name: Seq<char>,
    runtime: Seq<char>,
    shim: Seq<char>,
) -> LibraryView {
    LibraryView { name, path: runtime, dlopen: false, async_shim_name: Some(shim) }
}

/// The libraries of the JavaScript guest.
pub open spec fn js_library_views(wasi_deps_dir: Seq<char>, runtime: Seq<char>) -> Seq<
    LibraryView,
> {
    seq![
        runtime_library("libisola_js.so"@, runtime, "libisola_js_async.so"@),
        system_library(wasi_deps_dir, "libc.so"@),
        system_library(wasi_deps_dir, "libwasi-emulated-signal.so"@),
        system_library(wasi_deps_dir, "libwasi-emulated-getpid.so"@),
        system_library(wasi_deps_dir, "libwasi-emulated-process-clocks.so"@),
    ]
}

/// The libraries of the Python guest that do not depend on what is installed.
pub open spec fn python_base_views(wasi_deps_dir: Seq<char>, runtime: Seq<char>) -> Seq<
    LibraryView,
> {
    seq![
        runtime_library("libisola_python.so"@, runtime, "libisola_python_async.so"@),
        system_library(wasi_deps_dir, "libc.so"@),
        system_library(wasi_deps_dir, "libwasi-emulated-signal.so"@),
        system_library(wasi_deps_dir, "libwasi-emulated-getpid.so"@),
        system_library(wasi_deps_dir, "libwasi-emulated-process-clocks.so"@),
        system_library(wasi_deps_dir, "libc++.so"@),
        system_library(wasi_deps_dir, "libc++abi.so"@),
        system_library(wasi_deps_dir, "libpython3.15.so"@),
    ]
}

/// Adds a library that is linked as it is found.
fn push_system(libraries: &mut Vec<ComponentLibrary>, wasi_deps_dir: &str, name: &str)
    ensures
        library_views(final(libraries)@) == library_views(old(libraries)@).push(
            system_library(wasi_deps_dir@, name@),
        ),
{
    let dir = join_path(wasi_deps_dir, "lib");
    let path = join_path(dir.as_str(), name);
    libraries.push(ComponentLibrary::new(name, path.as_str(), false, None));
    proof {
        assert(library_views(libraries@) =~= library_views(old(libraries)@).push(
            system_library(wasi_deps_dir@, name@),
        ));
    }
}

/// The runtime of a guest alone.
fn start_libraries(name: &str, runtime: &str, shim: &'static str) -> (r: Vec<ComponentLibrary>)
    ensures
        library_views(r@) == seq![runtime_library(name@, runtime@, shim@)],
{
    let mut libraries: Vec<ComponentLibrary> = Vec::new();
    libraries.push(ComponentLibrary::new(name, runtime, false, Some(shim)));
    proof {
        assert(library_views(libraries@) =~= seq![runtime_library(name@, runtime@, shim@)]);
    }
    libraries
}

/// The libraries that the JavaScript guest is linked from.
pub fn js_libraries(wasi_deps_dir: &str, runtime: &str) -> (r: Vec<ComponentLibrary>)
    ensures
        library_views(r@) == js_library_views(wasi_deps_dir@, runtime@),
{
    let mut libraries = start_libraries("libisola_js.so", runtime, "libisola_js_async.so");
    push_system(&mut libraries, wasi_deps_dir, "libc.so");
    push_system(&mut libraries, wasi_deps_dir, "libwasi-emulated-signal.so");
    push_system(&mut libraries, wasi_deps_dir, "libwasi-emulated-getpid.so");
    push_system(&mut libraries, wasi_deps_dir, "libwasi-emulated-process-clocks.so");
    proof {
        assert(library_views(libraries@) =~= js_library_views(wasi_deps_dir@, runtime@));
    }
    libraries
}

/// The texts of a list.
pub open spec fn texts(parts: Seq<String>) -> Seq<Seq<char>> {
    parts.map_values(|part: String| part@)
}

/// Whether a path lies in a directory, by their components.
pub open spec fn is_under(root: Seq<String>, components: Seq<String>) -> bool {
    root.len() <= components.len() && texts(components.take(root.len() as int)) == texts(root)
}

/// The name under which an extension module is linked: its path in the root, from `/`.
pub open spec fn extension_name(root: Seq<String>, components: Seq<String>) -> Seq<char> {
    "/"@ + separated(texts(components.skip(root.len() as int)), '/').map_values(
        |c: char|
            if c == '\\' {
                '/'
            } else {
                c
            },
    )
}

/// An extension module.
pub open spec fn extension_library(root: Seq<String>, found: FoundPath) -> LibraryView {
    LibraryView {
        name: extension_name(root, found.components@),
        path: found.path@,
        dlopen: true,
        async_shim_name: None,
    }
}

/// Whether a path lies in a directory.
fn lies_under(root: &Vec<String>, components: &Vec<String>) -> (r: bool)
    ensures
        r == is_under(root@, components@),
{
    if root.len() > components.len() {
        return false;
    }
    let ghost head = texts(components@.take(root@.len() as int));
    let mut i: usize = 0;
    while i < root.len()
        invariant
            i <= root@.len() <= components@.len(),
            head == texts(components@.take(root@.len() as int)),
            forall|k: int| 0 <= k < i ==> head[k] == #[trigger] texts(root@)[k],
        decreases root@.len() - i,
    {
        if !text_eq(root[i].as_str(), components[i].as_str()) {
            assert(head[i as int] != texts(root@)[i as int]);
            return false;
        }
        i = i + 1;
    }
    assert(head =~= texts(root@));
    true
}

/// The components from a position on, separated by `/`.
fn join_components(components: &Vec<String>, from: usize) -> (r: String)
    requires
        from <= components@.len(),
    ensures
        r@ == separated(texts(components@.skip(from as int)), '/'),
{
    let ghost all = texts(components@.skip(from as int));
    let mut out: String = String::new();
    let mut i: usize = from;
    proof {
        assert(out@ =~= separated(all.take(0), '/'));
    }
    while i < components.len()
        invariant
            from <= i <= components@.len(),
            all == texts(components@.skip(from as int)),
            all.len() == components@.len() - from,
            out@ == separated(all.take(i - from), '/'),
        decreases components@.len() - i,
    {
        proof {
            let taken = all.take(i + 1 - from);
            assert(taken.drop_last() =~= all.take(i - from));
            assert(taken.last() == components@[i as int]@);
        }
        if i > from {
            out.push('/');
        }
        out.append(components[i].as_str());
        proof {
            assert(out@ =~= separated(all.take(i + 1 - from), '/'));
        }
        i = i + 1;
    }
    proof {
        assert(all.take(i - from) =~= all);
    }
    out
}

/// The first path that does not lie in the root.
pub open spec fn first_outside(root: Seq<String>, found: Seq<FoundPath>, i: int) -> bool {
    &&& 0 <= i < found.len()
    &&& !is_under(root, found[i].components@)
    &&& forall|k: int| 0 <= k < i ==> is_under(root, (#[trigger] found[k]).components@)
}

/// What the libraries of the Python guest are when its extension modules are taken in this order.
pub open spec fn python_linked(
    wasi_deps_dir: Seq<char>,
    root: Seq<String>,
    runtime: Seq<char>,
    sorted: Seq<FoundPath>,
    r: Result<Vec<ComponentLibrary>, String>,
) -> bool {
    match r {
        Ok(libraries) => {
            &&& forall|i: int|
                0 <= i < sorted.len() ==> is_under(root, (#[trigger] sorted[i]).components@)
            &&& library_views(libraries@) == python_base_views(wasi_deps_dir, runtime)
                + sorted.map_values(|found: FoundPath| extension_library(root, found))
        },
        Err(message) => exists|i: int| #[trigger]
            first_outside(root, sorted, i) && message@ == sorted[i].path@
                + " is outside the linker input root"@,
    }
}

/// The libraries that the Python guest is linked from: the fixed ones, then the extension modules
/// that were found in the root, in the order of their paths.
pub fn python_libraries(
    wasi_deps_dir: &str,
    root: &Vec<String>,
    runtime: &str,
    extensions: Vec<FoundPath>,
) -> (r: Result<Vec<ComponentLibrary>, String>)
    ensures
        exists|sorted: Seq<FoundPath>|
            is_sorted(sorted) && sorted.to_multiset() == extensions@.to_multiset()
                && #[trigger] python_linked(wasi_deps_dir@, root@, runtime@, sorted, r),
{
    let mut libraries = start_libraries("libisola_python.so", runtime, "libisola_python_async.so");
    push_system(&mut libraries, wasi_deps_dir, "libc.so");
    push_system(&mut libraries, wasi_deps_dir, "libwasi-emulated-signal.so");
    push_system(&mut libraries, wasi_deps_dir, "libwasi-emulated-getpid.so");
    push_system(&mut libraries, wasi_deps_dir, "libwasi-emulated-process-clocks.so");
    push_system(&mut libraries, wasi_deps_dir, "libc++.so");
    push_system(&mut libraries, wasi_deps_dir, "libc++abi.so");
    push_system(&mut libraries, wasi_deps_dir, "libpython3.15.so");
    let ghost base = python_base_views(wasi_deps_dir@, runtime@);
    proof {
        assert(library_views(libraries@) =~= base);
    }
    let sorted = sort_paths(extensions);
    let ghost all = sorted@.map_values(|found: FoundPath| extension_library(root@, found));
    proof {
        assert(base + all.take(0) =~= base);
    }
    let mut i: usize = 0;
    while i < sorted.len()
        invariant
            i <= sorted@.len(),
            is_sorted(sorted@),
            sorted@.to_multiset() == extensions@.to_multiset(),
            base == python_base_views(wasi_deps_dir@, runtime@),
            all == sorted@.map_values(|found: FoundPath| extension_library(root@, found)),
            library_views(libraries@) == base + all.take(i as int),
            forall|k: int|
                0 <= k < i ==> is_under(root@, (#[trigger] sorted@[k]).components@),
        decreases sorted@.len() - i,
    {
        let found = &sorted[i];
        if !lies_under(root, &found.components) {
            let message = concat2(found.path.as_str(), " is outside the linker input root");
            proof {
                assert(first_outside(root@, sorted@, i as int));
                assert(python_linked(
                    wasi_deps_dir@,
                    root@,
                    runtime@,
                    sorted@,
                    Err::<Vec<ComponentLibrary>, String>(message),
                ));
            }
            return Err(message);
        }
        let relative = join_components(&found.components, root.len());
        let forward = replace_char(relative.as_str(), '\\', '/');
        let name = concat2("/", forward.as_str());
        let ghost before = library_views(libraries@);
        libraries.push(ComponentLibrary::new(name.as_str(), found.path.as_str(), true, None));
        proof {
            assert(library_views(libraries@) =~= before.push(extension_library(root@, *found)));
            assert(all.take(i + 1) =~= all.take(i as int).push(all[i as int]));
            assert(library_views(libraries@) =~= base + all.take(i + 1));
        }
        i = i + 1;
    }
    proof {
        assert(all.take(i as int) =~= all);
        assert(python_linked(
            wasi_deps_dir@,
            root@,
            runtime@,
            sorted@,
            Ok::<Vec<ComponentLibrary>, String>(libraries),
        ));
    }
    Ok(libraries)
}

/// What `wasmparser` finds in a module: for each payload the name of the custom section that it is,
/// if it is one, up to the end or the first error.
pub uninterp spec fn module_payloads(module: Seq<u8>) -> Seq<
    Result<Option<Seq<char>>, Seq<char>>,
>;

/// A payload, by the texts it holds.
pub open spec fn payload_view(payload: Result<Option<String>, String>) -> Result<
    Option<Seq<char>>,
    Seq<char>,
> {
    match payload {
        Ok(Some(name)) => Ok(Some(name@)),
        Ok(None) => Ok(None),
        Err(message) => Err(message@),
    }
}

/// The payloads of a list.
pub open spec fn payload_views(payloads: Seq<Result<Option<String>, String>>) -> Seq<
    Result<Option<Seq<char>>, Seq<char>>,
> {
    payloads.map_values(|payload: Result<Option<String>, String>| payload_view(payload))
}

/// `wasmparser::Parser::parse_all` hands out the payloads of a module up to its end or the first
/// error. Which they are depends on the bytes alone.
#[verifier::external_body]
fn parse_payloads(module: &[u8]) -> (r: Vec<Result<Option<String>, String>>)
    ensures
        payload_views(r@) == module_payloads(module@),
{
    Parser::new(0).parse_all(module).map(|payload| match payload {
        Ok(Payload::CustomSection(section)) => Ok(Some(section.name().to_owned())),
        Ok(_) => Ok(None),
        Err(e) => Err(e.to_string()),
    }).collect()
}

/// Whether the search for the section that marks a shared library ends at a payload.
pub open spec fn ends_search(payload: Result<Option<Seq<char>>, Seq<char>>) -> bool {
    payload is Err || payload == Ok::<Option<Seq<char>>, Seq<char>>(Some("dylink.0"@))
}

/// The first payload at which the search ends.
pub open spec fn search_end(payloads: Seq<Result<Option<Seq<char>>, Seq<char>>>, i: int) -> bool {
    &&& 0 <= i < payloads.len()
    &&& ends_search(payloads[i])
    &&& forall|k: int| 0 <= k < i ==> !ends_search(#[trigger] payloads[k])
}

/// Whether the section is there, or the error that comes before it.
pub open spec fn dylink_found(
    payloads: Seq<Result<Option<Seq<char>>, Seq<char>>>,
    r: Result<bool, String>,
) -> bool {
    match r {
        Ok(true) => exists|i: int| #[trigger] search_end(payloads, i) && payloads[i] is Ok,
        Ok(false) => forall|k: int| 0 <= k < payloads.len() ==> !ends_search(#[trigger] payloads[k]),
        Err(message) => exists|i: int| #[trigger]
            search_end(payloads, i) && payloads[i] == Err::<Option<Seq<char>>, Seq<char>>(
                message@,
            ),
    }
}

/// Looks for the custom section that marks a shared library.
pub fn find_dylink(payloads: Vec<Result<Option<String>, String>>) -> (r: Result<bool, String>)
    ensures
        dylink_found(payload_views(payloads@), r),
{
    let ghost views = payload_views(payloads@);
    for payload in it: payloads
        invariant
            it.seq() == payloads@,
            views == payload_views(payloads@),
            forall|k: int| 0 <= k < it.index() ==> !ends_search(#[trigger] views[k]),
    {
        let ghost n = it.index() as int;
        proof {
            assert(views[n] == payload_view(payload));
        }
        match payload {
            Ok(Some(name)) => {
                if text_eq(name.as_str(), "dylink.0") {
                    proof {
                        assert(search_end(views, n));
                    }
                    return Ok(true);
                }
            },
            Ok(None) => {},
            Err(message) => {
                proof {
                    assert(search_end(views, n));
                }
                return Err(message);
            },
        }
    }
    Ok(false)
}

/// Checks that the runtime of a guest was linked as a shared library of position-independent
/// code: such a module always carries the custom section that the search looks for. Its absence
/// means that the configuration of the host overrode the flags.
pub fn assert_shared_pic_module(module: &[u8], path: &str) -> (r: Result<(), String>)
    ensures
        exists|found: Result<bool, String>| #[trigger]
            dylink_found(module_payloads(module@), found) && match found {
                Ok(true) => r is Ok,
                Ok(false) => r matches Err(message) && message@ == path@
                    + " has no dylink.0 section: it was not linked as a shared PIC module (check for host RUSTFLAGS/CARGO_ENCODED_RUSTFLAGS leaking into the guest build)"@,
                Err(e) => r == Err::<(), String>(e),
            },
{
    let found = find_dylink(parse_payloads(module));
    let ghost outcome = found;
    proof {
        assert(dylink_found(module_payloads(module@), outcome));
    }
    match found {
        Ok(true) => Ok(()),
        Ok(false) => Err(
            concat2(
                path,
                " has no dylink.0 section: it was not linked as a shared PIC module (check for host RUSTFLAGS/CARGO_ENCODED_RUSTFLAGS leaking into the guest build)",
            ),
        ),
        Err(e) => Err(e),
    }
}

/// A line without the carriage return at its end.
pub open spec fn without_return(line: Seq<char>) -> Seq<char> {
    if line.len() > 0 && line.last() == '\r' {
        line.drop_last()
    } else {
        line
    }
}

/// The first line of a text and what follows it. The end of the text ends a line too.
pub open spec fn first_line(text: Seq<char>) -> (Seq<char>, Seq<char>) {
    match text.index_of_first('\n') {
        Some(at) => (without_return(text.take(at)), text.skip(at + 1)),
        None => (text, Seq::empty()),
    }
}

/// Reads a line.
fn read_line(chars: &Vec<char>, from: usize) -> (r: (String, usize))
    requires
        from <= chars@.len(),
    ensures
        r.1 <= chars@.len(),
        r.0@ == first_line(chars@.skip(from as int)).0,
        chars@.skip(r.1 as int) == first_line(chars@.skip(from as int)).1,
{
    let ghost rest = chars@.skip(from as int);
    proof {
        rest.index_of_first_ensures('\n');
    }
    let mut end: usize = from;
    while end < chars.len() && chars[end] != '\n'
        invariant
            from <= end <= chars@.len(),
            rest == chars@.skip(from as int),
            forall|k: int| 0 <= k < end - from ==> #[trigger] rest[k] != '\n',
        decreases chars@.len() - end,
    {
        proof {
            assert(rest[end - from] == chars@[end as int]);
        }
        end = end + 1;
    }
    if end == chars.len() {
        proof {
            assert(!rest.contains('\n'));
            assert(chars@.subrange(from as int, end as int) =~= rest);
            assert(chars@.skip(end as int) =~= Seq::<char>::empty());
        }
        return (string_of(chars, from, end), end);
    }
    proof {
        assert(rest[end - from] == '\n');
        assert(rest.contains('\n'));
        let at = rest.index_of_first('\n')->0;
        assert(at == end - from);
        assert(chars@.subrange(from as int, end as int) =~= rest.take(at));
        assert(chars@.skip(end + 1) =~= rest.skip(at + 1));
    }
    if end > from && chars[end - 1] == '\r' {
        proof {
            assert(chars@.subrange(from as int, end - 1) =~= rest.take(end - from).drop_last());
        }
        return (string_of(chars, from, end - 1), end + 1);
    }
    (string_of(chars, from, end), end + 1)
}

/// The fingerprints that a build recorded.
#[derive(Debug)]
pub struct CachedFingerprints {
    pub metadata: String,
    pub content: String,
}

/// The fingerprints that a text records: its first two lines.
pub open spec fn recorded(text: Seq<char>) -> (Seq<char>, Seq<char>) {
    (first_line(text).0, first_line(first_line(text).1).0)
}

impl CachedFingerprints {
    /// Reads the fingerprints that a build recorded; what is missing is empty.
    pub fn read(text: &str) -> (r: CachedFingerprints)
        ensures
            (r.metadata@, r.content@) == recorded(text@),
    {
        let chars = chars_of(text);
        proof {
            assert(chars@.skip(0) =~= text@);
        }
        let (metadata, next) = read_line(&chars, 0);
        let (content, _) = read_line(&chars, next);
        CachedFingerprints { metadata, content }
    }
}

/// The text that records fingerprints.
pub open spec fn recording(metadata: Seq<char>, content: Seq<char>) -> Seq<char> {
    metadata.push('\n') + content.push('\n')
}

/// The text that records fingerprints.
pub fn component_fingerprints_text(metadata: &str, content: &str) -> (r: String)
    ensures
        r@ == recording(metadata@, content@),
{
    let mut out: String = metadata.to_owned();
    out.push('\n');
    out.append(content);
    out.push('\n');
    proof {
        assert(out@ =~= recording(metadata@, content@));
    }
    out
}

/// A component whose libraries have to be read.
#[derive(Debug)]
pub struct PendingComponent {
    pub metadata_fingerprint: String,
    pub cached_content_fingerprint: String,
}

/// What is known of a component from the file system alone.
#[derive(Debug)]
pub enum MetadataCheck {
    /// Nothing has to be done.
    UpToDate,
    /// Its libraries have to be read.
    Load(PendingComponent),
}

/// What has to be done with a component whose libraries were read.
#[derive(Debug)]
pub enum ContentCheck {
    /// Only this has to be recorded.
    Refresh(String),
    /// It has to be linked, and this recorded.
    Link(String),
}

/// The metadata fingerprint of a component.
pub open spec fn metadata_print(
    inputs: Seq<BuildInput>,
    libraries: Seq<(ComponentLibrary, FileMetadata)>,
    stack_size: u32,
) -> Seq<char> {
    fingerprint_text(component_fields(inputs, stack_size) + all_metadata_fields(libraries))
}

/// The content fingerprint of a component.
pub open spec fn content_print(
    inputs: Seq<BuildInput>,
    libraries: Seq<LoadedComponentLibrary>,
    stack_size: u32,
) -> Seq<char> {
    fingerprint_text(contents_of(inputs, libraries, stack_size))
}

/// Tells whether a component is up to date by what the file system says of its libraries: it is
/// there, and its metadata fingerprint is the one that was recorded.
pub fn component_by_metadata(
    inputs: &[BuildInput],
    libraries: &[(ComponentLibrary, FileMetadata)],
    stack_size: u32,
    output_exists: bool,
    cached: &str,
) -> (r: MetadataCheck)
    ensures
        ({
            let print = metadata_print(inputs@, libraries@, stack_size);
            if output_exists && recorded(cached@).0 == print {
                r is UpToDate
            } else {
                r matches MetadataCheck::Load(pending) && pending.metadata_fingerprint@ == print
                    && pending.cached_content_fingerprint@ == recorded(cached@).1
            }
        }),
{
    let metadata_fingerprint = component_metadata_fingerprint(inputs, libraries, stack_size);
    let recorded_prints = CachedFingerprints::read(cached);
    if output_exists && text_eq(
        recorded_prints.metadata.as_str(),
        metadata_fingerprint.as_str(),
    ) {
        return MetadataCheck::UpToDate;
    }
    MetadataCheck::Load(
        PendingComponent {
            metadata_fingerprint,
            cached_content_fingerprint: recorded_prints.content,
        },
    )
}

impl PendingComponent {
    /// Tells whether a component has to be linked by the contents of its libraries: unless it is
    /// there and its content fingerprint is the one that was recorded.
    pub fn by_content(
        &self,
        inputs: &[BuildInput],
        libraries: &[LoadedComponentLibrary],
        stack_size: u32,
        output_exists: bool,
    ) -> (r: ContentCheck)
        ensures
            ({
                let print = content_print(inputs@, libraries@, stack_size);
                let text = recording(self.metadata_fingerprint@, print);
                if output_exists && self.cached_content_fingerprint@ == print {
                    r matches ContentCheck::Refresh(t) && t@ == text
                } else {
                    r matches ContentCheck::Link(t) && t@ == text
                }
            }),
    {
        let content_fingerprint = component_content_fingerprint(inputs, libraries, stack_size);
        let text = component_fingerprints_text(
            self.metadata_fingerprint.as_str(),
            content_fingerprint.as_str(),
        );
        if output_exists && text_eq(
            self.cached_content_fingerprint.as_str(),
            content_fingerprint.as_str(),
        ) {
            ContentCheck::Refresh(text)
        } else {
            ContentCheck::Link(text)
        }
    }
}

/// A line that is read back as it was written.
pub open spec fn is_plain_line(line: Seq<char>) -> bool {
    !line.contains('\n') && (line.len() == 0 || line.last() != '\r')
}

/// A plain line is read back, with what follows it.
proof fn line_read_back(line: Seq<char>, rest: Seq<char>)
    requires
        is_plain_line(line),
    ensures
        first_line(line.push('\n') + rest) == (line, rest),
{
    let text = line.push('\n') + rest;
    text.index_of_first_ensures('\n');
    let n = line.len() as int;
    assert(text[n] == '\n');
    assert(text.contains('\n'));
    let at = text.index_of_first('\n')->0;
    if at < n {
        assert(line[at] == '\n');
        assert(line.contains('\n'));
    }
    assert(at == n);
    assert(text.take(n) =~= line);
    assert(text.skip(n + 1) =~= rest);
}

/// Fingerprints are read back as they were recorded.
pub proof fn recording_read_back(metadata: Seq<char>, content: Seq<char>)
    requires
        is_plain_line(metadata),
        is_plain_line(content),
    ensures
        recorded(recording(metadata, content)) == (metadata, content),
{
    line_read_back(metadata, content.push('\n'));
    line_read_back(content, Seq::empty());
    assert(content.push('\n') + Seq::<char>::empty() =~= content.push('\n'));
}

/// Every fingerprint is a plain line.
pub proof fn fingerprint_is_plain_line(fields: Seq<Field>)
    ensures
        is_plain_line(fingerprint_text(fields)),
{
    let text = fingerprint_text(fields);
    fingerprint_digits(fields);
    if text.contains('\n') {
        let i = choose|i: int| 0 <= i < text.len() && text[i] == '\n';
        assert(is_hex_digit(text[i]));
    }
    assert(is_hex_digit(text.last()));
}

/// What a build records is found again: with the same inputs, the next build finds the metadata
/// fingerprint and the content fingerprint that this one recorded, so it has nothing to do where
/// the file system says nothing new, and nothing to link where the contents are the same.
pub proof fn recorded_build_is_found_again(
    inputs: Seq<BuildInput>,
    found: Seq<(ComponentLibrary, FileMetadata)>,
    loaded: Seq<LoadedComponentLibrary>,
    stack_size: u32,
)
    ensures
        recorded(
            recording(
                metadata_print(inputs, found, stack_size),
                content_print(inputs, loaded, stack_size),
            ),
        ) == (
            metadata_print(inputs, found, stack_size),
            content_print(inputs, loaded, stack_size),
        ),
{
    fingerprint_is_plain_line(component_fields(inputs, stack_size) + all_metadata_fields(found));
    fingerprint_is_plain_line(contents_of(inputs, loaded, stack_size));
    recording_read_back(
        metadata_print(inputs, found, stack_size),
        content_print(inputs, loaded, stack_size),
    );
}

/// A guest that is built into a component.
#[derive(Debug, Clone, Copy)]
pub struct GuestBuild {
    pub package: &'static str,
    pub extra_env: Option<(&'static str, &'static str)>,
    pub output: &'static str,
    pub stack_size: u32,
}

/// The Python guest.
pub fn python_build() -> (r: GuestBuild)
    ensures
        r.package@ == "isola-python-runtime"@,
        r.extra_env matches Some((key, value)) && key@ == "PYO3_CROSS_PYTHON_VERSION"@ && value@
            == "3.15"@,
        r.output@ == "target/python.wasm"@,
        r.stack_size == 8_388_608,
{
    GuestBuild {
        package: "isola-python-runtime",
        extra_env: Some(("PYO3_CROSS_PYTHON_VERSION", "3.15")),
        output: "target/python.wasm",
        stack_size: 8_388_608,
    }
}

/// The JavaScript guest.
pub fn js_build() -> (r: GuestBuild)
    ensures
        r.package@ == "isola-js-runtime"@,
        r.extra_env is None,
        r.output@ == "target/js.wasm"@,
        r.stack_size == 2_097_152,
{
    GuestBuild {
        package: "isola-js-runtime",
        extra_env: None,
        output: "target/js.wasm",
        stack_size: 2_097_152,
    }
}

/// Where the runtime of a guest lies once it is compiled.
pub fn runtime_path(package: &str) -> (r: String)
    ensures
        r@ == "target/wasm32-wasip2/release/"@ + package@.map_values(
            |c: char|
                if c == '-' {
                    '_'
                } else {
                    c
                },
        ) + ".wasm"@,
{
    let name = replace_char(package, '-', '_');
    concat3("target/wasm32-wasip2/release/", name.as_str(), ".wasm")
}

/// What can be asked of the build.
#[derive(Debug, Clone, Copy, PartialEq, Eq, Structural)]
pub enum Task {
    BuildAll,
    BuildPython,
    BuildJs,
}

/// The name of a task.
pub open spec fn task_text(task: Task) -> Seq<char> {
    match task {
        Task::BuildAll => "build-all"@,
        Task::BuildPython => "build-python"@,
        Task::BuildJs => "build-js"@,
    }
}

impl Task {
    /// All tasks, in the order in which they are listed.
    pub fn all() -> (r: Vec<Task>)
        ensures
            r@ == seq![Task::BuildAll, Task::BuildPython, Task::BuildJs],
    {
        let tasks = vec![Task::BuildAll, Task::BuildPython, Task::BuildJs];
        proof {
            assert(tasks@ =~= seq![Task::BuildAll, Task::BuildPython, Task::BuildJs]);
        }
        tasks
    }

    /// The name of the task.
    pub fn name(&self) -> (r: &'static str)
        ensures
            r@ == task_text(*self),
    {
        match self {
            Task::BuildAll => "build-all",
            Task::BuildPython => "build-python",
            Task::BuildJs => "build-js",
        }
    }

    /// The task of a name.
    pub fn named(name: &str) -> (r: Option<Task>)
        ensures
            match r {
                Some(task) => task_text(task) == name@,
                None => forall|task: Task| #[trigger] task_text(task) != name@,
            },
    {
        if text_eq(name, "build-all") {
            Some(Task::BuildAll)
        } else if text_eq(name, "build-python") {
            Some(Task::BuildPython)
        } else if text_eq(name, "build-js") {
            Some(Task::BuildJs)
        } else {
            None
        }
    }

    /// The guests that the task builds, in order.
    pub fn guests(&self) -> (r: Vec<Task>)
        ensures
            r@ == match *self {
                Task::BuildAll => seq![Task::BuildPython, Task::BuildJs],
                other => seq![other],
            },
    {
        let guests = match self {
            Task::BuildAll => vec![Task::BuildPython, Task::BuildJs],
            Task::BuildPython => vec![Task::BuildPython],
            Task::BuildJs => vec![Task::BuildJs],
        };
        proof {
            match *self {
                Task::BuildAll => assert(guests@ =~= seq![Task::BuildPython, Task::BuildJs]),
                other => assert(guests@ =~= seq![other]),
            }
        }
        guests
    }
}

} // verus!
