//! Template construction and sandbox lifecycle.
//!
//! Typical flow:
//! 1. Configure a [`SandboxTemplateBuilder`] and build a [`SandboxTemplate`].
//! 2. Instantiate sandboxes from that template, each with its own [`SandboxOptions`].
//! 3. Evaluate scripts or call guest functions with [`Arg`] inputs.
//!
//! Options of one sandbox are merged over the template defaults.

use bytes::Bytes;
use vstd::prelude::*;
use vstd::std_specs::convert::FromSpecImpl;

use crate::keyed::{
    effective, is_latest, last_position_is, last_position_none, latest, latest_texts, merged,
    merged_associative, merged_effective, place_text, placed, placed_effective, text_entries,
    Entries,
};
use crate::octets::octets;
use crate::text::{concat2, text_eq};
use crate::value::Value;

verus! {

/// Error produced while building or executing a sandbox.
#[derive(Debug)]
pub enum Error {
    /// Guest/user-code failure.
    UserCode {
        /// Error text supplied by the guest language runtime.
        message: String,
    },
    /// Failure from the WebAssembly engine.
    Wasm(String),
    /// Filesystem or OS-level runtime failure.
    Io(String),
    /// Other host/runtime failures.
    Other(String),
}

impl Error {
    /// The text that describes this error.
    pub fn message(&self) -> (r: String)
        ensures
            r@ == match self {
                Error::UserCode { message } => message@,
                Error::Wasm(cause) => "wasm error: "@ + cause@,
                Error::Io(cause) => "io error: "@ + cause@,
                Error::Other(cause) => "runtime error: "@ + cause@,
            },
    {
        match self {
            Error::UserCode { message } => message.clone(),
            Error::Wasm(cause) => concat2("wasm error: ", cause.as_str()),
            Error::Io(cause) => concat2("io error: ", cause.as_str()),
            Error::Other(cause) => concat2("runtime error: ", cause.as_str()),
        }
    }
}

/// Why a guest reports a failure.
#[derive(Debug, Clone, Copy, PartialEq, Eq, Structural)]
pub enum ErrorCode {
    /// User code failed.
    Aborted,
    /// The language runtime itself failed.
    Internal,
}

/// Failure reported by the guest.
#[derive(Debug)]
pub struct GuestError {
    /// Why it failed.
    pub code: ErrorCode,
    /// Text supplied by the guest.
    pub message: String,
}

impl From<GuestError> for Error {
    fn from(value: GuestError) -> (r: Error)
        ensures
            match value.code {
                ErrorCode::Aborted => r == (Error::UserCode { message: value.message }),
                ErrorCode::Internal => r matches Error::Other(text) && text@
                    == "[ErrorCode::Internal] "@ + value.message@,
            },
    {
        match value.code {
            ErrorCode::Aborted => Error::UserCode { message: value.message },
            ErrorCode::Internal => Error::Other(
                concat2("[ErrorCode::Internal] ", value.message.as_str()),
            ),
        }
    }
}

/// What the conversion gives is stated by the texts it holds, in `from` itself.
impl FromSpecImpl<GuestError> for Error {
    open spec fn obeys_from_spec() -> bool {
        false
    }

    open spec fn from_spec(v: GuestError) -> Error {
        Error::UserCode { message: v.message }
    }
}

/// Permissions of the guest inside a mounted directory.
#[derive(Debug, Clone, Copy, PartialEq, Eq, Structural)]
pub enum FsPerms {
    /// Only read operations are permitted.
    ReadOnly,
    /// All operations are permitted.
    ReadWrite,
}

/// A host directory that is visible to the guest.
#[derive(Debug)]
pub struct DirectoryMapping {
    /// The directory on the host.
    pub host: String,
    /// The path under which the guest sees it.
    pub guest: String,
    /// What the guest may do there.
    pub perms: FsPerms,
}

/// A mount by its texts.
pub struct MountView {
    pub host: Seq<char>,
    pub guest: Seq<char>,
    pub perms: FsPerms,
}

impl View for DirectoryMapping {
    type V = MountView;

    open spec fn view(&self) -> MountView {
        MountView { host: self.host@, guest: self.guest@, perms: self.perms }
    }
}

impl DirectoryMapping {
    /// Maps a host directory, read-only.
    pub fn new(host: &str, guest: &str) -> (r: DirectoryMapping)
        ensures
            r@ == (MountView { host: host@, guest: guest@, perms: FsPerms::ReadOnly }),
    {
        DirectoryMapping {
            host: host.to_owned(),
            guest: guest.to_owned(),
            perms: FsPerms::ReadOnly,
        }
    }

    /// The same mapping with other permissions.
    pub fn with_permissions(self, perms: FsPerms) -> (r: DirectoryMapping)
        ensures
            r.host == self.host,
            r.guest == self.guest,
            r.perms == perms,
    {
        DirectoryMapping { host: self.host, guest: self.guest, perms }
    }
}

impl Clone for DirectoryMapping {
    fn clone(&self) -> (r: DirectoryMapping)
        ensures
            r == *self,
    {
        DirectoryMapping {
            host: self.host.clone(),
            guest: self.guest.clone(),
            perms: self.perms,
        }
    }
}

/// The mounts of a list, each under its guest path.
pub open spec fn mount_entries(mounts: Seq<DirectoryMapping>) -> Entries<MountView> {
    mounts.map_values(|m: DirectoryMapping| (m.guest@, m@))
}

/// Per-instantiation policy overrides for a sandbox.
///
/// Default options inherit every setting from the template. Values set here are merged with the
/// template defaults during [`SandboxTemplate::instantiate`].
#[derive(Debug)]
pub struct SandboxOptions {
    /// The memory hard limit, where one is set.
    pub max_memory: Option<usize>,
    /// Mounted directories.
    pub directory_mappings: Vec<DirectoryMapping>,
    /// Environment variables.
    pub env: Vec<(String, String)>,
}

/// Options by their contents.
pub struct OptionsView {
    pub max_memory: Option<usize>,
    pub mounts: Entries<MountView>,
    pub env: Entries<Seq<char>>,
}

impl View for SandboxOptions {
    type V = OptionsView;

    open spec fn view(&self) -> OptionsView {
        OptionsView {
            max_memory: self.max_memory,
            mounts: mount_entries(self.directory_mappings@),
            env: text_entries(self.env@),
        }
    }
}

/// The options that set nothing.
pub open spec fn no_options() -> OptionsView {
    OptionsView { max_memory: None, mounts: Seq::empty(), env: Seq::empty() }
}

/// Options over defaults: a set memory limit wins, a mount replaces the one at the same guest
/// path, a variable replaces the one of the same name.
pub open spec fn merged_options(base: OptionsView, overrides: OptionsView) -> OptionsView {
    OptionsView {
        max_memory: if overrides.max_memory is Some {
            overrides.max_memory
        } else {
            base.max_memory
        },
        mounts: merged(base.mounts, overrides.mounts),
        env: merged(base.env, overrides.env),
    }
}

impl Default for SandboxOptions {
    fn default() -> (r: SandboxOptions)
        ensures
            r@ == no_options(),
    {
        let r = SandboxOptions {
            max_memory: None,
            directory_mappings: Vec::new(),
            env: Vec::new(),
        };
        proof {
            assert(mount_entries(r.directory_mappings@) =~= Seq::empty());
            assert(text_entries(r.env@) =~= Seq::empty());
        }
        r
    }
}

/// Copies a list of environment variables.
pub fn clone_env(env: &Vec<(String, String)>) -> (r: Vec<(String, String)>)
    ensures
        r@ == env@,
{
    let mut out: Vec<(String, String)> = Vec::new();
    let mut i: usize = 0;
    while i < env.len()
        invariant
            i <= env.len(),
            out@ == env@.take(i as int),
        decreases env.len() - i,
    {
        proof {
            assert(env@.take(i + 1) =~= env@.take(i as int).push(env@[i as int]));
        }
        out.push((env[i].0.clone(), env[i].1.clone()));
        i = i + 1;
    }
    proof {
        assert(env@.take(i as int) =~= env@);
    }
    out
}

/// Copies a list of mounts.
pub fn clone_mounts(mounts: &Vec<DirectoryMapping>) -> (r: Vec<DirectoryMapping>)
    ensures
        r@ == mounts@,
{
    let mut out: Vec<DirectoryMapping> = Vec::new();
    let mut i: usize = 0;
    while i < mounts.len()
        invariant
            i <= mounts.len(),
            out@ == mounts@.take(i as int),
        decreases mounts.len() - i,
    {
        proof {
            assert(mounts@.take(i + 1) =~= mounts@.take(i as int).push(mounts@[i as int]));
        }
        out.push(mounts[i].clone());
        i = i + 1;
    }
    proof {
        assert(mounts@.take(i as int) =~= mounts@);
    }
    out
}

/// Puts one mount into a list: over the last one at the same guest path, or at the end.
fn place_mount(mounts: &mut Vec<DirectoryMapping>, mapping: DirectoryMapping)
    ensures
        mount_entries(final(mounts)@) == placed(
            mount_entries(old(mounts)@),
            mapping.guest@,
            mapping@,
        ),
{
    let ghost before = mount_entries(mounts@);
    let mut i: usize = mounts.len();
    while i > 0
        invariant
            i <= mounts@.len(),
            mounts@ == old(mounts)@,
            before == mount_entries(mounts@),
            forall|j: int| i <= j < mounts@.len() ==> (#[trigger] before[j]).0 != mapping.guest@,
        decreases i,
    {
        i = i - 1;
        assert(before[i as int] == (mounts@[i as int].guest@, mounts@[i as int]@));
        if text_eq(mounts[i].guest.as_str(), mapping.guest.as_str()) {
            proof {
                last_position_is(before, mapping.guest@, i as int);
            }
            mounts.set(i, mapping);
            proof {
                assert(mount_entries(mounts@) =~= before.update(
                    i as int,
                    (mapping.guest@, mapping@),
                ));
            }
            return;
        }
    }
    proof {
        last_position_none(before, mapping.guest@);
    }
    mounts.push(mapping);
    proof {
        assert(mount_entries(mounts@) =~= before.push((mapping.guest@, mapping@)));
    }
}

impl SandboxOptions {
    /// Override the memory hard limit for this sandbox.
    #[must_use]
    pub fn max_memory(self, max_memory: usize) -> (r: SandboxOptions)
        ensures
            r@ == (OptionsView { max_memory: Some(max_memory), ..self@ }),
    {
        SandboxOptions {
            max_memory: Some(max_memory),
            directory_mappings: self.directory_mappings,
            env: self.env,
        }
    }

    /// Mount a host directory into this sandbox instance.
    ///
    /// If a guest path duplicates a template mount, this mount replaces it for that instance.
    #[must_use]
    pub fn mount(self, host_path: &str, guest_path: &str, perms: FsPerms) -> (r: SandboxOptions)
        ensures
            r@ == (OptionsView {
                mounts: self@.mounts.push(
                    (guest_path@, MountView { host: host_path@, guest: guest_path@, perms }),
                ),
                ..self@
            }),
    {
        let mut options = self;
        options.directory_mappings.push(
            DirectoryMapping::new(host_path, guest_path).with_permissions(perms),
        );
        proof {
            assert(options@.mounts =~= self@.mounts.push(
                (guest_path@, MountView { host: host_path@, guest: guest_path@, perms }),
            ));
        }
        options
    }

    /// Add an environment variable for this sandbox instance.
    ///
    /// If the same key is set multiple times, the last value wins.
    #[must_use]
    pub fn env(self, k: &str, v: &str) -> (r: SandboxOptions)
        ensures
            r@ == (OptionsView { env: placed(self@.env, k@, v@), ..self@ }),
            effective(r@.env, k@) == Some(v@),
    {
        let mut options = self;
        place_text(&mut options.env, (k.to_owned(), v.to_owned()));
        proof {
            placed_effective(self@.env, k@, v@, k@);
        }
        options
    }

    /// Merge `overrides` into this options value and return the merged result.
    ///
    /// Merge behavior:
    /// - `max_memory`: override wins when set.
    /// - mounts: override entries replace on guest-path collision.
    /// - `env`: override values replace by matching key.
    #[must_use]
    pub fn merged_with(&self, overrides: &SandboxOptions) -> (r: SandboxOptions)
        ensures
            r@ == merged_options(self@, overrides@),
    {
        self.merged_with_owned(overrides.clone())
    }

    /// As [`SandboxOptions::merged_with`], taking the overrides over.
    pub fn merged_with_owned(&self, overrides: SandboxOptions) -> (r: SandboxOptions)
        ensures
            r@ == merged_options(self@, overrides@),
    {
        let mut merged_mounts: Vec<DirectoryMapping> = clone_mounts(&self.directory_mappings);
        let mut merged_env: Vec<(String, String)> = clone_env(&self.env);
        let max_memory: Option<usize> = match overrides.max_memory {
            Some(limit) => Some(limit),
            None => self.max_memory,
        };
        let ghost all_mounts = mount_entries(overrides.directory_mappings@);
        let ghost all_env = text_entries(overrides.env@);
        let mut i: usize = 0;
        proof {
            assert(all_mounts.take(0) =~= Seq::empty());
            assert(all_env.take(0) =~= Seq::empty());
        }
        while i < overrides.directory_mappings.len()
            invariant
                i <= overrides.directory_mappings@.len(),
                all_mounts == mount_entries(overrides.directory_mappings@),
                mount_entries(merged_mounts@) == merged(self@.mounts, all_mounts.take(i as int)),
            decreases overrides.directory_mappings@.len() - i,
        {
            proof {
                let next = all_mounts.take(i + 1);
                assert(next.drop_last() =~= all_mounts.take(i as int));
                assert(next.last() == all_mounts[i as int]);
            }
            place_mount(&mut merged_mounts, overrides.directory_mappings[i].clone());
            i = i + 1;
        }
        let mut k: usize = 0;
        while k < overrides.env.len()
            invariant
                k <= overrides.env@.len(),
                all_env == text_entries(overrides.env@),
                text_entries(merged_env@) == merged(self@.env, all_env.take(k as int)),
            decreases overrides.env@.len() - k,
        {
            proof {
                let next = all_env.take(k + 1);
                assert(next.drop_last() =~= all_env.take(k as int));
                assert(next.last() == all_env[k as int]);
            }
            place_text(&mut merged_env, (overrides.env[k].0.clone(), overrides.env[k].1.clone()));
            k = k + 1;
        }
        proof {
            assert(all_mounts.take(i as int) =~= all_mounts);
            assert(all_env.take(k as int) =~= all_env);
        }
        SandboxOptions { max_memory, directory_mappings: merged_mounts, env: merged_env }
    }
}

impl Clone for SandboxOptions {
    fn clone(&self) -> (r: SandboxOptions)
        ensures
            r.max_memory == self.max_memory,
            r.directory_mappings@ == self.directory_mappings@,
            r.env@ == self.env@,
    {
        SandboxOptions {
            max_memory: self.max_memory,
            directory_mappings: clone_mounts(&self.directory_mappings),
            env: clone_env(&self.env),
        }
    }
}

/// Options that set nothing change nothing.
pub proof fn merging_no_options(base: OptionsView)
    ensures
        merged_options(base, no_options()) == base,
{
}

/// In merged options each variable has the value that the overrides give it last, or else the one
/// it had.
pub proof fn merged_env_effective(base: OptionsView, overrides: OptionsView, name: Seq<char>)
    ensures
        effective(merged_options(base, overrides).env, name) == match effective(
            overrides.env,
            name,
        ) {
            Some(value) => Some(value),
            None => effective(base.env, name),
        },
{
    merged_effective(base.env, overrides.env, name);
}

/// In merged options each guest path shows the mount that the overrides give it last, or else the
/// one it had.
pub proof fn merged_mounts_effective(base: OptionsView, overrides: OptionsView, guest: Seq<char>)
    ensures
        effective(merged_options(base, overrides).mounts, guest) == match effective(
            overrides.mounts,
            guest,
        ) {
            Some(mount) => Some(mount),
            None => effective(base.mounts, guest),
        },
{
    merged_effective(base.mounts, overrides.mounts, guest);
}

/// Overriding twice has the effect of overriding once with the merged overrides.
pub proof fn merged_options_associative(
    a: OptionsView,
    b: OptionsView,
    c: OptionsView,
    key: Seq<char>,
)
    ensures
        ({
            let left = merged_options(merged_options(a, b), c);
            let right = merged_options(a, merged_options(b, c));
            &&& left.max_memory == right.max_memory
            &&& effective(left.mounts, key) == effective(right.mounts, key)
            &&& effective(left.env, key) == effective(right.env, key)
        }),
{
    merged_associative(a.mounts, b.mounts, c.mounts, key);
    merged_associative(a.env, b.env, c.env, key);
}

/// Copies an optional text.
pub fn clone_text(text: &Option<String>) -> (r: Option<String>)
    ensures
        r == *text,
{
    match text {
        Some(s) => Some(s.clone()),
        None => None,
    }
}

/// Everything that compiling and initializing a runtime component depends on.
#[derive(Debug)]
pub struct ModuleConfig {
    /// Directory for compiled artifacts, where they are cached.
    pub cache: Option<String>,
    /// Memory hard limit in bytes.
    pub max_memory: usize,
    /// Directories visible during initialization.
    pub directory_mappings: Vec<DirectoryMapping>,
    /// Environment during initialization.
    pub env: Vec<(String, String)>,
    /// Guest code executed during initialization.
    pub prelude: Option<String>,
}

/// Everything that one sandbox instance is created with.
#[derive(Debug)]
pub struct InstanceConfig {
    /// Directories visible to the guest.
    pub directory_mappings: Vec<DirectoryMapping>,
    /// Environment of the guest.
    pub env: Vec<(String, String)>,
    /// Memory hard limit in bytes.
    pub max_memory: usize,
}

/// The memory limit in bytes: unlimited where none is set.
pub open spec fn memory_limit(max_memory: Option<usize>) -> usize {
    match max_memory {
        Some(limit) => limit,
        None => usize::MAX,
    }
}

/// Builder for compiling a reusable [`SandboxTemplate`].
///
/// It configures template-level defaults shared by every sandbox instantiated from the resulting
/// template, including base mount/env settings.
#[derive(Debug)]
pub struct SandboxTemplateBuilder {
    /// Directory for compiled artifacts, where they are cached.
    pub cache: Option<String>,
    /// Defaults of every sandbox.
    pub base_options: SandboxOptions,
    /// Guest code executed during template initialization.
    pub prelude: Option<String>,
}

/// Compiled sandbox template that can instantiate multiple sandboxes.
///
/// It is an immutable, reusable compiled artifact together with the defaults of its sandboxes.
#[derive(Debug)]
pub struct SandboxTemplate<C> {
    /// Defaults of every sandbox.
    pub base_options: SandboxOptions,
    /// The compiled component.
    pub component: C,
}

impl Default for SandboxTemplateBuilder {
    fn default() -> (r: SandboxTemplateBuilder)
        ensures
            r.cache is None,
            r.prelude is None,
            r.base_options@ == no_options(),
    {
        SandboxTemplateBuilder {
            cache: None,
            base_options: SandboxOptions::default(),
            prelude: None,
        }
    }
}

impl SandboxTemplateBuilder {
    /// Set the optional component cache directory.
    ///
    /// When set, compiled artifacts are cached on disk and reused across builds.
    #[must_use]
    pub fn cache(self, cache: Option<String>) -> (r: SandboxTemplateBuilder)
        ensures
            r == (SandboxTemplateBuilder { cache, ..self }),
    {
        SandboxTemplateBuilder { cache, base_options: self.base_options, prelude: self.prelude }
    }

    /// Set the per-sandbox memory hard limit.
    ///
    /// Defaults to unlimited (`usize::MAX`).
    #[must_use]
    pub fn max_memory(self, max_memory: usize) -> (r: SandboxTemplateBuilder)
        ensures
            r.base_options@ == (OptionsView {
                max_memory: Some(max_memory),
                ..self.base_options@
            }),
            r.cache == self.cache,
            r.prelude == self.prelude,
    {
        SandboxTemplateBuilder {
            cache: self.cache,
            base_options: self.base_options.max_memory(max_memory),
            prelude: self.prelude,
        }
    }

    /// Set base directory mappings shared by all sandboxes from this template.
    ///
    /// These mappings can be extended or overridden per instantiation via
    /// [`SandboxOptions::mount`].
    #[must_use]
    pub fn mount(
        self,
        host_path: &str,
        guest_path: &str,
        perms: FsPerms,
    ) -> (r: SandboxTemplateBuilder)
        ensures
            r.base_options@ == (OptionsView {
                mounts: self.base_options@.mounts.push(
                    (guest_path@, MountView { host: host_path@, guest: guest_path@, perms }),
                ),
                ..self.base_options@
            }),
            r.cache == self.cache,
            r.prelude == self.prelude,
    {
        SandboxTemplateBuilder {
            cache: self.cache,
            base_options: self.base_options.mount(host_path, guest_path, perms),
            prelude: self.prelude,
        }
    }

    /// Add an environment variable that will be present in the sandbox environment.
    ///
    /// If the same key is set multiple times, the last value wins.
    #[must_use]
    pub fn env(self, k: &str, v: &str) -> (r: SandboxTemplateBuilder)
        ensures
            r.base_options@ == (OptionsView {
                env: placed(self.base_options@.env, k@, v@),
                ..self.base_options@
            }),
            effective(r.base_options@.env, k@) == Some(v@),
            r.cache == self.cache,
            r.prelude == self.prelude,
    {
        SandboxTemplateBuilder {
            cache: self.cache,
            base_options: self.base_options.env(k, v),
            prelude: self.prelude,
        }
    }

    /// Set optional guest prelude code executed during template initialization.
    ///
    /// Prelude state is captured in the compiled template and is therefore present in every
    /// sandbox instantiated from it. `None` disables the prelude.
    #[must_use]
    pub fn prelude(self, prelude: Option<String>) -> (r: SandboxTemplateBuilder)
        ensures
            r == (SandboxTemplateBuilder { prelude, ..self }),
    {
        SandboxTemplateBuilder { cache: self.cache, base_options: self.base_options, prelude }
    }

    /// What the runtime component is compiled and initialized with: the configured mounts and
    /// environment are available while it is initialized and snapshotted.
    pub fn module_config(&self) -> (r: ModuleConfig)
        ensures
            r.cache == self.cache,
            r.max_memory == memory_limit(self.base_options.max_memory),
            r.directory_mappings@ == self.base_options.directory_mappings@,
            text_entries(r.env@) == latest(self.base_options@.env),
            is_latest(text_entries(r.env@), self.base_options@.env),
            r.prelude == self.prelude,
    {
        ModuleConfig {
            cache: clone_text(&self.cache),
            max_memory: match self.base_options.max_memory {
                Some(limit) => limit,
                None => usize::MAX,
            },
            directory_mappings: clone_mounts(&self.base_options.directory_mappings),
            env: latest_texts(&self.base_options.env),
            prelude: clone_text(&self.prelude),
        }
    }

    /// The template made of this builder's defaults and the component compiled from
    /// [`SandboxTemplateBuilder::module_config`].
    pub fn build<C>(self, component: C) -> (r: SandboxTemplate<C>)
        ensures
            r.base_options == self.base_options,
            r.component == component,
    {
        SandboxTemplate { base_options: self.base_options, component }
    }
}

impl<C> SandboxTemplate<C> {
    /// Create a builder for a reusable sandbox template.
    #[must_use]
    pub fn builder() -> (r: SandboxTemplateBuilder)
        ensures
            r.cache is None,
            r.prelude is None,
            r.base_options@ == no_options(),
    {
        SandboxTemplateBuilder::default()
    }

    /// What a new sandbox instance of this template is created with: the template defaults with
    /// the instance's own options merged over them.
    pub fn instantiate(&self, options: SandboxOptions) -> (r: InstanceConfig)
        ensures
            ({
                let all = merged_options(self.base_options@, options@);
                &&& mount_entries(r.directory_mappings@) == all.mounts
                &&& text_entries(r.env@) == latest(all.env)
                &&& is_latest(text_entries(r.env@), all.env)
                &&& r.max_memory == memory_limit(all.max_memory)
            }),
    {
        let merged_options = self.base_options.merged_with_owned(options);
        InstanceConfig {
            directory_mappings: merged_options.directory_mappings,
            env: latest_texts(&merged_options.env),
            max_memory: match merged_options.max_memory {
                Some(limit) => limit,
                None => usize::MAX,
            },
        }
    }
}

/// Function argument passed to a guest function.
#[derive(Debug)]
pub enum Arg<S> {
    /// Positional argument containing one encoded value.
    Positional(Value),
    /// Named argument containing its guest-visible name and encoded value.
    Named(String, Value),
    /// Positional argument read lazily from an asynchronous value stream.
    PositionalStream(S),
    /// Named argument read lazily from an asynchronous value stream.
    NamedStream(String, S),
}

/// The value of an argument as the guest receives it.
#[derive(Debug)]
pub enum WasmValue<I> {
    /// An encoded value.
    Cbor(Bytes),
    /// A handle from which encoded values are read one by one.
    CborIterator(I),
}

/// An argument as the guest receives it.
#[derive(Debug)]
pub struct RawArgument<I> {
    /// The name, for a named argument.
    pub name: Option<String>,
    /// The value or the handle of its stream.
    pub value: WasmValue<I>,
}

/// A value that holds exactly these encoded bytes.
pub open spec fn is_encoded<I>(value: WasmValue<I>, bytes: Seq<u8>) -> bool {
    value matches WasmValue::Cbor(b) && octets(b) == bytes
}

/// A value that is a handle which `push` gave for this stream.
pub open spec fn is_pushed<S, I, F: Fn(S) -> Result<I, String>>(
    value: WasmValue<I>,
    stream: S,
    push: F,
) -> bool {
    value matches WasmValue::CborIterator(handle) && call_ensures(push, (stream,), Ok(handle))
}

/// How a guest receives an argument: under the same name, with the same encoded bytes, and a
/// stream through a handle that `push` gave for it.
pub open spec fn lowered<S, I, F: Fn(S) -> Result<I, String>>(
    arg: Arg<S>,
    raw: RawArgument<I>,
    push: F,
) -> bool {
    match arg {
        Arg::Positional(value) => raw.name is None && is_encoded(raw.value, value@),
        Arg::Named(name, value) => raw.name == Some(name) && is_encoded(raw.value, value@),
        Arg::PositionalStream(stream) => raw.name is None && is_pushed(raw.value, stream, push),
        Arg::NamedStream(name, stream) => raw.name == Some(name) && is_pushed(
            raw.value,
            stream,
            push,
        ),
    }
}

/// The stream of an argument, if it has one.
pub open spec fn stream_of<S>(arg: Arg<S>) -> Option<S> {
    match arg {
        Arg::PositionalStream(stream) => Some(stream),
        Arg::NamedStream(_, stream) => Some(stream),
        _ => None,
    }
}

/// An argument whose stream `push` refused with this cause.
pub open spec fn refused<S, I, F: Fn(S) -> Result<I, String>>(
    arg: Arg<S>,
    cause: String,
    push: F,
) -> bool {
    stream_of(arg) matches Some(stream) && call_ensures(push, (stream,), Err::<I, String>(cause))
}

/// Turns one argument into the form that the guest receives. `push` registers a stream with the
/// instance and gives its handle.
pub fn lower_arg<S, I, F: Fn(S) -> Result<I, String>>(arg: Arg<S>, push: &F) -> (r: Result<
    RawArgument<I>,
    Error,
>)
    requires
        forall|stream: S| call_requires(*push, (stream,)),
    ensures
        match r {
            Ok(raw) => lowered(arg, raw, *push),
            Err(e) => e matches Error::Other(cause) && refused(arg, cause, *push),
        },
{
    match arg {
        Arg::Positional(value) => Ok(
            RawArgument { name: None, value: WasmValue::Cbor(value.into_cbor()) },
        ),
        Arg::Named(name, value) => Ok(
            RawArgument { name: Some(name), value: WasmValue::Cbor(value.into_cbor()) },
        ),
        Arg::PositionalStream(stream) => match push(stream) {
            Ok(handle) => Ok(
                RawArgument { name: None, value: WasmValue::CborIterator(handle) },
            ),
            Err(cause) => Err(Error::Other(cause)),
        },
        Arg::NamedStream(name, stream) => match push(stream) {
            Ok(handle) => Ok(
                RawArgument { name: Some(name), value: WasmValue::CborIterator(handle) },
            ),
            Err(cause) => Err(Error::Other(cause)),
        },
    }
}

/// An argument that has a form for the guest.
pub open spec fn accepted<S, I, F: Fn(S) -> Result<I, String>>(arg: Arg<S>, push: F) -> bool {
    exists|raw: RawArgument<I>| lowered(arg, raw, push)
}

/// What comes of turning the arguments of a call into the form that the guest receives: all of
/// them, in order, or the error of the first stream that `push` refused.
pub open spec fn args_lowered<S, I, F: Fn(S) -> Result<I, String>>(
    args: Seq<Arg<S>>,
    push: F,
    r: Result<Vec<RawArgument<I>>, Error>,
) -> bool {
    match r {
        Ok(raw) => {
            &&& raw@.len() == args.len()
            &&& forall|i: int| 0 <= i < args.len() ==> lowered(args[i], #[trigger] raw@[i], push)
        },
        Err(e) => e matches Error::Other(cause) && exists|i: int|
            0 <= i < args.len() && refused(#[trigger] args[i], cause, push) && forall|j: int|
                0 <= j < i ==> accepted(#[trigger] args[j], push),
    }
}

/// Turns the arguments of a call, in order, into the form that the guest receives. The first
/// stream that cannot be registered ends it with that error.
pub fn lower_args<S, I, F: Fn(S) -> Result<I, String>>(args: Vec<Arg<S>>, push: F) -> (r: Result<
    Vec<RawArgument<I>>,
    Error,
>)
    requires
        forall|stream: S| call_requires(push, (stream,)),
    ensures
        args_lowered(args@, push, r),
{
    let mut raw: Vec<RawArgument<I>> = Vec::new();
    for arg in it: args
        invariant
            it.seq() == args@,
            raw@.len() == it.index(),
            forall|stream: S| call_requires(push, (stream,)),
            forall|i: int|
                0 <= i < it.index() ==> lowered(args@[i], #[trigger] raw@[i], push),
    {
        assert(arg == args@[it.index() as int]);
        match lower_arg(arg, &push) {
            Ok(one) => {
                raw.push(one);
            },
            Err(e) => {
                proof {
                    assert forall|j: int| 0 <= j < it.index() implies accepted(
                        #[trigger] args@[j],
                        push,
                    ) by {
                        assert(lowered(args@[j], raw@[j], push));
                    }
                }
                return Err(e);
            },
        }
    }
    Ok(raw)
}

/// The outcome of a guest operation: an engine failure, then a failure that the guest reported,
/// then a failure to flush its logs.
pub open spec fn is_outcome(
    result: Result<Result<(), GuestError>, String>,
    flushed: Result<(), String>,
    outcome: Result<(), Error>,
) -> bool {
    match (result, flushed) {
        (Err(cause), _) => outcome == Err::<(), Error>(Error::Wasm(cause)),
        (Ok(Err(guest)), _) => match guest.code {
            ErrorCode::Aborted => outcome == Err::<(), Error>(
                Error::UserCode { message: guest.message },
            ),
            ErrorCode::Internal => outcome matches Err(Error::Other(text)) && text@
                == "[ErrorCode::Internal] "@ + guest.message@,
        },
        (Ok(Ok(_)), Err(cause)) => outcome == Err::<(), Error>(Error::Wasm(cause)),
        (Ok(Ok(_)), Ok(_)) => outcome is Ok,
    }
}

/// Sums up how a guest operation went.
pub fn finish_call(
    result: Result<Result<(), GuestError>, String>,
    flushed: Result<(), String>,
) -> (r: Result<(), Error>)
    ensures
        is_outcome(result, flushed, r),
{
    match result {
        Err(cause) => Err(Error::Wasm(cause)),
        Ok(Err(guest)) => Err(Error::from(guest)),
        Ok(Ok(())) => match flushed {
            Err(cause) => Err(Error::Wasm(cause)),
            Ok(()) => Ok(()),
        },
    }
}

/// Collected output from one call.
#[derive(Debug)]
pub struct CallOutput {
    /// Values yielded or explicitly emitted by the guest, in emission order.
    pub items: Vec<Value>,
    /// Final guest return value, or `None` when no final value was encoded.
    ///
    /// A guest-language `None` or `null` is an encoded CBOR value and is therefore represented as
    /// `Some(Value)`.
    pub result: Option<Value>,
}

/// Collected output by its bytes.
pub struct CallOutputView {
    pub items: Seq<Seq<u8>>,
    pub result: Option<Seq<u8>>,
}

impl View for CallOutput {
    type V = CallOutputView;

    open spec fn view(&self) -> CallOutputView {
        CallOutputView {
            items: self.items@.map_values(|v: Value| v@),
            result: match self.result {
                Some(v) => Some(v@),
                None => None,
            },
        }
    }
}

impl Default for CallOutput {
    fn default() -> (r: CallOutput)
        ensures
            r@ == (CallOutputView { items: Seq::empty(), result: None }),
    {
        let r = CallOutput { items: Vec::new(), result: None };
        proof {
            assert(r@.items =~= Seq::<Seq<u8>>::empty());
        }
        r
    }
}

} // verus!
