//! The context of an embedding program: its configuration, and the template that sandboxes are
//! made from.

use vstd::prelude::*;

use crate::keyed::{
    distinct_keys, effective, last_position_is, last_position_none, latest,
    merged_distinct, merged_effective, placed, text_entries, Entries,
};
use crate::ordered::{is_ordered_map, ordered};
use crate::sandbox::{
    clone_text, FsPerms, MountView, OptionsView,
    SandboxOptions, SandboxTemplateBuilder,
};
use crate::text::{concat2, concat3, join_path, joined, text_eq};

verus! {

/// Why a call of an embedding program fails.
#[derive(Debug)]
pub enum SdkError {
    /// The caller did something that is not possible now, or at all.
    InvalidArgument(String),
    /// Something failed inside.
    Internal(String),
}

impl SdkError {
    /// The text that describes the error.
    pub open spec fn text(self) -> Seq<char> {
        match self {
            SdkError::InvalidArgument(message) => message@,
            SdkError::Internal(message) => message@,
        }
    }

    /// The text that describes the error.
    pub fn message(&self) -> (r: &str)
        ensures
            r@ == self.text(),
    {
        match self {
            SdkError::InvalidArgument(message) => message.as_str(),
            SdkError::Internal(message) => message.as_str(),
        }
    }
}

/// The error of a caller, with this text.
pub open spec fn is_invalid<T>(r: Result<T, SdkError>, text: Seq<char>) -> bool {
    r matches Err(SdkError::InvalidArgument(message)) && message@ == text
}

/// An error inside, with this text.
pub open spec fn is_internal<T>(r: Result<T, SdkError>, text: Seq<char>) -> bool {
    r matches Err(SdkError::Internal(message)) && message@ == text
}

/// The error of a caller.
pub fn invalid_argument(message: &str) -> (r: SdkError)
    ensures
        r matches SdkError::InvalidArgument(text) && text@ == message@,
{
    SdkError::InvalidArgument(message.to_owned())
}

/// A mount that was configured.
#[derive(Debug)]
pub struct ConfiguredMount {
    pub host: String,
    pub guest: String,
    pub perms: FsPerms,
}

impl View for ConfiguredMount {
    type V = MountView;

    open spec fn view(&self) -> MountView {
        MountView { host: self.host@, guest: self.guest@, perms: self.perms }
    }
}

impl Clone for ConfiguredMount {
    fn clone(&self) -> (r: ConfiguredMount)
        ensures
            r == *self,
    {
        ConfiguredMount { host: self.host.clone(), guest: self.guest.clone(), perms: self.perms }
    }
}

/// The mounts of a list, each under its guest path.
pub open spec fn configured_entries(mounts: Seq<ConfiguredMount>) -> Entries<MountView> {
    mounts.map_values(|mount: ConfiguredMount| (mount.guest@, mount@))
}

/// Copies a list of mounts.
fn clone_configured(mounts: &Vec<ConfiguredMount>) -> (r: Vec<ConfiguredMount>)
    ensures
        r@ == mounts@,
{
    let mut out: Vec<ConfiguredMount> = Vec::new();
    let mut i: usize = 0;
    while i < mounts.len()
        invariant
            i <= mounts@.len(),
            out@ == mounts@.take(i as int),
        decreases mounts@.len() - i,
    {
        out.push(mounts[i].clone());
        proof {
            assert(out@ =~= mounts@.take(i + 1));
        }
        i = i + 1;
    }
    proof {
        assert(mounts@.take(i as int) =~= mounts@);
    }
    out
}

/// The language that a runtime executes.
#[derive(Debug, Clone, Copy, PartialEq, Eq, Structural)]
pub enum RuntimeFlavor {
    Python,
    Js,
}

impl RuntimeFlavor {
    /// The runtime of a name.
    pub fn parse(name: &str) -> (r: Result<RuntimeFlavor, SdkError>)
        ensures
            if name@ == "python"@ {
                r == Ok::<RuntimeFlavor, SdkError>(RuntimeFlavor::Python)
            } else if name@ == "js"@ {
                r == Ok::<RuntimeFlavor, SdkError>(RuntimeFlavor::Js)
            } else {
                is_invalid(
                    r,
                    "unsupported runtime '"@ + name@ + "', expected 'python' or 'js'"@,
                )
            },
    {
        if text_eq(name, "python") {
            Ok(RuntimeFlavor::Python)
        } else if text_eq(name, "js") {
            Ok(RuntimeFlavor::Js)
        } else {
            let message = concat3(
                "unsupported runtime '",
                name,
                "', expected 'python' or 'js'",
            );
            Err(SdkError::InvalidArgument(message))
        }
    }

    /// The file of the runtime.
    pub open spec fn file(self) -> Seq<char> {
        match self {
            RuntimeFlavor::Python => "python.wasm"@,
            RuntimeFlavor::Js => "js.wasm"@,
        }
    }

    /// The file of the runtime.
    pub fn bundle_file(self) -> (r: &'static str)
        ensures
            r@ == self.file(),
    {
        match self {
            RuntimeFlavor::Python => "python.wasm",
            RuntimeFlavor::Js => "js.wasm",
        }
    }

    /// Whether the runtime needs its library mounted.
    pub fn uses_runtime_lib_mount(self) -> (r: bool)
        ensures
            r == (self == RuntimeFlavor::Python),
    {
        match self {
            RuntimeFlavor::Python => true,
            RuntimeFlavor::Js => false,
        }
    }
}

/// Where compiled artifacts are cached.
#[derive(Debug)]
pub enum CacheDirConfig {
    /// Beside the runtime.
    Auto,
    /// Nowhere.
    Disabled,
    /// Here.
    Custom(String),
}

/// What the templates of a context are made with.
#[derive(Debug)]
pub struct ContextConfig {
    pub cache_dir: CacheDirConfig,
    pub max_memory: Option<usize>,
    pub prelude: Option<String>,
    pub runtime_lib_dir: Option<String>,
    pub mounts: Vec<ConfiguredMount>,
    pub env: Vec<(String, String)>,
}

impl Default for ContextConfig {
    fn default() -> (r: ContextConfig)
        ensures
            r.cache_dir is Auto,
            r.max_memory is None,
            r.prelude is None,
            r.runtime_lib_dir is None,
            r.mounts@ == Seq::<ConfiguredMount>::empty(),
            r.env@ == Seq::<(String, String)>::empty(),
    {
        ContextConfig {
            cache_dir: CacheDirConfig::Auto,
            max_memory: None,
            prelude: None,
            runtime_lib_dir: None,
            mounts: Vec::new(),
            env: Vec::new(),
        }
    }
}

/// What a sandbox will be started with.
#[derive(Debug)]
pub struct PendingSandboxConfig {
    pub max_memory: Option<usize>,
    pub mounts: Vec<ConfiguredMount>,
    pub env: Vec<(String, String)>,
}

impl Default for PendingSandboxConfig {
    fn default() -> (r: PendingSandboxConfig)
        ensures
            r.max_memory is None,
            r.mounts@ == Seq::<ConfiguredMount>::empty(),
            r.env@ == Seq::<(String, String)>::empty(),
    {
        PendingSandboxConfig { max_memory: None, mounts: Vec::new(), env: Vec::new() }
    }
}

/// What may be done in a mounted directory, as it is written in a configuration.
#[derive(Debug, Clone, Copy, PartialEq, Eq, Structural)]
pub enum PermissionConfig {
    Read,
    Write,
    ReadWrite,
}

/// A mount as it is written in a configuration.
#[derive(Debug)]
pub struct MountConfigInput {
    pub host: String,
    pub guest: String,
    pub dir_perms: Option<PermissionConfig>,
    pub file_perms: Option<PermissionConfig>,
}

/// A change of a context's configuration. What is `None` stays; what is `Some(None)` is unset.
#[derive(Debug)]
pub struct ContextConfigPatch {
    pub cache_dir: Option<Option<String>>,
    pub max_memory: Option<Option<u64>>,
    pub prelude: Option<Option<String>>,
    pub runtime_lib_dir: Option<Option<String>>,
    pub mounts: Option<Vec<MountConfigInput>>,
    pub env: Option<Vec<(String, String)>>,
}

/// A change of a sandbox's configuration. What is `None` stays; what is `Some(None)` is unset.
#[derive(Debug)]
pub struct SandboxConfigPatch {
    pub max_memory: Option<Option<u64>>,
    pub mounts: Option<Vec<MountConfigInput>>,
    pub env: Option<Vec<(String, String)>>,
}

/// Whether a permission allows writing.
pub open spec fn allows_writing(perms: Option<PermissionConfig>) -> bool {
    perms == Some(PermissionConfig::Write) || perms == Some(PermissionConfig::ReadWrite)
}

/// The permissions of a mount: writing is allowed where it is for directories or for files.
pub open spec fn input_perms(input: MountConfigInput) -> FsPerms {
    if allows_writing(input.dir_perms) || allows_writing(input.file_perms) {
        FsPerms::ReadWrite
    } else {
        FsPerms::ReadOnly
    }
}

/// The mount that is meant.
pub open spec fn input_mount(input: MountConfigInput) -> ConfiguredMount {
    ConfiguredMount { host: input.host, guest: input.guest, perms: input_perms(input) }
}

/// Whether a mount names both paths.
pub open spec fn is_complete(input: MountConfigInput) -> bool {
    input.host@.len() > 0 && input.guest@.len() > 0
}

/// The first mount that does not name both paths.
pub open spec fn first_incomplete(inputs: Seq<MountConfigInput>, i: int) -> bool {
    &&& 0 <= i < inputs.len()
    &&& !is_complete(inputs[i])
    &&& forall|k: int| 0 <= k < i ==> is_complete(#[trigger] inputs[k])
}

/// Whether all mounts name both paths.
pub open spec fn all_complete(inputs: Seq<MountConfigInput>) -> bool {
    forall|k: int| 0 <= k < inputs.len() ==> is_complete(#[trigger] inputs[k])
}

/// What is said of a mount that does not name both paths.
pub open spec fn incomplete_text(input: MountConfigInput) -> Seq<char> {
    if input.host@.len() == 0 {
        "mount host path must not be empty"@
    } else {
        "mount guest path must not be empty"@
    }
}

/// The error for the first mount that does not name both paths.
pub open spec fn refuses_mounts<T>(inputs: Seq<MountConfigInput>, r: Result<T, SdkError>) -> bool {
    exists|i: int| #[trigger]
        first_incomplete(inputs, i) && is_invalid(r, incomplete_text(inputs[i]))
}

/// Whether a text is empty.
fn is_blank(text: &String) -> (r: bool)
    ensures
        r == (text@.len() == 0),
{
    let r = text_eq(text.as_str(), "");
    proof {
        reveal_strlit("");
        if text@.len() == 0 {
            assert(text@ =~= ""@);
        }
    }
    r
}

/// Whether a permission allows writing.
fn can_write(perms: Option<PermissionConfig>) -> (r: bool)
    ensures
        r == allows_writing(perms),
{
    match perms {
        Some(PermissionConfig::Write) | Some(PermissionConfig::ReadWrite) => true,
        _ => false,
    }
}

/// Takes the mounts of a configuration, each of which names both paths.
pub fn parse_mounts(mounts: Vec<MountConfigInput>) -> (r: Result<Vec<ConfiguredMount>, SdkError>)
    ensures
        match r {
            Ok(parsed) => all_complete(mounts@) && parsed@ == mounts@.map_values(
                |input: MountConfigInput| input_mount(input),
            ),
            Err(_) => refuses_mounts(mounts@, r),
        },
{
    let ghost all = mounts@.map_values(|input: MountConfigInput| input_mount(input));
    let mut parsed: Vec<ConfiguredMount> = Vec::new();
    for mount in it: mounts
        invariant
            it.seq() == mounts@,
            all == mounts@.map_values(|input: MountConfigInput| input_mount(input)),
            parsed@ == all.take(it.index() as int),
            forall|k: int| 0 <= k < it.index() ==> is_complete(#[trigger] mounts@[k]),
    {
        let ghost n = it.index() as int;
        if is_blank(&mount.host) {
            proof {
                assert(first_incomplete(mounts@, n));
            }
            return Err(invalid_argument("mount host path must not be empty"));
        }
        if is_blank(&mount.guest) {
            proof {
                assert(first_incomplete(mounts@, n));
            }
            return Err(invalid_argument("mount guest path must not be empty"));
        }
        let perms = if can_write(mount.dir_perms) || can_write(mount.file_perms) {
            FsPerms::ReadWrite
        } else {
            FsPerms::ReadOnly
        };
        proof {
            assert(all.take(n + 1) =~= all.take(n).push(input_mount(mount)));
        }
        parsed.push(ConfiguredMount { host: mount.host, guest: mount.guest, perms });
    }
    proof {
        assert(all.take(all.len() as int) =~= all);
    }
    Ok(parsed)
}

/// The memory limit after a change.
pub open spec fn patched_memory(current: Option<usize>, patch: Option<Option<u64>>) -> Option<
    usize,
> {
    match patch {
        None => current,
        Some(None) => None,
        Some(Some(limit)) => Some(limit as usize),
    }
}

/// Whether a memory limit can be counted here.
pub open spec fn memory_fits(patch: Option<Option<u64>>) -> bool {
    patch matches Some(Some(limit)) ==> limit <= usize::MAX
}

/// The memory limit of a configuration.
fn parse_memory(max_memory: Option<u64>) -> (r: Result<Option<usize>, SdkError>)
    ensures
        if memory_fits(Some(max_memory)) {
            r == Ok::<Option<usize>, SdkError>(patched_memory(None, Some(max_memory)))
        } else {
            is_invalid(r, "max_memory exceeds usize"@)
        },
{
    match max_memory {
        None => Ok(None),
        Some(limit) => if limit <= usize::MAX as u64 {
            Ok(Some(limit as usize))
        } else {
            Err(invalid_argument("max_memory exceeds usize"))
        },
    }
}

/// A list of mounts after a change.
pub open spec fn patched_mounts(
    current: Seq<ConfiguredMount>,
    patch: Option<Vec<MountConfigInput>>,
) -> Seq<ConfiguredMount> {
    match patch {
        None => current,
        Some(inputs) => inputs@.map_values(|input: MountConfigInput| input_mount(input)),
    }
}

/// The environment after a change: in the order of the names, each with the value that the change
/// gives it last.
pub open spec fn env_patched(
    current: Seq<(String, String)>,
    patch: Option<Vec<(String, String)>>,
    after: Seq<(String, String)>,
) -> bool {
    match patch {
        None => after == current,
        Some(env) => is_ordered_map(text_entries(env@), text_entries(after)),
    }
}

/// How a change of a sandbox's configuration goes. A part that is refused leaves those after it
/// as they were.
pub open spec fn sandbox_patched(
    before: PendingSandboxConfig,
    patch: SandboxConfigPatch,
    after: PendingSandboxConfig,
    r: Result<(), SdkError>,
) -> bool {
    if !memory_fits(patch.max_memory) {
        is_invalid(r, "max_memory exceeds usize"@) && after == before
    } else {
        &&& after.max_memory == patched_memory(before.max_memory, patch.max_memory)
        &&& if patch.mounts matches Some(inputs) && !all_complete(inputs@) {
            refuses_mounts(patch.mounts->0@, r) && after.mounts == before.mounts && after.env
                == before.env
        } else {
            &&& r is Ok
            &&& after.mounts@ == patched_mounts(before.mounts@, patch.mounts)
            &&& env_patched(before.env@, patch.env, after.env@)
        }
    }
}

impl PendingSandboxConfig {
    /// The options that the sandbox is started with.
    pub fn to_options(&self) -> (r: SandboxOptions)
        ensures
            r@ == (OptionsView {
                max_memory: self.max_memory,
                mounts: configured_entries(self.mounts@),
                env: latest(text_entries(self.env@)),
            }),
    {
        let mut options = SandboxOptions::default();
        if let Some(max_memory) = self.max_memory {
            options = options.max_memory(max_memory);
        }
        proof {
            assert(configured_entries(self.mounts@.take(0)) =~= Seq::empty());
            assert(text_entries(self.env@.take(0)) =~= Seq::empty());
        }
        let mut i: usize = 0;
        while i < self.mounts.len()
            invariant
                i <= self.mounts@.len(),
                options@ == (OptionsView {
                    max_memory: self.max_memory,
                    mounts: configured_entries(self.mounts@.take(i as int)),
                    env: Seq::empty(),
                }),
            decreases self.mounts@.len() - i,
        {
            let mapping = &self.mounts[i];
            options = options.mount(mapping.host.as_str(), mapping.guest.as_str(), mapping.perms);
            proof {
                assert(configured_entries(self.mounts@.take(i + 1)) =~= configured_entries(
                    self.mounts@.take(i as int),
                ).push((mapping.guest@, mapping@)));
            }
            i = i + 1;
        }
        proof {
            assert(self.mounts@.take(i as int) =~= self.mounts@);
            assert(text_entries(self.env@.take(0)) =~= Seq::empty());
        }
        let mut k: usize = 0;
        while k < self.env.len()
            invariant
                k <= self.env@.len(),
                options@ == (OptionsView {
                    max_memory: self.max_memory,
                    mounts: configured_entries(self.mounts@),
                    env: latest(text_entries(self.env@.take(k as int))),
                }),
            decreases self.env@.len() - k,
        {
            options = options.env(self.env[k].0.as_str(), self.env[k].1.as_str());
            proof {
                let taken = text_entries(self.env@.take(k + 1));
                assert(taken.drop_last() =~= text_entries(self.env@.take(k as int)));
                assert(taken.last() == text_entries(self.env@)[k as int]);
            }
            k = k + 1;
        }
        proof {
            assert(self.env@.take(k as int) =~= self.env@);
        }
        options
    }

    /// Changes the configuration, part by part.
    pub fn apply_patch(&mut self, patch: SandboxConfigPatch) -> (r: Result<(), SdkError>)
        ensures
            sandbox_patched(*old(self), patch, *final(self), r),
    {
        if let Some(max_memory) = patch.max_memory {
            match parse_memory(max_memory) {
                Ok(limit) => {
                    self.max_memory = limit;
                },
                Err(e) => {
                    return Err(e);
                },
            }
        }
        if let Some(mounts) = patch.mounts {
            match parse_mounts(mounts) {
                Ok(parsed) => {
                    self.mounts = parsed;
                },
                Err(e) => {
                    return Err(e);
                },
            }
        }
        if let Some(env) = patch.env {
            self.env = ordered(env);
        }
        Ok(())
    }
}

/// The cache directory after a change.
pub open spec fn patched_cache(
    current: CacheDirConfig,
    patch: Option<Option<String>>,
) -> CacheDirConfig {
    match patch {
        None => current,
        Some(None) => CacheDirConfig::Disabled,
        Some(Some(path)) => CacheDirConfig::Custom(path),
    }
}

/// A text that may be unset, after a change.
pub open spec fn patched_text(current: Option<String>, patch: Option<Option<String>>) -> Option<
    String,
> {
    match patch {
        None => current,
        Some(text) => text,
    }
}

/// How a change of a context's configuration goes. A part that is refused leaves those after it
/// as they were.
pub open spec fn config_patched(
    before: ContextConfig,
    patch: ContextConfigPatch,
    after: ContextConfig,
    r: Result<(), SdkError>,
) -> bool {
    &&& after.cache_dir == patched_cache(before.cache_dir, patch.cache_dir)
    &&& if !memory_fits(patch.max_memory) {
        &&& is_invalid(r, "max_memory exceeds usize"@)
        &&& after == (ContextConfig { cache_dir: after.cache_dir, ..before })
    } else {
        &&& after.max_memory == patched_memory(before.max_memory, patch.max_memory)
        &&& after.prelude == patched_text(before.prelude, patch.prelude)
        &&& after.runtime_lib_dir == patched_text(before.runtime_lib_dir, patch.runtime_lib_dir)
        &&& if patch.mounts matches Some(inputs) && !all_complete(inputs@) {
            refuses_mounts(patch.mounts->0@, r) && after.mounts == before.mounts && after.env
                == before.env
        } else {
            &&& r is Ok
            &&& after.mounts@ == patched_mounts(before.mounts@, patch.mounts)
            &&& env_patched(before.env@, patch.env, after.env@)
        }
    }
}

impl ContextConfig {
    /// Changes the configuration, part by part.
    pub fn apply_patch(&mut self, patch: ContextConfigPatch) -> (r: Result<(), SdkError>)
        ensures
            config_patched(*old(self), patch, *final(self), r),
    {
        if let Some(cache_dir) = patch.cache_dir {
            self.cache_dir = match cache_dir {
                None => CacheDirConfig::Disabled,
                Some(path) => CacheDirConfig::Custom(path),
            };
        }
        if let Some(max_memory) = patch.max_memory {
            match parse_memory(max_memory) {
                Ok(limit) => {
                    self.max_memory = limit;
                },
                Err(e) => {
                    return Err(e);
                },
            }
        }
        if let Some(prelude) = patch.prelude {
            self.prelude = prelude;
        }
        if let Some(runtime_lib_dir) = patch.runtime_lib_dir {
            self.runtime_lib_dir = runtime_lib_dir;
        }
        if let Some(mounts) = patch.mounts {
            match parse_mounts(mounts) {
                Ok(parsed) => {
                    self.mounts = parsed;
                },
                Err(e) => {
                    return Err(e);
                },
            }
        }
        if let Some(env) = patch.env {
            self.env = ordered(env);
        }
        Ok(())
    }
}

/// Puts one mount into a list: over the one at the same guest path, or at the end.
fn place_configured(mounts: &mut Vec<ConfiguredMount>, mount: ConfiguredMount)
    ensures
        configured_entries(final(mounts)@) == placed(
            configured_entries(old(mounts)@),
            mount.guest@,
            mount@,
        ),
{
    let ghost before = configured_entries(mounts@);
    let mut i: usize = mounts.len();
    while i > 0
        invariant
            i <= mounts@.len(),
            mounts@ == old(mounts)@,
            before == configured_entries(mounts@),
            forall|j: int| i <= j < mounts@.len() ==> (#[trigger] before[j]).0 != mount.guest@,
        decreases i,
    {
        i = i - 1;
        assert(before[i as int] == (mounts@[i as int].guest@, mounts@[i as int]@));
        if text_eq(mounts[i].guest.as_str(), mount.guest.as_str()) {
            proof {
                last_position_is(before, mount.guest@, i as int);
            }
            mounts.set(i, mount);
            proof {
                assert(configured_entries(mounts@) =~= before.update(
                    i as int,
                    (mount.guest@, mount@),
                ));
            }
            return;
        }
    }
    proof {
        last_position_none(before, mount.guest@);
    }
    mounts.push(mount);
    proof {
        assert(configured_entries(mounts@) =~= before.push((mount.guest@, mount@)));
    }
}

/// Mounts of which a later one replaces an earlier one at the same guest path, in its place.
pub open spec fn deduped(mounts: Entries<MountView>) -> Entries<MountView> {
    latest(mounts)
}

/// Keeps one mount for each guest path: the last one, in the place of the first.
pub fn dedupe_mounts_by_guest(mounts: Vec<ConfiguredMount>) -> (r: Vec<ConfiguredMount>)
    ensures
        configured_entries(r@) == deduped(configured_entries(mounts@)),
        distinct_keys(configured_entries(r@)),
{
    let ghost all = configured_entries(mounts@);
    let mut kept: Vec<ConfiguredMount> = Vec::new();
    proof {
        assert(configured_entries(kept@) =~= Seq::empty());
        assert(all.take(0) =~= Seq::empty());
    }
    for mount in it: mounts
        invariant
            it.seq() == mounts@,
            all == configured_entries(mounts@),
            configured_entries(kept@) == deduped(all.take(it.index() as int)),
    {
        proof {
            let taken = all.take(it.index() + 1);
            assert(taken.drop_last() =~= all.take(it.index() as int));
            assert(taken.last() == (mount.guest@, mount@));
        }
        place_configured(&mut kept, mount);
    }
    proof {
        assert(all.take(all.len() as int) =~= all);
        merged_distinct(Seq::<(Seq<char>, MountView)>::empty(), all);
    }
    kept
}

/// The library directory inside the dependencies of a runtime.
pub open spec fn bundled_lib_dir(template_parent: Seq<char>) -> Seq<char> {
    joined(
        joined(
            joined(joined(joined(template_parent, "wasm32-wasip2"@), "wasi-deps"@), "usr"@),
            "local"@,
        ),
        "lib"@,
    )
}

/// Where the library of the runtime lies: where the configuration says, else in the runtime that
/// the environment names, else beside the template.
pub open spec fn runtime_lib(
    template_parent: Seq<char>,
    configured: Option<String>,
    environment: Option<String>,
) -> Seq<char> {
    match configured {
        Some(path) => path@,
        None => match environment {
            Some(runtime) => joined(runtime@, "lib"@),
            None => bundled_lib_dir(template_parent),
        },
    }
}

/// Where the library of the runtime lies. `environment` is the value of `WASI_PYTHON_RUNTIME`.
pub fn resolve_runtime_lib_dir(
    template_parent: &str,
    runtime_lib_dir: Option<String>,
    environment: Option<String>,
) -> (r: String)
    ensures
        r@ == runtime_lib(template_parent@, runtime_lib_dir, environment),
{
    if let Some(path) = runtime_lib_dir {
        return path;
    }
    match environment {
        None => {
            let target = join_path(template_parent, "wasm32-wasip2");
            let deps = join_path(target.as_str(), "wasi-deps");
            let usr = join_path(deps.as_str(), "usr");
            let local = join_path(usr.as_str(), "local");
            join_path(local.as_str(), "lib")
        },
        Some(runtime) => join_path(runtime.as_str(), "lib"),
    }
}

/// The mounts of a template: the library of the runtime where it needs one, then those that are
/// configured, which may replace it.
pub open spec fn template_mounts(
    config: ContextConfig,
    parent: Seq<char>,
    runtime: RuntimeFlavor,
    environment: Option<String>,
) -> Entries<MountView> {
    let configured = configured_entries(config.mounts@);
    if runtime == RuntimeFlavor::Python {
        let host = runtime_lib(parent, config.runtime_lib_dir, environment);
        deduped(
            seq![
                ("/lib"@, MountView { host, guest: "/lib"@, perms: FsPerms::ReadOnly }),
            ] + configured,
        )
    } else {
        deduped(configured)
    }
}

/// The cache directory of a template.
pub open spec fn is_template_cache(
    config: CacheDirConfig,
    parent: Seq<char>,
    cache: Option<String>,
) -> bool {
    match config {
        CacheDirConfig::Auto => cache matches Some(path) && path@ == joined(parent, "cache"@),
        CacheDirConfig::Disabled => cache is None,
        CacheDirConfig::Custom(path) => cache == Some(path),
    }
}

/// A template that is to be built.
#[derive(Debug)]
pub struct TemplatePlan {
    /// The file of the runtime.
    pub wasm_path: String,
    /// What the template is built with.
    pub builder: SandboxTemplateBuilder,
}

/// What a template is built with.
pub open spec fn is_template_plan(
    config: ContextConfig,
    runtime_path: Seq<char>,
    runtime: RuntimeFlavor,
    environment: Option<String>,
    plan: TemplatePlan,
) -> bool {
    &&& plan.wasm_path@ == joined(runtime_path, runtime.file())
    &&& plan.builder.prelude == config.prelude
    &&& is_template_cache(config.cache_dir, runtime_path, plan.builder.cache)
    &&& plan.builder.base_options@ == (OptionsView {
        max_memory: config.max_memory,
        mounts: template_mounts(config, runtime_path, runtime, environment),
        env: latest(text_entries(config.env@)),
    })
}

/// The state of a context: its configuration, and its template once there is one.
#[derive(Debug)]
pub struct ContextInner<T> {
    pub config: ContextConfig,
    pub template: Option<T>,
}

impl<T> ContextInner<T> {
    /// A context as it starts.
    pub fn new() -> (r: ContextInner<T>)
        ensures
            r.template is None,
            r.config.cache_dir is Auto,
            r.config.max_memory is None,
            r.config.prelude is None,
            r.config.runtime_lib_dir is None,
            r.config.mounts@ == Seq::<ConfiguredMount>::empty(),
            r.config.env@ == Seq::<(String, String)>::empty(),
    {
        ContextInner { config: ContextConfig::default(), template: None }
    }

    /// Adds mounts and variables to a template.
    fn with_mounts_and_env(
        builder: SandboxTemplateBuilder,
        mounts: &Vec<ConfiguredMount>,
        env: &Vec<(String, String)>,
    ) -> (r: SandboxTemplateBuilder)
        requires
            builder.base_options@.mounts.len() == 0,
            builder.base_options@.env.len() == 0,
        ensures
            r.cache == builder.cache,
            r.prelude == builder.prelude,
            r.base_options@ == (OptionsView {
                max_memory: builder.base_options@.max_memory,
                mounts: configured_entries(mounts@),
                env: latest(text_entries(env@)),
            }),
    {
        let ghost start = builder;
        let mut builder = builder;
        proof {
            assert(configured_entries(mounts@.take(0)) =~= builder.base_options@.mounts);
            assert(text_entries(env@.take(0)) =~= Seq::empty());
            assert(builder.base_options@.env =~= Seq::empty());
        }
        let mut i: usize = 0;
        while i < mounts.len()
            invariant
                i <= mounts@.len(),
                builder.cache == start.cache,
                builder.prelude == start.prelude,
                builder.base_options@ == (OptionsView {
                    max_memory: start.base_options@.max_memory,
                    mounts: configured_entries(mounts@.take(i as int)),
                    env: Seq::empty(),
                }),
            decreases mounts@.len() - i,
        {
            let mapping = &mounts[i];
            builder = builder.mount(mapping.host.as_str(), mapping.guest.as_str(), mapping.perms);
            proof {
                assert(configured_entries(mounts@.take(i + 1)) =~= configured_entries(
                    mounts@.take(i as int),
                ).push((mapping.guest@, mapping@)));
            }
            i = i + 1;
        }
        proof {
            assert(mounts@.take(i as int) =~= mounts@);
        }
        let mut k: usize = 0;
        while k < env.len()
            invariant
                k <= env@.len(),
                builder.cache == start.cache,
                builder.prelude == start.prelude,
                builder.base_options@ == (OptionsView {
                    max_memory: start.base_options@.max_memory,
                    mounts: configured_entries(mounts@),
                    env: latest(text_entries(env@.take(k as int))),
                }),
            decreases env@.len() - k,
        {
            builder = builder.env(env[k].0.as_str(), env[k].1.as_str());
            proof {
                let taken = text_entries(env@.take(k + 1));
                assert(taken.drop_last() =~= text_entries(env@.take(k as int)));
                assert(taken.last() == text_entries(env@)[k as int]);
            }
            k = k + 1;
        }
        proof {
            assert(env@.take(k as int) =~= env@);
        }
        builder
    }

    /// Plans the template of a runtime, unless there is a template already. `environment` is the
    /// value of `WASI_PYTHON_RUNTIME`.
    pub fn plan_template(
        &self,
        runtime_path: &str,
        runtime: RuntimeFlavor,
        environment: Option<String>,
    ) -> (r: Result<TemplatePlan, SdkError>)
        ensures
            match self.template {
                Some(_) => is_invalid(r, "context template already initialized"@),
                None => r matches Ok(plan) && is_template_plan(
                    self.config,
                    runtime_path@,
                    runtime,
                    environment,
                    plan,
                ),
            },
    {
        let wasm_path = join_path(runtime_path, runtime.bundle_file());
        if self.template.is_some() {
            return Err(invalid_argument("context template already initialized"));
        }
        let mut builder = SandboxTemplateBuilder::default();
        builder = builder.prelude(clone_text(&self.config.prelude));
        if let Some(max_memory) = self.config.max_memory {
            builder = builder.max_memory(max_memory);
        }
        builder = match &self.config.cache_dir {
            CacheDirConfig::Auto => builder.cache(Some(join_path(runtime_path, "cache"))),
            CacheDirConfig::Disabled => builder.cache(None),
            CacheDirConfig::Custom(path) => builder.cache(Some(path.clone())),
        };
        let mut mounts = clone_configured(&self.config.mounts);
        if runtime.uses_runtime_lib_mount() {
            let host = resolve_runtime_lib_dir(
                runtime_path,
                clone_text(&self.config.runtime_lib_dir),
                environment,
            );
            let lib = ConfiguredMount {
                host,
                guest: "/lib".to_owned(),
                perms: FsPerms::ReadOnly,
            };
            let ghost lib_view = lib@;
            mounts.insert(0, lib);
            proof {
                assert(configured_entries(mounts@) =~= seq![("/lib"@, lib_view)]
                    + configured_entries(self.config.mounts@));
            }
        }
        let mounts = dedupe_mounts_by_guest(mounts);
        let builder = Self::with_mounts_and_env(builder, &mounts, &self.config.env);
        Ok(TemplatePlan { wasm_path, builder })
    }

    /// Takes the template that was built, unless another was taken meanwhile.
    pub fn accept_template(&mut self, built: Result<T, String>) -> (r: Result<(), SdkError>)
        ensures
            final(self).config == old(self).config,
            match built {
                Err(message) => is_internal(
                    r,
                    "Failed to load runtime template: "@ + message@,
                ) && final(self).template == old(self).template,
                Ok(template) => match old(self).template {
                    Some(_) => is_invalid(r, "context template already initialized"@)
                        && final(self).template == old(self).template,
                    None => r is Ok && final(self).template == Some(template),
                },
            },
    {
        match built {
            Err(message) => Err(
                SdkError::Internal(
                    concat2("Failed to load runtime template: ", message.as_str()),
                ),
            ),
            Ok(template) => {
                if self.template.is_some() {
                    return Err(invalid_argument("context template already initialized"));
                }
                self.template = Some(template);
                Ok(())
            },
        }
    }

    /// Whether there is a template.
    pub fn has_template(&self) -> (r: bool)
        ensures
            r == (self.template is Some),
    {
        self.template.is_some()
    }
}

/// What comes of creating an instance of a template.
pub fn instantiated<S>(created: Result<S, String>) -> (r: Result<S, SdkError>)
    ensures
        match created {
            Ok(sandbox) => r == Ok::<S, SdkError>(sandbox),
            Err(message) => is_internal(r, "Failed to create instance: "@ + message@),
        },
{
    match created {
        Ok(sandbox) => Ok(sandbox),
        Err(message) => Err(
            SdkError::Internal(concat2("Failed to create instance: ", message.as_str())),
        ),
    }
}

/// A context in the hands of an embedding program, which may close it. A template that is being
/// built while the context is closed is still taken.
#[derive(Debug)]
pub struct ContextCore<T> {
    pub inner: ContextInner<T>,
    pub closed: bool,
}

impl<T> ContextCore<T> {
    /// A context as it starts.
    pub fn new() -> (r: ContextCore<T>)
        ensures
            !r.closed,
            r.inner.template is None,
            r.inner.config.cache_dir is Auto,
            r.inner.config.max_memory is None,
            r.inner.config.prelude is None,
            r.inner.config.runtime_lib_dir is None,
            r.inner.config.mounts@ == Seq::<ConfiguredMount>::empty(),
            r.inner.config.env@ == Seq::<(String, String)>::empty(),
    {
        ContextCore { inner: ContextInner::new(), closed: false }
    }

    /// The state of the context, unless it is closed.
    pub fn inner_ref(&self) -> (r: Result<&ContextInner<T>, SdkError>)
        ensures
            if self.closed {
                is_invalid(r, "context is closed"@)
            } else {
                r == Ok::<&ContextInner<T>, SdkError>(&self.inner)
            },
    {
        if self.closed {
            return Err(invalid_argument("context is closed"));
        }
        Ok(&self.inner)
    }

    /// Changes the configuration, as long as there is no template.
    pub fn configure(&mut self, patch: ContextConfigPatch) -> (r: Result<(), SdkError>)
        ensures
            final(self).closed == old(self).closed,
            final(self).inner.template == old(self).inner.template,
            if old(self).closed {
                is_invalid(r, "context is closed"@) && final(self).inner == old(self).inner
            } else if old(self).inner.template is Some {
                is_invalid(r, "context template already initialized"@) && final(self).inner
                    == old(self).inner
            } else {
                config_patched(old(self).inner.config, patch, final(self).inner.config, r)
            },
    {
        if self.closed {
            return Err(invalid_argument("context is closed"));
        }
        if self.inner.template.is_some() {
            return Err(invalid_argument("context template already initialized"));
        }
        self.inner.config.apply_patch(patch)
    }

    /// Plans the template of a runtime, by default of Python. What is built of the plan goes to
    /// [`ContextCore::finish_template`].
    pub fn initialize_template(
        &self,
        runtime_path: &str,
        runtime_name: Option<&str>,
        environment: Option<String>,
    ) -> (r: Result<TemplatePlan, SdkError>)
        ensures
            ({
                let name = match runtime_name {
                    Some(name) => name@,
                    None => "python"@,
                };
                if self.closed {
                    is_invalid(r, "context is closed"@)
                } else if name != "python"@ && name != "js"@ {
                    is_invalid(
                        r,
                        "unsupported runtime '"@ + name + "', expected 'python' or 'js'"@,
                    )
                } else if self.inner.template is Some {
                    is_invalid(r, "context template already initialized"@)
                } else {
                    r matches Ok(plan) && is_template_plan(
                        self.inner.config,
                        runtime_path@,
                        if name == "python"@ {
                            RuntimeFlavor::Python
                        } else {
                            RuntimeFlavor::Js
                        },
                        environment,
                        plan,
                    )
                }
            }),
    {
        let inner = match self.inner_ref() {
            Ok(inner) => inner,
            Err(e) => {
                return Err(e);
            },
        };
        let runtime_name = match runtime_name {
            Some(name) => name,
            None => "python",
        };
        match RuntimeFlavor::parse(runtime_name) {
            Ok(runtime) => inner.plan_template(runtime_path, runtime, environment),
            Err(e) => Err(e),
        }
    }

    /// Takes the template that was built.
    pub fn finish_template(&mut self, built: Result<T, String>) -> (r: Result<(), SdkError>)
        ensures
            final(self).closed == old(self).closed,
            final(self).inner.config == old(self).inner.config,
            match built {
                Err(message) => is_internal(
                    r,
                    "Failed to load runtime template: "@ + message@,
                ) && final(self).inner.template == old(self).inner.template,
                Ok(template) => match old(self).inner.template {
                    Some(_) => is_invalid(r, "context template already initialized"@)
                        && final(self).inner.template == old(self).inner.template,
                    None => r is Ok && final(self).inner.template == Some(template),
                },
            },
    {
        self.inner.accept_template(built)
    }

    /// The template that a new sandbox is made from.
    pub fn instantiate(&self) -> (r: Result<&T, SdkError>)
        ensures
            if self.closed {
                is_invalid(r, "context is closed"@)
            } else {
                match self.inner.template {
                    Some(template) => r == Ok::<&T, SdkError>(&template),
                    None => is_invalid(r, "runtime template not initialized"@),
                }
            },
    {
        let inner = match self.inner_ref() {
            Ok(inner) => inner,
            Err(e) => {
                return Err(e);
            },
        };
        match &inner.template {
            Some(template) => Ok(template),
            None => Err(invalid_argument("runtime template not initialized")),
        }
    }

    /// Closes the context.
    pub fn close(&mut self)
        ensures
            final(self).closed,
            final(self).inner == old(self).inner,
    {
        self.closed = true;
    }
}

/// A template mounts nothing twice.
pub proof fn template_mounts_are_distinct(
    config: ContextConfig,
    parent: Seq<char>,
    runtime: RuntimeFlavor,
    environment: Option<String>,
)
    ensures
        distinct_keys(template_mounts(config, parent, runtime, environment)),
{
    let configured = configured_entries(config.mounts@);
    let host = runtime_lib(parent, config.runtime_lib_dir, environment);
    let lib = ("/lib"@, MountView { host, guest: "/lib"@, perms: FsPerms::ReadOnly });
    merged_distinct(Seq::<(Seq<char>, MountView)>::empty(), configured);
    merged_distinct(Seq::<(Seq<char>, MountView)>::empty(), seq![lib] + configured);
}

/// What a configuration mounts at a guest path is what the template has there; the library of the
/// Python runtime is at `/lib` unless the configuration mounts something else there.
pub proof fn configured_mounts_win(
    config: ContextConfig,
    parent: Seq<char>,
    runtime: RuntimeFlavor,
    environment: Option<String>,
    guest: Seq<char>,
)
    ensures
        effective(template_mounts(config, parent, runtime, environment), guest) == match effective(
            configured_entries(config.mounts@),
            guest,
        ) {
            Some(mount) => Some(mount),
            None => if runtime == RuntimeFlavor::Python && guest == "/lib"@ {
                Some(
                    MountView {
                        host: runtime_lib(parent, config.runtime_lib_dir, environment),
                        guest: "/lib"@,
                        perms: FsPerms::ReadOnly,
                    },
                )
            } else {
                None
            },
        },
{
    let none = Seq::<(Seq<char>, MountView)>::empty();
    let configured = configured_entries(config.mounts@);
    let host = runtime_lib(parent, config.runtime_lib_dir, environment);
    let lib = ("/lib"@, MountView { host, guest: "/lib"@, perms: FsPerms::ReadOnly });
    merged_effective(none, configured, guest);
    merged_effective(none, seq![lib] + configured, guest);
    effective_of_concat(seq![lib], configured, guest);
    assert(seq![lib].drop_last() =~= none);
    assert(seq![lib].last() == lib);
}

/// In two lists one after the other, the second wins.
proof fn effective_of_concat(a: Entries<MountView>, b: Entries<MountView>, key: Seq<char>)
    ensures
        effective(a + b, key) == match effective(b, key) {
            Some(value) => Some(value),
            None => effective(a, key),
        },
    decreases b.len(),
{
    if b.len() == 0 {
        assert(a + b =~= a);
    } else {
        assert((a + b).drop_last() =~= a + b.drop_last());
        assert((a + b).last() == b.last());
        effective_of_concat(a, b.drop_last(), key);
        crate::keyed::last_position_found(b.drop_last(), key);
        crate::keyed::last_position_found(b, key);
        crate::keyed::last_position_found(a + b.drop_last(), key);
        crate::keyed::last_position_found(a + b, key);
    }
}

} // verus!
