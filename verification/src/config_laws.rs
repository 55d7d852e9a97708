//! What holds of configurations over several changes, and of how a sandbox is made and finished.

use vstd::prelude::*;

use crate::context::{
    all_complete, config_patched, incomplete_text, input_mount, instantiated, is_complete,
    is_internal, is_invalid, is_template_cache, is_template_plan, patched_mounts, runtime_lib,
    sandbox_patched, CacheDirConfig, ConfiguredMount, ContextConfig, ContextConfigPatch,
    ContextCore, MountConfigInput, PendingSandboxConfig, PermissionConfig, RuntimeFlavor,
    SandboxConfigPatch, SdkError, TemplatePlan,
};
use crate::host::{ContextView, LogContext, LogLevel};
use crate::keyed::{distinct_keys, effective, text_entries};
use crate::sandbox::{
    args_lowered, is_outcome, lowered, memory_limit, merged_options, mount_entries, Arg,
    DirectoryMapping, Error, FsPerms, GuestError, InstanceConfig, MountView, OptionsView,
    RawArgument, SandboxOptions, SandboxTemplate, WasmValue,
};
use crate::state::{calls_function, capturing, GuestCall, InstanceState, StandardStream, WasiPlan};
use crate::text::joined;

verus! {

/// Whether a permission that is written in a configuration is one to write.
pub open spec fn is_to_write(perms: Option<PermissionConfig>) -> bool {
    perms matches Some(given) && given != PermissionConfig::Read
}

/// Whether a mount is the one that a configuration describes: its paths, and writing where either
/// permission is one to write.
pub open spec fn is_described(input: MountConfigInput, mount: ConfiguredMount) -> bool {
    &&& mount.host == input.host
    &&& mount.guest == input.guest
    &&& mount.perms == FsPerms::ReadWrite <==> is_to_write(input.dir_perms) || is_to_write(
        input.file_perms,
    )
    &&& mount.perms == FsPerms::ReadOnly <==> !is_to_write(input.dir_perms) && !is_to_write(
        input.file_perms,
    )
}

/// A mount of a configuration is mounted as it is described.
pub proof fn mounts_are_made_as_described(input: MountConfigInput)
    ensures
        is_described(input, input_mount(input)),
{
}

/// Whether a mount lacks a path.
pub open spec fn lacks_a_path(input: MountConfigInput) -> bool {
    input.host@ == Seq::<char>::empty() || input.guest@ == Seq::<char>::empty()
}

/// A mount that lacks a path is refused for the host path first.
pub proof fn mounts_need_both_paths(input: MountConfigInput)
    ensures
        is_complete(input) <==> !lacks_a_path(input),
        input.host@.len() == 0 ==> incomplete_text(input) == "mount host path must not be empty"@,
        input.host@.len() > 0 && input.guest@.len() == 0 ==> incomplete_text(input)
            == "mount guest path must not be empty"@,
{
    if input.host@.len() == 0 {
        assert(input.host@ =~= Seq::<char>::empty());
    }
    if input.guest@.len() == 0 {
        assert(input.guest@ =~= Seq::<char>::empty());
    }
}

/// Whether the changes of a list of mounts can be made.
pub open spec fn mounts_name_paths(patch: Option<Vec<MountConfigInput>>) -> bool {
    patch matches Some(inputs) ==> forall|i: int|
        0 <= i < inputs@.len() ==> !lacks_a_path(#[trigger] inputs@[i])
}

/// The parts that a change does not name stay, and those that it names are set.
pub open spec fn mounts_follow(
    before: Seq<ConfiguredMount>,
    patch: Option<Vec<MountConfigInput>>,
    after: Seq<ConfiguredMount>,
) -> bool {
    match patch {
        None => after == before,
        Some(inputs) => after.len() == inputs@.len() && forall|i: int|
            0 <= i < after.len() ==> is_described(inputs@[i], #[trigger] after[i]),
    }
}

/// The value of every variable follows a change: that of the change where it names the
/// environment, and the one before otherwise.
pub open spec fn env_follows(
    before: Seq<(String, String)>,
    patch: Option<Vec<(String, String)>>,
    after: Seq<(String, String)>,
) -> bool {
    forall|name: Seq<char>| #[trigger]
        effective(text_entries(after), name) == effective(
            text_entries(
                match patch {
                    None => before,
                    Some(env) => env@,
                },
            ),
            name,
        )
}

/// How the mounts follow a change.
proof fn mounts_are_patched(before: Seq<ConfiguredMount>, patch: Option<Vec<MountConfigInput>>)
    ensures
        mounts_follow(before, patch, patched_mounts(before, patch)),
        mounts_name_paths(patch) <==> (patch matches Some(inputs) ==> all_complete(inputs@)),
{
    if let Some(inputs) = patch {
        let after = patched_mounts(before, patch);
        assert forall|i: int| 0 <= i < after.len() implies is_described(
            inputs@[i],
            #[trigger] after[i],
        ) by {
            mounts_are_made_as_described(inputs@[i]);
        }
        if mounts_name_paths(patch) {
            assert forall|k: int| 0 <= k < inputs@.len() implies is_complete(
                #[trigger] inputs@[k],
            ) by {
                mounts_need_both_paths(inputs@[k]);
                assert(!lacks_a_path(inputs@[k]));
            }
        }
        if all_complete(inputs@) {
            assert forall|i: int| 0 <= i < inputs@.len() implies !lacks_a_path(
                #[trigger] inputs@[i],
            ) by {
                mounts_need_both_paths(inputs@[i]);
                assert(is_complete(inputs@[i]));
            }
        }
    }
}

/// A change of a sandbox's configuration is accepted exactly where its memory limit can be counted
/// and its mounts name both paths. It then sets what it names and leaves the rest; one that is
/// refused changes neither mounts nor environment.
pub proof fn sandbox_patches_set_what_they_name(
    before: PendingSandboxConfig,
    patch: SandboxConfigPatch,
    after: PendingSandboxConfig,
    r: Result<(), SdkError>,
)
    requires
        sandbox_patched(before, patch, after, r),
    ensures
        r is Ok <==> mounts_name_paths(patch.mounts) && (patch.max_memory matches Some(Some(limit))
            ==> limit <= usize::MAX),
        patch.max_memory is None ==> after.max_memory == before.max_memory,
        r is Ok && patch.max_memory == Some(None::<u64>) ==> after.max_memory is None,
        r is Ok ==> (patch.max_memory matches Some(Some(limit)) ==> after.max_memory == Some(
            limit as usize,
        )),
        r is Ok ==> mounts_follow(before.mounts@, patch.mounts, after.mounts@),
        r is Ok ==> env_follows(before.env@, patch.env, after.env@),
        r is Err ==> after.mounts == before.mounts && after.env == before.env,
        r matches Err(e) ==> e is InvalidArgument,
{
    mounts_are_patched(before.mounts@, patch.mounts);
}

/// A change of a context's configuration is accepted exactly where its memory limit can be counted
/// and its mounts name both paths. It then sets what it names and leaves the rest; one that is
/// refused changes neither mounts nor environment.
pub proof fn context_patches_set_what_they_name(
    before: ContextConfig,
    patch: ContextConfigPatch,
    after: ContextConfig,
    r: Result<(), SdkError>,
)
    requires
        config_patched(before, patch, after, r),
    ensures
        r is Ok <==> mounts_name_paths(patch.mounts) && (patch.max_memory matches Some(Some(limit))
            ==> limit <= usize::MAX),
        patch.cache_dir is None ==> after.cache_dir == before.cache_dir,
        patch.cache_dir == Some(None::<String>) ==> after.cache_dir is Disabled,
        patch.cache_dir matches Some(Some(path)) ==> after.cache_dir == CacheDirConfig::Custom(path),
        patch.max_memory is None ==> after.max_memory == before.max_memory,
        r is Ok && patch.max_memory == Some(None::<u64>) ==> after.max_memory is None,
        r is Ok ==> (patch.max_memory matches Some(Some(limit)) ==> after.max_memory == Some(
            limit as usize,
        )),
        patch.prelude is None ==> after.prelude == before.prelude,
        r is Ok ==> (patch.prelude matches Some(text) ==> after.prelude == text),
        patch.runtime_lib_dir is None ==> after.runtime_lib_dir == before.runtime_lib_dir,
        r is Ok ==> (patch.runtime_lib_dir matches Some(text) ==> after.runtime_lib_dir == text),
        r is Ok ==> mounts_follow(before.mounts@, patch.mounts, after.mounts@),
        r is Ok ==> env_follows(before.env@, patch.env, after.env@),
        r is Err ==> after.mounts == before.mounts && after.env == before.env,
        r matches Err(e) ==> e is InvalidArgument,
{
    mounts_are_patched(before.mounts@, patch.mounts);
}

/// A path inside a directory is the directory, one separator, and the path. A directory that ends
/// in a separator brings its own, and the empty directory needs none.
pub proof fn paths_are_joined_once(base: Seq<char>, part: Seq<char>)
    ensures
        base.len() > 0 && base.last() != '/' ==> joined(base, part) == base + seq!['/'] + part,
        base.len() > 0 && base.last() == '/' ==> joined(base, part) == base + part,
        joined(Seq::empty(), part) == part,
{
    assert(base.push('/') =~= base + seq!['/']);
    assert(Seq::<char>::empty() + part =~= part);
}

/// The library of a runtime lies where the configuration says. Else it lies in the runtime that the
/// environment names, and else in a fixed place below the directory of the template.
pub proof fn configured_library_wins(
    parent: Seq<char>,
    configured: Option<String>,
    environment: Option<String>,
)
    ensures
        configured matches Some(path) ==> runtime_lib(parent, configured, environment) == path@,
        configured is None ==> (environment matches Some(runtime) ==> runtime_lib(
            parent,
            configured,
            environment,
        ) == joined(runtime@, "lib"@)),
        configured is None && environment is None && parent.len() > 0 && parent.last() != '/'
            ==> runtime_lib(parent, configured, environment) == parent
            + "/wasm32-wasip2/wasi-deps/usr/local/lib"@,
{
    reveal_strlit("wasm32-wasip2");
    reveal_strlit("wasi-deps");
    reveal_strlit("usr");
    reveal_strlit("local");
    reveal_strlit("lib");
    reveal_strlit("/wasm32-wasip2/wasi-deps/usr/local/lib");
    if parent.len() > 0 && parent.last() != '/' {
        let target = joined(parent, "wasm32-wasip2"@);
        assert(target.last() == '2');
        let deps = joined(target, "wasi-deps"@);
        assert(deps.last() == 's');
        let usr = joined(deps, "usr"@);
        assert(usr.last() == 'r');
        let local = joined(usr, "local"@);
        assert(local.last() == 'l');
        let lib = joined(local, "lib"@);
        assert(lib =~= parent + "/wasm32-wasip2/wasi-deps/usr/local/lib"@);
    }
}

/// Compiled artifacts are cached in the directory that is configured, by default beside the
/// runtime, and nowhere where caching is disabled.
pub proof fn cache_lies_where_configured(
    config: CacheDirConfig,
    parent: Seq<char>,
    cache: Option<String>,
)
    requires
        is_template_cache(config, parent, cache),
    ensures
        cache is None <==> config is Disabled,
        config matches CacheDirConfig::Custom(path) ==> cache == Some(path),
        config is Auto ==> cache->0@ == joined(parent, "cache"@),
{
}

/// A template is built from the file of its runtime, with the configured prelude and memory limit.
pub proof fn templates_follow_their_configuration(
    config: ContextConfig,
    runtime_path: Seq<char>,
    runtime: RuntimeFlavor,
    environment: Option<String>,
    plan: TemplatePlan,
)
    requires
        is_template_plan(config, runtime_path, runtime, environment, plan),
    ensures
        runtime == RuntimeFlavor::Python ==> plan.wasm_path@ == joined(
            runtime_path,
            "python.wasm"@,
        ),
        runtime == RuntimeFlavor::Js ==> plan.wasm_path@ == joined(runtime_path, "js.wasm"@),
        plan.builder.prelude == config.prelude,
        plan.builder.base_options@.max_memory == config.max_memory,
        plan.builder.cache is None <==> config.cache_dir is Disabled,
        distinct_keys(plan.builder.base_options@.env),
        distinct_keys(plan.builder.base_options@.mounts),
        forall|name: Seq<char>| #[trigger]
            effective(plan.builder.base_options@.env, name) == effective(
                text_entries(config.env@),
                name,
            ),
{
    let given = text_entries(config.env@);
    crate::keyed::merged_distinct(Seq::<(Seq<char>, Seq<char>)>::empty(), given);
    crate::context::template_mounts_are_distinct(config, runtime_path, runtime, environment);
    assert forall|name: Seq<char>| #[trigger]
        effective(plan.builder.base_options@.env, name) == effective(given, name) by {
        crate::keyed::merged_effective(Seq::<(Seq<char>, Seq<char>)>::empty(), given, name);
    }
}

/// A guest's memory is limited as the sandbox says, else as its template says, and else not at all.
pub proof fn narrower_memory_limit_wins(base: OptionsView, own: OptionsView)
    ensures
        own.max_memory matches Some(limit) ==> memory_limit(merged_options(base, own).max_memory)
            == limit,
        own.max_memory is None ==> (base.max_memory matches Some(limit) ==> memory_limit(
            merged_options(base, own).max_memory,
        ) == limit),
        own.max_memory is None && base.max_memory is None ==> memory_limit(
            merged_options(base, own).max_memory,
        ) == usize::MAX,
{
}

/// The name of an argument of a guest function, if it has one.
pub open spec fn name_of<S>(arg: Arg<S>) -> Option<String> {
    match arg {
        Arg::Named(name, _) => Some(name),
        Arg::NamedStream(name, _) => Some(name),
        _ => None,
    }
}

/// The bytes of the value that an argument carries, if it carries one.
pub open spec fn bytes_of<S>(arg: Arg<S>) -> Option<Seq<u8>> {
    match arg {
        Arg::Positional(value) => Some(value@),
        Arg::Named(_, value) => Some(value@),
        _ => None,
    }
}

/// The guest receives each argument in its place and under its name, a value with its bytes, and a
/// stream through a handle.
pub proof fn guests_receive_every_argument<S, I, F: Fn(S) -> Result<I, String>>(
    args: Seq<Arg<S>>,
    push: F,
    raw: Vec<RawArgument<I>>,
)
    requires
        args_lowered(args, push, Ok::<Vec<RawArgument<I>>, Error>(raw)),
    ensures
        raw@.len() == args.len(),
        forall|i: int|
            0 <= i < args.len() ==> (#[trigger] raw@[i]).name == name_of(args[i]) && match raw@[i].value {
                WasmValue::Cbor(bytes) => bytes_of(args[i]) == Some(crate::octets::octets(bytes)),
                WasmValue::CborIterator(_) => bytes_of(args[i]) is None,
            },
{
    assert forall|i: int| 0 <= i < args.len() implies (#[trigger] raw@[i]).name == name_of(args[i])
        && match raw@[i].value {
        WasmValue::Cbor(bytes) => bytes_of(args[i]) == Some(crate::octets::octets(bytes)),
        WasmValue::CborIterator(_) => bytes_of(args[i]) is None,
    } by {
        assert(lowered(args[i], raw@[i], push));
    }
}

/// Arguments without a stream among them always have a form for the guest.
pub proof fn values_are_never_refused<S, I, F: Fn(S) -> Result<I, String>>(
    args: Seq<Arg<S>>,
    push: F,
    r: Result<Vec<RawArgument<I>>, Error>,
)
    requires
        args_lowered(args, push, r),
        forall|i: int| 0 <= i < args.len() ==> bytes_of(#[trigger] args[i]) is Some,
    ensures
        r is Ok,
{
    if let Err(Error::Other(cause)) = r {
        let i = choose|i: int|
            0 <= i < args.len() && crate::sandbox::refused(#[trigger] args[i], cause, push)
                && forall|j: int| 0 <= j < i ==> crate::sandbox::accepted(#[trigger] args[j], push);
        assert(bytes_of(args[i]) is Some);
    }
}

/// A guest operation succeeds exactly where the engine, the guest and the flushing of its logs do.
/// What the guest's own code raised is reported as it is; a failure of the engine, or to flush, is
/// the engine's; a failure inside the guest's runtime is neither.
pub proof fn operations_succeed_only_as_a_whole(
    result: Result<Result<(), GuestError>, String>,
    flushed: Result<(), String>,
    outcome: Result<(), Error>,
)
    requires
        is_outcome(result, flushed, outcome),
    ensures
        outcome is Ok <==> result is Ok && result->Ok_0 is Ok && flushed is Ok,
        outcome matches Err(e) ==> (e is UserCode <==> result is Ok && result->Ok_0 is Err
            && result->Ok_0->Err_0.code is Aborted),
        outcome matches Err(e) ==> (e is Wasm <==> result is Err || result->Ok_0 is Ok),
        outcome matches Err(e) ==> (e is Other <==> result is Ok && result->Ok_0 is Err
            && result->Ok_0->Err_0.code is Internal),
        result matches Err(cause) ==> outcome == Err::<(), Error>(Error::Wasm(cause)),
        result matches Ok(Err(guest)) ==> match outcome->Err_0 {
            Error::UserCode { message } => message == guest.message,
            Error::Other(text) => text@.len() >= guest.message@.len() && text@.skip(
                text@.len() - guest.message@.len(),
            ) == guest.message@,
            _ => false,
        },
{
    if let Ok(Err(guest)) = result {
        if let Error::Other(text) = outcome->Err_0 {
            assert(text@.skip(text@.len() - guest.message@.len()) =~= guest.message@);
        }
    }
}

/// A call into the guest names the function that was asked for and carries its arguments, and is
/// nothing but such a call.
pub proof fn calls_name_their_function<R, I, F: Fn(R) -> Result<I, String>>(
    function: Seq<char>,
    args: Seq<Arg<R>>,
    push: F,
    r: Result<GuestCall<I>, Error>,
)
    requires
        calls_function(function, args, push, r),
    ensures
        r matches Ok(call) ==> call matches GuestCall::CallFunc(name, raw) && name@ == function
            && raw@.len() == args.len(),
        r matches Err(e) ==> e is Other,
{
}

/// A context that was closed plans no template and makes no sandbox. One that is open plans a
/// template for a known runtime as long as it has none, and makes sandboxes of the one it has.
pub proof fn contexts_have_one_template<T>(
    context: &ContextCore<T>,
    path: &str,
    name: &str,
    environment: Option<String>,
    planned: Result<TemplatePlan, SdkError>,
    made: Result<&T, SdkError>,
)
    requires
        call_ensures(
            ContextCore::<T>::initialize_template,
            (context, path, Some(name), environment),
            planned,
        ),
        call_ensures(ContextCore::<T>::instantiate, (context,), made),
    ensures
        context.closed ==> is_invalid(planned, "context is closed"@) && is_invalid(
            made,
            "context is closed"@,
        ),
        planned is Ok <==> !context.closed && context.inner.template is None && (name@ == "python"@
            || name@ == "js"@),
        made is Ok <==> !context.closed && context.inner.template is Some,
        made matches Ok(template) ==> context.inner.template == Some(*template),
        planned is Ok && made is Ok ==> false,
{
}

/// A runtime is known by one name, and only the Python one needs its library mounted.
pub proof fn runtimes_are_known_by_name(
    name: &str,
    parsed: Result<RuntimeFlavor, SdkError>,
    runtime: RuntimeFlavor,
    mounts: bool,
    file: &'static str,
)
    requires
        call_ensures(RuntimeFlavor::parse, (name,), parsed),
        call_ensures(RuntimeFlavor::uses_runtime_lib_mount, (runtime,), mounts),
        call_ensures(RuntimeFlavor::bundle_file, (runtime,), file),
    ensures
        parsed == Ok::<RuntimeFlavor, SdkError>(RuntimeFlavor::Python) <==> name@ == "python"@,
        parsed == Ok::<RuntimeFlavor, SdkError>(RuntimeFlavor::Js) <==> name@ == "js"@,
        parsed is Err <==> name@ != "python"@ && name@ != "js"@,
        mounts <==> runtime == RuntimeFlavor::Python,
        runtime == RuntimeFlavor::Python <==> file@ == "python.wasm"@,
        runtime == RuntimeFlavor::Js <==> file@ == "js.wasm"@,
{
    reveal_strlit("python");
    reveal_strlit("js");
    reveal_strlit("python.wasm");
    reveal_strlit("js.wasm");
    assert("python"@.len() == 6 && "js"@.len() == 2);
    assert("python.wasm"@.len() == 11 && "js.wasm"@.len() == 7);
}

/// A new instance sees the directories and variables it was given, in order, and no sockets. It has
/// no memory yet, and nothing of its output is held back.
pub proof fn instances_see_what_they_are_given<B, U, S, A>(
    mappings: &Vec<DirectoryMapping>,
    env: &Vec<(String, String)>,
    max_memory: usize,
    r: (InstanceState<B, U, S, A>, WasiPlan),
)
    requires
        call_ensures(InstanceState::<B, U, S, A>::new, (mappings, env, max_memory), r),
    ensures
        r.1.preopened@ == mappings@,
        r.1.env@ == env@,
        !r.1.allow_tcp && !r.1.allow_udp,
        r.1.stdout == StandardStream::Stdout && r.1.stderr == StandardStream::Stderr,
        r.0.limiter@.limit == max_memory && r.0.limiter@.allocated == 0,
        r.0.output_buffer@.len() == 0,
        !capturing(r.0.output_target),
{
}

/// Records of a standard stream have the level and the context of that stream.
pub proof fn streams_keep_their_level(
    stream: StandardStream,
    level: LogLevel,
    context: LogContext<'static>,
)
    requires
        call_ensures(StandardStream::level, (stream,), level),
        call_ensures(StandardStream::context, (stream,), context),
    ensures
        stream == StandardStream::Stdout <==> level == LogLevel::Stdout,
        stream == StandardStream::Stderr <==> level == LogLevel::Stderr,
        stream == StandardStream::Stdout <==> context@ == ContextView::Stdout,
        stream == StandardStream::Stderr <==> context@ == ContextView::Stderr,
{
}

/// What creating an instance came to is what the caller gets: the instance, or an error inside.
pub proof fn created_instances_are_handed_on<S>(created: Result<S, String>, r: Result<S, SdkError>)
    requires
        call_ensures(instantiated::<S>, (created,), r),
    ensures
        created matches Ok(instance) ==> r == Ok::<S, SdkError>(instance),
        created matches Err(message) ==> is_internal(r, "Failed to create instance: "@ + message@),
{
}

/// A sandbox is made with its own options over those of its template: its own value of a variable
/// and its own mount at a path win, those of the template stand where it has none, and so does the
/// memory limit.
pub proof fn own_options_win<C>(
    template: &SandboxTemplate<C>,
    options: SandboxOptions,
    r: InstanceConfig,
    name: Seq<char>,
)
    requires
        call_ensures(SandboxTemplate::<C>::instantiate, (template, options), r),
    ensures
        effective(text_entries(r.env@), name) == match effective(options@.env, name) {
            Some(value) => Some(value),
            None => effective(template.base_options@.env, name),
        },
        effective(mount_entries(r.directory_mappings@), name) == match effective(
            options@.mounts,
            name,
        ) {
            Some(mount) => Some(mount),
            None => effective(template.base_options@.mounts, name),
        },
        distinct_keys(text_entries(r.env@)),
        r.max_memory == match (options@.max_memory, template.base_options@.max_memory) {
            (Some(limit), _) => limit,
            (None, Some(limit)) => limit,
            (None, None) => usize::MAX,
        },
{
    crate::keyed::merged_effective(template.base_options@.env, options@.env, name);
    crate::keyed::merged_effective(template.base_options@.mounts, options@.mounts, name);
}

/// The options of a sandbox are built up one by one: each sets what it names, and leaves the rest.
pub proof fn options_are_built_up(
    options: SandboxOptions,
    limit: usize,
    limited: SandboxOptions,
    host: &str,
    guest: &str,
    perms: FsPerms,
    mounted: SandboxOptions,
    key: &str,
    value: &str,
    named: SandboxOptions,
    other: Seq<char>,
)
    requires
        call_ensures(SandboxOptions::max_memory, (options, limit), limited),
        call_ensures(SandboxOptions::mount, (options, host, guest, perms), mounted),
        call_ensures(SandboxOptions::env, (options, key, value), named),
    ensures
        limited@.max_memory == Some(limit),
        limited@.mounts == options@.mounts && limited@.env == options@.env,
        mounted@.max_memory == options@.max_memory && mounted@.env == options@.env,
        mounted@.mounts.last() == (
            guest@,
            MountView { host: host@, guest: guest@, perms },
        ) && mounted@.mounts.drop_last() == options@.mounts,
        named@.max_memory == options@.max_memory && named@.mounts == options@.mounts,
        effective(named@.env, key@) == Some(value@),
        other != key@ ==> effective(named@.env, other) == effective(options@.env, other),
{
    assert(mounted@.mounts.drop_last() =~= options@.mounts);
    crate::keyed::placed_effective(options@.env, key@, value@, other);
}

/// A sandbox is started with what it was configured with: its limit, each of its mounts, and the
/// last value of each variable.
pub proof fn sandboxes_start_as_configured(
    config: &PendingSandboxConfig,
    r: SandboxOptions,
    name: Seq<char>,
    i: int,
)
    requires
        call_ensures(PendingSandboxConfig::to_options, (config,), r),
        0 <= i < config.mounts@.len(),
    ensures
        r@.max_memory == config.max_memory,
        effective(r@.env, name) == effective(text_entries(config.env@), name),
        distinct_keys(r@.env),
        r@.mounts.len() == config.mounts@.len(),
        r@.mounts[i].0 == config.mounts@[i].guest@,
        r@.mounts[i].1.host == config.mounts@[i].host@,
        r@.mounts[i].1.perms == config.mounts@[i].perms,
{
    let none = Seq::<(Seq<char>, Seq<char>)>::empty();
    crate::keyed::merged_effective(none, text_entries(config.env@), name);
    crate::keyed::merged_distinct(none, text_entries(config.env@));
}

} // verus!
