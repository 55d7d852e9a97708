//! What the fingerprints of a component keep apart, and which variables its build sees.

use std::collections::hash_map::DefaultHasher;

use vstd::bytes::{
    lemma_auto_spec_u32_to_from_le_bytes, lemma_auto_spec_u64_to_from_le_bytes,
    spec_u32_from_le_bytes, spec_u32_to_le_bytes, spec_u64_from_le_bytes, spec_u64_to_le_bytes,
};
use vstd::prelude::*;
use vstd::std_specs::hash::DefaultHasherAdditionalSpecFns;
use vstd::utf8::{encode_utf8, encode_utf8_decode_utf8};

use crate::components::{
    all_content_fields, all_metadata_fields, component_fields,
    content_fingerprint_tracks_every_link_input, contents_of, flag, input_field, is_host_build_key,
    link_inputs, metadata_fields, shim_bytes, starts_with, BuildInput, ComponentLibrary,
    FileMetadata, LoadedComponentLibrary,
};
use crate::fingerprint::{
    all_writes, fingerprint_text, hashed_bytes, hashed_bytes_determine_fields, hex_digit, hex_text,
    lengths_fit, Field,
};

verus! {

/// A file that decides how components are built: its name and its contents.
pub open spec fn input_views(inputs: Seq<BuildInput>) -> Seq<(Seq<char>, Seq<u8>)> {
    inputs.map_values(|input: BuildInput| (input.name@, input.contents@))
}

/// The name of a library's shim. A shim without a name is no shim.
pub open spec fn shim_name(library: ComponentLibrary) -> Seq<char> {
    match library.async_shim_name {
        Some(name) => name@,
        None => Seq::empty(),
    }
}

/// Two libraries that lie in the same place, are opened alike, and were last changed at the same
/// time.
pub open spec fn same_on_disk(
    a: (ComponentLibrary, FileMetadata),
    b: (ComponentLibrary, FileMetadata),
) -> bool {
    &&& a.0.name@ == b.0.name@
    &&& a.0.path@ == b.0.path@
    &&& a.0.dlopen == b.0.dlopen
    &&& shim_name(a.0) == shim_name(b.0)
    &&& a.1.size == b.1.size
    &&& a.1.after_epoch == b.1.after_epoch
    &&& a.1.seconds == b.1.seconds
    &&& a.1.nanoseconds == b.1.nanoseconds
}

/// The fields by which components are told apart without reading their libraries.
pub open spec fn metadata_of(
    inputs: Seq<BuildInput>,
    libraries: Seq<(ComponentLibrary, FileMetadata)>,
    stack_size: u32,
) -> Seq<Field> {
    component_fields(inputs, stack_size) + all_metadata_fields(libraries)
}

/// Each library has eight fields.
proof fn metadata_fields_counted(libraries: Seq<(ComponentLibrary, FileMetadata)>)
    ensures
        all_metadata_fields(libraries).len() == 8 * libraries.len(),
    decreases libraries.len(),
{
    if libraries.len() > 0 {
        metadata_fields_counted(libraries.drop_last());
    }
}

/// The bytes of a number determine it.
proof fn bytes_determine_number(a: u32, b: u32)
    requires
        spec_u32_to_le_bytes(a) == spec_u32_to_le_bytes(b),
    ensures
        a == b,
{
    lemma_auto_spec_u32_to_from_le_bytes();
    assert(spec_u32_to_le_bytes(a).len() == 4 && spec_u32_to_le_bytes(b).len() == 4);
    assert(spec_u32_from_le_bytes(spec_u32_to_le_bytes(a)) == a);
}

/// The fields of a library determine what is known of it.
proof fn metadata_fields_determine_library(
    a: (ComponentLibrary, FileMetadata),
    b: (ComponentLibrary, FileMetadata),
)
    requires
        metadata_fields(a.0, a.1) == metadata_fields(b.0, b.1),
    ensures
        same_on_disk(a, b),
{
    let x = metadata_fields(a.0, a.1);
    let y = metadata_fields(b.0, b.1);
    assert(x[0] == y[0] && x[1] == y[1] && x[2] == y[2] && x[3] == y[3]);
    assert(x[4] == y[4] && x[5] == y[5] && x[6] == y[6] && x[7] == y[7]);
    encode_utf8_decode_utf8(a.0.name@);
    encode_utf8_decode_utf8(b.0.name@);
    encode_utf8_decode_utf8(a.0.path@);
    encode_utf8_decode_utf8(b.0.path@);
    assert(flag(a.0.dlopen)[0] == flag(b.0.dlopen)[0]);
    assert(flag(a.1.after_epoch)[0] == flag(b.1.after_epoch)[0]);
    let p = shim_name(a.0);
    let q = shim_name(b.0);
    encode_utf8_decode_utf8(p);
    encode_utf8_decode_utf8(q);
    assert(encode_utf8(Seq::<char>::empty()) =~= Seq::<u8>::empty());
    assert(shim_bytes(a.0.async_shim_name) == encode_utf8(p));
    assert(shim_bytes(b.0.async_shim_name) == encode_utf8(q));
    lemma_auto_spec_u64_to_from_le_bytes();
    assert(spec_u64_from_le_bytes(spec_u64_to_le_bytes(a.1.size)) == a.1.size);
    assert(spec_u64_from_le_bytes(spec_u64_to_le_bytes(b.1.size)) == b.1.size);
    assert(spec_u64_from_le_bytes(spec_u64_to_le_bytes(a.1.seconds)) == a.1.seconds);
    assert(spec_u64_from_le_bytes(spec_u64_to_le_bytes(b.1.seconds)) == b.1.seconds);
    bytes_determine_number(a.1.nanoseconds, b.1.nanoseconds);
}

/// The fields of several libraries determine what is known of each.
proof fn metadata_fields_determine_libraries(
    a: Seq<(ComponentLibrary, FileMetadata)>,
    b: Seq<(ComponentLibrary, FileMetadata)>,
)
    requires
        all_metadata_fields(a) == all_metadata_fields(b),
    ensures
        a.len() == b.len(),
        forall|i: int| 0 <= i < a.len() ==> #[trigger] same_on_disk(a[i], b[i]),
    decreases a.len(),
{
    metadata_fields_counted(a);
    metadata_fields_counted(b);
    if a.len() > 0 {
        let n = 8 * a.len() - 8;
        metadata_fields_counted(a.drop_last());
        metadata_fields_counted(b.drop_last());
        let all = all_metadata_fields(a);
        assert(all.take(n) =~= all_metadata_fields(a.drop_last()));
        assert(all.take(n) =~= all_metadata_fields(b.drop_last()));
        assert(all.skip(n) =~= metadata_fields(a.last().0, a.last().1));
        assert(all.skip(n) =~= metadata_fields(b.last().0, b.last().1));
        metadata_fields_determine_libraries(a.drop_last(), b.drop_last());
        metadata_fields_determine_library(a.last(), b.last());
        assert forall|i: int| 0 <= i < a.len() implies #[trigger] same_on_disk(a[i], b[i]) by {
            if i < a.len() - 1 {
                assert(same_on_disk(a.drop_last()[i], b.drop_last()[i]));
            }
        }
    }
}

/// The fields that every component has determine the stack size and the files of the build.
proof fn component_fields_determine_inputs(
    inputs_a: Seq<BuildInput>,
    stack_a: u32,
    inputs_b: Seq<BuildInput>,
    stack_b: u32,
)
    requires
        component_fields(inputs_a, stack_a) == component_fields(inputs_b, stack_b),
    ensures
        stack_a == stack_b,
        input_views(inputs_a) == input_views(inputs_b),
{
    let x = component_fields(inputs_a, stack_a);
    let y = component_fields(inputs_b, stack_b);
    assert(x[0].value == spec_u32_to_le_bytes(stack_a));
    assert(y[0].value == spec_u32_to_le_bytes(stack_b));
    bytes_determine_number(stack_a, stack_b);
    assert(x.len() == 1 + inputs_a.len() && y.len() == 1 + inputs_b.len());
    assert forall|i: int| 0 <= i < inputs_a.len() implies input_views(inputs_a)[i]
        == input_views(inputs_b)[i] by {
        assert(x[i + 1] == input_field(inputs_a[i]));
        assert(y[i + 1] == input_field(inputs_b[i]));
        encode_utf8_decode_utf8(inputs_a[i].name@);
        encode_utf8_decode_utf8(inputs_b[i].name@);
    }
    assert(input_views(inputs_a) =~= input_views(inputs_b));
}

/// Every change on disk counts: two components built from equally many files feed the same bytes
/// to the hashers of their metadata fingerprints only if their stack sizes are equal, the files
/// agree in name and contents, and their libraries are equally many and agree, each with the one
/// in its place, in name, path, the way they are opened, the name of the shim, size, and time of
/// the last change.
pub proof fn metadata_fingerprint_tracks_every_library(
    inputs_a: Seq<BuildInput>,
    a: Seq<(ComponentLibrary, FileMetadata)>,
    stack_a: u32,
    inputs_b: Seq<BuildInput>,
    b: Seq<(ComponentLibrary, FileMetadata)>,
    stack_b: u32,
)
    requires
        inputs_a.len() == inputs_b.len(),
        lengths_fit(metadata_of(inputs_a, a, stack_a)),
        lengths_fit(metadata_of(inputs_b, b, stack_b)),
        hashed_bytes(metadata_of(inputs_a, a, stack_a)) == hashed_bytes(
            metadata_of(inputs_b, b, stack_b),
        ),
    ensures
        stack_a == stack_b,
        input_views(inputs_a) == input_views(inputs_b),
        a.len() == b.len(),
        forall|i: int| 0 <= i < a.len() ==> #[trigger] same_on_disk(a[i], b[i]),
{
    let x = metadata_of(inputs_a, a, stack_a);
    let y = metadata_of(inputs_b, b, stack_b);
    hashed_bytes_determine_fields(x, y);
    let n = 1 + inputs_a.len();
    assert(x.take(n as int) =~= component_fields(inputs_a, stack_a));
    assert(y.take(n as int) =~= component_fields(inputs_b, stack_b));
    assert(x.skip(n as int) =~= all_metadata_fields(a));
    assert(y.skip(n as int) =~= all_metadata_fields(b));
    component_fields_determine_inputs(inputs_a, stack_a, inputs_b, stack_b);
    metadata_fields_determine_libraries(a, b);
}

/// Every build input counts: two components built from equally many files feed the same bytes to
/// the hashers of their content fingerprints only if the files agree in name and contents.
pub proof fn content_fingerprint_tracks_every_build_input(
    inputs_a: Seq<BuildInput>,
    a: Seq<LoadedComponentLibrary>,
    stack_a: u32,
    inputs_b: Seq<BuildInput>,
    b: Seq<LoadedComponentLibrary>,
    stack_b: u32,
)
    requires
        inputs_a.len() == inputs_b.len(),
        lengths_fit(contents_of(inputs_a, a, stack_a)),
        lengths_fit(contents_of(inputs_b, b, stack_b)),
        hashed_bytes(contents_of(inputs_a, a, stack_a)) == hashed_bytes(
            contents_of(inputs_b, b, stack_b),
        ),
    ensures
        stack_a == stack_b,
        input_views(inputs_a) == input_views(inputs_b),
        link_inputs(a) == link_inputs(b),
{
    let x = contents_of(inputs_a, a, stack_a);
    let y = contents_of(inputs_b, b, stack_b);
    hashed_bytes_determine_fields(x, y);
    let n = 1 + inputs_a.len();
    assert(x.take(n as int) =~= component_fields(inputs_a, stack_a));
    assert(y.take(n as int) =~= component_fields(inputs_b, stack_b));
    component_fields_determine_inputs(inputs_a, stack_a, inputs_b, stack_b);
    let common = component_fields(inputs_b, stack_b);
    assert(x =~= common + all_content_fields(a));
    content_fingerprint_tracks_every_link_input(inputs_b, a, stack_b, b, stack_b);
}

/// Digits determine the number that they were written for.
proof fn digits_determine_number(a: int, b: int, width: nat, bound: int)
    requires
        0 <= a < bound,
        0 <= b < bound,
        bound == sixteen_to(width),
        hex_text(a, width) == hex_text(b, width),
    ensures
        a == b,
    decreases width,
{
    if width > 0 {
        let x = hex_text(a, width);
        let y = hex_text(b, width);
        assert(x.last() == hex_digit(a % 16) && y.last() == hex_digit(b % 16));
        assert(x.drop_last() =~= hex_text(a / 16, (width - 1) as nat));
        assert(y.drop_last() =~= hex_text(b / 16, (width - 1) as nat));
        assert(hex_digit(a % 16) as u32 == hex_digit(b % 16) as u32);
        assert(a % 16 == b % 16);
        let less = sixteen_to((width - 1) as nat);
        assert(bound == 16 * less);
        digits_determine_number(a / 16, b / 16, (width - 1) as nat, less);
    }
}

/// How many numbers can be written with so many hexadecimal digits.
spec fn sixteen_to(width: nat) -> int
    decreases width,
{
    if width == 0 {
        1
    } else {
        16 * sixteen_to((width - 1) as nat)
    }
}

/// So many digits are written.
proof fn digits_counted(n: int, width: nat)
    ensures
        hex_text(n, width).len() == width,
    decreases width,
{
    if width > 0 {
        digits_counted(n / 16, (width - 1) as nat);
    }
}

/// Whether both hashers give the same for two lists of fields.
pub open spec fn same_hashes(a: Seq<Field>, b: Seq<Field>) -> bool {
    &&& DefaultHasher::spec_finish(all_writes(a)) == DefaultHasher::spec_finish(all_writes(b))
    &&& DefaultHasher::spec_finish(seq![seq![1u8]] + all_writes(a)) == DefaultHasher::spec_finish(
        seq![seq![1u8]] + all_writes(b),
    )
}

/// The text of a fingerprint gives back both hashes: fingerprints agree only where both hashers
/// agree on what was written to them.
pub proof fn fingerprint_tells_both_hashes(a: Seq<Field>, b: Seq<Field>)
    requires
        fingerprint_text(a) == fingerprint_text(b),
    ensures
        same_hashes(a, b),
        fingerprint_text(a).len() == 32,
{
    let p = DefaultHasher::spec_finish(all_writes(a)) as int;
    let q = DefaultHasher::spec_finish(all_writes(b)) as int;
    let r = DefaultHasher::spec_finish(seq![seq![1u8]] + all_writes(a)) as int;
    let s = DefaultHasher::spec_finish(seq![seq![1u8]] + all_writes(b)) as int;
    digits_counted(p, 16);
    digits_counted(q, 16);
    digits_counted(r, 16);
    digits_counted(s, 16);
    let text = fingerprint_text(a);
    assert(text.take(16) =~= hex_text(p, 16));
    assert(text.take(16) =~= hex_text(q, 16));
    assert(text.skip(16) =~= hex_text(r, 16));
    assert(text.skip(16) =~= hex_text(s, 16));
    assert(sixteen_to(16) == 0x1_0000_0000_0000_0000) by {
        reveal_with_fuel(sixteen_to, 17);
    }
    digits_determine_number(p, q, 16, sixteen_to(16));
    digits_determine_number(r, s, 16, sixteen_to(16));
}

/// A guest build sees no variable whose name starts with `RUST`, and of those whose name starts
/// with `CARGO` only `CARGO_HOME`. It sees every variable whose name starts otherwise.
pub proof fn host_build_keys(rest: Seq<char>)
    ensures
        is_host_build_key("RUST"@ + rest),
        is_host_build_key("CARGO"@ + rest) == (rest != "_HOME"@),
        rest.len() > 0 && rest[0] != 'R' && rest[0] != 'C' ==> !is_host_build_key(rest),
        rest.len() < 4 ==> !is_host_build_key(rest),
{
    reveal_strlit("RUST");
    reveal_strlit("CARGO");
    reveal_strlit("_HOME");
    reveal_strlit("CARGO_HOME");
    let rust = "RUST"@ + rest;
    let cargo = "CARGO"@ + rest;
    assert(rust.take(4) =~= "RUST"@);
    assert(cargo.take(5) =~= "CARGO"@);
    assert(rust[0] == 'R' && "CARGO_HOME"@[0] == 'C');
    assert("CARGO_HOME"@.skip(5) =~= "_HOME"@);
    assert(cargo.skip(5) =~= rest);
    if rest == "_HOME"@ {
        assert(cargo =~= "CARGO_HOME"@);
    }
    if starts_with(rest, "RUST"@) {
        assert(rest.take(4)[0] == 'R');
    }
    if starts_with(rest, "CARGO"@) {
        assert(rest.take(5)[0] == 'C');
    }
}

} // verus!
