//! What holds of a component's build over several of its steps: flags, names, orders, and when it
//! is linked again.

use vstd::prelude::*;

use crate::component_laws::fingerprint_tells_both_hashes;
use crate::components::{
    component_by_metadata, content_print, dylink_found, ends_search, extension_library,
    extension_name, first_line, first_outside, is_space, is_under, js_library_views, library_views,
    metadata_print, python_base_views, python_linked, recorded, recorded_build_is_found_again,
    recording, search_end, separated, task_text, texts, without_return, words, words_after,
    BuildInput, ComponentLibrary, ContentCheck, FileMetadata, LibraryView, LoadedComponentLibrary,
    MetadataCheck, PendingComponent, Task,
};
use crate::ordered::text_before;
use crate::paths::{char_key, component_key, is_sorted, key_le, path_key, FoundPath};
use crate::text::joined;

verus! {

/// Whether no character of a text separates words.
pub open spec fn is_word(text: Seq<char>) -> bool {
    text.len() > 0 && forall|i: int| 0 <= i < text.len() ==> !is_space(#[trigger] text[i])
}

/// What follows a separator makes up its own words.
proof fn words_split(word: Seq<char>, a: Seq<char>, space: char, b: Seq<char>)
    requires
        is_space(space),
    ensures
        words_after(word, a.push(space) + b) == words_after(word, a) + words(b),
    decreases a.len(),
{
    let text = a.push(space) + b;
    if a.len() == 0 {
        assert(text[0] == space);
        assert(text.skip(1) =~= b);
    } else {
        assert(text[0] == a[0]);
        assert(text.skip(1) =~= a.skip(1).push(space) + b);
        if is_space(a[0]) {
            words_split(Seq::empty(), a.skip(1), space, b);
            let done = if word.len() > 0 {
                seq![word]
            } else {
                Seq::empty()
            };
            assert(done + (words(a.skip(1)) + words(b)) =~= (done + words(a.skip(1))) + words(b));
        } else {
            words_split(word.push(a[0]), a.skip(1), space, b);
        }
    }
}

/// A run without a separator goes on with the word before it.
proof fn word_goes_on(word: Seq<char>, text: Seq<char>)
    requires
        forall|i: int| 0 <= i < text.len() ==> !is_space(#[trigger] text[i]),
        word.len() + text.len() > 0,
    ensures
        words_after(word, text) == seq![word + text],
    decreases text.len(),
{
    if text.len() == 0 {
        assert(word + text =~= word);
    } else {
        assert forall|i: int| 0 <= i < text.skip(1).len() implies !is_space(
            #[trigger] text.skip(1)[i],
        ) by {
            assert(text.skip(1)[i] == text[i + 1]);
        }
        word_goes_on(word.push(text[0]), text.skip(1));
        assert(word.push(text[0]) + text.skip(1) =~= word + text);
    }
}

/// Flags are taken apart at separators and nowhere else: a text without a separator is one flag,
/// what stands before and behind a separator makes up its own flags, and nothing makes up none.
/// How many separators there are, and where, does not matter.
pub proof fn flags_are_words(a: Seq<char>, space: char, b: Seq<char>, flag: Seq<char>)
    ensures
        words(Seq::empty()) == Seq::<Seq<char>>::empty(),
        is_space(space) ==> words(a.push(space) + b) == words(a) + words(b),
        is_word(flag) ==> words(flag) == seq![flag],
        (space as u32) < 128 ==> (is_space(space) <==> 9 <= space as u32 <= 13 || space == ' '),
{
    if is_space(space) {
        words_split(Seq::empty(), a, space, b);
    }
    if is_word(flag) {
        word_goes_on(Seq::empty(), flag);
        assert(Seq::<char>::empty() + flag =~= flag);
    }
}

/// The pieces of a text between separators, the first of which goes on with this piece.
pub open spec fn pieces_after(piece: Seq<char>, text: Seq<char>, by: char) -> Seq<Seq<char>>
    decreases text.len(),
{
    if text.len() == 0 {
        seq![piece]
    } else if text[0] == by {
        seq![piece] + pieces_after(Seq::empty(), text.skip(1), by)
    } else {
        pieces_after(piece.push(text[0]), text.skip(1), by)
    }
}

/// The pieces of a text between separators.
pub open spec fn pieces(text: Seq<char>, by: char) -> Seq<Seq<char>> {
    pieces_after(Seq::empty(), text, by)
}

/// What follows a separator makes up its own pieces.
proof fn pieces_split(piece: Seq<char>, a: Seq<char>, b: Seq<char>, by: char)
    ensures
        pieces_after(piece, a.push(by) + b, by) == pieces_after(piece, a, by) + pieces(b, by),
    decreases a.len(),
{
    let text = a.push(by) + b;
    if a.len() == 0 {
        assert(text[0] == by);
        assert(text.skip(1) =~= b);
    } else {
        assert(text[0] == a[0]);
        assert(text.skip(1) =~= a.skip(1).push(by) + b);
        if a[0] == by {
            pieces_split(Seq::empty(), a.skip(1), b, by);
            assert(seq![piece] + (pieces(a.skip(1), by) + pieces(b, by)) =~= (seq![piece] + pieces(
                a.skip(1),
                by,
            )) + pieces(b, by));
        } else {
            pieces_split(piece.push(a[0]), a.skip(1), b, by);
        }
    }
}

/// A text without the separator is one piece.
proof fn one_piece(piece: Seq<char>, text: Seq<char>, by: char)
    requires
        !text.contains(by),
    ensures
        pieces_after(piece, text, by) == seq![piece + text],
    decreases text.len(),
{
    if text.len() == 0 {
        assert(piece + text =~= piece);
    } else {
        assert(text[0] != by) by {
            assert(text.contains(text[0]));
        }
        assert(!text.skip(1).contains(by)) by {
            if text.skip(1).contains(by) {
                let i = choose|i: int| 0 <= i < text.skip(1).len() && text.skip(1)[i] == by;
                assert(text[i + 1] == by);
            }
        }
        one_piece(piece.push(text[0]), text.skip(1), by);
        assert(piece.push(text[0]) + text.skip(1) =~= piece + text);
    }
}

/// Parts with a separator between them can be taken apart again, as long as none holds the
/// separator.
pub proof fn separated_parts_come_apart(parts: Seq<Seq<char>>, by: char)
    requires
        parts.len() > 0,
        forall|i: int| 0 <= i < parts.len() ==> !(#[trigger] parts[i]).contains(by),
    ensures
        pieces(separated(parts, by), by) == parts,
    decreases parts.len(),
{
    assert(!parts.last().contains(by)) by {
        assert(parts.last() == parts[parts.len() - 1]);
    }
    if parts.len() == 1 {
        one_piece(Seq::empty(), parts[0], by);
        assert(Seq::<char>::empty() + parts[0] =~= parts[0]);
        assert(parts =~= seq![parts[0]]);
    } else {
        let front = parts.drop_last();
        assert forall|i: int| 0 <= i < front.len() implies !(#[trigger] front[i]).contains(by) by {
            assert(front[i] == parts[i]);
        }
        separated_parts_come_apart(front, by);
        pieces_split(Seq::empty(), separated(front, by), parts.last(), by);
        one_piece(Seq::empty(), parts.last(), by);
        assert(Seq::<char>::empty() + parts.last() =~= parts.last());
        assert(parts =~= front + seq![parts.last()]);
    }
}

/// The name of an extension module tells where it lies in the root: it is a slash, and the
/// components below the root with a slash between them.
pub proof fn extension_names_tell_their_place(root: Seq<String>, components: Seq<String>)
    requires
        root.len() < components.len(),
        forall|i: int|
            root.len() <= i < components.len() ==> !(#[trigger] components[i])@.contains('/')
                && !components[i]@.contains('\\'),
    ensures
        extension_name(root, components).len() > 0,
        extension_name(root, components)[0] == '/',
        pieces(extension_name(root, components).skip(1), '/') == texts(
            components.skip(root.len() as int),
        ),
{
    reveal_strlit("/");
    let parts = texts(components.skip(root.len() as int));
    assert forall|i: int| 0 <= i < parts.len() implies !(#[trigger] parts[i]).contains('/')
        && !parts[i].contains('\\') by {
        assert(parts[i] == components[i + root.len()]@);
    }
    separated_parts_come_apart(parts, '/');
    no_other_character(parts, '/', '\\');
    let whole = separated(parts, '/');
    let mapped = whole.map_values(
        |c: char|
            if c == '\\' {
                '/'
            } else {
                c
            },
    );
    assert(mapped =~= whole) by {
        assert forall|i: int| 0 <= i < whole.len() implies mapped[i] == whole[i] by {
            if whole[i] == '\\' {
                assert(whole.contains('\\'));
            }
        }
    }
    assert(extension_name(root, components).skip(1) =~= whole);
}

/// A character that is in no part, and does not separate them, is not in the whole.
proof fn no_other_character(parts: Seq<Seq<char>>, by: char, other: char)
    requires
        by != other,
        forall|i: int| 0 <= i < parts.len() ==> !(#[trigger] parts[i]).contains(other),
    ensures
        !separated(parts, by).contains(other),
    decreases parts.len(),
{
    if parts.len() == 1 {
        assert(!parts[0].contains(other));
    } else if parts.len() > 1 {
        let front = parts.drop_last();
        assert forall|i: int| 0 <= i < front.len() implies !(#[trigger] front[i]).contains(
            other,
        ) by {
            assert(front[i] == parts[i]);
        }
        no_other_character(front, by, other);
        let whole = separated(parts, by);
        let before = separated(front, by);
        if whole.contains(other) {
            let i = choose|i: int| 0 <= i < whole.len() && whole[i] == other;
            if i < before.len() {
                assert(before[i] == other);
                assert(before.contains(other));
            } else if i > before.len() {
                let k = i - before.len() - 1;
                assert(parts.last()[k] == other);
                assert(parts[parts.len() - 1].contains(other));
            }
        }
    }
}

/// Names are ordered as in a dictionary: where two go on differently behind a common beginning, the
/// smaller character decides, and a name comes before every longer one that begins with it.
pub proof fn names_are_in_dictionary_order(
    common: Seq<char>,
    a: char,
    b: char,
    rest_a: Seq<char>,
    rest_b: Seq<char>,
)
    ensures
        (a as u32) < (b as u32) ==> text_before(
            common.push(a) + rest_a,
            common.push(b) + rest_b,
        ) && !text_before(common.push(b) + rest_b, common.push(a) + rest_a),
        text_before(common, common.push(a) + rest_a),
        !text_before(common.push(a) + rest_a, common),
        !text_before(common, common),
    decreases common.len(),
{
    let x = common.push(a) + rest_a;
    let y = common.push(b) + rest_b;
    if common.len() == 0 {
        assert(x[0] == a && y[0] == b);
    } else {
        let less = common.skip(1);
        names_are_in_dictionary_order(less, a, b, rest_a, rest_b);
        assert(x[0] == common[0] && y[0] == common[0]);
        assert(x.skip(1) =~= less.push(a) + rest_a);
        assert(y.skip(1) =~= less.push(b) + rest_b);
    }
}

/// Whether a path comes before another or is the same: at the first component in which they differ
/// the name decides, and a directory comes before what lies in it.
pub open spec fn path_le(a: Seq<Seq<char>>, b: Seq<Seq<char>>) -> bool
    decreases a.len(),
{
    if a.len() == 0 {
        true
    } else if b.len() == 0 {
        false
    } else if a[0] != b[0] {
        text_before(a[0], b[0])
    } else {
        path_le(a.skip(1), b.skip(1))
    }
}

/// The keys of characters are ordered as the characters are, and none is the end of a name.
proof fn char_keys_ordered(a: char, b: char)
    ensures
        char_key(a) > 0,
        char_key(a) == char_key(b) <==> a == b,
        char_key(a) < char_key(b) <==> (a as int) < (b as int),
{
}

/// The keys of components are ordered as their names are.
proof fn component_keys_ordered(x: Seq<char>, s: Seq<u64>, y: Seq<char>, t: Seq<u64>)
    ensures
        key_le(component_key(x) + s, component_key(y) + t) == if x == y {
            key_le(s, t)
        } else {
            text_before(x, y)
        },
    decreases x.len(),
{
    let p = component_key(x) + s;
    let q = component_key(y) + t;
    if x.len() == 0 && y.len() == 0 {
        assert(x =~= y);
        assert(p.skip(1) =~= s);
        assert(q.skip(1) =~= t);
        assert(p[0] == 0 && q[0] == 0);
    } else if x.len() == 0 {
        assert(p[0] == 0);
        assert(q[0] == char_key(y[0]));
        char_keys_ordered(y[0], y[0]);
    } else if y.len() == 0 {
        assert(q[0] == 0);
        assert(p[0] == char_key(x[0]));
        char_keys_ordered(x[0], x[0]);
    } else {
        assert(p[0] == char_key(x[0]));
        assert(q[0] == char_key(y[0]));
        char_keys_ordered(x[0], y[0]);
        if x[0] == y[0] {
            component_keys_ordered(x.skip(1), s, y.skip(1), t);
            assert(p.skip(1) =~= component_key(x.skip(1)) + s);
            assert(q.skip(1) =~= component_key(y.skip(1)) + t);
            if x.skip(1) == y.skip(1) {
                assert(x =~= seq![x[0]] + x.skip(1));
                assert(y =~= seq![y[0]] + y.skip(1));
            }
        }
    }
}

/// The key of a path begins with that of its first component.
proof fn path_key_from_front(components: Seq<String>)
    requires
        components.len() > 0,
    ensures
        path_key(components) == component_key(components[0]@) + path_key(components.skip(1)),
    decreases components.len(),
{
    let front = components.drop_last();
    if components.len() == 1 {
        assert(front =~= Seq::<String>::empty());
        assert(components.skip(1) =~= Seq::<String>::empty());
        assert(path_key(Seq::<String>::empty()) =~= Seq::<u64>::empty());
        assert(path_key(components) =~= component_key(components[0]@) + path_key(
            components.skip(1),
        ));
    } else {
        path_key_from_front(front);
        assert(front.skip(1) =~= components.skip(1).drop_last());
        assert(path_key(components) =~= component_key(components[0]@) + path_key(
            components.skip(1),
        ));
    }
}

/// Paths are ordered component by component, each by its name.
pub proof fn paths_are_ordered_by_component(a: Seq<String>, b: Seq<String>)
    ensures
        key_le(path_key(a), path_key(b)) == path_le(texts(a), texts(b)),
    decreases a.len(),
{
    if a.len() > 0 {
        path_key_from_front(a);
        assert(texts(a).skip(1) =~= texts(a.skip(1)));
        assert(path_key(a).len() > 0);
    }
    if b.len() > 0 {
        path_key_from_front(b);
        assert(texts(b).skip(1) =~= texts(b.skip(1)));
    }
    if a.len() > 0 && b.len() > 0 {
        component_keys_ordered(a[0]@, path_key(a.skip(1)), b[0]@, path_key(b.skip(1)));
        paths_are_ordered_by_component(a.skip(1), b.skip(1));
        assert(texts(a)[0] == a[0]@ && texts(b)[0] == b[0]@);
    }
}

/// Only the runtime of a guest has a shim and comes from where it was compiled. Every other library
/// is taken from the library directory under its own name, and none of them is opened at run time.
pub open spec fn is_linked_base(
    libraries: Seq<LibraryView>,
    wasi_deps_dir: Seq<char>,
    runtime: Seq<char>,
) -> bool {
    &&& libraries.len() > 0
    &&& libraries[0].path == runtime
    &&& libraries[0].async_shim_name is Some
    &&& forall|i: int| 0 <= i < libraries.len() ==> !(#[trigger] libraries[i]).dlopen
    &&& forall|i: int|
        0 < i < libraries.len() ==> (#[trigger] libraries[i]).async_shim_name is None
            && libraries[i].path == joined(joined(wasi_deps_dir, "lib"@), libraries[i].name)
}

/// Both guests are linked from their runtime and the libraries of the library directory. The
/// Python guest is linked from all the system libraries of the JavaScript guest, and more.
pub proof fn guests_are_linked_from_the_library_directory(
    wasi_deps_dir: Seq<char>,
    runtime: Seq<char>,
)
    ensures
        is_linked_base(js_library_views(wasi_deps_dir, runtime), wasi_deps_dir, runtime),
        is_linked_base(python_base_views(wasi_deps_dir, runtime), wasi_deps_dir, runtime),
        js_library_views(wasi_deps_dir, runtime).len() == 5,
        python_base_views(wasi_deps_dir, runtime).len() == 8,
        js_library_views(wasi_deps_dir, runtime).skip(1) == python_base_views(
            wasi_deps_dir,
            runtime,
        ).subrange(1, 5),
        js_library_views(wasi_deps_dir, runtime)[1].name == "libc.so"@,
{
    assert(js_library_views(wasi_deps_dir, runtime).skip(1) =~= python_base_views(
        wasi_deps_dir,
        runtime,
    ).subrange(1, 5));
}

/// Whether a payload is the section that marks a shared library.
pub open spec fn marks_shared(payload: Result<Option<Seq<char>>, Seq<char>>) -> bool {
    payload == Ok::<Option<Seq<char>>, Seq<char>>(Some("dylink.0"@))
}

/// Whether all payloads before a position could be read.
pub open spec fn readable_before(
    payloads: Seq<Result<Option<Seq<char>>, Seq<char>>>,
    i: int,
) -> bool {
    forall|k: int| 0 <= k < i ==> (#[trigger] payloads[k]) is Ok
}

/// A module is a shared library exactly where the section that marks one is found before anything
/// that cannot be read. Where something cannot be read before it, that is what is reported.
pub proof fn shared_libraries_are_marked(
    payloads: Seq<Result<Option<Seq<char>>, Seq<char>>>,
    r: Result<bool, String>,
)
    requires
        dylink_found(payloads, r),
    ensures
        r matches Ok(true) <==> exists|i: int|
            0 <= i < payloads.len() && #[trigger] marks_shared(payloads[i]) && readable_before(
                payloads,
                i,
            ),
        r matches Ok(false) ==> readable_before(payloads, payloads.len() as int) && forall|i: int|
            0 <= i < payloads.len() ==> !#[trigger] marks_shared(payloads[i]),
        r matches Err(message) ==> exists|i: int|
            0 <= i < payloads.len() && #[trigger] payloads[i] == Err::<Option<Seq<char>>, Seq<char>>(
                message@,
            ) && readable_before(payloads, i),
{
    match r {
        Ok(true) => {
            let i = choose|i: int| #[trigger] search_end(payloads, i) && payloads[i] is Ok;
            assert forall|k: int| 0 <= k < i implies (#[trigger] payloads[k]) is Ok by {
                assert(!ends_search(payloads[k]));
            }
            assert(marks_shared(payloads[i]) && readable_before(payloads, i));
        },
        Ok(false) => {
            assert forall|k: int| 0 <= k < payloads.len() implies (#[trigger] payloads[k])
                is Ok by {
                assert(!ends_search(payloads[k]));
            }
            assert forall|i: int| 0 <= i < payloads.len() implies !#[trigger] marks_shared(
                payloads[i],
            ) by {
                assert(!ends_search(payloads[i]));
            }
        },
        Err(message) => {
            let i = choose|i: int| #[trigger]
                search_end(payloads, i) && payloads[i] == Err::<Option<Seq<char>>, Seq<char>>(
                    message@,
                );
            assert forall|k: int| 0 <= k < i implies (#[trigger] payloads[k]) is Ok by {
                assert(!ends_search(payloads[k]));
            }
            assert(readable_before(payloads, i));
            assert forall|j: int|
                0 <= j < payloads.len() && #[trigger] marks_shared(
                    payloads[j],
                ) implies !readable_before(payloads, j) by {
                if j < i {
                    assert(!ends_search(payloads[j]));
                } else if readable_before(payloads, j) && j > i {
                    assert(payloads[i] is Ok);
                }
            }
        },
    }
}

/// A component that was built is found up to date by the next build with the same inputs, as long
/// as it is still there.
pub proof fn unchanged_component_is_up_to_date(
    inputs: &[BuildInput],
    found: &[(ComponentLibrary, FileMetadata)],
    loaded: Seq<LoadedComponentLibrary>,
    stack_size: u32,
    output_exists: bool,
    cached: &str,
    r: MetadataCheck,
)
    requires
        cached@ == recording(
            metadata_print(inputs@, found@, stack_size),
            content_print(inputs@, loaded, stack_size),
        ),
        call_ensures(
            component_by_metadata,
            (inputs, found, stack_size, output_exists, cached),
            r,
        ),
    ensures
        r is UpToDate <==> output_exists,
{
    recorded_build_is_found_again(inputs@, found@, loaded, stack_size);
}

/// A component that is not there is never up to date, and has to be linked.
pub proof fn missing_component_is_linked(
    inputs: &[BuildInput],
    found: &[(ComponentLibrary, FileMetadata)],
    loaded: &[LoadedComponentLibrary],
    stack_size: u32,
    cached: &str,
    pending: PendingComponent,
    by_metadata: MetadataCheck,
    by_content: ContentCheck,
)
    requires
        call_ensures(component_by_metadata, (inputs, found, stack_size, false, cached), by_metadata),
        call_ensures(
            PendingComponent::by_content,
            (&pending, inputs, loaded, stack_size, false),
            by_content,
        ),
    ensures
        by_metadata is Load,
        by_content is Link,
{
}

/// Where the file system says something new but the contents are the same, nothing is linked, and
/// what is recorded makes the next build find the component up to date.
pub proof fn same_contents_are_not_linked_again(
    inputs: &[BuildInput],
    found: &[(ComponentLibrary, FileMetadata)],
    loaded: &[LoadedComponentLibrary],
    stack_size: u32,
    cached: &str,
    pending: PendingComponent,
    by_content: ContentCheck,
)
    requires
        recorded(cached@).1 == content_print(inputs@, loaded@, stack_size),
        call_ensures(
            component_by_metadata,
            (inputs, found, stack_size, true, cached),
            MetadataCheck::Load(pending),
        ),
        call_ensures(
            PendingComponent::by_content,
            (&pending, inputs, loaded, stack_size, true),
            by_content,
        ),
    ensures
        by_content matches ContentCheck::Refresh(text) && recorded(text@) == (
            metadata_print(inputs@, found@, stack_size),
            content_print(inputs@, loaded@, stack_size),
        ),
{
    recorded_build_is_found_again(inputs@, found@, loaded@, stack_size);
}

/// A component is taken for up to date with other libraries than those it was built from only where
/// both hashers collide.
pub proof fn changed_component_is_up_to_date_only_by_collision(
    inputs: &[BuildInput],
    found: &[(ComponentLibrary, FileMetadata)],
    changed: &[(ComponentLibrary, FileMetadata)],
    stack_size: u32,
    cached: &str,
)
    requires
        call_ensures(
            component_by_metadata,
            (inputs, found, stack_size, true, cached),
            MetadataCheck::UpToDate,
        ),
        call_ensures(
            component_by_metadata,
            (inputs, changed, stack_size, true, cached),
            MetadataCheck::UpToDate,
        ),
    ensures
        ({
            let a = crate::component_laws::metadata_of(inputs@, found@, stack_size);
            let b = crate::component_laws::metadata_of(inputs@, changed@, stack_size);
            crate::component_laws::same_hashes(a, b)
        }),
{
    let a = crate::component_laws::metadata_of(inputs@, found@, stack_size);
    let b = crate::component_laws::metadata_of(inputs@, changed@, stack_size);
    fingerprint_tells_both_hashes(a, b);
}

/// A task is found under its name, and under no other.
pub proof fn tasks_are_found_by_name(task: Task, other: Task)
    ensures
        task_text(task) == task_text(other) ==> task == other,
{
    reveal_strlit("build-all");
    reveal_strlit("build-python");
    reveal_strlit("build-js");
    assert("build-all"@.len() == 9 && "build-python"@.len() == 12 && "build-js"@.len() == 8);
}

/// The task that builds all builds what every other task builds, in the order in which they are
/// listed; every other builds itself alone.
pub proof fn build_all_builds_every_guest(task: Task, listed: Vec<Task>, guests: Vec<Task>)
    requires
        call_ensures(Task::all, (), listed),
        call_ensures(Task::guests, (&task,), guests),
    ensures
        listed@.contains(task),
        task == Task::BuildAll ==> guests@ == listed@.skip(1),
        task != Task::BuildAll ==> guests@ == seq![task],
        !guests@.contains(Task::BuildAll),
{
    assert(listed@[0] == Task::BuildAll && listed@[1] == Task::BuildPython && listed@[2]
        == Task::BuildJs);
    match task {
        Task::BuildAll => {
            assert(guests@ =~= listed@.skip(1));
        },
        _ => {},
    }
}

/// A line is read without the newline that ends it, and without a carriage return before the
/// newline; what follows the newline is left.
pub proof fn lines_end_with_or_without_return(line: Seq<char>, rest: Seq<char>)
    requires
        !line.contains('\n'),
    ensures
        first_line(line.push('\r').push('\n') + rest) == (line, rest),
        line.len() == 0 || line.last() != '\r' ==> first_line(line.push('\n') + rest) == (
            line,
            rest,
        ),
        first_line(line) == (line, Seq::<char>::empty()),
{
    line_is_first(line.push('\r'), rest);
    line_is_first(line, rest);
    assert(line.push('\r').drop_last() =~= line);
    line.index_of_first_ensures('\n');
}

/// What stands before the first newline is the first line.
proof fn line_is_first(line: Seq<char>, rest: Seq<char>)
    requires
        forall|i: int| 0 <= i < line.len() ==> #[trigger] line[i] != '\n',
    ensures
        first_line(line.push('\n') + rest) == (without_return(line), rest),
{
    let text = line.push('\n') + rest;
    text.index_of_first_ensures('\n');
    let n = line.len() as int;
    assert(text[n] == '\n');
    assert(text.contains('\n'));
    let at = text.index_of_first('\n')->0;
    if at < n {
        assert(line[at] == '\n');
    }
    assert(at == n);
    assert(text.take(n) =~= line);
    assert(text.skip(n + 1) =~= rest);
}

/// Whether a path begins with the components of a directory.
pub open spec fn begins_with(components: Seq<String>, root: Seq<String>) -> bool {
    root.len() <= components.len() && forall|i: int|
        0 <= i < root.len() ==> (#[trigger] components[i])@ == root[i]@
}

/// A path lies in a directory exactly where it begins with its components.
proof fn under_is_beginning(root: Seq<String>, components: Seq<String>)
    ensures
        is_under(root, components) <==> begins_with(components, root),
{
    if root.len() <= components.len() {
        let x = texts(components.take(root.len() as int));
        let y = texts(root);
        if is_under(root, components) {
            assert forall|i: int| 0 <= i < root.len() implies (#[trigger] components[i])@
                == root[i]@ by {
                assert(x[i] == y[i]);
            }
        }
        if begins_with(components, root) {
            assert forall|i: int| 0 <= i < root.len() implies x[i] == y[i] by {
                assert(components[i]@ == root[i]@);
            }
            assert(x =~= y);
        }
    }
}

/// The Python guest is linked from its fixed libraries and then from each extension module that was
/// found, in the given order: under the name of its place, from where it lies, to be opened at run
/// time. It is linked only where all of them lie in the root.
pub proof fn extensions_are_linked_behind_the_base(
    wasi_deps_dir: Seq<char>,
    root: Seq<String>,
    runtime: Seq<char>,
    sorted: Seq<FoundPath>,
    r: Result<Vec<ComponentLibrary>, String>,
)
    requires
        python_linked(wasi_deps_dir, root, runtime, sorted, r),
    ensures
        r is Ok <==> forall|i: int|
            0 <= i < sorted.len() ==> begins_with((#[trigger] sorted[i]).components@, root),
        r matches Ok(libraries) ==> {
            &&& libraries@.len() == 8 + sorted.len()
            &&& forall|i: int|
                0 <= i < 8 ==> (#[trigger] libraries@[i])@ == python_base_views(
                    wasi_deps_dir,
                    runtime,
                )[i]
            &&& forall|i: int|
                8 <= i < libraries@.len() ==> (#[trigger] libraries@[i]).path@
                    == sorted[i - 8].path@ && libraries@[i].dlopen
                    && libraries@[i].async_shim_name is None && libraries@[i].name@
                    == extension_name(root, sorted[i - 8].components@)
        },
{
    match r {
        Ok(libraries) => {
            let base = python_base_views(wasi_deps_dir, runtime);
            let all = base + sorted.map_values(|found: FoundPath| extension_library(root, found));
            let views = library_views(libraries@);
            assert(views == all);
            assert(views.len() == libraries@.len());
            assert forall|i: int| 0 <= i < sorted.len() implies begins_with(
                (#[trigger] sorted[i]).components@,
                root,
            ) by {
                under_is_beginning(root, sorted[i].components@);
            }
            assert forall|i: int| 0 <= i < 8 implies (#[trigger] libraries@[i])@ == base[i] by {
                assert(views[i] == all[i]);
            }
            assert forall|i: int| 8 <= i < libraries@.len() implies (#[trigger] libraries@[i]).path@
                == sorted[i - 8].path@ && libraries@[i].dlopen && libraries@[i].async_shim_name
                is None && libraries@[i].name@ == extension_name(
                root,
                sorted[i - 8].components@,
            ) by {
                assert(views[i] == all[i]);
                assert(views[i] == libraries@[i]@);
                assert(all[i] == extension_library(root, sorted[i - 8]));
            }
        },
        Err(message) => {
            let i = choose|i: int| #[trigger]
                first_outside(root, sorted, i) && message@ == sorted[i].path@
                    + " is outside the linker input root"@;
            under_is_beginning(root, sorted[i].components@);
            assert(!begins_with(sorted[i].components@, root));
        },
    }
}

/// Sorted paths are in the order of their components, each with every one behind it.
pub proof fn sorted_paths_ascend(paths: Seq<FoundPath>, i: int, j: int)
    requires
        is_sorted(paths),
        0 <= i <= j < paths.len(),
    ensures
        path_le(texts(paths[i].components@), texts(paths[j].components@)),
{
    paths_are_ordered_by_component(paths[i].components@, paths[j].components@);
}

} // verus!
