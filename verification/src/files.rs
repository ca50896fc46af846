//! Names of files, and their extensions.

use vstd::prelude::*;
use vstd::string::*;

verus! {

/// `std::path::PathBuf`, carried through unopened.
#[verifier::external_type_specification]
#[verifier::external_body]
pub struct ExPathBuf(std::path::PathBuf);

/// How much of a path names directories: all up to the last slash.
pub open spec fn directory_length(path: Seq<char>) -> nat
    decreases path.len(),
{
    if path.len() == 0 {
        0
    } else if path.last() == '/' {
        path.len()
    } else {
        directory_length(path.drop_last())
    }
}

/// The directories of a path, with the last slash.
pub open spec fn directory_part(path: Seq<char>) -> Seq<char> {
    path.take(directory_length(path) as int)
}

/// What follows the last slash of a path.
pub open spec fn file_part(path: Seq<char>) -> Seq<char> {
    path.skip(directory_length(path) as int)
}

/// Some platform takes the character for a separator or for the end of a drive.
pub open spec fn is_divider(c: char) -> bool {
    c == '\\' || c == ':'
}

/// Where the last such character of a name stands, or -1.
pub open spec fn last_divider(name: Seq<char>) -> int
    decreases name.len(),
{
    if name.len() == 0 {
        -1
    } else if is_divider(name.last()) {
        name.len() - 1
    } else {
        last_divider(name.drop_last())
    }
}

/// Whether or not a platform divides the name, what it takes for its extension is
/// the same: behind the last divider there is something that does not begin with
/// a dot, and before it there is no dot.
pub open spec fn is_divided_alike(name: Seq<char>) -> bool {
    last_divider(name) >= 0 ==> {
        &&& last_divider(name) + 1 < name.len()
        &&& name[last_divider(name) + 1] != '.'
        &&& forall|i: int| 0 <= i < last_divider(name) ==> #[trigger] name[i] != '.'
    }
}

/// The path begins with the two separators of a network share.
pub open spec fn begins_with_share(path: Seq<char>) -> bool {
    &&& path.len() >= 2
    &&& path[0] == '/' || path[0] == '\\'
    &&& path[1] == '/' || path[1] == '\\'
}

/// The path ends with the name of a file, and every platform takes the same for
/// the extension of that name: it does not end in a slash or in a dot that stands
/// for a directory, is divided alike, and does not begin as a network share.
pub open spec fn names_file(path: Seq<char>) -> bool {
    &&& file_part(path).len() > 0
    &&& file_part(path) != "."@
    &&& file_part(path) != ".."@
    &&& is_divided_alike(file_part(path))
    &&& !begins_with_share(path)
}

/// Where the last dot of a file name stands, or -1.
pub open spec fn last_dot(name: Seq<char>) -> int
    decreases name.len(),
{
    if name.len() == 0 {
        -1
    } else if name.last() == '.' {
        name.len() - 1
    } else {
        last_dot(name.drop_last())
    }
}

/// A file name without its extension: what stands before the last dot, unless
/// that is nothing.
pub open spec fn stem(name: Seq<char>) -> Seq<char> {
    if last_dot(name) <= 0 {
        name
    } else {
        name.take(last_dot(name))
    }
}

/// A path with its extension replaced, or with one added where it had none.
pub open spec fn extended(path: Seq<char>, extension: Seq<char>) -> Seq<char> {
    directory_part(path) + stem(file_part(path)) + "."@ + extension
}

/// Calls `std::path::PathBuf::set_extension`, and claims of it: where the path
/// ends with the name of a file, the extension of that name is replaced, or
/// added where there was none. Left unsaid is what becomes of paths that end
/// otherwise, or that the platforms divide in different ways.
#[verifier::external_body]
pub(crate) fn set_extension(path: &str, extension: &str) -> (r: String)
    requires
        extension@.len() > 0,
        !extension@.contains('/'),
        !extension@.contains('\\'),
    ensures
        names_file(path@) ==> r@ == extended(path@, extension@),
{
    let mut buffer = std::path::PathBuf::from(path);
    buffer.set_extension(extension);
    String::from(buffer.to_string_lossy())
}

/// A name without dots and without any character that some platform takes for a
/// separator or a drive.
pub open spec fn is_plain(name: Seq<char>) -> bool {
    &&& name.len() > 0
    &&& forall|i: int|
        0 <= i < name.len() ==> (#[trigger] name[i]) != '/' && name[i] != '\\' && name[i] != ':'
            && name[i] != '.'
}

/// A name without slashes and dots that ends with the name of a file on every
/// platform.
pub open spec fn is_undotted(name: Seq<char>) -> bool {
    &&& name.len() > 0
    &&& forall|i: int| 0 <= i < name.len() ==> (#[trigger] name[i]) != '/' && name[i] != '.'
    &&& !is_divider(name.last())
    &&& !begins_with_share(name)
}

proof fn lemma_last_divider(name: Seq<char>)
    ensures
        -1 <= last_divider(name) < name.len(),
        last_divider(name) >= 0 ==> is_divider(name[last_divider(name)]),
        forall|i: int| last_divider(name) < i < name.len() ==> !is_divider(#[trigger] name[i]),
    decreases name.len(),
{
    if name.len() > 0 && !is_divider(name.last()) {
        let front = name.drop_last();
        lemma_last_divider(front);
        assert forall|i: int| last_divider(name) < i < name.len() implies !is_divider(
            #[trigger] name[i],
        ) by {
            if i < front.len() {
                assert(front[i] == name[i]);
            }
        }
    }
}

/// What follows without dividers does not move the last divider.
proof fn lemma_divider_stays(name: Seq<char>, rest: Seq<char>)
    requires
        forall|i: int| 0 <= i < rest.len() ==> !is_divider(#[trigger] rest[i]),
    ensures
        last_divider(name + rest) == last_divider(name),
    decreases rest.len(),
{
    if rest.len() == 0 {
        assert(name + rest =~= name);
    } else {
        let shorter = rest.drop_last();
        assert forall|i: int| 0 <= i < shorter.len() implies !is_divider(#[trigger] shorter[i]) by {
            assert(shorter[i] == rest[i]);
        }
        lemma_divider_stays(name, shorter);
        assert((name + rest).last() == rest[rest.len() - 1]);
        assert((name + rest).drop_last() =~= name + shorter);
    }
}

/// An undotted name names a file, and an extension is added to it.
pub proof fn lemma_undotted_name(name: Seq<char>, extension: Seq<char>)
    requires
        is_undotted(name),
    ensures
        names_file(name),
        extended(name, extension) == name + "."@ + extension,
{
    reveal_strlit(".");
    reveal_strlit("..");
    assert(!name.contains('/'));
    assert(!name.contains('.'));
    lemma_no_directory(name);
    lemma_no_dot(name);
    lemma_last_divider(name);
    assert("."@[0] == '.' && ".."@[0] == '.');
    assert(extended(name, extension) =~= name + "."@ + extension);
}

/// Where an undotted name has a plain extension, it is that extension which is
/// replaced.
pub proof fn lemma_extension_replaced(
    name: Seq<char>,
    extension: Seq<char>,
    replacement: Seq<char>,
)
    requires
        is_undotted(name),
        is_plain(extension),
    ensures
        names_file(name + "."@ + extension),
        extended(name + "."@ + extension, replacement) == name + "."@ + replacement,
{
    reveal_strlit(".");
    reveal_strlit("..");
    let whole = name + "."@ + extension;
    let rest = "."@ + extension;
    assert forall|i: int| 0 <= i < rest.len() implies !is_divider(#[trigger] rest[i]) by {
        if i > 0 {
            assert(rest[i] == extension[i - 1]);
        }
    }
    assert(whole =~= name + rest);
    lemma_divider_stays(name, rest);
    lemma_last_divider(name);
    assert forall|i: int| 0 <= i < whole.len() implies (#[trigger] whole[i]) != '/' by {
        if i > name.len() {
            assert(whole[i] == extension[i - name.len() - 1]);
        }
    }
    assert(!whole.contains('/'));
    assert(!extension.contains('.'));
    lemma_no_directory(whole);
    lemma_stem_of_extended(name, extension);
    assert(whole[0] == name[0]);
    if begins_with_share(whole) {
        assert(name.len() >= 2 ==> whole[1] == name[1]);
        assert(name.len() == 1 ==> whole[1] == '.');
    }
    assert(extended(whole, replacement) =~= name + "."@ + replacement);
}

/// The directory part of a path is told by its last slash.
proof fn lemma_split_path(directory: Seq<char>, name: Seq<char>)
    requires
        directory.len() > 0 ==> directory.last() == '/',
        !name.contains('/'),
    ensures
        directory_length(directory + name) == directory.len(),
        directory_part(directory + name) == directory,
        file_part(directory + name) == name,
    decreases name.len(),
{
    let path = directory + name;
    if name.len() == 0 {
        assert(path =~= directory);
    } else {
        let shorter = name.drop_last();
        assert(name.last() != '/');
        assert forall|i: int| 0 <= i < shorter.len() implies shorter[i] != '/' by {
            assert(name[i] != '/');
        }
        lemma_split_path(directory, shorter);
        assert(path.drop_last() =~= directory + shorter);
    }
    assert(directory_part(path) =~= directory);
    assert(file_part(path) =~= name);
}

proof fn lemma_directory_length(path: Seq<char>)
    ensures
        directory_length(path) <= path.len(),
        directory_part(path).len() > 0 ==> directory_part(path).last() == '/',
        !file_part(path).contains('/'),
    decreases path.len(),
{
    if path.len() > 0 && path.last() != '/' {
        let front = path.drop_last();
        lemma_directory_length(front);
        let n = directory_length(path) as int;
        assert(directory_part(path) =~= directory_part(front));
        assert forall|i: int| 0 <= i < file_part(path).len() implies file_part(path)[i] != '/' by {
            if i < file_part(front).len() {
                assert(file_part(path)[i] == file_part(front)[i]);
                assert(file_part(front).contains(file_part(front)[i]));
            }
        }
    }
}

proof fn lemma_last_dot(name: Seq<char>)
    ensures
        -1 <= last_dot(name) < name.len(),
        last_dot(name) >= 0 ==> name[last_dot(name)] == '.',
    decreases name.len(),
{
    if name.len() > 0 && name.last() != '.' {
        lemma_last_dot(name.drop_last());
    }
}

/// The stem of a name that is divided alike holds all that is divided.
proof fn lemma_stem_is_divided_alike(name: Seq<char>)
    requires
        is_divided_alike(name),
    ensures
        stem(name).len() <= name.len(),
        stem(name) == name.take(stem(name).len() as int),
        last_divider(stem(name)) == last_divider(name),
        is_divided_alike(stem(name)),
{
    let front = stem(name);
    let cut = name.skip(front.len() as int);
    let k = last_divider(name);
    lemma_last_dot(name);
    lemma_last_divider(name);
    assert(front =~= name.take(front.len() as int));
    assert(name =~= front + cut);
    assert(k >= 0 ==> k + 1 < front.len());
    assert forall|i: int| 0 <= i < cut.len() implies !is_divider(#[trigger] cut[i]) by {
        assert(cut[i] == name[front.len() + i]);
    }
    lemma_divider_stays(front, cut);
    if k >= 0 {
        assert(front[k + 1] == name[k + 1]);
        assert forall|i: int| 0 <= i < k implies #[trigger] front[i] != '.' by {
            assert(front[i] == name[i]);
        }
    }
}

/// With a plain extension such a name stays divided alike.
proof fn lemma_extension_is_divided_alike(front: Seq<char>, extension: Seq<char>)
    requires
        is_divided_alike(front),
        is_plain(extension),
    ensures
        is_divided_alike(front + "."@ + extension),
{
    reveal_strlit(".");
    let rest = "."@ + extension;
    let whole = front + "."@ + extension;
    assert forall|i: int| 0 <= i < rest.len() implies !is_divider(#[trigger] rest[i]) by {
        if i > 0 {
            assert(rest[i] == extension[i - 1]);
        }
    }
    assert(whole =~= front + rest);
    lemma_divider_stays(front, rest);
    lemma_last_divider(front);
    let k = last_divider(front);
    if k >= 0 {
        assert(whole[k + 1] == front[k + 1]);
        assert forall|i: int| 0 <= i < k implies #[trigger] whole[i] != '.' by {
            assert(whole[i] == front[i]);
        }
    }
}

/// With another extension a path still ends with the name of a file.
pub proof fn lemma_extended_names_file(path: Seq<char>, extension: Seq<char>)
    requires
        names_file(path),
        is_plain(extension),
    ensures
        names_file(extended(path, extension)),
{
    reveal_strlit(".");
    reveal_strlit("..");
    let directory = directory_part(path);
    let name = file_part(path);
    let whole = extended(path, extension);
    let front = stem(name);
    let new_name = front + "."@ + extension;
    lemma_directory_length(path);
    lemma_stem_is_divided_alike(name);
    lemma_extension_is_divided_alike(front, extension);
    assert(path =~= directory + name);
    assert forall|i: int| 0 <= i < new_name.len() implies new_name[i] != '/' by {
        if i < front.len() {
            assert(new_name[i] == name[i]);
            assert(name.contains(name[i]));
        } else if i > front.len() {
            assert(new_name[i] == extension[i - front.len() - 1]);
        }
    }
    assert(whole =~= directory + new_name);
    lemma_split_path(directory, new_name);
    assert(new_name.last() == extension.last());
    assert(".."@.last() == '.' && "."@.last() == '.');
    if begins_with_share(whole) {
        assert(whole.take((directory + front).len() as int) =~= directory + front);
        lemma_same_beginning(path, whole, directory, name, front);
    }
}

/// What begins a path still begins it with another extension.
proof fn lemma_same_beginning(
    path: Seq<char>,
    whole: Seq<char>,
    directory: Seq<char>,
    name: Seq<char>,
    front: Seq<char>,
)
    requires
        path == directory + name,
        whole.len() > (directory + front).len(),
        whole.take((directory + front).len() as int) == directory + front,
        whole[(directory + front).len() as int] == '.',
        front.len() <= name.len(),
        front == name.take(front.len() as int),
        begins_with_share(whole),
    ensures
        begins_with_share(path),
{
    let start = directory + front;
    assert(start.len() >= 2) by {
        if start.len() == 0 {
            assert(whole[0] == '.');
        } else if start.len() == 1 {
            assert(whole[1] == '.');
        }
    }
    assert(whole.take(start.len() as int)[0] == start[0]);
    assert(whole.take(start.len() as int)[1] == start[1]);
    assert forall|i: int| 0 <= i < start.len() implies start[i] == path[i] by {
        if i >= directory.len() {
            assert(front[i - directory.len()] == name[i - directory.len()]);
        }
    }
}

/// A text without slashes has no directory part.
pub proof fn lemma_no_directory(path: Seq<char>)
    requires
        !path.contains('/'),
    ensures
        directory_length(path) == 0,
        file_part(path) == path,
        directory_part(path).len() == 0,
    decreases path.len(),
{
    if path.len() > 0 {
        assert(path.last() != '/');
        assert forall|i: int| 0 <= i < path.drop_last().len() implies path.drop_last()[i] != '/' by {
            assert(path[i] != '/');
        }
        lemma_no_directory(path.drop_last());
    }
    assert(file_part(path) =~= path);
}

/// A text without dots is its own stem.
pub proof fn lemma_no_dot(name: Seq<char>)
    requires
        !name.contains('.'),
    ensures
        last_dot(name) == -1,
        stem(name) == name,
    decreases name.len(),
{
    if name.len() > 0 {
        assert(name.last() != '.');
        assert forall|i: int| 0 <= i < name.drop_last().len() implies name.drop_last()[i] != '.' by {
            assert(name[i] != '.');
        }
        lemma_no_dot(name.drop_last());
    }
}

/// A name followed by a dot and an extension without dots has that name for its
/// stem.
pub proof fn lemma_stem_of_extended(name: Seq<char>, extension: Seq<char>)
    requires
        name.len() > 0,
        !extension.contains('.'),
    ensures
        last_dot(name + "."@ + extension) == name.len(),
        stem(name + "."@ + extension) == name,
    decreases extension.len(),
{
    reveal_strlit(".");
    let whole = name + "."@ + extension;
    if extension.len() == 0 {
        assert(whole.last() == '.');
    } else {
        let shorter = extension.drop_last();
        assert(extension.last() != '.');
        assert forall|i: int| 0 <= i < shorter.len() implies shorter[i] != '.' by {
            assert(extension[i] != '.');
        }
        lemma_stem_of_extended(name, shorter);
        assert(whole.drop_last() =~= name + "."@ + shorter);
    }
    assert(stem(whole) =~= name);
}

/// What becomes of any path when it is given an extension. The directories stay. Of a
/// name that holds a dot behind its first character, what follows the last dot is
/// replaced; to any other name the extension is added.
pub proof fn law_extension_of_any_path(
    directory: Seq<char>,
    name: Seq<char>,
    old_extension: Seq<char>,
    extension: Seq<char>,
)
    requires
        directory.len() > 0 ==> directory.last() == '/',
        !name.contains('/'),
        !old_extension.contains('/'),
        !old_extension.contains('.'),
    ensures
        name.len() > 0 ==> extended(directory + (name + seq!['.'] + old_extension), extension)
            == directory + (name + seq!['.'] + extension),
        (forall|i: int| 0 < i < name.len() ==> #[trigger] name[i] != '.') ==> extended(
            directory + name,
            extension,
        ) == directory + (name + seq!['.'] + extension),
{
    reveal_strlit(".");
    assert("."@ =~= seq!['.']);
    let whole = name + seq!['.'] + old_extension;
    assert forall|i: int| 0 <= i < whole.len() implies whole[i] != '/' by {
        if i < name.len() {
            assert(name.contains(name[i]));
        } else if i > name.len() {
            assert(old_extension.contains(old_extension[i - name.len() - 1]));
        }
    }
    lemma_split_path(directory, whole);
    lemma_split_path(directory, name);
    if name.len() > 0 {
        lemma_stem_of_extended(name, old_extension);
        assert(extended(directory + whole, extension) =~= directory + (name + seq!['.']
            + extension));
    }
    if forall|i: int| 0 < i < name.len() ==> #[trigger] name[i] != '.' {
        lemma_last_dot(name);
        assert(stem(name) == name);
        assert(extended(directory + name, extension) =~= directory + (name + seq!['.']
            + extension));
    }
}

} // verus!
