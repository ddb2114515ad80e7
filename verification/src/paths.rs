//! Portable project-relative paths.

use vstd::prelude::*;
use vstd::string::*;

use crate::text::{
    chars_of, contains_char, same_text, split_on, split_text, text_between, texts,
};

verus! {

/// Whether a path component is empty, the current or the parent directory.
pub open spec fn is_special_component(component: Seq<char>) -> bool {
    component.len() == 0 || component == "."@ || component == ".."@
}

/// Whether a path has a component that is empty, the current or the parent directory.
pub open spec fn has_special_component(path: Seq<char>) -> bool {
    exists|i: int|
        0 <= i < split_on(path, '/').len() && is_special_component(
            #[trigger] split_on(path, '/')[i],
        )
}

/// Why a path is not a portable project-relative path.
pub open spec fn relative_path_defect(path: Seq<char>) -> Option<Seq<char>> {
    if path.len() == 0 {
        Some("path is empty"@)
    } else if path[0] == '/' || path.contains('\\') {
        Some("path must use portable project-relative separators"@)
    } else if has_special_component(path) {
        Some("path contains an empty, current, or parent component"@)
    } else {
        None
    }
}

/// Returns whether a path has a component that is empty, the current or the parent directory.
pub fn finds_special_component(path: &str) -> (found: bool)
    ensures
        found == has_special_component(path@),
{
    let segments = split_text(path, '/');
    let ghost all = split_on(path@, '/');
    let mut index: usize = 0;
    while index < segments.len()
        invariant
            all == texts(segments@),
            all == split_on(path@, '/'),
            index <= segments@.len(),
            forall|i: int| 0 <= i < index ==> !is_special_component(#[trigger] all[i]),
        decreases segments@.len() - index,
    {
        let segment = segments[index].as_str();
        assert(all[index as int] == segment@);
        if segment.is_empty() || same_text(segment, ".") || same_text(segment, "..") {
            assert(is_special_component(split_on(path@, '/')[index as int]));
            return true;
        }
        index += 1;
    }
    false
}

/// Checks that a path is a portable project-relative path.
pub fn validate_relative_path(path: &str) -> (result: Result<(), &'static str>)
    ensures
        match result {
            Ok(()) => relative_path_defect(path@) is None,
            Err(reason) => relative_path_defect(path@) == Some(reason@),
        },
{
    if path.is_empty() {
        return Err("path is empty");
    }
    let chars = chars_of(path);
    if chars[0] == '/' || contains_char(path, '\\') {
        return Err("path must use portable project-relative separators");
    }
    if finds_special_component(path) {
        return Err("path contains an empty, current, or parent component");
    }
    Ok(())
}

/// The place of the last slash of `path` at or before `count`, or -1.
pub open spec fn last_slash(path: Seq<char>, count: int) -> int
    decreases count,
{
    if count <= 0 {
        -1
    } else if path[count - 1] == '/' {
        count - 1
    } else {
        last_slash(path, count - 1)
    }
}

/// The parent directory of a path; empty for a path without one.
pub open spec fn parent_of(path: Seq<char>) -> Seq<char> {
    let slash = last_slash(path, path.len() as int);
    if slash < 0 {
        Seq::empty()
    } else {
        path.take(slash)
    }
}

/// The last component of a path.
pub open spec fn name_of(path: Seq<char>) -> Seq<char> {
    path.skip(last_slash(path, path.len() as int) + 1)
}

proof fn lemma_last_slash(path: Seq<char>, count: int)
    requires
        0 <= count <= path.len(),
    ensures
        -1 <= last_slash(path, count) < count || (last_slash(path, count) == -1 && count == 0),
        last_slash(path, count) >= 0 ==> path[last_slash(path, count)] == '/',
        forall|i: int| last_slash(path, count) < i < count ==> path[i] != '/',
    decreases count,
{
    if count > 0 && path[count - 1] != '/' {
        lemma_last_slash(path, count - 1);
    }
}

/// A path is its parent, a slash and its name, and the name holds no slash; a path without a
/// slash is its name.
pub proof fn lemma_parent_and_name(path: Seq<char>)
    ensures
        !name_of(path).contains('/'),
        path.contains('/') ==> path == parent_of(path) + seq!['/'] + name_of(path),
        !path.contains('/') ==> parent_of(path).len() == 0 && name_of(path) == path,
{
    let slash = last_slash(path, path.len() as int);
    lemma_last_slash(path, path.len() as int);
    if name_of(path).contains('/') {
        let k = choose|k: int| 0 <= k < name_of(path).len() && name_of(path)[k] == '/';
        assert(path[slash + 1 + k] == '/');
    }
    if path.contains('/') {
        let k = choose|k: int| 0 <= k < path.len() && path[k] == '/';
        assert(slash >= 0);
        assert(path =~= parent_of(path) + seq!['/'] + name_of(path));
    } else {
        if slash >= 0 {
            assert(path.contains(path[slash]));
        }
        assert(name_of(path) =~= path);
    }
}

/// Splits a path into its parent directory and its name.
pub fn split_parent_name(path: &str) -> (parts: (String, String))
    ensures
        parts.0@ == parent_of(path@),
        parts.1@ == name_of(path@),
{
    let chars = chars_of(path);
    let mut index: usize = chars.len();
    while index > 0 && chars[index - 1] != '/'
        invariant
            chars@ == path@,
            index <= chars@.len(),
            last_slash(path@, path@.len() as int) == last_slash(path@, index as int),
        decreases index,
    {
        index -= 1;
    }
    let name = text_between(&chars, index, chars.len());
    assert(path@.skip(index as int) =~= path@.subrange(index as int, path@.len() as int));
    if index == 0 {
        (String::new(), name)
    } else {
        let parent = text_between(&chars, 0, index - 1);
        assert(path@.take(index - 1) =~= path@.subrange(0, index - 1));
        (parent, name)
    }
}

} // verus!
