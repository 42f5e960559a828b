//! File names and paths, as texts with `/` between their components.

use vstd::prelude::*;

use crate::text;

verus! {

/// Whether a text is a file name by itself: not empty, without separators, and
/// not a name for a directory.
pub open spec fn is_plain_name(s: Seq<char>) -> bool {
    s.len() > 0 && !s.contains('/') && s != "."@ && s != ".."@
}

/// Whether a character stands in a text.
fn has_char(s: &str, wanted: char) -> (r: bool)
    ensures
        r == s@.contains(wanted),
{
    let chars = text::chars_of(s);
    let mut i: usize = 0;
    while i < chars.len()
        invariant
            i <= chars@.len(),
            chars@ == s@,
            forall|k: int| 0 <= k < i ==> chars@[k] != wanted,
        decreases chars@.len() - i,
    {
        if chars[i] == wanted {
            assert(s@[i as int] == wanted);
            return true;
        }
        i = i + 1;
    }
    false
}

/// Whether a text is a file name by itself.
pub fn plain_name(s: &str) -> (r: bool)
    ensures
        r == is_plain_name(s@),
{
    !s.is_empty() && !has_char(s, '/') && !text::same(s, ".") && !text::same(s, "..")
}

/// Whether a part of a path between separators names something: it is neither
/// empty nor the directory itself.
pub open spec fn names_something(part: Seq<char>) -> bool {
    part.len() > 0 && part != "."@
}

/// The parts of a path that name something.
pub open spec fn named_parts(parts: Seq<Seq<char>>) -> Seq<Seq<char>>
    decreases parts.len(),
{
    if parts.len() == 0 {
        Seq::empty()
    } else {
        let before = named_parts(parts.drop_last());
        if names_something(parts.last()) {
            before.push(parts.last())
        } else {
            before
        }
    }
}

/// Whether a text is a path of one component that is a name: it begins neither
/// at the root nor at the directory itself, and does not lead upwards.
pub open spec fn is_single_component(s: Seq<char>) -> bool {
    let parts = text::split_on(s, '/');
    let named = named_parts(parts);
    names_something(parts[0]) && named.len() == 1 && named[0] != ".."@
}

/// Whether a text is a path of one component that is a name.
pub fn single_component(s: &str) -> (r: bool)
    ensures
        r == is_single_component(s@),
{
    let parts = text::split(s, '/');
    let ghost all = text::views(parts@);
    assert(all[0] == parts@[0]@);
    if parts[0].as_str().is_empty() || text::same(parts[0].as_str(), ".") {
        return false;
    }
    let mut named: Vec<String> = Vec::new();
    let mut i: usize = 0;
    assert(all.take(0) =~= Seq::<Seq<char>>::empty());
    assert(text::views(named@) =~= Seq::<Seq<char>>::empty());
    while i < parts.len()
        invariant
            i <= parts@.len(),
            all == text::views(parts@),
            text::views(named@) == named_parts(all.take(i as int)),
        decreases parts@.len() - i,
    {
        proof {
            assert(all.take(i + 1).drop_last() =~= all.take(i as int));
            assert(all.take(i + 1).last() == parts@[i as int]@);
        }
        if !parts[i].as_str().is_empty() && !text::same(parts[i].as_str(), ".") {
            let part = parts[i].clone();
            proof {
                text::lemma_views_push(named@, part);
            }
            named.push(part);
        }
        i = i + 1;
    }
    assert(all.take(all.len() as int) =~= all);
    assert(text::views(named@).len() == named@.len());
    if named.len() != 1 {
        return false;
    }
    assert(text::views(named@)[0] == named@[0]@);
    !text::same(named[0].as_str(), "..")
}

/// A path behind another: one that begins at the root stands by itself.
pub open spec fn joined(base: Seq<char>, path: Seq<char>) -> Seq<char> {
    if text::begins_with(path, "/"@) {
        path
    } else if base.len() == 0 || text::finishes_with(base, "/"@) {
        base + path
    } else {
        base + "/"@ + path
    }
}

/// A path behind another.
pub fn join(base: &str, path: &str) -> (r: String)
    ensures
        r@ == joined(base@, path@),
{
    if text::starts_with(path, "/") {
        path.to_string()
    } else if base.is_empty() || text::ends_with(base, "/") {
        text::join2(base, path)
    } else {
        text::join3(base, "/", path)
    }
}

/// The directory of the pictures of AI employees: below the directory that the
/// database is in, or the current one.
pub fn ai_employee_avatar_dir(database_parent: &Option<String>) -> (r: Vec<String>)
    ensures
        text::views(r@) == seq![
            match *database_parent {
                Some(parent) => parent@,
                None => "."@,
            },
            "avatars"@,
            "ai-employees"@,
        ],
{
    let mut out: Vec<String> = Vec::new();
    out.push(
        match database_parent {
            Some(parent) => parent.clone(),
            None => ".".to_string(),
        },
    );
    out.push("avatars".to_string());
    out.push("ai-employees".to_string());
    assert(text::views(out@) =~= seq![
        match *database_parent {
            Some(parent) => parent@,
            None => "."@,
        },
        "avatars"@,
        "ai-employees"@,
    ]);
    out
}

/// A path behind a directory is the directory, a slash and the path; the slash is
/// left out where the directory ends in one or is empty. A path that begins at the
/// root stands by itself.
pub proof fn law_path_is_put_behind_the_directory(base: Seq<char>, path: Seq<char>)
    ensures
        path.len() > 0 && path[0] == '/' ==> joined(base, path) == path,
        (path.len() == 0 || path[0] != '/') && (base.len() == 0 || base.last() == '/') ==> joined(
            base,
            path,
        ) == base + path,
        (path.len() == 0 || path[0] != '/') && base.len() > 0 && base.last() != '/' ==> joined(
            base,
            path,
        ) == base + seq!['/'] + path,
{
    reveal_strlit("/");
    assert("/"@ =~= seq!['/']);
    if path.len() > 0 {
        assert(path.take(1)[0] == path[0]);
        if path[0] == '/' {
            assert(path.take(1) =~= "/"@);
        }
    }
    if base.len() > 0 {
        assert(base.skip(base.len() - 1)[0] == base.last());
        if base.last() == '/' {
            assert(base.skip(base.len() - 1) =~= "/"@);
        }
    }
}

/// A name without slashes that is neither empty nor a name for a directory is one
/// component of a path, and a file name by itself. A text that begins with a slash
/// is neither, and neither is one that leads upwards.
pub proof fn law_plain_name_is_one_component(s: Seq<char>)
    ensures
        s.len() > 0 && !s.contains('/') && s != "."@ && s != ".."@ ==> is_single_component(s)
            && is_plain_name(s),
        s == ".."@ || s == "."@ || s.len() == 0 ==> !is_single_component(s) && !is_plain_name(s),
        s.contains('/') ==> !is_plain_name(s),
{
    reveal_strlit(".");
    reveal_strlit("..");
    assert("."@.len() == 1);
    assert(".."@.len() == 2);
    assert(!"."@.contains('/'));
    assert(!".."@.contains('/'));
    if !s.contains('/') {
        text::lemma_split_single(s, '/');
        let parts = text::split_on(s, '/');
        assert(parts.drop_last() =~= Seq::<Seq<char>>::empty());
        assert(parts.last() == s);
        reveal_with_fuel(named_parts, 2);
        if names_something(s) {
            assert(named_parts(parts) =~= seq![s]);
        }
    }
}

} // verus!
