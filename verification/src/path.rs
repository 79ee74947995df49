//! Paths as text, with `/` between the parts, and what is different on Windows.
use crate::text::{chars_of, concat};
use vstd::prelude::*;

verus! {

/// Whether a path starts at the root.
pub open spec fn is_absolute_path(p: Seq<char>) -> bool {
    p.len() > 0 && p[0] == '/'
}

pub fn is_absolute(p: &str) -> (r: bool)
    ensures
        r == is_absolute_path(p@),
{
    let v = chars_of(p);
    v.len() > 0 && v[0] == '/'
}

/// `rel` below `base`; an absolute `rel` takes the place of `base`.
pub open spec fn joined_path(base: Seq<char>, rel: Seq<char>) -> Seq<char> {
    if is_absolute_path(rel) {
        rel
    } else if base.len() == 0 || base.last() == '/' {
        base + rel
    } else {
        base + "/"@ + rel
    }
}

pub fn join_path(base: &str, rel: &str) -> (r: String)
    ensures
        r@ == joined_path(base@, rel@),
{
    if is_absolute(rel) {
        return rel.to_owned();
    }
    let v = chars_of(base);
    if v.len() == 0 || v[v.len() - 1] == '/' {
        concat(base, rel)
    } else {
        let mut r = concat(base, "/");
        r.append(rel);
        r
    }
}

// -------------------------------------------------------------------- Windows

pub open spec fn is_separator(c: char) -> bool {
    c == '/' || c == '\\'
}

/// A drive: a letter and a colon.
pub open spec fn has_drive(p: Seq<char>) -> bool {
    p.len() >= 2 && p[1] == ':' && ('a' <= p[0] <= 'z' || 'A' <= p[0] <= 'Z')
}

/// The separator after the server of a share: there is a server before it, and a share after
/// it.
pub open spec fn ends_server(rest: Seq<char>, i: int) -> bool {
    &&& 0 < i < rest.len() - 1
    &&& is_separator(rest[i])
    &&& !is_separator(rest[i + 1])
    &&& forall|k: int| 0 <= k < i ==> !is_separator(#[trigger] rest[k])
}

/// Two separators with a device, a share on a server, or a path that is taken as it stands.
pub open spec fn has_share(p: Seq<char>) -> bool {
    &&& p.len() >= 2
    &&& is_separator(p[0])
    &&& is_separator(p[1])
    &&& {
        ||| p.len() >= 4 && p[2] == '.' && is_separator(p[3])
        ||| p.len() >= 4 && p[0] == '\\' && p[1] == '\\' && p[2] == '?' && p[3] == '\\'
        ||| exists|i: int| ends_server(p.skip(2), i)
    }
}

/// Whether a path starts at the root of some drive or share, or at `/`.
pub open spec fn is_absolute_on(p: Seq<char>, is_windows: bool) -> bool {
    is_absolute_path(p) || is_windows && (has_drive(p) && p.len() >= 3 && is_separator(p[2])
        || has_share(p))
}

fn separates(c: char) -> (r: bool)
    ensures
        r == is_separator(c),
{
    c == '/' || c == '\\'
}

fn starts_at_drive(v: &Vec<char>) -> (r: bool)
    ensures
        r == has_drive(v@),
{
    v.len() >= 2 && v[1] == ':' && ('a' <= v[0] && v[0] <= 'z' || 'A' <= v[0] && v[0] <= 'Z')
}

fn starts_at_share(v: &Vec<char>) -> (r: bool)
    ensures
        r == has_share(v@),
{
    if v.len() < 2 || !separates(v[0]) || !separates(v[1]) {
        return false;
    }
    if v.len() >= 4 && v[2] == '.' && separates(v[3]) {
        return true;
    }
    if v.len() >= 4 && v[0] == '\\' && v[1] == '\\' && v[2] == '?' && v[3] == '\\' {
        return true;
    }
    let ghost rest = v@.skip(2);
    let mut i: usize = 2;
    assert(has_share(v@) == exists|i: int| ends_server(rest, i));
    while i < v.len()
        invariant
            2 <= i <= v.len(),
            has_share(v@) == exists|i: int| ends_server(rest, i),
            rest == v@.skip(2),
            forall|k: int| 0 <= k < i - 2 ==> !is_separator(#[trigger] rest[k]),
        decreases v.len() - i,
    {
        assert(rest[i - 2] == v@[i as int]);
        if separates(v[i]) {
            let r = i > 2 && i + 1 < v.len() && !separates(v[i + 1]);
            proof {
                if r {
                    assert(ends_server(rest, i - 2));
                }
                assert forall|j: int| ends_server(rest, j) implies j == i - 2 && r by {
                    assert(j < i - 2 ==> !is_separator(rest[j]));
                    assert(j > i - 2 ==> !is_separator(rest[i - 2]));
                }
            }
            return r;
        }
        i += 1;
    }
    assert forall|j: int| !ends_server(rest, j) by {
        if ends_server(rest, j) {
            assert(!is_separator(rest[j]));
        }
    }
    false
}

pub fn is_absolute_path_on(p: &str, is_windows: bool) -> (r: bool)
    ensures
        r == is_absolute_on(p@, is_windows),
{
    if is_absolute(p) {
        return true;
    }
    if !is_windows {
        return false;
    }
    let v = chars_of(p);
    starts_at_drive(&v) && v.len() >= 3 && separates(v[2]) || starts_at_share(&v)
}

/// A file or directory with that name in a directory.
pub open spec fn path_in(dir: Seq<char>, name: Seq<char>, is_windows: bool) -> Seq<char> {
    if !is_windows {
        joined_path(dir, name)
    } else if dir.len() == 0 || is_separator(dir.last()) || has_drive(dir) && dir.len() == 2 {
        dir + name
    } else {
        dir + "\\"@ + name
    }
}

pub fn join_name(dir: &str, name: &str, is_windows: bool) -> (r: String)
    ensures
        r@ == path_in(dir@, name@, is_windows),
{
    if !is_windows {
        return join_path(dir, name);
    }
    let v = chars_of(dir);
    if v.len() == 0 || separates(v[v.len() - 1]) || starts_at_drive(&v) && v.len() == 2 {
        concat(dir, name)
    } else {
        let mut r = concat(dir, "\\");
        r.append(name);
        r
    }
}

/// Law: a name is found below its directory, and after one separator. Where the directory ends
/// in one, none is added.
pub proof fn names_stand_below_their_directory(dir: Seq<char>, name: Seq<char>)
    requires
        name.len() > 0,
        name[0] != '/',
    ensures
        dir.len() > 0 && dir.last() != '/' ==> joined_path(dir, name) == dir + "/"@ + name,
        dir.len() > 0 && dir.last() == '/' ==> joined_path(dir, name) == dir + name,
        joined_path(dir, "/"@ + name) == "/"@ + name,
        path_in(dir, name, false) == joined_path(dir, name),
        dir.len() > 2 && dir.last() != '/' && dir.last() != '\\' ==> path_in(dir, name, true)
            == dir + "\\"@ + name,
{
    reveal_strlit("/");
    assert(("/"@ + name)[0] == '/');
}

} // verus!
