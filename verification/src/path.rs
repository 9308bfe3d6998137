//! Slash-separated paths: joining a name to a folder, and the folder above.
//!
//! A path is compared by its parts, so `/a`, `/a/` and `/a/./` are one folder.
//! Of paths on systems with drives, which separate by backslashes, there is the
//! joining of an entry and the root.

use crate::text::chars_of;
use vstd::prelude::*;
use vstd::string::*;

verus! {

/// A path that starts at the root.
pub open spec fn is_absolute(path: Seq<char>) -> bool {
    path.len() > 0 && path[0] == '/'
}

/// `name` inside `dir`: an absolute `name` stands alone, and `dir` gets a
/// slash at its end unless it is empty or has one.
pub open spec fn join_path(dir: Seq<char>, name: Seq<char>) -> Seq<char> {
    if is_absolute(name) {
        name
    } else if dir.len() == 0 || dir.last() == '/' {
        dir + name
    } else {
        dir.push('/') + name
    }
}

/// A part that names no folder: empty, or a single dot.
pub open spec fn is_void(part: Seq<char>) -> bool {
    part.len() == 0 || part == seq!['.']
}

/// Where the parts begin: after the slash of the root, or after the dot of a
/// path that starts in the current folder.
pub open spec fn parts_start(path: Seq<char>) -> int {
    if is_absolute(path) {
        1
    } else if path.len() > 0 && path[0] == '.' && (path.len() == 1 || path[1] == '/') {
        1
    } else {
        0
    }
}

/// The position of the last slash at or after `from`, `from - 1` if there is none.
pub open spec fn last_slash(path: Seq<char>, from: int) -> int
    decreases path.len(),
{
    if path.len() == 0 || path.len() <= from {
        from - 1
    } else if path.last() == '/' {
        path.len() - 1
    } else {
        last_slash(path.drop_last(), from)
    }
}

/// The part behind the last slash.
pub open spec fn last_part(path: Seq<char>, from: int) -> Seq<char> {
    path.skip(last_slash(path, from) + 1)
}

/// What is before the last part and the slash in front of it.
pub open spec fn before_last_part(path: Seq<char>, from: int) -> Seq<char> {
    let at = last_slash(path, from);
    path.take(if at < from { from } else { at })
}

/// The last slash is where it is said to be.
pub proof fn last_slash_is_last(path: Seq<char>, from: int)
    requires
        0 <= from <= path.len(),
    ensures
        from - 1 <= last_slash(path, from) < path.len(),
        last_slash(path, from) >= from ==> path[last_slash(path, from)] == '/',
        forall|k: int| last_slash(path, from) < k < path.len() && from <= k ==> path[k] != '/',
    decreases path.len(),
{
    if path.len() > from && path.last() != '/' {
        let shorter = path.drop_last();
        last_slash_is_last(shorter, from);
        assert forall|k: int|
            last_slash(path, from) < k < path.len() && from <= k implies path[k] != '/' by {
            if k < shorter.len() {
                assert(shorter[k] != '/');
            }
        }
    }
}

/// `path` without the void parts and slashes at its end.
pub open spec fn without_void_end(path: Seq<char>, from: int) -> Seq<char>
    decreases path.len(),
{
    if 0 <= from < path.len() && is_void(last_part(path, from)) {
        proof {
            last_slash_is_last(path, from);
        }
        without_void_end(before_last_part(path, from), from)
    } else {
        path
    }
}

/// `path` in its shortest form at the end: no void parts, no closing slash.
pub open spec fn clean(path: Seq<char>) -> Seq<char> {
    without_void_end(path, parts_start(path))
}

/// The root folder, however it is written.
pub open spec fn is_root(path: Seq<char>) -> bool {
    is_absolute(path) && clean(path).len() == 1
}

/// The folder above: none above the root and above an empty path.
pub open spec fn parent(path: Seq<char>) -> Option<Seq<char>> {
    let from = parts_start(path);
    let cleaned = clean(path);
    if cleaned.len() > from {
        Some(without_void_end(before_last_part(cleaned, from), from))
    } else if !is_absolute(path) && from == 1 {
        Some(Seq::empty())
    } else {
        None
    }
}

/// The parts that name a folder or a file, in order.
pub open spec fn parts(path: Seq<char>) -> Seq<Seq<char>> {
    parts_from(path, parts_start(path))
}

/// The parts of `path` that begin at or after `from`.
pub open spec fn parts_from(path: Seq<char>, from: int) -> Seq<Seq<char>>
    decreases path.len(),
{
    if 0 <= from < path.len() {
        proof {
            last_slash_is_last(path, from);
        }
        let before = parts_from(before_last_part(path, from), from);
        if is_void(last_part(path, from)) {
            before
        } else {
            before.push(last_part(path, from))
        }
    } else {
        Seq::empty()
    }
}

/// A name that stands for one entry of a folder.
pub open spec fn is_entry_name(name: Seq<char>) -> bool {
    !is_void(name) && !name.contains('/')
}

/// The last slash from what surrounds it.
proof fn last_slash_found(path: Seq<char>, from: int, at: int)
    requires
        0 <= from <= path.len(),
        from - 1 <= at < path.len(),
        at >= from ==> path[at] == '/',
        forall|k: int| at < k < path.len() && from <= k ==> path[k] != '/',
    ensures
        last_slash(path, from) == at,
{
    last_slash_is_last(path, from);
}

/// The shortest form keeps the parts and the beginning.
proof fn without_void_end_keeps_parts(path: Seq<char>, from: int)
    requires
        0 <= from <= path.len(),
    ensures
        parts_from(without_void_end(path, from), from) == parts_from(path, from),
        from <= without_void_end(path, from).len() <= path.len(),
        without_void_end(path, from) == path.take(without_void_end(path, from).len() as int),
        without_void_end(path, from).len() > from ==> !is_void(
            last_part(without_void_end(path, from), from),
        ),
    decreases path.len(),
{
    last_slash_is_last(path, from);
    if from < path.len() && is_void(last_part(path, from)) {
        without_void_end_keeps_parts(before_last_part(path, from), from);
    }
}

/// The parts of a beginning of a path start where those of the path do.
proof fn parts_start_of_prefix(path: Seq<char>, n: int)
    requires
        parts_start(path) <= n <= path.len(),
        n == 1 && path[0] == '.' ==> parts_start(path) == 1,
    ensures
        parts_start(path.take(n)) == parts_start(path),
{
}

/// Writing a path in its shortest form does not change the folder.
pub proof fn clean_keeps_parts(path: Seq<char>)
    ensures
        parts(clean(path)) == parts(path),
        is_absolute(clean(path)) == is_absolute(path),
{
    let from = parts_start(path);
    without_void_end_keeps_parts(path, from);
    let cleaned = clean(path);
    last_slash_is_last(cleaned, from);
    if cleaned.len() == 1 && from == 0 {
        assert(cleaned[0] == '.' ==> last_part(cleaned, from) =~= seq!['.']);
    }
    parts_start_of_prefix(path, cleaned.len() as int);
}

/// The folder above has all parts but the last.
pub proof fn parent_drops_last_part(path: Seq<char>)
    requires
        parts(path).len() > 0,
    ensures
        parent(path) is Some,
        parts(parent(path)->0) == parts(path).drop_last(),
        is_absolute(parent(path)->0) == is_absolute(path),
{
    let from = parts_start(path);
    let cleaned = clean(path);
    without_void_end_keeps_parts(path, from);
    assert(cleaned.len() > from);
    last_slash_is_last(cleaned, from);
    let before = before_last_part(cleaned, from);
    without_void_end_keeps_parts(before, from);
    let up = without_void_end(before, from);
    assert(up =~= path.take(up.len() as int));
    last_slash_is_last(up, from);
    if up.len() == 1 && from == 0 {
        assert(up[0] == '.' ==> last_part(up, from) =~= seq!['.']);
    }
    parts_start_of_prefix(path, up.len() as int);
    assert(parts_from(cleaned, from).drop_last() =~= parts_from(before, from));
}

/// The root has no folder above it, and neither does it have parts.
pub proof fn root_has_no_parent(path: Seq<char>)
    ensures
        is_root(path) ==> parent(path) is None && parts(path).len() == 0,
        parent(path) is None && is_absolute(path) ==> is_root(path),
{
    let from = parts_start(path);
    without_void_end_keeps_parts(path, from);
}

/// Joining an entry's name to a folder adds that one part.
pub proof fn join_adds_part(dir: Seq<char>, name: Seq<char>)
    requires
        is_entry_name(name),
    ensures
        parts(join_path(dir, name)) == parts(dir).push(name),
        is_absolute(join_path(dir, name)) == is_absolute(dir),
{
    entry_name_is_relative(name);
    let joined = join_path(dir, name);
    let from = parts_start(dir);
    join_last_part(dir, name);
    if dir.len() > 0 && dir.last() == '/' && dir.len() > from {
        last_slash_found(dir, from, dir.len() - 1);
        assert(last_part(dir, from) =~= Seq::empty());
        assert(before_last_part(dir, from) =~= before_last_part(joined, from));
    } else {
        assert(before_last_part(joined, from) =~= dir);
    }
}

proof fn entry_name_is_relative(name: Seq<char>)
    requires
        is_entry_name(name),
    ensures
        !is_absolute(name),
{
    if is_absolute(name) {
        assert(name.contains(name[0]));
    }
}

/// Where a joined name stands in the whole path.
proof fn join_last_part(dir: Seq<char>, name: Seq<char>)
    requires
        is_entry_name(name),
    ensures
        ({
            let joined = join_path(dir, name);
            let from = parts_start(dir);
            &&& parts_start(joined) == from
            &&& joined.len() > from
            &&& last_part(joined, from) == name
            &&& last_slash(joined, from) == joined.len() - name.len() - 1
            &&& is_absolute(joined) == is_absolute(dir)
        }),
{
    entry_name_is_relative(name);
    let joined = join_path(dir, name);
    let from = parts_start(dir);
    let at = joined.len() - name.len() - 1;
    assert forall|k: int| at < k < joined.len() implies joined[k] != '/' by {
        assert(joined[k] == name[k - at - 1]);
        assert(name.contains(name[k - at - 1]));
    }
    last_slash_found(joined, from, at);
    assert(last_part(joined, from) =~= name);
    if dir.len() == 0 {
        assert(joined =~= name);
        assert(name.len() == 1 && name[0] == '.' ==> name =~= seq!['.']);
        assert(name.len() > 1 ==> name.contains(name[1]));
    } else {
        assert(joined[0] == dir[0]);
        if dir.len() > 1 {
            assert(joined[1] == dir[1]);
        } else if dir.last() != '/' {
            assert(joined[1] == '/');
        }
    }
}

/// Going into an entry and back out leads to the same folder, in its shortest form.
pub proof fn parent_of_join(dir: Seq<char>, name: Seq<char>)
    requires
        is_entry_name(name),
    ensures
        parent(join_path(dir, name)) == Some(clean(dir)),
{
    entry_name_is_relative(name);
    let joined = join_path(dir, name);
    let from = parts_start(dir);
    join_last_part(dir, name);
    assert(clean(joined) == joined);
    if dir.len() > 0 && dir.last() == '/' && dir.len() > from {
        last_slash_found(dir, from, dir.len() - 1);
        assert(last_part(dir, from) =~= Seq::empty());
        assert(before_last_part(dir, from) =~= before_last_part(joined, from));
    } else {
        assert(before_last_part(joined, from) =~= dir);
    }
}

/// Whether `path` starts at the root.
fn starts_at_root(path: &str) -> (r: bool)
    ensures
        r == is_absolute(path@),
{
    !path.is_empty() && path.get_char(0) == '/'
}

/// Where the parts of the path with the characters `v` begin.
fn start_of_parts(v: &Vec<char>) -> (r: usize)
    ensures
        r == parts_start(v@),
        r <= v.len(),
{
    if v.len() > 0 && (v[0] == '/' || (v[0] == '.' && (v.len() == 1 || v[1] == '/'))) {
        1
    } else {
        0
    }
}

/// Where the last part of the first `n` characters begins.
fn start_of_last_part(v: &Vec<char>, n: usize, from: usize) -> (r: usize)
    requires
        from <= n <= v.len(),
    ensures
        from <= r <= n,
        r == last_slash(v@.take(n as int), from as int) + 1,
{
    let mut at: usize = n;
    while at > from && v[at - 1] != '/'
        invariant
            from <= at <= n <= v.len(),
            last_slash(v@.take(n as int), from as int) == last_slash(
                v@.take(at as int),
                from as int,
            ),
        decreases at,
    {
        assert(v@.take(at as int).drop_last() =~= v@.take(at - 1));
        at = at - 1;
    }
    at
}

/// How many of the first `n` characters are left without the void parts at the end.
fn len_without_void_end(v: &Vec<char>, n: usize, from: usize) -> (r: usize)
    requires
        from <= n <= v.len(),
    ensures
        from <= r <= n,
        v@.take(r as int) == without_void_end(v@.take(n as int), from as int),
{
    let mut len: usize = n;
    while len > from
        invariant
            from <= len <= n <= v.len(),
            without_void_end(v@.take(len as int), from as int) == without_void_end(
                v@.take(n as int),
                from as int,
            ),
        ensures
            from <= len <= n,
            v@.take(len as int) == without_void_end(v@.take(n as int), from as int),
        decreases len,
    {
        let start = start_of_last_part(v, len, from);
        let ghost path = v@.take(len as int);
        let ghost part = last_part(path, from as int);
        assert(part =~= v@.subrange(start as int, len as int));
        if start < len && !(len - start == 1 && v[start] == '.') {
            assert(part[0] == v@[start as int]);
            assert(!is_void(part));
            break;
        }
        assert(is_void(part)) by {
            if start < len {
                assert(part =~= seq!['.']);
            }
        }
        let shorter: usize = if start > from {
            start - 1
        } else {
            from
        };
        assert(before_last_part(path, from as int) =~= v@.take(shorter as int));
        len = shorter;
    }
    len
}

/// `name` inside `dir`.
pub fn join(dir: &str, name: &str) -> (r: String)
    ensures
        r@ == join_path(dir@, name@),
{
    if starts_at_root(name) {
        return name.to_owned();
    }
    let n: usize = dir.unicode_len();
    if n == 0 || dir.get_char(n - 1) == '/' {
        dir.to_owned().concat(name)
    } else {
        proof {
            reveal_strlit("/");
            assert(dir@ + "/"@ =~= dir@.push('/'));
        }
        dir.to_owned().concat("/").concat(name)
    }
}

/// Whether `path` is the root folder.
pub fn is_root_path(path: &str) -> (r: bool)
    ensures
        r == is_root(path@),
{
    let v = chars_of(path);
    proof {
        assert(v@.take(v.len() as int) =~= v@);
    }
    starts_at_root(path) && len_without_void_end(&v, v.len(), 1) == 1
}

/// The folder above `path`, if there is one.
pub fn parent_path(path: &str) -> (r: Option<String>)
    ensures
        match r {
            Some(up) => parent(path@) == Some(up@),
            None => parent(path@) is None,
        },
{
    let v = chars_of(path);
    let from = start_of_parts(&v);
    let n = len_without_void_end(&v, v.len(), from);
    proof {
        assert(v@.take(v.len() as int) =~= v@);
    }
    if n > from {
        let start = start_of_last_part(&v, n, from);
        let shorter: usize = if start > from {
            start - 1
        } else {
            from
        };
        let up = len_without_void_end(&v, shorter, from);
        proof {
            assert(before_last_part(v@.take(n as int), from as int) =~= v@.take(shorter as int));
            assert(path@.subrange(0, up as int) =~= v@.take(up as int));
        }
        Some(path.substring_char(0, up).to_owned())
    } else if from == 1 && !starts_at_root(path) {
        Some(String::new())
    } else {
        None
    }
}

/// How a system writes its paths.
#[derive(Debug, Clone, Copy, PartialEq, Eq, Structural)]
pub enum System {
    /// Slashes, and one root.
    Slashes,
    /// Backslashes, a slash read as one of them, and a root on each drive.
    Drives,
}

/// A character that separates the parts of a path on a system with drives.
pub open spec fn separates(c: char) -> bool {
    c == '/' || c == '\\'
}

/// The letter of a drive and a colon, and nothing more: what is joined to it is
/// meant from the drive's current folder.
pub open spec fn is_bare_drive(path: Seq<char>) -> bool {
    path.len() == 2 && ('a' <= path[0] <= 'z' || 'A' <= path[0] <= 'Z') && path[1] == ':'
}

/// A path that begins with two backslashes, a question mark and a backslash.
/// The system takes it literally, and puts it in order when it joins to it.
pub open spec fn is_verbatim(path: Seq<char>) -> bool {
    path.len() >= 4 && path[0] == '\\' && path[1] == '\\' && path[2] == '?' && path[3] == '\\'
}

/// A name that does not go on from a folder on a system with drives: it begins
/// with a separator, or with a drive.
pub open spec fn starts_anew(name: Seq<char>) -> bool {
    (name.len() > 0 && separates(name[0])) || (name.len() > 1 && name[1] == ':')
}

/// The system joins `name` to `dir` by writing it behind, as `join_on` says.
pub open spec fn joins_behind(system: System, dir: Seq<char>, name: Seq<char>) -> bool {
    match system {
        System::Slashes => true,
        System::Drives => !is_verbatim(dir) && !starts_anew(name),
    }
}

/// `name` inside `dir`, where the system writes it behind. With drives, `dir`
/// gets a backslash at its end unless it is empty, ends in a separator, or is no
/// more than a drive.
pub open spec fn join_on(system: System, dir: Seq<char>, name: Seq<char>) -> Seq<char> {
    match system {
        System::Slashes => join_path(dir, name),
        System::Drives => if dir.len() == 0 || separates(dir.last()) || is_bare_drive(dir) {
            dir + name
        } else {
            dir.push('\\') + name
        },
    }
}

/// A path that starts at a separator and goes nowhere from there: it has no
/// parts but single dots. Two separators, a dot and a separator start the name
/// of a device instead.
pub open spec fn is_bare_root(path: Seq<char>) -> bool {
    &&& path.len() > 0 && separates(path[0])
    &&& forall|i: int|
        0 <= i < path.len() ==> separates(#[trigger] path[i]) || is_lone_dot(path, i)
    &&& !(path.len() >= 4 && separates(path[1]) && path[2] == '.' && separates(path[3]))
}

/// A dot between separators, or between a separator and the end.
pub open spec fn is_lone_dot(path: Seq<char>, i: int) -> bool {
    &&& path[i] == '.'
    &&& i > 0 && separates(path[i - 1])
    &&& i + 1 == path.len() || separates(path[i + 1])
}

/// The root as the system has it. With drives it is where their list stands.
pub open spec fn is_root_on(system: System, path: Seq<char>) -> bool {
    match system {
        System::Slashes => is_root(path),
        System::Drives => is_bare_root(path),
    }
}

/// Whether `c` separates the parts of a path on a system with drives.
fn is_separator(c: char) -> (r: bool)
    ensures
        r == separates(c),
{
    c == '/' || c == '\\'
}

/// Whether `path` is one that the system takes literally.
fn begins_verbatim(path: &str) -> (r: bool)
    ensures
        r == is_verbatim(path@),
{
    path.unicode_len() >= 4 && path.get_char(0) == '\\' && path.get_char(1) == '\\'
        && path.get_char(2) == '?' && path.get_char(3) == '\\'
}

/// Whether `name` does not go on from a folder on a system with drives.
fn begins_anew(name: &str) -> (r: bool)
    ensures
        r == starts_anew(name@),
{
    let n: usize = name.unicode_len();
    (n > 0 && is_separator(name.get_char(0))) || (n > 1 && name.get_char(1) == ':')
}

/// `name` inside `dir`, where the system writes it behind; none where the
/// system joins otherwise.
pub fn join_entry(system: System, dir: &str, name: &str) -> (r: Option<String>)
    ensures
        r is Some <==> joins_behind(system, dir@, name@),
        r is Some ==> r->0@ == join_on(system, dir@, name@),
{
    match system {
        System::Slashes => Some(join(dir, name)),
        System::Drives => {
            if begins_verbatim(dir) || begins_anew(name) {
                return None;
            }
            let v = chars_of(dir);
            let n: usize = v.len();
            if n == 0 || is_separator(v[n - 1]) || (n == 2 && (('a' <= v[0] && v[0] <= 'z') || (
            'A' <= v[0] && v[0] <= 'Z')) && v[1] == ':') {
                Some(dir.to_owned().concat(name))
            } else {
                proof {
                    reveal_strlit("\\");
                    assert(dir@ + "\\"@ =~= dir@.push('\\'));
                }
                Some(dir.to_owned().concat("\\").concat(name))
            }
        },
    }
}

/// Whether `path` is the root as the system has it.
pub fn is_system_root(system: System, path: &str) -> (r: bool)
    ensures
        r == is_root_on(system, path@),
{
    match system {
        System::Slashes => is_root_path(path),
        System::Drives => {
            let v = chars_of(path);
            let n: usize = v.len();
            if n == 0 || !is_separator(v[0]) {
                return false;
            }
            if n >= 4 && is_separator(v[1]) && v[2] == '.' && is_separator(v[3]) {
                return false;
            }
            for k in 0..n
                invariant
                    system == System::Drives,
                    n == v.len(),
                    v@ == path@,
                    forall|i: int|
                        0 <= i < k ==> separates(#[trigger] path@[i]) || is_lone_dot(path@, i),
            {
                if !is_separator(v[k]) {
                    let lone = v[k] == '.' && k > 0 && is_separator(v[k - 1]) && (k + 1 == n
                        || is_separator(v[k + 1]));
                    if !lone {
                        assert(!separates(path@[k as int]) && !is_lone_dot(path@, k as int));
                        return false;
                    }
                }
            }
            true
        },
    }
}

/// A joined path begins with the folder and ends with the name, with one slash
/// where they meet unless the folder is empty. A name that starts at the root
/// stands alone.
pub proof fn join_keeps_both(dir: Seq<char>, name: Seq<char>)
    ensures
        ({
            let joined = join_path(dir, name);
            let meet = joined.len() - name.len();
            &&& name.len() > 0 && name[0] == '/' ==> joined == name
            &&& name.len() == 0 || name[0] != '/' ==> {
                &&& meet >= dir.len()
                &&& joined.take(dir.len() as int) == dir
                &&& joined.skip(meet) == name
                &&& dir.len() == 0 ==> meet == 0
                &&& dir.len() > 0 && dir.last() == '/' ==> meet == dir.len()
                &&& dir.len() > 0 && dir.last() != '/' ==> meet == dir.len() + 1
                    && joined[dir.len() as int] == '/'
            }
        }),
{
    let joined = join_path(dir, name);
    if !is_absolute(name) {
        assert(joined.take(dir.len() as int) =~= dir);
        assert(joined.skip(joined.len() - name.len()) =~= name);
    }
}

/// A slash, or a dot that is all there is between slashes.
pub open spec fn is_void_at(path: Seq<char>, i: int) -> bool {
    path[i] == '/' || (path[i] == '.' && i > 0 && path[i - 1] == '/' && (i + 1 == path.len()
        || path[i + 1] == '/'))
}

/// Only slashes and dots between them are taken off the end, of the parts from
/// `from` on.
proof fn void_end_is_void(path: Seq<char>, from: int)
    requires
        0 <= from <= path.len(),
    ensures
        from <= without_void_end(path, from).len() <= path.len(),
        without_void_end(path, from) == path.take(without_void_end(path, from).len() as int),
        forall|i: int|
            without_void_end(path, from).len() <= i < path.len() && i != from ==> #[trigger]
                is_void_at(path, i),
        without_void_end(path, from).len() == from && from < path.len() ==> path[from] == '/'
            || path[from] == '.' && (from + 1 == path.len() || path[from + 1] == '/'),
    decreases path.len(),
{
    last_slash_is_last(path, from);
    without_void_end_keeps_parts(path, from);
    let kept = without_void_end(path, from);
    if from < path.len() && is_void(last_part(path, from)) {
        let at = last_slash(path, from);
        let before = before_last_part(path, from);
        let part = last_part(path, from);
        void_end_is_void(before, from);
        assert(part.len() > 0 ==> part[0] == path[at + 1]);
        assert forall|i: int| kept.len() <= i < path.len() && i != from implies #[trigger]
            is_void_at(path, i) by {
            if i < before.len() {
                assert(is_void_at(before, i));
                assert(before[i] == path[i]);
                assert(i > 0 ==> before[i - 1] == path[i - 1]);
                if i + 1 < before.len() {
                    assert(before[i + 1] == path[i + 1]);
                }
            }
        }
        if kept.len() == from && before.len() > from {
            assert(before[from] == path[from]);
            if from + 1 < before.len() {
                assert(before[from + 1] == path[from + 1]);
            }
        }
    }
}

/// The shortest form of a path is a beginning of it. What it lacks is slashes and
/// dots between slashes, and it ends in neither, unless it is the root.
pub proof fn clean_takes_off_the_end(path: Seq<char>)
    ensures
        ({
            let cleaned = clean(path);
            &&& cleaned.len() <= path.len()
            &&& cleaned == path.take(cleaned.len() as int)
            &&& forall|i: int| cleaned.len() <= i < path.len() ==> #[trigger] is_void_at(path, i)
            &&& cleaned.len() > 1 ==> !is_void_at(cleaned, cleaned.len() - 1)
            &&& path.len() > 0 ==> cleaned.len() > 0
        }),
{
    let from = parts_start(path);
    let cleaned = clean(path);
    void_end_is_void(path, from);
    without_void_end_keeps_parts(path, from);
    assert forall|i: int| cleaned.len() <= i < path.len() implies #[trigger] is_void_at(
        path,
        i,
    ) by {
        if i == from {
            assert(path[from] == '/' || path[from] == '.');
        }
    }
    if cleaned.len() > 1 {
        last_slash_is_last(cleaned, from);
        let part = last_part(cleaned, from);
        let last = cleaned.len() - 1;
        assert(cleaned.len() > from);
        assert(part.last() == cleaned[last]);
        if is_void_at(cleaned, last) {
            if cleaned[last] == '/' {
                assert(last_slash(cleaned, from) == last);
            } else {
                if last - 1 >= from {
                    assert(last_slash(cleaned, from) == last - 1);
                } else {
                    assert(last_slash(cleaned, from) == from - 1);
                }
                assert(part =~= seq!['.']);
            }
        }
    }
}

/// The root is a slash with nothing behind it but slashes and dots between them.
pub proof fn root_is_slashes(path: Seq<char>)
    ensures
        is_root(path) <==> path.len() > 0 && path[0] == '/' && forall|i: int|
            0 < i < path.len() ==> #[trigger] is_void_at(path, i),
{
    clean_takes_off_the_end(path);
    let cleaned = clean(path);
    if path.len() > 0 && path[0] == '/' {
        void_end_is_void(path, 1);
        if is_root(path) {
            assert forall|i: int| 0 < i < path.len() implies #[trigger] is_void_at(path, i) by {}
        } else if forall|i: int| 0 < i < path.len() ==> #[trigger] is_void_at(path, i) {
            let last = cleaned.len() - 1;
            assert(is_void_at(path, last));
            assert(cleaned[last] == path[last]);
            assert(cleaned[last - 1] == path[last - 1]);
            assert(is_void_at(cleaned, last));
        }
    }
}

/// The folder above an entry is the folder it is in, whatever the entry is
/// called: any name but the empty one and a single dot, without a slash.
pub proof fn folder_above_an_entry(dir: Seq<char>, name: Seq<char>)
    requires
        name.len() > 0,
        name != seq!['.'],
        !name.contains('/'),
    ensures
        parent(join_path(dir, name)) == Some(clean(dir)),
        dir.len() > 1 && !is_void_at(dir, dir.len() - 1) ==> parent(join_path(dir, name)) == Some(
            dir,
        ),
        dir == seq!['/'] ==> parent(join_path(dir, name)) == Some(dir),
{
    parent_of_join(dir, name);
    clean_takes_off_the_end(dir);
    let cleaned = clean(dir);
    if cleaned.len() < dir.len() {
        assert(is_void_at(dir, dir.len() - 1));
    } else {
        assert(cleaned =~= dir);
    }
}

/// A slash at the end, or a slash and a dot, leads nowhere: the folder above is
/// the same.
pub proof fn nothing_behind_changes_nothing(path: Seq<char>)
    requires
        path.len() > 0,
    ensures
        clean(path.push('/')) == clean(path),
        parent(path.push('/')) == parent(path),
        clean(path.push('/').push('.')) == clean(path),
        parent(path.push('/').push('.')) == parent(path),
{
    let from = parts_start(path);
    let slash = path.push('/');
    let dot = slash.push('.');
    let n = path.len() as int;
    assert(parts_start(slash) == from);
    assert(parts_start(dot) == from);
    assert(n >= from);
    last_slash_found(slash, from, n);
    assert(last_part(slash, from) =~= Seq::<char>::empty());
    assert(before_last_part(slash, from) =~= path);
    last_slash_found(dot, from, n);
    assert(last_part(dot, from) =~= seq!['.']);
    assert(before_last_part(dot, from) =~= path);
}

/// Nothing is above the root and above an empty path, and above these only.
pub proof fn only_the_top_has_nothing_above(path: Seq<char>)
    ensures
        parent(path) is None <==> path.len() == 0 || is_root(path),
{
    clean_takes_off_the_end(path);
    void_end_is_void(path, parts_start(path));
}

/// How a system with drives joins: what is written behind keeps both, with a
/// backslash between them where nothing separates them yet.
pub proof fn drives_join_with_backslashes(dir: Seq<char>, name: Seq<char>)
    ensures
        joins_behind(System::Drives, dir, name) <==> !(dir.len() >= 4 && dir.take(4) == seq![
            '\\',
            '\\',
            '?',
            '\\',
        ]) && (name.len() > 0 ==> name[0] != '/' && name[0] != '\\') && (name.len() > 1 ==> name[1]
            != ':'),
        ({
            let joined = join_on(System::Drives, dir, name);
            let meet = joined.len() - name.len();
            &&& joined.take(dir.len() as int) == dir
            &&& joined.skip(meet) == name
            &&& dir.len() == 0 || dir.last() == '/' || dir.last() == '\\' ==> meet == dir.len()
            &&& dir.len() > 2 && dir.last() != '/' && dir.last() != '\\' ==> meet == dir.len() + 1
                && joined[dir.len() as int] == '\\'
        }),
{
    let joined = join_on(System::Drives, dir, name);
    assert(joined.take(dir.len() as int) =~= dir);
    assert(joined.skip(joined.len() - name.len()) =~= name);
    if dir.len() >= 4 {
        assert(dir.take(4) =~= seq![dir[0], dir[1], dir[2], dir[3]]);
        if dir.take(4) == seq!['\\', '\\', '?', '\\'] {
            assert(dir.take(4)[0] == '\\' && dir.take(4)[1] == '\\' && dir.take(4)[2] == '?'
                && dir.take(4)[3] == '\\');
        }
    }
}

/// The root of a system with drives is separators, slashes and backslashes alike,
/// and nothing that names a folder.
pub proof fn drives_have_one_root(path: Seq<char>)
    ensures
        path.len() > 0 && (forall|i: int|
            0 <= i < path.len() ==> #[trigger] path[i] == '/' || path[i] == '\\') ==> is_root_on(
            System::Drives,
            path,
        ),
        is_root_on(System::Drives, path) ==> path.len() > 0 && (path[0] == '/' || path[0] == '\\'),
        is_root_on(System::Drives, path) ==> forall|i: int|
            0 <= i < path.len() ==> #[trigger] path[i] == '/' || path[i] == '\\' || path[i] == '.',
        is_root_on(System::Slashes, path) == is_root(path),
{
}

/// The root with drives, character by character: it starts with a separator, goes
/// on with separators and dots that stand alone between them, and is no device.
pub proof fn bare_root_by_its_characters(path: Seq<char>)
    ensures
        is_root_on(System::Drives, path) <==> {
            &&& path.len() > 0
            &&& path[0] == '/' || path[0] == '\\'
            &&& forall|i: int|
                0 <= i < path.len() ==> #[trigger] path[i] == '/' || path[i] == '\\' || is_lone_dot(
                    path,
                    i,
                )
            &&& path.len() < 4 || path[2] != '.' || (path[1] != '/' && path[1] != '\\') || (path[3]
                != '/' && path[3] != '\\')
        },
        forall|i: int|
            0 < i < path.len() ==> (#[trigger] is_lone_dot(path, i) <==> path[i] == '.' && (path[i
                - 1] == '/' || path[i - 1] == '\\') && (i + 1 == path.len() || path[i + 1] == '/'
                || path[i + 1] == '\\')),
{
    if path.len() > 0 && (path[0] == '/' || path[0] == '\\') && (forall|i: int|
        0 <= i < path.len() ==> #[trigger] path[i] == '/' || path[i] == '\\' || is_lone_dot(
            path,
            i,
        )) {
        assert forall|i: int| 0 <= i < path.len() implies separates(#[trigger] path[i])
            || is_lone_dot(path, i) by {}
    }
    if is_bare_root(path) {
        assert forall|i: int| 0 <= i < path.len() implies #[trigger] path[i] == '/' || path[i]
            == '\\' || is_lone_dot(path, i) by {
            assert(separates(path[i]) || is_lone_dot(path, i));
        }
    }
}

/// Above the current folder, written as a dot, is the empty path.
pub proof fn above_the_dot_is_nothing(path: Seq<char>)
    requires
        clean(path) == seq!['.'],
        path.len() == 1 || path[1] == '/',
    ensures
        parent(path) == Some(Seq::<char>::empty()),
{
    clean_takes_off_the_end(path);
    assert(path[0] == clean(path)[0]);
}

}
