//! Unix paths as bytes: joining a name to a directory, and the entries that a
//! path walks through.

use vstd::prelude::*;

verus! {

/// The platforms that the observer runs on.
#[derive(Clone, Copy, Debug, PartialEq, Eq, Structural)]
pub enum PlatformKind {
    Linux,
    Macos,
}

impl PlatformKind {
    pub open spec fn pairing_name(self) -> Seq<char> {
        match self {
            PlatformKind::Linux => "linux"@,
            PlatformKind::Macos => "macos"@,
        }
    }

    /// The platform as pairing names it.
    pub fn pairing_platform(&self) -> (r: &'static str)
        ensures
            r@ == self.pairing_name(),
    {
        match self {
            PlatformKind::Linux => "linux",
            PlatformKind::Macos => "macos",
        }
    }
}

/// What stands where a file is expected. A symbolic link is not regular.
#[derive(Clone, Copy, Debug, PartialEq, Eq, Structural)]
pub enum TargetState {
    Regular,
    NotRegular,
    NotFound,
    Unreadable,
}

/// The byte that separates the entries of a path.
pub const SLASH: u8 = 0x2f;

/// `name` below `parent`. A rooted name takes the place of the whole path.
pub open spec fn join_path(parent: Seq<u8>, name: Seq<u8>) -> Seq<u8> {
    if name.len() > 0 && name[0] == SLASH {
        name
    } else if parent.len() == 0 || parent.last() == SLASH {
        parent + name
    } else {
        parent.push(SLASH) + name
    }
}

/// The pieces of `path` between slashes that are not empty.
pub open spec fn entries(path: Seq<u8>) -> Seq<Seq<u8>>
    decreases path.len(),
{
    if path.len() == 0 {
        Seq::empty()
    } else {
        let before = entries(path.drop_last());
        if path.last() == SLASH {
            before
        } else if path.len() >= 2 && path[path.len() - 2] != SLASH {
            before.update(before.len() - 1, before.last().push(path.last()))
        } else {
            before.push(seq![path.last()])
        }
    }
}

/// A name that is one entry: neither empty nor with a slash in it.
pub open spec fn single_entry(name: Seq<u8>) -> bool {
    name.len() > 0 && forall|i: int| 0 <= i < name.len() ==> #[trigger] name[i] != SLASH
}

proof fn lemma_entries_grow(before: Seq<u8>, name: Seq<u8>)
    requires
        before.len() == 0 || before.last() == SLASH,
        single_entry(name),
    ensures
        entries(before + name) == entries(before).push(name),
    decreases name.len(),
{
    let whole = before + name;
    assert(whole.drop_last() =~= before + name.drop_last());
    if name.len() == 1 {
        assert(before + name.drop_last() =~= before);
        assert(name =~= seq![name.last()]);
        if before.len() > 0 {
            assert(whole[whole.len() - 2] == before.last());
        }
    } else {
        lemma_entries_grow(before, name.drop_last());
        assert(whole[whole.len() - 2] == name[name.len() - 2]);
        let shorter = entries(before).push(name.drop_last());
        assert(name.drop_last().push(name.last()) =~= name);
        assert(shorter.update(shorter.len() - 1, name) =~= entries(before).push(name));
    }
}

/// Joining a single entry walks through the entries of the directory and then
/// that one: the result is a direct child.
pub proof fn lemma_join_adds_one_entry(parent: Seq<u8>, name: Seq<u8>)
    requires
        single_entry(name),
    ensures
        entries(join_path(parent, name)) == entries(parent).push(name),
        parent.len() > 0 ==> join_path(parent, name)[0] == parent[0],
{
    if parent.len() == 0 || parent.last() == SLASH {
        lemma_entries_grow(parent, name);
    } else {
        assert(parent.push(SLASH).drop_last() =~= parent);
        lemma_entries_grow(parent.push(SLASH), name);
    }
}

/// Where the last piece of a path begins: behind its last slash.
pub open spec fn last_start(path: Seq<u8>) -> int
    decreases path.len(),
{
    if path.len() == 0 || path.last() == SLASH {
        path.len() as int
    } else {
        last_start(path.drop_last())
    }
}

/// Where the last piece of a path begins.
pub fn last_piece_start(path: &[u8]) -> (r: usize)
    ensures
        r == last_start(path@),
        r <= path@.len(),
{
    let mut start: usize = path.len();
    proof {
        assert(path@.take(start as int) =~= path@);
    }
    while start > 0 && path[start - 1] != SLASH
        invariant
            start <= path@.len(),
            last_start(path@) == last_start(path@.take(start as int)),
        decreases start,
    {
        proof {
            assert(path@.take(start as int).drop_last() =~= path@.take(start - 1));
        }
        start = start - 1;
    }
    start
}

/// A directory as it stands before the name of something in it.
pub open spec fn in_directory(parent: Seq<u8>) -> Seq<u8> {
    if parent.len() == 0 || parent.last() == SLASH {
        parent
    } else {
        parent.push(SLASH)
    }
}

proof fn lemma_last_start_of_entry(before: Seq<u8>, name: Seq<u8>)
    requires
        before.len() == 0 || before.last() == SLASH,
        forall|i: int| 0 <= i < name.len() ==> #[trigger] name[i] != SLASH,
    ensures
        last_start(before + name) == before.len(),
    decreases name.len(),
{
    if name.len() == 0 {
        assert(before + name =~= before);
    } else {
        assert((before + name).drop_last() =~= before + name.drop_last());
        assert((before + name).last() == name[name.len() - 1]);
        lemma_last_start_of_entry(before, name.drop_last());
    }
}

/// The last piece of a path to an entry of a directory is that entry.
pub proof fn lemma_entry_is_last_piece(parent: Seq<u8>, name: Seq<u8>)
    requires
        single_entry(name),
    ensures
        join_path(parent, name) == in_directory(parent) + name,
        last_start(join_path(parent, name)) == in_directory(parent).len(),
{
    assert(name[0] != SLASH);
    lemma_last_start_of_entry(in_directory(parent), name);
}

/// The name that a list of entries ends in: `.` stands for the entry before it, and
/// `..` is no name.
pub open spec fn last_name(names: Seq<Seq<u8>>) -> Option<Seq<u8>>
    decreases names.len(),
{
    if names.len() == 0 {
        None
    } else if names.last() == seq![0x2eu8] {
        last_name(names.drop_last())
    } else if names.last() == seq![0x2eu8, 0x2eu8] {
        None
    } else {
        Some(names.last())
    }
}

/// The last name on a path.
pub open spec fn file_name(path: Seq<u8>) -> Option<Seq<u8>> {
    last_name(entries(path))
}

/// The last name on a path.
pub fn path_file_name(path: &[u8]) -> (r: Option<Vec<u8>>)
    ensures
        match r {
            Some(name) => file_name(path@) == Some(name@),
            None => file_name(path@) is None,
        },
{
    let mut end: usize = path.len();
    proof {
        assert(path@.take(end as int) =~= path@);
    }
    while end > 0
        invariant
            end <= path@.len(),
            file_name(path@) == file_name(path@.take(end as int)),
        decreases end,
    {
        if path[end - 1] == SLASH {
            proof {
                assert(path@.take(end as int).drop_last() =~= path@.take(end - 1));
            }
            end = end - 1;
            continue;
        }
        let mut start: usize = end - 1;
        while start > 0 && path[start - 1] != SLASH
            invariant
                start < end <= path@.len(),
                forall|i: int| start <= i < end ==> #[trigger] path@[i] != SLASH,
            decreases start,
        {
            start = start - 1;
        }
        let name = vstd::slice::slice_subrange(path, start, end);
        proof {
            let before = path@.take(start as int);
            assert(path@.take(end as int) =~= before + name@);
            lemma_entries_grow(before, name@);
            assert(entries(path@.take(end as int)).drop_last() =~= entries(before));
        }
        if name.len() == 1 && name[0] == 0x2e {
            proof {
                assert(name@ =~= seq![0x2eu8]);
            }
            end = start;
            continue;
        }
        if name.len() == 2 && name[0] == 0x2e && name[1] == 0x2e {
            proof {
                assert(name@ =~= seq![0x2eu8, 0x2eu8]);
                assert(name@.len() != seq![0x2eu8].len());
            }
            return None;
        }
        proof {
            assert(name@ != seq![0x2eu8]);
            assert(name@ != seq![0x2eu8, 0x2eu8]);
        }
        return Some(copy_bytes(name));
    }
    None
}

/// A copy of `bytes`.
pub fn copy_bytes(bytes: &[u8]) -> (r: Vec<u8>)
    ensures
        r@ == bytes@,
{
    let mut out: Vec<u8> = Vec::new();
    append_bytes(&mut out, bytes);
    proof {
        assert(out@ =~= bytes@);
    }
    out
}

/// `bytes` at the end of `out`.
pub fn append_bytes(out: &mut Vec<u8>, bytes: &[u8])
    ensures
        final(out)@ == old(out)@ + bytes@,
{
    let mut i: usize = 0;
    proof {
        assert(out@ =~= old(out)@ + bytes@.take(0));
    }
    while i < bytes.len()
        invariant
            i <= bytes@.len(),
            out@ == old(out)@ + bytes@.take(i as int),
        decreases bytes@.len() - i,
    {
        out.push(bytes[i]);
        proof {
            assert(bytes@.take(i + 1) =~= bytes@.take(i as int).push(bytes@[i as int]));
            assert(out@ =~= old(out)@ + bytes@.take(i + 1));
        }
        i = i + 1;
    }
    proof {
        assert(bytes@.take(bytes@.len() as int) =~= bytes@);
    }
}

/// Whether the two byte strings are the same.
pub fn same_bytes(a: &[u8], b: &[u8]) -> (r: bool)
    ensures
        r == (a@ == b@),
{
    if a.len() != b.len() {
        return false;
    }
    let mut i: usize = 0;
    while i < a.len()
        invariant
            i <= a@.len(),
            a@.len() == b@.len(),
            forall|j: int| 0 <= j < i ==> a@[j] == b@[j],
        decreases a@.len() - i,
    {
        if a[i] != b[i] {
            return false;
        }
        i = i + 1;
    }
    proof {
        assert(a@ =~= b@);
    }
    true
}

/// `name` below `parent`.
pub fn joined_path(parent: &[u8], name: &[u8]) -> (r: Vec<u8>)
    ensures
        r@ == join_path(parent@, name@),
{
    if name.len() > 0 && name[0] == SLASH {
        return copy_bytes(name);
    }
    let mut out = copy_bytes(parent);
    let n: usize = parent.len();
    if n > 0 && parent[n - 1] != SLASH {
        out.push(SLASH);
    }
    append_bytes(&mut out, name);
    out
}

/// Some part of `bytes` is the marker.
pub open spec fn holds_marker(bytes: Seq<u8>, marker: Seq<u8>) -> bool {
    exists|i: int|
        0 <= i <= bytes.len() - marker.len() && #[trigger] bytes.subrange(i, i + marker.len())
            == marker
}

/// Whether some part of `bytes` is the marker.
pub fn contains_marker(bytes: &[u8], marker: &[u8]) -> (r: bool)
    ensures
        r == holds_marker(bytes@, marker@),
{
    if marker.len() > bytes.len() {
        return false;
    }
    let last: usize = bytes.len() - marker.len();
    let mut i: usize = 0;
    loop
        invariant
            i <= last,
            last + marker@.len() == bytes@.len(),
            bytes@.len() <= usize::MAX,
            forall|j: int| 0 <= j < i ==> #[trigger] bytes@.subrange(j, j + marker@.len()) != marker@,
        decreases last - i,
    {
        let window = vstd::slice::slice_subrange(bytes, i, i + marker.len());
        if same_bytes(window, marker) {
            proof {
                assert(bytes@.subrange(i as int, i + marker@.len()) == marker@);
            }
            return true;
        }
        if i == last {
            return false;
        }
        i = i + 1;
    }
}

/// The name of a file in a directory is the last name on its path.
pub proof fn lemma_file_name_is_read_back(parent: Seq<u8>, name: Seq<u8>)
    requires
        single_entry(name),
        name != seq![0x2eu8],
        name != seq![0x2eu8, 0x2eu8],
    ensures
        file_name(join_path(parent, name)) == Some(name),
{
    lemma_join_adds_one_entry(parent, name);
}

/// A path that ends in a dot has the name before it, and one that ends in two has none.
pub proof fn lemma_dots_are_no_names(parent: Seq<u8>)
    ensures
        file_name(join_path(parent, seq![0x2eu8])) == file_name(parent),
        file_name(join_path(parent, seq![0x2eu8, 0x2eu8])) is None,
{
    let one = seq![0x2eu8];
    let two = seq![0x2eu8, 0x2eu8];
    lemma_join_adds_one_entry(parent, one);
    lemma_join_adds_one_entry(parent, two);
    assert(entries(parent).push(one).drop_last() =~= entries(parent));
    assert(one.len() != two.len());
}

/// A file below a directory is reached through it, but a rooted name stands for itself.
pub proof fn lemma_joined_path(parent: Seq<u8>, name: Seq<u8>)
    ensures
        name.len() > 0 && name[0] == SLASH ==> join_path(parent, name) == name,
        (name.len() == 0 || name[0] != SLASH) && parent.len() > 0 && parent.last() != SLASH
            ==> join_path(parent, name) == parent + seq![SLASH] + name,
        (name.len() == 0 || name[0] != SLASH) && parent.len() > 0 && parent.last() == SLASH
            ==> join_path(parent, name) == parent + name,
{
    assert(parent.push(SLASH) =~= parent + seq![SLASH]);
}

/// A marker is found wherever it stands.
pub proof fn lemma_marker_is_found(before: Seq<u8>, marker: Seq<u8>, after: Seq<u8>)
    ensures
        holds_marker(before + marker + after, marker),
{
    let bytes = before + marker + after;
    let at = before.len() as int;
    assert(bytes.subrange(at, at + marker.len()) =~= marker);
}

} // verus!
