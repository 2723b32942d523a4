//! What holds of paths that are put together from a directory and a name.

use crate::path::{
    after_name, body_part, body_parts, body_start, drive_at, drive_name, file_name_of, has_root,
    inner_parts, is_separator, joined, lemma_name_end, name_end, parent_of, part_text, parts_of,
    prefix_end, prefix_of, rebuilt, share_at, start_parts, starts_device, starts_verbatim,
    starts_verbatim_disk, starts_verbatim_unc, starts_with_two, PartModel, PrefixKind,
};
use vstd::prelude::*;

verus! {

/// A plain name: not empty, no dots alone, no separator.
pub open spec fn is_plain_name(name: Seq<char>) -> bool {
    &&& name.len() > 0
    &&& name != seq!['.']
    &&& name != seq!['.', '.']
    &&& forall|i: int| 0 <= i < name.len() ==> !is_separator(#[trigger] name[i], false)
}

proof fn lemma_name_end_before(a: Seq<char>, b: Seq<char>, from: int, verbatim: bool)
    requires
        0 <= from < a.len(),
        is_separator(a.last(), verbatim),
    ensures
        name_end(a + b, from, verbatim) == name_end(a, from, verbatim),
        name_end(a, from, verbatim) < a.len(),
    decreases a.len() - from,
{
    assert((a + b)[from] == a[from]);
    if !is_separator(a[from], verbatim) {
        assert(from < a.len() - 1);
        lemma_name_end_before(a, b, from + 1, verbatim);
    }
}

proof fn lemma_name_end_behind(a: Seq<char>, b: Seq<char>, k: int, verbatim: bool)
    requires
        0 <= k <= b.len(),
    ensures
        name_end(a + b, a.len() + k, verbatim) == a.len() + name_end(b, k, verbatim),
    decreases b.len() - k,
{
    if k < b.len() {
        assert((a + b)[a.len() + k] == b[k]);
        if !is_separator(b[k], verbatim) {
            lemma_name_end_behind(a, b, k + 1, verbatim);
        }
    }
}

proof fn lemma_body_behind(a: Seq<char>, b: Seq<char>, k: int, verbatim: bool)
    requires
        0 <= k <= b.len() + 1,
    ensures
        body_parts(a + b, a.len() + k, verbatim) == body_parts(b, k, verbatim),
    decreases b.len() + 1 - k,
{
    if k < b.len() {
        lemma_name_end_behind(a, b, k, verbatim);
        lemma_name_end(b, k, verbatim);
        let end = name_end(b, k, verbatim);
        assert((a + b).subrange(a.len() + k, a.len() + end) == b.subrange(k, end));
        lemma_body_behind(a, b, end + 1, verbatim);
    }
}

proof fn lemma_body_append(a: Seq<char>, b: Seq<char>, from: int, verbatim: bool)
    requires
        0 <= from <= a.len(),
        a.len() > 0,
        is_separator(a.last(), verbatim),
    ensures
        body_parts(a + b, from, verbatim) == body_parts(a, from, verbatim) + body_parts(b, 0, verbatim),
    decreases a.len() - from,
{
    if from == a.len() {
        lemma_body_behind(a, b, 0, verbatim);
        assert(body_parts(a, from, verbatim) == Seq::<PartModel>::empty());
        assert(Seq::<PartModel>::empty() + body_parts(b, 0, verbatim) == body_parts(b, 0, verbatim));
    } else {
        lemma_name_end_before(a, b, from, verbatim);
        lemma_name_end(a, from, verbatim);
        let end = name_end(a, from, verbatim);
        assert((a + b).subrange(from, end) == a.subrange(from, end));
        lemma_body_append(a, b, end + 1, verbatim);
        let rest = body_parts(a, end + 1, verbatim);
        let more = body_parts(b, 0, verbatim);
        match body_part(a.subrange(from, end), verbatim) {
            Some(part) => {
                assert((seq![part] + rest) + more == seq![part] + (rest + more));
            },
            None => {},
        }
    }
}

proof fn lemma_name_end_push(a: Seq<char>, from: int, verbatim: bool)
    requires
        0 <= from <= a.len(),
    ensures
        name_end(a.push('\\'), from, verbatim) == name_end(a, from, verbatim),
    decreases a.len() - from,
{
    if from < a.len() {
        assert(a.push('\\')[from] == a[from]);
        if !is_separator(a[from], verbatim) {
            lemma_name_end_push(a, from + 1, verbatim);
        }
    }
}

proof fn lemma_body_push(a: Seq<char>, from: int, verbatim: bool)
    requires
        0 <= from <= a.len() + 1,
    ensures
        body_parts(a.push('\\'), from, verbatim) == body_parts(a, from, verbatim),
    decreases a.len() + 1 - from,
{
    let t = a.push('\\');
    if from < a.len() {
        lemma_name_end_push(a, from, verbatim);
        lemma_name_end(a, from, verbatim);
        let end = name_end(a, from, verbatim);
        assert(t.subrange(from, end) == a.subrange(from, end));
        lemma_body_push(a, end + 1, verbatim);
    } else if from == a.len() {
        lemma_name_end_push(a, from, verbatim);
        assert(t.subrange(from, from).len() == 0);
        assert(body_parts(t, from + 1, verbatim) == Seq::<PartModel>::empty());
    }
}

/// A part that the body of a path can hold, as its text stands for it.
spec fn reads_back(part: PartModel, verbatim: bool) -> bool {
    let text = part_text(part);
    &&& body_part(text, verbatim) == Some(part)
    &&& forall|i: int| 0 <= i < text.len() ==> !is_separator(#[trigger] text[i], verbatim)
}

proof fn lemma_body_single(part: PartModel, verbatim: bool)
    requires
        reads_back(part, verbatim),
    ensures
        body_parts(part_text(part), 0, verbatim) == seq![part],
{
    let text = part_text(part);
    lemma_name_end(text, 0, verbatim);
    let end = name_end(text, 0, verbatim);
    if end < text.len() {
        assert(is_separator(text[end], verbatim));
    }
    assert(text.subrange(0, end) == text);
    assert(body_parts(text, end + 1, verbatim) == Seq::<PartModel>::empty());
    assert(seq![part] + Seq::<PartModel>::empty() == seq![part]);
}

proof fn lemma_plain_reads_back(name: Seq<char>, verbatim: bool)
    requires
        is_plain_name(name),
    ensures
        reads_back(PartModel::Name(name), verbatim),
{
    assert forall|i: int| 0 <= i < name.len() implies !is_separator(
        #[trigger] name[i],
        verbatim,
    ) by {
        assert(!is_separator(name[i], false));
    }
}

// ---------------------------------------------------------------- directories taken as they are

/// The directory with a separator at its end.
spec fn with_separator(dir: Seq<char>) -> Seq<char> {
    if is_separator(dir.last(), false) {
        dir
    } else {
        dir.push('\\')
    }
}

/// Names that start within the directory end where they did.
proof fn lemma_name_end_joined(dir: Seq<char>, name: Seq<char>, from: int)
    requires
        dir.len() > 0,
        0 <= from <= dir.len(),
        from < dir.len() || !is_separator(dir.last(), false),
    ensures
        name_end(with_separator(dir) + name, from, false) == name_end(dir, from, false),
    decreases dir.len() - from,
{
    let t = with_separator(dir) + name;
    if from < dir.len() {
        assert(t[from] == dir[from]);
        if !is_separator(dir[from], false) {
            if from + 1 == dir.len() {
                assert(dir.last() == dir[from]);
            }
            lemma_name_end_joined(dir, name, from + 1);
        }
    } else {
        assert(t[from] == '\\');
    }
}

/// The directory begins a share that is not named yet, so that a name put
/// behind it would become a part of the prefix.
pub open spec fn lacks_share(dir: Seq<char>) -> bool {
    let server_end = name_end(dir, 2, false);
    &&& starts_with_two(dir)
    &&& dir.len() > 2
    &&& !is_separator(dir[2], false)
    &&& after_name(dir, server_end) >= dir.len()
}

/// A name put behind the directory is one more part of the path. This leaves
/// out what is no directory yet: a share or a device without a name, and a
/// verbatim prefix without a root or with a share that is not named.
pub open spec fn keeps_names(dir: Seq<char>) -> bool {
    match prefix_of(dir) {
        Some((PartModel::Prefix(kind, a, b), end)) => match kind {
            PrefixKind::Disk => true,
            PrefixKind::Unc => true,
            PrefixKind::Device => a.len() > 0 || end < dir.len(),
            PrefixKind::Verbatim => has_root(dir),
            PrefixKind::VerbatimDisk => has_root(dir),
            PrefixKind::VerbatimUnc => has_root(dir) && b.len() > 0,
        },
        _ => !lacks_share(dir),
    }
}

/// The prefix stays when a name is put behind the directory.
proof fn lemma_prefix_joined(dir: Seq<char>, name: Seq<char>)
    requires
        dir.len() > 0,
        is_plain_name(name),
        !starts_verbatim(dir),
        keeps_names(dir),
    ensures
        prefix_of(with_separator(dir) + name) == prefix_of(dir),
        !starts_verbatim(with_separator(dir) + name),
{
    let t = with_separator(dir) + name;
    let n = dir.len() as int;
    let ended = is_separator(dir.last(), false);
    assert forall|i: int| 0 <= i < n implies t[i] == dir[i] by {}
    assert(!ended ==> t[n] == '\\');
    assert(ended ==> t[n] == name[0]);
    assert(ended && name.len() > 1 ==> t[n + 1] == name[1]);
    assert(!is_separator(name[0], false));
    assert(name.len() > 1 ==> !is_separator(name[1], false));
    assert(starts_with_two(t) == starts_with_two(dir));
    if starts_with_two(dir) {
        lemma_name_end(dir, 2, false);
        if n == 2 {
            assert(ended);
            lemma_name_end(t, 2, false);
            lemma_name_end_behind(dir, name, 0, false);
            lemma_name_end(name, 0, false);
            let e = name_end(name, 0, false);
            if e < name.len() {
                assert(is_separator(name[e], false));
            }
            assert(t == dir + name);
            assert(name_end(t, 2, false) == t.len());
            assert(share_at(t, 2, false).1.len() == 0);
            assert(share_at(dir, 2, false).0.len() == 0);
            assert(prefix_of(t) is None);
            assert(prefix_of(dir) is None);
        } else {
            lemma_name_end_joined(dir, name, 2);
            let se = name_end(dir, 2, false);
            if n == 3 {
                assert(dir.last() == dir[2]);
                assert(ended) by {
                    if !ended {
                        assert(se == 3) by {
                            assert(name_end(dir, 3, false) == 3);
                        }
                        assert(lacks_share(dir));
                        assert(prefix_of(dir) is None);
                    }
                }
            }
            if starts_device(dir) {
                lemma_name_end(dir, 4, false);
                if n > 4 || !ended {
                    lemma_name_end_joined(dir, name, 4);
                    let end = name_end(dir, 4, false);
                    assert(t.subrange(4, end) =~= dir.subrange(4, end));
                } else {
                    assert(dir.last() == dir[3]);
                    assert(prefix_of(dir) == Some(
                        (
                            PartModel::Prefix(
                                PrefixKind::Device,
                                dir.subrange(4, 4),
                                Seq::<char>::empty(),
                            ),
                            4int,
                        ),
                    ));
                    assert(false);
                }
            } else {
                assert(!starts_device(t));
                assert(!starts_verbatim(t));
                let server = dir.subrange(2, se);
                assert(t.subrange(2, se) =~= server);
                if server.len() > 0 {
                    assert(!is_separator(dir[2], false));
                    if lacks_share(dir) {
                        let share = after_name(dir, se);
                        assert(share == n);
                        assert(share_at(dir, 2, false).1.len() == 0);
                        assert(prefix_of(dir) is None);
                        assert(false);
                    }
                    let share = se + 1;
                    assert(share < n);
                    lemma_name_end(dir, share, false);
                    lemma_name_end_joined(dir, name, share);
                    let end = name_end(dir, share, false);
                    assert(t.subrange(share, end) =~= dir.subrange(share, end));
                    assert(share_at(t, 2, false) == share_at(dir, 2, false));
                    assert(prefix_of(t) == prefix_of(dir));
                } else {
                    assert(prefix_of(t) is None);
                    assert(prefix_of(dir) is None);
                }
            }
        }
    } else {
        assert(drive_at(t, 0) == drive_at(dir, 0));
        if drive_at(dir, 0) {
            assert(t.subrange(0, 1) =~= dir.subrange(0, 1));
        }
    }
}

proof fn lemma_joined_plainly(dir: Seq<char>, name: Seq<char>)
    requires
        is_plain_name(name),
        !starts_verbatim(dir),
        keeps_names(dir),
        dir.len() == 0 ==> !drive_at(name, 0),
    ensures
        parts_of(joined(dir, name)) == parts_of(dir).push(PartModel::Name(name)),
{
    let t = joined(dir, name);
    let part = PartModel::Name(name);
    let last = seq![part];
    let none = Seq::<PartModel>::empty();
    let n = dir.len() as int;
    lemma_plain_reads_back(name, false);
    lemma_body_single(part, false);
    assert(!is_separator(name[0], false));
    assert(name.len() > 1 ==> !is_separator(name[1], false));
    assert(name.len() == 1 && name[0] == '.' ==> name =~= seq!['.']);
    let body = body_parts(dir, body_start(dir), false);
    if n == 0 {
        assert(t =~= name);
        assert(prefix_of(dir) is None);
        assert(prefix_of(t) is None);
        assert(start_parts(t) == none);
        assert(parts_of(dir) =~= none);
        assert(none + last =~= last);
        assert(parts_of(t) =~= parts_of(dir).push(part));
    } else if n == 2 && drive_at(dir, 0) {
        assert(t == dir + name);
        assert(t[0] == dir[0] && t[1] == dir[1] && t[2] == name[0]);
        assert(t.subrange(0, 1) =~= dir.subrange(0, 1));
        assert(prefix_of(t) == prefix_of(dir));
        lemma_body_behind(dir, name, 0, false);
        assert(!has_root(t) && !has_root(dir));
        assert(body == none);
        assert(inner_parts(t) =~= last);
        assert(inner_parts(dir) =~= none);
        assert(parts_of(t) =~= parts_of(dir).push(part));
    } else {
        let a = with_separator(dir);
        assert(t == a + name);
        lemma_prefix_joined(dir, name);
        lemma_prefix_end(dir);
        let end = prefix_end(dir);
        assert forall|i: int| 0 <= i < n implies t[i] == dir[i] by {}
        assert(a != dir ==> t[n] == '\\');
        if end < n {
            assert(t[end] == dir[end]);
            assert(body_start(t) == body_start(dir));
            lemma_body_append(a, name, body_start(dir), false);
            if a != dir {
                lemma_body_push(dir, body_start(dir), false);
            }
            assert(n == 1 ==> t[1] == if a != dir {
                '\\'
            } else {
                name[0]
            });
            assert(start_parts(t) == start_parts(dir));
        } else {
            assert(end == n);
            assert(a != dir) by {
                lemma_full_prefix_is_open(dir);
            }
            assert(body_start(t) == a.len());
            lemma_body_behind(a, name, 0, false);
            assert(body == none);
            assert(start_parts(t) == start_parts(dir));
            assert(body + last =~= last);
        }
        assert(start_parts(dir) + (body + last) =~= (start_parts(dir) + body).push(part));
        assert(inner_parts(t) =~= inner_parts(dir).push(part));
        assert(parts_of(t) =~= parts_of(dir).push(part));
    }
}

/// A prefix lies within the path.
proof fn lemma_prefix_end(s: Seq<char>)
    ensures
        0 <= prefix_end(s) <= s.len(),
        starts_verbatim(s) ==> prefix_end(s) >= 4,
{
    if starts_verbatim_unc(s) {
        lemma_share_end(s, 8, true);
    } else if starts_verbatim(s) && !starts_verbatim_disk(s) {
        lemma_name_end(s, 4, true);
    } else if starts_device(s) {
        lemma_name_end(s, 4, false);
    } else if starts_with_two(s) {
        lemma_share_end(s, 2, false);
    }
}

proof fn lemma_share_end(s: Seq<char>, at: int, verbatim: bool)
    requires
        0 <= at <= s.len(),
    ensures
        at <= share_at(s, at, verbatim).2 <= s.len(),
{
    lemma_name_end(s, at, verbatim);
    let share = after_name(s, name_end(s, at, verbatim));
    lemma_name_end(s, share, verbatim);
}

/// A directory that is all prefix, other than a drive, ends in a name.
proof fn lemma_full_prefix_is_open(dir: Seq<char>)
    requires
        dir.len() > 0,
        !starts_verbatim(dir),
        keeps_names(dir),
        prefix_end(dir) == dir.len(),
        !(dir.len() == 2 && drive_at(dir, 0)),
    ensures
        !is_separator(dir.last(), false),
        start_parts(dir) == seq![PartModel::Root],
{
    if starts_device(dir) {
        lemma_name_end(dir, 4, false);
    } else {
        lemma_name_end(dir, 2, false);
        let share = after_name(dir, name_end(dir, 2, false));
        lemma_name_end(dir, share, false);
    }
}

// ---------------------------------------------------------------- verbatim directories

/// Every part of a body stands for its text.
proof fn lemma_body_reads_back(s: Seq<char>, from: int, verbatim: bool)
    requires
        0 <= from,
    ensures
        forall|i: int|
            0 <= i < body_parts(s, from, verbatim).len() ==> reads_back(
                #[trigger] body_parts(s, from, verbatim)[i],
                verbatim,
            ),
    decreases s.len() - from + 1,
{
    if from < s.len() {
        lemma_name_end(s, from, verbatim);
        let end = name_end(s, from, verbatim);
        let name = s.subrange(from, end);
        let rest = body_parts(s, end + 1, verbatim);
        lemma_body_reads_back(s, end + 1, verbatim);
        assert forall|i: int| 0 <= i < name.len() implies !is_separator(
            #[trigger] name[i],
            verbatim,
        ) by {
            assert(name[i] == s[from + i]);
        }
        match body_part(name, verbatim) {
            Some(part) => {
                assert(part_text(part) =~= name);
                let all = seq![part] + rest;
                assert forall|i: int| 0 <= i < all.len() implies reads_back(
                    #[trigger] all[i],
                    verbatim,
                ) by {
                    if i > 0 {
                        assert(all[i] == rest[i - 1]);
                    }
                }
            },
            None => {},
        }
    }
}

/// A path put together from a prefix, a root and parts begins with the prefix
/// and a backslash, and its body holds these parts.
proof fn lemma_rebuilt_body(head: Seq<char>, parts: Seq<PartModel>)
    requires
        forall|i: int| 0 <= i < parts.len() ==> reads_back(#[trigger] parts[i], true),
    ensures
        ({
            let t = rebuilt(head, seq![PartModel::Root] + parts);
            &&& t.len() > head.len()
            &&& t.take(head.len() as int) == head
            &&& t[head.len() as int] == '\\'
            &&& body_parts(t, head.len() as int + 1, true) == parts
        }),
    decreases parts.len(),
{
    reveal_with_fuel(rebuilt, 2);
    let root = seq![PartModel::Root];
    let t = rebuilt(head, root + parts);
    let from = head.len() as int + 1;
    if parts.len() == 0 {
        assert(root + parts =~= root);
        assert(root.drop_last() =~= Seq::<PartModel>::empty());
        assert(t == head + seq!['\\']);
        assert(t.take(head.len() as int) =~= head);
        assert(parts =~= Seq::<PartModel>::empty());
    } else {
        let init = parts.drop_last();
        let last = parts.last();
        let text = part_text(last);
        assert forall|i: int| 0 <= i < init.len() implies reads_back(#[trigger] init[i], true) by {
            assert(init[i] == parts[i]);
        }
        lemma_rebuilt_body(head, init);
        let all = root + parts;
        let u = rebuilt(head, root + init);
        assert(all.drop_last() =~= root + init);
        assert(all.last() == last);
        assert(reads_back(parts[parts.len() - 1], true));
        assert(!(last is Root));
        lemma_body_single(last, true);
        if init.len() == 0 {
            assert(root + init =~= root);
            assert(root.drop_last() =~= Seq::<PartModel>::empty());
            assert(u =~= head.push('\\'));
            assert(all[all.len() - 2] is Root);
            assert(t == u + text);
            lemma_body_behind(u, text, 0, true);
            assert(parts =~= seq![last]);
        } else {
            assert(all[all.len() - 2] == init.last());
            assert(reads_back(init[init.len() - 1], true));
            assert(!(init.last() is Root));
            let a = u.push('\\');
            assert(t == a + text);
            lemma_body_append(a, text, from, true);
            lemma_body_push(u, from, true);
            assert(init + seq![last] =~= parts);
        }
        assert(t.take(head.len() as int) =~= u.take(head.len() as int));
        assert(t[head.len() as int] == u[head.len() as int]);
    }
}

proof fn lemma_name_end_at(s: Seq<char>, from: int, end: int, verbatim: bool)
    requires
        0 <= from <= end < s.len(),
        is_separator(s[end], verbatim),
        forall|i: int| from <= i < end ==> !is_separator(#[trigger] s[i], verbatim),
    ensures
        name_end(s, from, verbatim) == end,
    decreases end - from,
{
    if from < end {
        assert(!is_separator(s[from], verbatim));
        lemma_name_end_at(s, from + 1, end, verbatim);
    }
}

/// A verbatim prefix with a root is read again from a path that begins with it
/// and a backslash.
proof fn lemma_verbatim_prefix(dir: Seq<char>, t: Seq<char>)
    requires
        starts_verbatim(dir),
        keeps_names(dir),
        t.len() > prefix_end(dir),
        t.take(prefix_end(dir)) == dir.take(prefix_end(dir)),
        t[prefix_end(dir)] == '\\',
    ensures
        prefix_of(t) == prefix_of(dir),
        starts_verbatim(t),
{
    let end = prefix_end(dir);
    lemma_prefix_end(dir);
    assert forall|i: int| 0 <= i < end implies t[i] == dir[i] by {
        assert(t.take(end)[i] == dir.take(end)[i]);
    }
    if starts_verbatim_unc(dir) {
        lemma_name_end(dir, 8, true);
        let server_end = name_end(dir, 8, true);
        let share = after_name(dir, server_end);
        lemma_name_end(dir, share, true);
        assert(share_at(dir, 8, true).1.len() > 0);
        assert(end == name_end(dir, share, true));
        assert(server_end < dir.len());
        assert(t[server_end] == dir[server_end]);
        assert forall|i: int| 8 <= i < server_end implies !is_separator(#[trigger] t[i], true) by {
            assert(!is_separator(dir[i], true));
        }
        lemma_name_end_at(t, 8, server_end, true);
        assert forall|i: int| share <= i < end implies !is_separator(#[trigger] t[i], true) by {
            assert(!is_separator(dir[i], true));
        }
        lemma_name_end_at(t, share, end, true);
        assert(t.subrange(8, server_end) =~= dir.subrange(8, server_end));
        assert(t.subrange(share, end) =~= dir.subrange(share, end));
    } else if starts_verbatim_disk(dir) {
        assert(t.subrange(4, 5) =~= dir.subrange(4, 5));
        assert(drive_name(t, 4) == drive_name(dir, 4));
    } else {
        lemma_name_end(dir, 4, true);
        assert(dir[end] == '\\');
        assert forall|i: int| 4 <= i < end implies !is_separator(#[trigger] t[i], true) by {
            assert(!is_separator(dir[i], true));
        }
        lemma_name_end_at(t, 4, end, true);
        assert(t.subrange(4, end) =~= dir.subrange(4, end));
        assert(forall|i: int| 0 <= i <= end ==> t[i] == dir[i]);
        assert(!starts_verbatim_unc(t));
        assert(!starts_verbatim_disk(t));
    }
}

proof fn lemma_joined_verbatim(dir: Seq<char>, name: Seq<char>)
    requires
        is_plain_name(name),
        starts_verbatim(dir),
        keeps_names(dir),
    ensures
        parts_of(joined(dir, name)) == parts_of(dir).push(PartModel::Name(name)),
{
    let t = joined(dir, name);
    let part = PartModel::Name(name);
    let root = seq![PartModel::Root];
    let end = prefix_end(dir);
    let head = dir.take(end);
    let body = body_parts(dir, body_start(dir), true);
    let more = body.push(part);
    lemma_prefix_end(dir);
    assert(has_root(dir));
    assert(start_parts(dir) == root);
    lemma_body_reads_back(dir, body_start(dir), true);
    lemma_plain_reads_back(name, true);
    assert forall|i: int| 0 <= i < more.len() implies reads_back(#[trigger] more[i], true) by {
        if i < body.len() {
            assert(more[i] == body[i]);
        }
    }
    assert(inner_parts(dir).push(part) =~= root + more);
    lemma_rebuilt_body(head, more);
    lemma_verbatim_prefix(dir, t);
    assert(has_root(t));
    assert(inner_parts(t) =~= inner_parts(dir).push(part));
    assert(parts_of(t) =~= parts_of(dir).push(part));
}

// ---------------------------------------------------------------- laws

/// The path of a plain name in a directory lies in that directory and ends in
/// that name. With no directory at all, the name must not begin like a drive.
pub proof fn joined_name_lies_in_directory(dir: Seq<char>, name: Seq<char>)
    requires
        keeps_names(dir),
        is_plain_name(name),
        dir.len() == 0 ==> !drive_at(name, 0),
    ensures
        parts_of(joined(dir, name)) == parts_of(dir).push(PartModel::Name(name)),
        parent_of(joined(dir, name)) == Some(parts_of(dir)),
        file_name_of(joined(dir, name)) == Some(name),
{
    if starts_verbatim(dir) {
        lemma_joined_verbatim(dir, name);
    } else {
        lemma_joined_plainly(dir, name);
    }
    assert(parts_of(joined(dir, name)).drop_last() =~= parts_of(dir));
}

/// A separator of either form.
pub open spec fn is_slash(c: char) -> bool {
    c == '\\' || c == '/'
}

/// The parts that a name between two separators stands for: none where it is
/// empty or a single dot, the parent where it is two dots, else the name.
pub open spec fn parts_for(name: Seq<char>) -> Seq<PartModel> {
    if name.len() == 0 || name == seq!['.'] {
        Seq::empty()
    } else if name == seq!['.', '.'] {
        seq![PartModel::Parent]
    } else {
        seq![PartModel::Name(name)]
    }
}

proof fn lemma_body_of_name(name: Seq<char>, c: char)
    requires
        forall|i: int| 0 <= i < name.len() ==> !is_slash(#[trigger] name[i]),
        is_slash(c),
    ensures
        body_parts(name, 0, false) == parts_for(name),
        body_parts(name.push(c), 0, false) == parts_for(name),
{
    let n = name.len() as int;
    lemma_name_end(name, 0, false);
    if n > 0 {
        let end = name_end(name, 0, false);
        if end < n {
            assert(is_slash(name[end]));
        }
        assert(name.subrange(0, n) =~= name);
        assert(body_parts(name, n + 1, false) =~= Seq::<PartModel>::empty());
    }
    let t = name.push(c);
    assert forall|i: int| 0 <= i < n implies !is_separator(#[trigger] t[i], false) by {
        assert(t[i] == name[i]);
        assert(!is_slash(name[i]));
    }
    lemma_name_end_at(t, 0, n, false);
    assert(t.subrange(0, n) =~= name);
    assert(body_parts(t, n + 1, false) =~= Seq::<PartModel>::empty());
    assert(body_parts(name, 0, false) =~= parts_for(name));
    assert(body_parts(t, 0, false) =~= parts_for(name));
}

/// The parts of a path on a drive are the drive, under its small letter, the
/// root, and what its names stand for, one behind the other; which separator
/// stands between them, and whether one stands at the end, does not matter.
pub proof fn names_follow_each_other_in_paths(
    letter: char,
    slash: char,
    middle: Seq<char>,
    name: Seq<char>,
    c: char,
)
    requires
        'a' <= letter && letter <= 'z',
        is_slash(slash),
        middle.len() > 0 ==> is_slash(middle.last()),
        forall|i: int| 0 <= i < name.len() ==> !is_slash(#[trigger] name[i]),
        is_slash(c),
    ensures
        ({
            let root = seq![letter, ':', slash];
            let dir = root + middle;
            &&& parts_of(root) == seq![
                PartModel::Prefix(PrefixKind::Disk, seq![letter], Seq::empty()),
                PartModel::Root,
            ]
            &&& parts_of(dir + name) == parts_of(dir) + parts_for(name)
            &&& parts_of((dir + name).push(c)) == parts_of(dir) + parts_for(name)
        }),
{
    let root = seq![letter, ':', slash];
    let dir = root + middle;
    let none = Seq::<char>::empty();
    lemma_drive_path(letter, slash, none);
    lemma_drive_path(letter, slash, middle);
    lemma_drive_path(letter, slash, middle + name);
    lemma_drive_path(letter, slash, (middle + name).push(c));
    assert(root + none =~= root);
    assert(root + (middle + name) =~= dir + name);
    assert(root + (middle + name).push(c) =~= (dir + name).push(c));
    assert(dir.last() == if middle.len() > 0 {
        middle.last()
    } else {
        slash
    });
    lemma_body_append(dir, name, 3, false);
    lemma_body_append(dir, name.push(c), 3, false);
    assert(dir + name.push(c) =~= (dir + name).push(c));
    lemma_body_of_name(name, c);
    let start = seq![
        PartModel::Prefix(PrefixKind::Disk, seq![letter], Seq::empty()),
        PartModel::Root,
    ];
    assert(body_parts(root, 3, false) =~= Seq::<PartModel>::empty());
    assert(start + Seq::<PartModel>::empty() =~= start);
    assert(start + (body_parts(dir, 3, false) + parts_for(name)) =~= start + body_parts(
        dir,
        3,
        false,
    ) + parts_for(name));
}

proof fn lemma_drive_path(letter: char, slash: char, rest: Seq<char>)
    requires
        'a' <= letter && letter <= 'z',
        is_slash(slash),
    ensures
        ({
            let s = seq![letter, ':', slash] + rest;
            parts_of(s) == seq![
                PartModel::Prefix(PrefixKind::Disk, seq![letter], Seq::empty()),
                PartModel::Root,
            ] + body_parts(s, 3, false)
        }),
{
    let s = seq![letter, ':', slash] + rest;
    assert(s[0] == letter && s[1] == ':' && s[2] == slash);
    assert(drive_name(s, 0) =~= seq![letter]);
    assert(prefix_of(s) == Some(
        (PartModel::Prefix(PrefixKind::Disk, seq![letter], Seq::empty()), 2int),
    ));
    assert(has_root(s) && body_start(s) == 3);
    assert(parts_of(s) =~= seq![
        PartModel::Prefix(PrefixKind::Disk, seq![letter], Seq::empty()),
        PartModel::Root,
    ] + body_parts(s, 3, false));
}

/// A path on a share starts with the names of the server and of the share, and
/// has a root.
pub proof fn shares_have_a_server_and_a_name(server: Seq<char>, share: Seq<char>)
    requires
        is_plain_name(server),
        server != seq!['?'],
        is_plain_name(share),
    ensures
        parts_of(seq!['\\', '\\'] + server + seq!['\\'] + share) == seq![
            PartModel::Prefix(PrefixKind::Unc, server, share),
            PartModel::Root,
        ],
{
    let s = seq!['\\', '\\'] + server + seq!['\\'] + share;
    let n = server.len() as int;
    assert(s[0] == '\\' && s[1] == '\\' && s[2] == server[0] && s[n + 2] == '\\');
    assert forall|i: int| 2 <= i < n + 2 implies !is_separator(#[trigger] s[i], false) by {
        assert(s[i] == server[i - 2]);
    }
    assert forall|i: int| n + 3 <= i < s.len() implies !is_separator(#[trigger] s[i], false) by {
        assert(s[i] == share[i - n - 3]);
    }
    if starts_verbatim(s) {
        if n > 1 {
            assert(!is_separator(s[3], false));
        } else {
            assert(server =~= seq!['?']);
        }
    }
    if starts_device(s) {
        if n > 1 {
            assert(!is_separator(s[3], false));
        } else {
            assert(server =~= seq!['.']);
        }
    }
    lemma_name_end_at(s, 2, n + 2, false);
    lemma_name_end(s, n + 3, false);
    let end = name_end(s, n + 3, false);
    if end < s.len() {
        assert(is_separator(s[end], false));
    }
    assert(s.subrange(2, n + 2) =~= server);
    assert(s.subrange(n + 3, s.len() as int) =~= share);
    assert(prefix_of(s) == Some(
        (PartModel::Prefix(PrefixKind::Unc, server, share), s.len() as int),
    ));
    assert(body_parts(s, s.len() as int, false) =~= Seq::<PartModel>::empty());
    assert(parts_of(s) =~= seq![PartModel::Prefix(PrefixKind::Unc, server, share), PartModel::Root]);
}

/// The last name of a path is its last part, where that is a name, and its parent
/// is all before; a prefix or a root has no parent.
pub proof fn paths_end_in_their_name(path: Seq<char>, before: Seq<PartModel>, name: Seq<char>)
    ensures
        parts_of(path) == before.push(PartModel::Name(name)) ==> file_name_of(path) == Some(name)
            && parent_of(path) == Some(before),
        parts_of(path) == before.push(PartModel::Parent) ==> file_name_of(path) is None
            && parent_of(path) == Some(before),
        parts_of(path) == before.push(PartModel::Root) ==> file_name_of(path) is None && parent_of(
            path,
        ) is None,
        parts_of(path).len() == 0 ==> file_name_of(path) is None && parent_of(path) is None,
{
    let all = parts_of(path);
    if all == before.push(PartModel::Name(name)) || all == before.push(PartModel::Parent) {
        assert(all.drop_last() =~= before);
    }
}

} // verus!
