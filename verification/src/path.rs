//! Windows paths as text: their parts, last names and parents.

use crate::text::{ascii_lower_all, chars_of, lower_chars, same_text, slice_of, string_of};
use vstd::prelude::*;

verus! {

/// What a path starts with, in front of its root.
#[derive(Debug, Clone, Copy, PartialEq, Eq, Structural)]
pub enum PrefixKind {
    /// `\\?\name`
    Verbatim,
    /// `\\?\UNC\server\share`
    VerbatimUnc,
    /// `\\?\C:`
    VerbatimDisk,
    /// `\\.\name`
    Device,
    /// `\\server\share`
    Unc,
    /// `C:`
    Disk,
}

/// One part of a path.
#[derive(Debug, Clone)]
pub enum PathPart {
    Prefix(PrefixKind, String, String),
    Root,
    Current,
    Parent,
    Name(String),
}

/// The plain contents of a [`PathPart`].
pub enum PartModel {
    Prefix(PrefixKind, Seq<char>, Seq<char>),
    Root,
    Current,
    Parent,
    Name(Seq<char>),
}

impl View for PathPart {
    type V = PartModel;

    open spec fn view(&self) -> PartModel {
        match *self {
            PathPart::Prefix(kind, a, b) => PartModel::Prefix(kind, a@, b@),
            PathPart::Root => PartModel::Root,
            PathPart::Current => PartModel::Current,
            PathPart::Parent => PartModel::Parent,
            PathPart::Name(s) => PartModel::Name(s@),
        }
    }
}

pub open spec fn part_models(parts: Seq<PathPart>) -> Seq<PartModel> {
    Seq::new(parts.len(), |i: int| parts[i]@)
}

// ---------------------------------------------------------------- grammar

/// Either slash parts names; in verbatim paths only the backslash does.
pub open spec fn is_separator(c: char, verbatim: bool) -> bool {
    c == '\\' || (!verbatim && c == '/')
}

/// Where the name that starts at `from` ends.
pub open spec fn name_end(s: Seq<char>, from: int, verbatim: bool) -> int
    decreases s.len() - from,
{
    if from >= s.len() {
        s.len() as int
    } else if is_separator(s[from], verbatim) {
        from
    } else {
        name_end(s, from + 1, verbatim)
    }
}

/// Where the next name starts after one that ends at `end`.
pub open spec fn after_name(s: Seq<char>, end: int) -> int {
    if end < s.len() {
        end + 1
    } else {
        s.len() as int
    }
}

pub open spec fn is_drive_letter(c: char) -> bool {
    ('a' as int <= c as int && c as int <= 'z' as int) || ('A' as int <= c as int && c as int
        <= 'Z' as int)
}

/// A drive stands at `at`: a letter and a colon.
pub open spec fn drive_at(s: Seq<char>, at: int) -> bool {
    at + 1 < s.len() && is_drive_letter(s[at]) && s[at + 1] == ':'
}

/// The drive's letter, small.
pub open spec fn drive_name(s: Seq<char>, at: int) -> Seq<char> {
    ascii_lower_all(s.subrange(at, at + 1))
}

pub open spec fn starts_verbatim(s: Seq<char>) -> bool {
    s.len() >= 4 && s[0] == '\\' && s[1] == '\\' && s[2] == '?' && s[3] == '\\'
}

pub open spec fn starts_verbatim_unc(s: Seq<char>) -> bool {
    starts_verbatim(s) && s.len() >= 8 && s[4] == 'U' && s[5] == 'N' && s[6] == 'C'
        && is_separator(s[7], false)
}

pub open spec fn starts_verbatim_disk(s: Seq<char>) -> bool {
    starts_verbatim(s) && drive_at(s, 4) && (s.len() == 6 || is_separator(s[6], false))
}

pub open spec fn starts_with_two(s: Seq<char>) -> bool {
    s.len() >= 2 && is_separator(s[0], false) && is_separator(s[1], false)
}

pub open spec fn starts_device(s: Seq<char>) -> bool {
    starts_with_two(s) && s.len() >= 4 && s[2] == '.' && is_separator(s[3], false)
}

/// The server and share that start at `at`, and where they end.
pub open spec fn share_at(s: Seq<char>, at: int, verbatim: bool) -> (Seq<char>, Seq<char>, int) {
    let server_end = name_end(s, at, verbatim);
    let share = after_name(s, server_end);
    let share_end = name_end(s, share, verbatim);
    (
        s.subrange(at, server_end),
        s.subrange(share, share_end),
        if share_end > share {
            share_end
        } else {
            server_end
        },
    )
}

/// The prefix of a path and where it ends.
pub open spec fn prefix_of(s: Seq<char>) -> Option<(PartModel, int)> {
    let none = Seq::<char>::empty();
    if starts_verbatim_unc(s) {
        let (server, share, end) = share_at(s, 8, true);
        Some((PartModel::Prefix(PrefixKind::VerbatimUnc, server, share), end))
    } else if starts_verbatim_disk(s) {
        Some((PartModel::Prefix(PrefixKind::VerbatimDisk, drive_name(s, 4), none), 6))
    } else if starts_verbatim(s) {
        let end = name_end(s, 4, true);
        Some((PartModel::Prefix(PrefixKind::Verbatim, s.subrange(4, end), none), end))
    } else if starts_device(s) {
        let end = name_end(s, 4, false);
        Some((PartModel::Prefix(PrefixKind::Device, s.subrange(4, end), none), end))
    } else if starts_with_two(s) {
        let (server, share, end) = share_at(s, 2, false);
        if server.len() > 0 && share.len() > 0 {
            Some((PartModel::Prefix(PrefixKind::Unc, server, share), end))
        } else {
            None
        }
    } else if drive_at(s, 0) {
        Some((PartModel::Prefix(PrefixKind::Disk, drive_name(s, 0), none), 2))
    } else {
        None
    }
}

/// The part that a name in the body of a path stands for. Empty names stand
/// for nothing, and so does a single dot outside verbatim paths.
pub open spec fn body_part(name: Seq<char>, verbatim: bool) -> Option<PartModel> {
    if name.len() == 0 {
        None
    } else if name == seq!['.'] {
        if verbatim {
            Some(PartModel::Current)
        } else {
            None
        }
    } else if name == seq!['.', '.'] {
        Some(PartModel::Parent)
    } else {
        Some(PartModel::Name(name))
    }
}

/// The parts of the body of a path from `from` on.
pub open spec fn body_parts(s: Seq<char>, from: int, verbatim: bool) -> Seq<PartModel>
    decreases s.len() - from + 1,
    when 0 <= from
    via body_parts_shrink
{
    if from >= s.len() {
        Seq::empty()
    } else {
        let end = name_end(s, from, verbatim);
        let rest = body_parts(s, end + 1, verbatim);
        match body_part(s.subrange(from, end), verbatim) {
            Some(part) => seq![part] + rest,
            None => rest,
        }
    }
}

#[via_fn]
proof fn body_parts_shrink(s: Seq<char>, from: int, verbatim: bool) {
    lemma_name_end(s, from, verbatim);
}

/// Where the prefix of a path ends.
pub open spec fn prefix_end(s: Seq<char>) -> int {
    match prefix_of(s) {
        Some((_, end)) => end,
        None => 0,
    }
}

/// A separator follows the prefix.
pub open spec fn has_root(s: Seq<char>) -> bool {
    prefix_end(s) < s.len() && is_separator(s[prefix_end(s)], false)
}

/// Where the body of a path starts: behind the prefix and the root.
pub open spec fn body_start(s: Seq<char>) -> int {
    if has_root(s) {
        prefix_end(s) + 1
    } else {
        prefix_end(s)
    }
}

/// What stands between the prefix and the body: a root, which shares and
/// devices have in any case, or without a prefix a leading dot.
pub open spec fn start_parts(s: Seq<char>) -> Seq<PartModel> {
    if has_root(s) {
        seq![PartModel::Root]
    } else {
        match prefix_of(s) {
            Some((PartModel::Prefix(kind, _, _), _)) => if kind == PrefixKind::Device || kind
                == PrefixKind::Unc {
                seq![PartModel::Root]
            } else {
                Seq::empty()
            },
            _ => if s.len() > 0 && s[0] == '.' && (s.len() == 1 || is_separator(s[1], false)) {
                seq![PartModel::Current]
            } else {
                Seq::empty()
            },
        }
    }
}

/// The parts of a path behind its prefix.
pub open spec fn inner_parts(s: Seq<char>) -> Seq<PartModel> {
    start_parts(s) + body_parts(s, body_start(s), starts_verbatim(s))
}

/// The parts of a path.
pub open spec fn parts_of(s: Seq<char>) -> Seq<PartModel> {
    match prefix_of(s) {
        Some((prefix, _)) => seq![prefix] + inner_parts(s),
        None => inner_parts(s),
    }
}

/// The last name of a path.
pub open spec fn file_name_of(s: Seq<char>) -> Option<Seq<char>> {
    let parts = parts_of(s);
    if parts.len() == 0 {
        None
    } else {
        match parts.last() {
            PartModel::Name(name) => Some(name),
            _ => None,
        }
    }
}

/// The parts of the parent of a path.
pub open spec fn parent_of(s: Seq<char>) -> Option<Seq<PartModel>> {
    let parts = parts_of(s);
    if parts.len() == 0 || parts.last() is Prefix || parts.last() is Root {
        None
    } else {
        Some(parts.drop_last())
    }
}

/// Where the last dot of a name stands; -1 without one.
pub open spec fn last_dot(name: Seq<char>) -> int
    decreases name.len(),
{
    if name.len() == 0 {
        -1
    } else if name.last() == '.' {
        name.len() - 1
    } else {
        last_dot(name.drop_last())
    }
}

/// What follows the last dot of a path's last name, unless that dot starts it.
pub open spec fn extension_of(s: Seq<char>) -> Option<Seq<char>> {
    match file_name_of(s) {
        Some(name) => if last_dot(name) > 0 {
            Some(name.skip(last_dot(name) + 1))
        } else {
            None
        },
        None => None,
    }
}

pub proof fn lemma_name_end(s: Seq<char>, from: int, verbatim: bool)
    ensures
        from < s.len() ==> from <= name_end(s, from, verbatim) <= s.len(),
        from >= s.len() ==> name_end(s, from, verbatim) == s.len(),
        forall|i: int|
            from <= i < name_end(s, from, verbatim) && from >= 0 ==> !is_separator(
                #[trigger] s[i],
                verbatim,
            ),
        0 <= from && name_end(s, from, verbatim) < s.len() ==> is_separator(
            s[name_end(s, from, verbatim)],
            verbatim,
        ),
    decreases s.len() - from,
{
    if from < s.len() && !is_separator(s[from], verbatim) {
        lemma_name_end(s, from + 1, verbatim);
    }
}

// ---------------------------------------------------------------- reading

fn separator(c: char, verbatim: bool) -> (r: bool)
    ensures
        r == is_separator(c, verbatim),
{
    c == '\\' || (!verbatim && c == '/')
}

fn find_name_end(v: &[char], from: usize, verbatim: bool) -> (r: usize)
    requires
        from <= v@.len(),
    ensures
        r == name_end(v@, from as int, verbatim),
        from <= r <= v@.len(),
{
    let mut k: usize = from;
    while k < v.len() && !separator(v[k], verbatim)
        invariant
            from <= k <= v@.len(),
            name_end(v@, from as int, verbatim) == name_end(v@, k as int, verbatim),
        decreases v@.len() - k,
    {
        k = k + 1;
    }
    k
}

fn find_drive(v: &[char], at: usize) -> (r: bool)
    requires
        at <= v@.len(),
    ensures
        r == drive_at(v@, at as int),
{
    if v.len() - at < 2 {
        return false;
    }
    let c = v[at];
    (('a' <= c && c <= 'z') || ('A' <= c && c <= 'Z')) && v[at + 1] == ':'
}

fn text_between(v: &[char], from: usize, to: usize) -> (r: String)
    requires
        from <= to <= v@.len(),
    ensures
        r@ == v@.subrange(from as int, to as int),
{
    let piece = slice_of(v, from, to);
    string_of(&piece)
}

fn drive_text(v: &[char], at: usize) -> (r: String)
    requires
        at < v@.len(),
    ensures
        r@ == drive_name(v@, at as int),
{
    let n: usize = v.len();
    assert(at < n);
    let piece = slice_of(v, at, at + 1);
    let small = lower_chars(&piece);
    string_of(&small)
}

fn read_share(v: &[char], at: usize, verbatim: bool) -> (r: (String, String, usize))
    requires
        at <= v@.len(),
    ensures
        (r.0@, r.1@, r.2 as int) == share_at(v@, at as int, verbatim),
        at <= r.2 <= v@.len(),
{
    let server_end = find_name_end(v, at, verbatim);
    let share: usize = if server_end < v.len() {
        server_end + 1
    } else {
        v.len()
    };
    let share_end = find_name_end(v, share, verbatim);
    let end: usize = if share_end > share {
        share_end
    } else {
        server_end
    };
    (text_between(v, at, server_end), text_between(v, share, share_end), end)
}

fn is_verbatim(v: &[char]) -> (r: bool)
    ensures
        r == starts_verbatim(v@),
{
    v.len() >= 4 && v[0] == '\\' && v[1] == '\\' && v[2] == '?' && v[3] == '\\'
}

fn read_prefix(v: &[char]) -> (r: Option<(PathPart, PrefixKind, usize)>)
    ensures
        r is Some <==> prefix_of(v@) is Some,
        r matches Some((part, kind, end)) ==> {
            &&& prefix_of(v@) == Some((part@, end as int))
            &&& part matches PathPart::Prefix(k, _, _) && k == kind
            &&& end <= v@.len()
        },
{
    let two = v.len() >= 2 && separator(v[0], false) && separator(v[1], false);
    if is_verbatim(v) {
        if v.len() >= 8 && v[4] == 'U' && v[5] == 'N' && v[6] == 'C' && separator(v[7], false) {
            let (server, share, end) = read_share(v, 8, true);
            return Some(
                (
                    PathPart::Prefix(PrefixKind::VerbatimUnc, server, share),
                    PrefixKind::VerbatimUnc,
                    end,
                ),
            );
        }
        if find_drive(v, 4) && (v.len() == 6 || separator(v[6], false)) {
            let part = PathPart::Prefix(
                PrefixKind::VerbatimDisk,
                drive_text(v, 4),
                String::new(),
            );
            assert(part@->Prefix_2 == Seq::<char>::empty());
            return Some((part, PrefixKind::VerbatimDisk, 6));
        }
        let end = find_name_end(v, 4, true);
        let part = PathPart::Prefix(
            PrefixKind::Verbatim,
            text_between(v, 4, end),
            String::new(),
        );
        assert(part@->Prefix_2 == Seq::<char>::empty());
        return Some((part, PrefixKind::Verbatim, end));
    }
    if two && v.len() >= 4 && v[2] == '.' && separator(v[3], false) {
        let end = find_name_end(v, 4, false);
        let part = PathPart::Prefix(PrefixKind::Device, text_between(v, 4, end), String::new());
        assert(part@->Prefix_2 == Seq::<char>::empty());
        return Some((part, PrefixKind::Device, end));
    }
    if two {
        let (server, share, end) = read_share(v, 2, false);
        if server.as_str().is_empty() || share.as_str().is_empty() {
            return None;
        }
        return Some((PathPart::Prefix(PrefixKind::Unc, server, share), PrefixKind::Unc, end));
    }
    if find_drive(v, 0) {
        let part = PathPart::Prefix(PrefixKind::Disk, drive_text(v, 0), String::new());
        assert(part@->Prefix_2 == Seq::<char>::empty());
        return Some((part, PrefixKind::Disk, 2));
    }
    None
}

fn read_body_part(v: &[char], from: usize, to: usize, verbatim: bool) -> (r: Option<PathPart>)
    requires
        from <= to <= v@.len(),
    ensures
        r is Some <==> body_part(v@.subrange(from as int, to as int), verbatim) is Some,
        r matches Some(part) ==> body_part(v@.subrange(from as int, to as int), verbatim) == Some(
            part@,
        ),
{
    let ghost name = v@.subrange(from as int, to as int);
    if from == to {
        return None;
    }
    if to - from == 1 && v[from] == '.' {
        assert(name == seq!['.']);
        return if verbatim {
            Some(PathPart::Current)
        } else {
            None
        };
    }
    proof {
        assert(name.len() == to - from);
        assert(name[0] == v@[from as int]);
        if name == seq!['.'] {
            assert(name[0] == '.');
        }
    }
    if to - from == 2 && v[from] == '.' && v[from + 1] == '.' {
        assert(name == seq!['.', '.']);
        return Some(PathPart::Parent);
    }
    proof {
        if name == seq!['.', '.'] {
            assert(name[0] == '.' && name[1] == '.');
            assert(name[1] == v@[from + 1]);
        }
    }
    Some(PathPart::Name(text_between(v, from, to)))
}

/// The parts of a path.
pub fn path_parts(path: &str) -> (parts: Vec<PathPart>)
    ensures
        part_models(parts@) == parts_of(path@),
{
    let v = chars_of(path);
    let mut parts: Vec<PathPart> = Vec::new();
    let verbatim = is_verbatim(&v);
    let mut end: usize = 0;
    let mut implied = false;
    let mut prefixed = false;
    let ghost mut prefix: Seq<PartModel> = Seq::empty();
    match read_prefix(&v) {
        Some((part, kind, at)) => {
            proof {
                prefix = seq![part@];
            }
            parts.push(part);
            end = at;
            prefixed = true;
            implied = kind == PrefixKind::Device || kind == PrefixKind::Unc;
        },
        None => {},
    }
    assert(part_models(parts@) == prefix);
    let mut from: usize = end;
    if end < v.len() && separator(v[end], false) {
        parts.push(PathPart::Root);
        from = end + 1;
    } else if implied {
        parts.push(PathPart::Root);
    } else if !prefixed && v.len() > 0 && v[0] == '.' && (v.len() == 1 || separator(v[1], false)) {
        parts.push(PathPart::Current);
    }
    assert(part_models(parts@) == prefix + start_parts(path@));
    let ghost head = part_models(parts@);
    let ghost whole = body_parts(path@, body_start(path@), verbatim);
    assert(from == body_start(path@));
    while from < v.len()
        invariant
            v@ == path@,
            from <= v@.len() + 1,
            head + whole == part_models(parts@) + body_parts(path@, from as int, verbatim),
        decreases v@.len() + 1 - from,
    {
        let to = find_name_end(&v, from, verbatim);
        let ghost before = part_models(parts@);
        let ghost rest = body_parts(path@, to + 1, verbatim);
        match read_body_part(&v, from, to, verbatim) {
            Some(part) => {
                let ghost model = part@;
                parts.push(part);
                assert(part_models(parts@) == before.push(model));
                assert(before + (seq![model] + rest) == before.push(model) + rest);
            },
            None => {},
        }
        if to == v.len() {
            proof {
                assert(rest == Seq::<PartModel>::empty());
                assert(body_parts(path@, v@.len() as int, verbatim) == Seq::<PartModel>::empty());
            }
            from = to;
        } else {
            from = to + 1;
        }
    }
    proof {
        assert(body_parts(path@, from as int, verbatim) == Seq::<PartModel>::empty());
        assert(part_models(parts@) + Seq::<PartModel>::empty() == part_models(parts@));
        assert(Seq::<PartModel>::empty() + start_parts(path@) == start_parts(path@));
        assert(prefix + start_parts(path@) + whole == prefix + (start_parts(path@) + whole));
    }
    parts
}

fn same_part(a: &PathPart, b: &PathPart) -> (r: bool)
    ensures
        r == (a@ == b@),
{
    match (a, b) {
        (PathPart::Prefix(k1, a1, b1), PathPart::Prefix(k2, a2, b2)) => *k1 == *k2 && same_text(
            a1.as_str(),
            a2.as_str(),
        ) && same_text(b1.as_str(), b2.as_str()),
        (PathPart::Root, PathPart::Root) => true,
        (PathPart::Current, PathPart::Current) => true,
        (PathPart::Parent, PathPart::Parent) => true,
        (PathPart::Name(x), PathPart::Name(y)) => same_text(x.as_str(), y.as_str()),
        _ => false,
    }
}

/// The last name of a path.
pub fn file_name(path: &str) -> (r: Option<String>)
    ensures
        r is Some <==> file_name_of(path@) is Some,
        r matches Some(name) ==> file_name_of(path@) == Some(name@),
{
    let mut parts = path_parts(path);
    let ghost all = part_models(parts@);
    match parts.pop() {
        Some(last) => {
            assert(all.last() == last@);
            match last {
                PathPart::Name(name) => Some(name),
                _ => None,
            }
        },
        None => None,
    }
}

/// What follows the last dot of a path's last name.
pub fn extension(path: &str) -> (r: Option<String>)
    ensures
        r is Some <==> extension_of(path@) is Some,
        r matches Some(ext) ==> extension_of(path@) == Some(ext@),
{
    match file_name(path) {
        Some(name) => {
            let v = chars_of(name.as_str());
            let n: usize = v.len();
            let mut k: usize = n;
            assert(v@.take(n as int) == v@);
            while k > 0 && v[k - 1] != '.'
                invariant
                    n == v@.len(),
                    k <= n,
                    last_dot(v@) == last_dot(v@.take(k as int)),
                decreases k,
            {
                assert(v@.take(k as int).drop_last() == v@.take(k - 1));
                assert(v@.take(k as int).last() == v@[k - 1]);
                k = k - 1;
            }
            proof {
                if k > 0 {
                    assert(v@.take(k as int).last() == v@[k - 1]);
                }
            }
            if k > 1 {
                assert(v@.subrange(k as int, n as int) == v@.skip(k as int));
                Some(text_between(&v, k, n))
            } else {
                None
            }
        },
        None => None,
    }
}

/// Whether `path` names something directly in the directory `dir`.
pub fn lies_in(dir: &str, path: &str) -> (r: bool)
    ensures
        r == (parent_of(path@) == Some(parts_of(dir@))),
{
    let inner = path_parts(path);
    let outer = path_parts(dir);
    let n: usize = inner.len();
    let ghost all = part_models(inner@);
    if n == 0 {
        return false;
    }
    assert(all.last() == inner@[n - 1]@);
    match &inner[n - 1] {
        PathPart::Prefix(_, _, _) => {
            return false;
        },
        PathPart::Root => {
            return false;
        },
        _ => {},
    }
    let ghost up = all.drop_last();
    let ghost base = part_models(outer@);
    if outer.len() != n - 1 {
        assert(base.len() != up.len());
        return false;
    }
    for i in 0..outer.len()
        invariant
            n == inner@.len(),
            outer@.len() == n - 1,
            all == part_models(inner@),
            up == all.drop_last(),
            base == part_models(outer@),
            all == parts_of(path@),
            base == parts_of(dir@),
            forall|j: int| 0 <= j < i ==> up[j] == base[j],
    {
        assert(up[i as int] == inner@[i as int]@);
        assert(base[i as int] == outer@[i as int]@);
        if !same_part(&inner[i], &outer[i]) {
            return false;
        }
    }
    assert(up == base);
    true
}

// ---------------------------------------------------------------- joining

/// The text of a part behind the prefix.
pub open spec fn part_text(part: PartModel) -> Seq<char> {
    match part {
        PartModel::Root => seq!['\\'],
        PartModel::Current => seq!['.'],
        PartModel::Parent => seq!['.', '.'],
        PartModel::Name(name) => name,
        PartModel::Prefix(_, _, _) => Seq::empty(),
    }
}

/// A path put together again from the text of its prefix and the parts behind
/// it, with one backslash between two of them.
pub open spec fn rebuilt(prefix: Seq<char>, parts: Seq<PartModel>) -> Seq<char>
    decreases parts.len(),
{
    if parts.len() == 0 {
        prefix
    } else {
        let before = rebuilt(prefix, parts.drop_last());
        if parts.last() is Root || (parts.len() >= 2 && parts[parts.len() - 2] is Root) {
            before + part_text(parts.last())
        } else {
            before.push('\\') + part_text(parts.last())
        }
    }
}

/// The path of `name` in the directory `dir`. A verbatim directory is put
/// together anew from its parts; another is taken as it is.
pub open spec fn joined(dir: Seq<char>, name: Seq<char>) -> Seq<char> {
    if starts_verbatim(dir) && name.len() > 0 {
        rebuilt(dir.take(prefix_end(dir)), inner_parts(dir).push(PartModel::Name(name)))
    } else if dir.len() == 0 || is_separator(dir.last(), false) || (dir.len() == 2 && drive_at(
        dir,
        0,
    )) {
        dir + name
    } else {
        dir.push('\\') + name
    }
}

fn push_part(out: &mut String, part: &PathPart)
    ensures
        final(out)@ == old(out)@ + part_text(part@),
{
    match part {
        PathPart::Root => out.push('\\'),
        PathPart::Current => out.push('.'),
        PathPart::Parent => {
            out.push('.');
            out.push('.');
        },
        PathPart::Name(name) => out.push_str(name.as_str()),
        PathPart::Prefix(_, _, _) => {},
    }
    assert(out@ =~= old(out)@ + part_text(part@));
}

/// The path of `name` in a verbatim directory.
fn join_verbatim(dir: &str, name: &str) -> (r: String)
    requires
        starts_verbatim(dir@),
    ensures
        r@ == rebuilt(dir@.take(prefix_end(dir@)), inner_parts(dir@).push(PartModel::Name(name@))),
{
    let v = chars_of(dir);
    let end: usize = match read_prefix(&v) {
        Some((_, _, end)) => end,
        None => 0,
    };
    let parts = path_parts(dir);
    let ghost all = part_models(parts@);
    let ghost inner = inner_parts(dir@);
    let ghost head = dir@.take(prefix_end(dir@));
    proof {
        assert(all.skip(1) =~= inner);
        assert(v@.subrange(0, end as int) =~= head);
        assert(inner.take(0) =~= Seq::<PartModel>::empty());
    }
    let mut out = text_between(&v, 0, end);
    let mut behind_root = false;
    for i in 1..parts.len()
        invariant
            all == part_models(parts@),
            inner == all.skip(1),
            out@ == rebuilt(head, inner.take(i - 1)),
            behind_root == (i >= 2 && inner[i - 2] is Root),
    {
        let part = &parts[i];
        let root = match part {
            PathPart::Root => true,
            _ => false,
        };
        let ghost done = inner.take(i - 1);
        let ghost more = inner.take(i as int);
        proof {
            assert(inner[i - 1] == part@);
            assert(more.drop_last() =~= done);
            assert(more.last() == part@);
            assert(i >= 2 ==> more[more.len() - 2] == inner[i - 2]);
        }
        if !root && !behind_root {
            out.push('\\');
        }
        push_part(&mut out, part);
        behind_root = root;
    }
    proof {
        let whole = inner.push(PartModel::Name(name@));
        assert(inner.take(inner.len() as int) =~= inner);
        assert(whole.drop_last() =~= inner);
        assert(inner.len() >= 1 ==> whole[whole.len() - 2] == inner[inner.len() - 1]);
    }
    if !behind_root {
        out.push('\\');
    }
    out.push_str(name);
    out
}

/// The path of `name` in the directory `dir`; `name` is a plain name.
pub fn join_name(dir: &str, name: &str) -> (r: String)
    ensures
        r@ == joined(dir@, name@),
{
    let v = chars_of(dir);
    let n: usize = v.len();
    if is_verbatim(&v) && !name.is_empty() {
        return join_verbatim(dir, name);
    }
    let mut out = dir.to_owned();
    if !(n == 0 || separator(v[n - 1], false) || (n == 2 && find_drive(&v, 0))) {
        out.push('\\');
    }
    out.push_str(name);
    out
}

} // verus!
