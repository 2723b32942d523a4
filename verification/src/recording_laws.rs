//! What is taken from the clipboard into the history, and what is handed back.

use crate::clip::{first_meaningful_line, fnv1a, preview_of, text_fingerprint, ClipKind};
use crate::history_laws::{
    already_holds, cleaning_keeps_pins_and_the_young, known_content_is_only_copied_again,
    new_content_becomes_an_entry, outranked_by, outranks,
};
use crate::path::file_name_of;
use crate::service::{
    file_names_of, files_accepted, files_content, files_preview, kept, text_accepted, CopyJob,
    Probe, SuppressWindow, SUPPRESS_WINDOW_MS,
};
use crate::store::{duplicates, has_duplicate, no_room, recorded, well_formed, RowModel};
use crate::text::{decimal, lines, trimmed, views};
use crate::text_laws::{
    all_blank, blank, how_many, lemma_how_many_more, only_blanks_are_trimmed_to_nothing, solid,
    trimming_removes_the_blanks_around,
};
use vstd::prelude::*;
use vstd::utf8::encode_utf8;

verus! {

// ---------------------------------------------------------------- what is kept

/// A text is kept exactly where it holds something that is not blank and is at
/// most 2 MiB long; blanks and line breaks around it do not matter.
pub proof fn texts_with_something_in_them_are_kept(text: Seq<char>)
    ensures
        text_accepted(text) <==> (exists|i: int| 0 <= i < text.len() && !blank(#[trigger] text[i]))
            && encode_utf8(text).len() <= 2 * 1024 * 1024,
{
    only_blanks_are_trimmed_to_nothing(text);
}

/// A list of files is kept exactly where it names one to a hundred of them.
pub proof fn short_lists_of_files_are_kept(count: nat)
    ensures
        files_accepted(count) <==> 1 <= count <= 100,
{
}

/// Fewer than 2000 entries that are not pinned are as new as `now`.
pub open spec fn has_room_at(rows: Seq<RowModel>, now: i64) -> bool {
    how_many(rows.len(), |j: int| !rows[j].pinned && rows[j].created_at >= now) < 2000
}

proof fn lemma_few_newer(rows: Seq<RowModel>, after: Seq<RowModel>, now: i64, k: int)
    requires
        0 <= k < after.len(),
        after[k].created_at == now,
        after.len() == rows.len() || after.len() == rows.len() + 1,
        after.len() == rows.len() + 1 ==> k == rows.len(),
        forall|j: int|
            0 <= j < rows.len() && j != k && after[j] != rows[j] ==> (
            #[trigger] after[j]).created_at == now && j < k,
        forall|j: int|
            0 <= j < rows.len() && j != k && after[j] != rows[j] ==> (#[trigger] rows[j]).pinned
                == after[j].pinned,
        has_room_at(rows, now),
    ensures
        outranked_by(after, k) < 2000,
{
    let f = |j: int| outranks(after, j, k);
    let g = |j: int| !rows[j].pinned && rows[j].created_at >= now;
    assert forall|j: int| 0 <= j < rows.len() && #[trigger] f(j) implies g(j) by {
        if j != k && after[j] != rows[j] {
            assert(after[j].created_at == now && j < k);
        }
    }
    lemma_how_many_more(rows.len(), f, g);
    if after.len() == rows.len() + 1 {
        assert(!f(rows.len() as int));
    }
}

/// What was kept is in the history afterwards, under the time at which it was
/// copied.
pub proof fn kept_content_is_in_the_history(
    rows: Seq<RowModel>,
    kind: ClipKind,
    content: Seq<char>,
    preview: Seq<char>,
    hash: i64,
    thumb: Option<Seq<u8>>,
    now: i64,
)
    requires
        well_formed(rows),
        now - 90 * 86_400_000 >= i64::MIN,
        has_room_at(rows, now),
        !no_room(rows, hash, content),
    ensures
        ({
            let after = kept(rows, kind, content, preview, hash, thumb, now);
            exists|k: int|
                0 <= k < after.len() && (#[trigger] after[k]).content == content && after[k].hash
                    == hash && after[k].created_at == now
        }),
{
    let mid = recorded(rows, kind, content, preview, hash, thumb, now);
    let out = kept(rows, kind, content, preview, hash, thumb, now);
    lemma_recorded_wf(rows, kind, content, preview, hash, thumb, now);
    let k = if has_duplicate(rows, hash, content) {
        lemma_last_holder(rows, hash, content)
    } else {
        assert forall|i: int| 0 <= i < rows.len() implies !already_holds(
            #[trigger] rows[i],
            hash,
            content,
        ) by {
            if already_holds(rows[i], hash, content) {
                assert(duplicates(rows[i], hash, content));
            }
        }
        new_content_becomes_an_entry(rows, kind, content, preview, hash, thumb, now);
        rows.len() as int
    };
    if has_duplicate(rows, hash, content) {
        assert forall|j: int| 0 <= j < rows.len() implies {
            &&& already_holds(rows[j], hash, content) ==> (#[trigger] mid[j]).created_at == now
                && mid[j].pinned == rows[j].pinned && mid[j].content == content && mid[j].hash
                == hash
            &&& !already_holds(rows[j], hash, content) ==> mid[j] == rows[j]
        } by {
            known_content_is_only_copied_again(
                rows,
                kind,
                content,
                preview,
                hash,
                thumb,
                now,
                k,
                j,
            );
        }
        known_content_is_only_copied_again(rows, kind, content, preview, hash, thumb, now, k, k);
    } else {
        assert(mid[k] == mid.last());
        assert forall|j: int| 0 <= j < rows.len() implies #[trigger] mid[j] == rows[j] by {
            assert(mid.drop_last()[j] == mid[j]);
        }
    }
    lemma_few_newer(rows, mid, now, k);
    cleaning_keeps_pins_and_the_young(mid, now, k);
    let i = choose|i: int| 0 <= i < out.len() && out[i] == mid[k];
    assert(out[i].content == content);
}

proof fn lemma_last_holder(rows: Seq<RowModel>, hash: i64, content: Seq<char>) -> (k: int)
    requires
        has_duplicate(rows, hash, content),
    ensures
        0 <= k < rows.len(),
        already_holds(rows[k], hash, content),
        forall|j: int| k < j < rows.len() ==> !already_holds(#[trigger] rows[j], hash, content),
    decreases rows.len(),
{
    let n = rows.len() - 1;
    if already_holds(rows[n], hash, content) {
        n
    } else {
        let init = rows.drop_last();
        let i = choose|i: int|
            0 <= i < rows.len() && duplicates(#[trigger] rows[i], hash, content);
        assert(init[i] == rows[i]);
        assert(has_duplicate(init, hash, content));
        let k = lemma_last_holder(init, hash, content);
        assert forall|j: int| k < j < rows.len() implies !already_holds(
            #[trigger] rows[j],
            hash,
            content,
        ) by {
            if j < n {
                assert(init[j] == rows[j]);
            }
        }
        k
    }
}

proof fn lemma_recorded_wf(
    rows: Seq<RowModel>,
    kind: ClipKind,
    content: Seq<char>,
    preview: Seq<char>,
    hash: i64,
    thumb: Option<Seq<u8>>,
    now: i64,
)
    requires
        well_formed(rows),
        !no_room(rows, hash, content),
    ensures
        well_formed(recorded(rows, kind, content, preview, hash, thumb, now)),
{
    let after = recorded(rows, kind, content, preview, hash, thumb, now);
    assert forall|i: int, j: int| 0 <= i < j < after.len() implies after[i].id < after[j].id by {
        if j < rows.len() {
            assert(rows[i].id < rows[j].id);
        } else if i < rows.len() - 1 {
            assert(rows[i].id < rows[rows.len() - 1].id);
        }
    }
    assert forall|i: int| 0 <= i < after.len() implies {
        &&& (#[trigger] after[i]).rank >= 0
        &&& !after[i].pinned ==> after[i].rank == 0
    } by {
        if i < rows.len() {
            assert(rows[i].rank >= 0);
        }
    }
}

/// Every text with something in it, of at most 2 MiB, is recorded where an id is
/// left: afterwards an entry holds exactly this text, copied now.
pub proof fn copied_texts_are_recorded(rows: Seq<RowModel>, text: Seq<char>, now: i64, i: int)
    requires
        well_formed(rows),
        now - 90 * 86_400_000 >= i64::MIN,
        has_room_at(rows, now),
        0 <= i < text.len(),
        !blank(text[i]),
        encode_utf8(text).len() <= 2 * 1024 * 1024,
        rows.len() > 0 ==> rows.last().id < i64::MAX,
    ensures
        text_accepted(text),
        !no_room(rows, text_fingerprint(text), text),
        ({
            let after = kept(
                rows,
                ClipKind::Text,
                text,
                preview_of(text),
                text_fingerprint(text),
                None,
                now,
            );
            exists|k: int|
                0 <= k < after.len() && (#[trigger] after[k]).content == text && after[k].created_at
                    == now
        }),
{
    texts_with_something_in_them_are_kept(text);
    let hash = text_fingerprint(text);
    kept_content_is_in_the_history(
        rows,
        ClipKind::Text,
        text,
        preview_of(text),
        hash,
        None,
        now,
    );
    let after = kept(rows, ClipKind::Text, text, preview_of(text), hash, None, now);
    let k = choose|k: int| {
        &&& 0 <= k < after.len()
        &&& (#[trigger] after[k]).content == text
        &&& after[k].hash == hash
        &&& after[k].created_at == now
    };
    assert(after[k].content == text);
}

proof fn lemma_rank_grows_by_one(rows: Seq<RowModel>, after: Seq<RowModel>, k: int)
    requires
        0 <= k < rows.len(),
        after.len() == rows.len() + 1,
        after.drop_last() == rows,
    ensures
        outranked_by(after, k) <= outranked_by(rows, k) + 1,
{
    let f = |j: int| outranks(after, j, k);
    let g = |j: int| outranks(rows, j, k);
    assert forall|j: int| 0 <= j < rows.len() && #[trigger] f(j) implies g(j) by {
        assert(after.drop_last()[j] == after[j]);
        assert(after.drop_last()[k] == after[k]);
    }
    lemma_how_many_more(rows.len(), f, g);
}

/// Keeping new content spares what is there: every pin stays, and every entry of
/// the last 90 days that fewer than 1999 others outrank.
pub proof fn keeping_spares_the_others(
    rows: Seq<RowModel>,
    kind: ClipKind,
    content: Seq<char>,
    preview: Seq<char>,
    hash: i64,
    thumb: Option<Seq<u8>>,
    now: i64,
    k: int,
)
    requires
        well_formed(rows),
        now - 90 * 86_400_000 >= i64::MIN,
        rows.len() > 0 ==> rows.last().id < i64::MAX,
        forall|j: int| 0 <= j < rows.len() ==> !already_holds(#[trigger] rows[j], hash, content),
        0 <= k < rows.len(),
        rows[k].pinned || (rows[k].created_at >= now - 90 * 86_400_000 && outranked_by(rows, k)
            < 1999),
    ensures
        kept(rows, kind, content, preview, hash, thumb, now).contains(rows[k]),
{
    let mid = recorded(rows, kind, content, preview, hash, thumb, now);
    new_content_becomes_an_entry(rows, kind, content, preview, hash, thumb, now);
    lemma_recorded_wf(rows, kind, content, preview, hash, thumb, now);
    assert(mid.drop_last()[k] == mid[k]);
    lemma_rank_grows_by_one(rows, mid, k);
    cleaning_keeps_pins_and_the_young(mid, now, k);
}

// ---------------------------------------------------------------- fingerprints

/// Fingerprints are those of FNV-1a with 64 bits: each byte is mixed in with an
/// exclusive or and a multiplication.
pub proof fn fingerprints_are_fnv1a(bytes: Seq<u8>, more: u8)
    ensures
        fnv1a(Seq::<u8>::empty()) == 14_695_981_039_346_656_037u64,
        fnv1a(bytes.push(more)) == ((fnv1a(bytes) ^ (more as u64)) * 1_099_511_628_211)
            % 0x1_0000_0000_0000_0000,
{
    assert(bytes.push(more).drop_last() =~= bytes);
}

/// A text has the fingerprint of its UTF-8 bytes, read as a signed number.
pub proof fn texts_have_the_fingerprint_of_their_bytes(text: Seq<char>)
    ensures
        (text_fingerprint(text) - fnv1a(encode_utf8(text))) % 0x1_0000_0000_0000_0000 == 0,
{
}

// ---------------------------------------------------------------- previews

proof fn lemma_meaningful(ls: Seq<Seq<char>>, k: int)
    requires
        0 <= k < ls.len(),
        !all_blank(ls[k]),
        forall|i: int| 0 <= i < k ==> all_blank(#[trigger] ls[i]),
    ensures
        first_meaningful_line(ls) == trimmed(ls[k]),
    decreases k,
{
    only_blanks_are_trimmed_to_nothing(ls[0]);
    if k > 0 {
        assert(all_blank(ls[0]));
        let rest = ls.drop_first();
        assert forall|i: int| 0 <= i < k - 1 implies all_blank(#[trigger] rest[i]) by {
            assert(rest[i] == ls[i + 1]);
        }
        lemma_meaningful(rest, k - 1);
    }
}

/// The summary of a text is its first line that is not blank, without the blanks
/// around it, at most 120 characters of it, and an ellipsis exactly where the
/// line or the text goes on.
pub proof fn summaries_show_the_first_line(
    content: Seq<char>,
    k: int,
    left: Seq<char>,
    core: Seq<char>,
    right: Seq<char>,
)
    requires
        0 <= k < lines(content).len(),
        lines(content)[k] == left + core + right,
        all_blank(left),
        solid(core),
        all_blank(right),
        forall|i: int| 0 <= i < k ==> all_blank(#[trigger] lines(content)[i]),
    ensures
        core.len() <= 120 && lines(content).len() == 1 ==> preview_of(content) == core,
        core.len() <= 120 && lines(content).len() > 1 ==> preview_of(content) == core.push('…'),
        core.len() > 120 ==> preview_of(content) == core.take(120).push('…'),
{
    let ls = lines(content);
    trimming_removes_the_blanks_around(left, core, right);
    only_blanks_are_trimmed_to_nothing(ls[k]);
    lemma_meaningful(ls, k);
}

// ---------------------------------------------------------------- files

/// A text of blank lines alone has no summary but the sign that it goes on.
pub proof fn blank_texts_have_no_summary(content: Seq<char>)
    requires
        forall|i: int| 0 <= i < lines(content).len() ==> all_blank(#[trigger] lines(content)[i]),
    ensures
        lines(content).len() <= 1 ==> preview_of(content).len() == 0,
        lines(content).len() > 1 ==> preview_of(content) == seq!['…'],
{
    lemma_no_line_is_meaningful(lines(content));
}

proof fn lemma_no_line_is_meaningful(all: Seq<Seq<char>>)
    requires
        forall|i: int| 0 <= i < all.len() ==> all_blank(#[trigger] all[i]),
    ensures
        first_meaningful_line(all).len() == 0,
    decreases all.len(),
{
    if all.len() > 0 {
        assert(all_blank(all[0]));
        only_blanks_are_trimmed_to_nothing(all[0]);
        assert forall|i: int| 0 <= i < all.drop_first().len() implies all_blank(
            #[trigger] all.drop_first()[i],
        ) by {
            assert(all_blank(all[i + 1]));
        }
        lemma_no_line_is_meaningful(all.drop_first());
    }
}

/// Texts, pictures and files are stored under the numbers 0, 1 and 2; any other
/// number reads as a text.
pub proof fn kinds_are_stored_as_numbers(value: i64)
    ensures
        ClipKind::Text.spec_code() == 0,
        ClipKind::Image.spec_code() == 1,
        ClipKind::Files.spec_code() == 2,
        ClipKind::spec_from_i64(value) == ClipKind::Image <==> value == 1,
        ClipKind::spec_from_i64(value) == ClipKind::Files <==> value == 2,
        ClipKind::spec_from_i64(value) == ClipKind::Text <==> value != 1 && value != 2,
{
}

/// A list of files is kept as one path per line, and its summary names the first
/// file and, where there are more, how many there are.
pub proof fn lists_of_files_are_kept_line_by_line(paths: Seq<Seq<char>>, more: Seq<char>)
    ensures
        files_content(seq![more]) == more,
        paths.len() > 0 ==> files_content(paths.push(more)) == files_content(paths).push('\n')
            + more,
        file_name_of(more) is Some ==> files_preview(seq![more]) == file_name_of(more)->0,
        file_name_of(more) is None ==> files_preview(seq![more]) == more,
        paths.len() > 0 && file_name_of(paths[0]) is Some ==> files_preview(paths.push(more))
            == file_name_of(paths[0])->0 + " 等 "@ + decimal(paths.len() + 1) + " 个文件"@,
        paths.len() > 0 && file_name_of(paths[0]) is None ==> files_preview(paths.push(more))
            == paths[0] + " 等 "@ + decimal(paths.len() + 1) + " 个文件"@,
{
    reveal_strlit("\n");
    assert("\n"@ =~= seq!['\n']);
    assert(paths.push(more).drop_last() =~= paths);
    if paths.len() > 0 {
        assert(files_content(paths) + seq!['\n'] =~= files_content(paths).push('\n'));
        assert(paths.push(more)[0] == paths[0]);
    }
}

/// The picture files that belong to entries are those that the paths name.
pub proof fn file_names_are_those_of_the_paths(paths: Seq<Seq<char>>, name: Seq<char>)
    ensures
        file_names_of(paths).contains(name) <==> exists|i: int|
            0 <= i < paths.len() && file_name_of(#[trigger] paths[i]) == Some(name),
    decreases paths.len(),
{
    let all = file_names_of(paths);
    if paths.len() > 0 {
        let init = paths.drop_last();
        let head = file_names_of(init);
        let n = paths.len() - 1;
        file_names_are_those_of_the_paths(init, name);
        if all.contains(name) {
            let k = choose|k: int| 0 <= k < all.len() && all[k] == name;
            if k < head.len() {
                assert(head[k] == name);
                assert(head.contains(name));
                let i = choose|i: int|
                    0 <= i < init.len() && file_name_of(#[trigger] init[i]) == Some(name);
                assert(file_name_of(paths[i]) == Some(name));
            } else {
                assert(file_name_of(paths[n]) == Some(name));
            }
        }
        if exists|i: int| 0 <= i < paths.len() && file_name_of(#[trigger] paths[i]) == Some(name) {
            let i = choose|i: int|
                0 <= i < paths.len() && file_name_of(#[trigger] paths[i]) == Some(name);
            if i < n {
                assert(file_name_of(init[i]) == Some(name));
                assert(head.contains(name));
                let k = choose|k: int| 0 <= k < head.len() && head[k] == name;
                assert(all[k] == name);
            } else {
                assert(all[all.len() - 1] == name);
            }
        }
    }
}

// ---------------------------------------------------------------- handing back

/// An entry is handed back as what it is: a text as the same text, a picture as
/// the path of its file, and a list of files as its lines, one path each.
pub proof fn entries_are_handed_back_as_they_are(
    job: CopyJob,
    kind: ClipKind,
    content: Seq<char>,
)
    requires
        job.delivers(kind, content),
    ensures
        kind is Text ==> (job matches CopyJob::Text(s) && s@ == content),
        kind is Image ==> (job matches CopyJob::Image(s) && s@ == content),
        kind is Files ==> (job matches CopyJob::Files(v) && views(v@) == lines(content)),
{
}

/// A delivery hides the changes of the half second after it began, and of no
/// other time.
pub proof fn deliveries_hide_half_a_second(window: SuppressWindow, now: i64)
    ensures
        window.hides(now) <==> now < window.until,
        SUPPRESS_WINDOW_MS == 500,
{
}

/// Texts are looked for first, then pictures, then files.
pub proof fn texts_are_looked_for_first()
    ensures
        Probe::Text.spec_next() == Some(Probe::Image),
        Probe::Image.spec_next() == Some(Probe::Files),
        Probe::Files.spec_next() is None,
{
}

} // verus!
