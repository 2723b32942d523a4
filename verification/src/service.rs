//! The clipboard service: what is taken from the clipboard into the history,
//! and what is handed back to it.

use crate::clip::{fingerprint, preview_of, text_fingerprint, Clip, ClipFilter, ClipKind, ClipModel};
use crate::order::survivors;
use crate::path::{file_name, file_name_of};
use crate::picture::{is_managed, is_managed_image_path, PictureFile};
use crate::store::{
    clip_models, contents, has_id, lemma_unnoticed_pattern_finds_nothing, no_room, pattern_too_long,
    pin_toggled, pruned, query_result, recorded, reordered, row_models, row_of, touched, well_formed,
    without_id, ClipRow, ClipStore, RowModel, StoreError, RETENTION_MS,
};
use crate::text::{
    char_views, chars_of, decimal, join, join_strings, lines, lines_of, push_decimal, split,
    split_undoes_join, string_of, strip_cr, trim_text, trimmed, views,
};
use vstd::prelude::*;
use vstd::utf8::encode_utf8;

verus! {

/// Longer texts are not kept.
pub const MAX_TEXT_BYTES: usize = 2_097_152;

/// Longer lists of files are not kept.
pub const MAX_FILE_COUNT: usize = 100;

/// How long changes of the clipboard are ignored after we wrote to it.
pub const SUPPRESS_WINDOW_MS: i64 = 500;

// ---------------------------------------------------------------- our own writes

/// Until when changes of the clipboard are our own. Shared by everything that
/// writes to it.
#[derive(Debug, Clone, Copy, PartialEq, Eq, Structural)]
pub struct SuppressWindow {
    /// Unix milliseconds.
    pub until: i64,
}

impl SuppressWindow {
    pub fn new() -> (r: Self)
        ensures
            r.until == 0,
    {
        SuppressWindow { until: 0 }
    }

    /// Whether a change at `now` counts as our own.
    pub open spec fn hides(self, now: i64) -> bool {
        self.until > now
    }

    /// Whether a change noticed at `now` is our own and must not be read back.
    pub fn covers(&self, now: i64) -> (r: bool)
        ensures
            r == self.hides(now),
    {
        self.until > now
    }

    /// Opens the window. This comes before the write: the change is announced
    /// as soon as the clipboard is closed again.
    pub fn open(&mut self, now: i64)
        requires
            now + SUPPRESS_WINDOW_MS <= i64::MAX,
        ensures
            final(self).until == now + SUPPRESS_WINDOW_MS,
    {
        self.until = now + SUPPRESS_WINDOW_MS;
    }

    /// Closes the window: nothing was written.
    pub fn close(&mut self)
        ensures
            final(self).until == 0,
    {
        self.until = 0;
    }
}

// ---------------------------------------------------------------- reading

/// The formats that are looked for in the clipboard, in this order.
#[derive(Debug, Clone, Copy, PartialEq, Eq, Structural)]
pub enum Probe {
    Text,
    Image,
    Files,
}

impl Probe {
    /// The format looked for next where this one is not there.
    pub open spec fn spec_next(self) -> Option<Probe> {
        match self {
            Probe::Text => Some(Probe::Image),
            Probe::Image => Some(Probe::Files),
            Probe::Files => None,
        }
    }

    /// The format looked for next where this one is not there.
    pub fn next(self) -> (r: Option<Probe>)
        ensures
            r == self.spec_next(),
    {
        match self {
            Probe::Text => Some(Probe::Image),
            Probe::Image => Some(Probe::Files),
            Probe::Files => None,
        }
    }
}

/// Whether a text is kept: it is not blank and not too long.
pub open spec fn text_accepted(text: Seq<char>) -> bool {
    trimmed(text).len() > 0 && encode_utf8(text).len() <= MAX_TEXT_BYTES
}

/// The name shown for a file: its last name, else its whole path.
pub open spec fn shown_name(path: Seq<char>) -> Seq<char> {
    match file_name_of(path) {
        Some(name) => name,
        None => path,
    }
}

/// The content kept for a list of files: one path per line.
pub open spec fn files_content(paths: Seq<Seq<char>>) -> Seq<char> {
    join(paths, "\n"@)
}

/// The summary line of a list of files.
pub open spec fn files_preview(paths: Seq<Seq<char>>) -> Seq<char> {
    if paths.len() == 1 {
        shown_name(paths[0])
    } else {
        shown_name(paths[0]) + " 等 "@ + decimal(paths.len()) + " 个文件"@
    }
}

pub open spec fn files_accepted(count: nat) -> bool {
    0 < count <= MAX_FILE_COUNT
}

/// The history after something was kept at `now` and routine cleaning.
pub open spec fn kept(
    rows: Seq<RowModel>,
    kind: ClipKind,
    content: Seq<char>,
    preview: Seq<char>,
    hash: i64,
    thumb: Option<Seq<u8>>,
    now: i64,
) -> Seq<RowModel> {
    pruned(recorded(rows, kind, content, preview, hash, thumb, now), now)
}

// ---------------------------------------------------------------- writing

/// What to put into the clipboard.
#[derive(Debug, Clone)]
pub enum CopyJob {
    Text(String),
    /// The path of a picture file.
    Image(String),
    /// The paths of files.
    Files(Vec<String>),
}

impl CopyJob {
    /// This hands back what an entry holds.
    pub open spec fn delivers(&self, kind: ClipKind, content: Seq<char>) -> bool {
        match *self {
            CopyJob::Text(s) => kind == ClipKind::Text && s@ == content,
            CopyJob::Image(s) => kind == ClipKind::Image && s@ == content,
            CopyJob::Files(v) => kind == ClipKind::Files && views(v@) == lines(content),
        }
    }
}

/// The clipboard history as the shell uses it.
#[derive(Debug, Clone)]
pub struct ClipboardService {
    store: ClipStore,
    images_dir: String,
}

impl View for ClipboardService {
    type V = Seq<RowModel>;

    closed spec fn view(&self) -> Seq<RowModel> {
        self.store@
    }
}

/// The name shown for a file.
pub fn shown_file_name(path: &str) -> (r: String)
    ensures
        r@ == shown_name(path@),
{
    match file_name(path) {
        Some(name) => name,
        None => path.to_owned(),
    }
}

/// The file names among paths, as far as they have one.
pub open spec fn file_names_of(paths: Seq<Seq<char>>) -> Seq<Seq<char>>
    decreases paths.len(),
{
    if paths.len() == 0 {
        Seq::empty()
    } else {
        let head = file_names_of(paths.drop_last());
        match file_name_of(paths.last()) {
            Some(name) => head.push(name),
            None => head,
        }
    }
}

impl ClipboardService {
    pub closed spec fn wf(&self) -> bool {
        self.store.wf()
    }

    /// The directory of picture files.
    pub closed spec fn dir(&self) -> Seq<char> {
        self.images_dir@
    }

    pub proof fn rows_are_well_formed(&self)
        requires
            self.wf(),
        ensures
            well_formed(self@),
    {
    }

    /// Starts with the rows on disk, cleaned once.
    pub fn start(rows: Vec<ClipRow>, images_dir: String, now: i64) -> (r: Result<Self, StoreError>)
        requires
            now - RETENTION_MS >= i64::MIN,
        ensures
            r is Ok <==> well_formed(row_models(rows@)),
            r matches Ok(service) ==> {
                &&& service.wf()
                &&& service@ == pruned(row_models(rows@), now)
                &&& service.dir() == images_dir@
            },
            r matches Err(e) ==> e == StoreError::Corrupt,
    {
        match ClipStore::open(rows) {
            Ok(mut store) => {
                store.prune(now);
                Ok(ClipboardService { store, images_dir })
            },
            Err(e) => Err(e),
        }
    }

    /// The stored rows, for writing them back to disk.
    pub fn rows(&self) -> (r: &Vec<ClipRow>)
        ensures
            row_models(r@) == self@,
    {
        self.store.rows()
    }

    /// The names of the picture files that belong to entries.
    pub fn image_file_names(&self) -> (r: Vec<String>)
        ensures
            views(r@) == file_names_of(
                contents(survivors(self@, |r: RowModel| r.kind == ClipKind::Image)),
            ),
    {
        let paths = self.store.image_paths();
        let ghost all = views(paths@);
        let mut names: Vec<String> = Vec::new();
        assert(all.take(0) == Seq::<Seq<char>>::empty());
        for i in 0..paths.len()
            invariant
                all == views(paths@),
                views(names@) == file_names_of(all.take(i as int)),
        {
            proof {
                assert(all[i as int] == paths@[i as int]@);
                assert(all.take(i + 1).drop_last() == all.take(i as int));
            }
            match file_name(paths[i].as_str()) {
                Some(name) => {
                    let ghost before = views(names@);
                    let ghost n = name@;
                    names.push(name);
                    assert(views(names@) == before.push(n));
                },
                None => {},
            }
        }
        assert(all.take(all.len() as int) == all);
        names
    }

    /// Takes a text from the clipboard. Says whether the history changed.
    pub fn receive_text(&mut self, text: &str, now: i64) -> (changed: bool)
        requires
            old(self).wf(),
            now - RETENTION_MS >= i64::MIN,
        ensures
            final(self).wf(),
            final(self).dir() == old(self).dir(),
            changed == (text_accepted(text@) && !no_room(
                old(self)@,
                text_fingerprint(text@),
                text@,
            )),
            final(self)@ == if changed {
                kept(
                    old(self)@,
                    ClipKind::Text,
                    text@,
                    preview_of(text@),
                    text_fingerprint(text@),
                    None,
                    now,
                )
            } else {
                old(self)@
            },
    {
        let blank = trim_text(text);
        if blank.as_str().is_empty() || text.as_bytes().len() > MAX_TEXT_BYTES {
            return false;
        }
        match self.store.insert_text(text, now) {
            Ok(()) => {
                self.store.prune(now);
                true
            },
            Err(_) => false,
        }
    }

    /// Takes a picture from the clipboard, once its file is written. Says
    /// whether the history changed.
    pub fn receive_image(&mut self, file: PictureFile, thumb: Vec<u8>, now: i64) -> (changed: bool)
        requires
            old(self).wf(),
            now - RETENTION_MS >= i64::MIN,
        ensures
            final(self).wf(),
            final(self).dir() == old(self).dir(),
            changed == !no_room(old(self)@, file.hash, file.path@),
            final(self)@ == if changed {
                kept(
                    old(self)@,
                    ClipKind::Image,
                    file.path@,
                    file.preview@,
                    file.hash,
                    Some(thumb@),
                    now,
                )
            } else {
                old(self)@
            },
    {
        match self.store.insert_image(file.hash, file.path.as_str(), file.preview, thumb, now) {
            Ok(()) => {
                self.store.prune(now);
                true
            },
            Err(_) => false,
        }
    }

    /// Takes a list of files from the clipboard. Says whether the history
    /// changed.
    pub fn receive_files(&mut self, paths: &Vec<String>, now: i64) -> (changed: bool)
        requires
            old(self).wf(),
            now - RETENTION_MS >= i64::MIN,
        ensures
            final(self).wf(),
            final(self).dir() == old(self).dir(),
            changed == (files_accepted(paths@.len()) && !no_room(
                old(self)@,
                text_fingerprint(files_content(views(paths@))),
                files_content(views(paths@)),
            )),
            final(self)@ == if changed {
                kept(
                    old(self)@,
                    ClipKind::Files,
                    files_content(views(paths@)),
                    files_preview(views(paths@)),
                    text_fingerprint(files_content(views(paths@))),
                    None,
                    now,
                )
            } else {
                old(self)@
            },
    {
        let n: usize = paths.len();
        if n == 0 || n > MAX_FILE_COUNT {
            return false;
        }
        let content = join_strings(paths, "\n");
        assert(views(paths@)[0] == paths@[0]@);
        let mut preview = shown_file_name(paths[0].as_str());
        if n != 1 {
            preview.push_str(" 等 ");
            push_decimal(&mut preview, n as u128);
            preview.push_str(" 个文件");
        }
        assert(preview@ == files_preview(views(paths@)));
        let hash = fingerprint(content.as_str());
        match self.store.insert_files(hash, content.as_str(), preview, now) {
            Ok(()) => {
                self.store.prune(now);
                true
            },
            Err(_) => false,
        }
    }

    /// The entries found by category and keyword; nothing where the search
    /// fails. A blank keyword finds the latest of the category, and pinned
    /// entries come first.
    pub fn query(&self, filter: ClipFilter, keyword: &str, limit: usize) -> (r: Vec<Clip>)
        requires
            self.wf(),
        ensures
            clip_models(r@) == if !pattern_too_long(keyword@) && limit <= i64::MAX {
                query_result(self@, filter, keyword@, limit as nat)
            } else {
                Seq::<ClipModel>::empty()
            },
    {
        match self.store.query(filter, keyword, limit) {
            Ok(clips) => {
                proof {
                    if pattern_too_long(keyword@) {
                        lemma_unnoticed_pattern_finds_nothing(
                            self@,
                            filter,
                            keyword@,
                            limit as nat,
                        );
                    }
                }
                clips
            },
            Err(_) => {
                let none: Vec<Clip> = Vec::new();
                assert(clip_models(none@) == Seq::<ClipModel>::empty());
                none
            },
        }
    }

    /// Begins to hand an entry back to the clipboard: opens the window in
    /// which changes are ignored and says what to write.
    pub fn begin_copy(&self, window: &mut SuppressWindow, id: i64, now: i64) -> (r: Result<
        CopyJob,
        StoreError,
    >)
        requires
            self.wf(),
            now + SUPPRESS_WINDOW_MS <= i64::MAX,
        ensures
            r is Ok <==> has_id(self@, id),
            r matches Ok(job) ==> {
                &&& job.delivers(row_of(self@, id).kind, row_of(self@, id).content)
                &&& final(window).until == now + SUPPRESS_WINDOW_MS
            },
            r matches Err(e) ==> e == StoreError::NotFound && *final(window) == *old(window),
    {
        match self.store.kind_and_content(id) {
            Ok((kind, content)) => {
                window.open(now);
                Ok(
                    match kind {
                        ClipKind::Image => CopyJob::Image(content),
                        ClipKind::Files => CopyJob::Files(file_lines(content.as_str())),
                        ClipKind::Text => CopyJob::Text(content),
                    },
                )
            },
            Err(e) => Err(e),
        }
    }

    /// Ends handing an entry back: once written it moves to the top, and the
    /// list is to be shown anew; where nothing was written the window is
    /// closed at once, so that the user's own copies are not missed.
    pub fn finish_copy(&mut self, window: &mut SuppressWindow, id: i64, written: bool, now: i64)
        requires
            old(self).wf(),
        ensures
            final(self).wf(),
            final(self).dir() == old(self).dir(),
            written ==> final(self)@ == touched(old(self)@, id, now) && *final(window) == *old(
                window,
            ),
            !written ==> final(self)@ == old(self)@ && final(window).until == 0,
    {
        if written {
            self.store.touch(id, now);
        } else {
            window.close();
        }
    }

    /// Pins an entry, or takes its pin away.
    pub fn toggle_pin(&mut self, id: i64)
        requires
            old(self).wf(),
        ensures
            final(self).wf(),
            final(self).dir() == old(self).dir(),
            final(self)@ == pin_toggled(old(self)@, id),
    {
        self.store.toggle_pin(id)
    }

    /// Moves a pinned entry in front of another, or behind all of them.
    pub fn reorder_pinned(&mut self, moved_id: i64, before_id: Option<i64>) -> (r: Result<
        (),
        StoreError,
    >)
        requires
            old(self).wf(),
        ensures
            final(self).wf(),
            final(self).dir() == old(self).dir(),
            r is Ok <==> old(self)@.len() < i64::MAX,
            r is Err ==> r == Err::<(), StoreError>(StoreError::Full) && final(self)@ == old(self)@,
            r is Ok ==> final(self)@ == reordered(old(self)@, moved_id, before_id),
    {
        self.store.reorder_pinned(moved_id, before_id)
    }

    /// Removes an entry.
    pub fn delete(&mut self, id: i64)
        requires
            old(self).wf(),
        ensures
            final(self).wf(),
            final(self).dir() == old(self).dir(),
            final(self)@ == without_id(old(self)@, id),
    {
        self.store.delete(id)
    }

    /// How many entries are not pinned, to say what clearing would remove.
    pub fn unpinned_count(&self) -> (r: usize)
        requires
            self.wf(),
        ensures
            r == survivors(self@, |r: RowModel| !r.pinned).len(),
    {
        self.store.unpinned_count()
    }

    /// Removes every entry that is not pinned. Returns how many there were, and
    /// the picture files that may be removed with them.
    pub fn clear_unpinned(&mut self) -> (r: (usize, Vec<String>))
        requires
            old(self).wf(),
        ensures
            final(self).wf(),
            final(self).dir() == old(self).dir(),
            final(self)@ == survivors(old(self)@, |r: RowModel| r.pinned),
            r.0 == old(self)@.len() - final(self)@.len(),
            views(r.1@) == survivors(
                contents(
                    survivors(
                        old(self)@,
                        |r: RowModel| !r.pinned && r.kind == ClipKind::Image,
                    ),
                ),
                |p: Seq<char>| is_managed(old(self).dir(), p),
            ),
    {
        let cleared = self.store.clear_unpinned();
        let ghost f = |p: Seq<char>| is_managed(self.dir(), p);
        let ghost all = views(cleared.image_paths@);
        let mut files: Vec<String> = Vec::new();
        assert(all.take(0) == Seq::<Seq<char>>::empty());
        for i in 0..cleared.image_paths.len()
            invariant
                f == |p: Seq<char>| is_managed(self.dir(), p),
                all == views(cleared.image_paths@),
                views(files@) == survivors(all.take(i as int), f),
        {
            proof {
                assert(all[i as int] == cleared.image_paths@[i as int]@);
                assert(all.take(i + 1).drop_last() == all.take(i as int));
            }
            if is_managed_image_path(self.images_dir.as_str(), cleared.image_paths[i].as_str()) {
                let ghost before = views(files@);
                files.push(cleared.image_paths[i].clone());
                assert(views(files@) == before.push(all[i as int]));
            }
        }
        assert(all.take(all.len() as int) == all);
        (cleared.count, files)
    }
}

/// The paths in the content of a list of files.
fn file_lines(content: &str) -> (r: Vec<String>)
    ensures
        views(r@) == lines(content@),
{
    let v = chars_of(content);
    let parts = lines_of(&v);
    let ghost all = char_views(parts@);
    let mut out: Vec<String> = Vec::new();
    for i in 0..parts.len()
        invariant
            all == char_views(parts@),
            views(out@) == all.take(i as int),
    {
        let ghost before = views(out@);
        out.push(string_of(&parts[i]));
        proof {
            assert(all[i as int] == parts@[i as int]@);
            assert(views(out@) == before.push(all[i as int]));
            assert(all.take(i + 1) == all.take(i as int).push(all[i as int]));
        }
    }
    assert(all.take(all.len() as int) == all);
    out
}

// ---------------------------------------------------------------- laws

/// A list of files is handed back path by path as it was taken, if every path
/// is one line of text.
pub proof fn copied_files_are_handed_back(paths: Seq<Seq<char>>)
    requires
        paths.len() > 0,
        forall|i: int| 0 <= i < paths.len() ==> !(#[trigger] paths[i]).contains('\n'),
        forall|i: int|
            0 <= i < paths.len() - 1 ==> strip_cr(#[trigger] paths[i]) == paths[i],
        paths.last().len() > 0,
    ensures
        lines(files_content(paths)) == paths,
{
    reveal_strlit("\n");
    assert("\n"@ == seq!['\n']);
    split_undoes_join(paths, '\n');
    let parts = split(files_content(paths), |c: char| c == '\n');
    assert(parts == paths);
    let ended = Seq::new((parts.len() - 1) as nat, |i: int| strip_cr(parts[i]));
    assert(ended == paths.drop_last());
    assert(ended.push(paths.last()) == paths);
}

/// After a delivery begins, changes are ignored until the window's end and
/// noticed from then on.
pub proof fn own_writes_are_not_read_back(window: SuppressWindow, start: i64, later: i64)
    requires
        window.until == start + SUPPRESS_WINDOW_MS,
        start <= later,
    ensures
        window.hides(later) <==> later - start < SUPPRESS_WINDOW_MS,
{
}

/// A closed window ignores nothing.
pub proof fn closed_window_hides_nothing(window: SuppressWindow, now: i64)
    requires
        window.until == 0,
        now >= 0,
    ensures
        !window.hides(now),
{
}

} // verus!
