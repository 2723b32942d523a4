//! The settings file: one `key=value` per line.

use crate::text::{
    char_views, chars_of, is_whitespace, lemma_split_append, lemma_text_order_total,
    lemma_text_order_transitive, lines, lines_of, same_text, slice_of, split, string_of, strip_cr,
    text_before, text_precedes, trim_chars, trim_end, trim_start, trimmed,
};
use vstd::prelude::*;

verus! {

/// One setting.
#[derive(Debug, Clone)]
pub struct ConfigEntry {
    pub key: String,
    pub value: String,
}

/// The plain contents of a [`ConfigEntry`].
pub struct EntryModel {
    pub key: Seq<char>,
    pub value: Seq<char>,
}

impl View for ConfigEntry {
    type V = EntryModel;

    open spec fn view(&self) -> EntryModel {
        EntryModel { key: self.key@, value: self.value@ }
    }
}

pub open spec fn entry_models(entries: Seq<ConfigEntry>) -> Seq<EntryModel> {
    Seq::new(entries.len(), |i: int| entries[i]@)
}

/// The settings that entries make, the later replacing the earlier.
pub open spec fn settings(entries: Seq<EntryModel>) -> Map<Seq<char>, Seq<char>>
    decreases entries.len(),
{
    if entries.len() == 0 {
        Map::empty()
    } else {
        settings(entries.drop_last()).insert(entries.last().key, entries.last().value)
    }
}

/// The keys rise.
pub open spec fn sorted_by_key(entries: Seq<EntryModel>) -> bool {
    forall|i: int, j: int|
        0 <= i < j < entries.len() ==> text_before(entries[i].key, entries[j].key)
}

/// Where `c` stands first in `s`, or the length of `s`.
pub open spec fn first_at(s: Seq<char>, c: char) -> int
    decreases s.len(),
{
    if s.len() == 0 {
        0
    } else {
        let p = first_at(s.drop_last(), c);
        if p < s.len() - 1 {
            p
        } else if s.last() == c {
            s.len() - 1
        } else {
            s.len() as int
        }
    }
}

/// The setting in a line: what stands before the first equals sign and what
/// stands behind it, without surrounding blanks.
pub open spec fn entry_of_line(line: Seq<char>) -> Option<EntryModel> {
    let p = first_at(line, '=');
    if p < line.len() {
        Some(EntryModel { key: trimmed(line.take(p)), value: trimmed(line.skip(p + 1)) })
    } else {
        None
    }
}

/// The settings in lines; lines without an equals sign are skipped.
pub open spec fn entries_of_lines(all: Seq<Seq<char>>) -> Seq<EntryModel>
    decreases all.len(),
{
    if all.len() == 0 {
        Seq::empty()
    } else {
        let head = entries_of_lines(all.drop_last());
        match entry_of_line(all.last()) {
            Some(e) => head.push(e),
            None => head,
        }
    }
}

/// The settings in a file.
pub open spec fn settings_in(text: Seq<char>) -> Map<Seq<char>, Seq<char>> {
    settings(entries_of_lines(lines(text)))
}

/// The file for entries: a line for each.
pub open spec fn config_text(entries: Seq<EntryModel>) -> Seq<char>
    decreases entries.len(),
{
    if entries.len() == 0 {
        Seq::empty()
    } else {
        config_text(entries.drop_last()) + entry_line(entries.last()) + seq!['\n']
    }
}

pub open spec fn entry_line(e: EntryModel) -> Seq<char> {
    e.key + seq!['='] + e.value
}

/// The settings, sorted by key.
#[derive(Debug)]
pub struct Config {
    entries: Vec<ConfigEntry>,
}

impl View for Config {
    type V = Map<Seq<char>, Seq<char>>;

    closed spec fn view(&self) -> Map<Seq<char>, Seq<char>> {
        settings(entry_models(self.entries@))
    }
}

proof fn lemma_settings(entries: Seq<EntryModel>)
    requires
        sorted_by_key(entries),
    ensures
        forall|k: Seq<char>| #[trigger]
            settings(entries).dom().contains(k) <==> exists|i: int|
                0 <= i < entries.len() && (#[trigger] entries[i]).key == k,
        forall|i: int|
            0 <= i < entries.len() ==> settings(entries)[(#[trigger] entries[i]).key]
                == entries[i].value,
    decreases entries.len(),
{
    if entries.len() > 0 {
        let init = entries.drop_last();
        lemma_settings(init);
        let m = settings(entries);
        let n = entries.len() - 1;
        assert forall|k: Seq<char>| #[trigger] m.dom().contains(k) <==> exists|i: int|
            0 <= i < entries.len() && (#[trigger] entries[i]).key == k by {
            if m.dom().contains(k) {
                if k == entries.last().key {
                    assert(entries[n].key == k);
                } else {
                    assert(settings(init).dom().contains(k));
                    let i = choose|i: int| 0 <= i < init.len() && (#[trigger] init[i]).key == k;
                    assert(entries[i].key == k);
                }
            }
            if exists|i: int| 0 <= i < entries.len() && (#[trigger] entries[i]).key == k {
                let i = choose|i: int| 0 <= i < entries.len() && (#[trigger] entries[i]).key == k;
                if i < n {
                    assert(init[i].key == k);
                    assert(settings(init).dom().contains(k));
                }
            }
        }
        assert forall|i: int| 0 <= i < entries.len() implies m[(#[trigger] entries[i]).key]
            == entries[i].value by {
            if i < n {
                assert(init[i] == entries[i]);
                assert(text_before(entries[i].key, entries[n].key));
                lemma_text_order_total(entries[n].key, entries[n].key);
                assert(entries[i].key != entries[n].key);
            }
        }
    }
}

/// The map of sorted entries after one is put in its place.
proof fn lemma_settings_insert(
    entries: Seq<EntryModel>,
    after: Seq<EntryModel>,
    k: int,
    key: Seq<char>,
    value: Seq<char>,
)
    requires
        sorted_by_key(entries),
        0 <= k <= entries.len(),
        forall|j: int| 0 <= j < k ==> text_before(#[trigger] entries[j].key, key),
        k < entries.len() ==> !text_before(entries[k].key, key),
        after == (if k < entries.len() && entries[k].key == key {
            entries.update(k, EntryModel { key, value })
        } else {
            entries.insert(k, EntryModel { key, value })
        }),
    ensures
        sorted_by_key(after),
        settings(after) == settings(entries).insert(key, value),
{
    let same = k < entries.len() && entries[k].key == key;
    if k < entries.len() {
        lemma_text_order_total(entries[k].key, key);
    }
    assert forall|i: int, j: int| 0 <= i < j < after.len() implies text_before(
        after[i].key,
        after[j].key,
    ) by {
        if same {
            assert(after[i].key == entries[i].key && after[j].key == entries[j].key);
        } else if j < k {
            assert(after[i] == entries[i] && after[j] == entries[j]);
        } else if j == k {
            assert(after[i] == entries[i]);
        } else if i == k {
            assert(after[j] == entries[j - 1]);
            if j - 1 > k {
                lemma_text_order_transitive(key, entries[k].key, entries[j - 1].key);
            }
        } else if i < k {
            assert(after[i] == entries[i] && after[j] == entries[j - 1]);
        } else {
            assert(after[i] == entries[i - 1] && after[j] == entries[j - 1]);
        }
    }
    lemma_settings(entries);
    lemma_settings(after);
    let m = settings(entries).insert(key, value);
    assert(after[k].key == key);
    assert forall|x: Seq<char>| settings(after).dom().contains(x) <==> m.dom().contains(x) by {
        if settings(after).dom().contains(x) {
            let i = choose|i: int| 0 <= i < after.len() && (#[trigger] after[i]).key == x;
            if i != k {
                let j = if same || i < k {
                    i
                } else {
                    i - 1
                };
                assert(entries[j].key == x);
            }
        }
        if m.dom().contains(x) && x != key {
            let i = choose|i: int| 0 <= i < entries.len() && (#[trigger] entries[i]).key == x;
            let j = if same || i < k {
                i
            } else {
                i + 1
            };
            assert(after[j].key == x);
        }
    }
    assert forall|x: Seq<char>| m.dom().contains(x) implies settings(after)[x] == m[x] by {
        if x == key {
            assert(settings(after)[after[k].key] == value);
        } else {
            let i = choose|i: int| 0 <= i < entries.len() && (#[trigger] entries[i]).key == x;
            let j = if same || i < k {
                i
            } else {
                i + 1
            };
            assert(after[j].key == x);
            assert(after[j].value == entries[i].value);
        }
    }
    assert(settings(after) =~= m);
}

impl Config {
    /// The entries as they are stored.
    pub closed spec fn entries(&self) -> Seq<EntryModel> {
        entry_models(self.entries@)
    }

    pub open spec fn wf(&self) -> bool {
        sorted_by_key(self.entries()) && self@ == settings(self.entries())
    }

    /// No settings.
    pub fn new() -> (r: Self)
        ensures
            r.wf(),
            r@ == Map::<Seq<char>, Seq<char>>::empty(),
    {
        let r = Config { entries: Vec::new() };
        assert(r.entries() == Seq::<EntryModel>::empty());
        r
    }

    fn find(&self, key: &str) -> (r: usize)
        requires
            self.wf(),
        ensures
            r <= self.entries().len(),
            forall|j: int| 0 <= j < r ==> text_before(#[trigger] self.entries()[j].key, key@),
            r < self.entries().len() ==> !text_before(self.entries()[r as int].key, key@),
    {
        let mut k: usize = 0;
        while k < self.entries.len() && text_precedes(self.entries[k].key.as_str(), key)
            invariant
                k <= self.entries@.len(),
                self.entries() == entry_models(self.entries@),
                forall|j: int| 0 <= j < k ==> text_before(#[trigger] self.entries()[j].key, key@),
            decreases self.entries@.len() - k,
        {
            assert(self.entries()[k as int] == self.entries@[k as int]@);
            k = k + 1;
        }
        proof {
            if k < self.entries@.len() {
                assert(self.entries()[k as int] == self.entries@[k as int]@);
            }
        }
        k
    }

    fn put(&mut self, key: String, value: String)
        requires
            old(self).wf(),
        ensures
            final(self).wf(),
            final(self)@ == old(self)@.insert(key@, value@),
    {
        let ghost before = self.entries();
        let ghost kv = key@;
        let ghost vv = value@;
        let k = self.find(key.as_str());
        assert(k < before.len() ==> before[k as int] == self.entries@[k as int]@);
        if k < self.entries.len() && same_text(self.entries[k].key.as_str(), key.as_str()) {
            self.entries.set(k, ConfigEntry { key, value });
            assert(self.entries() == before.update(k as int, EntryModel { key: kv, value: vv }));
        } else {
            self.entries.insert(k, ConfigEntry { key, value });
            assert(self.entries() == before.insert(k as int, EntryModel { key: kv, value: vv }));
        }
        proof {
            lemma_settings_insert(before, self.entries(), k as int, kv, vv);
        }
    }

    /// Reads a settings file; lines that are no settings are skipped, and a
    /// later line replaces an earlier one.
    pub fn load(text: &str) -> (r: Self)
        ensures
            r.wf(),
            r@ == settings_in(text@),
    {
        let v = chars_of(text);
        let parts = lines_of(&v);
        let ghost all = char_views(parts@);
        let mut config = Config::new();
        assert(all.take(0) == Seq::<Seq<char>>::empty());
        for i in 0..parts.len()
            invariant
                all == char_views(parts@),
                config.wf(),
                config@ == settings(entries_of_lines(all.take(i as int))),
        {
            let line = &parts[i];
            let n: usize = line.len();
            proof {
                assert(all[i as int] == parts@[i as int]@);
                assert(all.take(i + 1).drop_last() == all.take(i as int));
            }
            let p = find_char(line, '=');
            if p < n {
                let left = slice_of(line, 0, p);
                let right = slice_of(line, p + 1, n);
                assert(left@ == line@.take(p as int));
                assert(right@ == line@.skip(p + 1));
                let key = trim_chars(&left);
                let value = trim_chars(&right);
                proof {
                    let head = entries_of_lines(all.take(i as int));
                    let e = EntryModel { key: key@, value: value@ };
                    assert(entries_of_lines(all.take(i + 1)) == head.push(e));
                    assert(head.push(e).drop_last() == head);
                }
                config.put(string_of(&key), string_of(&value));
            }
        }
        assert(all.take(all.len() as int) == all);
        config
    }

    /// The value of a setting.
    pub fn get(&self, key: &str) -> (r: Option<&str>)
        requires
            self.wf(),
        ensures
            r is Some <==> self@.dom().contains(key@),
            r matches Some(value) ==> value@ == self@[key@],
    {
        proof {
            lemma_settings(self.entries());
        }
        let k = self.find(key);
        let ghost all = self.entries();
        assert(k < all.len() ==> all[k as int] == self.entries@[k as int]@);
        if k < self.entries.len() && same_text(self.entries[k].key.as_str(), key) {
            assert(all[k as int].key == key@);
            Some(self.entries[k].value.as_str())
        } else {
            proof {
                if self@.dom().contains(key@) {
                    let i = choose|i: int| 0 <= i < all.len() && (#[trigger] all[i]).key == key@;
                    lemma_text_order_total(key@, key@);
                    if i > k {
                        lemma_text_order_total(all[k as int].key, key@);
                        lemma_text_order_transitive(key@, all[k as int].key, all[i].key);
                    }
                }
            }
            None
        }
    }

    /// Changes a setting and returns the file to write.
    pub fn set(&mut self, key: &str, value: &str) -> (text: String)
        requires
            old(self).wf(),
        ensures
            final(self).wf(),
            final(self)@ == old(self)@.insert(key@, value@),
            text@ == config_text(final(self).entries()),
    {
        self.put(key.to_owned(), value.to_owned());
        let ghost all = self.entries();
        let mut text = String::new();
        assert(all.take(0) == Seq::<EntryModel>::empty());
        for i in 0..self.entries.len()
            invariant
                self.entries() == all,
                all == entry_models(self.entries@),
                text@ == config_text(all.take(i as int)),
        {
            let ghost before = text@;
            text.push_str(self.entries[i].key.as_str());
            text.push('=');
            text.push_str(self.entries[i].value.as_str());
            text.push('\n');
            proof {
                assert(all[i as int] == self.entries@[i as int]@);
                assert(all.take(i + 1).drop_last() == all.take(i as int));
                assert(text@ == before + entry_line(all[i as int]) + seq!['\n']);
            }
        }
        assert(all.take(all.len() as int) == all);
        text
    }
}

/// The first place of `c` in `v`, or its length.
fn find_char(v: &Vec<char>, c: char) -> (r: usize)
    ensures
        r == first_at(v@, c),
{
    let n: usize = v.len();
    let mut k: usize = 0;
    while k < n && v[k] != c
        invariant
            n == v@.len(),
            k <= n,
            forall|j: int| 0 <= j < k ==> v@[j] != c,
        decreases n - k,
    {
        k = k + 1;
    }
    proof {
        lemma_first_at(v@, c);
    }
    k
}

proof fn lemma_first_at(s: Seq<char>, c: char)
    ensures
        0 <= first_at(s, c) <= s.len(),
        first_at(s, c) < s.len() ==> s[first_at(s, c)] == c,
        forall|j: int| 0 <= j < first_at(s, c) ==> s[j] != c,
    decreases s.len(),
{
    if s.len() > 0 {
        let init = s.drop_last();
        lemma_first_at(init, c);
        assert forall|j: int| 0 <= j < first_at(s, c) implies s[j] != c by {
            if j < init.len() {
                assert(init[j] == s[j]);
            }
        }
    }
}

// ---------------------------------------------------------------- laws

/// A setting that a line can hold: the key has no equals sign, neither part
/// has a line break, and neither starts or ends with a blank.
pub open spec fn fits_a_line(e: EntryModel) -> bool {
    &&& !e.key.contains('=')
    &&& !e.key.contains('\n')
    &&& !e.value.contains('\n')
    &&& trimmed(e.key) == e.key
    &&& trimmed(e.value) == e.value
}

proof fn lemma_line_reads_back(e: EntryModel)
    requires
        fits_a_line(e),
    ensures
        entry_of_line(entry_line(e)) == Some(e),
        strip_cr(entry_line(e)) == entry_line(e),
        !entry_line(e).contains('\n'),
{
    let line = entry_line(e);
    let n = e.key.len() as int;
    lemma_first_at(line, '=');
    let p = first_at(line, '=');
    assert(line[n] == '=');
    if p < n {
        assert(e.key[p] == '=');
        assert(e.key.contains(e.key[p]));
    }
    assert(p == n);
    assert(line.take(n) == e.key);
    assert(line.skip(n + 1) == e.value);
    if line.contains('\n') {
        let i = choose|i: int| 0 <= i < line.len() && line[i] == '\n';
        if i < n {
            assert(e.key[i] == '\n');
            assert(e.key.contains(e.key[i]));
        } else if i > n {
            assert(e.value[i - n - 1] == '\n');
            assert(e.value.contains(e.value[i - n - 1]));
        }
    }
    assert(line.last() != '\r') by {
        if e.value.len() > 0 {
            assert(line.last() == e.value.last());
            lemma_trimmed_end(e.value);
        }
    }
}

proof fn lemma_trimmed_end(s: Seq<char>)
    requires
        trimmed(s) == s,
        s.len() > 0,
    ensures
        s.last() != '\r',
{
    if is_whitespace(s.last()) {
        let a = trim_start(s);
        lemma_trim_start_len(s);
        if a.len() == s.len() {
            assert(a == s);
            lemma_trim_end_len(a.drop_last());
        } else {
            lemma_trim_end_len(a);
        }
    }
}

proof fn lemma_trim_start_len(s: Seq<char>)
    ensures
        trim_start(s).len() <= s.len(),
        trim_start(s).len() == s.len() ==> trim_start(s) == s,
    decreases s.len(),
{
    if s.len() > 0 && is_whitespace(s[0]) {
        lemma_trim_start_len(s.drop_first());
    }
}

proof fn lemma_trim_end_len(s: Seq<char>)
    ensures
        trim_end(s).len() <= s.len(),
    decreases s.len(),
{
    if s.len() > 0 && is_whitespace(s.last()) {
        lemma_trim_end_len(s.drop_last());
    }
}

spec fn entry_lines(entries: Seq<EntryModel>) -> Seq<Seq<char>> {
    Seq::new(entries.len(), |i: int| entry_line(entries[i]))
}

proof fn lemma_split_config(entries: Seq<EntryModel>)
    requires
        forall|i: int| 0 <= i < entries.len() ==> fits_a_line(#[trigger] entries[i]),
    ensures
        split(config_text(entries), |c: char| c == '\n') == entry_lines(entries).push(
            Seq::<char>::empty(),
        ),
    decreases entries.len(),
{
    let sep = |c: char| c == '\n';
    let none = Seq::<char>::empty();
    if entries.len() == 0 {
        assert(config_text(entries) == none);
        assert(split(none, sep) == seq![none]);
        assert(entry_lines(entries).push(none) == seq![none]);
    } else {
        let init = entries.drop_last();
        assert forall|i: int| 0 <= i < init.len() implies fits_a_line(#[trigger] init[i]) by {
            assert(init[i] == entries[i]);
        }
        lemma_split_config(init);
        let head = config_text(init);
        let line = entry_line(entries.last());
        assert(fits_a_line(entries[entries.len() - 1]));
        lemma_line_reads_back(entries.last());
        assert forall|i: int| 0 <= i < line.len() implies !sep(#[trigger] line[i]) by {
            assert(line.contains(line[i]));
        }
        lemma_split_append(head, line, sep);
        let lines = entry_lines(init);
        assert(lines.push(none).drop_last() == lines);
        assert(none + line == line);
        assert(split(head + line, sep) == lines.push(line));
        let whole = config_text(entries);
        assert(whole.drop_last() == head + line);
        assert(whole.last() == '\n');
        assert(entry_lines(entries) == lines.push(line));
    }
}

proof fn lemma_entries_read_back(entries: Seq<EntryModel>)
    requires
        forall|i: int| 0 <= i < entries.len() ==> fits_a_line(#[trigger] entries[i]),
    ensures
        entries_of_lines(entry_lines(entries)) == entries,
    decreases entries.len(),
{
    if entries.len() > 0 {
        let init = entries.drop_last();
        assert forall|i: int| 0 <= i < init.len() implies fits_a_line(#[trigger] init[i]) by {
            assert(init[i] == entries[i]);
        }
        lemma_entries_read_back(init);
        assert(entry_lines(entries).drop_last() == entry_lines(init));
        assert(fits_a_line(entries[entries.len() - 1]));
        lemma_line_reads_back(entries.last());
        assert(init.push(entries.last()) == entries);
    } else {
        assert(entries == Seq::<EntryModel>::empty());
    }
}

/// Settings come back from their file as they were written.
pub proof fn saved_settings_read_back(entries: Seq<EntryModel>)
    requires
        forall|i: int| 0 <= i < entries.len() ==> fits_a_line(#[trigger] entries[i]),
    ensures
        settings_in(config_text(entries)) == settings(entries),
{
    let text = config_text(entries);
    let parts = split(text, |c: char| c == '\n');
    let all = entry_lines(entries);
    lemma_split_config(entries);
    lemma_entries_read_back(entries);
    let ended = Seq::new((parts.len() - 1) as nat, |i: int| strip_cr(parts[i]));
    assert forall|i: int| 0 <= i < all.len() implies ended[i] == all[i] by {
        assert(fits_a_line(entries[i]));
        lemma_line_reads_back(entries[i]);
        assert(parts[i] == all[i]);
    }
    assert(ended == all);
    assert(lines(text) == all);
}

} // verus!
