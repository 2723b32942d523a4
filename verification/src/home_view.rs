//! The home page: the features, and the search among them.

use crate::order::{lemma_all_survive, lemma_survivors, survivors};
use crate::selection::{move_cursor, moved};
use crate::text::{ascii_lower_all, contains_text, has_text, same_text, trim_text, trimmed};
use vstd::prelude::*;

verus! {

/// A page that the home page asks for.
#[derive(Debug, Clone, Copy, PartialEq, Eq, Structural)]
pub enum OpenFeature {
    Clipboard,
    Memo,
    Ip,
}

/// The features shown on the home page.
#[derive(Debug, Clone, Copy, PartialEq, Eq, Structural)]
pub enum Feature {
    Clipboard,
    Memo,
    Ip,
}

pub open spec fn feature_name(f: Feature) -> Seq<char> {
    match f {
        Feature::Clipboard => "剪贴板"@,
        Feature::Memo => "备忘快贴"@,
        Feature::Ip => "IP 工具"@,
    }
}

/// The name in small letters, as it is searched.
pub open spec fn searched_name(f: Feature) -> Seq<char> {
    match f {
        Feature::Clipboard => "剪贴板"@,
        Feature::Memo => "备忘快贴"@,
        Feature::Ip => "ip 工具"@,
    }
}

/// Whether the keyword, in small letters, stands in the name or in another word
/// for the feature.
pub open spec fn feature_matches(f: Feature, keyword: Seq<char>) -> bool {
    ||| keyword.len() == 0
    ||| contains_text(searched_name(f), keyword)
    ||| match f {
        Feature::Clipboard => contains_text("clipboard"@, keyword) || contains_text(
            "clip"@,
            keyword,
        ) || contains_text("jt"@, keyword),
        Feature::Memo => contains_text("memo"@, keyword) || contains_text("note"@, keyword)
            || contains_text("bw"@, keyword),
        Feature::Ip => contains_text("ip"@, keyword) || contains_text("wl"@, keyword),
    }
}

/// The page of a feature; none while it is planned.
pub open spec fn feature_target(f: Feature) -> Option<OpenFeature> {
    match f {
        Feature::Clipboard => Some(OpenFeature::Clipboard),
        Feature::Memo => Some(OpenFeature::Memo),
        Feature::Ip => None,
    }
}

impl Feature {
    pub const ALL: [Feature; 3] = [Feature::Clipboard, Feature::Memo, Feature::Ip];

    pub fn name(self) -> (r: &'static str)
        ensures
            r@ == feature_name(self),
    {
        match self {
            Feature::Clipboard => "剪贴板",
            Feature::Memo => "备忘快贴",
            Feature::Ip => "IP 工具",
        }
    }

    pub fn desc(self) -> (r: &'static str)
        ensures
            r@ == match self {
                Feature::Clipboard => "历史记录 · 文本与截图即时存取"@,
                Feature::Memo => "片段管理 · 常用代码与标签化文本"@,
                Feature::Ip => "网络工具 · 三段 IP 与延迟面板"@,
            },
    {
        match self {
            Feature::Clipboard => "历史记录 · 文本与截图即时存取",
            Feature::Memo => "片段管理 · 常用代码与标签化文本",
            Feature::Ip => "网络工具 · 三段 IP 与延迟面板",
        }
    }

    pub fn shortcut(self) -> (r: &'static str)
        ensures
            r@ == match self {
                Feature::Clipboard => "Ctrl+1"@,
                Feature::Memo => "Ctrl+2"@,
                Feature::Ip => "规划中"@,
            },
    {
        match self {
            Feature::Clipboard => "Ctrl+1",
            Feature::Memo => "Ctrl+2",
            Feature::Ip => "规划中",
        }
    }

    /// The colour of the card.
    pub fn tint(self) -> (r: u32)
        ensures
            r == match self {
                Feature::Clipboard => 0x378addu32,
                Feature::Memo => 0x7f77ddu32,
                Feature::Ip => 0x1d9e75u32,
            },
    {
        match self {
            Feature::Clipboard => 0x378add,
            Feature::Memo => 0x7f77dd,
            Feature::Ip => 0x1d9e75,
        }
    }

    /// The page of the feature; none while it is planned.
    pub fn target(self) -> (r: Option<OpenFeature>)
        ensures
            r == feature_target(self),
    {
        match self {
            Feature::Clipboard => Some(OpenFeature::Clipboard),
            Feature::Memo => Some(OpenFeature::Memo),
            Feature::Ip => None,
        }
    }

    fn searched_name(self) -> (r: &'static str)
        ensures
            r@ == searched_name(self),
    {
        match self {
            Feature::Clipboard => "剪贴板",
            Feature::Memo => "备忘快贴",
            Feature::Ip => "ip 工具",
        }
    }

    /// Whether the keyword, in small letters, stands in the name or in another
    /// word for the feature.
    pub fn matches(self, keyword: &str) -> (r: bool)
        ensures
            r == feature_matches(self, keyword@),
    {
        if keyword.is_empty() || has_text(self.searched_name(), keyword) {
            return true;
        }
        match self {
            Feature::Clipboard => has_text("clipboard", keyword) || has_text("clip", keyword)
                || has_text("jt", keyword),
            Feature::Memo => has_text("memo", keyword) || has_text("note", keyword) || has_text(
                "bw",
                keyword,
            ),
            Feature::Ip => has_text("ip", keyword) || has_text("wl", keyword),
        }
    }
}

/// A text in small letters.
pub uninterp spec fn lowercased(s: Seq<char>) -> Seq<char>;

/// Calls `str::to_lowercase` of the standard library. The contract claims that
/// the result depends on the text alone, and that the empty text stays empty;
/// it does not say what becomes of other texts.
#[verifier::external_body]
fn to_small(s: &str) -> (r: String)
    ensures
        r@ == lowercased(s@),
        s@.len() == 0 ==> r@.len() == 0,
{
    s.to_lowercase()
}

/// The features found by a keyword in small letters, in their order.
pub open spec fn features_for(keyword: Seq<char>) -> Seq<Feature> {
    survivors(Feature::ALL@, |f: Feature| feature_matches(f, keyword))
}

/// The features found by a keyword in small letters, in their order.
pub fn features_found(keyword: &str) -> (r: Vec<Feature>)
    ensures
        r@ == features_for(keyword@),
        r@.len() <= 3,
{
    let ghost f = |x: Feature| feature_matches(x, keyword@);
    let ghost all = Feature::ALL@;
    let mut out: Vec<Feature> = Vec::new();
    assert(all.take(0) == Seq::<Feature>::empty());
    for i in 0..3usize
        invariant
            f == |x: Feature| feature_matches(x, keyword@),
            all == Feature::ALL@,
            all.len() == 3,
            out@.len() <= i,
            out@ == survivors(all.take(i as int), f),
    {
        let feature = Feature::ALL[i];
        assert(all.take(i + 1).drop_last() == all.take(i as int));
        if feature.matches(keyword) {
            out.push(feature);
        }
    }
    assert(all.take(3) == all);
    out
}

/// The feature that the cursor is on, the first where it is past the end.
pub open spec fn chosen(found: Seq<Feature>, selected: int) -> Option<Feature> {
    if found.len() == 0 {
        None
    } else if selected < found.len() {
        Some(found[selected])
    } else {
        Some(found[0])
    }
}

/// The page to open for the feature that the cursor is on.
pub open spec fn chosen_target(found: Seq<Feature>, selected: int) -> Option<OpenFeature> {
    match chosen(found, selected) {
        Some(f) => feature_target(f),
        None => None,
    }
}

/// The page to open among the features found.
pub fn open_among(found: &Vec<Feature>, selected: usize) -> (r: Option<OpenFeature>)
    ensures
        r == chosen_target(found@, selected as int),
{
    if found.len() == 0 {
        None
    } else if selected < found.len() {
        found[selected].target()
    } else {
        found[0].target()
    }
}

/// What a key asks for on the home page.
#[derive(Debug, Clone, Copy, PartialEq, Eq, Structural)]
pub enum HomeKey {
    Nothing,
    Up,
    Down,
}

/// What a key asks for: the arrows move the cursor.
pub open spec fn home_key(key: Seq<char>) -> HomeKey {
    if key == "up"@ {
        HomeKey::Up
    } else if key == "down"@ {
        HomeKey::Down
    } else {
        HomeKey::Nothing
    }
}

/// What a key asks for.
pub fn key_action(key: &str) -> (r: HomeKey)
    ensures
        r == home_key(key@),
{
    if same_text(key, "up") {
        HomeKey::Up
    } else if same_text(key, "down") {
        HomeKey::Down
    } else {
        HomeKey::Nothing
    }
}

/// The home page.
#[derive(Debug)]
pub struct HomeView {
    pub keyword: String,
    pub selected: usize,
}

impl HomeView {
    pub fn new() -> (r: Self)
        ensures
            r.keyword@.len() == 0,
            r.selected == 0,
    {
        HomeView { keyword: String::new(), selected: 0 }
    }

    /// The user typed: the search starts over.
    pub fn set_keyword(&mut self, keyword: String)
        ensures
            final(self).keyword@ == keyword@,
            final(self).selected == 0,
    {
        self.keyword = keyword;
        self.selected = 0;
    }

    /// Back at home the cursor starts over; the keyword stays.
    pub fn reload(&mut self)
        ensures
            final(self).keyword@ == old(self).keyword@,
            final(self).selected == 0,
    {
        self.selected = 0;
    }

    /// What is searched for: the keyword without surrounding blanks, in small
    /// letters.
    pub open spec fn sought(&self) -> Seq<char> {
        lowercased(trimmed(self.keyword@))
    }

    /// The features shown: those whose name or other word holds the keyword,
    /// all of them for a blank one.
    pub fn filtered(&self) -> (r: Vec<Feature>)
        ensures
            r@ == features_for(self.sought()),
            trimmed(self.keyword@).len() == 0 ==> r@ == Feature::ALL@,
    {
        let t = trim_text(self.keyword.as_str());
        let small = to_small(t.as_str());
        proof {
            if trimmed(self.keyword@).len() == 0 {
                let f = |x: Feature| feature_matches(x, small@);
                lemma_all_survive(Feature::ALL@, f);
            }
        }
        features_found(small.as_str())
    }

    /// The page to open for the feature that the cursor is on.
    pub fn open_selected(&self) -> (r: Option<OpenFeature>)
        ensures
            r == chosen_target(features_for(self.sought()), self.selected as int),
    {
        let found = self.filtered();
        open_among(&found, self.selected)
    }

    /// Moves the cursor among the features shown.
    pub fn move_selection(&mut self, delta: i64)
        ensures
            final(self).keyword@ == old(self).keyword@,
            final(self).selected == moved(
                old(self).selected as int,
                delta as int,
                features_for(old(self).sought()).len() as int,
            ),
    {
        let found = self.filtered();
        self.selected = move_cursor(self.selected, delta, found.len());
    }
}

/// The name that is searched is the name that is shown, in small letters.
pub proof fn searched_names_are_the_names_shown(f: Feature)
    ensures
        searched_name(f) == ascii_lower_all(feature_name(f)),
{
    reveal_strlit("剪贴板");
    reveal_strlit("备忘快贴");
    reveal_strlit("IP 工具");
    reveal_strlit("ip 工具");
    assert(searched_name(f) =~= ascii_lower_all(feature_name(f)));
}

/// A feature is found by every part of its name.
pub proof fn features_are_found_by_name(f: Feature, part: Seq<char>)
    requires
        contains_text(searched_name(f), part),
    ensures
        features_for(part).contains(f),
{
    let hit = |x: Feature| feature_matches(x, part);
    let all = Feature::ALL@;
    lemma_survivors(all, hit);
    let k: int = match f {
        Feature::Clipboard => 0,
        Feature::Memo => 1,
        Feature::Ip => 2,
    };
    assert(all[k] == f);
    assert(hit(all[k]));
}

/// A planned feature can never be opened.
pub proof fn planned_features_do_not_open(found: Seq<Feature>, selected: int)
    requires
        selected >= 0,
    ensures
        chosen_target(found, selected) != Some(OpenFeature::Ip),
{
}

} // verus!
