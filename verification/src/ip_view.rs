//! The page for addresses: what is being looked up, and what is shown.

use crate::ip::{
    IpKind, IpLocation, IpLocationLookup, IpLookup, NetworkSite, PlaceModel,
    SiteLatencyLookup,
};
use crate::ip_addr::IpAddr;
use crate::text::{
    ascii_lower_all, chars_of, contains_text, decimal, has_chars, has_text, join, join_strings,
    list_contains, lower_chars, number_text, opt_view, views,
};
use vstd::prelude::*;

verus! {

/// The state of one address.
#[derive(Debug, Clone)]
pub enum LookupState {
    Idle,
    Loading,
    Ready { address: IpAddr, location: LocationState },
    Failed(String),
}

/// The state of the place of an address.
#[derive(Debug, Clone)]
pub enum LocationState {
    NotApplicable,
    Loading,
    Ready(IpLocation),
    Failed(String),
}

/// The state of the timing of one site.
#[derive(Debug, Clone)]
pub enum LatencyState {
    Idle,
    Loading,
    Ready(u128),
    Failed(String),
}

/// A result of background work.
#[derive(Debug, Clone)]
pub enum WorkerPayload {
    Address { kind: IpKind, address: IpLookup },
    Location { kind: IpKind, location: IpLocationLookup },
    Latency { site: NetworkSite, latency: SiteLatencyLookup },
}

/// A result together with the round of lookups that it belongs to.
#[derive(Debug, Clone)]
pub struct WorkerMessage {
    pub generation: u64,
    pub payload: WorkerPayload,
}

/// The page for addresses.
#[derive(Debug)]
pub struct IpView {
    pub local: LookupState,
    pub direct: LookupState,
    pub proxy: LookupState,
    pub latencies: Vec<LatencyState>,
    pub generation: u64,
    pub loaded_once: bool,
    pub copied: Option<IpKind>,
}

pub open spec fn spec_kind_index(kind: IpKind) -> usize {
    match kind {
        IpKind::Local => 0,
        IpKind::Direct => 1,
        IpKind::Proxy => 2,
    }
}

pub fn kind_index(kind: IpKind) -> (r: usize)
    ensures
        r == spec_kind_index(kind),
{
    match kind {
        IpKind::Local => 0,
        IpKind::Direct => 1,
        IpKind::Proxy => 2,
    }
}

pub open spec fn spec_site_index(site: NetworkSite) -> int {
    match site {
        NetworkSite::Baidu => 0,
        NetworkSite::NetEase => 1,
        NetworkSite::Aliyun => 2,
        NetworkSite::TencentCloud => 3,
        NetworkSite::GitHub => 4,
        NetworkSite::Google => 5,
        NetworkSite::YouTube => 6,
        NetworkSite::Amazon => 7,
    }
}

pub fn site_index(site: NetworkSite) -> (r: usize)
    ensures
        r == spec_site_index(site),
{
    match site {
        NetworkSite::Baidu => 0,
        NetworkSite::NetEase => 1,
        NetworkSite::Aliyun => 2,
        NetworkSite::TencentCloud => 3,
        NetworkSite::GitHub => 4,
        NetworkSite::Google => 5,
        NetworkSite::YouTube => 6,
        NetworkSite::Amazon => 7,
    }
}

/// Whether an address or its place is still being looked up.
pub open spec fn lookup_pending(state: LookupState) -> bool {
    match state {
        LookupState::Loading => true,
        LookupState::Ready { address, location } => location is Loading,
        _ => false,
    }
}

/// The state after an address was found, or not. Our own address has no place.
pub open spec fn address_state(kind: IpKind, result: IpLookup) -> LookupState {
    match result {
        IpLookup::Available(address) => LookupState::Ready {
            address,
            location: if kind == IpKind::Local {
                LocationState::NotApplicable
            } else {
                LocationState::Loading
            },
        },
        IpLookup::Unavailable(error) => LookupState::Failed(error),
    }
}

pub open spec fn place_state(result: IpLocationLookup) -> LocationState {
    match result {
        IpLocationLookup::Available(location) => LocationState::Ready(location),
        IpLocationLookup::Unavailable(error) => LocationState::Failed(error),
    }
}

/// The state after a place was found, or not; it only concerns an address that
/// was found.
pub open spec fn located_state(state: LookupState, result: IpLocationLookup) -> LookupState {
    match state {
        LookupState::Ready { address, location } => LookupState::Ready {
            address,
            location: place_state(result),
        },
        _ => state,
    }
}

pub open spec fn latency_state(result: SiteLatencyLookup) -> LatencyState {
    match result {
        SiteLatencyLookup::Reachable(ms) => LatencyState::Ready(ms),
        SiteLatencyLookup::Unreachable(error) => LatencyState::Failed(error),
    }
}

/// The address whose place is asked for next: one that was found and is not our
/// own.
pub open spec fn place_sought(kind: IpKind, result: IpLookup) -> Option<IpAddr> {
    match result {
        IpLookup::Available(address) => if kind == IpKind::Local {
            None
        } else {
            Some(address)
        },
        IpLookup::Unavailable(_) => None,
    }
}

/// The address whose place is asked for next.
pub fn place_to_ask(kind: IpKind, result: &IpLookup) -> (r: Option<IpAddr>)
    ensures
        r == place_sought(kind, *result),
{
    match result {
        IpLookup::Available(address) => if kind == IpKind::Local {
            None
        } else {
            Some(*address)
        },
        IpLookup::Unavailable(_) => None,
    }
}

fn take_address(kind: IpKind, result: IpLookup) -> (r: LookupState)
    ensures
        r == address_state(kind, result),
{
    match result {
        IpLookup::Available(address) => {
            let location = if kind == IpKind::Local {
                LocationState::NotApplicable
            } else {
                LocationState::Loading
            };
            LookupState::Ready { address, location }
        },
        IpLookup::Unavailable(error) => LookupState::Failed(error),
    }
}

fn take_location(state: &mut LookupState, result: IpLocationLookup)
    ensures
        *final(state) == located_state(*old(state), result),
{
    let next = match result {
        IpLocationLookup::Available(location) => LocationState::Ready(location),
        IpLocationLookup::Unavailable(error) => LocationState::Failed(error),
    };
    match state {
        LookupState::Ready { address, location } => {
            *location = next;
        },
        _ => {},
    }
}

fn is_pending(state: &LookupState) -> (r: bool)
    ensures
        r == lookup_pending(*state),
{
    match state {
        LookupState::Loading => true,
        LookupState::Ready { address: _, location } => match location {
            LocationState::Loading => true,
            _ => false,
        },
        _ => false,
    }
}

impl IpView {
    /// There is a state for every site.
    pub open spec fn wf(&self) -> bool {
        self.latencies@.len() == 8
    }

    /// Whether anything is still being looked up.
    pub open spec fn pending(&self) -> bool {
        ||| lookup_pending(self.local)
        ||| lookup_pending(self.direct)
        ||| lookup_pending(self.proxy)
        ||| exists|i: int| 0 <= i < self.latencies@.len() && (#[trigger] self.latencies@[i]) is Loading
    }

    /// The state of an address.
    pub open spec fn spec_state(&self, kind: IpKind) -> LookupState {
        match kind {
            IpKind::Local => self.local,
            IpKind::Direct => self.direct,
            IpKind::Proxy => self.proxy,
        }
    }

    /// Nothing was looked up yet.
    pub fn new() -> (r: Self)
        ensures
            r.wf(),
            r.local is Idle,
            r.direct is Idle,
            r.proxy is Idle,
            forall|i: int| 0 <= i < 8 ==> (#[trigger] r.latencies@[i]) is Idle,
            r.generation == 0,
            !r.loaded_once,
            r.copied is None,
    {
        let mut latencies: Vec<LatencyState> = Vec::new();
        for i in 0..8usize
            invariant
                latencies@.len() == i,
                forall|j: int| 0 <= j < i ==> (#[trigger] latencies@[j]) is Idle,
        {
            latencies.push(LatencyState::Idle);
        }
        IpView {
            local: LookupState::Idle,
            direct: LookupState::Idle,
            proxy: LookupState::Idle,
            latencies,
            generation: 0,
            loaded_once: false,
            copied: None,
        }
    }

    pub fn state(&self, kind: IpKind) -> (r: &LookupState)
        ensures
            *r == self.spec_state(kind),
    {
        match kind {
            IpKind::Local => &self.local,
            IpKind::Direct => &self.direct,
            IpKind::Proxy => &self.proxy,
        }
    }

    /// Whether anything is still being looked up.
    pub fn is_loading(&self) -> (r: bool)
        ensures
            r == self.pending(),
    {
        if is_pending(&self.local) || is_pending(&self.direct) || is_pending(&self.proxy) {
            return true;
        }
        for i in 0..self.latencies.len()
            invariant
                forall|j: int| 0 <= j < i ==> !((#[trigger] self.latencies@[j]) is Loading),
        {
            match &self.latencies[i] {
                LatencyState::Loading => {
                    assert(self.latencies@[i as int] is Loading);
                    return true;
                },
                _ => {},
            }
        }
        false
    }

    /// A round of lookups has begun.
    pub open spec fn round_begun(&self, before: IpView) -> bool {
        &&& self.wf()
        &&& self.generation == (before.generation + 1) % 0x1_0000_0000_0000_0000
        &&& self.loaded_once
        &&& self.local is Loading
        &&& self.direct is Loading
        &&& self.proxy is Loading
        &&& forall|i: int| 0 <= i < 8 ==> (#[trigger] self.latencies@[i]) is Loading
        &&& self.copied is None
    }

    /// Begins a new round of lookups, unless one is still running. Returns the
    /// round's number, with which its results are to be marked.
    pub fn refresh(&mut self) -> (r: Option<u64>)
        requires
            old(self).wf(),
        ensures
            final(self).wf(),
            r is None <==> old(self).pending(),
            r is None ==> *final(self) == *old(self),
            r matches Some(g) ==> g == final(self).generation && final(self).round_begun(
                *old(self),
            ),
    {
        if self.is_loading() {
            return None;
        }
        self.generation = self.generation.wrapping_add(1);
        self.loaded_once = true;
        self.local = LookupState::Loading;
        self.direct = LookupState::Loading;
        self.proxy = LookupState::Loading;
        let mut latencies: Vec<LatencyState> = Vec::new();
        for i in 0..8usize
            invariant
                latencies@.len() == i,
                forall|j: int| 0 <= j < i ==> (#[trigger] latencies@[j]) is Loading,
        {
            latencies.push(LatencyState::Loading);
        }
        self.latencies = latencies;
        self.copied = None;
        Some(self.generation)
    }

    /// Begins a round when the page is opened for the first time; later the
    /// results stay until the user asks for new ones.
    pub fn reload(&mut self) -> (r: Option<u64>)
        requires
            old(self).wf(),
        ensures
            final(self).wf(),
            r is None <==> old(self).loaded_once || old(self).pending(),
            r is None ==> *final(self) == *old(self),
            r matches Some(g) ==> g == final(self).generation && final(self).round_begun(
                *old(self),
            ),
    {
        if self.loaded_once {
            None
        } else {
            self.refresh()
        }
    }

    /// Takes a result of background work. Results of an earlier round are
    /// dropped.
    pub fn apply(&mut self, message: WorkerMessage) -> (shown: bool)
        requires
            old(self).wf(),
        ensures
            final(self).wf(),
            shown == (old(self).generation == message.generation),
            !shown ==> *final(self) == *old(self),
            shown ==> {
                &&& final(self).generation == old(self).generation
                &&& final(self).loaded_once == old(self).loaded_once
                &&& final(self).copied == old(self).copied
                &&& forall|k: IpKind| #[trigger]
                    final(self).spec_state(k) == match message.payload {
                        WorkerPayload::Address { kind, address } => if k == kind {
                            address_state(kind, address)
                        } else {
                            old(self).spec_state(k)
                        },
                        WorkerPayload::Location { kind, location } => if k == kind {
                            located_state(old(self).spec_state(k), location)
                        } else {
                            old(self).spec_state(k)
                        },
                        WorkerPayload::Latency { site, latency } => old(self).spec_state(k),
                    }
                &&& final(self).latencies@ == match message.payload {
                    WorkerPayload::Latency { site, latency } => old(self).latencies@.update(
                        spec_site_index(site),
                        latency_state(latency),
                    ),
                    _ => old(self).latencies@,
                }
            },
    {
        if self.generation != message.generation {
            return false;
        }
        match message.payload {
            WorkerPayload::Address { kind, address } => {
                let next = take_address(kind, address);
                match kind {
                    IpKind::Local => {
                        self.local = next;
                    },
                    IpKind::Direct => {
                        self.direct = next;
                    },
                    IpKind::Proxy => {
                        self.proxy = next;
                    },
                }
            },
            WorkerPayload::Location { kind, location } => {
                match kind {
                    IpKind::Local => {
                        take_location(&mut self.local, location);
                    },
                    IpKind::Direct => {
                        take_location(&mut self.direct, location);
                    },
                    IpKind::Proxy => {
                        take_location(&mut self.proxy, location);
                    },
                }
            },
            WorkerPayload::Latency { site, latency } => {
                let next = match latency {
                    SiteLatencyLookup::Reachable(ms) => LatencyState::Ready(ms),
                    SiteLatencyLookup::Unreachable(error) => LatencyState::Failed(error),
                };
                let i = site_index(site);
                self.latencies.set(i, next);
            },
        }
        true
    }

    /// An address was copied.
    pub fn copy(&mut self, kind: IpKind)
        ensures
            *final(self) == (IpView { copied: Some(kind), ..*old(self) }),
    {
        self.copied = Some(kind);
    }
}

// ---------------------------------------------------------------- texts

/// What is shown below the title of an address.
pub open spec fn kind_detail(view: IpView, kind: IpKind) -> Seq<char> {
    match kind {
        IpKind::Local => "当前活动网络"@,
        IpKind::Direct => "直连网络出口"@,
        IpKind::Proxy => match (view.direct, view.proxy) {
            (
                LookupState::Ready { address: direct, location: _ },
                LookupState::Ready { address: proxy, location: _ },
            ) => if direct@ != proxy@ {
                "系统代理已生效"@
            } else {
                "与直连出口一致"@
            },
            _ => "系统代理出口"@,
        },
    }
}

pub open spec fn kind_title(kind: IpKind) -> Seq<char> {
    match kind {
        IpKind::Local => "内网 IP"@,
        IpKind::Direct => "公网 IP"@,
        IpKind::Proxy => "代理出口 IP"@,
    }
}

impl IpView {
    /// The title of an address and what is shown below it. For the address
    /// through the proxy that is whether it differs from the direct one.
    pub fn metadata(&self, kind: IpKind) -> (r: (&'static str, &'static str))
        ensures
            r.0@ == kind_title(kind),
            r.1@ == kind_detail(*self, kind),
    {
        match kind {
            IpKind::Local => ("内网 IP", "当前活动网络"),
            IpKind::Direct => ("公网 IP", "直连网络出口"),
            IpKind::Proxy => {
                let detail = match (&self.direct, &self.proxy) {
                    (
                        LookupState::Ready { address: direct, location: _ },
                        LookupState::Ready { address: proxy, location: _ },
                    ) => if direct.same(proxy) {
                        "与直连出口一致"
                    } else {
                        "系统代理已生效"
                    },
                    _ => "系统代理出口",
                };
                ("代理出口 IP", detail)
            },
        }
    }
}

/// The parts of a place that are there, each once.
pub open spec fn place_parts(p: PlaceModel) -> Seq<Seq<char>> {
    add_part(
        add_part(add_part(add_part(Seq::empty(), p.country), p.region), p.city),
        p.network,
    )
}

pub open spec fn add_part(parts: Seq<Seq<char>>, value: Option<Seq<char>>) -> Seq<Seq<char>> {
    match value {
        Some(s) => if parts.contains(s) {
            parts
        } else {
            parts.push(s)
        },
        None => parts,
    }
}

fn push_part(parts: &mut Vec<String>, value: &Option<String>)
    ensures
        views(final(parts)@) == add_part(views(old(parts)@), opt_view(*value)),
{
    match value {
        Some(s) => {
            if !list_contains(parts, s.as_str()) {
                let ghost before = views(parts@);
                parts.push(s.clone());
                assert(views(parts@) == before.push(s@));
            }
        },
        None => {},
    }
}

/// A place in one line: what is known of it, each part once.
pub fn format_location(location: &IpLocation) -> (r: String)
    ensures
        r@ == join(place_parts(location@), " · "@),
{
    let mut parts: Vec<String> = Vec::new();
    assert(views(parts@) == Seq::<Seq<char>>::empty());
    push_part(&mut parts, &location.country);
    push_part(&mut parts, &location.region);
    push_part(&mut parts, &location.city);
    push_part(&mut parts, &location.network);
    join_strings(&parts, " · ")
}

pub open spec fn latency_text(ms: u128) -> Seq<char> {
    if ms == 0 {
        "<1 ms"@
    } else {
        ""@ + decimal(ms as nat) + " ms"@
    }
}

/// A duration in whole milliseconds.
pub fn format_latency(ms: u128) -> (r: String)
    ensures
        r@ == latency_text(ms),
{
    if ms == 0 {
        "<1 ms".to_owned()
    } else {
        number_text("", ms, " ms")
    }
}

/// Whether an error says that an answer took too long.
pub open spec fn is_timeout(error: Seq<char>) -> bool {
    ||| contains_text(ascii_lower_all(error), "0x80072ee2"@)
    ||| contains_text(ascii_lower_all(error), "0x00002ee2"@)
    ||| contains_text(ascii_lower_all(error), "timed out"@)
    ||| contains_text(error, "超时"@)
}

pub open spec fn concise_error(error: Seq<char>) -> Seq<char> {
    if is_timeout(error) {
        "超时"@
    } else {
        "连接失败"@
    }
}

/// A network error in a word.
pub fn concise_network_error(error: &str) -> (r: &'static str)
    ensures
        r@ == concise_error(error@),
{
    let v = chars_of(error);
    let small = lower_chars(&v);
    let a = chars_of("0x80072ee2");
    let b = chars_of("0x00002ee2");
    let c = chars_of("timed out");
    if has_chars(&small, &a) || has_chars(&small, &b) || has_chars(&small, &c) || has_text(
        error,
        "超时",
    ) {
        "超时"
    } else {
        "连接失败"
    }
}

/// What is shown of the place of an address.
pub open spec fn location_line(state: LocationState) -> Seq<char> {
    match state {
        LocationState::NotApplicable => Seq::empty(),
        LocationState::Loading => "归属地查询中…"@,
        LocationState::Ready(location) => join(place_parts(location@), " · "@),
        LocationState::Failed(error) => "归属地暂不可用 · "@ + error@,
    }
}

/// What is shown of the place of an address.
pub fn location_text(state: &LocationState) -> (r: String)
    ensures
        r@ == location_line(*state),
{
    match state {
        LocationState::NotApplicable => String::new(),
        LocationState::Loading => "归属地查询中…".to_owned(),
        LocationState::Ready(location) => format_location(location),
        LocationState::Failed(error) => {
            let mut s = "归属地暂不可用 · ".to_owned();
            s.push_str(error.as_str());
            s
        },
    }
}

/// What is shown of the timing of a site.
pub open spec fn latency_line(state: LatencyState) -> Seq<char> {
    match state {
        LatencyState::Idle => "等待检测"@,
        LatencyState::Loading => "检测中…"@,
        LatencyState::Ready(ms) => latency_text(ms),
        LatencyState::Failed(error) => "不可达 · "@ + concise_error(error@),
    }
}

/// What is shown of the timing of a site.
pub fn latency_card_text(state: &LatencyState) -> (r: String)
    ensures
        r@ == latency_line(*state),
{
    match state {
        LatencyState::Idle => "等待检测".to_owned(),
        LatencyState::Loading => "检测中…".to_owned(),
        LatencyState::Ready(ms) => format_latency(*ms),
        LatencyState::Failed(error) => {
            let mut s = "不可达 · ".to_owned();
            s.push_str(concise_network_error(error.as_str()));
            s
        },
    }
}

// ---------------------------------------------------------------- laws

/// A round has another number than the one before, so that late results of
/// that one are told apart, and it waits for results of its own.
pub proof fn rounds_differ(before: IpView, after: IpView)
    requires
        after.round_begun(before),
    ensures
        after.generation != before.generation,
        after.pending(),
{
    assert(after.latencies@[0] is Loading);
}

/// A place is asked for exactly where the page waits for one, so that no round
/// waits for ever.
pub proof fn awaited_places_are_asked_for(kind: IpKind, result: IpLookup)
    ensures
        lookup_pending(address_state(kind, result)) <==> place_sought(kind, result) is Some,
{
}

/// A round is over once every address, place and site has its result.
pub proof fn round_ends_with_its_results(view: IpView)
    requires
        forall|k: IpKind| !lookup_pending(#[trigger] view.spec_state(k)),
        forall|i: int|
            0 <= i < view.latencies@.len() ==> !((#[trigger] view.latencies@[i]) is Loading),
    ensures
        !view.pending(),
{
    assert(!lookup_pending(view.spec_state(IpKind::Local)));
    assert(!lookup_pending(view.spec_state(IpKind::Direct)));
    assert(!lookup_pending(view.spec_state(IpKind::Proxy)));
}

} // verus!
