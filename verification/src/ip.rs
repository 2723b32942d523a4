//! Lookup of addresses, their places, and of how fast sites answer: where to
//! ask, and what the answers say.

use crate::ip_addr::{addr_of, addr_text, AddrModel, IpAddr};
use crate::ip_view::spec_site_index;
use crate::text::{
    chars_of, decimal, is_whitespace, join, join_strings, lemma_trim_is_idempotent, number_text,
    occurs_at, opt_view, slice_of, stands_at, string_of, trim_chars, trim_start, trim_text, trimmed,
    views, whitespace,
};
use vstd::prelude::*;
use vstd::utf8::{decode_utf8, valid_utf8};

verus! {

pub const REQUEST_TIMEOUT_MS: i32 = 4_000;

pub const LATENCY_TIMEOUT_MS: i32 = 3_500;

pub const MAX_IP_RESPONSE_BYTES: usize = 512;

pub const MAX_GEO_RESPONSE_BYTES: usize = 4_096;

/// How a service writes the address.
#[derive(Debug, Clone, Copy, PartialEq, Eq, Structural)]
pub enum IpResponseFormat {
    /// The address alone.
    Plain,
    /// A sentence that starts with the address.
    IpipText,
}

/// A service that tells the public address.
#[derive(Debug, Clone, Copy)]
pub struct IpEndpoint {
    pub name: &'static str,
    pub host: &'static str,
    pub path: &'static str,
    pub response_format: IpResponseFormat,
}

impl IpEndpoint {
    pub open spec fn is(
        &self,
        name: Seq<char>,
        host: Seq<char>,
        path: Seq<char>,
        format: IpResponseFormat,
    ) -> bool {
        &&& self.name@ == name
        &&& self.host@ == host
        &&& self.path@ == path
        &&& self.response_format == format
    }

    pub fn plain(name: &'static str, host: &'static str, path: &'static str) -> (r: Self)
        ensures
            r.is(name@, host@, path@, IpResponseFormat::Plain),
    {
        IpEndpoint { name, host, path, response_format: IpResponseFormat::Plain }
    }

    pub fn ipip(name: &'static str, host: &'static str, path: &'static str) -> (r: Self)
        ensures
            r.is(name@, host@, path@, IpResponseFormat::IpipText),
    {
        IpEndpoint { name, host, path, response_format: IpResponseFormat::IpipText }
    }
}

/// The services asked without a proxy, in this order.
pub fn direct_ip_endpoints() -> (r: Vec<IpEndpoint>)
    ensures
        r@.len() == 2,
        r@[0].is("IPW"@, "4.ipw.cn"@, "/"@, IpResponseFormat::Plain),
        r@[1].is("IPIP"@, "myip.ipip.net"@, "/"@, IpResponseFormat::IpipText),
{
    vec![IpEndpoint::plain("IPW", "4.ipw.cn", "/"), IpEndpoint::ipip("IPIP", "myip.ipip.net", "/")]
}

/// The services asked through the system's proxy, in this order.
pub fn proxy_ip_endpoints() -> (r: Vec<IpEndpoint>)
    ensures
        r@.len() == 2,
        r@[0].is("ipify"@, "api4.ipify.org"@, "/"@, IpResponseFormat::Plain),
        r@[1].is("AWS"@, "checkip.amazonaws.com"@, "/"@, IpResponseFormat::Plain),
{
    vec![
        IpEndpoint::plain("ipify", "api4.ipify.org", "/"),
        IpEndpoint::plain("AWS", "checkip.amazonaws.com", "/"),
    ]
}

/// The addresses that are looked up.
#[derive(Debug, Clone, Copy, PartialEq, Eq, Structural)]
pub enum IpKind {
    Local,
    Direct,
    Proxy,
}

/// An address, or why there is none.
#[derive(Debug, Clone, PartialEq, Eq)]
pub enum IpLookup {
    Available(IpAddr),
    Unavailable(String),
}

impl IpLookup {
    pub fn from_result(result: Result<IpAddr, String>) -> (r: Self)
        ensures
            match result {
                Ok(a) => r == IpLookup::Available(a),
                Err(e) => r == IpLookup::Unavailable(e),
            },
    {
        match result {
            Ok(address) => IpLookup::Available(address),
            Err(error) => IpLookup::Unavailable(error),
        }
    }
}

// ---------------------------------------------------------------- asking one after the other

/// What is reported of one service that failed.
pub open spec fn failure_entry(name: Seq<char>, detail: Seq<char>) -> Seq<char> {
    name + ": "@ + detail
}

/// What is reported when every service failed.
pub open spec fn all_failed(failures: Seq<Seq<char>>) -> Seq<char> {
    "所有公网 IP 服务均不可用（"@ + join(failures, "；"@) + "）"@
}

/// How far a search is: the services to ask in order, what is reported of those
/// that failed so far, and the address once one was told.
pub struct SearchModel {
    pub asked: Seq<IpEndpoint>,
    pub failed: Seq<Seq<char>>,
    pub found: Option<IpAddr>,
}

impl SearchModel {
    /// The service to ask now: the first that did not fail yet, and none once an
    /// address was told.
    pub open spec fn due(self) -> Option<IpEndpoint> {
        if self.found is None && self.failed.len() < self.asked.len() {
            Some(self.asked[self.failed.len() as int])
        } else {
            None
        }
    }

    /// The search after the service asked now told an address or failed.
    pub open spec fn answered(self, outcome: Result<IpAddr, Seq<char>>) -> SearchModel {
        match outcome {
            Ok(address) => SearchModel { found: Some(address), ..self },
            Err(detail) => SearchModel {
                failed: self.failed.push(
                    failure_entry(self.asked[self.failed.len() as int].name@, detail),
                ),
                ..self
            },
        }
    }

    /// The search has come to its end with this result.
    pub open spec fn ends_with(self, lookup: IpLookup) -> bool {
        &&& self.due() is None
        &&& match self.found {
            Some(address) => lookup == IpLookup::Available(address),
            None => lookup matches IpLookup::Unavailable(text) && text@ == all_failed(self.failed),
        }
    }
}

/// What to do next in a search.
#[derive(Debug)]
pub enum SearchStep {
    /// Ask this service.
    Ask(IpEndpoint),
    /// The search is over.
    Done(IpLookup),
}

impl SearchStep {
    /// This is what comes next in a search that is so far.
    pub open spec fn follows(self, search: SearchModel) -> bool {
        match self {
            SearchStep::Ask(endpoint) => search.due() == Some(endpoint),
            SearchStep::Done(lookup) => search.ends_with(lookup),
        }
    }
}

pub open spec fn outcome_view(outcome: Result<IpAddr, String>) -> Result<IpAddr, Seq<char>> {
    match outcome {
        Ok(address) => Ok(address),
        Err(detail) => Err(detail@),
    }
}

/// The services asked one after the other until one tells the address.
#[derive(Debug)]
pub struct IpSearch {
    endpoints: Vec<IpEndpoint>,
    failures: Vec<String>,
    found: Option<IpAddr>,
}

impl View for IpSearch {
    type V = SearchModel;

    closed spec fn view(&self) -> SearchModel {
        SearchModel { asked: self.endpoints@, failed: views(self.failures@), found: self.found }
    }
}

/// A search that has not asked any service yet.
pub open spec fn search_begun(endpoints: Seq<IpEndpoint>) -> SearchModel {
    SearchModel { asked: endpoints, failed: Seq::empty(), found: None }
}

impl IpSearch {
    pub fn new(endpoints: Vec<IpEndpoint>) -> (r: Self)
        ensures
            r@ == search_begun(endpoints@),
    {
        let r = IpSearch { endpoints, failures: Vec::new(), found: None };
        assert(r@.failed == Seq::<Seq<char>>::empty());
        r
    }

    /// The service to ask now; none once the search is over.
    pub fn endpoint(&self) -> (r: Option<IpEndpoint>)
        ensures
            r == self@.due(),
    {
        if self.found.is_none() && self.failures.len() < self.endpoints.len() {
            Some(self.endpoints[self.failures.len()])
        } else {
            None
        }
    }

    /// What to do next.
    pub fn step(&self) -> (r: SearchStep)
        ensures
            r.follows(self@),
    {
        match self.endpoint() {
            Some(endpoint) => SearchStep::Ask(endpoint),
            None => match self.found {
                Some(address) => SearchStep::Done(IpLookup::Available(address)),
                None => SearchStep::Done(IpLookup::Unavailable(self.failure_text())),
            },
        }
    }

    /// Takes what came of asking the service that was due, and says what to do
    /// next: an address ends the search, a failure leads to the next service or,
    /// after the last one, to the report of all failures.
    pub fn answer(&mut self, outcome: Result<IpAddr, String>) -> (r: SearchStep)
        requires
            old(self)@.due() is Some,
        ensures
            final(self)@ == old(self)@.answered(outcome_view(outcome)),
            r.follows(final(self)@),
    {
        match outcome {
            Ok(address) => {
                self.found = Some(address);
            },
            Err(detail) => {
                let ghost before = self@;
                let mut entry = self.endpoints[self.failures.len()].name.to_owned();
                entry.push_str(": ");
                entry.push_str(detail.as_str());
                let ghost text = entry@;
                self.failures.push(entry);
                assert(self@.failed == before.failed.push(text));
            },
        }
        self.step()
    }

    fn failure_text(&self) -> (r: String)
        ensures
            r@ == all_failed(self@.failed),
    {
        let mut s = "所有公网 IP 服务均不可用（".to_owned();
        let list = join_strings(&self.failures, "；");
        s.push_str(list.as_str());
        s.push_str("）");
        s
    }
}

/// A search after `n` steps, where `answers` tells what comes of asking each
/// service. Once the search is over nothing changes any more.
pub open spec fn search_after(
    endpoints: Seq<IpEndpoint>,
    answers: spec_fn(int) -> Result<IpAddr, Seq<char>>,
    n: nat,
) -> SearchModel
    decreases n,
{
    if n == 0 {
        search_begun(endpoints)
    } else {
        let before = search_after(endpoints, answers, (n - 1) as nat);
        if before.due() is Some {
            before.answered(answers(n - 1))
        } else {
            before
        }
    }
}

/// What is reported of the first `n` services, all of which failed.
pub open spec fn failures_of(
    endpoints: Seq<IpEndpoint>,
    answers: spec_fn(int) -> Result<IpAddr, Seq<char>>,
    n: nat,
) -> Seq<Seq<char>> {
    Seq::new(n, |i: int| failure_entry(endpoints[i].name@, answers(i)->Err_0))
}

/// What is reported when neither service knows a place.
pub open spec fn places_failed(primary: Seq<char>, fallback: Seq<char>) -> Seq<char> {
    "归属地服务均不可用（ipwho.is: "@ + primary + "；IP.SB: "@ + fallback + "）"@
}

/// What is reported when neither service knows a place.
fn place_failure_text(primary: &str, fallback: &str) -> (r: String)
    ensures
        r@ == places_failed(primary@, fallback@),
{
    let mut s = "归属地服务均不可用（ipwho.is: ".to_owned();
    s.push_str(primary);
    s.push_str("；IP.SB: ");
    s.push_str(fallback);
    s.push_str("）");
    s
}

/// What to request of `ipwho.is`.
pub fn ipwhois_path(address: &IpAddr) -> (r: String)
    ensures
        r@ == "/"@ + addr_text(address@)
            + "?lang=zh-CN&fields=success,message,country,region,city,connection.isp,connection.org"@,
{
    let mut s = "/".to_owned();
    let text = address.to_text();
    s.push_str(text.as_str());
    s.push_str(
        "?lang=zh-CN&fields=success,message,country,region,city,connection.isp,connection.org",
    );
    s
}

/// What to request of `api.ip.sb`.
pub fn ip_sb_path(address: &IpAddr) -> (r: String)
    ensures
        r@ == "/geoip/"@ + addr_text(address@),
{
    let mut s = "/geoip/".to_owned();
    let text = address.to_text();
    s.push_str(text.as_str());
    s
}

// ---------------------------------------------------------------- answers

/// Checks the status of an answer: only those from 200 up to 299 count.
pub fn ensure_success_status(status: u32) -> (r: Result<(), String>)
    ensures
        r is Ok <==> 200 <= status < 300,
        r matches Err(e) ==> e@ == "IP 服务返回 HTTP "@ + decimal(status as nat) + ""@,
{
    if 200 <= status && status < 300 {
        Ok(())
    } else {
        Err(number_text("IP 服务返回 HTTP ", status as u128, ""))
    }
}

/// An answer read in pieces up to a limit.
#[derive(Debug)]
pub struct BoundedResponse {
    pub bytes: Vec<u8>,
    pub max_bytes: usize,
}

impl BoundedResponse {
    pub fn new(max_bytes: usize) -> (r: Self)
        ensures
            r.bytes@.len() == 0,
            r.max_bytes == max_bytes,
    {
        BoundedResponse { bytes: Vec::new(), max_bytes }
    }

    /// Takes the next piece and says whether there may be more: an empty piece
    /// ends the answer, and an answer over the limit is an error.
    pub fn take(&mut self, piece: &[u8]) -> (r: Result<bool, String>)
        ensures
            final(self).max_bytes == old(self).max_bytes,
            final(self).bytes@ == old(self).bytes@ + piece@,
            r is Err <==> piece@.len() > 0 && final(self).bytes@.len() > old(self).max_bytes,
            r matches Ok(more) ==> more == (piece@.len() > 0),
            r matches Err(e) ==> e@ == "网络服务响应超过 "@ + decimal(old(self).max_bytes as nat)
                + " 字节"@,
    {
        let ghost start = self.bytes@;
        if piece.len() == 0 {
            assert(start + piece@ == start);
            return Ok(false);
        }
        for i in 0..piece.len()
            invariant
                self.max_bytes == old(self).max_bytes,
                self.bytes@ == start + piece@.take(i as int),
        {
            self.bytes.push(piece[i]);
            assert(piece@.take(i + 1) == piece@.take(i as int).push(piece@[i as int]));
        }
        assert(piece@.take(piece@.len() as int) == piece@);
        if self.bytes.len() > self.max_bytes {
            Err(number_text("网络服务响应超过 ", self.max_bytes as u128, " 字节"))
        } else {
            Ok(true)
        }
    }
}

/// What is wrong with bytes that are not UTF-8.
pub uninterp spec fn utf8_problem(bytes: Seq<u8>) -> Seq<char>;

/// Calls `String::from_utf8` of the standard library. The contract claims that
/// exactly valid UTF-8 is accepted and decoded, and that the message for
/// anything else depends on the bytes alone; it does not say how that message
/// reads.
#[verifier::external_body]
fn read_utf8(bytes: &[u8]) -> (r: Result<String, String>)
    ensures
        r is Ok <==> valid_utf8(bytes@),
        r is Ok ==> r->Ok_0@ == decode_utf8(bytes@),
        r is Err ==> r->Err_0@ == utf8_problem(bytes@),
{
    String::from_utf8(bytes.to_vec()).map_err(|err| err.to_string())
}

/// `s` without `prefix`, where it starts with it.
pub open spec fn without_prefix(s: Seq<char>, prefix: Seq<char>) -> Option<Seq<char>> {
    if occurs_at(s, prefix, 0) {
        Some(s.skip(prefix.len() as int))
    } else {
        None
    }
}

/// Where the first blank of `s` stands, or its length.
pub open spec fn word_end(s: Seq<char>) -> int
    decreases s.len(),
{
    if s.len() == 0 {
        0
    } else {
        let e = word_end(s.drop_last());
        if e < s.len() - 1 {
            e
        } else if is_whitespace(s.last()) {
            s.len() - 1
        } else {
            s.len() as int
        }
    }
}

/// The first word of `s`.
pub open spec fn first_word(s: Seq<char>) -> Option<Seq<char>> {
    let t = trim_start(s);
    if t.len() == 0 {
        None
    } else {
        Some(t.take(word_end(t)))
    }
}

/// The text of the address in the answer of a service.
pub open spec fn address_text(text: Seq<char>, format: IpResponseFormat) -> Option<Seq<char>> {
    match format {
        IpResponseFormat::Plain => Some(text),
        IpResponseFormat::IpipText => {
            let rest = match without_prefix(text, "当前 IP："@) {
                Some(rest) => Some(rest),
                None => without_prefix(text, "当前 IP:"@),
            };
            match rest {
                Some(rest) => first_word(rest),
                None => None,
            }
        },
    }
}

/// What the answer of a service says: an address, or why it is none.
pub open spec fn ip_answer(response: Seq<u8>, format: IpResponseFormat) -> Result<
    AddrModel,
    Seq<char>,
> {
    if !valid_utf8(response) {
        Err("IP 服务响应不是 UTF-8: "@ + utf8_problem(response))
    } else {
        match address_text(trimmed(decode_utf8(response)), format) {
            None => Err("IPIP 返回了未知格式"@),
            Some(text) => match addr_of(text) {
                Some(a) => Ok(a),
                None => Err("IP 服务返回了无效地址"@),
            },
        }
    }
}

pub open spec fn answer_view(r: Result<IpAddr, String>) -> Result<AddrModel, Seq<char>> {
    match r {
        Ok(a) => Ok(a@),
        Err(e) => Err(e@),
    }
}

fn strip(v: &Vec<char>, prefix: &str) -> (r: Option<Vec<char>>)
    ensures
        r is Some <==> without_prefix(v@, prefix@) is Some,
        r matches Some(rest) ==> without_prefix(v@, prefix@) == Some(rest@),
{
    let p = chars_of(prefix);
    if stands_at(v, &p, 0) {
        let rest = slice_of(v, p.len(), v.len());
        assert(rest@ == v@.skip(prefix@.len() as int));
        Some(rest)
    } else {
        None
    }
}

fn take_word(v: &Vec<char>) -> (r: Option<Vec<char>>)
    ensures
        r is Some <==> first_word(v@) is Some,
        r matches Some(w) ==> first_word(v@) == Some(w@),
{
    let n: usize = v.len();
    let mut from: usize = 0;
    assert(v@.skip(0) == v@);
    while from < n && whitespace(v[from])
        invariant
            n == v@.len(),
            from <= n,
            trim_start(v@) == trim_start(v@.skip(from as int)),
        decreases n - from,
    {
        assert(v@.skip(from as int).drop_first() == v@.skip(from + 1));
        from = from + 1;
    }
    let ghost t = v@.skip(from as int);
    proof {
        if from < n {
            assert(t[0] == v@[from as int]);
        }
        assert(trim_start(v@) == t);
    }
    if from == n {
        return None;
    }
    let mut to: usize = from;
    assert(t.take(0) == Seq::<char>::empty());
    while to < n && !whitespace(v[to])
        invariant
            n == v@.len(),
            from <= to <= n,
            t == v@.skip(from as int),
            word_end(t.take(to - from)) == to - from,
        decreases n - to,
    {
        proof {
            let next = t.take(to - from + 1);
            assert(next.drop_last() == t.take(to - from));
            assert(next.last() == v@[to as int]);
        }
        to = to + 1;
    }
    proof {
        if to < n {
            let next = t.take(to - from + 1);
            assert(next.drop_last() == t.take(to - from));
            assert(next.last() == v@[to as int]);
            lemma_word_end_stays(t, to - from + 1);
        } else {
            assert(t.take(to - from) == t);
        }
    }
    let w = slice_of(v, from, to);
    assert(w@ == t.take(to - from));
    Some(w)
}

proof fn lemma_word_end_stays(s: Seq<char>, k: int)
    requires
        0 <= k <= s.len(),
        word_end(s.take(k)) < k,
    ensures
        word_end(s) == word_end(s.take(k)),
    decreases s.len() - k,
{
    if k < s.len() {
        assert(s.take(k + 1).drop_last() == s.take(k));
        lemma_word_end_stays(s, k + 1);
    } else {
        assert(s.take(k) == s);
    }
}

fn read_address(text: &Vec<char>, format: IpResponseFormat) -> (r: Option<Vec<char>>)
    ensures
        r is Some <==> address_text(text@, format) is Some,
        r matches Some(a) ==> address_text(text@, format) == Some(a@),
{
    match format {
        IpResponseFormat::Plain => {
            let all = slice_of(text, 0, text.len());
            assert(all@ == text@);
            Some(all)
        },
        IpResponseFormat::IpipText => {
            match strip(text, "当前 IP：") {
                Some(rest) => take_word(&rest),
                None => match strip(text, "当前 IP:") {
                    Some(rest) => take_word(&rest),
                    None => None,
                },
            }
        },
    }
}

/// Reads the address from the decoded answer of a service.
pub fn parse_ip_text(text: &str, format: IpResponseFormat) -> (r: Result<IpAddr, String>)
    ensures
        answer_view(r) == match address_text(trimmed(text@), format) {
            None => Err("IPIP 返回了未知格式"@),
            Some(t) => match addr_of(t) {
                Some(a) => Ok(a),
                None => Err("IP 服务返回了无效地址"@),
            },
        },
{
    let v = chars_of(text);
    let t = trim_chars(&v);
    match read_address(&t, format) {
        Some(a) => {
            let s = string_of(&a);
            match IpAddr::parse(s.as_str()) {
                Some(address) => Ok(address),
                None => Err("IP 服务返回了无效地址".to_owned()),
            }
        },
        None => Err("IPIP 返回了未知格式".to_owned()),
    }
}

/// Reads the address from the answer of a service.
pub fn parse_ip_response(response: &[u8], format: IpResponseFormat) -> (r: Result<IpAddr, String>)
    ensures
        answer_view(r) == ip_answer(response@, format),
{
    match read_utf8(response) {
        Ok(text) => parse_ip_text(text.as_str(), format),
        Err(detail) => {
            let mut s = "IP 服务响应不是 UTF-8: ".to_owned();
            s.push_str(detail.as_str());
            Err(s)
        },
    }
}

/// Whether an address of our own is one to show: of version 4, set, and not
/// the loopback.
pub open spec fn is_local_address(a: AddrModel) -> bool {
    match a {
        AddrModel::V4(o) => !(o[0] == 0 && o[1] == 0 && o[2] == 0 && o[3] == 0) && o[0] != 127,
        AddrModel::V6(_) => false,
    }
}

/// Checks the address of our own end of a route to the outside.
pub fn primary_local_ipv4(address: IpAddr) -> (r: Result<IpAddr, String>)
    ensures
        r is Ok <==> is_local_address(address@),
        r matches Ok(a) ==> a == address,
        r matches Err(e) ==> e@ == "未找到可用的内网 IPv4"@,
{
    match address {
        IpAddr::V4(o) => {
            if !(o[0] == 0 && o[1] == 0 && o[2] == 0 && o[3] == 0) && o[0] != 127 {
                return Ok(address);
            }
        },
        IpAddr::V6(_) => {},
    }
    Err("未找到可用的内网 IPv4".to_owned())
}

// ---------------------------------------------------------------- places

/// Where a public address is; any part may be missing.
#[derive(Debug, Clone, PartialEq, Eq)]
pub struct IpLocation {
    pub country: Option<String>,
    pub region: Option<String>,
    pub city: Option<String>,
    pub network: Option<String>,
}

/// The plain contents of an [`IpLocation`].
pub struct PlaceModel {
    pub country: Option<Seq<char>>,
    pub region: Option<Seq<char>>,
    pub city: Option<Seq<char>>,
    pub network: Option<Seq<char>>,
}

impl View for IpLocation {
    type V = PlaceModel;

    open spec fn view(&self) -> PlaceModel {
        PlaceModel {
            country: opt_view(self.country),
            region: opt_view(self.region),
            city: opt_view(self.city),
            network: opt_view(self.network),
        }
    }
}

/// A field without surrounding blanks; nothing where only blanks are left.
pub open spec fn meaningful(value: Option<Seq<char>>) -> Option<Seq<char>> {
    match value {
        Some(s) => if trimmed(s).len() > 0 {
            Some(trimmed(s))
        } else {
            None
        },
        None => None,
    }
}

pub open spec fn place_of(
    country: Option<Seq<char>>,
    region: Option<Seq<char>>,
    city: Option<Seq<char>>,
    network: Option<Seq<char>>,
) -> PlaceModel {
    PlaceModel {
        country: meaningful(country),
        region: meaningful(region),
        city: meaningful(city),
        network: meaningful(network),
    }
}

pub open spec fn place_is_empty(p: PlaceModel) -> bool {
    p.country is None && p.region is None && p.city is None && p.network is None
}

fn normalized(value: Option<String>) -> (r: Option<String>)
    ensures
        opt_view(r) == meaningful(opt_view(value)),
{
    match value {
        Some(s) => {
            let t = trim_text(s.as_str());
            if t.as_str().is_empty() {
                None
            } else {
                Some(t)
            }
        },
        None => None,
    }
}

/// The first of several fields that says something.
pub open spec fn first_of(values: Seq<Option<Seq<char>>>) -> Option<Seq<char>>
    decreases values.len(),
{
    if values.len() == 0 {
        None
    } else {
        match first_of(values.drop_last()) {
            Some(s) => Some(s),
            None => meaningful(values.last()),
        }
    }
}

impl IpLocation {
    /// Puts a place together; an error where no part says anything.
    pub fn from_parts(
        country: Option<String>,
        region: Option<String>,
        city: Option<String>,
        network: Option<String>,
    ) -> (r: Result<Self, String>)
        ensures
            ({
                let place = place_of(
                    opt_view(country),
                    opt_view(region),
                    opt_view(city),
                    opt_view(network),
                );
                &&& r is Ok <==> !place_is_empty(place)
                &&& r matches Ok(p) ==> p@ == place
            }),
            r matches Err(e) ==> e@ == "归属地服务未返回有效字段"@,
    {
        let location = IpLocation {
            country: normalized(country),
            region: normalized(region),
            city: normalized(city),
            network: normalized(network),
        };
        if location.country.is_none() && location.region.is_none() && location.city.is_none()
            && location.network.is_none() {
            Err("归属地服务未返回有效字段".to_owned())
        } else {
            Ok(location)
        }
    }
}

/// A place, or why there is none.
#[derive(Debug, Clone, PartialEq, Eq)]
pub enum IpLocationLookup {
    Available(IpLocation),
    Unavailable(String),
}

impl IpLocationLookup {
    pub fn from_result(result: Result<IpLocation, String>) -> (r: Self)
        ensures
            match result {
                Ok(p) => r == IpLocationLookup::Available(p),
                Err(e) => r == IpLocationLookup::Unavailable(e),
            },
    {
        match result {
            Ok(location) => IpLocationLookup::Available(location),
            Err(error) => IpLocationLookup::Unavailable(error),
        }
    }
}

/// The fields of an answer of `ipwho.is`.
#[derive(Debug, Clone)]
pub struct IpWhoisResponse {
    pub success: bool,
    pub message: Option<String>,
    pub country: Option<String>,
    pub region: Option<String>,
    pub city: Option<String>,
    pub connection: Option<IpWhoisConnection>,
}

/// The network in an answer of `ipwho.is`.
#[derive(Debug, Clone)]
pub struct IpWhoisConnection {
    pub isp: Option<String>,
    pub org: Option<String>,
}

/// The network that an answer of `ipwho.is` names: the provider, else the
/// organisation.
pub open spec fn whois_network(c: Option<IpWhoisConnection>) -> Option<Seq<char>> {
    match c {
        Some(c) => match meaningful(opt_view(c.isp)) {
            Some(s) => Some(s),
            None => meaningful(opt_view(c.org)),
        },
        None => None,
    }
}

/// The place that an answer of `ipwho.is` names.
pub open spec fn whois_place(r: IpWhoisResponse) -> PlaceModel {
    place_of(
        opt_view(r.country),
        opt_view(r.region),
        opt_view(r.city),
        whois_network(r.connection),
    )
}

fn first_meaningful(first: Option<String>, second: Option<String>) -> (r: Option<String>)
    ensures
        opt_view(r) == match meaningful(opt_view(first)) {
            Some(s) => Some(s),
            None => meaningful(opt_view(second)),
        },
{
    match normalized(first) {
        Some(s) => Some(s),
        None => normalized(second),
    }
}

/// Reads the place from the fields of an answer of `ipwho.is`.
pub fn parse_ipwhois_location(response: IpWhoisResponse) -> (r: Result<IpLocation, String>)
    ensures
        r is Ok <==> response.success && !place_is_empty(whois_place(response)),
        r matches Ok(p) ==> p@ == whois_place(response),
        r matches Err(e) ==> e@ == if response.success {
            "归属地服务未返回有效字段"@
        } else {
            "ipwho.is 查询失败: "@ + (match response.message {
                Some(m) => m@,
                None => "未知错误"@,
            })
        },
{
    if !response.success {
        let mut s = "ipwho.is 查询失败: ".to_owned();
        match &response.message {
            Some(m) => s.push_str(m.as_str()),
            None => s.push_str("未知错误"),
        }
        return Err(s);
    }
    let network = match response.connection {
        Some(c) => first_meaningful(c.isp, c.org),
        None => None,
    };
    proof {
        lemma_meaningful_twice(opt_view(network));
    }
    IpLocation::from_parts(response.country, response.region, response.city, network)
}

proof fn lemma_meaningful_twice(value: Option<Seq<char>>)
    ensures
        meaningful(meaningful(value)) == meaningful(value),
{
    if value is Some {
        lemma_trim_is_idempotent(value->0);
    }
}

/// The fields of an answer of `api.ip.sb`.
#[derive(Debug, Clone)]
pub struct IpSbResponse {
    pub country: Option<String>,
    pub region: Option<String>,
    pub city: Option<String>,
    pub isp: Option<String>,
    pub organization: Option<String>,
    pub asn_organization: Option<String>,
    pub message: Option<String>,
}

/// The place that an answer of `api.ip.sb` names. The network is the provider,
/// else the organisation, else the owner of the address block.
pub open spec fn sb_place(r: IpSbResponse) -> PlaceModel {
    place_of(
        opt_view(r.country),
        opt_view(r.region),
        opt_view(r.city),
        first_of(seq![opt_view(r.isp), opt_view(r.organization), opt_view(r.asn_organization)]),
    )
}

/// Reads the place from the fields of an answer of `api.ip.sb`.
pub fn parse_ip_sb_location(response: IpSbResponse) -> (r: Result<IpLocation, String>)
    ensures
        r is Ok <==> !place_is_empty(sb_place(response)),
        r matches Ok(p) ==> p@ == sb_place(response),
        r matches Err(e) ==> e@ == "IP.SB 查询失败: "@ + (match response.message {
            Some(m) => m@,
            None => "未返回归属地"@,
        }) + ": 归属地服务未返回有效字段"@,
{
    let ghost three = seq![
        opt_view(response.isp),
        opt_view(response.organization),
        opt_view(response.asn_organization),
    ];
    let mut s = "IP.SB 查询失败: ".to_owned();
    match &response.message {
        Some(m) => s.push_str(m.as_str()),
        None => s.push_str("未返回归属地"),
    }
    s.push_str(": 归属地服务未返回有效字段");
    let early = first_meaningful(response.isp, response.organization);
    let network = first_meaningful(early, response.asn_organization);
    proof {
        reveal_with_fuel(first_of, 4);
        let two = three.drop_last();
        assert(two == seq![opt_view(response.isp), opt_view(response.organization)]);
        assert(two.drop_last() == seq![opt_view(response.isp)]);
        lemma_meaningful_twice(opt_view(response.isp));
        lemma_meaningful_twice(opt_view(response.organization));
        lemma_meaningful_twice(opt_view(response.asn_organization));
        assert(opt_view(network) == first_of(three));
    }
    match IpLocation::from_parts(response.country, response.region, response.city, network) {
        Ok(location) => Ok(location),
        Err(_) => Err(s),
    }
}

// ---------------------------------------------------------------- sites

/// The sites whose answers are timed.
#[derive(Debug, Clone, Copy, PartialEq, Eq, Structural)]
pub enum NetworkSite {
    Baidu,
    NetEase,
    Aliyun,
    TencentCloud,
    GitHub,
    Google,
    YouTube,
    Amazon,
}

/// The name shown for a site.
pub open spec fn site_name(site: NetworkSite) -> Seq<char> {
    match site {
        NetworkSite::Baidu => "百度"@,
        NetworkSite::NetEase => "网易"@,
        NetworkSite::Aliyun => "阿里云"@,
        NetworkSite::TencentCloud => "腾讯云"@,
        NetworkSite::GitHub => "GitHub"@,
        NetworkSite::Google => "Google"@,
        NetworkSite::YouTube => "YouTube"@,
        NetworkSite::Amazon => "Amazon"@,
    }
}

/// The part of the network that a site is in.
pub open spec fn site_scope(site: NetworkSite) -> Seq<char> {
    match site {
        NetworkSite::Baidu => "境内"@,
        NetworkSite::NetEase => "境内"@,
        NetworkSite::Aliyun => "境内"@,
        NetworkSite::TencentCloud => "境内"@,
        NetworkSite::GitHub => "境外"@,
        NetworkSite::Google => "境外"@,
        NetworkSite::YouTube => "境外"@,
        NetworkSite::Amazon => "境外"@,
    }
}

/// The host that is asked for a site.
pub open spec fn site_host(site: NetworkSite) -> Seq<char> {
    match site {
        NetworkSite::Baidu => "www.baidu.com"@,
        NetworkSite::NetEase => "www.163.com"@,
        NetworkSite::Aliyun => "www.aliyun.com"@,
        NetworkSite::TencentCloud => "cloud.tencent.com"@,
        NetworkSite::GitHub => "github.com"@,
        NetworkSite::Google => "www.google.com"@,
        NetworkSite::YouTube => "www.youtube.com"@,
        NetworkSite::Amazon => "www.amazon.com"@,
    }
}

impl NetworkSite {
    pub const ALL: [NetworkSite; 8] = [
        NetworkSite::Baidu,
        NetworkSite::NetEase,
        NetworkSite::Aliyun,
        NetworkSite::TencentCloud,
        NetworkSite::GitHub,
        NetworkSite::Google,
        NetworkSite::YouTube,
        NetworkSite::Amazon,
    ];

    /// The name shown for the site.
    pub fn name(self) -> (r: &'static str)
        ensures
            r@ == site_name(self),
    {
        match self {
            NetworkSite::Baidu => "百度",
            NetworkSite::NetEase => "网易",
            NetworkSite::Aliyun => "阿里云",
            NetworkSite::TencentCloud => "腾讯云",
            NetworkSite::GitHub => "GitHub",
            NetworkSite::Google => "Google",
            NetworkSite::YouTube => "YouTube",
            NetworkSite::Amazon => "Amazon",
        }
    }

    /// The part of the network that the site is in, to compare routes.
    pub fn scope(self) -> (r: &'static str)
        ensures
            r@ == site_scope(self),
    {
        match self {
            NetworkSite::Baidu => "境内",
            NetworkSite::NetEase => "境内",
            NetworkSite::Aliyun => "境内",
            NetworkSite::TencentCloud => "境内",
            NetworkSite::GitHub => "境外",
            NetworkSite::Google => "境外",
            NetworkSite::YouTube => "境外",
            NetworkSite::Amazon => "境外",
        }
    }

    /// The host and path that are asked.
    pub fn endpoint(self) -> (r: (&'static str, &'static str))
        ensures
            r.0@ == site_host(self),
            r.1@ == "/"@,
    {
        let host = match self {
            NetworkSite::Baidu => "www.baidu.com",
            NetworkSite::NetEase => "www.163.com",
            NetworkSite::Aliyun => "www.aliyun.com",
            NetworkSite::TencentCloud => "cloud.tencent.com",
            NetworkSite::GitHub => "github.com",
            NetworkSite::Google => "www.google.com",
            NetworkSite::YouTube => "www.youtube.com",
            NetworkSite::Amazon => "www.amazon.com",
        };
        (host, "/")
    }
}

/// How long a site took to answer, in whole milliseconds, or why it did not.
#[derive(Debug, Clone, PartialEq, Eq)]
pub enum SiteLatencyLookup {
    Reachable(u128),
    Unreachable(String),
}

impl SiteLatencyLookup {
    pub fn from_result(result: Result<u128, String>) -> (r: Self)
        ensures
            match result {
                Ok(ms) => r == SiteLatencyLookup::Reachable(ms),
                Err(e) => r == SiteLatencyLookup::Unreachable(e),
            },
    {
        match result {
            Ok(ms) => SiteLatencyLookup::Reachable(ms),
            Err(error) => SiteLatencyLookup::Unreachable(error),
        }
    }
}

/// How an address is found out.
#[derive(Debug)]
pub enum IpRoute {
    /// From our own end of a route to the outside.
    Local,
    /// From services, with or without the system's proxy.
    Ask { proxied: bool, search: IpSearch },
}

/// The lookups that the shell can ask for.
pub struct IpService;

impl IpService {
    /// How the address of the given kind is found out.
    pub fn lookup(kind: IpKind) -> (r: IpRoute)
        ensures
            match kind {
                IpKind::Local => r is Local,
                IpKind::Direct => r matches IpRoute::Ask { proxied, search } && !proxied
                    && search@ == search_begun(search@.asked) && search@.asked.len() == 2
                    && search@.asked[0].is("IPW"@, "4.ipw.cn"@, "/"@, IpResponseFormat::Plain)
                    && search@.asked[1].is(
                    "IPIP"@,
                    "myip.ipip.net"@,
                    "/"@,
                    IpResponseFormat::IpipText,
                ),
                IpKind::Proxy => r matches IpRoute::Ask { proxied, search } && proxied
                    && search@ == search_begun(search@.asked) && search@.asked.len() == 2
                    && search@.asked[0].is(
                    "ipify"@,
                    "api4.ipify.org"@,
                    "/"@,
                    IpResponseFormat::Plain,
                ) && search@.asked[1].is(
                    "AWS"@,
                    "checkip.amazonaws.com"@,
                    "/"@,
                    IpResponseFormat::Plain,
                ),
            },
    {
        match kind {
            IpKind::Local => IpRoute::Local,
            IpKind::Direct => IpRoute::Ask {
                proxied: false,
                search: IpSearch::new(direct_ip_endpoints()),
            },
            IpKind::Proxy => IpRoute::Ask {
                proxied: true,
                search: IpSearch::new(proxy_ip_endpoints()),
            },
        }
    }

    /// The place of an address: what `ipwho.is` says, else what `api.ip.sb`
    /// says, else both failures. The second answer counts only where the first
    /// one failed.
    pub fn locate(
        primary: Result<IpLocation, String>,
        fallback: Result<IpLocation, String>,
    ) -> (r: IpLocationLookup)
        ensures
            match primary {
                Ok(p) => r == IpLocationLookup::Available(p),
                Err(e) => match fallback {
                    Ok(p) => r == IpLocationLookup::Available(p),
                    Err(f) => r matches IpLocationLookup::Unavailable(text) && text@
                        == places_failed(e@, f@),
                },
            },
    {
        match primary {
            Ok(location) => IpLocationLookup::from_result(Ok(location)),
            Err(first) => match fallback {
                Ok(location) => IpLocationLookup::from_result(Ok(location)),
                Err(second) => IpLocationLookup::from_result(
                    Err(place_failure_text(first.as_str(), second.as_str())),
                ),
            },
        }
    }

    /// How long a site took to answer, in whole milliseconds; a failure is
    /// reported with the site's name.
    pub fn measure(site: NetworkSite, answer: Result<u128, String>) -> (r: SiteLatencyLookup)
        ensures
            match answer {
                Ok(ms) => r == SiteLatencyLookup::Reachable(ms),
                Err(e) => r matches SiteLatencyLookup::Unreachable(text) && text@ == site_name(site)
                    + "连接失败: "@ + e@,
            },
    {
        match answer {
            Ok(ms) => SiteLatencyLookup::from_result(Ok(ms)),
            Err(error) => {
                let mut s = site.name().to_owned();
                s.push_str("连接失败: ");
                s.push_str(error.as_str());
                SiteLatencyLookup::from_result(Err(s))
            },
        }
    }
}

// ---------------------------------------------------------------- laws

/// The services are asked in order, each once, up to and including the first
/// that tells an address, and none behind it: that address is the result. Where
/// all of them fail, the result names every service with its failure, in order.
/// The first `k` services are those that fail.
pub proof fn search_ends_at_first_answer(
    endpoints: Seq<IpEndpoint>,
    answers: spec_fn(int) -> Result<IpAddr, Seq<char>>,
    k: nat,
    n: nat,
)
    requires
        k <= endpoints.len(),
        forall|i: int| 0 <= i < k ==> (#[trigger] answers(i)) is Err,
        k < endpoints.len() ==> answers(k as int) is Ok,
    ensures
        n <= k ==> search_after(endpoints, answers, n).failed == failures_of(endpoints, answers, n),
        n <= k && n < endpoints.len() ==> search_after(endpoints, answers, n).due() == Some(
            endpoints[n as int],
        ),
        n > k && k < endpoints.len() ==> search_after(endpoints, answers, n).ends_with(
            IpLookup::Available(answers(k as int)->Ok_0),
        ),
        n >= k && k == endpoints.len() ==> {
            &&& search_after(endpoints, answers, n).due() is None
            &&& search_after(endpoints, answers, n).found is None
            &&& search_after(endpoints, answers, n).failed == failures_of(endpoints, answers, k)
        },
    decreases n,
{
    let now = search_after(endpoints, answers, n);
    if n == 0 {
        assert(now.failed == failures_of(endpoints, answers, 0));
    } else {
        let m = (n - 1) as nat;
        let before = search_after(endpoints, answers, m);
        search_ends_at_first_answer(endpoints, answers, k, m);
        lemma_search_keeps_services(endpoints, answers, k, m);
        if m < k {
            assert(answers(m as int) is Err);
            assert(now.failed == failures_of(endpoints, answers, n));
        }
    }
    lemma_search_keeps_services(endpoints, answers, k, n);
}

proof fn lemma_search_keeps_services(
    endpoints: Seq<IpEndpoint>,
    answers: spec_fn(int) -> Result<IpAddr, Seq<char>>,
    k: nat,
    n: nat,
)
    requires
        k <= endpoints.len(),
        forall|i: int| 0 <= i < k ==> (#[trigger] answers(i)) is Err,
    ensures
        search_after(endpoints, answers, n).asked == endpoints,
        n <= k ==> search_after(endpoints, answers, n).found is None,
        n <= k ==> search_after(endpoints, answers, n).failed.len() == n,
    decreases n,
{
    if n > 0 {
        lemma_search_keeps_services(endpoints, answers, k, (n - 1) as nat);
        if n <= k {
            assert(answers(n - 1) is Err);
        }
    }
}

/// Every site is listed once.
pub proof fn all_sites_are_listed_once(site: NetworkSite)
    ensures
        exists|i: int| 0 <= i < 8 && #[trigger] NetworkSite::ALL@[i] == site,
        forall|i: int, j: int|
            0 <= i < j < 8 ==> #[trigger] NetworkSite::ALL@[i] != #[trigger] NetworkSite::ALL@[j],
{
    let k = spec_site_index(site);
    assert(NetworkSite::ALL@[k] == site);
}

/// Different sites ask different hosts.
pub proof fn sites_ask_different_hosts(a: NetworkSite, b: NetworkSite)
    requires
        a != b,
    ensures
        site_host(a) != site_host(b),
{
    reveal_strlit("www.baidu.com");
    reveal_strlit("www.163.com");
    reveal_strlit("www.aliyun.com");
    reveal_strlit("cloud.tencent.com");
    reveal_strlit("github.com");
    reveal_strlit("www.google.com");
    reveal_strlit("www.youtube.com");
    reveal_strlit("www.amazon.com");
    let x = site_host(a);
    let y = site_host(b);
    if x.len() == y.len() {
        assert(x[4] != y[4] || x[5] != y[5]);
    }
}

} // verus!
