//! What the address tool makes of the answers that it gets.

use crate::ip::{
    address_text, all_failed, failure_entry, first_of, ip_answer, is_local_address, meaningful,
    place_is_empty, place_of, places_failed, sb_place, site_host, site_name, site_scope,
    whois_network, whois_place, word_end, IpKind, IpLocationLookup, IpLookup, IpResponseFormat,
    IpSbResponse, IpWhoisConnection, IpWhoisResponse, NetworkSite, PlaceModel, SiteLatencyLookup,
    LATENCY_TIMEOUT_MS, MAX_GEO_RESPONSE_BYTES, MAX_IP_RESPONSE_BYTES, REQUEST_TIMEOUT_MS,
};
use crate::ip_addr::{addr_of, AddrModel};
use crate::ip_view::{
    add_part, address_state, concise_error, kind_detail, kind_title, latency_line, latency_state,
    latency_text, located_state, location_line, lookup_pending, place_parts, place_sought,
    spec_kind_index, spec_site_index, IpView, LatencyState, LocationState, LookupState,
};
use crate::text::{ascii_lower_all, decimal, join, occurs_at, opt_view, trim_start};
use crate::text_laws::{
    all_blank, blank, case_does_not_matter, joining_goes_part_by_part,
    only_blanks_are_trimmed_to_nothing, solid, stands_in, texts_hold_what_is_written_in_them,
    trimming_removes_the_blanks_around, whitespace_is_blank, written_in,
};
use vstd::prelude::*;
use vstd::utf8::{decode_utf8, valid_utf8};

verus! {

// ---------------------------------------------------------------- answers

/// A plain answer tells the address that it holds, whatever blanks stand around
/// it; one that holds something else tells none.
pub proof fn plain_answers_hold_the_address(
    response: Seq<u8>,
    left: Seq<char>,
    text: Seq<char>,
    right: Seq<char>,
)
    requires
        valid_utf8(response),
        decode_utf8(response) == left + text + right,
        all_blank(left),
        solid(text),
        all_blank(right),
    ensures
        addr_of(text) matches Some(a) ==> ip_answer(response, IpResponseFormat::Plain) == Ok::<
            AddrModel,
            Seq<char>,
        >(a),
        addr_of(text) is None ==> ip_answer(response, IpResponseFormat::Plain) == Err::<
            AddrModel,
            Seq<char>,
        >("IP 服务返回了无效地址"@),
{
    trimming_removes_the_blanks_around(left, text, right);
}

/// A word: something without a blank.
pub open spec fn one_word(s: Seq<char>) -> bool {
    s.len() > 0 && forall|i: int| 0 <= i < s.len() ==> !blank(#[trigger] s[i])
}

proof fn lemma_leading_blanks(left: Seq<char>, s: Seq<char>)
    requires
        all_blank(left),
        s.len() > 0,
        !blank(s[0]),
    ensures
        trim_start(left + s) == s,
    decreases left.len(),
{
    let t = left + s;
    if left.len() > 0 {
        assert(t[0] == left[0]);
        assert(blank(left[0]));
        whitespace_is_blank(t[0]);
        assert(t.drop_first() =~= left.drop_first() + s);
        assert forall|i: int| 0 <= i < left.drop_first().len() implies blank(
            #[trigger] left.drop_first()[i],
        ) by {
            assert(blank(left[i + 1]));
        }
        lemma_leading_blanks(left.drop_first(), s);
    } else {
        assert(t =~= s);
        whitespace_is_blank(s[0]);
    }
}

proof fn lemma_word_end(word: Seq<char>, rest: Seq<char>)
    requires
        one_word(word),
        rest.len() > 0 ==> blank(rest[0]),
    ensures
        word_end(word + rest) == word.len(),
    decreases rest.len(),
{
    let s = word + rest;
    if rest.len() > 0 {
        lemma_word_end(word, rest.drop_last());
        assert(s.drop_last() =~= word + rest.drop_last());
        if rest.len() == 1 {
            assert(s.last() == rest[0]);
            whitespace_is_blank(s.last());
        }
    } else {
        assert(s =~= word);
        lemma_word_has_no_end(word);
    }
}

proof fn lemma_word_has_no_end(word: Seq<char>)
    requires
        forall|i: int| 0 <= i < word.len() ==> !blank(#[trigger] word[i]),
    ensures
        word_end(word) == word.len(),
    decreases word.len(),
{
    if word.len() > 0 {
        assert(!blank(word[word.len() - 1]));
        whitespace_is_blank(word.last());
        assert forall|i: int| 0 <= i < word.drop_last().len() implies !blank(
            #[trigger] word.drop_last()[i],
        ) by {
            assert(!blank(word[i]));
        }
        lemma_word_has_no_end(word.drop_last());
    }
}

/// The first words of an answer in Chinese, with a colon of either width.
pub open spec fn is_heading(s: Seq<char>) -> bool {
    s == seq!['当', '前', ' ', 'I', 'P', '：'] || s == seq!['当', '前', ' ', 'I', 'P', ':']
}

/// An answer in Chinese tells the address that stands as the first word behind
/// its heading, whatever follows, and whatever blanks stand around it all.
pub proof fn headed_answers_hold_the_address(
    response: Seq<u8>,
    before: Seq<char>,
    heading: Seq<char>,
    left: Seq<char>,
    word: Seq<char>,
    rest: Seq<char>,
    after: Seq<char>,
)
    requires
        valid_utf8(response),
        decode_utf8(response) == before + (heading + left + word + rest) + after,
        all_blank(before),
        is_heading(heading),
        all_blank(left),
        one_word(word),
        rest.len() > 0 ==> blank(rest[0]) && !blank(rest.last()),
        all_blank(after),
    ensures
        addr_of(word) matches Some(a) ==> ip_answer(response, IpResponseFormat::IpipText) == Ok::<
            AddrModel,
            Seq<char>,
        >(a),
        addr_of(word) is None ==> ip_answer(response, IpResponseFormat::IpipText) == Err::<
            AddrModel,
            Seq<char>,
        >("IP 服务返回了无效地址"@),
{
    let text = heading + left + word + rest;
    reveal_strlit("当前 IP：");
    reveal_strlit("当前 IP:");
    let wide = "当前 IP："@;
    let narrow = "当前 IP:"@;
    assert(wide =~= seq!['当', '前', ' ', 'I', 'P', '：']);
    assert(narrow =~= seq!['当', '前', ' ', 'I', 'P', ':']);
    assert(heading[0] == '当' && heading.len() == 6);
    assert(text[0] == '当');
    assert(!blank('当'));
    assert(!blank(word[word.len() - 1]));
    assert(text.last() == if rest.len() > 0 {
        rest.last()
    } else {
        word.last()
    });
    assert(solid(text));
    trimming_removes_the_blanks_around(before, text, after);
    assert(text.subrange(0, 6) =~= heading);
    assert(text[5] == heading[5]);
    if heading == narrow {
        assert(text.subrange(0, 6)[5] == ':');
        assert(wide[5] == '：');
        assert(!occurs_at(text, wide, 0));
    }
    let behind = text.skip(6);
    assert(behind =~= left + (word + rest));
    assert((word + rest)[0] == word[0]);
    lemma_leading_blanks(left, word + rest);
    lemma_word_end(word, rest);
    assert((word + rest).take(word.len() as int) =~= word);
    assert(address_text(text, IpResponseFormat::IpipText) == Some(word));
}

/// An answer in Chinese without the heading is of an unknown form.
pub proof fn answers_without_heading_are_unknown(
    response: Seq<u8>,
    left: Seq<char>,
    text: Seq<char>,
    right: Seq<char>,
)
    requires
        valid_utf8(response),
        decode_utf8(response) == left + text + right,
        all_blank(left),
        solid(text),
        all_blank(right),
        text.len() < 6 || !is_heading(text.take(6)),
    ensures
        ip_answer(response, IpResponseFormat::IpipText) == Err::<AddrModel, Seq<char>>(
            "IPIP 返回了未知格式"@,
        ),
{
    trimming_removes_the_blanks_around(left, text, right);
    reveal_strlit("当前 IP：");
    reveal_strlit("当前 IP:");
    let wide = "当前 IP："@;
    let narrow = "当前 IP:"@;
    assert(wide =~= seq!['当', '前', ' ', 'I', 'P', '：']);
    assert(narrow =~= seq!['当', '前', ' ', 'I', 'P', ':']);
    if text.len() >= 6 {
        assert(text.subrange(0, 6) =~= text.take(6));
    }
}

/// Our own address is shown exactly where it is one of version 4, some byte of
/// it is set, and it is not of this machine alone.
pub proof fn own_addresses_lead_outside(a: u8, b: u8, c: u8, d: u8, g: Seq<u16>)
    ensures
        is_local_address(AddrModel::V4(seq![a, b, c, d])) <==> a != 127 && a + b + c + d > 0,
        !is_local_address(AddrModel::V6(g)),
{
}

/// The report of a search that failed names every service with its failure.
pub proof fn failed_searches_name_every_service(
    failures: Seq<Seq<char>>,
    name: Seq<char>,
    detail: Seq<char>,
)
    ensures
        failure_entry(name, detail) == name + ": "@ + detail,
        all_failed(seq![name]) == "所有公网 IP 服务均不可用（"@ + name + "）"@,
        failures.len() > 0 ==> all_failed(failures.push(name)) == "所有公网 IP 服务均不可用（"@ + (
        join(failures, "；"@) + "；"@ + name) + "）"@,
        places_failed(name, detail) == "归属地服务均不可用（ipwho.is: "@ + name + "；IP.SB: "@
            + detail + "）"@,
{
    joining_goes_part_by_part(failures, name, "；"@);
}

// ---------------------------------------------------------------- places

/// A field says what stands in it without the blanks around; a blank or missing
/// one says nothing.
pub proof fn fields_say_what_stands_in_them(left: Seq<char>, core: Seq<char>, right: Seq<char>)
    requires
        all_blank(left),
        solid(core),
        all_blank(right),
    ensures
        meaningful(Some(left + core + right)) == Some(core),
        meaningful(Some(left)) is None,
        meaningful(None) is None,
{
    trimming_removes_the_blanks_around(left, core, right);
    only_blanks_are_trimmed_to_nothing(left);
}

/// A field that says something.
pub open spec fn says(value: Option<Seq<char>>, core: Seq<char>) -> bool {
    solid(core) && value == Some(core)
}

/// A field that says nothing.
pub open spec fn is_silent(value: Option<Seq<char>>) -> bool {
    match value {
        Some(s) => all_blank(s),
        None => true,
    }
}

proof fn lemma_says(value: Option<Seq<char>>, core: Seq<char>)
    ensures
        says(value, core) ==> meaningful(value) == Some(core),
        is_silent(value) ==> meaningful(value) is None,
{
    let none = Seq::<char>::empty();
    if says(value, core) {
        fields_say_what_stands_in_them(none, core, none);
        assert(none + core + none =~= core);
    }
    if let Some(s) = value {
        only_blanks_are_trimmed_to_nothing(s);
    }
}

/// A place keeps its country, region, city and network apart, and is worth
/// nothing where none of them says anything.
pub proof fn places_keep_their_fields_apart(
    country: Option<Seq<char>>,
    region: Option<Seq<char>>,
    city: Option<Seq<char>>,
    network: Option<Seq<char>>,
    core: Seq<char>,
)
    ensures
        ({
            let p = place_of(country, region, city, network);
            &&& says(country, core) ==> p.country == Some(core)
            &&& says(region, core) ==> p.region == Some(core)
            &&& says(city, core) ==> p.city == Some(core)
            &&& says(network, core) ==> p.network == Some(core)
            &&& is_silent(country) ==> p.country is None
            &&& is_silent(region) ==> p.region is None
            &&& is_silent(city) ==> p.city is None
            &&& is_silent(network) ==> p.network is None
            &&& is_silent(country) && is_silent(region) && is_silent(city) && is_silent(network)
                ==> place_is_empty(p)
            &&& says(country, core) || says(region, core) || says(city, core) || says(network, core)
                ==> !place_is_empty(p)
        }),
{
    lemma_says(country, core);
    lemma_says(region, core);
    lemma_says(city, core);
    lemma_says(network, core);
}

/// The first service's answer names the place by its own fields, and for a
/// network the provider, else the organisation.
pub proof fn first_service_names_the_provider(
    r: IpWhoisResponse,
    c: IpWhoisConnection,
    core: Seq<char>,
)
    requires
        r.connection == Some(c),
    ensures
        says(opt_view(r.country), core) ==> whois_place(r).country == Some(core),
        says(opt_view(r.region), core) ==> whois_place(r).region == Some(core),
        says(opt_view(r.city), core) ==> whois_place(r).city == Some(core),
        says(opt_view(c.isp), core) ==> whois_place(r).network == Some(core),
        is_silent(opt_view(c.isp)) && says(opt_view(c.org), core) ==> whois_place(r).network
            == Some(core),
        is_silent(opt_view(c.isp)) && is_silent(opt_view(c.org)) ==> whois_place(r).network is None,
        whois_network(None) is None,
{
    lemma_says(opt_view(r.country), core);
    lemma_says(opt_view(r.region), core);
    lemma_says(opt_view(r.city), core);
    lemma_says(opt_view(c.isp), core);
    lemma_says(opt_view(c.org), core);
    lemma_says(Some(core), core);
}

/// The second service's answer names the place by its own fields, and for a
/// network the provider, else the organisation, else the owner of the block.
pub proof fn second_service_names_the_provider(r: IpSbResponse, core: Seq<char>)
    ensures
        says(opt_view(r.country), core) ==> sb_place(r).country == Some(core),
        says(opt_view(r.region), core) ==> sb_place(r).region == Some(core),
        says(opt_view(r.city), core) ==> sb_place(r).city == Some(core),
        says(opt_view(r.isp), core) ==> sb_place(r).network == Some(core),
        is_silent(opt_view(r.isp)) && says(opt_view(r.organization), core) ==> sb_place(r).network
            == Some(core),
        is_silent(opt_view(r.isp)) && is_silent(opt_view(r.organization)) && says(
            opt_view(r.asn_organization),
            core,
        ) ==> sb_place(r).network == Some(core),
        is_silent(opt_view(r.isp)) && is_silent(opt_view(r.organization)) && is_silent(
            opt_view(r.asn_organization),
        ) ==> sb_place(r).network is None,
{
    lemma_says(opt_view(r.country), core);
    lemma_says(opt_view(r.region), core);
    lemma_says(opt_view(r.city), core);
    lemma_says(opt_view(r.isp), core);
    lemma_says(opt_view(r.organization), core);
    lemma_says(opt_view(r.asn_organization), core);
    lemma_says(Some(core), core);
    let three = seq![opt_view(r.isp), opt_view(r.organization), opt_view(r.asn_organization)];
    let two = three.drop_last();
    let one = two.drop_last();
    assert(two =~= seq![opt_view(r.isp), opt_view(r.organization)]);
    assert(one =~= seq![opt_view(r.isp)]);
    assert(one.drop_last() =~= Seq::<Option<Seq<char>>>::empty());
    reveal_with_fuel(first_of, 4);
    assert(first_of(one) == meaningful(opt_view(r.isp)));
}

// ---------------------------------------------------------------- the page

/// A part of a place is shown behind those before it, unless it is there
/// already; a missing one is not shown.
pub proof fn places_are_shown_part_by_part(
    parts: Seq<Seq<char>>,
    more: Seq<char>,
    country: Seq<char>,
    region: Seq<char>,
    city: Seq<char>,
    network: Seq<char>,
)
    ensures
        add_part(parts, None) == parts,
        parts.contains(more) ==> add_part(parts, Some(more)) == parts,
        !parts.contains(more) ==> add_part(parts, Some(more)) == parts.push(more),
        seq![country, region, city, network].no_duplicates() ==> place_parts(
            PlaceModel {
                country: Some(country),
                region: Some(region),
                city: Some(city),
                network: Some(network),
            },
        ) == seq![country, region, city, network],
{
    let all = seq![country, region, city, network];
    if all.no_duplicates() {
        assert(all[0] != all[1] && all[0] != all[2] && all[0] != all[3]);
        assert(all[1] != all[2] && all[1] != all[3] && all[2] != all[3]);
        let e = Seq::<Seq<char>>::empty();
        assert(e.push(country) =~= seq![country]);
        assert(e.push(country).push(region) =~= seq![country, region]);
        assert(e.push(country).push(region).push(city) =~= seq![country, region, city]);
        assert(e.push(country).push(region).push(city).push(network) =~= all);
    }
}

/// Times are shown in whole milliseconds, below one as less than one.
pub proof fn times_are_shown_in_milliseconds(ms: u128)
    ensures
        ms > 0 ==> latency_text(ms) == decimal(ms as nat) + " ms"@,
        latency_text(0) == "<1 ms"@,
        latency_line(LatencyState::Ready(ms)) == latency_text(ms),
        latency_line(LatencyState::Idle) == "等待检测"@,
        latency_line(LatencyState::Loading) == "检测中…"@,
{
    reveal_strlit("");
    assert(""@ + decimal(ms as nat) =~= decimal(ms as nat));
}

/// An error counts as a timeout exactly where it holds one of the two codes for
/// it, in letters of either case, or says so in English or Chinese; others are
/// failed connections.
pub proof fn timeouts_are_told_from_failures(error: Seq<char>)
    ensures
        ({
            let late = stands_in(error, "0x80072ee2"@) || stands_in(error, "0x00002ee2"@)
                || stands_in(error, "timed out"@) || written_in(error, "超时"@);
            &&& late ==> concise_error(error) == "超时"@
            &&& !late ==> concise_error(error) == "连接失败"@
        }),
{
    case_does_not_matter(error, "0x80072ee2"@);
    case_does_not_matter(error, "0x00002ee2"@);
    case_does_not_matter(error, "timed out"@);
    texts_hold_what_is_written_in_them(error, "超时"@);
    reveal_strlit("0x80072ee2");
    reveal_strlit("0x00002ee2");
    reveal_strlit("timed out");
    assert(ascii_lower_all("0x80072ee2"@) =~= "0x80072ee2"@);
    assert(ascii_lower_all("0x00002ee2"@) =~= "0x00002ee2"@);
    assert(ascii_lower_all("timed out"@) =~= "timed out"@);
}

/// A found address is shown; a place is sought for it exactly where it is not
/// our own, and what is found of the place leaves the address alone.
pub proof fn found_addresses_are_shown(
    kind: IpKind,
    result: IpLookup,
    place: IpLocationLookup,
    before: LookupState,
)
    ensures
        result matches IpLookup::Available(address) ==> {
            &&& address_state(kind, result) matches LookupState::Ready { address: shown, location }
                && shown == address && (kind == IpKind::Local ==> location is NotApplicable) && (kind
                != IpKind::Local ==> location is Loading)
            &&& place_sought(kind, result) == if kind == IpKind::Local {
                None
            } else {
                Some(address)
            }
        },
        result matches IpLookup::Unavailable(error) ==> address_state(kind, result)
            == LookupState::Failed(error) && place_sought(kind, result) is None,
        before matches LookupState::Ready { address, location } ==> (located_state(before, place)
            matches LookupState::Ready { address: kept, location: now } && kept == address && (place
            matches IpLocationLookup::Available(p) ==> now == LocationState::Ready(p)) && (place
            matches IpLocationLookup::Unavailable(e) ==> now == LocationState::Failed(e))),
        !(before is Ready) ==> located_state(before, place) == before,
{
}

/// What is awaited is an address, or the place of one that was found.
pub proof fn awaited_are_addresses_and_places(state: LookupState)
    ensures
        lookup_pending(state) <==> state is Loading || (state matches LookupState::Ready {
            address,
            location,
        } && location is Loading),
{
}

/// The page is busy exactly while some address, place or time is awaited.
pub proof fn pages_are_busy_while_something_is_awaited(view: IpView)
    ensures
        view.pending() <==> (exists|k: IpKind| lookup_pending(#[trigger] view.spec_state(k)))
            || exists|i: int|
            0 <= i < view.latencies@.len() && (#[trigger] view.latencies@[i]) is Loading,
{
    assert(view.spec_state(IpKind::Local) == view.local);
    assert(view.spec_state(IpKind::Direct) == view.direct);
    assert(view.spec_state(IpKind::Proxy) == view.proxy);
    if lookup_pending(view.local) {
        assert(lookup_pending(view.spec_state(IpKind::Local)));
    }
    if lookup_pending(view.direct) {
        assert(lookup_pending(view.spec_state(IpKind::Direct)));
    }
    if lookup_pending(view.proxy) {
        assert(lookup_pending(view.spec_state(IpKind::Proxy)));
    }
}

/// A round begins anew: everything is looked up, nothing counts as copied, and
/// the number of the round is the next.
pub proof fn rounds_begin_anew(after: IpView, before: IpView, kind: IpKind, i: int)
    requires
        after.round_begun(before),
        0 <= i < 8,
    ensures
        after.spec_state(kind) is Loading,
        after.latencies@.len() == 8,
        after.latencies@[i] is Loading,
        after.copied is None,
        after.loaded_once,
        before.generation < u64::MAX ==> after.generation == before.generation + 1,
        before.generation == u64::MAX ==> after.generation == 0,
{
}

/// Times that come in are shown, failures with their reason.
pub proof fn measured_times_are_shown(ms: u128, error: String)
    ensures
        latency_state(SiteLatencyLookup::Reachable(ms)) == LatencyState::Ready(ms),
        latency_state(SiteLatencyLookup::Unreachable(error)) == LatencyState::Failed(error),
        latency_line(LatencyState::Failed(error)) == "不可达 · "@ + concise_error(error@),
        location_line(LocationState::Failed(error)) == "归属地暂不可用 · "@ + error@,
        location_line(LocationState::Loading) == "归属地查询中…"@,
        location_line(LocationState::NotApplicable).len() == 0,
{
}

/// The places of kinds and sites are those in which they are listed.
pub proof fn states_stand_in_the_listed_places(view: IpView, i: int)
    requires
        0 <= i < 8,
    ensures
        spec_site_index(NetworkSite::ALL@[i]) == i,
        view.spec_state(IpKind::Local) == view.local,
        view.spec_state(IpKind::Direct) == view.direct,
        view.spec_state(IpKind::Proxy) == view.proxy,
        spec_kind_index(IpKind::Local) == 0,
        spec_kind_index(IpKind::Direct) == 1,
        spec_kind_index(IpKind::Proxy) == 2,
{
}

/// The proxy is said to work exactly where both addresses were found and differ.
pub proof fn working_proxies_change_the_address(view: IpView)
    ensures
        view.direct matches LookupState::Ready { address: direct, location: _ } && (view.proxy
            matches LookupState::Ready { address: proxy, location: _ } && direct@ != proxy@)
            ==> kind_detail(view, IpKind::Proxy) == "系统代理已生效"@,
        view.direct matches LookupState::Ready { address: direct, location: _ } && (view.proxy
            matches LookupState::Ready { address: proxy, location: _ } && direct@ == proxy@)
            ==> kind_detail(view, IpKind::Proxy) == "与直连出口一致"@,
        !(view.direct is Ready) || !(view.proxy is Ready) ==> kind_detail(view, IpKind::Proxy)
            == "系统代理出口"@,
{
}

/// Services have four seconds and sites three and a half, an address may take 512
/// bytes and a place 4096.
pub proof fn requests_are_bounded()
    ensures
        REQUEST_TIMEOUT_MS == 4_000,
        LATENCY_TIMEOUT_MS == 3_500,
        MAX_IP_RESPONSE_BYTES == 512,
        MAX_GEO_RESPONSE_BYTES == 4_096,
{
}

/// The addresses have titles.
pub proof fn addresses_have_titles()
    ensures
        kind_title(IpKind::Local) == "内网 IP"@,
        kind_title(IpKind::Direct) == "公网 IP"@,
        kind_title(IpKind::Proxy) == "代理出口 IP"@,
{
}

/// Every site has a name and a host, and both are those of the same site.
pub proof fn sites_have_a_name_and_a_host()
    ensures
        site_name(NetworkSite::Baidu) == "百度"@ && site_host(NetworkSite::Baidu)
            == "www.baidu.com"@,
        site_name(NetworkSite::NetEase) == "网易"@ && site_host(NetworkSite::NetEase)
            == "www.163.com"@,
        site_name(NetworkSite::Aliyun) == "阿里云"@ && site_host(NetworkSite::Aliyun)
            == "www.aliyun.com"@,
        site_name(NetworkSite::TencentCloud) == "腾讯云"@ && site_host(NetworkSite::TencentCloud)
            == "cloud.tencent.com"@,
        site_name(NetworkSite::GitHub) == "GitHub"@ && site_host(NetworkSite::GitHub)
            == "github.com"@,
        site_name(NetworkSite::Google) == "Google"@ && site_host(NetworkSite::Google)
            == "www.google.com"@,
        site_name(NetworkSite::YouTube) == "YouTube"@ && site_host(NetworkSite::YouTube)
            == "www.youtube.com"@,
        site_name(NetworkSite::Amazon) == "Amazon"@ && site_host(NetworkSite::Amazon)
            == "www.amazon.com"@,
{
}

/// The first four sites are inside the country, the others outside.
pub proof fn sites_are_inside_or_outside(i: int)
    requires
        0 <= i < 8,
    ensures
        i < 4 ==> site_scope(NetworkSite::ALL@[i]) == "境内"@,
        i >= 4 ==> site_scope(NetworkSite::ALL@[i]) == "境外"@,
{
}

} // verus!
