use serde_json::Value;
use wisp::ip::{
    direct_ip_endpoints, ensure_success_status, ip_sb_path, ipwhois_path, parse_ip_response,
    parse_ip_sb_location, parse_ip_text, parse_ipwhois_location, primary_local_ipv4,
    proxy_ip_endpoints, BoundedResponse, IpEndpoint, IpKind, IpLocation, IpLocationLookup, IpLookup,
    IpResponseFormat, IpRoute, IpSbResponse, IpSearch, IpService, IpWhoisConnection,
    IpWhoisResponse, NetworkSite, SearchStep, SiteLatencyLookup,
};
use wisp::ip_addr::IpAddr;
use wisp::ip_view::{
    concise_network_error, format_latency, format_location, kind_index, latency_card_text,
    location_text, place_to_ask, site_index, IpView, LatencyState, LocationState, LookupState, WorkerMessage,
    WorkerPayload,
};

fn text(value: &Value, key: &str) -> Option<String> {
    value.get(key).and_then(Value::as_str).map(str::to_owned)
}

fn whois(bytes: &[u8]) -> IpWhoisResponse {
    let value: Value = serde_json::from_slice(bytes).unwrap();
    let connection = value
        .get("connection")
        .filter(|c| c.is_object())
        .map(|c| IpWhoisConnection {
            isp: text(c, "isp"),
            org: text(c, "org"),
        });
    IpWhoisResponse {
        success: value.get("success").and_then(Value::as_bool).unwrap(),
        message: text(&value, "message"),
        country: text(&value, "country"),
        region: text(&value, "region"),
        city: text(&value, "city"),
        connection,
    }
}

fn ip_sb(bytes: &[u8]) -> IpSbResponse {
    let value: Value = serde_json::from_slice(bytes).unwrap();
    IpSbResponse {
        country: text(&value, "country"),
        region: text(&value, "region"),
        city: text(&value, "city"),
        isp: text(&value, "isp"),
        organization: text(&value, "organization"),
        asn_organization: text(&value, "asn_organization"),
        message: text(&value, "message"),
    }
}

fn place(country: &str) -> IpLocation {
    IpLocation {
        country: Some(country.into()),
        region: None,
        city: None,
        network: None,
    }
}

#[test]
fn ip_response_accepts_ipv4_ipv6_and_surrounding_whitespace() {
    let cases = [
        (&b"203.0.113.7"[..], "203.0.113.7"),
        (&b"  2001:db8::8\r\n"[..], "2001:db8::8"),
    ];

    for (input, expected) in cases {
        assert_eq!(
            parse_ip_response(input, IpResponseFormat::Plain)
                .unwrap()
                .to_text(),
            expected
        );
    }
}

#[test]
fn ip_response_accepts_the_documented_ipip_text_format() {
    let response = "当前 IP：203.0.113.7  来自于：中国 山东 济南".as_bytes();

    assert_eq!(
        parse_ip_response(response, IpResponseFormat::IpipText)
            .unwrap()
            .to_text(),
        "203.0.113.7"
    );
}

#[test]
fn ip_response_rejects_unknown_or_structured_content() {
    assert!(parse_ip_response(br#"{"ip":"203.0.113.7"}"#, IpResponseFormat::Plain).is_err());
    assert!(parse_ip_response(b"not-an-ip", IpResponseFormat::Plain).is_err());
    assert!(parse_ip_response(b"203.0.113.7", IpResponseFormat::IpipText).is_err());
}

#[test]
fn ipwhois_location_keeps_only_meaningful_fields() {
    let response = r#"{
        "success": true,
        "message": null,
        "country": "中国",
        "region": "山东省",
        "city": "济南市",
        "connection": { "isp": "  ", "org": "中国移动" }
    }"#
    .as_bytes();

    assert_eq!(
        parse_ipwhois_location(whois(response)).unwrap(),
        IpLocation {
            country: Some("中国".into()),
            region: Some("山东省".into()),
            city: Some("济南市".into()),
            network: Some("中国移动".into()),
        }
    );
}

#[test]
fn ipwhois_application_error_is_not_treated_as_a_location() {
    let response = br#"{
        "success": false,
        "message": "Reserved range",
        "country": null,
        "region": null,
        "city": null,
        "connection": null
    }"#;

    assert!(parse_ipwhois_location(whois(response))
        .unwrap_err()
        .to_string()
        .contains("Reserved range"));
}

#[test]
fn ip_sb_location_falls_back_to_the_asn_organization() {
    let response = br#"{
        "country": "Japan",
        "region": "Tokyo",
        "city": "Tokyo",
        "isp": null,
        "organization": null,
        "asn_organization": "Amazon.com, Inc.",
        "message": null
    }"#;

    assert_eq!(
        parse_ip_sb_location(ip_sb(response)).unwrap().network.as_deref(),
        Some("Amazon.com, Inc.")
    );
}

#[test]
fn network_site_catalog_is_balanced_and_unique() {
    let domestic = NetworkSite::ALL
        .iter()
        .filter(|site| site.scope() == "境内")
        .count();
    let hosts: std::collections::HashSet<_> = NetworkSite::ALL
        .iter()
        .map(|site| site.endpoint().0)
        .collect();

    assert_eq!(domestic, 4);
    assert_eq!(hosts.len(), NetworkSite::ALL.len());
}

/// Asks the services as the search says.
fn first_available_ip(
    endpoints: Vec<IpEndpoint>,
    mut request: impl FnMut(&IpEndpoint) -> Result<IpAddr, String>,
) -> IpLookup {
    let mut search = IpSearch::new(endpoints);
    let mut step = search.step();
    loop {
        match step {
            SearchStep::Ask(endpoint) => step = search.answer(request(&endpoint)),
            SearchStep::Done(lookup) => {
                assert!(search.endpoint().is_none());
                return lookup;
            }
        }
    }
}

#[test]
fn public_ip_falls_back_to_the_next_endpoint() {
    let mut attempts = Vec::new();
    let lookup = first_available_ip(direct_ip_endpoints(), |endpoint| {
        attempts.push(endpoint.name);
        match endpoint.name {
            "IPW" => Err("连接失败".to_string()),
            _ => Ok(IpAddr::parse("203.0.113.7").unwrap()),
        }
    });

    match lookup {
        IpLookup::Available(address) => assert_eq!(address.to_text(), "203.0.113.7"),
        IpLookup::Unavailable(error) => panic!("{error}"),
    }
    assert_eq!(attempts, ["IPW", "IPIP"]);
}

#[test]
fn search_ends_at_the_first_address() {
    let mut attempts = Vec::new();
    let address = IpAddr::parse("203.0.113.7").unwrap();
    let lookup = first_available_ip(proxy_ip_endpoints(), |endpoint| {
        attempts.push(endpoint.host);
        Ok(address)
    });
    assert_eq!(lookup, IpLookup::Available(address));
    assert_eq!(attempts, ["api4.ipify.org"]);
    assert_eq!(
        first_available_ip(Vec::new(), |_| Ok(address)),
        IpLookup::Unavailable("所有公网 IP 服务均不可用（）".to_string())
    );
}

#[test]
fn public_ip_preserves_every_endpoint_failure() {
    let lookup = first_available_ip(direct_ip_endpoints(), |endpoint| {
        Err(format!("{} 不可达", endpoint.host))
    });
    let error = match lookup {
        IpLookup::Available(_) => panic!("no service answered"),
        IpLookup::Unavailable(error) => error,
    };

    assert!(error.contains("IPW: 4.ipw.cn 不可达"));
    assert!(error.contains("IPIP: myip.ipip.net 不可达"));
    assert_eq!(
        error,
        "所有公网 IP 服务均不可用（IPW: 4.ipw.cn 不可达；IPIP: myip.ipip.net 不可达）"
    );
}

#[test]
fn ip_response_errors_say_what_is_wrong() {
    let not_text = parse_ip_response(&[0xff, 0xfe], IpResponseFormat::Plain).unwrap_err();
    assert!(not_text.starts_with("IP 服务响应不是 UTF-8: "));
    assert!(not_text.len() > "IP 服务响应不是 UTF-8: ".len());
    assert_eq!(
        parse_ip_text("not-an-ip", IpResponseFormat::Plain).unwrap_err(),
        "IP 服务返回了无效地址"
    );
    assert_eq!(
        parse_ip_text("203.0.113.7", IpResponseFormat::IpipText).unwrap_err(),
        "IPIP 返回了未知格式"
    );
    assert_eq!(
        parse_ip_text("当前 IP: 8.8.8.8 x", IpResponseFormat::IpipText)
            .unwrap()
            .to_text(),
        "8.8.8.8"
    );
}

#[test]
fn address_texts_are_read_and_written_in_their_short_form() {
    let accepted = [
        ("0.0.0.0", "0.0.0.0"),
        ("255.255.255.255", "255.255.255.255"),
        ("::", "::"),
        ("::1", "::1"),
        ("1::", "1::"),
        ("2001:db8::8", "2001:db8::8"),
        ("2001:DB8:0:0:0:0:0:8", "2001:db8::8"),
        ("::ffff:1.2.3.4", "::ffff:1.2.3.4"),
        ("1:2:3:4:5:6:7:8", "1:2:3:4:5:6:7:8"),
        ("1:2:3:4:5:6:1.2.3.4", "1:2:3:4:5:6:102:304"),
        ("::1.2.3.4", "::102:304"),
        ("fe80::1:0:0:2", "fe80::1:0:0:2"),
        ("1:0:0:2:0:0:0:3", "1:0:0:2::3"),
    ];
    for (s, short) in accepted {
        let ours = IpAddr::parse(s).unwrap();
        assert_eq!(ours.to_text(), short, "{s}");
        assert!(IpAddr::parse(&ours.to_text()).unwrap().same(&ours));
    }
    let refused = [
        "", "1.2.3", "1.2.3.4.5", "256.1.1.1", "01.2.3.4", "1.2.3.4 ", "1:2:3:4:5:6:7",
        "1:2:3:4:5:6:7:8:9", "1::2::3", "12345::", "g::", ":1", "1:", "1.2.3.4::", "::1%eth0",
        "1:2:3:4:5:6:7:1.2.3.4",
    ];
    for s in refused {
        assert!(IpAddr::parse(s).is_none(), "{s}");
    }
}

#[test]
fn only_usable_local_addresses_count() {
    let usable = IpAddr::parse("192.168.1.5").unwrap();
    assert_eq!(primary_local_ipv4(usable).unwrap(), usable);
    for s in ["0.0.0.0", "127.0.0.1", "127.9.9.9", "::1"] {
        assert_eq!(
            primary_local_ipv4(IpAddr::parse(s).unwrap()).unwrap_err(),
            "未找到可用的内网 IPv4"
        );
    }
}

#[test]
fn requests_name_the_address() {
    let v4 = IpAddr::parse("8.8.8.8").unwrap();
    assert_eq!(
        ipwhois_path(&v4),
        "/8.8.8.8?lang=zh-CN&fields=success,message,country,region,city,connection.isp,connection.org"
    );
    assert_eq!(ip_sb_path(&IpAddr::parse("::1").unwrap()), "/geoip/::1");
}

#[test]
fn only_success_codes_pass() {
    assert!(ensure_success_status(200).is_ok());
    assert!(ensure_success_status(299).is_ok());
    assert_eq!(ensure_success_status(199).unwrap_err(), "IP 服务返回 HTTP 199");
    assert_eq!(ensure_success_status(300).unwrap_err(), "IP 服务返回 HTTP 300");
}

#[test]
fn responses_are_bounded() {
    let mut response = BoundedResponse::new(4);
    assert_eq!(response.take(b"abc"), Ok(true));
    assert_eq!(response.take(b"d"), Ok(true));
    assert_eq!(response.take(b""), Ok(false));
    assert_eq!(response.bytes, b"abcd");
    assert_eq!(response.take(b"e").unwrap_err(), "网络服务响应超过 4 字节");
}

#[test]
fn each_kind_has_its_route() {
    assert!(matches!(IpService::lookup(IpKind::Local), IpRoute::Local));
    match IpService::lookup(IpKind::Direct) {
        IpRoute::Ask { proxied, search } => {
            assert!(!proxied);
            assert_eq!(search.endpoint().unwrap().host, "4.ipw.cn");
        }
        IpRoute::Local => panic!("expected services"),
    }
    match IpService::lookup(IpKind::Proxy) {
        IpRoute::Ask { proxied, search } => {
            assert!(proxied);
            assert_eq!(search.endpoint().unwrap().host, "api4.ipify.org");
        }
        IpRoute::Local => panic!("expected services"),
    }
    assert_eq!(proxy_ip_endpoints()[1].host, "checkip.amazonaws.com");
}

#[test]
fn places_fall_back_and_report_both_failures() {
    assert_eq!(
        IpService::locate(Ok(place("甲")), Err("x".into())),
        IpLocationLookup::Available(place("甲"))
    );
    assert_eq!(
        IpService::locate(Err("一".into()), Ok(place("乙"))),
        IpLocationLookup::Available(place("乙"))
    );
    assert_eq!(
        IpService::locate(Err("一".into()), Err("二".into())),
        IpLocationLookup::Unavailable("归属地服务均不可用（ipwho.is: 一；IP.SB: 二）".into())
    );
}

#[test]
fn empty_places_are_failures() {
    assert_eq!(
        IpLocation::from_parts(None, Some("  ".into()), None, None).unwrap_err(),
        "归属地服务未返回有效字段"
    );
    let mut empty = ip_sb(b"{}");
    assert_eq!(
        parse_ip_sb_location(empty.clone()).unwrap_err(),
        "IP.SB 查询失败: 未返回归属地: 归属地服务未返回有效字段"
    );
    empty.message = Some("限流".into());
    assert_eq!(
        parse_ip_sb_location(empty).unwrap_err(),
        "IP.SB 查询失败: 限流: 归属地服务未返回有效字段"
    );
    let refused = whois(br#"{"success": false}"#);
    assert_eq!(
        parse_ipwhois_location(refused).unwrap_err(),
        "ipwho.is 查询失败: 未知错误"
    );
}

#[test]
fn measured_sites_report_their_name_on_failure() {
    assert_eq!(
        IpService::measure(NetworkSite::GitHub, Ok(120)),
        SiteLatencyLookup::Reachable(120)
    );
    assert_eq!(
        IpService::measure(NetworkSite::Baidu, Err("超时".into())),
        SiteLatencyLookup::Unreachable("百度连接失败: 超时".into())
    );
}

#[test]
fn lookups_carry_their_result() {
    let address = IpAddr::parse("1.2.3.4").unwrap();
    assert_eq!(IpLookup::from_result(Ok(address)), IpLookup::Available(address));
    assert_eq!(
        IpLookup::from_result(Err("x".into())),
        IpLookup::Unavailable("x".into())
    );
}

#[test]
fn a_round_of_lookups_runs_to_its_end() {
    let mut view = IpView::new();
    assert!(!view.is_loading());
    let round = view.reload().unwrap();
    assert!(view.is_loading());
    assert_eq!(view.refresh(), None);
    let address = IpAddr::parse("1.2.3.4").unwrap();
    for kind in [IpKind::Local, IpKind::Direct, IpKind::Proxy] {
        assert!(view.apply(WorkerMessage {
            generation: round,
            payload: WorkerPayload::Address {
                kind,
                address: IpLookup::Available(address),
            },
        }));
    }
    assert!(matches!(
        view.state(IpKind::Local),
        LookupState::Ready { location: LocationState::NotApplicable, .. }
    ));
    for kind in [IpKind::Direct, IpKind::Proxy] {
        assert!(view.apply(WorkerMessage {
            generation: round,
            payload: WorkerPayload::Location {
                kind,
                location: IpLocationLookup::Available(place("甲")),
            },
        }));
    }
    assert!(view.is_loading());
    for site in NetworkSite::ALL {
        assert!(view.apply(WorkerMessage {
            generation: round,
            payload: WorkerPayload::Latency {
                site,
                latency: SiteLatencyLookup::Reachable(5),
            },
        }));
    }
    assert!(!view.is_loading());
    assert_eq!(view.reload(), None);
    let next = view.refresh().unwrap();
    assert_ne!(next, round);
    assert!(!view.apply(WorkerMessage {
        generation: round,
        payload: WorkerPayload::Latency {
            site: NetworkSite::Baidu,
            latency: SiteLatencyLookup::Reachable(5),
        },
    }));
}

#[test]
fn places_are_asked_for_public_addresses_only() {
    let address = IpAddr::parse("1.2.3.4").unwrap();
    let found = IpLookup::Available(address);
    assert_eq!(place_to_ask(IpKind::Local, &found), None);
    assert_eq!(place_to_ask(IpKind::Direct, &found), Some(address));
    assert_eq!(place_to_ask(IpKind::Proxy, &IpLookup::Unavailable("x".into())), None);
}

#[test]
fn places_and_latencies_are_shown_as_text() {
    let full = IpLocation {
        country: Some("中国".into()),
        region: Some("北京".into()),
        city: Some("北京".into()),
        network: Some("联通".into()),
    };
    assert_eq!(format_location(&full), "中国 · 北京 · 联通");
    assert_eq!(location_text(&LocationState::Ready(place("甲"))), "甲");
    assert_eq!(format_latency(0), "<1 ms");
    assert_eq!(format_latency(12), "12 ms");
    assert_eq!(latency_card_text(&LatencyState::Ready(12)), "12 ms");
    assert_eq!(latency_card_text(&LatencyState::Idle), "等待检测");
    assert_eq!(concise_network_error("操作超时"), "超时");
    assert_eq!(concise_network_error("0x80072EE2"), "超时");
    assert_eq!(concise_network_error("拒绝"), "连接失败");
    assert_eq!(
        latency_card_text(&LatencyState::Failed("拒绝".into())),
        "不可达 · 连接失败"
    );
    assert_eq!(kind_index(IpKind::Proxy), 2);
    assert_eq!(site_index(NetworkSite::ALL[5]), 5);
}
