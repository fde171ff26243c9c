use pig_core::fetch::{
    check_addresses, check_fetch_url, content_type, extract_text, fetch_output, host_text,
    is_private_host, is_private_ip, render_nodes, take_chunk, Fetch, Hop, Ip, PageKind, PageNode,
    UrlParts, MAX_FETCH_BODY,
};

fn v6(head: [u8; 2], last: u8) -> Ip {
    let mut b = [0u8; 16];
    b[0] = head[0];
    b[1] = head[1];
    b[15] = last;
    Ip::V6(b)
}

#[test]
fn private_addresses_are_known() {
    for b in [
        [0, 0, 0, 0], [127, 0, 0, 1], [10, 1, 2, 3], [172, 16, 0, 1], [172, 31, 255, 255],
        [192, 168, 1, 1], [169, 254, 0, 1], [192, 0, 2, 1], [198, 51, 100, 9], [203, 0, 113, 7],
        [100, 64, 0, 1], [100, 127, 0, 1], [198, 18, 0, 1], [198, 19, 0, 1], [224, 0, 0, 1],
        [239, 0, 0, 1],
    ] {
        assert!(is_private_ip(&Ip::V4(b)), "{b:?}");
    }
    for b in [
        [8, 8, 8, 8], [172, 15, 0, 1], [172, 32, 0, 1], [100, 63, 0, 1], [100, 128, 0, 1],
        [198, 20, 0, 1], [0, 0, 0, 1], [240, 0, 0, 1],
    ] {
        assert!(!is_private_ip(&Ip::V4(b)), "{b:?}");
    }
    for ip in [
        v6([0, 0], 0), v6([0, 0], 1), v6([0xFC, 0], 1), v6([0xFD, 9], 1), v6([0xFE, 0x80], 1),
        v6([0xFE, 0xBF], 1), v6([0xFF, 2], 1),
    ] {
        assert!(is_private_ip(&ip), "{ip:?}");
    }
    for ip in [v6([0, 0], 2), v6([0x20, 1], 1), v6([0xFE, 0xC0], 1)] {
        assert!(!is_private_ip(&ip), "{ip:?}");
    }
}

#[test]
fn private_hosts_are_known() {
    assert_eq!(host_text("[::1]"), "::1");
    assert_eq!(host_text("Example.COM."), "example.com");
    for h in ["localhost", "LOCALHOST.", "a.localhost", "intranet"] {
        assert!(is_private_host(h, None), "{h}");
    }
    assert!(!is_private_host("example.com", None));
    assert!(is_private_host("127.0.0.1", Some(Ip::V4([127, 0, 0, 1]))));
    assert!(!is_private_host("8.8.8.8", Some(Ip::V4([8, 8, 8, 8]))));
}

#[test]
fn urls_are_checked_before_they_are_fetched() {
    let url = |t: &str| Fetch::new(t).unwrap().url;
    assert!(check_fetch_url(&url("https://example.com/a"), None).is_ok());
    assert_eq!(
        check_fetch_url(&url("ftp://example.com"), None),
        Err("仅支持 http/https URL（收到 ftp:）".to_string())
    );
    assert_eq!(
        check_fetch_url(&url("http://u:p@example.com"), None),
        Err("URL 不允许内嵌凭据".to_string())
    );
    assert_eq!(
        check_fetch_url(&url("http://localhost:80/"), None),
        Err("不允许访问本机/私网地址: localhost".to_string())
    );
    let none = UrlParts {
        text: String::new(),
        scheme: "http".to_string(),
        username: String::new(),
        has_password: false,
        host: None,
        port: None,
    };
    assert_eq!(check_fetch_url(&none, None), Err("URL 缺少主机名".to_string()));
    assert!(Fetch::new("no url").unwrap_err().starts_with("URL 无效: "));
    assert_eq!(url("https://example.com").port, Some(443));
}

#[test]
fn every_address_of_a_name_must_be_public() {
    let good = [Ip::V4([8, 8, 8, 8]), Ip::V4([1, 1, 1, 1])];
    assert!(check_addresses("h", Some(&good)).is_ok());
    let mixed = [Ip::V4([8, 8, 8, 8]), Ip::V4([10, 0, 0, 1])];
    assert_eq!(
        check_addresses("h", Some(&mixed)),
        Err("域名解析到私网/保留地址，已拒绝: h".to_string())
    );
    assert_eq!(check_addresses("h", Some(&[])), Err("DNS 解析失败: h".to_string()));
    assert_eq!(check_addresses("h", None), Err("DNS 解析失败: h".to_string()));
}

#[test]
fn pages_send_on_a_few_times() {
    let mut f = Fetch::new("https://example.com/a/b").unwrap();
    assert_eq!(f.answer(false, Some("x")), Ok(Hop::Arrived));
    assert_eq!(f.answer(true, None), Ok(Hop::Arrived));
    assert_eq!(f.answer(true, Some("../c")), Ok(Hop::Follow));
    assert_eq!(f.url.text, "https://example.com/c");
    for _ in 0..4 {
        assert_eq!(f.answer(true, Some("d")), Ok(Hop::Follow));
    }
    assert_eq!(f.answer(true, Some("d")), Err("重定向次数过多".to_string()));
    let mut f = Fetch::new("https://example.com/").unwrap();
    assert!(f.answer(true, Some("http://[")).unwrap_err().starts_with("重定向 URL 无效: "));
}

#[test]
fn the_text_of_a_page_is_tidy() {
    let html = "<html><body><nav>menu</nav><main><h1> Title </h1><script>x()</script>\
                <p>one   two<br>three</p><p>four</p></main></body></html>";
    assert_eq!(extract_text(html), "Title\none two\nthree\nfour");
    assert_eq!(extract_text("<body><div>a</div>b<style>c</style></body>"), "a\nb");
    assert_eq!(extract_text("<article>art</article><p>rest</p>"), "art");
}

#[test]
fn nodes_are_read_in_order() {
    let node = |depth: usize, kind: PageKind| PageNode { depth, kind };
    let e = |n: &str| PageKind::Element(n.to_string());
    let t = |s: &str| PageKind::Text(s.to_string());
    let v = vec![
        node(1, e("body")),
        node(2, e("p")),
        node(3, t("a")),
        node(2, e("svg")),
        node(3, t("hidden")),
        node(2, t("b ")),
        node(2, e("b")),
        node(3, t(" c")),
        node(2, PageKind::Other),
        node(2, t("  ")),
    ];
    assert_eq!(render_nodes(&v), "a\nb c");
}

#[test]
fn answers_are_read_by_their_type() {
    assert_eq!(content_type(Some("Text/HTML; charset=utf-8")), "text/html");
    assert_eq!(content_type(None), "");
    assert_eq!(fetch_output("text/plain", b"hi"), Ok("hi".to_string()));
    assert_eq!(fetch_output("text/plain", b""), Ok("（页面无可提取文本）".to_string()));
    assert_eq!(fetch_output("text/html", b"<body>x</body>"), Ok("x".to_string()));
    assert!(fetch_output("", b"").unwrap_err().contains("Content-Type"));
    assert_eq!(fetch_output("image/png", b""), Err("不支持的内容类型: image/png".to_string()));
    let long = "z".repeat(50_001);
    let out = fetch_output("application/json", long.as_bytes()).unwrap();
    assert!(out.ends_with("\n\n（已截断，仅显示前 50000 字符）"));
    assert_eq!(fetch_output("text/plain", &[0xFF]), Ok("\u{FFFD}".to_string()));
}

#[test]
fn a_page_is_read_up_to_a_limit() {
    let mut body = vec![];
    assert!(!take_chunk(&mut body, b"abc"));
    assert_eq!(body, b"abc");
    let big = vec![7u8; MAX_FETCH_BODY];
    assert!(take_chunk(&mut body, &big));
    assert_eq!(body.len(), MAX_FETCH_BODY);
}
