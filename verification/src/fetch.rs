//! The tool that fetches web pages: which addresses it may go to, and what of
//! a page the model sees.

use crate::chars::{
    all_solid, ascii_lower, cat, cat3, chars_of, contains, cut, ends_with, finishes, has_char, join, joined,
    lines, lines_of, lowered, opt_text, push_all, push_text, reads, rows, split_once, solid, str_eq,
    string_of, text_from, trim, trim_end_char, trimmed, without_end, words, words_of,
};
use crate::lossy::{lossy_of, lossy_text};
use vstd::prelude::*;
use vstd::slice::slice_subrange;

verus! {

/// How much of a page is read.
pub const MAX_FETCH_BODY: usize = 2_097_152;

/// How many characters of a page the model sees.
pub const MAX_FETCH_OUTPUT: usize = 50_000;

/// How often a page may send on to another.
pub const MAX_REDIRECTS: u32 = 5;

// ---------------------------------------------------------------------------
// Addresses
// ---------------------------------------------------------------------------

/// An address of the network.
#[derive(Clone, Copy, Debug, PartialEq, Eq)]
pub enum Ip {
    V4([u8; 4]),
    V6([u8; 16]),
}

/// Whether an address of four bytes is not public: unspecified, of the machine
/// itself, private, local to the link, for documentation, shared, for
/// measurements or for groups.
pub open spec fn is_private_v4(b: Seq<u8>) -> bool {
    ||| b == seq![0u8, 0, 0, 0]
    ||| b[0] == 127
    ||| b[0] == 10
    ||| b[0] == 172 && 16 <= b[1] <= 31
    ||| b[0] == 192 && b[1] == 168
    ||| b[0] == 169 && b[1] == 254
    ||| b[0] == 192 && b[1] == 0 && b[2] == 2
    ||| b[0] == 198 && b[1] == 51 && b[2] == 100
    ||| b[0] == 203 && b[1] == 0 && b[2] == 113
    ||| b[0] == 100 && 64 <= b[1] <= 127
    ||| b[0] == 198 && (b[1] == 18 || b[1] == 19)
    ||| 224 <= b[0] <= 239
}

/// Whether all bytes before the last are zero.
pub open spec fn leads_with_zeros(b: Seq<u8>) -> bool {
    forall|i: int| 0 <= i < 15 ==> b[i] == 0
}

/// Whether an address of sixteen bytes is not public: unspecified, of the
/// machine itself, local to a site or to the link, or for groups.
pub open spec fn is_private_v6(b: Seq<u8>) -> bool {
    ||| leads_with_zeros(b) && b[15] <= 1
    ||| b[0] == 0xFC || b[0] == 0xFD
    ||| b[0] == 0xFE && 0x80 <= b[1] <= 0xBF
    ||| b[0] == 0xFF
}

/// Whether an address is not public.
pub open spec fn is_private(ip: Ip) -> bool {
    match ip {
        Ip::V4(b) => is_private_v4(b@),
        Ip::V6(b) => is_private_v6(b@),
    }
}

/// Whether an address is not public.
pub fn is_private_ip(ip: &Ip) -> (r: bool)
    ensures
        r == is_private(*ip),
{
    match ip {
        Ip::V4(b) => {
            let (p, q, s) = (b[0], b[1], b[2]);
            let nothing = p == 0 && q == 0 && s == 0 && b[3] == 0;
            proof {
                if nothing {
                    assert(b@ =~= seq![0u8, 0, 0, 0]);
                }
            }
            nothing || p == 127 || p == 10 || (p == 172 && q >= 16 && q <= 31) || (p == 192 && q
                == 168) || (p == 169 && q == 254) || (p == 192 && q == 0 && s == 2) || (p == 198
                && q == 51 && s == 100) || (p == 203 && q == 0 && s == 113) || (p == 100 && q >= 64
                && q <= 127) || (p == 198 && (q == 18 || q == 19)) || (p >= 224 && p <= 239)
        },
        Ip::V6(b) => {
            let mut zeros = true;
            for i in 0..15
                invariant
                    zeros == (forall|k: int| 0 <= k < i ==> b@[k] == 0),
            {
                if b[i] != 0 {
                    zeros = false;
                }
            }
            (zeros && b[15] <= 1) || b[0] == 0xFC || b[0] == 0xFD || (b[0] == 0xFE && b[1] >= 0x80
                && b[1] <= 0xBF) || b[0] == 0xFF
        },
    }
}

/// A text without a character at its start.
pub open spec fn trim_start_char(s: Seq<char>, c: char) -> Seq<char>
    decreases s.len(),
{
    if s.len() > 0 && s[0] == c {
        trim_start_char(s.skip(1), c)
    } else {
        s
    }
}

/// A host in small letters, without brackets and the dot at its end.
pub open spec fn plain_host(host: Seq<char>) -> Seq<char> {
    ascii_lower(
        trim_end_char(trim_end_char(trim_start_char(host, '['), ']'), '.'),
    )
}

fn without_start(s: &[char], c: char) -> (r: &[char])
    ensures
        r@ == trim_start_char(s@, c),
{
    let mut i: usize = 0;
    proof {
        assert(s@.skip(0) =~= s@);
    }
    while i < s.len() && s[i] == c
        invariant
            i <= s@.len(),
            trim_start_char(s@, c) == trim_start_char(s@.skip(i as int), c),
        decreases s@.len() - i,
    {
        proof {
            assert(s@.skip(i as int)[0] == s@[i as int]);
            assert(s@.skip(i as int).skip(1) =~= s@.skip(i as int + 1));
        }
        i = i + 1;
    }
    let r = slice_subrange(s, i, s.len());
    proof {
        assert(r@ =~= s@.skip(i as int));
        if i < s@.len() {
            assert(r@[0] == s@[i as int]);
        }
    }
    r
}

/// Brings a host into its plain form.
pub fn host_text(host: &str) -> (r: String)
    ensures
        r@ == plain_host(host@),
{
    let h = chars_of(host);
    let a = without_start(h.as_slice(), '[');
    let b = without_end(a, ']');
    let c = without_end(b, '.');
    string_of(lowered(c).as_slice())
}

/// Whether a host is not public. `literal` is the address that its plain form
/// writes, if it writes one; a name is not public where it is the machine's
/// own or has a single part.
pub open spec fn is_inner_host(host: Seq<char>, literal: Option<Ip>) -> bool {
    match literal {
        Some(ip) => is_private(ip),
        None => {
            let h = plain_host(host);
            h == "localhost"@ || ends_with(h, ".localhost"@) || !h.contains('.')
        },
    }
}

/// Whether a host is not public.
pub fn is_private_host(host: &str, literal: Option<Ip>) -> (r: bool)
    ensures
        r == is_inner_host(host@, literal),
{
    match literal {
        Some(ip) => is_private_ip(&ip),
        None => {
            let h = chars_of(host_text(host).as_str());
            reads(h.as_slice(), "localhost") || finishes(h.as_slice(), ".localhost") || !has_char(
                h.as_slice(),
                '.',
            )
        },
    }
}

// ---------------------------------------------------------------------------
// URLs
// ---------------------------------------------------------------------------

/// A URL taken apart.
#[derive(Debug, PartialEq)]
pub struct UrlParts {
    /// The whole URL in its normal form.
    pub text: String,
    pub scheme: String,
    pub username: String,
    pub has_password: bool,
    pub host: Option<String>,
    /// The port that is given or that the scheme implies.
    pub port: Option<u16>,
}

/// What a `UrlParts` says.
#[verifier::ext_equal]
pub struct UrlPartsV {
    pub text: Seq<char>,
    pub scheme: Seq<char>,
    pub username: Seq<char>,
    pub has_password: bool,
    pub host: Option<Seq<char>>,
    pub port: Option<u16>,
}

impl View for UrlParts {
    type V = UrlPartsV;

    open spec fn view(&self) -> UrlPartsV {
        UrlPartsV {
            text: self.text@,
            scheme: self.scheme@,
            username: self.username@,
            has_password: self.has_password,
            host: opt_text(self.host),
            port: self.port,
        }
    }
}

/// The parts of a URL as `reqwest::Url::parse` reads it, or the message of its
/// error.
pub uninterp spec fn url_parts(text: Seq<char>) -> Result<UrlPartsV, Seq<char>>;

/// Calls `reqwest::Url::parse` and asks for the parts of the URL. They depend
/// on the text alone and are named `url_parts`.
#[verifier::external_body]
fn take_url_apart(text: &str) -> (r: Result<UrlParts, String>)
    ensures
        match r {
            Ok(u) => url_parts(text@) == Ok::<UrlPartsV, Seq<char>>(u@),
            Err(e) => url_parts(text@) == Err::<UrlPartsV, Seq<char>>(e@),
        },
{
    let url = reqwest::Url::parse(text).map_err(|e| e.to_string())?;
    Ok(
        UrlParts {
            text: url.as_str().to_owned(),
            scheme: url.scheme().to_owned(),
            username: url.username().to_owned(),
            has_password: url.password().is_some(),
            host: url.host_str().map(|h| h.to_owned()),
            port: url.port_or_known_default(),
        },
    )
}

/// The URL that `reqwest::Url::join` makes of a URL and a reference in it, or
/// the message of the error.
pub uninterp spec fn url_joined(base: Seq<char>, reference: Seq<char>) -> Result<
    Seq<char>,
    Seq<char>,
>;

/// Calls `reqwest::Url::join` on the URL `base`. What it gives depends on the
/// two texts alone and is named `url_joined`.
#[verifier::external_body]
fn join_url(base: &str, reference: &str) -> (r: Result<String, String>)
    ensures
        match r {
            Ok(u) => url_joined(base@, reference@) == Ok::<Seq<char>, Seq<char>>(u@),
            Err(e) => url_joined(base@, reference@) == Err::<Seq<char>, Seq<char>>(e@),
        },
{
    let url = reqwest::Url::parse(base).map_err(|e| e.to_string())?;
    url.join(reference).map(|u| u.as_str().to_owned()).map_err(|e| e.to_string())
}

/// Why a URL may not be fetched; none where it may, going by its text.
pub open spec fn url_fault(u: UrlPartsV, literal: Option<Ip>) -> Option<Seq<char>> {
    if u.scheme != "http"@ && u.scheme != "https"@ {
        Some("仅支持 http/https URL（收到 "@ + u.scheme + ":）"@)
    } else if u.username.len() > 0 || u.has_password {
        Some("URL 不允许内嵌凭据"@)
    } else {
        match u.host {
            None => Some("URL 缺少主机名"@),
            Some(h) => if is_inner_host(h, literal) {
                Some("不允许访问本机/私网地址: "@ + h)
            } else {
                None
            },
        }
    }
}

/// Checks that a URL may be fetched, going by its text. `literal` is the
/// address that the host's plain form writes, if it writes one.
pub fn check_fetch_url(u: &UrlParts, literal: Option<Ip>) -> (r: Result<(), String>)
    ensures
        match r {
            Ok(_) => url_fault(u@, literal) is None,
            Err(e) => url_fault(u@, literal) == Some(e@),
        },
{
    let scheme = u.scheme.as_str();
    if !str_eq(scheme, "http") && !str_eq(scheme, "https") {
        return Err(cat3("仅支持 http/https URL（收到 ", scheme, ":）"));
    }
    if chars_of(u.username.as_str()).len() > 0 || u.has_password {
        return Err(text_from("URL 不允许内嵌凭据"));
    }
    match &u.host {
        None => Err(text_from("URL 缺少主机名")),
        Some(h) => {
            if is_private_host(h.as_str(), literal) {
                Err(cat("不允许访问本机/私网地址: ", h.as_str()))
            } else {
                Ok(())
            }
        },
    }
}

/// Why the addresses that a name stands for may not be gone to; none where
/// they may. No addresses mean that the name is not known.
pub open spec fn lookup_fault(host: Seq<char>, found: Option<Seq<Ip>>) -> Option<Seq<char>> {
    match found {
        None => Some("DNS 解析失败: "@ + host),
        Some(v) => if v.len() == 0 {
            Some("DNS 解析失败: "@ + host)
        } else if exists|i: int| 0 <= i < v.len() && is_private(#[trigger] v[i]) {
            Some("域名解析到私网/保留地址，已拒绝: "@ + host)
        } else {
            None
        },
    }
}

/// What a list of addresses says.
pub open spec fn ips(v: Option<&[Ip]>) -> Option<Seq<Ip>> {
    match v {
        Some(l) => Some(l@),
        None => None,
    }
}

/// Checks the addresses that a name stands for: every one of them must be
/// public.
pub fn check_addresses(host: &str, found: Option<&[Ip]>) -> (r: Result<(), String>)
    ensures
        match r {
            Ok(_) => lookup_fault(host@, ips(found)) is None,
            Err(e) => lookup_fault(host@, ips(found)) == Some(e@),
        },
{
    match found {
        None => Err(cat("DNS 解析失败: ", host)),
        Some(v) => {
            if v.len() == 0 {
                return Err(cat("DNS 解析失败: ", host));
            }
            let mut i: usize = 0;
            while i < v.len()
                invariant
                    found == Some(v),
                    i <= v@.len(),
                    v@.len() > 0,
                    forall|k: int| 0 <= k < i ==> !is_private(#[trigger] v@[k]),
                decreases v@.len() - i,
            {
                if is_private_ip(&v[i]) {
                    proof {
                        assert(is_private(v@[i as int]));
                    }
                    return Err(cat("域名解析到私网/保留地址，已拒绝: ", host));
                }
                i = i + 1;
            }
            Ok(())
        },
    }
}

// ---------------------------------------------------------------------------
// Going from page to page
// ---------------------------------------------------------------------------

/// A fetch on its way.
#[derive(Debug)]
pub struct Fetch {
    /// Where it is.
    pub url: UrlParts,
    /// How often it was sent on.
    pub hops: u32,
}

/// What is done with an answer.
#[derive(Debug, PartialEq)]
pub enum Hop {
    /// It is the page.
    Arrived,
    /// The page lies elsewhere.
    Follow,
}

impl Fetch {
    /// Begins a fetch.
    pub fn new(url: &str) -> (r: Result<Fetch, String>)
        ensures
            match url_parts(url@) {
                Err(e) => r is Err && r->Err_0@ == "URL 无效: "@ + e,
                Ok(u) => r is Ok && r->Ok_0.url@ == u && r->Ok_0.hops == 0,
            },
    {
        match take_url_apart(url) {
            Err(e) => Err(cat("URL 无效: ", e.as_str())),
            Ok(u) => Ok(Fetch { url: u, hops: 0 }),
        }
    }

    /// Takes an answer. `redirect` says whether it sends on, and `location`
    /// whereto.
    pub fn answer(&mut self, redirect: bool, location: Option<&str>) -> (r: Result<Hop, String>)
        requires
            old(self).hops <= MAX_REDIRECTS,
        ensures
            final(self).hops <= MAX_REDIRECTS || r is Err,
            if !redirect || location is None {
                r == Ok::<Hop, String>(Hop::Arrived) && *final(self) == *old(self)
            } else if old(self).hops == MAX_REDIRECTS {
                r is Err && r->Err_0@ == "重定向次数过多"@
            } else {
                match url_joined(old(self).url@.text, location->0@) {
                    Err(e) => r is Err && r->Err_0@ == "重定向 URL 无效: "@ + e,
                    Ok(t) => match url_parts(t) {
                        Err(e) => r is Err && r->Err_0@ == "重定向 URL 无效: "@ + e,
                        Ok(u) => r == Ok::<Hop, String>(Hop::Follow) && final(self).url@ == u
                            && final(self).hops == old(self).hops + 1,
                    },
                }
            },
    {
        if !redirect {
            return Ok(Hop::Arrived);
        }
        let to = match location {
            None => return Ok(Hop::Arrived),
            Some(l) => l,
        };
        self.hops = self.hops + 1;
        if self.hops > MAX_REDIRECTS {
            return Err(text_from("重定向次数过多"));
        }
        let next = match join_url(self.url.text.as_str(), to) {
            Err(e) => return Err(cat("重定向 URL 无效: ", e.as_str())),
            Ok(t) => t,
        };
        match take_url_apart(next.as_str()) {
            Err(e) => Err(cat("重定向 URL 无效: ", e.as_str())),
            Ok(u) => {
                self.url = u;
                Ok(Hop::Follow)
            },
        }
    }
}

/// The content type that a header names, without parameters and in small
/// letters.
pub open spec fn content_type_of(header: Option<Seq<char>>) -> Seq<char> {
    match header {
        None => Seq::empty(),
        Some(h) => ascii_lower(
            trim(
                match split_once(h, ';') {
                    Some((a, _)) => a,
                    None => h,
                },
            ),
        ),
    }
}

/// Reads the content type out of a header.
pub fn content_type(header: Option<&str>) -> (r: String)
    ensures
        r@ == content_type_of(crate::prompt::opt_view(header)),
{
    match header {
        None => {
            let r = String::new();
            proof {
                assert(r@ =~= Seq::<char>::empty());
            }
            r
        },
        Some(h) => {
            let v = chars_of(h);
            let head = match cut(v.as_slice(), ';') {
                Some(p) => p.0,
                None => v.as_slice(),
            };
            string_of(lowered(trimmed(head)).as_slice())
        },
    }
}

/// Takes a piece of a page. Says whether enough was read; what exceeds the
/// limit is left out.
pub fn take_chunk(body: &mut Vec<u8>, chunk: &[u8]) -> (r: bool)
    requires
        old(body)@.len() <= MAX_FETCH_BODY,
    ensures
        final(body)@.len() <= MAX_FETCH_BODY,
        r == (old(body)@.len() + chunk@.len() > MAX_FETCH_BODY),
        final(body)@ == if r {
            (old(body)@ + chunk@).take(MAX_FETCH_BODY as int)
        } else {
            old(body)@ + chunk@
        },
{
    let ghost before = body@;
    let left: usize = MAX_FETCH_BODY - body.len();
    let n: usize = if chunk.len() > left {
        left
    } else {
        chunk.len()
    };
    for i in 0..n
        invariant
            n <= chunk@.len(),
            body@ == before + chunk@.take(i as int),
    {
        body.push(chunk[i]);
        proof {
            assert(body@ =~= before + chunk@.take(i as int + 1));
        }
    }
    proof {
        if chunk@.len() > left {
            assert(body@ =~= (before + chunk@).take(MAX_FETCH_BODY as int));
        } else {
            assert(chunk@.take(n as int) =~= chunk@);
        }
    }
    chunk.len() > left
}

// ---------------------------------------------------------------------------
// The text of a page
// ---------------------------------------------------------------------------

/// A node of a page.
#[derive(Debug, PartialEq)]
pub enum PageKind {
    Text(String),
    /// An element, by its name.
    Element(String),
    Other,
}

/// A node of a page with its depth in the page's tree.
#[derive(Debug, PartialEq)]
pub struct PageNode {
    pub depth: usize,
    pub kind: PageKind,
}

/// What a `PageKind` says.
#[verifier::ext_equal]
pub enum PageKindV {
    Text(Seq<char>),
    Element(Seq<char>),
    Other,
}

/// What a `PageNode` says.
#[verifier::ext_equal]
pub struct PageNodeV {
    pub depth: usize,
    pub kind: PageKindV,
}

impl View for PageNode {
    type V = PageNodeV;

    open spec fn view(&self) -> PageNodeV {
        PageNodeV {
            depth: self.depth,
            kind: match self.kind {
                PageKind::Text(t) => PageKindV::Text(t@),
                PageKind::Element(n) => PageKindV::Element(n@),
                PageKind::Other => PageKindV::Other,
            },
        }
    }
}

/// What a list of nodes says.
pub open spec fn nodes_say(v: Seq<PageNode>) -> Seq<PageNodeV> {
    v.map_values(|n: PageNode| n@)
}

/// The nodes of the first element that a selector finds in a page, the element
/// first and every node before those inside it; none where it finds nothing.
pub uninterp spec fn page_nodes(html: Seq<char>, selector: Seq<char>) -> Option<Seq<PageNodeV>>;

/// Calls `scraper::Html::parse_document` and `select`, and lists the
/// `descendants` of the first element, each with the number of its ancestors.
/// The list depends on the two texts alone and is named `page_nodes`.
#[verifier::external_body]
fn select_nodes(html: &str, selector: &str) -> (r: Option<Vec<PageNode>>)
    ensures
        match r {
            Some(v) => page_nodes(html@, selector@) == Some(nodes_say(v@)),
            None => page_nodes(html@, selector@) is None,
        },
{
    let document = scraper::Html::parse_document(html);
    let selector = scraper::Selector::parse(selector).ok()?;
    let kind = |node: &scraper::Node| match node {
        scraper::Node::Text(t) => PageKind::Text(t.text.to_string()),
        scraper::Node::Element(e) => PageKind::Element(e.name().to_owned()),
        _ => PageKind::Other,
    };
    document.select(&selector).next().map(
        |root| root.descendants().map(
            |n| PageNode { depth: n.ancestors().count(), kind: kind(n.value()) },
        ).collect(),
    )
}

/// Whether an element and all that is in it are left out.
pub open spec fn is_left_out(name: Seq<char>) -> bool {
    name == "script"@ || name == "style"@ || name == "noscript"@ || name == "svg"@ || name
        == "template"@
}

/// Whether an element stands on lines of its own.
pub open spec fn is_block(n: Seq<char>) -> bool {
    n == "address"@ || n == "article"@ || n == "aside"@ || n == "blockquote"@ || n == "br"@ || n
        == "dd"@ || n == "details"@ || n == "div"@ || n == "dl"@ || n == "dt"@ || n == "fieldset"@
        || n == "figcaption"@ || n == "figure"@ || n == "footer"@ || n == "form"@ || n == "h1"@ || n
        == "h2"@ || n == "h3"@ || n == "h4"@ || n == "h5"@ || n == "h6"@ || n == "header"@ || n
        == "hr"@ || n == "li"@ || n == "main"@ || n == "nav"@ || n == "ol"@ || n == "p"@ || n
        == "pre"@ || n == "section"@ || n == "table"@ || n == "td"@ || n == "th"@ || n == "tr"@ || n
        == "ul"@
}

fn left_out(name: &str) -> (r: bool)
    ensures
        r == is_left_out(name@),
{
    str_eq(name, "script") || str_eq(name, "style") || str_eq(name, "noscript") || str_eq(
        name,
        "svg",
    ) || str_eq(name, "template")
}

fn block(n: &str) -> (r: bool)
    ensures
        r == is_block(n@),
{
    str_eq(n, "address") || str_eq(n, "article") || str_eq(n, "aside") || str_eq(n, "blockquote")
        || str_eq(n, "br") || str_eq(n, "dd") || str_eq(n, "details") || str_eq(n, "div") || str_eq(
        n,
        "dl",
    ) || str_eq(n, "dt") || str_eq(n, "fieldset") || str_eq(n, "figcaption") || str_eq(n, "figure")
        || str_eq(n, "footer") || str_eq(n, "form") || str_eq(n, "h1") || str_eq(n, "h2") || str_eq(
        n,
        "h3",
    ) || str_eq(n, "h4") || str_eq(n, "h5") || str_eq(n, "h6") || str_eq(n, "header") || str_eq(
        n,
        "hr",
    ) || str_eq(n, "li") || str_eq(n, "main") || str_eq(n, "nav") || str_eq(n, "ol") || str_eq(
        n,
        "p",
    ) || str_eq(n, "pre") || str_eq(n, "section") || str_eq(n, "table") || str_eq(n, "td")
        || str_eq(n, "th") || str_eq(n, "tr") || str_eq(n, "ul")
}

/// A text that ends its line, unless it is empty.
pub open spec fn line_ended(out: Seq<char>) -> Seq<char> {
    if out.len() > 0 && out.last() != '\n' {
        out.push('\n')
    } else {
        out
    }
}

/// How far a page has been read.
#[verifier::ext_equal]
pub struct PageV {
    pub out: Seq<char>,
    /// The depths of the blocks that are open.
    pub blocks: Seq<usize>,
    /// The depth of the element that is being left out.
    pub hidden: Option<usize>,
}

/// The blocks that are open outside a depth.
pub open spec fn outer_blocks(v: Seq<usize>, depth: usize) -> Seq<usize>
    decreases v.len(),
{
    if v.len() > 0 && v.last() >= depth {
        outer_blocks(v.drop_last(), depth)
    } else {
        v
    }
}

/// The page after the elements end that a node of that depth does not stand
/// in.
pub open spec fn closed_to(p: PageV, depth: usize) -> PageV {
    let blocks = outer_blocks(p.blocks, depth);
    PageV {
        out: if blocks.len() < p.blocks.len() {
            line_ended(p.out)
        } else {
            p.out
        },
        blocks,
        hidden: None,
    }
}

/// The page after a node.
pub open spec fn page_step(p: PageV, n: PageNodeV) -> PageV {
    if p.hidden is Some && n.depth > p.hidden->0 {
        p
    } else {
        let q = closed_to(p, n.depth);
        match n.kind {
            PageKindV::Text(t) => if trim(t).len() > 0 {
                PageV { out: q.out + t, ..q }
            } else {
                q
            },
            PageKindV::Element(name) => if is_left_out(name) {
                PageV { hidden: Some(n.depth), ..q }
            } else if is_block(name) {
                PageV { out: line_ended(q.out), blocks: q.blocks.push(n.depth), ..q }
            } else {
                q
            },
            PageKindV::Other => q,
        }
    }
}

/// The page after some nodes.
pub open spec fn page_after(v: Seq<PageNodeV>) -> PageV
    decreases v.len(),
{
    if v.len() == 0 {
        PageV { out: Seq::empty(), blocks: Seq::empty(), hidden: None }
    } else {
        page_step(page_after(v.drop_last()), v.last())
    }
}

/// The lines of a page with their white space tidied: no blank line at the
/// start and no two of them in a row.
pub open spec fn tidied(v: Seq<Seq<char>>) -> Seq<Seq<char>>
    decreases v.len(),
{
    if v.len() == 0 {
        Seq::empty()
    } else {
        let before = tidied(v.drop_last());
        let line = join(words(v.last()), " "@);
        if line.len() == 0 && (before.len() == 0 || before.last().len() == 0) {
            before
        } else {
            before.push(line)
        }
    }
}

/// Lines without the blank ones at the end.
pub open spec fn without_blank_end(v: Seq<Seq<char>>) -> Seq<Seq<char>>
    decreases v.len(),
{
    if v.len() > 0 && v.last().len() == 0 {
        without_blank_end(v.drop_last())
    } else {
        v
    }
}

/// The text of the nodes of a page.
pub open spec fn text_of_nodes(v: Seq<PageNodeV>) -> Seq<char> {
    join(without_blank_end(tidied(lines(page_after(v).out))), "\n"@)
}

/// The text of a page: that of its main part, else of its article, else of its
/// body.
pub open spec fn page_text(html: Seq<char>) -> Seq<char> {
    match page_nodes(html, "main"@) {
        Some(v) => text_of_nodes(v),
        None => match page_nodes(html, "article"@) {
            Some(v) => text_of_nodes(v),
            None => match page_nodes(html, "body"@) {
                Some(v) => text_of_nodes(v),
                None => Seq::empty(),
            },
        },
    }
}

fn end_line(out: &mut Vec<char>)
    ensures
        final(out)@ == line_ended(old(out)@),
{
    let n = out.len();
    if n > 0 && out[n - 1] != '\n' {
        out.push('\n');
    }
}

fn read_nodes(v: &Vec<PageNode>) -> (r: Vec<char>)
    ensures
        r@ == page_after(nodes_say(v@)).out,
{
    let ghost all = nodes_say(v@);
    let mut out: Vec<char> = Vec::new();
    let mut blocks: Vec<usize> = Vec::new();
    let mut hidden: Option<usize> = None;
    proof {
        assert(out@ =~= Seq::<char>::empty());
        assert(blocks@ =~= Seq::<usize>::empty());
    }
    for i in 0..v.len()
        invariant
            all == nodes_say(v@),
            page_after(all.take(i as int)) == (PageV { out: out@, blocks: blocks@, hidden }),
    {
        proof {
            assert(all.take(i as int + 1).drop_last() =~= all.take(i as int));
            assert(all.take(i as int + 1).last() == v@[i as int]@);
        }
        let depth = v[i].depth;
        let inside = match hidden {
            Some(k) => depth > k,
            None => false,
        };
        if !inside {
            hidden = None;
            let ghost before = blocks@;
            let ghost text = out@;
            let mut closes = false;
            while blocks.len() > 0 && blocks[blocks.len() - 1] >= depth
                invariant
                    outer_blocks(before, depth) == outer_blocks(blocks@, depth),
                    blocks@.len() <= before.len(),
                    closes == (blocks@.len() < before.len()),
                decreases blocks@.len(),
            {
                let ghost now = blocks@;
                blocks.pop();
                proof {
                    assert(blocks@ =~= now.drop_last());
                }
                closes = true;
            }
            proof {
                assert(outer_blocks(blocks@, depth) == blocks@);
            }
            if closes {
                end_line(&mut out);
            }
            match &v[i].kind {
                PageKind::Text(t) => {
                    let c = chars_of(t.as_str());
                    if trimmed(c.as_slice()).len() > 0 {
                        push_all(&mut out, c.as_slice());
                    }
                },
                PageKind::Element(name) => {
                    if left_out(name.as_str()) {
                        hidden = Some(depth);
                    } else if block(name.as_str()) {
                        end_line(&mut out);
                        blocks.push(depth);
                    }
                },
                PageKind::Other => {},
            }
        }
    }
    proof {
        assert(all.take(v@.len() as int) =~= all);
    }
    out
}

fn tidy(v: &Vec<Vec<char>>) -> (r: Vec<Vec<char>>)
    ensures
        rows(r@) == without_blank_end(tidied(rows(v@))),
{
    let ghost all = rows(v@);
    let mut out: Vec<Vec<char>> = Vec::new();
    proof {
        assert(rows(out@) =~= Seq::<Seq<char>>::empty());
    }
    for i in 0..v.len()
        invariant
            all == rows(v@),
            rows(out@) == tidied(all.take(i as int)),
    {
        let ghost before = rows(out@);
        proof {
            assert(all.take(i as int + 1).drop_last() =~= all.take(i as int));
            assert(all.take(i as int + 1).last() == v@[i as int]@);
            assert(before.len() == out@.len());
        }
        let w = words_of(v[i].as_slice());
        let line = joined(w.as_slice(), " ");
        let n = out.len();
        if !(line.len() == 0 && (n == 0 || out[n - 1].len() == 0)) {
            let ghost lv = line@;
            out.push(line);
            proof {
                assert(rows(out@) =~= before.push(lv));
            }
        }
    }
    proof {
        assert(all.take(v@.len() as int) =~= all);
    }
    let ghost whole = rows(out@);
    while out.len() > 0 && out[out.len() - 1].len() == 0
        invariant
            without_blank_end(whole) == without_blank_end(rows(out@)),
        decreases out@.len(),
    {
        let ghost now = rows(out@);
        proof {
            assert(now.last() == out@[out@.len() - 1]@);
        }
        out.pop();
        proof {
            assert(rows(out@) =~= now.drop_last());
        }
    }
    proof {
        let now = rows(out@);
        if now.len() > 0 {
            assert(now.last() == out@[out@.len() - 1]@);
        }
    }
    out
}

/// Writes the text of the nodes of a page.
pub fn render_nodes(v: &Vec<PageNode>) -> (r: String)
    ensures
        r@ == text_of_nodes(nodes_say(v@)),
{
    let out = read_nodes(v);
    let all = lines_of(out.as_slice());
    let t = tidy(&all);
    string_of(joined(t.as_slice(), "\n").as_slice())
}

/// Writes the text of a page.
pub fn extract_text(html: &str) -> (r: String)
    ensures
        r@ == page_text(html@),
{
    match select_nodes(html, "main") {
        Some(v) => return render_nodes(&v),
        None => {},
    }
    match select_nodes(html, "article") {
        Some(v) => return render_nodes(&v),
        None => {},
    }
    match select_nodes(html, "body") {
        Some(v) => render_nodes(&v),
        None => {
            let r = String::new();
            proof {
                assert(r@ =~= Seq::<char>::empty());
            }
            r
        },
    }
}

/// What the model sees of a text: at most so many characters.
pub open spec fn shortened(t: Seq<char>) -> Seq<char> {
    let s = if t.len() == 0 {
        "（页面无可提取文本）"@
    } else {
        t
    };
    if s.len() > MAX_FETCH_OUTPUT {
        s.take(MAX_FETCH_OUTPUT as int) + "\n\n（已截断，仅显示前 50000 字符）"@
    } else {
        s
    }
}

/// What the model sees of an answer, going by its content type.
pub open spec fn fetched(content_type: Seq<char>, body: Seq<u8>) -> Result<Seq<char>, Seq<char>> {
    let text = lossy_text(body);
    if content_type == "text/html"@ {
        Ok(shortened(page_text(text)))
    } else if content_type == "text/plain"@ || content_type == "text/markdown"@ || content_type
        == "application/json"@ {
        Ok(shortened(text))
    } else if content_type.len() == 0 {
        Err("响应缺少 Content-Type，无法判定内容类型"@)
    } else {
        Err("不支持的内容类型: "@ + content_type)
    }
}

fn shorten(t: String) -> (r: String)
    ensures
        r@ == shortened(t@),
{
    let v = chars_of(t.as_str());
    if v.len() == 0 {
        let note = "（页面无可提取文本）";
        proof {
            reveal_strlit("（页面无可提取文本）");
            assert(note@.len() == 10);
        }
        return text_from(note);
    }
    if v.len() > MAX_FETCH_OUTPUT {
        let head = slice_subrange(v.as_slice(), 0, MAX_FETCH_OUTPUT);
        let mut out: Vec<char> = Vec::new();
        push_all(&mut out, head);
        push_text(&mut out, "\n\n（已截断，仅显示前 50000 字符）");
        proof {
            assert(head@ =~= v@.take(MAX_FETCH_OUTPUT as int));
            assert(out@ =~= shortened(t@));
        }
        return string_of(out.as_slice());
    }
    t
}

/// Writes what the model sees of an answer.
pub fn fetch_output(content_type: &str, body: &[u8]) -> (r: Result<String, String>)
    ensures
        match r {
            Ok(t) => fetched(content_type@, body@) == Ok::<Seq<char>, Seq<char>>(t@),
            Err(e) => fetched(content_type@, body@) == Err::<Seq<char>, Seq<char>>(e@),
        },
{
    let text = lossy_of(body);
    if str_eq(content_type, "text/html") {
        Ok(shorten(extract_text(text.as_str())))
    } else if str_eq(content_type, "text/plain") || str_eq(content_type, "text/markdown") || str_eq(
        content_type,
        "application/json",
    ) {
        Ok(shorten(text))
    } else if chars_of(content_type).len() == 0 {
        Err(text_from("响应缺少 Content-Type，无法判定内容类型"))
    } else {
        Err(cat("不支持的内容类型: ", content_type))
    }
}

// ---------------------------------------------------------------------------
// Laws
// ---------------------------------------------------------------------------

/// Nothing but public addresses is fetched: a URL that passes is one of http
/// or https without credentials, its host is not the machine's own, and an
/// address in it, like every address that its name stands for, is public.
pub proof fn law_only_public_addresses(u: UrlPartsV, literal: Option<Ip>, found: Option<Seq<Ip>>)
    requires
        url_fault(u, literal) is None,
        literal is None ==> lookup_fault(u.host->0, found) is None,
    ensures
        u.scheme == "http"@ || u.scheme == "https"@,
        u.username.len() == 0 && !u.has_password,
        u.host is Some,
        literal is Some ==> !is_private(literal->0),
        literal is None ==> plain_host(u.host->0) != "localhost"@ && found is Some
            && found->0.len() > 0 && forall|i: int|
            0 <= i < found->0.len() ==> !is_private(#[trigger] found->0[i]),
{
}

/// Whether no line is blank at the start and no two are in a row.
pub open spec fn is_tidy(v: Seq<Seq<char>>) -> bool {
    &&& v.len() > 0 ==> v[0].len() > 0
    &&& forall|i: int| 0 < i < v.len() && (#[trigger] v[i]).len() == 0 ==> v[i - 1].len() > 0
}

proof fn lemma_tidied(v: Seq<Seq<char>>)
    ensures
        is_tidy(tidied(v)),
    decreases v.len(),
{
    if v.len() > 0 {
        lemma_tidied(v.drop_last());
        let before = tidied(v.drop_last());
        let line = join(words(v.last()), " "@);
        let r = tidied(v);
        if r != before {
            assert(r == before.push(line));
            assert forall|i: int| 0 < i < r.len() && (#[trigger] r[i]).len() == 0 implies r[i
                - 1].len() > 0 by {
                if i < before.len() {
                    assert(before[i].len() == 0);
                }
            }
        }
    }
}

proof fn lemma_blank_end(v: Seq<Seq<char>>)
    requires
        is_tidy(v),
    ensures
        is_tidy(without_blank_end(v)),
        without_blank_end(v).len() > 0 ==> without_blank_end(v).last().len() > 0,
    decreases v.len(),
{
    if v.len() > 0 && v.last().len() == 0 {
        let w = v.drop_last();
        assert forall|i: int| 0 < i < w.len() && (#[trigger] w[i]).len() == 0 implies w[i
            - 1].len() > 0 by {
            assert(v[i].len() == 0);
        }
        lemma_blank_end(w);
    }
}

/// The text of a page has no blank line at its start or end and no two of them
/// in a row.
pub proof fn law_page_text_is_tidy(v: Seq<PageNodeV>)
    ensures
        ({
            let t = without_blank_end(tidied(lines(page_after(v).out)));
            is_tidy(t) && (t.len() > 0 ==> t.last().len() > 0)
        }),
{
    lemma_tidied(lines(page_after(v).out));
    lemma_blank_end(tidied(lines(page_after(v).out)));
}

/// Nothing of what stands in an element that is left out comes into the text.
pub proof fn law_hidden_text_stays_out(p: PageV, n: PageNodeV)
    requires
        p.hidden is Some,
        n.depth > p.hidden->0,
    ensures
        page_step(p, n) == p,
{
}

/// The text of a page is kept: a node of text that is not blank and not hidden
/// stands word for word at the end of what has been read, and nothing from
/// before is lost.
pub proof fn law_page_text_is_kept(p: PageV, n: PageNodeV, t: Seq<char>)
    requires
        n.kind == PageKindV::Text(t),
        trim(t).len() > 0,
        p.hidden is None,
    ensures
        ({
            let out = page_step(p, n).out;
            &&& out.len() >= p.out.len() + t.len()
            &&& out.take(p.out.len() as int) == p.out
            &&& out.skip(out.len() - t.len()) == t
            &&& out.len() <= p.out.len() + 1 + t.len()
        }),
{
    let out = page_step(p, n).out;
    assert(out.take(p.out.len() as int) =~= p.out);
    assert(out.skip(out.len() - t.len()) =~= t);
}

/// A plain text that is not too long is given as it came, and a page as its
/// text; other kinds of content are refused.
pub proof fn law_fetched_text_is_given(content_type: Seq<char>, body: Seq<u8>)
    ensures
        ({
            let text = lossy_text(body);
            let plain = content_type == "text/plain"@ || content_type == "text/markdown"@
                || content_type == "application/json"@;
            &&& plain && content_type != "text/html"@ && 0 < text.len() <= 50_000 ==> fetched(
                content_type,
                body,
            ) == Ok::<Seq<char>, Seq<char>>(text)
            &&& content_type == "text/html"@ && 0 < page_text(text).len() <= 50_000 ==> fetched(
                content_type,
                body,
            ) == Ok::<Seq<char>, Seq<char>>(page_text(text))
            &&& fetched(content_type, body) is Ok <==> plain || content_type == "text/html"@
        }),
{
}

/// Whether the elements that are left out hide a node.
pub open spec fn hides(p: PageV, n: PageNodeV) -> bool {
    p.hidden matches Some(d) && n.depth > d
}

/// The text that a node adds to a page that was read so far.
pub open spec fn seen_in(p: PageV, n: PageNodeV) -> Seq<char> {
    match n.kind {
        PageKindV::Text(t) => if hides(p, n) {
            Seq::empty()
        } else {
            t
        },
        _ => Seq::empty(),
    }
}

/// What is read of a page has, white space aside, exactly the texts of its
/// nodes that are not left out, one behind the other.
pub proof fn law_page_has_its_texts(v: Seq<PageNodeV>, n: PageNodeV)
    ensures
        solid(page_after(v.push(n)).out) == solid(page_after(v).out) + solid(
            seen_in(page_after(v), n),
        ),
{
    assert(v.push(n).drop_last() =~= v);
    let p = page_after(v);
    let none = Seq::<char>::empty();
    crate::chars::lemma_solid_white(none);
    assert(solid(p.out) + none =~= solid(p.out));
    if !hides(p, n) {
        let q = closed_to(p, n.depth);
        lemma_line_ended_solid(p.out);
        lemma_line_ended_solid(q.out);
        match n.kind {
            PageKindV::Text(t) => {
                crate::chars::lemma_solid_joins(q.out, t);
                crate::chars::law_trim(t);
                if trim(t).len() == 0 {
                    crate::chars::lemma_solid_white(t);
                }
            },
            _ => {},
        }
    }
}

proof fn lemma_line_ended_solid(s: Seq<char>)
    ensures
        solid(line_ended(s)) == solid(s),
{
    crate::chars::lemma_solid_white(seq!['\n']);
    crate::chars::lemma_solid_joins(s, seq!['\n']);
    assert(s.push('\n') =~= s + seq!['\n']);
    assert(solid(s) + Seq::<char>::empty() =~= solid(s));
}

/// Tidying the lines of a page loses nothing but white space.
pub proof fn law_tidying_keeps_the_text(v: Seq<PageNodeV>)
    ensures
        solid(text_of_nodes(v)) == solid(page_after(v).out),
{
    let out = page_after(v).out;
    let l = lines(out);
    crate::chars::law_lines_keep_the_characters(out);
    lemma_tidied_solid(l);
    lemma_blank_end_solid(tidied(l));
    reveal_strlit("\n");
    assert("\n"@ =~= seq!['\n']);
    crate::chars::law_join_keeps_the_characters(without_blank_end(tidied(l)), "\n"@);
}

proof fn lemma_tidied_solid(v: Seq<Seq<char>>)
    ensures
        all_solid(tidied(v)) == all_solid(v),
    decreases v.len(),
{
    if v.len() == 0 {
        assert(v =~= Seq::<Seq<char>>::empty());
    } else {
        let front = v.drop_last();
        lemma_tidied_solid(front);
        reveal_strlit(" ");
        assert(" "@ =~= seq![' ']);
        crate::chars::law_tidy_words_keep_the_characters(v.last());
        let line = join(words(v.last()), " "@);
        crate::chars::lemma_all_solid_push(front, v.last());
        crate::chars::lemma_all_solid_push(tidied(front), line);
        assert(front.push(v.last()) =~= v);
        if line.len() == 0 {
            crate::chars::lemma_solid_white(line);
            assert(all_solid(front) + Seq::<char>::empty() =~= all_solid(front));
        }
    }
}

proof fn lemma_blank_end_solid(v: Seq<Seq<char>>)
    ensures
        all_solid(without_blank_end(v)) == all_solid(v),
    decreases v.len(),
{
    if v.len() > 0 && v.last().len() == 0 {
        let front = v.drop_last();
        lemma_blank_end_solid(front);
        crate::chars::lemma_all_solid_push(front, v.last());
        assert(front.push(v.last()) =~= v);
        crate::chars::lemma_solid_white(v.last());
        assert(all_solid(front) + Seq::<char>::empty() =~= all_solid(front));
    }
}

} // verus!
