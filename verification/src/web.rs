//! The `web_search` and `web_fetch` tools: parameter checks, the order in
//! which search engines are tried, how scraped results are filtered, and the
//! heuristics that spot bot checks and challenge pages.

use vstd::prelude::*;

use crate::exec_local::{err_view, tool_error, ToolError, ToolErrorKind, ToolSchema};
use crate::html_to_md::{truncate_utf8, truncate_utf8_spec, normalize_ws, normalize_ws_spec, page_text, page_text_of, select_first_text, selected_text_of};
use crate::numbers::{decimal_chars, decimal_spec};
use crate::text::{
    chars_eq, chars_of, contains_chars, copy_string, has_infix, has_prefix, join_spec, join_strings,
    lowercase_of, starts_with, str_concat, string_from_chars, to_lowercase, trim_spec, trim_str,
};
use crate::weixin::{byte_len, fits_in_bytes};
use vstd::utf8::encode_utf8;

verus! {

/// Checks the `web_search` parameters: a `query` string is required.
pub fn validate_search(query: Option<&str>) -> (r: Result<(), ToolError>)
    ensures
        r is Ok <==> query is Some,
        r matches Err(e) ==> err_view(e) == (ToolErrorKind::Validation, "Missing required parameter: query"@),
{
    match query {
        Some(_) => Ok(()),
        None => Err(tool_error(ToolErrorKind::Validation, "Missing required parameter: query")),
    }
}

/// Why a `web_fetch` URL is refused.
pub open spec fn fetch_url_error(url: Option<Seq<char>>) -> Option<Seq<char>> {
    match url {
        None => Some("Missing required parameter: url"@),
        Some(u) => if !has_prefix(u, "http://"@) && !has_prefix(u, "https://"@) {
            Some("URL must start with http:// or https://"@)
        } else {
            None
        },
    }
}

/// Checks the `web_fetch` parameters: an `http://` or `https://` URL.
pub fn validate_fetch(url: Option<&str>) -> (r: Result<(), ToolError>)
    ensures
        r is Err <==> fetch_url_error(
            match url {
                Some(u) => Some(u@),
                None => None,
            },
        ) is Some,
        r matches Err(e) ==> e.kind == ToolErrorKind::Validation && Some(e.message@) == fetch_url_error(
            match url {
                Some(u) => Some(u@),
                None => None,
            },
        ),
{
    match url {
        None => Err(tool_error(ToolErrorKind::Validation, "Missing required parameter: url")),
        Some(u) => {
            let v = chars_of(u);
            let a = chars_of("http://");
            let b = chars_of("https://");
            if !starts_with(v.as_slice(), a.as_slice()) && !starts_with(v.as_slice(), b.as_slice()) {
                Err(tool_error(ToolErrorKind::Validation, "URL must start with http:// or https://"))
            } else {
                Ok(())
            }
        },
    }
}

/// How many results a search asks for: 5 unless given, at most 10.
pub fn search_count(count: Option<u64>) -> (r: usize)
    ensures
        r == (match count {
            Some(c) => if c < 10 {
                c
            } else {
                10
            },
            None => 5,
        }),
{
    let c = match count {
        Some(c) => c,
        None => 5,
    };
    if c < 10 {
        c as usize
    } else {
        10
    }
}

/// A character of the CJK Unified Ideographs block.
pub open spec fn is_cjk(c: char) -> bool {
    0x4E00 <= (c as u32) <= 0x9FFF
}

/// A query with a CJK ideograph is searched as a Chinese query.
pub fn is_chinese_query(query: &str) -> (r: bool)
    ensures
        r == exists|i: int| 0 <= i < query@.len() && is_cjk(#[trigger] query@[i]),
{
    let v = chars_of(query);
    let mut i: usize = 0;
    while i < v.len()
        invariant
            v@ == query@,
            i <= v.len(),
            forall|j: int| 0 <= j < i ==> !is_cjk(#[trigger] query@[j]),
        decreases v.len() - i,
    {
        let u = v[i] as u32;
        if 0x4E00 <= u && u <= 0x9FFF {
            assert(is_cjk(query@[i as int]));
            return true;
        }
        i = i + 1;
    }
    false
}

fn has(s: &[char], p: &str) -> (r: bool)
    ensures
        r == has_infix(s@, p@),
{
    let w = chars_of(p);
    contains_chars(s, w.as_slice())
}

/// A Bing page that is a bot check or consent page rather than results.
pub open spec fn bing_blocked_spec(html: Seq<char>) -> bool {
    let s = lowercase_of(html);
    has_infix(s, "captcha"@) || has_infix(s, "unusual traffic"@) || has_infix(
        s,
        "our systems have detected unusual traffic"@,
    ) || has_infix(s, "verify"@) || (has_infix(s, "sorry"@) && has_infix(s, "bing"@))
}

pub fn bing_html_looks_blocked(html: &str) -> (r: bool)
    ensures
        r == bing_blocked_spec(html@),
{
    let low = to_lowercase(html);
    let s = chars_of(low.as_str());
    let x = s.as_slice();
    has(x, "captcha") || has(x, "unusual traffic") || has(x, "our systems have detected unusual traffic")
        || has(x, "verify") || (has(x, "sorry") && has(x, "bing"))
}

/// A JavaScript challenge or anti-bot waiting page.
pub open spec fn challenge_spec(body: Seq<char>) -> bool {
    let s = lowercase_of(body);
    (has_infix(s, "just a moment"@) && has_infix(s, "cloudflare"@)) || has_infix(
        s,
        "please wait while we verify"@,
    ) || has_infix(s, "checking if the site connection is secure"@) || has_infix(
        s,
        "enable javascript and cookies to continue"@,
    ) || has_infix(s, "ddos protection by cloudflare"@) || (has_infix(s, "please wait"@) && byte_len(s)
        < 8192)
}

pub fn html_looks_like_challenge(body: &str) -> (r: bool)
    ensures
        r == challenge_spec(body@),
{
    let low = to_lowercase(body);
    let s = chars_of(low.as_str());
    let x = s.as_slice();
    (has(x, "just a moment") && has(x, "cloudflare")) || has(x, "please wait while we verify") || has(
        x,
        "checking if the site connection is secure",
    ) || has(x, "enable javascript and cookies to continue") || has(x, "ddos protection by cloudflare")
        || (has(x, "please wait") && fits_in_bytes(x, 8191))
}

/// A fetched page is retried in a real browser when it looks like a
/// challenge, or when it is short (under 500 bytes once trimmed) but came
/// with status 200.
pub open spec fn needs_browser_spec(content: Seq<char>, status: u16) -> bool {
    challenge_spec(content) || (byte_len(trim_spec(content)) < 500 && status == 200)
}

pub fn needs_browser_fetch(content: &str, status: u16) -> (r: bool)
    ensures
        r == needs_browser_spec(content@, status),
{
    if html_looks_like_challenge(content) {
        return true;
    }
    let t = trim_str(content);
    fits_in_bytes(t.as_slice(), 499) && status == 200
}

} // verus!

verus! {

/// One element a scrape found: its title text and link, when it has a title
/// element, and its snippet text, when it has one.
#[derive(Debug, Clone)]
pub struct ScrapedItem {
    pub title: Option<String>,
    pub href: Option<String>,
    pub snippet: Option<String>,
}

/// A search result.
#[derive(Debug, Clone)]
pub struct SearchResult {
    pub title: String,
    pub url: String,
    pub snippet: String,
}

/// The link a Baidu result is shown with: absolute links as they are,
/// Baidu-relative `/link?` and `/s?` links made absolute; others dropped.
pub open spec fn baidu_display_url(url: Seq<char>) -> Option<Seq<char>> {
    if has_prefix(url, "http"@) {
        Some(url)
    } else if has_prefix(url, "/link?"@) || has_prefix(url, "/s?"@) {
        Some("https://www.baidu.com"@ + url)
    } else {
        None
    }
}

pub open spec fn opt_text(o: Option<String>) -> Seq<char> {
    match o {
        Some(s) => s@,
        None => Seq::<char>::empty(),
    }
}

pub open spec fn opt_seq(o: Option<Seq<char>>) -> Seq<char> {
    match o {
        Some(s) => s,
        None => Seq::<char>::empty(),
    }
}

/// A scraped element as plain values: title, link and snippet.
pub type ItemView = (Option<Seq<char>>, Option<Seq<char>>, Option<Seq<char>>);

pub open spec fn scraped_view(it: ScrapedItem) -> ItemView {
    (opt_view(it.title), opt_view(it.href), opt_view(it.snippet))
}

/// The result an element yields, before de-duplication: a trimmed non-empty
/// title and a usable link are required (Bing and DuckDuckGo want an
/// `http` link; Baidu rewrites relative ones).
pub open spec fn item_result(it: ItemView, baidu: bool) -> Option<(Seq<char>, Seq<char>, Seq<char>)> {
    let title = trim_spec(opt_seq(it.0));
    let url = opt_seq(it.1);
    if it.0 is None || title.len() == 0 || url.len() == 0 {
        None
    } else if baidu {
        match baidu_display_url(url) {
            Some(u) => Some((title, u, trim_spec(opt_seq(it.2)))),
            None => None,
        }
    } else if !has_prefix(url, "http"@) {
        None
    } else {
        Some((title, url, trim_spec(opt_seq(it.2))))
    }
}

/// Results kept from a list of elements: in order, skipping elements that
/// yield none or repeat a link already kept, stopping at `count` results.
pub open spec fn collect_spec(
    items: Seq<ItemView>,
    baidu: bool,
    count: nat,
    kept: Seq<(Seq<char>, Seq<char>, Seq<char>)>,
) -> Seq<(Seq<char>, Seq<char>, Seq<char>)>
    decreases items.len(),
{
    if items.len() == 0 || kept.len() >= count {
        kept
    } else {
        let rest = items.drop_first();
        match item_result(items[0], baidu) {
            Some(r) => if exists|k: int| 0 <= k < kept.len() && (#[trigger] kept[k]).1 == r.1 {
                collect_spec(rest, baidu, count, kept)
            } else {
                collect_spec(rest, baidu, count, kept.push(r))
            },
            None => collect_spec(rest, baidu, count, kept),
        }
    }
}

pub open spec fn result_view(r: SearchResult) -> (Seq<char>, Seq<char>, Seq<char>) {
    (r.title@, r.url@, r.snippet@)
}

fn trimmed_opt(o: &Option<String>) -> (r: String)
    ensures
        r@ == trim_spec(opt_text(*o)),
{
    match o {
        Some(s) => string_from_chars(trim_str(s.as_str()).as_slice()),
        None => {
            let e = String::new();
            assert(trim_spec(Seq::<char>::empty()) =~= Seq::<char>::empty());
            e
        },
    }
}

fn item_result_exec(it: &ScrapedItem, baidu: bool) -> (r: Option<SearchResult>)
    ensures
        match r {
            Some(x) => item_result(scraped_view(*it), baidu) == Some(result_view(x)),
            None => item_result(scraped_view(*it), baidu) is None,
        },
{
    let title = trimmed_opt(&it.title);
    let url = match &it.href {
        Some(h) => copy_string(h),
        None => String::new(),
    };
    if it.title.is_none() || title.as_str().is_empty() || url.as_str().is_empty() {
        return None;
    }
    let uv = chars_of(url.as_str());
    let http = chars_of("http");
    let display = if baidu {
        if starts_with(uv.as_slice(), http.as_slice()) {
            url
        } else {
            let l = chars_of("/link?");
            let s = chars_of("/s?");
            if starts_with(uv.as_slice(), l.as_slice()) || starts_with(uv.as_slice(), s.as_slice()) {
                str_concat("https://www.baidu.com", url.as_str())
            } else {
                return None;
            }
        }
    } else {
        if !starts_with(uv.as_slice(), http.as_slice()) {
            return None;
        }
        url
    };
    let snippet = trimmed_opt(&it.snippet);
    Some(SearchResult { title, url: display, snippet })
}

fn seen_url(kept: &Vec<SearchResult>, url: &String) -> (r: bool)
    ensures
        r == exists|k: int| 0 <= k < kept@.len() && (#[trigger] kept@[k]).url@ == url@,
{
    let u = chars_of(url.as_str());
    let mut k: usize = 0;
    while k < kept.len()
        invariant
            k <= kept.len(),
            u@ == url@,
            forall|j: int| 0 <= j < k ==> (#[trigger] kept@[j]).url@ != url@,
        decreases kept.len() - k,
    {
        let w = chars_of(kept[k].url.as_str());
        if chars_eq(w.as_slice(), u.as_slice()) {
            return true;
        }
        k = k + 1;
    }
    false
}

/// Adds the results of `items` to `kept` as `collect_spec` says.
pub fn collect_results(items: &[ScrapedItem], baidu: bool, count: usize, kept: &mut Vec<SearchResult>)
    ensures
        final(kept)@.map_values(|r: SearchResult| result_view(r)) == collect_spec(
            items@.map_values(|it: ScrapedItem| scraped_view(it)),
            baidu,
            count as nat,
            old(kept)@.map_values(|r: SearchResult| result_view(r)),
        ),
{
    let ghost iv = items@.map_values(|it: ScrapedItem| scraped_view(it));
    let mut i: usize = 0;
    assert(iv.skip(0) =~= iv);
    while i < items.len() && kept.len() < count
        invariant
            i <= items.len(),
            iv == items@.map_values(|it: ScrapedItem| scraped_view(it)),
            collect_spec(iv, baidu, count as nat, old(kept)@.map_values(|r: SearchResult| result_view(r)))
                == collect_spec(
                iv.skip(i as int),
                baidu,
                count as nat,
                kept@.map_values(|r: SearchResult| result_view(r)),
            ),
        decreases items.len() - i,
    {
        let ghost rest = iv.skip(i as int);
        let ghost kv = kept@.map_values(|r: SearchResult| result_view(r));
        proof {
            assert(rest[0] == scraped_view(items@[i as int]));
            assert(rest.drop_first() =~= iv.skip(i + 1));
        }
        match item_result_exec(&items[i], baidu) {
            Some(r) => {
                let dup = seen_url(kept, &r.url);
                proof {
                    if dup {
                        let k = choose|k: int| 0 <= k < kept@.len() && (#[trigger] kept@[k]).url@ == r.url@;
                        assert(kv[k].1 == result_view(r).1);
                    } else {
                        assert forall|k: int| 0 <= k < kv.len() implies (#[trigger] kv[k]).1 != result_view(r).1 by {
                            assert(kv[k] == result_view(kept@[k]));
                        }
                    }
                }
                if !dup {
                    kept.push(r);
                    assert(kept@.map_values(|r: SearchResult| result_view(r)) =~= kv.push(result_view(r)));
                }
            },
            None => {},
        }
        i = i + 1;
    }
    proof {
        let kv = kept@.map_values(|r: SearchResult| result_view(r));
        if i >= items.len() {
            assert(iv.skip(i as int) =~= Seq::<ItemView>::empty());
        }
        assert(collect_spec(iv.skip(i as int), baidu, count as nat, kv) == kv);
    }
}

/// Results from groups of elements, one group per container selector: the
/// first group that yields any result is used (groups after it are not
/// looked at), as long as fewer than `count` results were found.
pub open spec fn collect_groups_spec(
    groups: Seq<Seq<ItemView>>,
    baidu: bool,
    count: nat,
) -> Seq<(Seq<char>, Seq<char>, Seq<char>)>
    decreases groups.len(),
{
    if groups.len() == 0 {
        seq![]
    } else {
        let first = collect_spec(groups[0], baidu, count, seq![]);
        if first.len() > 0 {
            first
        } else {
            collect_groups_spec(groups.drop_first(), baidu, count)
        }
    }
}

/// The results of a scraped page, group by group.
pub fn collect_groups(groups: &Vec<Vec<ScrapedItem>>, baidu: bool, count: usize) -> (r: Vec<SearchResult>)
    ensures
        r@.map_values(|x: SearchResult| result_view(x)) == collect_groups_spec(groups@.map_values(|g: Vec<ScrapedItem>| g@.map_values(|it: ScrapedItem| scraped_view(it))), baidu, count as nat),
{
    let ghost gs = groups@.map_values(|g: Vec<ScrapedItem>| g@.map_values(|it: ScrapedItem| scraped_view(it)));
    let mut g: usize = 0;
    assert(gs.skip(0) =~= gs);
    while g < groups.len()
        invariant
            g <= groups.len(),
            gs == groups@.map_values(|g: Vec<ScrapedItem>| g@.map_values(|it: ScrapedItem| scraped_view(it))),
            collect_groups_spec(gs, baidu, count as nat) == collect_groups_spec(gs.skip(g as int), baidu, count as nat),
        decreases groups.len() - g,
    {
        let mut kept: Vec<SearchResult> = Vec::new();
        collect_results(groups[g].as_slice(), baidu, count, &mut kept);
        proof {
            assert(kept@.len() == 0 ==> true);
            assert(gs.skip(g as int)[0] == groups@[g as int]@.map_values(|it: ScrapedItem| scraped_view(it)));
            assert(gs.skip(g as int).drop_first() =~= gs.skip(g + 1));
            assert(Seq::<SearchResult>::empty().map_values(|r: SearchResult| result_view(r)) =~= Seq::<(Seq<char>, Seq<char>, Seq<char>)>::empty());
        }
        if kept.len() > 0 {
            return kept;
        }
        g = g + 1;
    }
    assert(gs.skip(g as int) =~= Seq::<Seq<ItemView>>::empty());
    let r: Vec<SearchResult> = Vec::new();
    assert(r@.map_values(|x: SearchResult| result_view(x)) =~= Seq::<(Seq<char>, Seq<char>, Seq<char>)>::empty());
    r
}

/// No two kept results share a link, and no more than `count` are kept.
pub proof fn lemma_collect_distinct(
    items: Seq<ItemView>,
    baidu: bool,
    count: nat,
    kept: Seq<(Seq<char>, Seq<char>, Seq<char>)>,
)
    requires
        forall|a: int, b: int| 0 <= a < b < kept.len() ==> (#[trigger] kept[a]).1 != (#[trigger] kept[b]).1,
        kept.len() <= count,
    ensures
        forall|a: int, b: int|
            0 <= a < b < collect_spec(items, baidu, count, kept).len() ==> (#[trigger] collect_spec(
                items,
                baidu,
                count,
                kept,
            )[a]).1 != (#[trigger] collect_spec(items, baidu, count, kept)[b]).1,
        collect_spec(items, baidu, count, kept).len() <= count,
        kept.len() <= collect_spec(items, baidu, count, kept).len(),
    decreases items.len(),
{
    if items.len() == 0 || kept.len() >= count {
    } else {
        let rest = items.drop_first();
        match item_result(items[0], baidu) {
            Some(r) => {
                if exists|k: int| 0 <= k < kept.len() && (#[trigger] kept[k]).1 == r.1 {
                    lemma_collect_distinct(rest, baidu, count, kept);
                } else {
                    let k2 = kept.push(r);
                    assert forall|a: int, b: int| 0 <= a < b < k2.len() implies (#[trigger] k2[a]).1 != (
                    #[trigger] k2[b]).1 by {
                        if b == kept.len() {
                            assert(k2[a] == kept[a]);
                        } else {
                            assert(k2[a] == kept[a] && k2[b] == kept[b]);
                        }
                    }
                    lemma_collect_distinct(rest, baidu, count, k2);
                }
            },
            None => {
                lemma_collect_distinct(rest, baidu, count, kept);
            },
        }
    }
}

/// The results taken from a page's groups never repeat a link and are at
/// most `count`.
pub proof fn lemma_groups_distinct(groups: Seq<Seq<ItemView>>, baidu: bool, count: nat)
    ensures
        forall|a: int, b: int|
            0 <= a < b < collect_groups_spec(groups, baidu, count).len() ==> (#[trigger] collect_groups_spec(
                groups,
                baidu,
                count,
            )[a]).1 != (#[trigger] collect_groups_spec(groups, baidu, count)[b]).1,
        collect_groups_spec(groups, baidu, count).len() <= count,
    decreases groups.len(),
{
    if groups.len() > 0 {
        lemma_collect_distinct(groups[0], baidu, count, seq![]);
        lemma_groups_distinct(groups.drop_first(), baidu, count);
    }
}

/// An element of a page as plain values: the text nodes and `href` of its
/// first title element, and the text nodes of its first snippet element.
pub type ElementView = (Option<Seq<Seq<char>>>, Option<Seq<char>>, Option<Seq<Seq<char>>>);

pub open spec fn nodes_view(o: Option<Vec<String>>) -> Option<Seq<Seq<char>>> {
    match o {
        Some(v) => Some(v@.map_values(|s: String| s@)),
        None => None,
    }
}

pub open spec fn element_view(e: (Option<Vec<String>>, Option<String>, Option<Vec<String>>)) -> ElementView {
    (nodes_view(e.0), opt_view(e.1), nodes_view(e.2))
}

/// The elements of a page that match a container selector, each seen through
/// a title selector and a snippet selector; `None` when a selector does not
/// parse.
pub uninterp spec fn scraped_elements_of(
    html: Seq<char>,
    container: Seq<char>,
    title: Seq<char>,
    snippet: Seq<char>,
) -> Option<Seq<(Option<Seq<Seq<char>>>, Option<Seq<char>>, Option<Seq<Seq<char>>>)>>;

/// `scraper::Html::parse_document`, the three `Selector::parse` calls, the
/// `select` of the container, and per element the first title match (its
/// `text()` nodes and `href`) and the first snippet match (its `text()`
/// nodes): named, the result depends on its arguments alone.
#[verifier::external_body]
fn scrape_elements(html: &str, container: &str, title: &str, snippet: &str) -> (r: Option<
    Vec<(Option<Vec<String>>, Option<String>, Option<Vec<String>>)>,
>)
    ensures
        r matches Some(v) ==> scraped_elements_of(html@, container@, title@, snippet@) == Some(
            v@.map_values(|e: (Option<Vec<String>>, Option<String>, Option<Vec<String>>)| element_view(e)),
        ),
        r is None ==> scraped_elements_of(html@, container@, title@, snippet@) is None,
{
    let doc = scraper::Html::parse_document(html);
    let c = scraper::Selector::parse(container).ok()?;
    let t = scraper::Selector::parse(title).ok()?;
    let s = scraper::Selector::parse(snippet).ok()?;
    let nodes = |e: scraper::ElementRef| e.text().map(String::from).collect::<Vec<String>>();
    Some(doc.select(&c).map(|el| {
        let te = el.select(&t).next();
        (te.map(nodes), te.and_then(|e| e.value().attr("href").map(String::from)), el.select(&s).next().map(nodes))
    }).collect())
}

/// What a scrape takes from an element: the title and snippet texts joined.
pub open spec fn element_item(e: ElementView) -> ItemView {
    (
        match e.0 {
            Some(ns) => Some(join_spec(ns, seq![])),
            None => None,
        },
        e.1,
        match e.2 {
            Some(ns) => Some(join_spec(ns, seq![])),
            None => None,
        },
    )
}

fn joined_nodes(o: &Option<Vec<String>>) -> (r: Option<String>)
    ensures
        opt_view(r) == (match nodes_view(*o) {
            Some(ns) => Some(join_spec(ns, seq![])),
            None => None,
        }),
{
    match o {
        Some(ns) => {
            let empty: Vec<char> = Vec::new();
            assert(empty@ =~= Seq::<char>::empty());
            Some(string_from_chars(join_strings(ns.as_slice(), empty.as_slice()).as_slice()))
        },
        None => None,
    }
}

fn element_item_exec(e: &(Option<Vec<String>>, Option<String>, Option<Vec<String>>)) -> (r: ScrapedItem)
    ensures
        scraped_view(r) == element_item(element_view(*e)),
{
    let href = match &e.1 {
        Some(h) => Some(copy_string(h)),
        None => None,
    };
    ScrapedItem { title: joined_nodes(&e.0), href, snippet: joined_nodes(&e.2) }
}

/// The items of one container selector's elements; `None` when a selector
/// does not parse.
fn scrape_group(html: &str, container: &str, title: &str, snippet: &str) -> (r: Option<Vec<ScrapedItem>>)
    ensures
        match scraped_elements_of(html@, container@, title@, snippet@) {
            Some(es) => r matches Some(v) && v@.map_values(|it: ScrapedItem| scraped_view(it)) == es.map_values(
                |e: ElementView| element_item(e),
            ),
            None => r is None,
        },
{
    let elements = match scrape_elements(html, container, title, snippet) {
        Some(v) => v,
        None => return None,
    };
    let ghost es = elements@.map_values(|e: (Option<Vec<String>>, Option<String>, Option<Vec<String>>)| element_view(e));
    let mut items: Vec<ScrapedItem> = Vec::new();
    let mut i: usize = 0;
    while i < elements.len()
        invariant
            i <= elements.len(),
            es == elements@.map_values(|e: (Option<Vec<String>>, Option<String>, Option<Vec<String>>)| element_view(e)),
            items@.map_values(|it: ScrapedItem| scraped_view(it)) == es.take(i as int).map_values(
                |e: ElementView| element_item(e),
            ),
        decreases elements.len() - i,
    {
        let it = element_item_exec(&elements[i]);
        proof {
            assert(es.take(i + 1) =~= es.take(i as int).push(es[i as int]));
            assert(es.take(i + 1).map_values(|e: ElementView| element_item(e)) =~= es.take(i as int).map_values(
                |e: ElementView| element_item(e),
            ).push(element_item(es[i as int])));
            assert(items@.push(it).map_values(|it: ScrapedItem| scraped_view(it)) =~= items@.map_values(
                |it: ScrapedItem| scraped_view(it),
            ).push(scraped_view(it)));
        }
        items.push(it);
        i = i + 1;
    }
    assert(es.take(elements.len() as int) =~= es);
    Some(items)
}

/// The groups of items a page yields, one per container selector whose
/// selectors parse, in the order of the selectors.
pub open spec fn page_groups(
    html: Seq<char>,
    containers: Seq<Seq<char>>,
    title: Seq<char>,
    snippet: Seq<char>,
) -> Seq<Seq<ItemView>>
    decreases containers.len(),
{
    if containers.len() == 0 {
        seq![]
    } else {
        let rest = page_groups(html, containers.drop_first(), title, snippet);
        match scraped_elements_of(html, containers[0], title, snippet) {
            Some(es) => seq![es.map_values(|e: ElementView| element_item(e))] + rest,
            None => rest,
        }
    }
}

/// The search results of a page: container selectors are tried in order
/// and the first that yields a result is used.
pub fn scrape_results(
    html: &str,
    containers: &[&str],
    title: &str,
    snippet: &str,
    baidu: bool,
    count: usize,
) -> (r: Vec<SearchResult>)
    ensures
        r@.map_values(|x: SearchResult| result_view(x)) == collect_groups_spec(
            page_groups(html@, containers@.map_values(|c: &str| c@), title@, snippet@),
            baidu,
            count as nat,
        ),
{
    let ghost cs = containers@.map_values(|c: &str| c@);
    let mut k: usize = 0;
    assert(cs.skip(0) =~= cs);
    while k < containers.len()
        invariant
            k <= containers.len(),
            cs == containers@.map_values(|c: &str| c@),
            collect_groups_spec(page_groups(html@, cs, title@, snippet@), baidu, count as nat)
                == collect_groups_spec(page_groups(html@, cs.skip(k as int), title@, snippet@), baidu, count as nat),
        decreases containers.len() - k,
    {
        let ghost rest = cs.skip(k as int);
        proof {
            assert(rest[0] == containers@[k as int]@);
            assert(rest.drop_first() =~= cs.skip(k + 1));
        }
        match scrape_group(html, containers[k], title, snippet) {
            Some(items) => {
                let mut kept: Vec<SearchResult> = Vec::new();
                collect_results(items.as_slice(), baidu, count, &mut kept);
                proof {
                    let g = items@.map_values(|it: ScrapedItem| scraped_view(it));
                    let later = page_groups(html@, cs.skip(k + 1), title@, snippet@);
                    let all = seq![g] + later;
                    assert(all[0] == g);
                    assert(all.drop_first() =~= later);
                    assert(Seq::<SearchResult>::empty().map_values(|r: SearchResult| result_view(r)) =~= Seq::<
                        (Seq<char>, Seq<char>, Seq<char>),
                    >::empty());
                }
                if kept.len() > 0 {
                    return kept;
                }
            },
            None => {},
        }
        k = k + 1;
    }
    assert(cs.skip(k as int) =~= Seq::<Seq<char>>::empty());
    let r: Vec<SearchResult> = Vec::new();
    assert(r@.map_values(|x: SearchResult| result_view(x)) =~= Seq::<(Seq<char>, Seq<char>, Seq<char>)>::empty());
    r
}

/// The elements that hold Bing's organic results, on desktop and mobile pages.
pub open spec fn bing_containers() -> Seq<Seq<char>> {
    seq!["li.b_algo"@, "li.b_ans"@, "div.b_algo"@]
}

pub open spec fn bing_title_selector() -> Seq<char> {
    "h2 a, .b_title a"@
}

pub open spec fn bing_snippet_selector() -> Seq<char> {
    ".b_caption p, .b_lineclamp2, .b_lineclamp3, .b_lineclamp4, .b_dList"@
}

/// The results of a Bing result page, at most `count`.
pub fn bing_page_results(html: &str, count: usize) -> (r: Vec<SearchResult>)
    ensures
        r@.map_values(|x: SearchResult| result_view(x)) == collect_groups_spec(
            page_groups(html@, bing_containers(), bing_title_selector(), bing_snippet_selector()),
            false,
            count as nat,
        ),
{
    let containers: [&str; 3] = ["li.b_algo", "li.b_ans", "div.b_algo"];
    assert(containers@.map_values(|c: &str| c@) =~= bing_containers());
    scrape_results(
        html,
        containers.as_slice(),
        "h2 a, .b_title a",
        ".b_caption p, .b_lineclamp2, .b_lineclamp3, .b_lineclamp4, .b_dList",
        false,
        count,
    )
}

/// The elements that may hold a mobile Baidu result, most specific first.
pub open spec fn baidu_containers() -> Seq<Seq<char>> {
    seq!["article"@, "div.c-result"@, "div[data-log]"@, "div.result"@, "#page-bd > div "@]
}

pub open spec fn baidu_title_selector() -> Seq<char> {
    "h3 a, .c-title a, .c-result-title a "@
}

pub open spec fn baidu_snippet_selector() -> Seq<char> {
    ".c-abstract, .c-summary, .c-gap-top-small, p[class], [class*=abstract], [class*=summary]"@
}

/// The results of a mobile Baidu result page, at most `count`, with
/// Baidu-relative links made absolute.
pub fn baidu_page_results(html: &str, count: usize) -> (r: Vec<SearchResult>)
    ensures
        r@.map_values(|x: SearchResult| result_view(x)) == collect_groups_spec(
            page_groups(html@, baidu_containers(), baidu_title_selector(), baidu_snippet_selector()),
            true,
            count as nat,
        ),
{
    let containers: [&str; 5] = ["article", "div.c-result", "div[data-log]", "div.result", "#page-bd > div "];
    assert(containers@.map_values(|c: &str| c@) =~= baidu_containers());
    scrape_results(
        html,
        containers.as_slice(),
        "h3 a, .c-title a, .c-result-title a ",
        ".c-abstract, .c-summary, .c-gap-top-small, p[class], [class*=abstract], [class*=summary]",
        true,
        count,
    )
}

pub open spec fn duckduckgo_containers() -> Seq<Seq<char>> {
    seq![".result, .results_links, .web-result"@]
}

pub open spec fn duckduckgo_title_selector() -> Seq<char> {
    "a.result__a, h2 a"@
}

pub open spec fn duckduckgo_snippet_selector() -> Seq<char> {
    ".result__snippet, .result__body"@
}

/// The results of a DuckDuckGo HTML result page, at most `count`; an error
/// when there are none.
pub fn duckduckgo_page_results(html: &str, count: usize) -> (r: Result<Vec<SearchResult>, String>)
    ensures
        ({
            let found = collect_groups_spec(
                page_groups(html@, duckduckgo_containers(), duckduckgo_title_selector(), duckduckgo_snippet_selector()),
                false,
                count as nat,
            );
            &&& r is Err <==> found.len() == 0
            &&& r matches Ok(v) ==> v@.map_values(|x: SearchResult| result_view(x)) == found
            &&& r matches Err(e) ==> e@ == "DuckDuckGo returned no parseable results"@
        }),
{
    let containers: [&str; 1] = [".result, .results_links, .web-result"];
    assert(containers@.map_values(|c: &str| c@) =~= duckduckgo_containers());
    let found = scrape_results(
        html,
        containers.as_slice(),
        "a.result__a, h2 a",
        ".result__snippet, .result__body",
        false,
        count,
    );
    if found.len() == 0 {
        Err("DuckDuckGo returned no parseable results".to_owned())
    } else {
        Ok(found)
    }
}

/// A result found by a browser script is kept when it has a title and a link.
pub fn keep_browser_results(found: Vec<SearchResult>) -> (r: Vec<SearchResult>)
    ensures
        r@ == found@.filter(|x: SearchResult| x.title@.len() > 0 && x.url@.len() > 0),
{
    let mut r: Vec<SearchResult> = Vec::new();
    let mut i: usize = 0;
    let ghost pred = |x: SearchResult| x.title@.len() > 0 && x.url@.len() > 0;
    assert(found@.take(0).filter(pred) =~= Seq::<SearchResult>::empty());
    while i < found.len()
        invariant
            i <= found.len(),
            pred == (|x: SearchResult| x.title@.len() > 0 && x.url@.len() > 0),
            r@ == found@.take(i as int).filter(pred),
        decreases found.len() - i,
    {
        proof {
            crate::text::lemma_filter_push(found@.take(i as int), pred, found@[i as int]);
            assert(found@.take(i + 1) =~= found@.take(i as int).push(found@[i as int]));
        }
        if !found[i].title.as_str().is_empty() && !found[i].url.as_str().is_empty() {
            r.push(crate::web::copy_result(&found[i]));
        }
        i = i + 1;
    }
    assert(found@.take(found.len() as int) =~= found@);
    r
}

pub fn copy_result(r: &SearchResult) -> (c: SearchResult)
    ensures
        c == *r,
{
    SearchResult { title: copy_string(&r.title), url: copy_string(&r.url), snippet: copy_string(&r.snippet) }
}

} // verus!

verus! {

/// Every byte percent-encoded but ASCII letters, digits and `-`, `.`, `_`, `~`,
/// with uppercase hexadecimal digits.
pub open spec fn url_encode_spec(b: Seq<u8>) -> Seq<char>
    decreases b.len(),
{
    if b.len() == 0 {
        seq![]
    } else {
        let c = b[0];
        let head: Seq<char> = if (0x30 <= c <= 0x39) || (0x41 <= c <= 0x5A) || (0x61 <= c <= 0x7A) || c
            == 0x2D || c == 0x2E || c == 0x5F || c == 0x7E {
            seq![c as char]
        } else {
            seq!['%', upper_hex_digit((c / 16) as int), upper_hex_digit((c % 16) as int)]
        };
        head + url_encode_spec(b.drop_first())
    }
}

/// An uppercase hexadecimal digit.
pub open spec fn upper_hex_digit(d: int) -> char {
    if d < 10 {
        (('0' as u32) + d) as char
    } else {
        (('A' as u32) + d - 10) as char
    }
}

/// `urlencoding::encode`, which percent-encodes the UTF-8 bytes of a text as
/// `url_encode_spec` says (its documentation and source state that rule).
#[verifier::external_body]
fn url_encode(s: &str) -> (r: String)
    ensures
        r@ == url_encode_spec(encode_utf8(s@)),
{
    urlencoding::encode(s).into_owned()
}

/// The Bing results page a browser opens for a query.
pub fn bing_browser_url(query: &str) -> (r: String)
    ensures
        r@ == "https://www.bing.com/search?q="@ + url_encode_spec(encode_utf8(query@))
            + "&mkt=zh-CN&setlang=zh-Hans&cc=CN&FORM=HDRSC1"@,
{
    let e = url_encode(query);
    let a = str_concat("https://www.bing.com/search?q=", e.as_str());
    str_concat(a.as_str(), "&mkt=zh-CN&setlang=zh-Hans&cc=CN&FORM=HDRSC1")
}

/// The Baidu results page a browser opens for a query, asking for at most
/// 50 results.
pub fn baidu_browser_url(query: &str, count: usize) -> (r: String)
    ensures
        r@ == "https://www.baidu.com/s?wd="@ + url_encode_spec(encode_utf8(query@)) + "&rn="@
            + decimal_spec(if count < 50 { count as nat } else { 50 }),
{
    let e = url_encode(query);
    let a = str_concat("https://www.baidu.com/s?wd=", e.as_str());
    let b = str_concat(a.as_str(), "&rn=");
    let n = if count < 50 { count } else { 50 };
    let d = string_from_chars(decimal_chars(n as u128).as_slice());
    str_concat(b.as_str(), d.as_str())
}

/// The browsers a search may drive, in order of preference.
#[derive(Debug, Clone, Copy, PartialEq, Eq, Structural)]
pub enum BrowserEngine {
    Chrome,
    Edge,
    Firefox,
}

/// The first browser whose binary was found: Chrome, then Edge, then Firefox.
pub fn first_available_cdp_engine(chrome: bool, edge: bool, firefox: bool) -> (r: Option<BrowserEngine>)
    ensures
        r == (if chrome {
            Some(BrowserEngine::Chrome)
        } else if edge {
            Some(BrowserEngine::Edge)
        } else if firefox {
            Some(BrowserEngine::Firefox)
        } else {
            None
        }),
{
    if chrome {
        Some(BrowserEngine::Chrome)
    } else if edge {
        Some(BrowserEngine::Edge)
    } else if firefox {
        Some(BrowserEngine::Firefox)
    } else {
        None
    }
}

/// The plain text of a page for `web_fetch` in text mode: the first of
/// `article`, `main`, `body` with any text, else the whole page.
pub open spec fn page_plain_text(html: Seq<char>, k: nat) -> Seq<char>
    decreases 3 - k,
{
    if k >= 3 {
        normalize_ws_spec(join_spec(page_text_of(html), " "@))
    } else {
        let sel = if k == 0 {
            "article"@
        } else if k == 1 {
            "main"@
        } else {
            "body"@
        };
        match selected_text_of(html, sel) {
            Some(nodes) => {
                let t = normalize_ws_spec(join_spec(nodes, " "@));
                if t.len() > 0 {
                    t
                } else {
                    page_plain_text(html, k + 1)
                }
            },
            None => page_plain_text(html, k + 1),
        }
    }
}

pub fn extract_text_from_html(html: &str) -> (r: String)
    ensures
        r@ == page_plain_text(html@, 0),
{
    let sp = chars_of(" ");
    let mut k: usize = 0;
    while k < 3
        invariant
            k <= 3,
            sp@ == " "@,
            page_plain_text(html@, 0) == page_plain_text(html@, k as nat),
        decreases 3 - k,
    {
        let sel = if k == 0 {
            "article"
        } else if k == 1 {
            "main"
        } else {
            "body"
        };
        match select_first_text(html, sel) {
            Some(nodes) => {
                let joined = join_strings(nodes.as_slice(), sp.as_slice());
                let t = normalize_ws(joined.as_slice());
                if t.len() > 0 {
                    return string_from_chars(t.as_slice());
                }
            },
            None => {},
        }
        k = k + 1;
    }
    let nodes = page_text(html);
    let joined = join_strings(nodes.as_slice(), sp.as_slice());
    let t = normalize_ws(joined.as_slice());
    string_from_chars(t.as_slice())
}

} // verus!

verus! {

/// The ways a search can be answered, in the order they may be tried.
#[derive(Debug, Clone, Copy, PartialEq, Eq, Structural)]
pub enum SearchStep {
    Brave,
    BaiduBrowser,
    BingBrowser,
    BaiduScrape,
    BingScrape,
    DuckDuckGo,
}

/// The `source` a search answer reports.
pub fn source_name(s: SearchStep) -> (r: &'static str)
    ensures
        r@ == source_name_spec(s),
{
    match s {
        SearchStep::Brave => "brave",
        SearchStep::BaiduBrowser => "baidu_cdp",
        SearchStep::BingBrowser => "bing_cdp",
        SearchStep::BaiduScrape => "baidu",
        SearchStep::BingScrape => "bing",
        SearchStep::DuckDuckGo => "duckduckgo",
    }
}

pub open spec fn source_name_spec(s: SearchStep) -> Seq<char> {
    match s {
        SearchStep::Brave => "brave"@,
        SearchStep::BaiduBrowser => "baidu_cdp"@,
        SearchStep::BingBrowser => "bing_cdp"@,
        SearchStep::BaiduScrape => "baidu"@,
        SearchStep::BingScrape => "bing"@,
        SearchStep::DuckDuckGo => "duckduckgo"@,
    }
}

/// What a step came back with: so many results, or an error message.
#[derive(Debug, Clone)]
pub enum StepOutcome {
    Results(usize),
    Failed(String),
}

/// What the search does next.
#[derive(Debug, Clone)]
pub enum SearchDecision {
    /// Try this step.
    Try(SearchStep),
    /// Answer with the results of this step.
    Answer(SearchStep),
    /// Give up with this error message.
    GiveUp(String),
}

/// A decision as a plain value.
pub open spec fn decision_view(d: SearchDecision) -> (int, SearchStep, Seq<char>) {
    match d {
        SearchDecision::Try(s) => (0, s, seq![]),
        SearchDecision::Answer(s) => (1, s, seq![]),
        SearchDecision::GiveUp(m) => (2, SearchStep::Brave, m@),
    }
}

/// The first step of a search: Brave when an API key is configured, else
/// Baidu in a browser for Chinese queries and a Bing scrape for others.
pub open spec fn first_step_spec(has_api_key: bool, chinese: bool) -> SearchStep {
    if has_api_key {
        SearchStep::Brave
    } else if chinese {
        SearchStep::BaiduBrowser
    } else {
        SearchStep::BingScrape
    }
}

pub fn first_step(has_api_key: bool, chinese: bool) -> (s: SearchStep)
    ensures
        s == first_step_spec(has_api_key, chinese),
{
    if has_api_key {
        SearchStep::Brave
    } else if chinese {
        SearchStep::BaiduBrowser
    } else {
        SearchStep::BingScrape
    }
}

/// The search's memory between steps.
pub struct SearchPlan {
    pub chinese: bool,
    pub query: String,
    /// The error of the Bing scrape, once it failed.
    pub bing_error: Option<String>,
}

pub open spec fn outcome_found(o: StepOutcome) -> bool {
    o matches StepOutcome::Results(n) && n > 0
}

/// The decision after a step, and the Bing error remembered.
pub open spec fn next_spec(
    chinese: bool,
    query: Seq<char>,
    bing_error: Option<Seq<char>>,
    step: SearchStep,
    o: StepOutcome,
) -> (Option<Seq<char>>, (int, SearchStep, Seq<char>)) {
    let fallback = if chinese {
        SearchStep::BaiduBrowser
    } else {
        SearchStep::BingScrape
    };
    let e = match bing_error {
        Some(x) => x,
        None => Seq::<char>::empty(),
    };
    match step {
        SearchStep::Brave => match o {
            StepOutcome::Results(_) => (bing_error, (1, step, seq![])),
            StepOutcome::Failed(_) => (bing_error, (0, fallback, seq![])),
        },
        SearchStep::BaiduBrowser => if outcome_found(o) {
            (bing_error, (1, step, seq![]))
        } else {
            (bing_error, (0, SearchStep::BingBrowser, seq![]))
        },
        SearchStep::BingBrowser => if outcome_found(o) {
            (bing_error, (1, step, seq![]))
        } else if chinese {
            (bing_error, (0, SearchStep::BaiduScrape, seq![]))
        } else {
            (bing_error, (0, SearchStep::DuckDuckGo, seq![]))
        },
        SearchStep::BaiduScrape => if outcome_found(o) {
            (bing_error, (1, step, seq![]))
        } else {
            (bing_error, (0, SearchStep::BingScrape, seq![]))
        },
        SearchStep::BingScrape => match o {
            StepOutcome::Results(_) => (bing_error, (1, step, seq![])),
            StepOutcome::Failed(m) => (
                Some(m@),
                (0, if chinese {
                    SearchStep::DuckDuckGo
                } else {
                    SearchStep::BingBrowser
                }, seq![]),
            ),
        },
        SearchStep::DuckDuckGo => if outcome_found(o) {
            (bing_error, (1, step, seq![]))
        } else if !chinese {
            (bing_error, (2, SearchStep::Brave, e))
        } else {
            match o {
                StepOutcome::Results(_) => (
                    bing_error,
                    (
                        2,
                        SearchStep::Brave,
                        "All search methods failed for query '"@ + query + "'. Bing error: "@ + e
                            + ". DuckDuckGo returned empty results."@,
                    ),
                ),
                StepOutcome::Failed(d) => (
                    bing_error,
                    (
                        2,
                        SearchStep::Brave,
                        "All search methods failed for query '"@ + query + "'. Bing error: "@ + e
                            + ". DuckDuckGo error: "@ + d@,
                    ),
                ),
            }
        },
    }
}

pub open spec fn opt_view(o: Option<String>) -> Option<Seq<char>> {
    match o {
        Some(s) => Some(s@),
        None => None,
    }
}

impl SearchPlan {
    pub fn new(chinese: bool, query: String) -> (p: Self)
        ensures
            p.chinese == chinese && p.query == query && p.bing_error is None,
    {
        SearchPlan { chinese, query, bing_error: None }
    }

    /// Takes in what a step came back with and says what to do next.
    pub fn next(&mut self, step: SearchStep, outcome: StepOutcome) -> (d: SearchDecision)
        ensures
            (opt_view(final(self).bing_error), decision_view(d)) == next_spec(
                old(self).chinese,
                old(self).query@,
                opt_view(old(self).bing_error),
                step,
                outcome,
            ),
            final(self).chinese == old(self).chinese,
            final(self).query == old(self).query,
    {
        let found = match &outcome {
            StepOutcome::Results(n) => *n > 0,
            StepOutcome::Failed(_) => false,
        };
        match step {
            SearchStep::Brave => match outcome {
                StepOutcome::Results(_) => SearchDecision::Answer(step),
                StepOutcome::Failed(_) => SearchDecision::Try(
                    if self.chinese {
                        SearchStep::BaiduBrowser
                    } else {
                        SearchStep::BingScrape
                    },
                ),
            },
            SearchStep::BaiduBrowser => if found {
                SearchDecision::Answer(step)
            } else {
                SearchDecision::Try(SearchStep::BingBrowser)
            },
            SearchStep::BingBrowser => if found {
                SearchDecision::Answer(step)
            } else if self.chinese {
                SearchDecision::Try(SearchStep::BaiduScrape)
            } else {
                SearchDecision::Try(SearchStep::DuckDuckGo)
            },
            SearchStep::BaiduScrape => if found {
                SearchDecision::Answer(step)
            } else {
                SearchDecision::Try(SearchStep::BingScrape)
            },
            SearchStep::BingScrape => match outcome {
                StepOutcome::Results(_) => SearchDecision::Answer(step),
                StepOutcome::Failed(m) => {
                    self.bing_error = Some(m);
                    SearchDecision::Try(
                        if self.chinese {
                            SearchStep::DuckDuckGo
                        } else {
                            SearchStep::BingBrowser
                        },
                    )
                },
            },
            SearchStep::DuckDuckGo => {
                if found {
                    return SearchDecision::Answer(step);
                }
                let e = match &self.bing_error {
                    Some(x) => copy_string(x),
                    None => String::new(),
                };
                if !self.chinese {
                    return SearchDecision::GiveUp(e);
                }
                let a = str_concat("All search methods failed for query '", self.query.as_str());
                let b = str_concat(a.as_str(), "'. Bing error: ");
                let c = str_concat(b.as_str(), e.as_str());
                match outcome {
                    StepOutcome::Results(_) => SearchDecision::GiveUp(
                        str_concat(c.as_str(), ". DuckDuckGo returned empty results."),
                    ),
                    StepOutcome::Failed(d) => {
                        let x = str_concat(c.as_str(), ". DuckDuckGo error: ");
                        SearchDecision::GiveUp(str_concat(x.as_str(), d.as_str()))
                    },
                }
            },
        }
    }
}

/// What the Bing scrape answers: its own results when it found any, else
/// the browser's when that found any, else an error that says whether the
/// page was a bot check.
pub fn bing_scrape_verdict(scraped: usize, browser_found: bool, looks_blocked: bool) -> (r: Result<bool, String>)
    ensures
        scraped > 0 ==> r == Ok::<bool, String>(false),
        scraped == 0 && browser_found ==> r == Ok::<bool, String>(true),
        scraped == 0 && !browser_found && looks_blocked ==> (r matches Err(e) && e@
            == "Bing returned a bot-check/captcha page (no parseable results). Consider configuring Brave Search API or try again later."@),
        scraped == 0 && !browser_found && !looks_blocked ==> (r matches Err(e) && e@
            == "Bing returned no parseable results. Try a different query."@),
{
    if scraped > 0 {
        Ok(false)
    } else if browser_found {
        Ok(true)
    } else if looks_blocked {
        Err("Bing returned a bot-check/captcha page (no parseable results). Consider configuring Brave Search API or try again later.".to_owned())
    } else {
        Err("Bing returned no parseable results. Try a different query.".to_owned())
    }
}

/// Every search ends: from any step, following the decisions, at most six
/// steps are tried before an answer or an error.
pub open spec fn step_rank(chinese: bool, s: SearchStep) -> int {
    if chinese {
        match s {
            SearchStep::Brave => 0,
            SearchStep::BaiduBrowser => 1,
            SearchStep::BingBrowser => 2,
            SearchStep::BaiduScrape => 3,
            SearchStep::BingScrape => 4,
            SearchStep::DuckDuckGo => 5,
        }
    } else {
        match s {
            SearchStep::Brave => 0,
            SearchStep::BingScrape => 1,
            SearchStep::BingBrowser => 2,
            SearchStep::DuckDuckGo => 3,
            _ => 4,
        }
    }
}

/// Each step either answers, gives up, or moves on to a later step, so the
/// chain of search engines always ends.
pub proof fn lemma_search_progresses(
    chinese: bool,
    query: Seq<char>,
    bing_error: Option<Seq<char>>,
    step: SearchStep,
    o: StepOutcome,
)
    requires
        chinese || (step != SearchStep::BaiduBrowser && step != SearchStep::BaiduScrape),
    ensures
        next_spec(chinese, query, bing_error, step, o).1.0 == 0 ==> step_rank(
            chinese,
            next_spec(chinese, query, bing_error, step, o).1.1,
        ) > step_rank(chinese, step),
        next_spec(chinese, query, bing_error, step, o).1.0 == 0 ==> (chinese || (next_spec(
            chinese,
            query,
            bing_error,
            step,
            o,
        ).1.1 != SearchStep::BaiduBrowser && next_spec(chinese, query, bing_error, step, o).1.1
            != SearchStep::BaiduScrape)),
        outcome_found(o) ==> next_spec(chinese, query, bing_error, step, o).1.0 == 1,
{
}

/// When the Brave API fails, the search goes on where it would have started
/// without an API key (Baidu in a browser for Chinese queries, a Bing scrape
/// for others), and nothing is remembered of the failure.
pub proof fn lemma_brave_failure_falls_back(
    chinese: bool,
    query: Seq<char>,
    bing_error: Option<Seq<char>>,
    message: String,
)
    ensures
        next_spec(chinese, query, bing_error, SearchStep::Brave, StepOutcome::Failed(message)) == (
            bing_error,
            (0int, first_step_spec(false, chinese), Seq::<char>::empty()),
        ),
{
}

/// Only the last engine gives up: every other step answers or moves on, so
/// a search is never abandoned while an engine is left to try.
pub proof fn lemma_only_last_step_gives_up(
    chinese: bool,
    query: Seq<char>,
    bing_error: Option<Seq<char>>,
    step: SearchStep,
    o: StepOutcome,
)
    ensures
        next_spec(chinese, query, bing_error, step, o).1.0 == 2 ==> step == SearchStep::DuckDuckGo,
        0 <= next_spec(chinese, query, bing_error, step, o).1.0 <= 2,
{
}

} // verus!

verus! {

/// The text `web_fetch` returns in text format: an HTML body's readable text,
/// any other body as it is.
pub fn plain_text_body(content_type: &str, body: String) -> (r: String)
    ensures
        r@ == (if has_infix(content_type@, "text/html"@) {
            page_plain_text(body@, 0)
        } else {
            body@
        }),
{
    let ct = chars_of(content_type);
    let html = chars_of("text/html");
    if contains_chars(ct.as_slice(), html.as_slice()) {
        extract_text_from_html(body.as_str())
    } else {
        body
    }
}

/// A text or raw body cut to `max_bytes` bytes, and whether anything was cut.
pub fn cut_body(text: &str, max_bytes: usize) -> (r: (String, bool))
    ensures
        r.0@ == truncate_utf8_spec(text@, max_bytes as int),
        r.1 == (byte_len(text@) > max_bytes),
{
    let v = chars_of(text);
    let fits = fits_in_bytes(v.as_slice(), max_bytes);
    (truncate_utf8(text, max_bytes), !fits)
}

/// The `truncated` flag of a Markdown answer: its length reached the limit.
pub fn reached_limit(content: &str, max_bytes: usize) -> (r: bool)
    ensures
        r == (byte_len(content@) >= max_bytes),
{
    if max_bytes == 0 {
        return true;
    }
    let v = chars_of(content);
    !fits_in_bytes(v.as_slice(), max_bytes - 1)
}

} // verus!

verus! {

pub const WEB_SEARCH_DESCRIPTION: &'static str = "Search the web. Uses Brave Search API if configured. For Chinese queries, automatically uses Baidu first (best quality for Chinese content, especially from overseas servers), then falls back to Bing (zh-CN locale). Tip: set freshness=day for 'last 24 hours' news.";

pub const WEB_SEARCH_PARAMETERS: &'static str = r#"{"type":"object","properties":{"query":{"type":"string","description":"Search query"},"count":{"type":"integer","description":"Number of results (1-10, default 5)"},"freshness":{"type":"string","description":"Recency filter. Only applied when using Brave Search API.","enum":["day","week","month","year"]}},"required":["query"]}"#;

pub const WEB_FETCH_DESCRIPTION: &'static str = "Fetch a web page and return its content as clean Markdown. Uses 'Accept: text/markdown' content negotiation (Cloudflare Markdown for Agents) for optimal results — if the server supports it, markdown is returned directly with ~80% token savings. Otherwise, HTML is converted to markdown locally. Returns markdown_tokens estimate and content_signal when available.";

pub const WEB_FETCH_PARAMETERS: &'static str = r#"{"type":"object","properties":{"url":{"type":"string","description":"URL to fetch (must be http or https)"},"extractMode":{"type":"string","enum":["markdown","text","raw"],"description":"Content extraction mode. 'markdown' (default): returns clean markdown via content negotiation + local conversion. 'text': returns plain text only. 'raw': returns raw response body without conversion."},"maxChars":{"type":"integer","description":"Maximum characters to return (default: 50000)"}},"required":["url"]}"#;

/// The `web_search` tool.
pub struct WebSearchTool;

impl WebSearchTool {
    pub fn schema(&self) -> (s: ToolSchema)
        ensures
            s.name@ == "web_search"@,
            s.description@ == WEB_SEARCH_DESCRIPTION@,
            s.parameters@ == WEB_SEARCH_PARAMETERS@,
    {
        ToolSchema {
            name: "web_search".to_owned(),
            description: WEB_SEARCH_DESCRIPTION.to_owned(),
            parameters: WEB_SEARCH_PARAMETERS.to_owned(),
        }
    }

    /// A `query` string is required.
    pub fn validate(&self, query: Option<&str>) -> (r: Result<(), ToolError>)
        ensures
            r is Ok <==> query is Some,
            r matches Err(e) ==> err_view(e) == (ToolErrorKind::Validation, "Missing required parameter: query"@),
    {
        validate_search(query)
    }
}

/// The `web_fetch` tool.
pub struct WebFetchTool;

impl WebFetchTool {
    pub fn schema(&self) -> (s: ToolSchema)
        ensures
            s.name@ == "web_fetch"@,
            s.description@ == WEB_FETCH_DESCRIPTION@,
            s.parameters@ == WEB_FETCH_PARAMETERS@,
    {
        ToolSchema {
            name: "web_fetch".to_owned(),
            description: WEB_FETCH_DESCRIPTION.to_owned(),
            parameters: WEB_FETCH_PARAMETERS.to_owned(),
        }
    }

    /// An `http://` or `https://` URL is required.
    pub fn validate(&self, url: Option<&str>) -> (r: Result<(), ToolError>)
        ensures
            r is Err <==> fetch_url_error(
                match url {
                    Some(u) => Some(u@),
                    None => None,
                },
            ) is Some,
            r matches Err(e) ==> e.kind == ToolErrorKind::Validation && Some(e.message@) == fetch_url_error(
                match url {
                    Some(u) => Some(u@),
                    None => None,
                },
            ),
    {
        validate_fetch(url)
    }
}

} // verus!
