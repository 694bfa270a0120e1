use blockcell::exec_local::{
    check_inside_skill_dir, check_scope, command_line, path_starts_with, run_args, script_not_found, timed_out,
    truncate_output, validate_params, validate_relative_skill_path, validate_runner, ExecLocalParams,
    ToolErrorKind,
};
use blockcell::html_to_md::{
    clean_markdown, extract_text_fallback, html_to_markdown, markdown_from_body, truncate_utf8, MarkdownMeta,
};
use blockcell::memory::{normalize_upsert, normalize_upsert_at, normalize_upsert_now, MemoryService, MemoryType};
use blockcell::versioning::{path_join, primary_of, skill_hash, SkillVersion, VersionHistory, VersionManager, VersionSource};
use blockcell::web::{
    baidu_browser_url, baidu_page_results, bing_browser_url, bing_html_looks_blocked, bing_page_results,
    bing_scrape_verdict, collect_groups, duckduckgo_page_results,
    collect_results, cut_body, extract_text_from_html, first_available_cdp_engine, first_step,
    html_looks_like_challenge, is_chinese_query, needs_browser_fetch, reached_limit, search_count,
    source_name, BrowserEngine, ScrapedItem, SearchDecision, SearchPlan, SearchStep, StepOutcome,
};

#[test]
fn script_paths_must_stay_inside() {
    let e = validate_relative_skill_path("  ").err().unwrap();
    assert_eq!(e.kind, ToolErrorKind::Validation);
    assert_eq!(e.message, "Missing required parameter: path");
    let e = validate_relative_skill_path("/etc/passwd").err().unwrap();
    assert_eq!(e.kind, ToolErrorKind::Validation);
    let e = validate_relative_skill_path("../outside.sh").err().unwrap();
    assert_eq!(e.kind, ToolErrorKind::PermissionDenied);
    assert!(e.message.contains("skill directory"));
    assert!(validate_relative_skill_path("a/../b").is_err());
    assert!(validate_relative_skill_path("a/..").is_err());
    assert!(validate_relative_skill_path("a/..b").is_ok());
    assert!(validate_relative_skill_path(" scripts/run.sh ").is_ok());
}

#[test]
fn runners_are_whitelisted() {
    for r in ["python3", "bash", "sh", "node", "php"] {
        assert!(validate_runner(r).is_ok());
    }
    let e = validate_runner("perl").err().unwrap();
    assert_eq!(e.message, "Runner 'perl' is not allowed for exec_local");
}

#[test]
fn exec_parameters_checked_in_order() {
    let p = ExecLocalParams { path: None, runner: None, args: None, cwd_mode: None };
    assert_eq!(validate_params(&p).err().unwrap().message, "Missing required parameter: path");
    let p = ExecLocalParams {
        path: Some("s.sh".to_string()),
        runner: None,
        args: Some(vec![Some("a".to_string()), None]),
        cwd_mode: None,
    };
    assert_eq!(validate_params(&p).err().unwrap().message, "`args` must be an array of strings");
    assert!(run_args(&p).is_err());
    let p = ExecLocalParams {
        path: Some("s.sh".to_string()),
        runner: None,
        args: Some(vec![Some("a".to_string())]),
        cwd_mode: Some("tmp".to_string()),
    };
    assert_eq!(validate_params(&p).err().unwrap().message, "`cwd_mode` only supports `skill`");
    let p = ExecLocalParams {
        path: Some("s.sh".to_string()),
        runner: Some("sh".to_string()),
        args: Some(vec![Some("a".to_string()), Some("b".to_string())]),
        cwd_mode: Some("skill".to_string()),
    };
    assert!(validate_params(&p).is_ok());
    assert_eq!(run_args(&p).unwrap(), vec!["a".to_string(), "b".to_string()]);
    assert_eq!(check_scope(false, Some("s.sh")).err().unwrap().kind, ToolErrorKind::PermissionDenied);
    assert!(check_scope(true, Some("s.sh")).is_ok());
    assert_eq!(script_not_found("x.sh").message, "Local script 'x.sh' not found");
    assert_eq!(timed_out(30).message, "Local script timed out after 30 seconds");
}

#[test]
fn output_and_command_line() {
    assert_eq!(truncate_output("abcdef".to_string(), 3, "... (stdout truncated)"), "abc\n... (stdout truncated)");
    assert_eq!(truncate_output("abc".to_string(), 3, "x"), "abc");
    let args = vec!["a".to_string(), "b".to_string()];
    assert_eq!(command_line(Some("sh"), "/s/x.sh", &args), "sh /s/x.sh a b");
    assert_eq!(command_line(None, "/s/x.sh", &args), "/s/x.sh a b");
}

#[test]
fn resolved_scripts_must_be_under_the_skill_directory() {
    assert!(path_starts_with("/a/b/c", "/a/b"));
    assert!(path_starts_with("/a/b/", "/a/b"));
    assert!(path_starts_with("/a//b/./c", "/a/b"));
    assert!(!path_starts_with("/a/bc", "/a/b"));
    assert!(!path_starts_with("a/b", "/a"));
    assert!(check_inside_skill_dir("/skills/x/run.sh", "/skills/x").is_ok());
    let e = check_inside_skill_dir("/skills/y/run.sh", "/skills/x").err().unwrap();
    assert_eq!(e.message, "Resolved script path is outside the active skill directory");
}

#[test]
fn markdown_cleanup_and_truncation() {
    assert_eq!(clean_markdown("  \n a \n\n\n b\n"), "a \n\n b");
    assert_eq!(clean_markdown("x\ny"), "x\ny");
    assert_eq!(clean_markdown("text\n[]()"), "text");
    assert_eq!(clean_markdown("a [](x) b\n\n\n\n[](y)\nc"), "a  b\n\nc");
    assert_eq!(clean_markdown("[link](u) [](open"), "[link](u) [](open");
    assert_eq!(clean_markdown("a [[]()]() b"), "a  b");
    assert_eq!(clean_markdown("x [][]()() y"), "x  y");
    assert_eq!(truncate_utf8("héllo", 2), "h");
    assert_eq!(truncate_utf8("héllo", 3), "hé");
    assert_eq!(truncate_utf8("abc", 10), "abc");
    let meta = MarkdownMeta::default();
    assert!(!meta.server_markdown);
    assert_eq!(meta.status, 0);
}

#[test]
fn pages_become_markdown() {
    let md = html_to_markdown("<html><body><h1>Hello</h1><script>alert('x')</script><p>World</p></body></html>");
    assert!(md.contains("Hello"));
    assert!(md.contains("World"));
    assert!(!md.contains("alert"));
    let long = "word ".repeat(40);
    let html = format!("<html><body><article><p>{long}</p></article><nav>Nav</nav></body></html>");
    let text = extract_text_fallback(&html);
    assert!(text.starts_with("word word"));
    assert!(!text.ends_with(' '));
}

#[test]
fn bodies_by_content_type() {
    let (t, server) = markdown_from_body("application/json", "{\"a\":1}".to_string(), 1000);
    assert_eq!(t, "{\n  \"a\": 1\n}");
    assert!(!server);
    let (t, server) = markdown_from_body("text/markdown; charset=utf-8", "# x".to_string(), 100);
    assert_eq!(t, "# x");
    assert!(server);
    let (t, _) = markdown_from_body("text/plain", "abcdef".to_string(), 3);
    assert_eq!(t, "abc");
    let (t, _) = markdown_from_body("application/json", "not json".to_string(), 100);
    assert_eq!(t, "not json");
}

#[test]
fn memory_types_and_writes() {
    assert_eq!(MemoryType::parse("fact"), Ok(MemoryType::Fact));
    assert_eq!(MemoryType::parse("x"), Err("Invalid memory type: x".to_string()));
    assert_eq!(MemoryType::SessionSummary.as_str(), "session_summary");
    assert_eq!("task".parse::<MemoryType>(), Ok(MemoryType::Task));
    let n = normalize_upsert("short_term", "note", "c", None, "D".to_string()).unwrap();
    assert_eq!(n.item_type, "note");
    assert_eq!(n.expires_at, Some("D".to_string()));
    let n = normalize_upsert("long_term", "note", "c", None, "D".to_string()).unwrap();
    assert_eq!(n.expires_at, None);
    assert_eq!(normalize_upsert("mid", "note", "c", None, String::new()).err(), Some("Invalid memory scope: mid".to_string()));
    assert_eq!(normalize_upsert("short_term", "note", "  ", None, String::new()).err(), Some("content cannot be empty".to_string()));
    assert_eq!(normalize_upsert("long_term", "bad", "c", None, String::new()).err(), Some("Invalid memory type: bad".to_string()));
    let n = normalize_upsert_now("short_term", "fact", "c", None).unwrap();
    assert!(n.expires_at.unwrap().len() > 10);
    let n = normalize_upsert_at("short_term", "fact", "c", None, 1700000000, 0).unwrap();
    assert_eq!(n.expires_at, Some("2023-11-17T22:13:20+00:00".to_string()));
    let n = normalize_upsert_at("short_term", "fact", "c", Some("X".to_string()), 1700000000, 0).unwrap();
    assert_eq!(n.expires_at, Some("X".to_string()));
    let n = normalize_upsert_at("long_term", "fact", "c", None, 1700000000, 0).unwrap();
    assert_eq!(n.expires_at, None);
    assert_eq!(normalize_upsert_at("mid", "fact", "c", None, 0, 0).err(), Some("Invalid memory scope: mid".to_string()));
    let svc = MemoryService::new(42u32);
    assert_eq!(*svc.store_ref(), 42);
}

fn version(label: &str) -> SkillVersion {
    SkillVersion {
        version: label.to_string(),
        hash: "h".to_string(),
        created_at: 1,
        created_by: VersionSource::Manual,
        changelog: None,
        parent_version: None,
    }
}

#[test]
fn version_history_rules() {
    let mut h = VersionHistory::empty("s");
    assert_eq!(h.current_version, "v1");
    let v1 = h.add_version("h1".to_string(), 1, VersionSource::Manual, None);
    assert_eq!(v1.version, "v1");
    assert_eq!(v1.parent_version, Some("v1".to_string()));
    let v2 = h.add_version("h2".to_string(), 2, VersionSource::Evolution, Some("c".to_string()));
    assert_eq!(v2.version, "v2");
    assert_eq!(v2.parent_version, Some("v1".to_string()));
    assert_eq!(h.current_version, "v2");
    assert_eq!(h.rollback_target(), Ok("v1".to_string()));
    assert_eq!(h.find_version("v2"), Ok(1));
    assert_eq!(h.find_version("v9"), Err("Version v9 not found".to_string()));
    h.set_current("v1");
    assert_eq!(h.current_version, "v1");
    let removed = h.prune(1);
    assert_eq!(removed.len(), 1);
    assert_eq!(removed[0].version, "v1");
    assert_eq!(h.versions.len(), 1);
    assert!(h.prune(5).is_empty());
    let imported = h.add_imported(version("v7"), 9);
    assert_eq!(imported.version, "v2");
    assert_eq!(imported.created_by, VersionSource::Import);
    assert_eq!(imported.created_at, 9);
    assert_eq!(h.current_version, "v1");
    let empty = VersionHistory::empty("solo");
    assert_eq!(empty.rollback_target(), Err("No previous version to rollback to for skill 'solo'".to_string()));
}

#[test]
fn version_files_and_hashes() {
    let m = VersionManager::new("/base".to_string());
    assert_eq!(m.get_history_file_path("sk"), "/base/sk/version_history.json");
    assert_eq!(m.get_version_snapshot_dir("sk", "v1"), "/base/sk/versions/v1");
    assert_eq!(path_join("/base/", "x"), "/base/x");
    assert_eq!(path_join("a", "/abs"), "/abs");
    assert_eq!(path_join("", "x"), "x");
    assert_eq!(m.compute_diff("a\nb", "a\nc\nd"), "--- version 1\n+++ version 2\n  a\n- b\n+ c\n+ d\n");
    assert_eq!(m.compute_diff("x\r\n", "x"), "--- version 1\n+++ version 2\n  x\n");
    assert_eq!(skill_hash(Some("hello")), "5d41402abc4b2a76b9719d911017c592");
    assert_eq!(skill_hash(None), "empty");
    assert_eq!(VersionManager::primary_skill_file("/nonexistent-dir-for-tests"), None);
    assert_eq!(primary_of("/s", true, true, true), Some("/s/SKILL.rhai".to_string()));
    assert_eq!(primary_of("/s", false, true, true), Some("/s/SKILL.py".to_string()));
    assert_eq!(primary_of("/s", false, false, true), Some("/s/SKILL.md".to_string()));
    assert_eq!(primary_of("/s", false, false, false), None);
}

fn scraped(title: Option<&str>, href: Option<&str>, snippet: Option<&str>) -> ScrapedItem {
    ScrapedItem {
        title: title.map(str::to_string),
        href: href.map(str::to_string),
        snippet: snippet.map(str::to_string),
    }
}

#[test]
fn search_parameters_and_heuristics() {
    assert_eq!(search_count(None), 5);
    assert_eq!(search_count(Some(50)), 10);
    assert_eq!(search_count(Some(3)), 3);
    assert!(is_chinese_query("rust 语言"));
    assert!(!is_chinese_query("rust"));
    assert!(bing_html_looks_blocked("<html>CAPTCHA</html>"));
    assert!(bing_html_looks_blocked("Sorry, Bing is busy"));
    assert!(!bing_html_looks_blocked("<html>results</html>"));
    assert!(html_looks_like_challenge("Just a moment... Cloudflare"));
    assert!(html_looks_like_challenge("Please wait"));
    let long = format!("please wait {}", "x".repeat(9000));
    assert!(!html_looks_like_challenge(&long));
    assert!(needs_browser_fetch("short", 200));
    assert!(!needs_browser_fetch("short", 404));
    assert!(!needs_browser_fetch(&"a".repeat(600), 200));
}

#[test]
fn scraped_results_are_filtered_and_deduplicated() {
    let items = vec![
        scraped(Some(" T1 "), Some("http://a"), Some(" s ")),
        scraped(Some("T2"), Some("http://a"), None),
        scraped(Some(""), Some("http://c"), None),
        scraped(Some("T3"), Some("ftp://x"), None),
        scraped(None, Some("http://d"), None),
        scraped(Some("T4"), Some("http://b"), None),
    ];
    let mut kept = Vec::new();
    collect_results(&items, false, 5, &mut kept);
    assert_eq!(kept.len(), 2);
    assert_eq!(kept[0].title, "T1");
    assert_eq!(kept[0].snippet, "s");
    assert_eq!(kept[1].url, "http://b");
    let mut one = Vec::new();
    collect_results(&items, false, 1, &mut one);
    assert_eq!(one.len(), 1);
    let baidu = vec![scraped(Some("B"), Some("/link?x"), None), scraped(Some("C"), Some("ftp://y"), None)];
    let mut kept = Vec::new();
    collect_results(&baidu, true, 5, &mut kept);
    assert_eq!(kept.len(), 1);
    assert_eq!(kept[0].url, "https://www.baidu.com/link?x");
    let groups = vec![vec![scraped(None, None, None)], vec![scraped(Some("G"), Some("https://g"), None)]];
    let r = collect_groups(&groups, false, 3);
    assert_eq!(r.len(), 1);
    assert_eq!(r[0].title, "G");
}

#[test]
fn search_urls_and_browsers() {
    assert_eq!(
        bing_browser_url("a b"),
        "https://www.bing.com/search?q=a%20b&mkt=zh-CN&setlang=zh-Hans&cc=CN&FORM=HDRSC1"
    );
    assert_eq!(baidu_browser_url("中", 80), "https://www.baidu.com/s?wd=%E4%B8%AD&rn=50");
    assert_eq!(baidu_browser_url("x-y_z.~", 7), "https://www.baidu.com/s?wd=x-y_z.~&rn=7");
    assert_eq!(first_available_cdp_engine(false, true, true), Some(BrowserEngine::Edge));
    assert_eq!(first_available_cdp_engine(false, false, false), None);
}

fn expect_try(d: SearchDecision) -> SearchStep {
    match d {
        SearchDecision::Try(s) => s,
        other => panic!("expected a next step, got {:?}", other),
    }
}

#[test]
fn search_engines_fall_back_in_order() {
    assert_eq!(first_step(false, false), SearchStep::BingScrape);
    let mut plan = SearchPlan::new(false, "q".to_string());
    assert_eq!(expect_try(plan.next(SearchStep::BingScrape, StepOutcome::Failed("e1".to_string()))), SearchStep::BingBrowser);
    assert_eq!(expect_try(plan.next(SearchStep::BingBrowser, StepOutcome::Results(0))), SearchStep::DuckDuckGo);
    match plan.next(SearchStep::DuckDuckGo, StepOutcome::Failed("x".to_string())) {
        SearchDecision::GiveUp(m) => assert_eq!(m, "e1"),
        other => panic!("unexpected {:?}", other),
    }

    assert_eq!(first_step(false, true), SearchStep::BaiduBrowser);
    let mut plan = SearchPlan::new(true, "q".to_string());
    assert_eq!(expect_try(plan.next(SearchStep::BaiduBrowser, StepOutcome::Results(0))), SearchStep::BingBrowser);
    assert_eq!(expect_try(plan.next(SearchStep::BingBrowser, StepOutcome::Failed("b".to_string()))), SearchStep::BaiduScrape);
    assert_eq!(expect_try(plan.next(SearchStep::BaiduScrape, StepOutcome::Results(0))), SearchStep::BingScrape);
    assert_eq!(expect_try(plan.next(SearchStep::BingScrape, StepOutcome::Failed("be".to_string()))), SearchStep::DuckDuckGo);
    match plan.next(SearchStep::DuckDuckGo, StepOutcome::Results(0)) {
        SearchDecision::GiveUp(m) => assert_eq!(
            m,
            "All search methods failed for query 'q'. Bing error: be. DuckDuckGo returned empty results."
        ),
        other => panic!("unexpected {:?}", other),
    }
    match plan.next(SearchStep::DuckDuckGo, StepOutcome::Failed("d".to_string())) {
        SearchDecision::GiveUp(m) => assert_eq!(m, "All search methods failed for query 'q'. Bing error: be. DuckDuckGo error: d"),
        other => panic!("unexpected {:?}", other),
    }
    assert_eq!(first_step(true, true), SearchStep::Brave);
    match SearchPlan::new(true, "q".to_string()).next(SearchStep::Brave, StepOutcome::Results(0)) {
        SearchDecision::Answer(s) => assert_eq!(source_name(s), "brave"),
        other => panic!("unexpected {:?}", other),
    }
    assert!(bing_scrape_verdict(0, false, true).err().unwrap().contains("bot-check"));
    assert_eq!(bing_scrape_verdict(3, false, true), Ok(false));
    assert_eq!(bing_scrape_verdict(0, true, true), Ok(true));
}

#[test]
fn fetched_bodies_are_cut_at_character_boundaries() {
    assert_eq!(cut_body("héllo", 3), ("hé".to_string(), true));
    assert_eq!(cut_body("abc", 3), ("abc".to_string(), false));
    assert!(reached_limit("abc", 3));
    assert!(!reached_limit("ab", 3));
    assert!(reached_limit("", 0));
    assert_eq!(extract_text_from_html("<html><body><p>Hello   World</p></body></html>"), "Hello World");
}

#[test]
fn result_pages_are_scraped() {
    let bing = [
        "<html><body><ol>",
        "<li class=\"b_algo\"><h2><a href=\"https://a.example/\"> Alpha </a></h2>",
        "<div class=\"b_caption\"><p>First <b>snippet</b></p></div></li>",
        "<li class=\"b_algo\"><h2><a href=\"https://a.example/\">Again</a></h2></li>",
        "<li class=\"b_algo\"><h2><a href=\"/relative\">Relative</a></h2></li>",
        "<li class=\"b_algo\"><h2><a href=\"https://b.example/\">Beta</a></h2></li>",
        "</ol></body></html>",
    ]
    .concat();
    let r = bing_page_results(&bing, 10);
    assert_eq!(r.len(), 2);
    assert_eq!(r[0].title, "Alpha");
    assert_eq!(r[0].url, "https://a.example/");
    assert_eq!(r[0].snippet, "First snippet");
    assert_eq!(r[1].title, "Beta");
    assert_eq!(r[1].snippet, "");
    assert_eq!(bing_page_results(&bing, 1).len(), 1);
    assert!(bing_page_results("<html><body><p>nothing</p></body></html>", 5).is_empty());

    let baidu = [
        "<html><body><div id=\"page-bd\">",
        "<div class=\"c-result\"><h3><a href=\"/link?url=abc\">百度结果</a></h3>",
        "<div class=\"c-abstract\">摘要</div></div>",
        "<div class=\"c-result\"><h3><a href=\"javascript:void(0)\">skip</a></h3></div>",
        "</div></body></html>",
    ]
    .concat();
    let r = baidu_page_results(&baidu, 10);
    assert_eq!(r.len(), 1);
    assert_eq!(r[0].url, "https://www.baidu.com/link?url=abc");
    assert_eq!(r[0].title, "百度结果");
    assert_eq!(r[0].snippet, "摘要");

    let ddg = [
        "<div class=\"result\"><a class=\"result__a\" href=\"https://d.example/\">Duck</a>",
        "<a class=\"result__snippet\">quack</a></div>",
    ]
    .concat();
    let r = duckduckgo_page_results(&ddg, 5).unwrap();
    assert_eq!(r.len(), 1);
    assert_eq!(r[0].snippet, "quack");
    assert_eq!(
        duckduckgo_page_results("<p>none</p>", 5).err().unwrap(),
        "DuckDuckGo returned no parseable results"
    );
}
