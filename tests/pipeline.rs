use subenum::args::{AppArgs, ArgsError};
use subenum::context::{AppContext, EngineStatus, Step};
use subenum::pattern::DictBuilder;
use subenum::report::result_line;
use subenum::worker::{
    build_result, candidate_domain, http_outcome, should_probe, wildcard_labels, wildcard_verdict,
    ResolveResult,
};

fn stub_lookup(domain: &str) -> Vec<String> {
    if domain == "www.example.com" {
        vec!["93.184.216.34".to_string()]
    } else {
        vec![]
    }
}

#[test]
fn end_to_end_with_stub_resolver() {
    let mut results: Vec<ResolveResult> = Vec::new();
    for task in DictBuilder::candidates("www\napi\n") {
        let domain = candidate_domain(&task, "example.com");
        let ip = stub_lookup(&domain);
        if let Some(r) = build_result(domain, vec![], ip, None, None) {
            results.push(r);
        }
    }
    assert_eq!(results.len(), 1);
    assert_eq!(results[0].domain, "www.example.com");
    assert_eq!(
        result_line(&results[0]),
        "www.example.com - [\"93.184.216.34\"] - [] - 0 - \"\"\n"
    );
}

#[test]
fn candidate_domain_joins_with_dot() {
    assert_eq!(candidate_domain("www", "example.com"), "www.example.com");
    assert_eq!(candidate_domain("", "a"), ".a");
}

#[test]
fn miss_gives_no_result() {
    assert!(build_result("x.example.com".to_string(), vec![], vec![], None, None).is_none());
    let r = build_result("x.example.com".to_string(), vec!["y.example.net.".to_string()], vec![], None, None);
    assert_eq!(r.unwrap().cname, vec!["y.example.net."]);
}

#[test]
fn probe_only_with_addresses_and_when_enabled() {
    assert!(should_probe(&vec!["1.1.1.1".to_string()], true));
    assert!(!should_probe(&vec!["1.1.1.1".to_string()], false));
    assert!(!should_probe(&vec![], true));
}

#[test]
fn http_outcome_takes_status_and_title() {
    let (code, title) = http_outcome(Some((200, "<html><title id=\"t\">Hello</title></html>".to_string())));
    assert_eq!(code, Some(200));
    assert_eq!(title, Some("Hello".to_string()));
    let (code, title) = http_outcome(Some((404, "<html>nothing</html>".to_string())));
    assert_eq!(code, Some(404));
    assert_eq!(title, None);
    assert_eq!(http_outcome(None), (None, None));
}

#[test]
fn result_line_format() {
    let r = ResolveResult {
        domain: "a.example.com".to_string(),
        title: Some("Home \"page\"".to_string()),
        code: Some(301),
        ip: vec!["1.2.3.4".to_string(), "::1".to_string()],
        cname: vec!["b.example.com.".to_string()],
    };
    assert_eq!(
        result_line(&r),
        "a.example.com - [\"1.2.3.4\", \"::1\"] - [\"b.example.com.\"] - 301 - \"Home \\\"page\\\"\"\n"
    );
}

#[test]
fn wildcard_labels_are_fixed_and_random() {
    let labels = wildcard_labels();
    assert_eq!(labels.len(), 2);
    assert_eq!(labels[0], "thisdomainneverexist");
    assert_eq!(labels[1].len(), 5);
    assert!(labels[1].chars().all(|c| c.is_ascii_alphanumeric()));
}

#[test]
fn wildcard_detected_when_a_label_resolves() {
    let wildcard_stub = |_: &str| vec!["10.0.0.1".to_string()];
    let lookups: Vec<Vec<String>> = wildcard_labels()
        .iter()
        .map(|l| wildcard_stub(&candidate_domain(l, "example.com")))
        .collect();
    assert_eq!(wildcard_verdict(lookups), Err(vec!["10.0.0.1".to_string()]));
    assert_eq!(wildcard_verdict(vec![vec![], vec!["10.0.0.2".to_string()]]), Err(vec!["10.0.0.2".to_string()]));
    assert_eq!(wildcard_verdict(vec![vec![], vec![]]), Ok(()));
}

#[test]
fn shutdown_with_no_candidates() {
    let mut ctx = AppContext::new();
    assert!(DictBuilder::candidates("").is_empty());
    let a = ctx.add_resolver();
    let b = ctx.add_resolver();
    ctx.set_resolver(a, EngineStatus::Running);
    ctx.set_resolver(b, EngineStatus::Running);
    ctx.task_builder_status = EngineStatus::Running;
    assert_eq!(ctx.worker_next(false), Step::Wait);
    ctx.task_builder_status = EngineStatus::Stop;
    assert_eq!(ctx.worker_next(false), Step::Finish);
    assert_eq!(ctx.worker_next(true), Step::Handle);
    ctx.set_resolver(a, EngineStatus::Stop);
    assert_eq!(ctx.saver_next(false), Step::Wait);
    ctx.set_resolver(b, EngineStatus::Stop);
    assert_eq!(ctx.saver_next(false), Step::Finish);
    assert_eq!(ctx.saver_next(true), Step::Handle);
}

#[test]
fn length_grammar() {
    let s = |x: &str| Some(x.to_string());
    assert_eq!(AppArgs::parse_length(None), Ok((0, 0)));
    assert_eq!(AppArgs::parse_length(s("3").as_ref()), Ok((3, 3)));
    assert_eq!(AppArgs::parse_length(s("0").as_ref()), Err(ArgsError::InvalidLength));
    assert_eq!(AppArgs::parse_length(s("+0").as_ref()), Err(ArgsError::InvalidLength));
    assert_eq!(AppArgs::parse_length(s("1-3").as_ref()), Ok((1, 3)));
    assert_eq!(AppArgs::parse_length(s("+2").as_ref()), Ok((2, 2)));
    assert_eq!(AppArgs::parse_length(s("3-1").as_ref()), Err(ArgsError::InvalidLength));
    assert_eq!(AppArgs::parse_length(s("2-2").as_ref()), Err(ArgsError::InvalidLength));
    assert_eq!(AppArgs::parse_length(s("0-2").as_ref()), Err(ArgsError::InvalidLength));
    assert_eq!(AppArgs::parse_length(s("1-2-3").as_ref()), Err(ArgsError::InvalidLength));
    assert_eq!(AppArgs::parse_length(s("x").as_ref()), Err(ArgsError::InvalidLength));
    assert_eq!(AppArgs::parse_length(s("").as_ref()), Err(ArgsError::InvalidLength));
    assert_eq!(AppArgs::parse_length(s("-3").as_ref()), Err(ArgsError::InvalidLength));
    assert_eq!(
        AppArgs::parse_length(s("99999999999999999999999").as_ref()),
        Err(ArgsError::InvalidLength)
    );
}

#[test]
fn options_are_checked_and_completed() {
    let r = AppArgs::from_options("example.com".to_string(), None, None, None, None, 25, true, true);
    assert!(matches!(r, Err(ArgsError::MissingMode)));
    let r = AppArgs::from_options(
        "example.com".to_string(),
        None,
        Some("1-x".to_string()),
        None,
        None,
        25,
        true,
        true,
    );
    assert!(matches!(r, Err(ArgsError::InvalidLength)));
    let r = AppArgs::from_options(
        "example.com".to_string(),
        None,
        Some("0".to_string()),
        None,
        None,
        25,
        true,
        true,
    );
    assert!(matches!(r, Err(ArgsError::InvalidLength)));
    let a = AppArgs::from_options(
        "example.com".to_string(),
        None,
        Some("2-4".to_string()),
        None,
        Some("8.8.8.8,1.1.1.1".to_string()),
        10,
        false,
        true,
    )
    .ok()
    .unwrap();
    assert_eq!(a.length, (2, 4));
    assert_eq!(a.output_path, "example.com.txt");
    assert_eq!(a.nameserver_list, vec!["8.8.8.8", "1.1.1.1"]);
    assert_eq!(a.task_count, 10);
    assert!(!a.check_wildcard);
    let a = AppArgs::from_options(
        "example.com".to_string(),
        Some(String::new()),
        None,
        Some("out.txt".to_string()),
        None,
        25,
        true,
        false,
    )
    .ok()
    .unwrap();
    assert_eq!(a.dict_path, Some(String::new()));
    assert_eq!(a.output_path, "out.txt");
    assert!(a.nameserver_list.is_empty());
}
