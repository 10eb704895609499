use mdbook_pdf::options::PrintOptions;
use mdbook_pdf::printer::{PrintAction, PrintJob, PrintStep};

fn options(trying_times: u64, theme: &str) -> PrintOptions {
    let mut cfg = PrintOptions::default();
    cfg.trying_times = trying_times;
    cfg.theme = theme.to_string();
    cfg
}

fn describe(action: &PrintAction) -> String {
    match action {
        PrintAction::OpenPage => "open".to_string(),
        PrintAction::FindElement(selector) => format!("find {selector}"),
        PrintAction::RunScript(script) => format!("run {script}"),
        PrintAction::ReportMissingTheme(theme) => format!("no theme {theme}"),
        PrintAction::PrintToPdf => "print".to_string(),
        PrintAction::SavePdf => "save".to_string(),
        PrintAction::Wait(seconds) => format!("wait {seconds}"),
        PrintAction::Stop => "stop".to_string(),
    }
}

/// What a job does when each action whose description holds one of the given
/// texts fails.
fn run(cfg: &PrintOptions, failing: &[&str]) -> (Vec<String>, PrintStep) {
    let mut job = PrintJob::new("/book/html/print.html", cfg);
    let mut done = Vec::new();
    loop {
        let action = describe(&job.action());
        if action == "stop" {
            return (done, job.progress().step);
        }
        job.advance(!failing.iter().any(|text| action.contains(text)));
        done.push(action);
    }
}

#[test]
fn a_page_is_opened_printed_and_saved() {
    let (done, step) = run(&options(1, ""), &["find"]);
    assert_eq!(done, ["open", "find a.cookieBarConsentButton", "print", "save"]);
    assert_eq!(step, PrintStep::Finished);
}

#[test]
fn cookies_are_accepted_where_the_page_asks() {
    let (done, _) = run(&options(1, ""), &[]);
    assert_eq!(done[2], "run document.querySelector('a.cookieBarConsentButton').click()");
    assert_eq!(done[3], "print");
}

#[test]
fn the_current_button_of_a_theme_is_tried_first() {
    let (done, step) = run(&options(1, "Navy"), &["cookie"]);
    assert_eq!(
        done,
        [
            "open",
            "find a.cookieBarConsentButton",
            "find button.theme#mdbook-theme-navy",
            "run document.querySelector('button.theme#mdbook-theme-navy').click()",
            "print",
            "save"
        ]
    );
    assert_eq!(step, PrintStep::Finished);
}

#[test]
fn the_older_button_of_a_theme_is_tried_next() {
    let (done, _) = run(&options(1, "Ägypten"), &["cookie", "mdbook-theme"]);
    assert_eq!(done[2], "find button.theme#mdbook-theme-ägypten");
    assert_eq!(done[3], "find button.theme#ägypten");
    assert_eq!(done[4], "run document.querySelector('button.theme#ägypten').click()");
    assert_eq!(done[5], "print");
}

#[test]
fn a_missing_theme_is_reported_and_the_page_printed() {
    let (done, step) = run(&options(1, "rust"), &["find"]);
    assert_eq!(done[4], "no theme rust");
    assert_eq!(done[5..], ["print", "save"]);
    assert_eq!(step, PrintStep::Finished);
}

#[test]
fn failed_printing_is_tried_again_after_longer_and_longer_pauses() {
    let (done, step) = run(&options(3, ""), &["find", "print"]);
    let attempt = ["open", "find a.cookieBarConsentButton", "print"];
    let mut expected: Vec<&str> = attempt.to_vec();
    expected.push("wait 1");
    expected.extend(attempt);
    expected.push("wait 2");
    expected.extend(attempt);
    assert_eq!(done, expected);
    assert_eq!(step, PrintStep::GaveUp);
}

#[test]
fn a_single_attempt_is_not_repeated() {
    let (done, step) = run(&options(1, ""), &["find", "print"]);
    assert_eq!(done.len(), 3);
    assert_eq!(step, PrintStep::GaveUp);
}

#[test]
fn without_attempts_nothing_is_done() {
    let (done, step) = run(&options(0, "navy"), &[]);
    assert!(done.is_empty());
    assert_eq!(step, PrintStep::Finished);
}

#[test]
fn other_failures_end_the_job() {
    for failing in ["open", "run", "save"] {
        let (done, step) = run(&options(5, ""), &[failing]);
        assert!(done.last().unwrap().starts_with(failing));
        assert_eq!(step, PrintStep::Aborted);
    }
}

#[test]
fn jobs_take_their_settings_from_the_options() {
    let mut cfg = options(4, "AYU");
    let job = PrintJob::new("/b/p.html", &cfg);
    assert_eq!(job.url(), "file:///b/p.html");
    assert_eq!(job.browser_binary(), None);
    assert_eq!(job.theme_name(), "ayu");
    assert_eq!(job.progress().trying_times, 4);
    cfg.browser_binary_path = "/usr/bin/chromium".to_string();
    assert_eq!(
        PrintJob::new("p", &cfg).browser_binary(),
        Some("/usr/bin/chromium".to_string())
    );
}
