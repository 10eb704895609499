//! The conversation with the browser that prints a page.
//!
//! A [`PrintJob`] says what to do next; the caller does it, and says whether
//! it succeeded.

use vstd::prelude::*;

use crate::options::PrintOptions;
use crate::text;
use crate::text::{chars_of, push_text, text_of};
use crate::unicode;
use crate::unicode::text_to_lowercase;

verus! {

/// The element that a page has once everything has been loaded.
pub const LOADED_ELEMENT: &'static str = "#content-has-all-loaded-for-mdbook-pdf-generation";

/// The button by which a page asks for consent to its cookies.
pub const COOKIE_BUTTON: &'static str = "a.cookieBarConsentButton";

/// What stands before a selector in the script that clicks on its element.
pub const CLICK_BEFORE: &'static str = "document.querySelector('";

/// What stands behind a selector in the script that clicks on its element.
pub const CLICK_AFTER: &'static str = "').click()";

/// What stands before the name of a theme in the selector of its button.
pub const THEME_BUTTON: &'static str = "button.theme#mdbook-theme-";

/// The same, in books rendered before version 0.5 of mdBook.
pub const LEGACY_THEME_BUTTON: &'static str = "button.theme#";

/// What a print job is at.
#[derive(Debug, Clone, Copy, PartialEq, Eq, Structural)]
pub enum PrintStep {
    /// A browser is started, and the page opened until it has been loaded.
    Opening,
    /// The page is searched for the button that accepts its cookies.
    FindingCookieButton,
    /// The cookies are accepted.
    AcceptingCookies,
    /// The page is searched for the button of the theme.
    FindingTheme { legacy: bool },
    /// The button of the theme, which has been found, is clicked on.
    SwitchingTheme { legacy: bool },
    /// The theme has not been found, and this is told.
    MissingTheme,
    /// The page is printed.
    Printing,
    /// The printed document is saved.
    Saving,
    /// Some time passes before the next attempt.
    Waiting,
    /// There is nothing left to do.
    Finished,
    /// Something went wrong that is not tried again.
    Aborted,
    /// The last attempt to print has failed.
    GaveUp,
}

/// How far a print job has come: its attempts are counted from one, and
/// `time` is the number of the current one.
#[derive(Debug, Clone, Copy, PartialEq, Eq, Structural)]
pub struct Progress {
    pub trying_times: u64,
    pub themed: bool,
    pub time: u64,
    pub step: PrintStep,
}

/// What is to be done for a print job.
#[derive(Debug)]
pub enum PrintAction {
    /// Start the browser, open the page and wait for [`LOADED_ELEMENT`].
    OpenPage,
    /// Look for an element by its selector.
    FindElement(String),
    /// Run a script in the page.
    RunScript(String),
    /// Tell that the page has no such theme.
    ReportMissingTheme(String),
    /// Print the page.
    PrintToPdf,
    /// Save the printed document.
    SavePdf,
    /// Wait for a number of seconds.
    Wait(u64),
    /// Nothing: the job is over.
    Stop,
}

/// The same attempt of a job, at another step.
pub open spec fn at(p: Progress, step: PrintStep) -> Progress {
    Progress { step, ..p }
}

/// Where a job starts. One without attempts is over at once.
pub open spec fn start(trying_times: u64, themed: bool) -> Progress {
    Progress {
        trying_times,
        themed,
        time: 1,
        step: if trying_times == 0 {
            PrintStep::Finished
        } else {
            PrintStep::Opening
        },
    }
}

/// The step that follows once the question of the cookies is settled.
pub open spec fn after_cookies(p: Progress) -> PrintStep {
    if p.themed {
        PrintStep::FindingTheme { legacy: false }
    } else {
        PrintStep::Printing
    }
}

/// Where a job goes from `p` when its action has succeeded, or not. Printing
/// is the only thing that is tried again, from a fresh start, until the
/// attempts are used up; an element that is not found is no failure.
pub open spec fn next(p: Progress, success: bool) -> Progress {
    match (p.step, success) {
        (PrintStep::Opening, true) => at(p, PrintStep::FindingCookieButton),
        (PrintStep::FindingCookieButton, true) => at(p, PrintStep::AcceptingCookies),
        (PrintStep::FindingCookieButton, false) => at(p, after_cookies(p)),
        (PrintStep::AcceptingCookies, true) => at(p, after_cookies(p)),
        (PrintStep::FindingTheme { legacy }, true) => at(p, PrintStep::SwitchingTheme { legacy }),
        (PrintStep::FindingTheme { legacy: false }, false) => at(
            p,
            PrintStep::FindingTheme { legacy: true },
        ),
        (PrintStep::FindingTheme { legacy: true }, false) => at(p, PrintStep::MissingTheme),
        (PrintStep::SwitchingTheme { .. }, true) => at(p, PrintStep::Printing),
        (PrintStep::MissingTheme, true) => at(p, PrintStep::Printing),
        (PrintStep::Printing, true) => at(p, PrintStep::Saving),
        (PrintStep::Printing, false) => if p.time == p.trying_times {
            at(p, PrintStep::GaveUp)
        } else {
            at(p, PrintStep::Waiting)
        },
        (PrintStep::Waiting, true) => Progress {
            time: (p.time + 1) as u64,
            step: PrintStep::Opening,
            ..p
        },
        (PrintStep::Saving, true) => at(p, PrintStep::Finished),
        (PrintStep::Finished, _) => p,
        (PrintStep::GaveUp, _) => p,
        _ => at(p, PrintStep::Aborted),
    }
}

/// Whether the job is over.
pub open spec fn is_over(p: Progress) -> bool {
    p.step is Finished || p.step is Aborted || p.step is GaveUp
}

/// What holds of every job: there is an attempt to make, and it is one of
/// those that the options allow.
pub open spec fn is_valid(p: Progress) -> bool {
    ||| p.trying_times == 0 && p.step is Finished
    ||| {
        &&& 1 <= p.time <= p.trying_times
        &&& p.step is Waiting ==> p.time < p.trying_times
        &&& p.step is FindingTheme || p.step is SwitchingTheme || p.step is MissingTheme ==> p.themed
    }
}

/// The selector of the button of a theme.
pub open spec fn theme_button(theme_name: Seq<char>, legacy: bool) -> Seq<char> {
    if legacy {
        LEGACY_THEME_BUTTON@ + theme_name
    } else {
        THEME_BUTTON@ + theme_name
    }
}

/// The script that clicks on an element.
pub open spec fn click_script(selector: Seq<char>) -> Seq<char> {
    CLICK_BEFORE@ + selector + CLICK_AFTER@
}

/// Whether `action` is what is to be done at the given progress.
pub open spec fn is_due(action: PrintAction, p: Progress, theme_name: Seq<char>) -> bool {
    match p.step {
        PrintStep::Opening => action is OpenPage,
        PrintStep::FindingCookieButton => action matches PrintAction::FindElement(selector)
            && selector@ == COOKIE_BUTTON@,
        PrintStep::AcceptingCookies => action matches PrintAction::RunScript(script) && script@
            == click_script(COOKIE_BUTTON@),
        PrintStep::FindingTheme { legacy } => action matches PrintAction::FindElement(selector)
            && selector@ == theme_button(theme_name, legacy),
        PrintStep::SwitchingTheme { legacy } => action matches PrintAction::RunScript(script)
            && script@ == click_script(theme_button(theme_name, legacy)),
        PrintStep::MissingTheme => action matches PrintAction::ReportMissingTheme(theme) && theme@
            == theme_name,
        PrintStep::Printing => action is PrintToPdf,
        PrintStep::Saving => action is SavePdf,
        PrintStep::Waiting => action matches PrintAction::Wait(seconds) && seconds == p.time,
        PrintStep::Finished => action is Stop,
        PrintStep::Aborted => action is Stop,
        PrintStep::GaveUp => action is Stop,
    }
}

impl Progress {
    /// Where a job starts.
    fn start(trying_times: u64, themed: bool) -> (res: Progress)
        ensures
            res == start(trying_times, themed),
            is_valid(res),
    {
        Progress {
            trying_times,
            themed,
            time: 1,
            step: if trying_times == 0 {
                PrintStep::Finished
            } else {
                PrintStep::Opening
            },
        }
    }

    /// Where the job goes when its action has succeeded, or not.
    fn next(self, success: bool) -> (res: Progress)
        requires
            is_valid(self),
        ensures
            res == next(self, success),
            is_valid(res),
    {
        let after_cookies = if self.themed {
            PrintStep::FindingTheme { legacy: false }
        } else {
            PrintStep::Printing
        };
        let step = match self.step {
            PrintStep::Opening if success => PrintStep::FindingCookieButton,
            PrintStep::FindingCookieButton => if success {
                PrintStep::AcceptingCookies
            } else {
                after_cookies
            },
            PrintStep::AcceptingCookies if success => after_cookies,
            PrintStep::FindingTheme { legacy } => if success {
                PrintStep::SwitchingTheme { legacy }
            } else if legacy {
                PrintStep::MissingTheme
            } else {
                PrintStep::FindingTheme { legacy: true }
            },
            PrintStep::SwitchingTheme { .. } if success => PrintStep::Printing,
            PrintStep::MissingTheme if success => PrintStep::Printing,
            PrintStep::Printing => if success {
                PrintStep::Saving
            } else if self.time == self.trying_times {
                PrintStep::GaveUp
            } else {
                PrintStep::Waiting
            },
            PrintStep::Waiting if success => PrintStep::Opening,
            PrintStep::Saving if success => PrintStep::Finished,
            PrintStep::Finished => PrintStep::Finished,
            PrintStep::GaveUp => PrintStep::GaveUp,
            _ => PrintStep::Aborted,
        };
        let time = match self.step {
            PrintStep::Waiting if success => self.time + 1,
            _ => self.time,
        };
        Progress { trying_times: self.trying_times, themed: self.themed, time, step }
    }
}

/// A page to be printed. Its progress is always valid.
#[derive(Debug)]
pub struct PrintJob {
    url: String,
    browser_binary: Option<String>,
    theme_name: String,
    progress: Progress,
}

/// The mathematical value of a [`PrintJob`].
#[verifier::ext_equal]
pub struct JobView {
    /// The address of the page.
    pub url: Seq<char>,
    /// The browser to start; without one, any that is found.
    pub browser_binary: Option<Seq<char>>,
    /// The theme to switch to, in lower case.
    pub theme_name: Seq<char>,
    pub progress: Progress,
}

/// The job of printing the page at the given path.
pub open spec fn job_of(
    html_path: Seq<char>,
    browser_binary_path: Seq<char>,
    theme: Seq<char>,
    trying_times: u64,
) -> JobView {
    JobView {
        url: "file://"@ + html_path,
        browser_binary: if browser_binary_path.len() == 0 {
            None
        } else {
            Some(browser_binary_path)
        },
        theme_name: unicode::lowercase_text(theme),
        progress: start(trying_times, theme.len() > 0),
    }
}

impl View for PrintJob {
    type V = JobView;

    closed spec fn view(&self) -> JobView {
        JobView {
            url: self.url@,
            browser_binary: text::optional_text(self.browser_binary),
            theme_name: self.theme_name@,
            progress: self.progress,
        }
    }
}

/// The button of a theme, given whether it has been found under each of its
/// two selectors; the second one counts only without the first.
pub open spec fn found_theme_button(
    theme_name: Seq<char>,
    found: bool,
    legacy_found: bool,
) -> Option<Seq<char>> {
    if found {
        Some(theme_button(theme_name, false))
    } else if legacy_found {
        Some(theme_button(theme_name, true))
    } else {
        None
    }
}

/// The selector of the button of a theme.
pub fn theme_toggle_selector(theme_name: &str, legacy: bool) -> (res: String)
    ensures
        res@ == theme_button(theme_name@, legacy),
{
    let mut res = chars_of(
        if legacy {
            LEGACY_THEME_BUTTON
        } else {
            THEME_BUTTON
        },
    );
    push_text(&mut res, theme_name);
    text_of(&res)
}

/// The script that clicks on an element.
pub fn click(selector: &str) -> (res: String)
    ensures
        res@ == click_script(selector@),
{
    let mut res = chars_of(CLICK_BEFORE);
    push_text(&mut res, selector);
    push_text(&mut res, CLICK_AFTER);
    text_of(&res)
}

impl PrintJob {
    #[verifier::type_invariant]
    spec fn has_valid_progress(self) -> bool {
        is_valid(self.progress)
    }

    /// The job of printing the page at the given path.
    pub fn new(html_path: &str, cfg: &PrintOptions) -> (res: PrintJob)
        requires
            cfg.trying_times < u64::MAX,
        ensures
            res@ == job_of(
                html_path@,
                cfg.browser_binary_path@,
                cfg.theme@,
                cfg.trying_times,
            ),
    {
        let mut url = chars_of("file://");
        push_text(&mut url, html_path);
        PrintJob {
            url: text_of(&url),
            browser_binary: if cfg.browser_binary_path.as_str().is_empty() {
                None
            } else {
                Some(cfg.browser_binary_path.clone())
            },
            theme_name: text_to_lowercase(&cfg.theme),
            progress: Progress::start(cfg.trying_times, !cfg.theme.as_str().is_empty()),
        }
    }

    /// The address of the page.
    pub fn url(&self) -> (res: &str)
        ensures
            res@ == self@.url,
    {
        self.url.as_str()
    }

    /// The browser to start; without one, any that is found.
    pub fn browser_binary(&self) -> (res: Option<String>)
        ensures
            text::optional_text(res) == self@.browser_binary,
    {
        match &self.browser_binary {
            Some(path) => Some(path.clone()),
            None => None,
        }
    }

    /// The theme to switch to, in lower case.
    pub fn theme_name(&self) -> (res: &str)
        ensures
            res@ == self@.theme_name,
    {
        self.theme_name.as_str()
    }

    /// How far the job has come.
    pub fn progress(&self) -> (res: Progress)
        ensures
            res == self@.progress,
            is_valid(res),
    {
        proof {
            use_type_invariant(self);
        }
        self.progress
    }

    /// What is to be done next.
    pub fn action(&self) -> (res: PrintAction)
        ensures
            is_due(res, self@.progress, self@.theme_name),
    {
        match self.progress.step {
            PrintStep::Opening => PrintAction::OpenPage,
            PrintStep::FindingCookieButton => PrintAction::FindElement(COOKIE_BUTTON.to_owned()),
            PrintStep::AcceptingCookies => PrintAction::RunScript(click(COOKIE_BUTTON)),
            PrintStep::FindingTheme { legacy } => PrintAction::FindElement(
                theme_toggle_selector(&self.theme_name, legacy),
            ),
            PrintStep::SwitchingTheme { legacy } => PrintAction::RunScript(
                click(&theme_toggle_selector(&self.theme_name, legacy)),
            ),
            PrintStep::MissingTheme => PrintAction::ReportMissingTheme(self.theme_name.clone()),
            PrintStep::Printing => PrintAction::PrintToPdf,
            PrintStep::Saving => PrintAction::SavePdf,
            PrintStep::Waiting => PrintAction::Wait(self.progress.time),
            _ => PrintAction::Stop,
        }
    }

    /// Takes note of whether the last action has succeeded.
    pub fn advance(&mut self, success: bool)
        ensures
            final(self)@ == (JobView {
                progress: next(old(self)@.progress, success),
                ..old(self)@
            }),
    {
        proof {
            use_type_invariant(&*self);
        }
        self.progress = self.progress.next(success);
    }
}

} // verus!
