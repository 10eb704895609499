//! What holds of every print job, whatever the browser does.

use vstd::prelude::*;

use crate::printer;
use crate::printer::{PrintAction, PrintStep, Progress};
use crate::unicode;

verus! {

/// Where a job gets from `p` when its actions succeed or fail as given.
pub open spec fn run(p: Progress, outcomes: Seq<bool>) -> Progress
    decreases outcomes.len(),
{
    if outcomes.len() == 0 {
        p
    } else {
        printer::next(run(p, outcomes.drop_last()), outcomes.last())
    }
}

/// How many actions an attempt may still take, the one after it not counted.
pub open spec fn steps_left(step: PrintStep) -> int {
    match step {
        PrintStep::Opening => 8,
        PrintStep::FindingCookieButton => 7,
        PrintStep::AcceptingCookies => 6,
        PrintStep::FindingTheme { legacy: false } => 5,
        PrintStep::FindingTheme { legacy: true } => 4,
        PrintStep::SwitchingTheme { .. } => 3,
        PrintStep::MissingTheme => 3,
        PrintStep::Printing => 2,
        PrintStep::Saving => 1,
        PrintStep::Waiting => 1,
        PrintStep::Finished => 0,
        PrintStep::Aborted => 0,
        PrintStep::GaveUp => 0,
    }
}

/// How many actions a job may still take.
pub open spec fn actions_left(p: Progress) -> int {
    if printer::is_over(p) {
        0
    } else {
        8 * (p.trying_times - p.time) + steps_left(p.step)
    }
}

/// A valid job stays valid, and comes closer to its end with every action.
pub proof fn every_action_leads_on(p: Progress, success: bool)
    requires
        printer::is_valid(p),
    ensures
        printer::is_valid(printer::next(p, success)),
        printer::is_over(p) ==> printer::next(p, success) == p,
        !printer::is_over(p) ==> 0 <= actions_left(printer::next(p, success)) < actions_left(p),
{
}

/// A job stays valid, is over after a number of actions that the options
/// bound, and never makes more attempts than they allow.
pub proof fn every_job_ends(trying_times: u64, themed: bool, outcomes: Seq<bool>)
    ensures
        ({
            let p = run(printer::start(trying_times, themed), outcomes);
            &&& printer::is_valid(p)
            &&& p.trying_times == trying_times
            &&& p.time <= trying_times || printer::is_over(p)
            &&& outcomes.len() >= 8 * trying_times ==> printer::is_over(p)
        }),
{
    job_comes_closer_to_its_end(trying_times, themed, outcomes);
}

proof fn job_comes_closer_to_its_end(trying_times: u64, themed: bool, outcomes: Seq<bool>)
    ensures
        ({
            let p = run(printer::start(trying_times, themed), outcomes);
            &&& printer::is_valid(p)
            &&& p.trying_times == trying_times
            &&& !printer::is_over(p) ==> 0 < actions_left(p) <= 8 * trying_times - outcomes.len()
        }),
    decreases outcomes.len(),
{
    if outcomes.len() > 0 {
        job_comes_closer_to_its_end(trying_times, themed, outcomes.drop_last());
        every_action_leads_on(
            run(printer::start(trying_times, themed), outcomes.drop_last()),
            outcomes.last(),
        );
    }
}

/// A job that has something to do finishes only by saving what it has printed.
pub proof fn jobs_finish_by_saving(p: Progress, success: bool)
    requires
        !(p.step is Finished),
        printer::next(p, success).step is Finished,
    ensures
        p.step is Saving,
        success,
{
}

/// What is saved has just been printed.
pub proof fn saving_follows_printing(p: Progress, success: bool)
    requires
        printer::next(p, success).step is Saving,
    ensures
        p.step is Printing,
        success,
{
}

/// A page that cannot be printed is tried again, from a fresh start and after
/// as many seconds as there have been attempts, until these are used up.
pub proof fn failed_printing_is_tried_again(p: Progress)
    requires
        printer::is_valid(p),
        p.step is Printing,
    ensures
        p.time < p.trying_times ==> {
            let waiting = printer::next(p, false);
            &&& waiting == printer::at(p, PrintStep::Waiting)
            &&& printer::next(waiting, true).step is Opening
            &&& printer::next(waiting, true).time == p.time + 1
        },
        p.time == p.trying_times ==> printer::next(p, false).step is GaveUp,
{
}

/// No other failure is tried again, and a button that is not there is none.
pub proof fn other_failures_are_final(p: Progress)
    requires
        printer::is_valid(p),
        !printer::is_over(p),
        !(p.step is Printing),
    ensures
        p.step is FindingCookieButton || p.step is FindingTheme <==> !(printer::next(
            p,
            false,
        ).step is Aborted),
{
}

/// The button of a theme is looked for by its current selector first, and by
/// the older one only where that finds nothing.
pub proof fn theme_is_looked_for_twice(
    p: Progress,
    theme_name: Seq<char>,
    found: bool,
    legacy_found: bool,
)
    requires
        p.step == (PrintStep::FindingTheme { legacy: false }),
    ensures
        ({
            let first = printer::next(p, found);
            let last = if found {
                first
            } else {
                printer::next(first, legacy_found)
            };
            &&& !found ==> first.step == (PrintStep::FindingTheme { legacy: true })
            &&& match printer::found_theme_button(theme_name, found, legacy_found) {
                Some(button) => last.step matches PrintStep::SwitchingTheme { legacy }
                    && printer::theme_button(theme_name, legacy) == button,
                None => last.step is MissingTheme,
            }
        }),
{
}

/// Without a theme to switch to, none is looked for.
pub proof fn theme_is_looked_for_only_if_set(p: Progress, success: bool)
    requires
        printer::is_valid(p),
        !p.themed,
    ensures
        !(printer::next(p, success).step is FindingTheme),
        !(printer::next(p, success).step is SwitchingTheme),
        !(printer::next(p, success).step is MissingTheme),
{
}

/// A job starts with its first attempt; one without attempts is over.
pub proof fn jobs_start_with_the_first_attempt(trying_times: u64, themed: bool)
    ensures
        printer::start(trying_times, themed).trying_times == trying_times,
        printer::start(trying_times, themed).themed == themed,
        printer::start(trying_times, themed).time == 1,
        trying_times == 0 ==> printer::start(trying_times, themed).step is Finished,
        trying_times > 0 ==> printer::start(trying_times, themed).step is Opening,
{
}

/// Whatever the attempt, an opened page is printed once its cookies have been
/// accepted if it asks for that, and the theme switched to if one is set: by
/// its button, or else by its older one, and if there is neither this is told.
pub proof fn opened_pages_are_printed(
    p: Progress,
    cookies: bool,
    found: bool,
    legacy_found: bool,
)
    requires
        p.step is Opening,
    ensures
        ({
            let opened = printer::next(p, true);
            let asked = printer::next(opened, cookies);
            let settled = if cookies {
                printer::next(asked, true)
            } else {
                asked
            };
            let first = printer::next(settled, found);
            let second = printer::next(first, legacy_found);
            let themed = if found {
                printer::next(first, true)
            } else {
                printer::next(second, true)
            };
            let printing = Progress { step: PrintStep::Printing, ..p };
            &&& opened == (Progress { step: PrintStep::FindingCookieButton, ..p })
            &&& cookies ==> asked == (Progress { step: PrintStep::AcceptingCookies, ..p })
            &&& !p.themed ==> settled == printing
            &&& p.themed ==> {
                &&& settled == (Progress { step: PrintStep::FindingTheme { legacy: false }, ..p })
                &&& found ==> first == (Progress {
                    step: PrintStep::SwitchingTheme { legacy: false },
                    ..p
                })
                &&& !found ==> first == (Progress {
                    step: PrintStep::FindingTheme { legacy: true },
                    ..p
                })
                &&& !found && legacy_found ==> second == (Progress {
                    step: PrintStep::SwitchingTheme { legacy: true },
                    ..p
                })
                &&& !found && !legacy_found ==> second == (Progress {
                    step: PrintStep::MissingTheme,
                    ..p
                })
                &&& themed == printing
            }
        }),
{
}

/// What has been printed is saved, and that is all. What has not is tried
/// again after a pause, in the next attempt, as long as there is one.
pub proof fn printing_ends_an_attempt(p: Progress)
    requires
        p.step is Printing,
        printer::is_valid(p),
    ensures
        ({
            let saving = Progress { step: PrintStep::Saving, ..p };
            let waiting = Progress { step: PrintStep::Waiting, ..p };
            &&& printer::next(p, true) == saving
            &&& printer::next(saving, true) == (Progress { step: PrintStep::Finished, ..p })
            &&& p.time == p.trying_times ==> printer::next(p, false) == (Progress {
                step: PrintStep::GaveUp,
                ..p
            })
            &&& p.time != p.trying_times ==> {
                let again = printer::next(waiting, true);
                &&& printer::next(p, false) == waiting
                &&& again.step is Opening
                &&& again.time == p.time + 1
                &&& again.trying_times == p.trying_times
                &&& again.themed == p.themed
            }
        }),
{
}

/// Any other action that fails ends the job there and then, and a job that is
/// over stays so.
pub proof fn failures_end_jobs(p: Progress, success: bool)
    ensures
        p.step is Opening || p.step is AcceptingCookies || p.step is SwitchingTheme
            || p.step is MissingTheme || p.step is Saving || p.step is Waiting ==> printer::next(
            p,
            false,
        ) == (Progress { step: PrintStep::Aborted, ..p }),
        p.step is Finished || p.step is Aborted || p.step is GaveUp ==> printer::next(p, success)
            == p,
{
}

/// Outcomes of a number of attempts all of which fail to print a page that asks
/// for no cookies, and of the pauses behind them.
pub open spec fn failed_attempts(n: nat) -> Seq<bool>
    decreases n,
{
    if n == 0 {
        Seq::empty()
    } else {
        failed_attempts((n - 1) as nat).push(true).push(false).push(false).push(true)
    }
}

/// A page that is never printed is attempted as often as the options say, and
/// then given up.
pub proof fn all_attempts_are_made(trying_times: u64, n: nat)
    requires
        n < trying_times,
    ensures
        ({
            let p = run(printer::start(trying_times, false), failed_attempts(n));
            &&& p.step is Opening
            &&& p.time == n + 1
            &&& p.trying_times == trying_times
            &&& !p.themed
            &&& n + 1 == trying_times ==> printer::next(
                printer::next(printer::next(p, true), false),
                false,
            ).step is GaveUp
        }),
    decreases n,
{
    if n > 0 {
        let m = (n - 1) as nat;
        all_attempts_are_made(trying_times, m);
        let before = failed_attempts(m);
        let p = printer::start(trying_times, false);
        let a = before.push(true);
        let b = a.push(false);
        let c = b.push(false);
        let d = c.push(true);
        assert(a.drop_last() == before && b.drop_last() == a && c.drop_last() == b && d.drop_last()
            == c);
        assert(run(p, a) == printer::next(run(p, before), true));
        assert(run(p, b) == printer::next(run(p, a), false));
        assert(run(p, c) == printer::next(run(p, b), false));
        assert(run(p, d) == printer::next(run(p, c), true));
    }
}

/// What is to be done for a job at each of its steps.
pub proof fn actions_follow_from_steps(action: PrintAction, p: Progress, theme_name: Seq<char>)
    requires
        printer::is_due(action, p, theme_name),
    ensures
        p.step is Opening ==> action is OpenPage,
        p.step is FindingCookieButton ==> (action matches PrintAction::FindElement(selector)
            && selector@ == "a.cookieBarConsentButton"@),
        p.step is AcceptingCookies ==> (action matches PrintAction::RunScript(script) && script@
            == "document.querySelector('"@ + "a.cookieBarConsentButton"@ + "').click()"@),
        p.step == (PrintStep::FindingTheme { legacy: false }) ==> (
        action matches PrintAction::FindElement(selector) && selector@
            == "button.theme#mdbook-theme-"@ + theme_name),
        p.step == (PrintStep::FindingTheme { legacy: true }) ==> (
        action matches PrintAction::FindElement(selector) && selector@ == "button.theme#"@
            + theme_name),
        p.step == (PrintStep::SwitchingTheme { legacy: false }) ==> (
        action matches PrintAction::RunScript(script) && script@ == "document.querySelector('"@ + (
        "button.theme#mdbook-theme-"@ + theme_name) + "').click()"@),
        p.step == (PrintStep::SwitchingTheme { legacy: true }) ==> (
        action matches PrintAction::RunScript(script) && script@ == "document.querySelector('"@ + (
        "button.theme#"@ + theme_name) + "').click()"@),
        p.step is MissingTheme ==> (action matches PrintAction::ReportMissingTheme(theme) && theme@
            == theme_name),
        p.step is Printing ==> action is PrintToPdf,
        p.step is Saving ==> action is SavePdf,
        p.step is Waiting ==> action == PrintAction::Wait(p.time),
        p.step is Finished || p.step is Aborted || p.step is GaveUp ==> action is Stop,
{
}

/// The job of a page: its address is that of its file, the browser is the one
/// that is set if one is, and a theme is switched to just when one is set.
pub proof fn jobs_are_as_the_options_say(
    html_path: Seq<char>,
    browser_binary_path: Seq<char>,
    theme: Seq<char>,
    trying_times: u64,
)
    ensures
        ({
            let job = printer::job_of(html_path, browser_binary_path, theme, trying_times);
            &&& job.url == seq!['f', 'i', 'l', 'e', ':', '/', '/'] + html_path
            &&& browser_binary_path.len() == 0 ==> job.browser_binary is None
            &&& browser_binary_path.len() > 0 ==> job.browser_binary == Some(browser_binary_path)
            &&& job.theme_name == unicode::lowercase_text(theme)
            &&& job.progress == printer::start(trying_times, theme.len() != 0)
        }),
{
    reveal_strlit("file://");
    assert("file://"@ == seq!['f', 'i', 'l', 'e', ':', '/', '/']);
}

} // verus!
