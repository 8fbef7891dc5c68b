use vstd::prelude::*;

use crate::api::{edition_code, edition_title, install_arg_of, Edition, Version, VersionView};
use crate::installer::{
    command_line_text, command_text, install_step_of, jobs_view, InstallEventView, InstalledSite,
    InstalledSiteView, Job, JobStatus, JobView,
};
use crate::text::{
    chars_of, contains_seq, owned, push_char, push_str, range_contains,
    strings_view,
};
use crate::ui::{
    configure_step, ActionView, ActivePane, App, AppView, KeyCode, LeftModeView, LeftPaneMode,
    RightModeView, RightPaneMode,
};

verus! {

// ── The log panel ────────────────────────────────────────────────────────────

/// How a line of job output is coloured.
#[derive(Debug, Clone, Copy, PartialEq, Eq, Structural)]
pub enum LineStyle {
    /// Green: the line reports success.
    Success,
    /// Red: the line reports a failure.
    Failure,
    /// Cyan: the line announces a command.
    Command,
    /// Gray: anything else.
    Plain,
}

/// The style of a line: success when it holds `✓` or `done`; else failure
/// when it holds `✗`, `error`, `Error` or `failed`; else a command when it
/// starts with `→`; else plain.
pub open spec fn line_style_of(l: Seq<char>) -> LineStyle {
    if contains_seq(l, seq!['✓']) || contains_seq(l, seq!['d', 'o', 'n', 'e']) {
        LineStyle::Success
    } else if contains_seq(l, seq!['✗']) || contains_seq(l, seq!['e', 'r', 'r', 'o', 'r'])
        || contains_seq(l, seq!['E', 'r', 'r', 'o', 'r']) || contains_seq(
        l,
        seq!['f', 'a', 'i', 'l', 'e', 'd'],
    ) {
        LineStyle::Failure
    } else if l.len() > 0 && l[0] == '→' {
        LineStyle::Command
    } else {
        LineStyle::Plain
    }
}

/// The style of a line of job output.
pub fn log_line_style(line: &str) -> (r: LineStyle)
    ensures
        r == line_style_of(line@),
{
    let v = chars_of(line);
    let n = v.len();
    assert(v@.subrange(0, n as int) =~= line@);
    let check: [char; 1] = ['✓'];
    let done: [char; 4] = ['d', 'o', 'n', 'e'];
    let cross: [char; 1] = ['✗'];
    let error: [char; 5] = ['e', 'r', 'r', 'o', 'r'];
    let error_cap: [char; 5] = ['E', 'r', 'r', 'o', 'r'];
    let failed: [char; 6] = ['f', 'a', 'i', 'l', 'e', 'd'];
    assert(check@ =~= seq!['✓']);
    assert(done@ =~= seq!['d', 'o', 'n', 'e']);
    assert(cross@ =~= seq!['✗']);
    assert(error@ =~= seq!['e', 'r', 'r', 'o', 'r']);
    assert(error_cap@ =~= seq!['E', 'r', 'r', 'o', 'r']);
    assert(failed@ =~= seq!['f', 'a', 'i', 'l', 'e', 'd']);
    if range_contains(&v, 0, n, &check) || range_contains(&v, 0, n, &done) {
        LineStyle::Success
    } else if range_contains(&v, 0, n, &cross) || range_contains(&v, 0, n, &error) || range_contains(
        &v,
        0,
        n,
        &error_cap,
    ) || range_contains(&v, 0, n, &failed) {
        LineStyle::Failure
    } else if n > 0 && v[0] == '→' {
        LineStyle::Command
    } else {
        LineStyle::Plain
    }
}

/// How lines are coloured: a line that reports success (`✓` or `done`) is
/// green; otherwise one that reports a failure (`✗`, `error`, `Error` or
/// `failed`) is red; otherwise one that starts with `→` announces a command;
/// any other line is plain.
pub proof fn lemma_line_styles(l: Seq<char>)
    ensures
        contains_seq(l, seq!['✓']) || contains_seq(l, seq!['d', 'o', 'n', 'e']) ==> line_style_of(l)
            == LineStyle::Success,
        !contains_seq(l, seq!['✓']) && !contains_seq(l, seq!['d', 'o', 'n', 'e']) && (contains_seq(
            l,
            seq!['✗'],
        ) || contains_seq(l, seq!['e', 'r', 'r', 'o', 'r']) || contains_seq(l, seq!['E', 'r', 'r', 'o', 'r'])
            || contains_seq(l, seq!['f', 'a', 'i', 'l', 'e', 'd'])) ==> line_style_of(l) == LineStyle::Failure,
        line_style_of(l) == LineStyle::Command <==> !contains_seq(l, seq!['✓']) && !contains_seq(
            l,
            seq!['d', 'o', 'n', 'e'],
        ) && !contains_seq(l, seq!['✗']) && !contains_seq(l, seq!['e', 'r', 'r', 'o', 'r']) && !contains_seq(
            l,
            seq!['E', 'r', 'r', 'o', 'r'],
        ) && !contains_seq(l, seq!['f', 'a', 'i', 'l', 'e', 'd']) && l.len() > 0 && l[0] == '→',
        line_style_of(l) == LineStyle::Plain <==> !contains_seq(l, seq!['✓']) && !contains_seq(
            l,
            seq!['d', 'o', 'n', 'e'],
        ) && !contains_seq(l, seq!['✗']) && !contains_seq(l, seq!['e', 'r', 'r', 'o', 'r']) && !contains_seq(
            l,
            seq!['E', 'r', 'r', 'o', 'r'],
        ) && !contains_seq(l, seq!['f', 'a', 'i', 'l', 'e', 'd']) && !(l.len() > 0 && l[0] == '→'),
{
}

/// What a line of the log panel shows.
#[derive(Debug, Clone, Copy, PartialEq, Eq, Structural)]
pub enum LogLineKind {
    /// The shown job's full label, dimmed.
    Header,
    /// A line of the job's output.
    Output(LineStyle),
}

/// A line of the log panel.
#[derive(Debug)]
pub struct LogLine {
    pub text: String,
    pub kind: LogLineKind,
}

pub struct LogLineView {
    pub text: Seq<char>,
    pub kind: LogLineKind,
}

impl View for LogLine {
    type V = LogLineView;

    open spec fn view(&self) -> LogLineView {
        LogLineView { text: self.text@, kind: self.kind }
    }
}

pub open spec fn log_lines_view(v: Seq<LogLine>) -> Seq<LogLineView> {
    v.map_values(|l: LogLine| l@)
}

/// A job's output line as the log shows it: indented by two spaces.
pub open spec fn output_line(l: Seq<char>) -> LogLineView {
    LogLineView { text: seq![' ', ' '] + l, kind: LogLineKind::Output(line_style_of(l)) }
}

/// A job's lines: its label, then its output lines, all indented.
pub open spec fn job_lines(j: JobView) -> Seq<LogLineView> {
    seq![LogLineView { text: seq![' ', ' '] + j.label, kind: LogLineKind::Header }] + j.output.map_values(
        |l: Seq<char>| output_line(l),
    )
}

/// The lines the log panel shows: those of the selected job, none when no
/// job is selected.
pub open spec fn log_lines_of(jobs: Seq<JobView>, selected: Option<usize>) -> Seq<LogLineView> {
    match selected {
        Some(i) => if i < jobs.len() {
            job_lines(jobs[i as int])
        } else {
            Seq::empty()
        },
        None => Seq::empty(),
    }
}

/// The log panel's lines for the selected job.
pub fn log_lines(jobs: &Vec<Job>, selected: Option<usize>) -> (r: Vec<LogLine>)
    ensures
        log_lines_view(r@) == log_lines_of(jobs_view(jobs@), selected),
{
    let mut r: Vec<LogLine> = Vec::new();
    let k = match selected {
        Some(k) => k,
        None => {
            assert(log_lines_view(r@) =~= Seq::<LogLineView>::empty());
            return r;
        },
    };
    if k >= jobs.len() {
        assert(log_lines_view(r@) =~= Seq::<LogLineView>::empty());
        return r;
    }
    let job = &jobs[k];
    assert(jobs_view(jobs@)[k as int] == job@);
    assert("  "@ =~= seq![' ', ' ']) by {
        reveal_strlit("  ");
    }
    let mut title = owned("  ");
    push_str(&mut title, job.label.as_str());
    let header = LogLine { text: title, kind: LogLineKind::Header };
    r.push(header);
    assert(log_lines_view(r@) =~= seq![header@]);
    let ghost outs = strings_view(job.output@);
    let mut i: usize = 0;
    while i < job.output.len()
        invariant
            i <= job.output@.len(),
            outs == strings_view(job.output@),
            log_lines_view(r@) == seq![header@] + outs.take(i as int).map_values(
                |l: Seq<char>| output_line(l),
            ),
            "  "@ =~= seq![' ', ' '],
        decreases job.output.len() - i,
    {
        let line = &job.output[i];
        let mut text = owned("  ");
        push_str(&mut text, line.as_str());
        let style = log_line_style(line.as_str());
        let ll = LogLine { text, kind: LogLineKind::Output(style) };
        let ghost before = log_lines_view(r@);
        r.push(ll);
        assert(outs[i as int] == line@);
        assert(ll@ == output_line(line@));
        assert(outs.take(i + 1).map_values(|l: Seq<char>| output_line(l)) =~= outs.take(
            i as int,
        ).map_values(|l: Seq<char>| output_line(l)).push(output_line(line@)));
        assert(log_lines_view(r@) =~= before.push(ll@));
        i = i + 1;
    }
    assert(outs.take(i as int) =~= outs);
    assert(log_lines_view(r@) =~= job_lines(job@));
    r
}

/// The mark of a job's status on its tab.
pub open spec fn status_icon_of(st: JobStatus) -> Seq<char> {
    match st {
        JobStatus::Running => "⟳"@,
        JobStatus::Done => "✓"@,
        JobStatus::Failed => "✗"@,
    }
}

/// A job's tab in the log panel: ` {icon} {label} `.
pub open spec fn job_tab_of(j: JobView) -> Seq<char> {
    seq![' '] + status_icon_of(j.status) + seq![' '] + j.label + seq![' ']
}

/// The text of a job's tab.
pub fn job_tab(job: &Job) -> (r: String)
    ensures
        r@ == job_tab_of(job@),
{
    let icon = match job.status {
        JobStatus::Running => "⟳",
        JobStatus::Done => "✓",
        JobStatus::Failed => "✗",
    };
    let mut t = String::new();
    push_char(&mut t, ' ');
    push_str(&mut t, icon);
    push_char(&mut t, ' ');
    push_str(&mut t, job.label.as_str());
    push_char(&mut t, ' ');
    assert(t@ =~= job_tab_of(job@));
    t
}

/// The log panel's title: it names copy mode and how to leave it.
pub open spec fn log_title_of(copy_mode: bool) -> Seq<char> {
    if copy_mode {
        " Log [COPY MODE — Esc to exit] "@
    } else {
        " Log "@
    }
}

/// The log panel's title.
pub fn log_title(copy_mode: bool) -> (r: &'static str)
    ensures
        r@ == log_title_of(copy_mode),
{
    if copy_mode {
        " Log [COPY MODE — Esc to exit] "
    } else {
        " Log "
    }
}

/// The lines of the log to show, `start..end`: the newest `visible` lines,
/// moved up by the scroll offset, clamped at the top.
pub open spec fn log_window_of(total: nat, visible: nat, scroll: nat) -> (int, int) {
    let start = if total > visible + scroll { total - visible - scroll } else { 0 };
    let end = if total > scroll { total - scroll } else { 0 };
    (start, end)
}

/// The bounds of the visible slice of the log's lines, for a content area
/// `visible` rows high.
pub fn log_window(total: usize, visible: usize, scroll: usize) -> (r: (usize, usize))
    requires
        visible + scroll <= usize::MAX,
    ensures
        r.0 <= r.1 <= total,
        (r.0 as int, r.1 as int) == log_window_of(total as nat, visible as nat, scroll as nat),
{
    let start = total.saturating_sub(visible + scroll);
    let end = total.saturating_sub(scroll);
    let end = if end < total {
        end
    } else {
        total
    };
    (start, end)
}

/// The log window lies inside the lines, holds at most as many lines as
/// fit, fills the area when there are enough lines, and ends at the newest
/// line when not scrolled.
pub proof fn lemma_log_window(total: nat, visible: nat, scroll: nat)
    ensures
        ({
            let (a, b) = log_window_of(total, visible, scroll);
            &&& 0 <= a <= b <= total
            &&& b - a <= visible
            &&& (total >= visible + scroll ==> b - a == visible)
            &&& (scroll == 0 ==> b == total)
        }),
{
}

// ── The tab bar ──────────────────────────────────────────────────────────────

/// The tab bar's title: a spinner frame follows the name while the
/// version list is refetched.
pub open spec fn tabs_title_of(refreshing: bool, tick: u64) -> Seq<char> {
    if refreshing {
        " CMK Helm "@ + spinner_frames()[((tick / 2) % 10) as int] + seq![' ']
    } else {
        " CMK Helm "@
    }
}

/// The tab bar's title.
pub fn tabs_title(refreshing: bool, tick: u64) -> (r: String)
    ensures
        r@ == tabs_title_of(refreshing, tick),
{
    let mut t = owned(" CMK Helm ");
    if refreshing {
        push_str(&mut t, spinner_frame(tick));
        push_char(&mut t, ' ');
    }
    t
}

// ── Other panels ─────────────────────────────────────────────────────────────

/// `s` padded with spaces to at least `w` characters, as `{:<w}` writes it.
pub open spec fn pad_right(s: Seq<char>, w: nat) -> Seq<char> {
    if s.len() < w {
        s + Seq::new((w - s.len()) as nat, |i: int| ' ')
    } else {
        s
    }
}

/// The two cells of a row of the installed sites list: a star for the
/// default site (two spaces otherwise) and the name padded to 14
/// characters; the first 22 characters of the version.
pub open spec fn site_cells_of(s: InstalledSiteView) -> (Seq<char>, Seq<char>) {
    (
        (if s.is_default { seq!['★', ' '] } else { seq![' ', ' '] }) + pad_right(s.name, 14),
        if s.version.len() > 22 { s.version.take(22) } else { s.version },
    )
}

/// A site's row: the first cell starts with a star exactly for the default
/// site, then holds the name and is at least 16 characters wide (the name
/// padded with spaces); the second is the version cut to its first 22
/// characters.
pub proof fn lemma_site_cells(s: InstalledSiteView)
    ensures
        ({
            let (a, b) = site_cells_of(s);
            &&& a[0] == (if s.is_default { '★' } else { ' ' })
            &&& a[1] == ' '
            &&& a.subrange(2, 2 + s.name.len() as int) == s.name
            &&& a.len() == if s.name.len() < 14 { 16 } else { s.name.len() + 2 }
            &&& forall|i: int| 2 + s.name.len() <= i < a.len() ==> #[trigger] a[i] == ' '
            &&& b.len() == if s.version.len() > 22 { 22 } else { s.version.len() }
            &&& b == s.version.take(b.len() as int)
        }),
{
    let (a, b) = site_cells_of(s);
    assert(a.subrange(2, 2 + s.name.len() as int) =~= s.name);
    assert(b =~= s.version.take(b.len() as int));
}

/// The cells of an installed site's row.
pub fn site_cells(site: &InstalledSite) -> (r: (String, String))
    ensures
        (r.0@, r.1@) == site_cells_of(site@),
{
    let mut first = String::new();
    if site.is_default {
        push_char(&mut first, '★');
    } else {
        push_char(&mut first, ' ');
    }
    push_char(&mut first, ' ');
    let ghost marker = first@;
    push_str(&mut first, site.name.as_str());
    let name = chars_of(site.name.as_str());
    let mut n = name.len();
    let ghost base = first@;
    while n < 14
        invariant
            name@ == site.name@,
            name@.len() <= n <= 14 || (n == name@.len() && n >= 14),
            first@ == base + Seq::new((n - name@.len()) as nat, |i: int| ' '),
        decreases 14 - n,
    {
        push_char(&mut first, ' ');
        assert(Seq::new((n + 1 - name@.len()) as nat, |i: int| ' ') =~= Seq::new(
            (n - name@.len()) as nat,
            |i: int| ' ',
        ).push(' '));
        n = n + 1;
    }
    assert(first@ =~= site_cells_of(site@).0);
    let v = chars_of(site.version.as_str());
    let k = if v.len() > 22 {
        22
    } else {
        v.len()
    };
    let second = crate::text::string_of_range(&v, 0, k);
    assert(second@ =~= site_cells_of(site@).1);
    (first, second)
}

/// The key hints of the footer for the focused pane and its mode.
pub open spec fn footer_hint_of(s: AppView) -> Seq<char> {
    match s.active_pane {
        ActivePane::VersionBrowser => match s.left_mode {
            LeftModeView::Browse => "  j/k row  h/l or Tab/ShiftTab tab  Enter/i select  r refresh  Alt+hjkl pane  q/Esc quit"@,
            LeftModeView::EditionPicker { .. } => "  j/k edition  Enter confirm  Esc back  Alt+hjkl pane  q quit"@,
            LeftModeView::Configure { .. } => "  Type site name  Backspace del  Enter install  Esc back  Alt+hjkl pane"@,
        },
        ActivePane::InstalledVersions => match s.right_mode {
            RightModeView::ConfirmDelete { .. } => "  y/Enter confirm  n/Esc cancel  q quit"@,
            RightModeView::SiteNameInput { .. } => "  Type site name  Backspace del  Enter create  Esc cancel"@,
            RightModeView::Browse => "  j/k navigate  d delete  s create site  Alt+hjkl pane  q/Esc quit"@,
        },
        ActivePane::InstalledSites => match s.right_mode {
            RightModeView::ConfirmDelete { .. } => "  y/Enter confirm  n/Esc cancel  q quit"@,
            _ => "  j/k navigate  d delete site  Alt+hjkl pane  q/Esc quit"@,
        },
        ActivePane::LogPanel => if s.copy_mode {
            "  j/k scroll  h/l tabs  Esc exit copy mode"@
        } else {
            "  j/k scroll  h/l tabs  c copy mode  Alt+hjkl pane  q quit"@
        },
    }
}

/// The footer's key hints.
pub fn footer_hint(app: &App) -> (r: &'static str)
    ensures
        r@ == footer_hint_of(app@),
{
    match app.active_pane {
        ActivePane::VersionBrowser => match &app.left_mode {
            LeftPaneMode::Browse => "  j/k row  h/l or Tab/ShiftTab tab  Enter/i select  r refresh  Alt+hjkl pane  q/Esc quit",
            LeftPaneMode::EditionPicker { .. } => "  j/k edition  Enter confirm  Esc back  Alt+hjkl pane  q quit",
            LeftPaneMode::Configure { .. } => "  Type site name  Backspace del  Enter install  Esc back  Alt+hjkl pane",
        },
        ActivePane::InstalledVersions => match &app.right_mode {
            RightPaneMode::ConfirmDelete { .. } => "  y/Enter confirm  n/Esc cancel  q quit",
            RightPaneMode::SiteNameInput { .. } => "  Type site name  Backspace del  Enter create  Esc cancel",
            RightPaneMode::Browse => "  j/k navigate  d delete  s create site  Alt+hjkl pane  q/Esc quit",
        },
        ActivePane::InstalledSites => match &app.right_mode {
            RightPaneMode::ConfirmDelete { .. } => "  y/Enter confirm  n/Esc cancel  q quit",
            _ => "  j/k navigate  d delete site  Alt+hjkl pane  q/Esc quit",
        },
        ActivePane::LogPanel => if app.copy_mode {
            "  j/k scroll  h/l tabs  Esc exit copy mode"
        } else {
            "  j/k scroll  h/l tabs  c copy mode  Alt+hjkl pane  q quit"
        },
    }
}

// ── The edition picker ───────────────────────────────────────────────────────

/// An item of the edition picker: `  {title}  [-e {code}]`.
pub open spec fn edition_item_of(e: Edition) -> Seq<char> {
    seq![' ', ' '] + edition_title(e) + "  [-e "@ + edition_code(e) + seq![']']
}

/// The text of an edition's item in the picker.
pub fn edition_item(e: Edition) -> (r: String)
    ensures
        r@ == edition_item_of(e),
{
    let mut t = owned("  ");
    push_str(&mut t, e.display_name());
    let tail = "  [-e ";
    push_str(&mut t, tail);
    push_str(&mut t, e.as_str());
    push_char(&mut t, ']');
    assert("  "@ =~= seq![' ', ' ']) by {
        reveal_strlit("  ");
    }
    assert(t@ =~= edition_item_of(e));
    t
}

// ── The installation plan ────────────────────────────────────────────────────

/// The command line the installation plan shows for a version and an
/// edition: `cmk-dev-install {install_arg} -e {edition}`.
pub open spec fn plan_command_of(v: VersionView, e: Edition) -> Seq<char> {
    command_text(seq!["cmk-dev-install"@, install_arg_of(v), "-e"@, edition_code(e)])
}

/// The text of the plan's "Command" line.
pub fn plan_command(version: &Version, edition: Edition) -> (r: String)
    ensures
        r@ == plan_command_of(version@, edition),
{
    let c = vec![owned("cmk-dev-install"), version.install_arg(), owned("-e"), owned(edition.as_str())];
    assert(strings_view(c@) =~= seq!["cmk-dev-install"@, install_arg_of(version@), "-e"@, edition_code(edition)]);
    command_line_text(&c)
}

/// What the plan shows is what runs: confirming a site name in the form of
/// a version and edition starts an install job whose first command line is
/// the plan's command.
pub proof fn lemma_plan_is_first_command(s: AppView, g: usize, v: usize, e: Edition, site: Seq<char>)
    requires
        site.len() > 0,
        g < s.version_groups.len(),
        v < s.version_groups[g as int].versions.len(),
    ensures
        configure_step(s, KeyCode::Enter, g, v, e, site).1 matches ActionView::Install { job_id, config }
            && install_step_of(config, job_id, InstallEventView::Start).1 matches Some(cmd)
            && command_text(cmd) == plan_command_of(s.version_groups[g as int].versions[v as int], e),
{
}

// ── The splash screen ────────────────────────────────────────────────────────

/// The face on the splash screen: it blinks for the last 4 of every 64
/// frames.
pub open spec fn splash_face_of(tick: u64) -> Seq<char> {
    if tick % 64 >= 60 {
        "(-‿-)"@
    } else {
        "(•‿•)"@
    }
}

pub fn splash_face(tick: u64) -> (r: &'static str)
    ensures
        r@ == splash_face_of(tick),
{
    if tick % 64 >= 60 {
        "(-‿-)"
    } else {
        "(•‿•)"
    }
}

/// The frames of the braille spinner.
pub open spec fn spinner_frames() -> Seq<Seq<char>> {
    seq!["⠋"@, "⠙"@, "⠹"@, "⠸"@, "⠼"@, "⠴"@, "⠦"@, "⠧"@, "⠇"@, "⠏"@]
}

/// The spinner advances one frame every two ticks.
pub fn spinner_frame(tick: u64) -> (r: &'static str)
    ensures
        r@ == spinner_frames()[((tick / 2) % 10) as int],
{
    let i = (tick / 2) % 10;
    if i == 0 {
        "⠋"
    } else if i == 1 {
        "⠙"
    } else if i == 2 {
        "⠹"
    } else if i == 3 {
        "⠸"
    } else if i == 4 {
        "⠼"
    } else if i == 5 {
        "⠴"
    } else if i == 6 {
        "⠦"
    } else if i == 7 {
        "⠧"
    } else if i == 8 {
        "⠇"
    } else {
        "⠏"
    }
}

} // verus!
