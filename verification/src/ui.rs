use vstd::prelude::*;

use crate::api::{
    dir_name_of, edition_code, editions_for, groups_view, install_arg_of, Edition, VersionGroup,
    VersionGroupView,
};
use crate::installer::{
    jobs_view, sites_view, JobMessageView, InstallConfig, InstallConfigView, InstalledSite, InstalledSiteView, Job,
    JobId, JobMessage, JobStatus, JobView,
};
use crate::text::{owned, pop_char, push_char, push_str, strings_view};

verus! {

// ── Panes, modes, keys ───────────────────────────────────────────────────────

/// The pane that has keyboard focus.
#[derive(Debug, Clone, Copy, PartialEq, Eq, Structural)]
pub enum ActivePane {
    VersionBrowser,
    InstalledVersions,
    InstalledSites,
    LogPanel,
}

/// The mode of the version browser pane.
#[derive(Debug)]
pub enum LeftPaneMode {
    /// Browsing the version list.
    Browse,
    /// Picking an edition for a version; `selected` is the highlighted row.
    EditionPicker { group_idx: usize, version_idx: usize, selected: Option<usize> },
    /// Typing the name of the site to create.
    Configure { group_idx: usize, version_idx: usize, edition: Edition, site_input: String },
}

/// What a delete confirmation is targeting.
#[derive(Debug)]
pub enum DeleteTarget {
    Version(String),
    Site(String),
}

/// The mode of the installed versions and sites panes.
#[derive(Debug)]
pub enum RightPaneMode {
    Browse,
    /// "Are you sure?" before deleting.
    ConfirmDelete { label: String, target: DeleteTarget },
    /// Typing a site name to create a site from an installed version.
    SiteNameInput { omd_version: String, site_input: String },
}

/// A screen rectangle, in cells.
#[derive(Debug, Default, Clone, Copy, PartialEq, Eq, Structural)]
pub struct Rect {
    pub x: u16,
    pub y: u16,
    pub width: u16,
    pub height: u16,
}

/// Where each pane was drawn last, for mouse hit-testing.
#[derive(Debug, Default, Clone, Copy, PartialEq, Eq, Structural)]
pub struct PaneRects {
    pub version_browser: Rect,
    pub installed_versions: Rect,
    pub installed_sites: Rect,
    pub log_panel: Rect,
}

/// A key of the keyboard, as far as the interface tells keys apart.
#[derive(Debug, Clone, Copy, PartialEq, Eq, Structural)]
pub enum KeyCode {
    Char(char),
    Up,
    Down,
    Left,
    Right,
    Tab,
    BackTab,
    Enter,
    Esc,
    Backspace,
    Other,
}

/// The modifier keys held with a key.
#[derive(Debug, Clone, Copy, PartialEq, Eq, Structural)]
pub struct KeyModifiers {
    pub control: bool,
    pub alt: bool,
}

/// The outside work that a key asks for.
#[derive(Debug)]
pub enum Action {
    Nothing,
    /// Run the install job `job_id` with this configuration.
    Install { job_id: JobId, config: InstallConfig },
    /// Delete an installed version, as job `job_id`.
    DeleteVersion { job_id: JobId, version: String },
    /// Delete a site, as job `job_id`.
    DeleteSite { job_id: JobId, name: String },
    /// Create a site from an installed version, as job `job_id`.
    CreateSite { job_id: JobId, omd_version: String, site_name: String },
    /// Fetch the version list again.
    RefreshVersions,
}

/// The data loaded at startup and on a refresh.
pub struct LoadResult {
    pub version_groups: Vec<VersionGroup>,
    pub installed_versions: Vec<String>,
    pub installed_sites: Vec<InstalledSite>,
}

/// The state of the interface.
pub struct App {
    /// Versions grouped by base version, one group per tab.
    pub version_groups: Vec<VersionGroup>,
    /// The selected tab.
    pub active_tab: usize,
    /// The highlighted row of the active tab's version list.
    pub table_selected: Option<usize>,
    pub active_pane: ActivePane,
    pub left_mode: LeftPaneMode,
    pub right_mode: RightPaneMode,
    pub pane_rects: PaneRects,
    pub installed_versions: Vec<String>,
    pub versions_selected: Option<usize>,
    pub installed_sites: Vec<InstalledSite>,
    pub sites_selected: Option<usize>,
    pub jobs: Vec<Job>,
    pub next_job_id: JobId,
    /// How far the log panel is scrolled up (0 shows the newest lines).
    pub log_scroll: usize,
    /// The job whose output the log panel shows.
    pub selected_job: Option<usize>,
    /// Whether the log panel leaves the mouse to the terminal, for
    /// selecting text.
    pub copy_mode: bool,
    /// Whether a refetch of the version list is under way.
    pub is_refreshing: bool,
    pub should_quit: bool,
}

// ── Views ────────────────────────────────────────────────────────────────────

pub enum LeftModeView {
    Browse,
    EditionPicker { group_idx: usize, version_idx: usize, selected: Option<usize> },
    Configure { group_idx: usize, version_idx: usize, edition: Edition, site_input: Seq<char> },
}

pub enum DeleteTargetView {
    Version(Seq<char>),
    Site(Seq<char>),
}

pub enum RightModeView {
    Browse,
    ConfirmDelete { label: Seq<char>, target: DeleteTargetView },
    SiteNameInput { omd_version: Seq<char>, site_input: Seq<char> },
}

pub enum ActionView {
    Nothing,
    Install { job_id: JobId, config: InstallConfigView },
    DeleteVersion { job_id: JobId, version: Seq<char> },
    DeleteSite { job_id: JobId, name: Seq<char> },
    CreateSite { job_id: JobId, omd_version: Seq<char>, site_name: Seq<char> },
    RefreshVersions,
}

pub struct AppView {
    pub version_groups: Seq<VersionGroupView>,
    pub active_tab: usize,
    pub table_selected: Option<usize>,
    pub active_pane: ActivePane,
    pub left_mode: LeftModeView,
    pub right_mode: RightModeView,
    pub pane_rects: PaneRects,
    pub installed_versions: Seq<Seq<char>>,
    pub versions_selected: Option<usize>,
    pub installed_sites: Seq<InstalledSiteView>,
    pub sites_selected: Option<usize>,
    pub jobs: Seq<JobView>,
    pub next_job_id: JobId,
    pub log_scroll: usize,
    pub selected_job: Option<usize>,
    pub copy_mode: bool,
    pub is_refreshing: bool,
    pub should_quit: bool,
}

impl View for LeftPaneMode {
    type V = LeftModeView;

    open spec fn view(&self) -> LeftModeView {
        match self {
            LeftPaneMode::Browse => LeftModeView::Browse,
            LeftPaneMode::EditionPicker { group_idx, version_idx, selected } => LeftModeView::EditionPicker {
                group_idx: *group_idx,
                version_idx: *version_idx,
                selected: *selected,
            },
            LeftPaneMode::Configure { group_idx, version_idx, edition, site_input } => LeftModeView::Configure {
                group_idx: *group_idx,
                version_idx: *version_idx,
                edition: *edition,
                site_input: site_input@,
            },
        }
    }
}

impl View for DeleteTarget {
    type V = DeleteTargetView;

    open spec fn view(&self) -> DeleteTargetView {
        match self {
            DeleteTarget::Version(v) => DeleteTargetView::Version(v@),
            DeleteTarget::Site(s) => DeleteTargetView::Site(s@),
        }
    }
}

impl View for RightPaneMode {
    type V = RightModeView;

    open spec fn view(&self) -> RightModeView {
        match self {
            RightPaneMode::Browse => RightModeView::Browse,
            RightPaneMode::ConfirmDelete { label, target } => RightModeView::ConfirmDelete {
                label: label@,
                target: target@,
            },
            RightPaneMode::SiteNameInput { omd_version, site_input } => RightModeView::SiteNameInput {
                omd_version: omd_version@,
                site_input: site_input@,
            },
        }
    }
}

impl View for Action {
    type V = ActionView;

    open spec fn view(&self) -> ActionView {
        match self {
            Action::Nothing => ActionView::Nothing,
            Action::Install { job_id, config } => ActionView::Install { job_id: *job_id, config: config@ },
            Action::DeleteVersion { job_id, version } => ActionView::DeleteVersion {
                job_id: *job_id,
                version: version@,
            },
            Action::DeleteSite { job_id, name } => ActionView::DeleteSite { job_id: *job_id, name: name@ },
            Action::CreateSite { job_id, omd_version, site_name } => ActionView::CreateSite {
                job_id: *job_id,
                omd_version: omd_version@,
                site_name: site_name@,
            },
            Action::RefreshVersions => ActionView::RefreshVersions,
        }
    }
}

impl View for App {
    type V = AppView;

    open spec fn view(&self) -> AppView {
        AppView {
            version_groups: groups_view(self.version_groups@),
            active_tab: self.active_tab,
            table_selected: self.table_selected,
            active_pane: self.active_pane,
            left_mode: self.left_mode@,
            right_mode: self.right_mode@,
            pane_rects: self.pane_rects,
            installed_versions: strings_view(self.installed_versions@),
            versions_selected: self.versions_selected,
            installed_sites: sites_view(self.installed_sites@),
            sites_selected: self.sites_selected,
            jobs: jobs_view(self.jobs@),
            next_job_id: self.next_job_id,
            log_scroll: self.log_scroll,
            selected_job: self.selected_job,
            copy_mode: self.copy_mode,
            is_refreshing: self.is_refreshing,
            should_quit: self.should_quit,
        }
    }
}

// ── Well-formed states ───────────────────────────────────────────────────────

/// A list selection that the list's key handlers keep: none, the first row,
/// or a row of the list.
pub open spec fn selection_ok(sel: Option<usize>, len: nat) -> bool {
    sel matches Some(i) ==> (i < len || i == 0)
}

/// The number of versions in the selected tab; 0 when there is no tab.
pub open spec fn tab_len(s: AppView) -> nat {
    if s.active_tab < s.version_groups.len() {
        s.version_groups[s.active_tab as int].versions.len()
    } else {
        0
    }
}

/// `(g, v)` names a version.
pub open spec fn version_at(s: AppView, g: usize, v: usize) -> bool {
    g < s.version_groups.len() && v < s.version_groups[g as int].versions.len()
}

/// The editions offered for the version at `(g, v)`.
pub open spec fn editions_at(s: AppView, g: usize, v: usize) -> Seq<Edition> {
    editions_for(s.version_groups[g as int].versions[v as int].base)
}

/// The invariant of the interface's state: the selected tab exists (or is
/// the first when there is none) and the selected row is one of its rows
/// or the first; the modes name existing versions and editions; job ids are distinct and below the next one; the
/// log shows a job exactly when there is one.
pub open spec fn app_wf(s: AppView) -> bool {
    &&& (s.active_tab < s.version_groups.len() || s.active_tab == 0)
    &&& selection_ok(s.table_selected, tab_len(s))
    &&& match s.left_mode {
        LeftModeView::Browse => true,
        LeftModeView::EditionPicker { group_idx, version_idx, selected } => {
            &&& version_at(s, group_idx, version_idx)
            &&& selected matches Some(e) && e < editions_at(s, group_idx, version_idx).len()
        },
        LeftModeView::Configure { group_idx, version_idx, .. } => version_at(s, group_idx, version_idx),
    }
    &&& selection_ok(s.versions_selected, s.installed_versions.len())
    &&& selection_ok(s.sites_selected, s.installed_sites.len())
    &&& forall|i: int| 0 <= i < s.jobs.len() ==> #[trigger] s.jobs[i].id < s.next_job_id
    &&& forall|i: int, j: int|
        0 <= i < j < s.jobs.len() ==> #[trigger] s.jobs[i].id != #[trigger] s.jobs[j].id
    &&& match s.selected_job {
        Some(i) => i < s.jobs.len(),
        None => s.jobs.len() == 0,
    }
}

// ── Transitions ──────────────────────────────────────────────────────────────

pub open spec fn focus_right_of(p: ActivePane) -> ActivePane {
    match p {
        ActivePane::VersionBrowser => ActivePane::InstalledVersions,
        ActivePane::LogPanel => ActivePane::InstalledSites,
        other => other,
    }
}

pub open spec fn focus_left_of(p: ActivePane) -> ActivePane {
    match p {
        ActivePane::InstalledVersions => ActivePane::VersionBrowser,
        ActivePane::InstalledSites => ActivePane::VersionBrowser,
        ActivePane::LogPanel => ActivePane::VersionBrowser,
        other => other,
    }
}

pub open spec fn focus_down_of(p: ActivePane) -> ActivePane {
    match p {
        ActivePane::VersionBrowser => ActivePane::LogPanel,
        ActivePane::InstalledVersions => ActivePane::InstalledSites,
        ActivePane::InstalledSites => ActivePane::LogPanel,
        other => other,
    }
}

pub open spec fn focus_up_of(p: ActivePane) -> ActivePane {
    match p {
        ActivePane::LogPanel => ActivePane::VersionBrowser,
        ActivePane::InstalledSites => ActivePane::InstalledVersions,
        ActivePane::InstalledVersions => ActivePane::VersionBrowser,
        other => other,
    }
}

/// The row above: one up, stopping at the first; the first when none.
pub open spec fn row_up(sel: Option<usize>) -> Option<usize> {
    match sel {
        Some(i) => Some(if i > 0 { (i - 1) as usize } else { 0 }),
        None => Some(0),
    }
}

/// The row below in a list of `len` rows: one down, stopping at the last;
/// the first when none.
pub open spec fn row_down(sel: Option<usize>, len: nat) -> Option<usize> {
    let last: int = if len > 0 { len - 1 } else { 0 };
    match sel {
        Some(i) => Some(if i + 1 < last { (i + 1) as usize } else { last as usize }),
        None => Some(0),
    }
}

pub open spec fn quit(s: AppView) -> (AppView, ActionView) {
    (AppView { should_quit: true, ..s }, ActionView::Nothing)
}

pub open spec fn unchanged(s: AppView) -> (AppView, ActionView) {
    (s, ActionView::Nothing)
}

/// A key in the version list.
pub open spec fn browse_step(s: AppView, code: KeyCode) -> (AppView, ActionView) {
    match code {
        KeyCode::Tab | KeyCode::Char('l') => if s.active_tab + 1 < s.version_groups.len() {
            unchanged(AppView { active_tab: (s.active_tab + 1) as usize, table_selected: Some(0), ..s })
        } else {
            unchanged(s)
        },
        KeyCode::BackTab | KeyCode::Char('h') => if s.active_tab > 0 {
            unchanged(AppView { active_tab: (s.active_tab - 1) as usize, table_selected: Some(0), ..s })
        } else {
            unchanged(s)
        },
        KeyCode::Up | KeyCode::Char('k') => unchanged(
            AppView { table_selected: row_up(s.table_selected), ..s },
        ),
        KeyCode::Down | KeyCode::Char('j') => unchanged(
            AppView {
                table_selected: row_down(
                    s.table_selected,
                    if s.active_tab < s.version_groups.len() {
                        s.version_groups[s.active_tab as int].versions.len()
                    } else {
                        0
                    },
                ),
                ..s
            },
        ),
        KeyCode::Enter | KeyCode::Char('i') => match s.table_selected {
            Some(vi) => if version_at(s, s.active_tab, vi) {
                unchanged(
                    AppView {
                        left_mode: LeftModeView::EditionPicker {
                            group_idx: s.active_tab,
                            version_idx: vi,
                            selected: Some(0),
                        },
                        ..s
                    },
                )
            } else {
                unchanged(s)
            },
            None => unchanged(s),
        },
        KeyCode::Char('r') => if s.is_refreshing {
            unchanged(s)
        } else {
            (AppView { is_refreshing: true, ..s }, ActionView::RefreshVersions)
        },
        KeyCode::Esc => quit(s),
        _ => unchanged(s),
    }
}

/// A key in the edition picker of the version at `(g, v)`.
pub open spec fn picker_step(
    s: AppView,
    code: KeyCode,
    g: usize,
    v: usize,
    sel: Option<usize>,
) -> (AppView, ActionView) {
    let editions = editions_at(s, g, v);
    match code {
        KeyCode::Esc => unchanged(AppView { left_mode: LeftModeView::Browse, ..s }),
        KeyCode::Up | KeyCode::Char('k') => unchanged(
            AppView {
                left_mode: LeftModeView::EditionPicker {
                    group_idx: g,
                    version_idx: v,
                    selected: row_up(sel),
                },
                ..s
            },
        ),
        KeyCode::Down | KeyCode::Char('j') => unchanged(
            AppView {
                left_mode: LeftModeView::EditionPicker {
                    group_idx: g,
                    version_idx: v,
                    selected: row_down(sel, editions.len()),
                },
                ..s
            },
        ),
        KeyCode::Enter => unchanged(
            AppView {
                left_mode: LeftModeView::Configure {
                    group_idx: g,
                    version_idx: v,
                    edition: match sel {
                        Some(i) => editions[i as int],
                        None => editions[0],
                    },
                    site_input: Seq::empty(),
                },
                ..s
            },
        ),
        _ => unchanged(s),
    }
}

/// The label of an install job.
pub open spec fn install_label(c: InstallConfigView) -> Seq<char> {
    "install "@ + c.version + " -e "@ + c.edition + " → "@ + c.site_name
}

/// A new running job with no output yet.
pub open spec fn new_job(id: JobId, label: Seq<char>) -> JobView {
    JobView { id, label, status: JobStatus::Running, output: Seq::empty() }
}

/// `s` with a new running job registered under the next id, shown in the
/// log panel.
pub open spec fn with_job(s: AppView, label: Seq<char>) -> AppView {
    AppView {
        jobs: s.jobs.push(new_job(s.next_job_id, label)),
        next_job_id: (s.next_job_id + 1) as usize,
        selected_job: Some(s.jobs.len() as usize),
        ..s
    }
}

/// The install configuration for the version at `(g, v)`.
pub open spec fn install_config_of(s: AppView, g: usize, v: usize, e: Edition, site: Seq<char>) -> InstallConfigView {
    let ver = s.version_groups[g as int].versions[v as int];
    InstallConfigView {
        version: install_arg_of(ver),
        omd_version: dir_name_of(ver),
        edition: edition_code(e),
        site_name: site,
    }
}

/// A key in the site-name form of the version at `(g, v)`.
pub open spec fn configure_step(
    s: AppView,
    code: KeyCode,
    g: usize,
    v: usize,
    e: Edition,
    site: Seq<char>,
) -> (AppView, ActionView) {
    match code {
        KeyCode::Esc => unchanged(
            AppView {
                left_mode: LeftModeView::EditionPicker { group_idx: g, version_idx: v, selected: Some(0) },
                ..s
            },
        ),
        KeyCode::Char(c) => unchanged(
            AppView {
                left_mode: LeftModeView::Configure { group_idx: g, version_idx: v, edition: e, site_input: site.push(c) },
                ..s
            },
        ),
        KeyCode::Backspace => unchanged(
            AppView {
                left_mode: LeftModeView::Configure {
                    group_idx: g,
                    version_idx: v,
                    edition: e,
                    site_input: if site.len() > 0 { site.drop_last() } else { site },
                },
                ..s
            },
        ),
        KeyCode::Enter => if site.len() > 0 {
            let config = install_config_of(s, g, v, e, site);
            (
                AppView { left_mode: LeftModeView::Browse, ..with_job(s, install_label(config)) },
                ActionView::Install { job_id: s.next_job_id, config },
            )
        } else {
            unchanged(s)
        },
        _ => unchanged(s),
    }
}

/// A key in the installed versions list.
pub open spec fn versions_browse_step(s: AppView, code: KeyCode) -> (AppView, ActionView) {
    match code {
        KeyCode::Up | KeyCode::Char('k') => unchanged(
            AppView { versions_selected: row_up(s.versions_selected), ..s },
        ),
        KeyCode::Down | KeyCode::Char('j') => unchanged(
            AppView { versions_selected: row_down(s.versions_selected, s.installed_versions.len()), ..s },
        ),
        KeyCode::Char('d') => match s.versions_selected {
            Some(i) => if i < s.installed_versions.len() {
                let ver = s.installed_versions[i as int];
                unchanged(
                    AppView {
                        right_mode: RightModeView::ConfirmDelete {
                            label: "Delete version "@ + ver + "?"@,
                            target: DeleteTargetView::Version(ver),
                        },
                        ..s
                    },
                )
            } else {
                unchanged(s)
            },
            None => unchanged(s),
        },
        KeyCode::Char('s') => match s.versions_selected {
            Some(i) => if i < s.installed_versions.len() {
                unchanged(
                    AppView {
                        right_mode: RightModeView::SiteNameInput {
                            omd_version: s.installed_versions[i as int],
                            site_input: Seq::empty(),
                        },
                        ..s
                    },
                )
            } else {
                unchanged(s)
            },
            None => unchanged(s),
        },
        KeyCode::Esc => quit(s),
        _ => unchanged(s),
    }
}

/// A key in the installed sites list.
pub open spec fn sites_browse_step(s: AppView, code: KeyCode) -> (AppView, ActionView) {
    match code {
        KeyCode::Up | KeyCode::Char('k') => unchanged(
            AppView { sites_selected: row_up(s.sites_selected), ..s },
        ),
        KeyCode::Down | KeyCode::Char('j') => unchanged(
            AppView { sites_selected: row_down(s.sites_selected, s.installed_sites.len()), ..s },
        ),
        KeyCode::Char('d') => match s.sites_selected {
            Some(i) => if i < s.installed_sites.len() {
                let name = s.installed_sites[i as int].name;
                unchanged(
                    AppView {
                        right_mode: RightModeView::ConfirmDelete {
                            label: "Delete site "@ + name + "?"@,
                            target: DeleteTargetView::Site(name),
                        },
                        ..s
                    },
                )
            } else {
                unchanged(s)
            },
            None => unchanged(s),
        },
        KeyCode::Esc => quit(s),
        _ => unchanged(s),
    }
}

/// A key while a delete waits for confirmation.
pub open spec fn confirm_step(s: AppView, code: KeyCode, target: DeleteTargetView) -> (AppView, ActionView) {
    match code {
        KeyCode::Char('y') | KeyCode::Enter => match target {
            DeleteTargetView::Version(ver) => (
                AppView { right_mode: RightModeView::Browse, ..with_job(s, "delete version "@ + ver) },
                ActionView::DeleteVersion { job_id: s.next_job_id, version: ver },
            ),
            DeleteTargetView::Site(name) => (
                AppView { right_mode: RightModeView::Browse, ..with_job(s, "delete site "@ + name) },
                ActionView::DeleteSite { job_id: s.next_job_id, name },
            ),
        },
        KeyCode::Char('n') | KeyCode::Esc => unchanged(AppView { right_mode: RightModeView::Browse, ..s }),
        _ => unchanged(s),
    }
}

/// A key in the site-name form of an installed version.
pub open spec fn site_input_step(s: AppView, code: KeyCode, omd: Seq<char>, site: Seq<char>) -> (
    AppView,
    ActionView,
) {
    match code {
        KeyCode::Esc => unchanged(AppView { right_mode: RightModeView::Browse, ..s }),
        KeyCode::Char(c) => unchanged(
            AppView { right_mode: RightModeView::SiteNameInput { omd_version: omd, site_input: site.push(c) }, ..s },
        ),
        KeyCode::Backspace => unchanged(
            AppView {
                right_mode: RightModeView::SiteNameInput {
                    omd_version: omd,
                    site_input: if site.len() > 0 { site.drop_last() } else { site },
                },
                ..s
            },
        ),
        KeyCode::Enter => if site.len() > 0 {
            (
                AppView { right_mode: RightModeView::Browse, ..with_job(s, "create site from "@ + omd) },
                ActionView::CreateSite { job_id: s.next_job_id, omd_version: omd, site_name: site },
            )
        } else {
            unchanged(s)
        },
        _ => unchanged(s),
    }
}

/// A key in the installed versions or sites pane, by the right mode.
pub open spec fn right_step(s: AppView, code: KeyCode, sites: bool) -> (AppView, ActionView) {
    match s.right_mode {
        RightModeView::Browse => if sites {
            sites_browse_step(s, code)
        } else {
            versions_browse_step(s, code)
        },
        RightModeView::ConfirmDelete { target, .. } => confirm_step(s, code, target),
        RightModeView::SiteNameInput { omd_version, site_input } => site_input_step(
            s,
            code,
            omd_version,
            site_input,
        ),
    }
}

/// A key in the log panel.
pub open spec fn log_step(s: AppView, code: KeyCode) -> (AppView, ActionView) {
    match code {
        KeyCode::Up | KeyCode::Char('k') => unchanged(
            AppView {
                log_scroll: if s.log_scroll < usize::MAX { (s.log_scroll + 1) as usize } else { s.log_scroll },
                ..s
            },
        ),
        KeyCode::Down | KeyCode::Char('j') => unchanged(
            AppView { log_scroll: if s.log_scroll > 0 { (s.log_scroll - 1) as usize } else { 0 }, ..s },
        ),
        KeyCode::Char('h') => match s.selected_job {
            Some(i) => if i > 0 {
                unchanged(AppView { selected_job: Some((i - 1) as usize), log_scroll: 0, ..s })
            } else {
                unchanged(s)
            },
            None => unchanged(s),
        },
        KeyCode::Char('l') => match s.selected_job {
            Some(i) => if i + 1 < s.jobs.len() {
                unchanged(AppView { selected_job: Some((i + 1) as usize), log_scroll: 0, ..s })
            } else {
                unchanged(s)
            },
            None => unchanged(s),
        },
        KeyCode::Char('c') => unchanged(AppView { copy_mode: true, ..s }),
        KeyCode::Esc => if s.copy_mode {
            unchanged(AppView { copy_mode: false, ..s })
        } else {
            quit(s)
        },
        _ => unchanged(s),
    }
}

/// The pane that the control-arrow or alt-letter keys move focus to, if
/// the key is one of them.
pub open spec fn focus_move(code: KeyCode, m: KeyModifiers, p: ActivePane) -> Option<ActivePane> {
    if m.control && code == KeyCode::Left {
        Some(focus_left_of(p))
    } else if m.control && code == KeyCode::Right {
        Some(focus_right_of(p))
    } else if m.control && code == KeyCode::Down {
        Some(focus_down_of(p))
    } else if m.control && code == KeyCode::Up {
        Some(focus_up_of(p))
    } else if m.alt && code == KeyCode::Char('h') {
        Some(focus_left_of(p))
    } else if m.alt && code == KeyCode::Char('l') {
        Some(focus_right_of(p))
    } else if m.alt && code == KeyCode::Char('j') {
        Some(focus_down_of(p))
    } else if m.alt && code == KeyCode::Char('k') {
        Some(focus_up_of(p))
    } else {
        None
    }
}

/// What a key press does: `q` quits (but types a `q` in the version
/// browser's site-name form); control-arrows and alt-h/j/k/l move focus;
/// every other key goes to the focused pane.
pub open spec fn step(s: AppView, code: KeyCode, m: KeyModifiers) -> (AppView, ActionView) {
    if code == KeyCode::Char('q') && !m.control && (!(s.left_mode is Configure) || s.active_pane
        != ActivePane::VersionBrowser) {
        quit(s)
    } else if focus_move(code, m, s.active_pane) is Some {
        unchanged(AppView { active_pane: focus_move(code, m, s.active_pane)->0, ..s })
    } else {
        match s.active_pane {
            ActivePane::VersionBrowser => match s.left_mode {
                LeftModeView::Browse => browse_step(s, code),
                LeftModeView::EditionPicker { group_idx, version_idx, selected } => picker_step(
                    s,
                    code,
                    group_idx,
                    version_idx,
                    selected,
                ),
                LeftModeView::Configure { group_idx, version_idx, edition, site_input } => configure_step(
                    s,
                    code,
                    group_idx,
                    version_idx,
                    edition,
                    site_input,
                ),
            },
            ActivePane::InstalledVersions => right_step(s, code, false),
            ActivePane::InstalledSites => right_step(s, code, true),
            ActivePane::LogPanel => log_step(s, code),
        }
    }
}


/// The state right after loading: the first tab and row selected, focus on
/// the version browser, the first installed version and site highlighted
/// when there are any, no jobs.
pub open spec fn initial_view(
    groups: Seq<VersionGroupView>,
    versions: Seq<Seq<char>>,
    sites: Seq<InstalledSiteView>,
) -> AppView {
    AppView {
        version_groups: groups,
        active_tab: 0,
        table_selected: Some(0),
        active_pane: ActivePane::VersionBrowser,
        left_mode: LeftModeView::Browse,
        right_mode: RightModeView::Browse,
        pane_rects: PaneRects {
            version_browser: Rect { x: 0, y: 0, width: 0, height: 0 },
            installed_versions: Rect { x: 0, y: 0, width: 0, height: 0 },
            installed_sites: Rect { x: 0, y: 0, width: 0, height: 0 },
            log_panel: Rect { x: 0, y: 0, width: 0, height: 0 },
        },
        installed_versions: versions,
        versions_selected: if versions.len() > 0 { Some(0) } else { None },
        installed_sites: sites,
        sites_selected: if sites.len() > 0 { Some(0) } else { None },
        jobs: Seq::empty(),
        next_job_id: 0,
        log_scroll: 0,
        selected_job: None,
        copy_mode: false,
        is_refreshing: false,
        should_quit: false,
    }
}


fn empty_rect() -> (r: Rect)
    ensures
        r == (Rect { x: 0, y: 0, width: 0, height: 0 }),
{
    Rect { x: 0, y: 0, width: 0, height: 0 }
}

fn pane_left(p: ActivePane) -> (r: ActivePane)
    ensures
        r == focus_left_of(p),
{
    match p {
        ActivePane::InstalledVersions => ActivePane::VersionBrowser,
        ActivePane::InstalledSites => ActivePane::VersionBrowser,
        ActivePane::LogPanel => ActivePane::VersionBrowser,
        other => other,
    }
}

fn pane_right(p: ActivePane) -> (r: ActivePane)
    ensures
        r == focus_right_of(p),
{
    match p {
        ActivePane::VersionBrowser => ActivePane::InstalledVersions,
        ActivePane::LogPanel => ActivePane::InstalledSites,
        other => other,
    }
}

fn pane_down(p: ActivePane) -> (r: ActivePane)
    ensures
        r == focus_down_of(p),
{
    match p {
        ActivePane::VersionBrowser => ActivePane::LogPanel,
        ActivePane::InstalledVersions => ActivePane::InstalledSites,
        ActivePane::InstalledSites => ActivePane::LogPanel,
        other => other,
    }
}

fn pane_up(p: ActivePane) -> (r: ActivePane)
    ensures
        r == focus_up_of(p),
{
    match p {
        ActivePane::LogPanel => ActivePane::VersionBrowser,
        ActivePane::InstalledSites => ActivePane::InstalledVersions,
        ActivePane::InstalledVersions => ActivePane::VersionBrowser,
        other => other,
    }
}

/// `focus_move` on the executable values.
fn focus_target(code: KeyCode, m: KeyModifiers, p: ActivePane) -> (r: Option<ActivePane>)
    ensures
        r == focus_move(code, m, p),
{
    if m.control {
        match code {
            KeyCode::Left => {
                return Some(pane_left(p));
            },
            KeyCode::Right => {
                return Some(pane_right(p));
            },
            KeyCode::Down => {
                return Some(pane_down(p));
            },
            KeyCode::Up => {
                return Some(pane_up(p));
            },
            _ => {},
        }
    }
    if m.alt {
        match code {
            KeyCode::Char('h') => {
                return Some(pane_left(p));
            },
            KeyCode::Char('l') => {
                return Some(pane_right(p));
            },
            KeyCode::Char('j') => {
                return Some(pane_down(p));
            },
            KeyCode::Char('k') => {
                return Some(pane_up(p));
            },
            _ => {},
        }
    }
    None
}

/// `row_up` on the executable values.
fn select_up(sel: Option<usize>) -> (r: Option<usize>)
    ensures
        r == row_up(sel),
{
    match sel {
        Some(i) => Some(i.saturating_sub(1)),
        None => Some(0),
    }
}

/// `row_down` on the executable values.
fn select_down(sel: Option<usize>, len: usize) -> (r: Option<usize>)
    requires
        sel matches Some(i) ==> i < usize::MAX,
    ensures
        r == row_down(sel, len as nat),
{
    let last = len.saturating_sub(1);
    match sel {
        Some(i) => Some(if i + 1 < last {
            i + 1
        } else {
            last
        }),
        None => Some(0),
    }
}


// ── Job messages, refreshes, clicks ──────────────────────────────────────────

/// The first index of the job with id `id`, or -1.
pub open spec fn job_index(jobs: Seq<JobView>, id: JobId) -> int
    decreases jobs.len(),
{
    if jobs.len() == 0 {
        -1
    } else {
        let k = job_index(jobs.drop_last(), id);
        if k >= 0 {
            k
        } else if jobs.last().id == id {
            jobs.len() - 1
        } else {
            -1
        }
    }
}

pub proof fn lemma_job_index_range(jobs: Seq<JobView>, id: JobId)
    ensures
        -1 <= job_index(jobs, id) < jobs.len(),
        job_index(jobs, id) >= 0 ==> jobs[job_index(jobs, id)].id == id,
        job_index(jobs, id) == -1 ==> forall|i: int| 0 <= i < jobs.len() ==> #[trigger] jobs[i].id != id,
    decreases jobs.len(),
{
    if jobs.len() > 0 {
        lemma_job_index_range(jobs.drop_last(), id);
        if job_index(jobs.drop_last(), id) == -1 {
            assert forall|i: int| 0 <= i < jobs.len() - 1 implies #[trigger] jobs[i].id != id by {
                assert(jobs[i] == jobs.drop_last()[i]);
            }
        }
    }
}

/// The line that closes a finished job's output.
pub open spec fn finished_line(ok: bool) -> Seq<char> {
    if ok {
        "── ✓ done ──"@
    } else {
        "── ✗ failed ──"@
    }
}

/// `s` after a message of a background job: an output line is appended to
/// its job's output and scrolls the log to the newest line; a finish sets
/// its job's status and appends the closing line. A message for an unknown
/// job changes no job.
pub open spec fn message_step(s: AppView, m: JobMessageView) -> AppView {
    match m {
        JobMessageView::Output(id, line) => {
            let k = job_index(s.jobs, id);
            AppView {
                jobs: if k >= 0 {
                    s.jobs.update(k, JobView { output: s.jobs[k].output.push(line), ..s.jobs[k] })
                } else {
                    s.jobs
                },
                log_scroll: 0,
                ..s
            }
        },
        JobMessageView::Finished(id, ok) => {
            let k = job_index(s.jobs, id);
            AppView {
                jobs: if k >= 0 {
                    s.jobs.update(
                        k,
                        JobView {
                            status: if ok { JobStatus::Done } else { JobStatus::Failed },
                            output: s.jobs[k].output.push(finished_line(ok)),
                            ..s.jobs[k]
                        },
                    )
                } else {
                    s.jobs
                },
                ..s
            }
        },
    }
}

/// A list selection kept inside a list of `len` rows: none for an empty
/// list, else the first row when there was none or it fell off the end.
pub open spec fn clamp_selection(sel: Option<usize>, len: nat) -> Option<usize> {
    if len == 0 {
        None
    } else if sel matches Some(i) && i < len {
        sel
    } else {
        Some(0)
    }
}

/// `s` with freshly read installed versions and sites.
pub open spec fn installed_step(
    s: AppView,
    versions: Seq<Seq<char>>,
    sites: Seq<InstalledSiteView>,
) -> AppView {
    AppView {
        installed_versions: versions,
        versions_selected: clamp_selection(s.versions_selected, versions.len()),
        installed_sites: sites,
        sites_selected: clamp_selection(s.sites_selected, sites.len()),
        ..s
    }
}

/// `s` with a refetched version list, shown from its first tab and row in
/// browse mode; the refetch is over.
pub open spec fn refreshed_versions_step(s: AppView, groups: Seq<VersionGroupView>) -> AppView {
    AppView {
        version_groups: groups,
        active_tab: 0,
        table_selected: Some(0),
        left_mode: LeftModeView::Browse,
        is_refreshing: false,
        ..s
    }
}

/// The rectangle's right and bottom edges lie on the screen.
pub open spec fn rect_fits(r: Rect) -> bool {
    r.x + r.width <= u16::MAX && r.y + r.height <= u16::MAX
}

pub open spec fn rects_fit(p: PaneRects) -> bool {
    rect_fits(p.version_browser) && rect_fits(p.installed_versions) && rect_fits(p.installed_sites)
        && rect_fits(p.log_panel)
}

/// The cell `(col, row)` lies in `r`.
pub open spec fn rect_has(r: Rect, col: u16, row: u16) -> bool {
    r.x <= col < r.x + r.width && r.y <= row < r.y + r.height
}

/// A left click focuses the pane under it, tried in the order version
/// browser, installed versions, installed sites, log; elsewhere it does
/// nothing.
pub open spec fn click_step(s: AppView, col: u16, row: u16) -> AppView {
    let r = s.pane_rects;
    if rect_has(r.version_browser, col, row) {
        AppView { active_pane: ActivePane::VersionBrowser, ..s }
    } else if rect_has(r.installed_versions, col, row) {
        AppView { active_pane: ActivePane::InstalledVersions, ..s }
    } else if rect_has(r.installed_sites, col, row) {
        AppView { active_pane: ActivePane::InstalledSites, ..s }
    } else if rect_has(r.log_panel, col, row) {
        AppView { active_pane: ActivePane::LogPanel, ..s }
    } else {
        s
    }
}

/// Hit test: whether `(col, row)` lies in `rect`.
pub fn contains(rect: Rect, col: u16, row: u16) -> (r: bool)
    requires
        rect_fits(rect),
    ensures
        r == rect_has(rect, col, row),
{
    col >= rect.x && col < rect.x + rect.width && row >= rect.y && row < rect.y + rect.height
}

impl App {
    /// The invariant of the interface's state.
    pub open spec fn wf(&self) -> bool {
        app_wf(self@)
    }

    /// The interface over freshly loaded data.
    pub fn new(
        version_groups: Vec<VersionGroup>,
        installed_versions: Vec<String>,
        installed_sites: Vec<InstalledSite>,
    ) -> (r: App)
        ensures
            r@ == initial_view(
                groups_view(version_groups@),
                strings_view(installed_versions@),
                sites_view(installed_sites@),
            ),
            r.wf(),
    {
        let versions_selected = if installed_versions.len() > 0 {
            Some(0)
        } else {
            None
        };
        let sites_selected = if installed_sites.len() > 0 {
            Some(0)
        } else {
            None
        };
        let app = App {
            version_groups,
            active_tab: 0,
            table_selected: Some(0),
            active_pane: ActivePane::VersionBrowser,
            left_mode: LeftPaneMode::Browse,
            right_mode: RightPaneMode::Browse,
            pane_rects: PaneRects {
                version_browser: empty_rect(),
                installed_versions: empty_rect(),
                installed_sites: empty_rect(),
                log_panel: empty_rect(),
            },
            installed_versions,
            versions_selected,
            installed_sites,
            sites_selected,
            jobs: Vec::new(),
            next_job_id: 0,
            log_scroll: 0,
            selected_job: None,
            copy_mode: false,
            is_refreshing: false,
            should_quit: false,
        };
        assert(jobs_view(app.jobs@) =~= Seq::<JobView>::empty());
        app
    }

    /// The interface over a loaded bundle.
    pub fn from_load_result(load: LoadResult) -> (r: App)
        ensures
            r@ == initial_view(
                groups_view(load.version_groups@),
                strings_view(load.installed_versions@),
                sites_view(load.installed_sites@),
            ),
            r.wf(),
    {
        App::new(load.version_groups, load.installed_versions, load.installed_sites)
    }

    /// Registers a new running job under the next id and returns the id.
    fn register_job(&mut self, label: String) -> (r: JobId)
        requires
            old(self).next_job_id < usize::MAX,
        ensures
            r == old(self).next_job_id,
            final(self)@ == with_job(old(self)@, label@),
    {
        let id = self.next_job_id;
        self.next_job_id = id + 1;
        self.selected_job = Some(self.jobs.len());
        let ghost before = self.jobs@;
        let job = Job { id, label, status: JobStatus::Running, output: Vec::new() };
        assert(job@ == new_job(id, label@)) by {
            assert(strings_view(job.output@) =~= Seq::<Seq<char>>::empty());
        }
        self.jobs.push(job);
        assert(jobs_view(self.jobs@) =~= jobs_view(before).push(job@));
        id
    }

    fn on_browse(&mut self, code: KeyCode) -> (r: Action)
        requires
            old(self).wf(),
            old(self).left_mode is Browse,
        ensures
            (final(self)@, r@) == browse_step(old(self)@, code),
    {
        match code {
            KeyCode::Tab | KeyCode::Char('l') => {
                assert(self.version_groups@.len() == groups_view(self.version_groups@).len());
                assert(app_wf(self@));
                assert(self.active_tab < self.version_groups.len() || self.active_tab == 0);
                if self.active_tab + 1 < self.version_groups.len() {
                    self.active_tab = self.active_tab + 1;
                    self.table_selected = Some(0);
                }
                Action::Nothing
            },
            KeyCode::BackTab | KeyCode::Char('h') => {
                if self.active_tab > 0 {
                    self.active_tab = self.active_tab - 1;
                    self.table_selected = Some(0);
                }
                Action::Nothing
            },
            KeyCode::Up | KeyCode::Char('k') => {
                self.table_selected = select_up(self.table_selected);
                Action::Nothing
            },
            KeyCode::Down | KeyCode::Char('j') => {
                assert(groups_view(self.version_groups@).len() == self.version_groups@.len());
                let len = if self.active_tab < self.version_groups.len() {
                    assert(groups_view(self.version_groups@)[self.active_tab as int].versions.len()
                        == self.version_groups@[self.active_tab as int].versions@.len());
                    self.version_groups[self.active_tab].versions.len()
                } else {
                    0
                };
                assert(app_wf(self@));
                self.table_selected = select_down(self.table_selected, len);
                Action::Nothing
            },
            KeyCode::Enter | KeyCode::Char('i') => {
                match self.table_selected {
                    Some(vi) => {
                        let g = self.active_tab;
                        if g < self.version_groups.len() && vi < self.version_groups[g].versions.len() {
                            assert(groups_view(self.version_groups@)[g as int] == self.version_groups@[g as int]@);
                            self.left_mode = LeftPaneMode::EditionPicker {
                                group_idx: g,
                                version_idx: vi,
                                selected: Some(0),
                            };
                        } else {
                            assert(groups_view(self.version_groups@).len() == self.version_groups@.len());
                            assert(g < self.version_groups@.len() ==> groups_view(self.version_groups@)[g as int]
                                == self.version_groups@[g as int]@);
                        }
                    },
                    None => {},
                }
                Action::Nothing
            },
            KeyCode::Char('r') => {
                if self.is_refreshing {
                    Action::Nothing
                } else {
                    self.is_refreshing = true;
                    Action::RefreshVersions
                }
            },
            KeyCode::Esc => {
                self.should_quit = true;
                Action::Nothing
            },
            _ => Action::Nothing,
        }
    }

    fn on_edition_picker(&mut self, code: KeyCode) -> (r: Action)
        requires
            old(self).wf(),
            old(self).left_mode is EditionPicker,
        ensures
            (final(self)@, r@) == picker_step(
                old(self)@,
                code,
                old(self).left_mode->EditionPicker_group_idx,
                old(self).left_mode->EditionPicker_version_idx,
                old(self).left_mode->selected,
            ),
    {
        let ghost s = self@;
        let (g, v, sel) = match &self.left_mode {
            LeftPaneMode::EditionPicker { group_idx, version_idx, selected } => (*group_idx, *version_idx, *selected),
            _ => {
                return Action::Nothing;
            },
        };
        assert(groups_view(self.version_groups@)[g as int] == self.version_groups@[g as int]@);
        assert(self.version_groups@[g as int]@.versions[v as int] == self.version_groups@[g as int].versions@[v as int]@);
        let editions = self.version_groups[g].versions[v].available_editions();
        match code {
            KeyCode::Esc => {
                self.left_mode = LeftPaneMode::Browse;
            },
            KeyCode::Up | KeyCode::Char('k') => {
                self.left_mode = LeftPaneMode::EditionPicker { group_idx: g, version_idx: v, selected: select_up(sel) };
            },
            KeyCode::Down | KeyCode::Char('j') => {
                self.left_mode = LeftPaneMode::EditionPicker {
                    group_idx: g,
                    version_idx: v,
                    selected: select_down(sel, editions.len()),
                };
            },
            KeyCode::Enter => {
                let edition = match sel {
                    Some(i) => editions[i],
                    None => editions[0],
                };
                self.left_mode = LeftPaneMode::Configure {
                    group_idx: g,
                    version_idx: v,
                    edition,
                    site_input: String::new(),
                };
            },
            _ => {},
        }
        Action::Nothing
    }

    fn on_configure(&mut self, code: KeyCode) -> (r: Action)
        requires
            old(self).wf(),
            old(self).next_job_id < usize::MAX,
            old(self).left_mode is Configure,
        ensures
            (final(self)@, r@) == configure_step(
                old(self)@,
                code,
                old(self).left_mode->Configure_group_idx,
                old(self).left_mode->Configure_version_idx,
                old(self).left_mode->edition,
                old(self).left_mode->site_input@,
            ),
    {
        let mut mode = LeftPaneMode::Browse;
        std::mem::swap(&mut mode, &mut self.left_mode);
        let (g, v, edition, mut site) = match mode {
            LeftPaneMode::Configure { group_idx, version_idx, edition, site_input } => (
                group_idx,
                version_idx,
                edition,
                site_input,
            ),
            _ => {
                return Action::Nothing;
            },
        };
        match code {
            KeyCode::Esc => {
                self.left_mode = LeftPaneMode::EditionPicker { group_idx: g, version_idx: v, selected: Some(0) };
                Action::Nothing
            },
            KeyCode::Char(c) => {
                push_char(&mut site, c);
                self.left_mode = LeftPaneMode::Configure { group_idx: g, version_idx: v, edition, site_input: site };
                Action::Nothing
            },
            KeyCode::Backspace => {
                pop_char(&mut site);
                self.left_mode = LeftPaneMode::Configure { group_idx: g, version_idx: v, edition, site_input: site };
                Action::Nothing
            },
            KeyCode::Enter => {
                if site.as_str().is_empty() {
                    self.left_mode = LeftPaneMode::Configure { group_idx: g, version_idx: v, edition, site_input: site };
                    return Action::Nothing;
                }
                assert(groups_view(self.version_groups@)[g as int] == self.version_groups@[g as int]@);
                assert(self.version_groups@[g as int]@.versions[v as int]
                    == self.version_groups@[g as int].versions@[v as int]@);
                let version = &self.version_groups[g].versions[v];
                let config = InstallConfig {
                    version: version.install_arg(),
                    omd_version: version.dir_name(),
                    edition: owned(edition.as_str()),
                    site_name: site,
                };
                let mut label = owned("install ");
                push_str(&mut label, config.version.as_str());
                push_str(&mut label, " -e ");
                push_str(&mut label, config.edition.as_str());
                push_str(&mut label, " → ");
                push_str(&mut label, config.site_name.as_str());
                let job_id = self.register_job(label);
                Action::Install { job_id, config }
            },
            _ => {
                self.left_mode = LeftPaneMode::Configure { group_idx: g, version_idx: v, edition, site_input: site };
                Action::Nothing
            },
        }
    }

    fn on_right_browse(&mut self, code: KeyCode, sites: bool) -> (r: Action)
        requires
            old(self).wf(),
            old(self).right_mode is Browse,
        ensures
            (final(self)@, r@) == (if sites {
                sites_browse_step(old(self)@, code)
            } else {
                versions_browse_step(old(self)@, code)
            }),
    {
        assert(app_wf(self@));
        let len = if sites {
            self.installed_sites.len()
        } else {
            self.installed_versions.len()
        };
        let sel = if sites {
            self.sites_selected
        } else {
            self.versions_selected
        };
        match code {
            KeyCode::Up | KeyCode::Char('k') => {
                if sites {
                    self.sites_selected = select_up(sel);
                } else {
                    self.versions_selected = select_up(sel);
                }
                Action::Nothing
            },
            KeyCode::Down | KeyCode::Char('j') => {
                if sites {
                    self.sites_selected = select_down(sel, len);
                } else {
                    self.versions_selected = select_down(sel, len);
                }
                Action::Nothing
            },
            KeyCode::Char('d') => {
                match sel {
                    Some(idx) => {
                        if idx < len {
                            if sites {
                                let name = self.installed_sites[idx].name.clone();
                                assert(sites_view(self.installed_sites@)[idx as int].name == name@);
                                let mut label = owned("Delete site ");
                                push_str(&mut label, name.as_str());
                                push_str(&mut label, "?");
                                self.right_mode = RightPaneMode::ConfirmDelete { label, target: DeleteTarget::Site(name) };
                            } else {
                                let ver = self.installed_versions[idx].clone();
                                assert(strings_view(self.installed_versions@)[idx as int] == ver@);
                                let mut label = owned("Delete version ");
                                push_str(&mut label, ver.as_str());
                                push_str(&mut label, "?");
                                self.right_mode = RightPaneMode::ConfirmDelete {
                                    label,
                                    target: DeleteTarget::Version(ver),
                                };
                            }
                        }
                    },
                    None => {},
                }
                Action::Nothing
            },
            KeyCode::Char('s') => {
                if !sites {
                    match sel {
                        Some(idx) => {
                            if idx < len {
                                let ver = self.installed_versions[idx].clone();
                                assert(strings_view(self.installed_versions@)[idx as int] == ver@);
                                self.right_mode = RightPaneMode::SiteNameInput {
                                    omd_version: ver,
                                    site_input: String::new(),
                                };
                            }
                        },
                        None => {},
                    }
                }
                Action::Nothing
            },
            KeyCode::Esc => {
                self.should_quit = true;
                Action::Nothing
            },
            _ => Action::Nothing,
        }
    }

    fn on_right_confirm(&mut self, code: KeyCode) -> (r: Action)
        requires
            old(self).next_job_id < usize::MAX,
            old(self).right_mode is ConfirmDelete,
        ensures
            (final(self)@, r@) == confirm_step(old(self)@, code, old(self).right_mode->target@),
    {
        match code {
            KeyCode::Char('y') | KeyCode::Enter => {
                let mut mode = RightPaneMode::Browse;
                std::mem::swap(&mut mode, &mut self.right_mode);
                match mode {
                    RightPaneMode::ConfirmDelete { target, .. } => match target {
                        DeleteTarget::Version(version) => {
                            let mut label = owned("delete version ");
                            push_str(&mut label, version.as_str());
                            let job_id = self.register_job(label);
                            Action::DeleteVersion { job_id, version }
                        },
                        DeleteTarget::Site(name) => {
                            let mut label = owned("delete site ");
                            push_str(&mut label, name.as_str());
                            let job_id = self.register_job(label);
                            Action::DeleteSite { job_id, name }
                        },
                    },
                    _ => Action::Nothing,
                }
            },
            KeyCode::Char('n') | KeyCode::Esc => {
                self.right_mode = RightPaneMode::Browse;
                Action::Nothing
            },
            _ => Action::Nothing,
        }
    }

    fn on_right_site_input(&mut self, code: KeyCode) -> (r: Action)
        requires
            old(self).next_job_id < usize::MAX,
            old(self).right_mode is SiteNameInput,
        ensures
            (final(self)@, r@) == site_input_step(
                old(self)@,
                code,
                old(self).right_mode->omd_version@,
                old(self).right_mode->SiteNameInput_site_input@,
            ),
    {
        let mut mode = RightPaneMode::Browse;
        std::mem::swap(&mut mode, &mut self.right_mode);
        let (omd, mut site) = match mode {
            RightPaneMode::SiteNameInput { omd_version, site_input } => (omd_version, site_input),
            _ => {
                return Action::Nothing;
            },
        };
        match code {
            KeyCode::Esc => Action::Nothing,
            KeyCode::Char(c) => {
                push_char(&mut site, c);
                self.right_mode = RightPaneMode::SiteNameInput { omd_version: omd, site_input: site };
                Action::Nothing
            },
            KeyCode::Backspace => {
                pop_char(&mut site);
                self.right_mode = RightPaneMode::SiteNameInput { omd_version: omd, site_input: site };
                Action::Nothing
            },
            KeyCode::Enter => {
                if site.as_str().is_empty() {
                    self.right_mode = RightPaneMode::SiteNameInput { omd_version: omd, site_input: site };
                    return Action::Nothing;
                }
                let mut label = owned("create site from ");
                push_str(&mut label, omd.as_str());
                let job_id = self.register_job(label);
                Action::CreateSite { job_id, omd_version: omd, site_name: site }
            },
            _ => {
                self.right_mode = RightPaneMode::SiteNameInput { omd_version: omd, site_input: site };
                Action::Nothing
            },
        }
    }

    fn on_log_panel(&mut self, code: KeyCode) -> (r: Action)
        requires
            old(self).wf(),
        ensures
            (final(self)@, r@) == log_step(old(self)@, code),
    {
        match code {
            KeyCode::Up | KeyCode::Char('k') => {
                self.log_scroll = self.log_scroll.saturating_add(1);
            },
            KeyCode::Down | KeyCode::Char('j') => {
                self.log_scroll = self.log_scroll.saturating_sub(1);
            },
            KeyCode::Char('h') => {
                match self.selected_job {
                    Some(i) => {
                        if i > 0 {
                            self.selected_job = Some(i - 1);
                            self.log_scroll = 0;
                        }
                    },
                    None => {},
                }
            },
            KeyCode::Char('l') => {
                match self.selected_job {
                    Some(i) => {
                        assert(self@.jobs.len() == self.jobs@.len());
                        assert(app_wf(self@));
                        assert(i < self.jobs.len());
                        if i + 1 < self.jobs.len() {
                            self.selected_job = Some(i + 1);
                            self.log_scroll = 0;
                        }
                    },
                    None => {},
                }
            },
            KeyCode::Char('c') => {
                self.copy_mode = true;
            },
            KeyCode::Esc => {
                if self.copy_mode {
                    self.copy_mode = false;
                } else {
                    self.should_quit = true;
                }
            },
            _ => {},
        }
        Action::Nothing
    }

    fn on_right(&mut self, code: KeyCode, sites: bool) -> (r: Action)
        requires
            old(self).wf(),
            old(self).next_job_id < usize::MAX,
        ensures
            (final(self)@, r@) == right_step(old(self)@, code, sites),
    {
        match &self.right_mode {
            RightPaneMode::Browse => self.on_right_browse(code, sites),
            RightPaneMode::ConfirmDelete { .. } => self.on_right_confirm(code),
            RightPaneMode::SiteNameInput { .. } => self.on_right_site_input(code),
        }
    }


    /// The index of the first job with id `id`.
    fn find_job(&self, id: JobId) -> (r: Option<usize>)
        ensures
            match r {
                Some(k) => k < self.jobs@.len() && k as int == job_index(self@.jobs, id),
                None => job_index(self@.jobs, id) == -1,
            },
    {
        let ghost jv = self@.jobs;
        let mut k: usize = 0;
        while k < self.jobs.len()
            invariant
                k <= self.jobs@.len(),
                jv == jobs_view(self.jobs@),
                job_index(jv.take(k as int), id) == -1,
            decreases self.jobs.len() - k,
        {
            assert(jv.take(k + 1).drop_last() =~= jv.take(k as int));
            if self.jobs[k].id == id {
                proof {
                    lemma_job_index_prefix(jv, id, k as int);
                }
                return Some(k);
            }
            k = k + 1;
        }
        assert(jv.take(k as int) =~= jv);
        None
    }

    /// Takes in one message of a background job. Returns whether the job
    /// finished, after which the installed versions and sites are to be
    /// read again (`refresh_installed`).
    pub fn apply_job_message(&mut self, msg: JobMessage) -> (r: bool)
        ensures
            final(self)@ == message_step(old(self)@, msg@),
            r == (msg is Finished),
            old(self).wf() ==> final(self).wf(),
    {
        let ghost s = self@;
        proof {
            lemma_job_index_range(s.jobs, match msg@ {
                JobMessageView::Output(id, _) => id,
                JobMessageView::Finished(id, _) => id,
            });
        }
        match msg {
            JobMessage::Output(id, line) => {
                match self.find_job(id) {
                    Some(k) => {
                        let ghost before = self.jobs@;
                        let mut job = self.jobs.remove(k);
                        let ghost jv = job@;
                        let ghost lv = line@;
                        job.output.push(line);
                        assert(job@ == JobView { output: jv.output.push(lv), ..jv }) by {
                            assert(strings_view(job.output@) =~= jv.output.push(lv));
                        }
                        self.jobs.insert(k, job);
                        assert(self.jobs@ =~= before.update(k as int, job));
                        assert(jobs_view(self.jobs@) =~= s.jobs.update(k as int, job@));
                    },
                    None => {},
                }
                self.log_scroll = 0;
                false
            },
            JobMessage::Finished(id, ok) => {
                match self.find_job(id) {
                    Some(k) => {
                        let ghost before = self.jobs@;
                        let mut job = self.jobs.remove(k);
                        let ghost jv = job@;
                        job.status = if ok {
                            JobStatus::Done
                        } else {
                            JobStatus::Failed
                        };
                        let line = if ok {
                            owned("── ✓ done ──")
                        } else {
                            owned("── ✗ failed ──")
                        };
                        let ghost lv = line@;
                        job.output.push(line);
                        assert(strings_view(job.output@) =~= jv.output.push(lv));
                        self.jobs.insert(k, job);
                        assert(self.jobs@ =~= before.update(k as int, job));
                        assert(jobs_view(self.jobs@) =~= s.jobs.update(k as int, job@));
                    },
                    None => {},
                }
                true
            },
        }
    }

    /// Takes in the installed versions and sites read again from omd (empty
    /// where reading failed), keeping each selection inside its list.
    pub fn refresh_installed(&mut self, versions: Vec<String>, sites: Vec<InstalledSite>)
        ensures
            final(self)@ == installed_step(old(self)@, strings_view(versions@), sites_view(sites@)),
            old(self).wf() ==> final(self).wf(),
    {
        self.installed_versions = versions;
        self.installed_sites = sites;
        let vl = self.installed_versions.len();
        self.versions_selected = match self.versions_selected {
            Some(i) => if vl == 0 {
                None
            } else if i < vl {
                Some(i)
            } else {
                Some(0)
            },
            None => if vl == 0 {
                None
            } else {
                Some(0)
            },
        };
        let sl = self.installed_sites.len();
        self.sites_selected = match self.sites_selected {
            Some(i) => if sl == 0 {
                None
            } else if i < sl {
                Some(i)
            } else {
                Some(0)
            },
            None => if sl == 0 {
                None
            } else {
                Some(0)
            },
        };
    }

    /// Ends a refetch of the version list that failed; the list stays as it
    /// was.
    pub fn refresh_failed(&mut self)
        ensures
            final(self)@ == (AppView { is_refreshing: false, ..old(self)@ }),
            old(self).wf() ==> final(self).wf(),
    {
        self.is_refreshing = false;
    }

    /// Takes in a refetched version list (`r` in the version browser).
    pub fn refresh_versions(&mut self, groups: Vec<VersionGroup>)
        requires
            old(self).wf(),
        ensures
            final(self)@ == refreshed_versions_step(old(self)@, groups_view(groups@)),
            final(self).wf(),
    {
        self.version_groups = groups;
        self.active_tab = 0;
        self.table_selected = Some(0);
        self.left_mode = LeftPaneMode::Browse;
        self.is_refreshing = false;
    }

    /// Focuses the pane under a left click.
    pub fn handle_mouse_click(&mut self, col: u16, row: u16)
        requires
            rects_fit(old(self).pane_rects),
        ensures
            final(self)@ == click_step(old(self)@, col, row),
            old(self).wf() ==> final(self).wf(),
    {
        let r = self.pane_rects;
        if contains(r.version_browser, col, row) {
            self.active_pane = ActivePane::VersionBrowser;
        } else if contains(r.installed_versions, col, row) {
            self.active_pane = ActivePane::InstalledVersions;
        } else if contains(r.installed_sites, col, row) {
            self.active_pane = ActivePane::InstalledSites;
        } else if contains(r.log_panel, col, row) {
            self.active_pane = ActivePane::LogPanel;
        }
    }

    /// Handles a key press: `q` quits (but types a `q` in the version
    /// browser's site-name form), control-arrows and alt-h/j/k/l move the
    /// focus, and the focused pane handles every other key. Returns the
    /// outside work the key asks for.
    pub fn dispatch(&mut self, code: KeyCode, modifiers: KeyModifiers) -> (r: Action)
        requires
            old(self).wf(),
            old(self).next_job_id < usize::MAX,
        ensures
            (final(self)@, r@) == step(old(self)@, code, modifiers),
            final(self).wf(),
    {
        proof {
            lemma_step_keeps_wf(self@, code, modifiers);
        }
        let ctrl = modifiers.control;
        if code == KeyCode::Char('q') && !ctrl {
            let configuring = match &self.left_mode {
                LeftPaneMode::Configure { .. } => true,
                _ => false,
            };
            if !configuring || self.active_pane != ActivePane::VersionBrowser {
                self.should_quit = true;
                return Action::Nothing;
            }
        }
        match focus_target(code, modifiers, self.active_pane) {
            Some(p) => {
                self.active_pane = p;
                return Action::Nothing;
            },
            None => {},
        }
        match self.active_pane {
            ActivePane::VersionBrowser => match &self.left_mode {
                LeftPaneMode::Browse => self.on_browse(code),
                LeftPaneMode::EditionPicker { .. } => self.on_edition_picker(code),
                LeftPaneMode::Configure { .. } => self.on_configure(code),
            },
            ActivePane::InstalledVersions => self.on_right(code, false),
            ActivePane::InstalledSites => self.on_right(code, true),
            ActivePane::LogPanel => self.on_log_panel(code),
        }
    }
}

// ── Laws of the interface ────────────────────────────────────────────────────

/// No modifier key held.
pub open spec fn plain() -> KeyModifiers {
    KeyModifiers { control: false, alt: false }
}

/// Typing a character into the version browser's site-name form and
/// erasing it again gives back the state before.
pub proof fn lemma_type_then_erase(s: AppView, c: char)
    requires
        s.active_pane == ActivePane::VersionBrowser,
        s.left_mode is Configure,
    ensures
        step(step(s, KeyCode::Char(c), plain()).0, KeyCode::Backspace, plain()).0 == s,
{
    let t = step(s, KeyCode::Char(c), plain()).0;
    let u = step(t, KeyCode::Backspace, plain()).0;
    match s.left_mode {
        LeftModeView::Configure { group_idx, version_idx, edition, site_input } => {
            assert(site_input.push(c).drop_last() =~= site_input);
            assert(u.left_mode == s.left_mode);
            assert(u =~= s);
        },
        _ => {},
    }
}

/// Typing a character other than `q` into an installed version's
/// site-name form and erasing it again gives back the state before (a `q`
/// quits there).
pub proof fn lemma_type_then_erase_right(s: AppView, c: char)
    requires
        s.active_pane == ActivePane::InstalledVersions || s.active_pane == ActivePane::InstalledSites,
        s.right_mode is SiteNameInput,
        c != 'q',
    ensures
        step(step(s, KeyCode::Char(c), plain()).0, KeyCode::Backspace, plain()).0 == s,
{
    let t = step(s, KeyCode::Char(c), plain()).0;
    let u = step(t, KeyCode::Backspace, plain()).0;
    match s.right_mode {
        RightModeView::SiteNameInput { omd_version, site_input } => {
            assert(site_input.push(c).drop_last() =~= site_input);
            assert(u.right_mode == s.right_mode);
            assert(u =~= s);
        },
        _ => {},
    }
}

/// The job that an action is about, if any.
pub open spec fn action_job(a: ActionView) -> Option<JobId> {
    match a {
        ActionView::Install { job_id, .. } => Some(job_id),
        ActionView::DeleteVersion { job_id, .. } => Some(job_id),
        ActionView::DeleteSite { job_id, .. } => Some(job_id),
        ActionView::CreateSite { job_id, .. } => Some(job_id),
        _ => None,
    }
}

/// A key press registers a job exactly when its action runs one: the job
/// gets the next id, is running and has no output yet, and the jobs before
/// it stay as they were. Without such an action the jobs do not change.
pub proof fn lemma_jobs_follow_actions(s: AppView, code: KeyCode, m: KeyModifiers)
    requires
        s.next_job_id < usize::MAX,
    ensures
        ({
            let (t, a) = step(s, code, m);
            match action_job(a) {
                Some(id) => {
                    &&& id == s.next_job_id
                    &&& t.next_job_id == s.next_job_id + 1
                    &&& t.jobs.len() == s.jobs.len() + 1
                    &&& t.jobs.drop_last() == s.jobs
                    &&& t.jobs.last().id == id
                    &&& t.jobs.last().status == JobStatus::Running
                    &&& t.jobs.last().output.len() == 0
                    &&& t.selected_job == Some(s.jobs.len() as usize)
                },
                None => t.jobs == s.jobs && t.next_job_id == s.next_job_id,
            }
        }),
{
    let (t, a) = step(s, code, m);
    if action_job(a) is Some {
        assert(t.jobs.drop_last() =~= s.jobs);
    }
}

/// The message that finishes a registered job sets that job's status to
/// its outcome and closes its output with the matching line.
pub proof fn lemma_finish_sets_status(s: AppView, id: JobId, ok: bool, i: int)
    requires
        app_wf(s),
        0 <= i < s.jobs.len(),
        s.jobs[i].id == id,
    ensures
        ({
            let t = message_step(s, JobMessageView::Finished(id, ok));
            &&& t.jobs.len() == s.jobs.len()
            &&& t.jobs[i].status == (if ok { JobStatus::Done } else { JobStatus::Failed })
            &&& t.jobs[i].output == s.jobs[i].output.push(finished_line(ok))
            &&& forall|j: int| 0 <= j < s.jobs.len() && j != i ==> #[trigger] t.jobs[j] == s.jobs[j]
        }),
{
    lemma_job_index_range(s.jobs, id);
    let k = job_index(s.jobs, id);
    if k != i {
        if k < i {
            assert(s.jobs[k].id != s.jobs[i].id);
        } else {
            assert(s.jobs[i].id != s.jobs[k].id);
        }
    }
}

/// An output line for a registered job is appended to that job's output
/// and to nothing else, and scrolls the log to its newest line.
pub proof fn lemma_output_appends(s: AppView, id: JobId, line: Seq<char>, i: int)
    requires
        app_wf(s),
        0 <= i < s.jobs.len(),
        s.jobs[i].id == id,
    ensures
        ({
            let t = message_step(s, JobMessageView::Output(id, line));
            &&& t.jobs.len() == s.jobs.len()
            &&& t.jobs[i].output == s.jobs[i].output.push(line)
            &&& t.jobs[i].status == s.jobs[i].status
            &&& forall|j: int| 0 <= j < s.jobs.len() && j != i ==> #[trigger] t.jobs[j] == s.jobs[j]
            &&& t.log_scroll == 0
        }),
{
    lemma_job_index_range(s.jobs, id);
    let k = job_index(s.jobs, id);
    if k != i {
        if k < i {
            assert(s.jobs[k].id != s.jobs[i].id);
        } else {
            assert(s.jobs[i].id != s.jobs[k].id);
        }
    }
}

/// `q` quits from everywhere but the version browser's site-name form,
/// where it is typed.
pub proof fn lemma_q_quits(s: AppView, m: KeyModifiers)
    requires
        !m.control,
    ensures
        step(s, KeyCode::Char('q'), m).0.should_quit <==> (s.should_quit || !(s.left_mode is Configure)
            || s.active_pane != ActivePane::VersionBrowser),
{
}

/// In the log panel, `c` enters copy mode and `Esc` leaves it again
/// without quitting, giving back the state before.
pub proof fn lemma_copy_mode_round_trip(s: AppView)
    requires
        s.active_pane == ActivePane::LogPanel,
        !s.copy_mode,
    ensures
        step(s, KeyCode::Char('c'), plain()).0.copy_mode,
        !step(step(s, KeyCode::Char('c'), plain()).0, KeyCode::Esc, plain()).0.should_quit || s.should_quit,
        step(step(s, KeyCode::Char('c'), plain()).0, KeyCode::Esc, plain()).0 == s,
{
    let t = step(s, KeyCode::Char('c'), plain()).0;
    let u = step(t, KeyCode::Esc, plain()).0;
    assert(u =~= s);
}

/// A refetch of the version list is asked for only when none is under
/// way, and is then under way.
pub proof fn lemma_one_refresh_at_a_time(s: AppView, code: KeyCode, m: KeyModifiers)
    ensures
        step(s, code, m).1 is RefreshVersions ==> !s.is_refreshing && step(s, code, m).0.is_refreshing,
{
}

/// `after` is one row above `before`: the row before it, or the first row
/// when `before` is the first or no row.
pub open spec fn moved_up(before: Option<usize>, after: Option<usize>) -> bool {
    after matches Some(j) && match before {
        Some(i) => if i > 0 {
            j + 1 == i
        } else {
            j == 0
        },
        None => j == 0,
    }
}

/// `after` is one row below `before` in a list of `len` rows: the row
/// after it, or the last row when there is none after it, or the first row
/// when there was no row or the list is empty.
pub open spec fn moved_down(before: Option<usize>, after: Option<usize>, len: nat) -> bool {
    after matches Some(j) && match before {
        Some(i) => if i + 1 < len {
            j == i + 1
        } else if len > 0 {
            j + 1 == len
        } else {
            j == 0
        },
        None => j == 0,
    }
}

/// Up (`k`) and Down (`j`) move the highlighted row by one, stopping at
/// the ends, in the version list, the edition picker and the installed
/// versions and sites lists; nothing else changes. (The lists' lengths
/// fit in `usize`, as those of lists in memory do.)
pub proof fn lemma_rows_move_by_one(s: AppView)
    requires
        app_wf(s),
        tab_len(s) <= usize::MAX,
        s.installed_versions.len() <= usize::MAX,
        s.installed_sites.len() <= usize::MAX,
    ensures
        s.active_pane == ActivePane::VersionBrowser && s.left_mode is Browse ==> {
            &&& moved_up(s.table_selected, step(s, KeyCode::Up, plain()).0.table_selected)
            &&& moved_down(s.table_selected, step(s, KeyCode::Down, plain()).0.table_selected, tab_len(s))
            &&& step(s, KeyCode::Char('k'), plain()) == step(s, KeyCode::Up, plain())
            &&& step(s, KeyCode::Char('j'), plain()) == step(s, KeyCode::Down, plain())
            &&& step(s, KeyCode::Up, plain()) == (AppView { table_selected: step(s, KeyCode::Up, plain()).0.table_selected, ..s }, ActionView::Nothing)
            &&& step(s, KeyCode::Down, plain()) == (AppView { table_selected: step(s, KeyCode::Down, plain()).0.table_selected, ..s }, ActionView::Nothing)
        },
        s.active_pane == ActivePane::VersionBrowser && s.left_mode is EditionPicker ==> {
            let g = s.left_mode->EditionPicker_group_idx;
            let v = s.left_mode->EditionPicker_version_idx;
            let sel = s.left_mode->selected;
            let up = step(s, KeyCode::Up, plain()).0.left_mode;
            let down = step(s, KeyCode::Down, plain()).0.left_mode;
            &&& up matches LeftModeView::EditionPicker { group_idx, version_idx, selected } && group_idx == g
                && version_idx == v && moved_up(sel, selected)
            &&& down matches LeftModeView::EditionPicker { group_idx, version_idx, selected } && group_idx == g
                && version_idx == v && moved_down(sel, selected, editions_at(s, g, v).len())
        },
        s.active_pane == ActivePane::InstalledVersions && s.right_mode is Browse ==> {
            &&& moved_up(s.versions_selected, step(s, KeyCode::Up, plain()).0.versions_selected)
            &&& moved_down(s.versions_selected, step(s, KeyCode::Down, plain()).0.versions_selected, s.installed_versions.len())
        },
        s.active_pane == ActivePane::InstalledSites && s.right_mode is Browse ==> {
            &&& moved_up(s.sites_selected, step(s, KeyCode::Up, plain()).0.sites_selected)
            &&& moved_down(s.sites_selected, step(s, KeyCode::Down, plain()).0.sites_selected, s.installed_sites.len())
        },
{
    lemma_row_moves(s.table_selected, tab_len(s));
    lemma_row_moves(s.versions_selected, s.installed_versions.len());
    lemma_row_moves(s.sites_selected, s.installed_sites.len());
    if s.active_pane == ActivePane::VersionBrowser && s.left_mode is Browse {
        let u = step(s, KeyCode::Up, plain());
        let d = step(s, KeyCode::Down, plain());
        assert(u.0 =~= AppView { table_selected: row_up(s.table_selected), ..s });
        assert(d.0 =~= AppView { table_selected: row_down(s.table_selected, tab_len(s)), ..s });
    }
    if s.left_mode is EditionPicker {
        lemma_row_moves(s.left_mode->selected, editions_at(s, s.left_mode->EditionPicker_group_idx, s.left_mode->EditionPicker_version_idx).len());
    }
}

/// `row_up` and `row_down` move by one row.
proof fn lemma_row_moves(sel: Option<usize>, len: nat)
    requires
        sel matches Some(i) ==> i < len || i == 0,
        len <= usize::MAX,
    ensures
        moved_up(sel, row_up(sel)),
        moved_down(sel, row_down(sel, len), len),
{
}

/// In a delete confirmation, `n` and `Esc` cancel: the pane goes back to
/// browsing, no job starts and nothing else changes.
pub proof fn lemma_confirm_cancels(s: AppView, code: KeyCode)
    requires
        s.active_pane == ActivePane::InstalledVersions || s.active_pane == ActivePane::InstalledSites,
        s.right_mode is ConfirmDelete,
        code == KeyCode::Esc || code == KeyCode::Char('n'),
    ensures
        step(s, code, plain()) == (AppView { right_mode: RightModeView::Browse, ..s }, ActionView::Nothing),
{
}

/// Alt-`l` then Alt-`h` from the version browser, and Alt-`j` then
/// Alt-`k` from the browser or the installed versions, come back to where
/// they started; Alt-`h` from any other pane reaches the version browser.
pub proof fn lemma_focus_round_trips(s: AppView)
    ensures
        s.active_pane == ActivePane::VersionBrowser ==> {
            let alt = KeyModifiers { control: false, alt: true };
            &&& step(step(s, KeyCode::Char('l'), alt).0, KeyCode::Char('h'), alt).0 == s
            &&& step(step(s, KeyCode::Char('j'), alt).0, KeyCode::Char('k'), alt).0 == s
        },
        s.active_pane == ActivePane::InstalledVersions ==> {
            let alt = KeyModifiers { control: false, alt: true };
            step(step(s, KeyCode::Char('j'), alt).0, KeyCode::Char('k'), alt).0 == s
        },
        s.active_pane != ActivePane::VersionBrowser ==> step(
            s,
            KeyCode::Char('h'),
            KeyModifiers { control: false, alt: true },
        ).0.active_pane == ActivePane::VersionBrowser,
{
    let alt = KeyModifiers { control: false, alt: true };
    let a = step(s, KeyCode::Char('l'), alt).0;
    let b = step(s, KeyCode::Char('j'), alt).0;
    assert(step(a, KeyCode::Char('h'), alt).0 =~= AppView { active_pane: focus_left_of(a.active_pane), ..a });
    assert(step(b, KeyCode::Char('k'), alt).0 =~= AppView { active_pane: focus_up_of(b.active_pane), ..b });
    if s.active_pane == ActivePane::VersionBrowser {
        assert(step(a, KeyCode::Char('h'), alt).0 =~= s);
        assert(step(b, KeyCode::Char('k'), alt).0 =~= s);
    }
    if s.active_pane == ActivePane::InstalledVersions {
        assert(step(b, KeyCode::Char('k'), alt).0 =~= s);
    }
}

/// In the log panel `h` shows the job tab before the shown one and `l`
/// the one after it, staying put at the first and the last tab. (The jobs
/// fit in memory, so their number fits in `usize`.)
pub proof fn lemma_job_tabs_move_by_one(s: AppView)
    requires
        app_wf(s),
        s.active_pane == ActivePane::LogPanel,
        s.jobs.len() <= usize::MAX,
    ensures
        s.selected_job matches Some(i) ==> {
            let h = step(s, KeyCode::Char('h'), plain()).0.selected_job;
            let l = step(s, KeyCode::Char('l'), plain()).0.selected_job;
            &&& h matches Some(j) && (if i > 0 { j + 1 == i } else { j == i })
            &&& l matches Some(j) && (if i + 1 < s.jobs.len() { j == i + 1 } else { j == i })
        },
        s.selected_job is None ==> step(s, KeyCode::Char('h'), plain()).0.selected_job is None
            && step(s, KeyCode::Char('l'), plain()).0.selected_job is None,
{
}

/// After the installed lists are read again each selection lies in its
/// list: none for an empty list, the same row when it still exists, else
/// the first.
pub proof fn lemma_installed_selection_in_range(s: AppView, versions: Seq<Seq<char>>, sites: Seq<InstalledSiteView>)
    ensures
        ({
            let t = installed_step(s, versions, sites);
            &&& t.versions_selected is None <==> versions.len() == 0
            &&& t.versions_selected matches Some(j) ==> j < versions.len()
            &&& match s.versions_selected {
                Some(i) => i < versions.len() ==> t.versions_selected == Some(i),
                None => true,
            }
            &&& t.sites_selected is None <==> sites.len() == 0
            &&& t.sites_selected matches Some(j) ==> j < sites.len()
            &&& match s.sites_selected {
                Some(i) => i < sites.len() ==> t.sites_selected == Some(i),
                None => true,
            }
            &&& t.installed_versions == versions && t.installed_sites == sites
        }),
{
}

/// A registered job keeps the state well-formed.
proof fn lemma_with_job_keeps_wf(s: AppView, label: Seq<char>)
    requires
        app_wf(s),
        s.next_job_id < usize::MAX,
    ensures
        app_wf(with_job(s, label)),
{
}

proof fn lemma_browse_keeps_wf(s: AppView, code: KeyCode)
    requires
        app_wf(s),
        s.left_mode is Browse,
    ensures
        app_wf(browse_step(s, code).0),
{
}

proof fn lemma_picker_keeps_wf(s: AppView, code: KeyCode, g: usize, v: usize, sel: Option<usize>)
    requires
        app_wf(s),
        s.left_mode == (LeftModeView::EditionPicker { group_idx: g, version_idx: v, selected: sel }),
    ensures
        app_wf(picker_step(s, code, g, v, sel).0),
{
}

proof fn lemma_configure_keeps_wf(s: AppView, code: KeyCode, g: usize, v: usize, e: Edition, site: Seq<char>)
    requires
        app_wf(s),
        s.next_job_id < usize::MAX,
        s.left_mode == (LeftModeView::Configure { group_idx: g, version_idx: v, edition: e, site_input: site }),
    ensures
        app_wf(configure_step(s, code, g, v, e, site).0),
{
    if code == KeyCode::Enter && site.len() > 0 {
        lemma_with_job_keeps_wf(s, install_label(install_config_of(s, g, v, e, site)));
    }
}

proof fn lemma_right_keeps_wf(s: AppView, code: KeyCode, sites: bool)
    requires
        app_wf(s),
        s.next_job_id < usize::MAX,
    ensures
        app_wf(right_step(s, code, sites).0),
{
}

proof fn lemma_log_keeps_wf(s: AppView, code: KeyCode)
    requires
        app_wf(s),
    ensures
        app_wf(log_step(s, code).0),
{
}

/// Every key press keeps the state well-formed.
pub proof fn lemma_step_keeps_wf(s: AppView, code: KeyCode, m: KeyModifiers)
    requires
        app_wf(s),
        s.next_job_id < usize::MAX,
    ensures
        app_wf(step(s, code, m).0),
{
    if code == KeyCode::Char('q') && !m.control && (!(s.left_mode is Configure) || s.active_pane
        != ActivePane::VersionBrowser) {
    } else if focus_move(code, m, s.active_pane) is Some {
    } else {
        match s.active_pane {
            ActivePane::VersionBrowser => match s.left_mode {
                LeftModeView::Browse => lemma_browse_keeps_wf(s, code),
                LeftModeView::EditionPicker { group_idx, version_idx, selected } => lemma_picker_keeps_wf(
                    s,
                    code,
                    group_idx,
                    version_idx,
                    selected,
                ),
                LeftModeView::Configure { group_idx, version_idx, edition, site_input } =>
                    lemma_configure_keeps_wf(s, code, group_idx, version_idx, edition, site_input),
            },
            ActivePane::InstalledVersions => lemma_right_keeps_wf(s, code, false),
            ActivePane::InstalledSites => lemma_right_keeps_wf(s, code, true),
            ActivePane::LogPanel => lemma_log_keeps_wf(s, code),
        }
    }
}

proof fn lemma_job_index_prefix(jobs: Seq<JobView>, id: JobId, k: int)
    requires
        0 <= k < jobs.len(),
        job_index(jobs.take(k), id) == -1,
        jobs[k].id == id,
    ensures
        job_index(jobs, id) == k,
    decreases jobs.len(),
{
    if jobs.len() == k + 1 {
        assert(jobs.drop_last() =~= jobs.take(k));
    } else {
        assert(jobs.drop_last().take(k) =~= jobs.take(k));
        lemma_job_index_prefix(jobs.drop_last(), id, k);
    }
}

} // verus!
