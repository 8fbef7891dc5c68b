use cmk_helm::api::{Edition, Version, VersionGroup, VersionKind};
use cmk_helm::installer::{install_step, InstallEvent, InstalledSite, Job, JobMessage, JobStatus};
use cmk_helm::render::{
    edition_item, footer_hint, job_tab, log_line_style, log_lines, log_title, log_window, plan_command, site_cells,
    tabs_title, LineStyle, LogLineKind,
};
use cmk_helm::ui::{
    contains, Action, ActivePane, App, KeyCode, KeyModifiers, LeftPaneMode, PaneRects, Rect,
    RightPaneMode,
};

const NONE: KeyModifiers = KeyModifiers { control: false, alt: false };
const ALT: KeyModifiers = KeyModifiers { control: false, alt: true };
const CTRL: KeyModifiers = KeyModifiers { control: true, alt: false };

fn version(base: &str, kind: VersionKind) -> Version {
    Version { base: base.into(), kind, timestamp: "2026-04-03 13:50".into() }
}

fn app() -> App {
    let groups = vec![
        VersionGroup {
            base: "2.6.0".into(),
            versions: vec![
                version("2.6.0", VersionKind::Daily { date: "2026.04.03".into() }),
                version("2.6.0", VersionKind::Beta { num: 1 }),
            ],
        },
        VersionGroup { base: "2.4.0".into(), versions: vec![version("2.4.0", VersionKind::StablePatch { patch: 24 })] },
    ];
    let sites = vec![
        InstalledSite { name: "v240".into(), version: "2.4.0p24.cee".into(), is_default: false },
        InstalledSite { name: "test".into(), version: "2.6.0.ultimate".into(), is_default: true },
    ];
    App::new(groups, vec!["2.4.0p24.cee".into()], sites)
}

fn press(app: &mut App, code: KeyCode) -> Action {
    app.dispatch(code, NONE)
}

#[test]
fn new_app_starts_in_the_version_browser() {
    let a = app();
    assert_eq!(a.active_tab, 0);
    assert_eq!(a.table_selected, Some(0));
    assert_eq!(a.active_pane, ActivePane::VersionBrowser);
    assert!(matches!(a.left_mode, LeftPaneMode::Browse));
    assert_eq!(a.versions_selected, Some(0));
    assert_eq!(a.sites_selected, Some(0));
    assert!(a.jobs.is_empty());
    let empty = App::new(vec![VersionGroup { base: "2.4.0".into(), versions: vec![version("2.4.0", VersionKind::Beta { num: 1 })] }], vec![], vec![]);
    assert_eq!(empty.versions_selected, None);
    assert_eq!(empty.sites_selected, None);
}

#[test]
fn empty_browser_keeps_browsing() {
    let mut a = App::new(vec![], vec![], vec![]);
    assert_eq!(a.active_tab, 0);
    assert_eq!(a.table_selected, Some(0));
    for code in [KeyCode::Tab, KeyCode::Char('h'), KeyCode::Down, KeyCode::Up, KeyCode::Enter, KeyCode::Char('i')] {
        assert!(matches!(press(&mut a, code), Action::Nothing));
        assert!(matches!(a.left_mode, LeftPaneMode::Browse));
        assert_eq!(a.active_tab, 0);
        assert_eq!(a.table_selected, Some(0));
    }
    let mut b = App::new(vec![VersionGroup { base: "2.4.0".into(), versions: vec![] }], vec![], vec![]);
    press(&mut b, KeyCode::Enter);
    assert!(matches!(b.left_mode, LeftPaneMode::Browse));
    b.refresh_versions(vec![]);
    assert!(b.version_groups.is_empty());
    assert!(matches!(press(&mut b, KeyCode::Char('r')), Action::RefreshVersions));
}

#[test]
fn tabs_and_rows_stay_in_range() {
    let mut a = app();
    press(&mut a, KeyCode::Char('j'));
    press(&mut a, KeyCode::Char('j'));
    assert_eq!(a.table_selected, Some(1));
    press(&mut a, KeyCode::Tab);
    assert_eq!(a.active_tab, 1);
    assert_eq!(a.table_selected, Some(0));
    press(&mut a, KeyCode::Tab);
    assert_eq!(a.active_tab, 1);
    press(&mut a, KeyCode::Down);
    assert_eq!(a.table_selected, Some(0));
    press(&mut a, KeyCode::Char('h'));
    assert_eq!(a.active_tab, 0);
    press(&mut a, KeyCode::BackTab);
    assert_eq!(a.active_tab, 0);
    press(&mut a, KeyCode::Up);
    assert_eq!(a.table_selected, Some(0));
}

#[test]
fn install_flow_registers_a_job() {
    let mut a = app();
    press(&mut a, KeyCode::Enter);
    assert!(matches!(a.left_mode, LeftPaneMode::EditionPicker { group_idx: 0, version_idx: 0, selected: Some(0) }));
    press(&mut a, KeyCode::Down);
    press(&mut a, KeyCode::Enter);
    assert!(matches!(a.left_mode, LeftPaneMode::Configure { edition: Edition::Pro, .. }));
    // Enter with no site name does nothing
    assert!(matches!(press(&mut a, KeyCode::Enter), Action::Nothing));
    for c in "mysqx".chars() {
        press(&mut a, KeyCode::Char(c));
    }
    press(&mut a, KeyCode::Backspace);
    match press(&mut a, KeyCode::Enter) {
        Action::Install { job_id, config } => {
            assert_eq!(job_id, 0);
            assert_eq!(config.version, "2.6.0-2026-04-03");
            assert_eq!(config.omd_version, "2.6.0-2026.04.03");
            assert_eq!(config.edition, "pro");
            assert_eq!(config.site_name, "mysq");
        }
        _ => panic!("expected an install"),
    }
    assert!(matches!(a.left_mode, LeftPaneMode::Browse));
    assert_eq!(a.jobs.len(), 1);
    assert_eq!(a.jobs[0].label, "install 2.6.0-2026-04-03 -e pro → mysq");
    assert_eq!(a.jobs[0].status, JobStatus::Running);
    assert_eq!(a.next_job_id, 1);
}

#[test]
fn edition_picker_clamps_and_goes_back() {
    let mut a = app();
    press(&mut a, KeyCode::Tab);
    press(&mut a, KeyCode::Char('i'));
    for _ in 0..10 {
        press(&mut a, KeyCode::Char('j'));
    }
    // 2.4.0 offers four editions
    assert!(matches!(a.left_mode, LeftPaneMode::EditionPicker { selected: Some(3), .. }));
    press(&mut a, KeyCode::Enter);
    assert!(matches!(a.left_mode, LeftPaneMode::Configure { edition: Edition::Cme, .. }));
    press(&mut a, KeyCode::Esc);
    assert!(matches!(a.left_mode, LeftPaneMode::EditionPicker { selected: Some(0), .. }));
    press(&mut a, KeyCode::Esc);
    assert!(matches!(a.left_mode, LeftPaneMode::Browse));
}

#[test]
fn q_is_typed_in_the_site_form_and_quits_elsewhere() {
    let mut a = app();
    press(&mut a, KeyCode::Enter);
    press(&mut a, KeyCode::Enter);
    press(&mut a, KeyCode::Char('q'));
    assert!(!a.should_quit);
    assert!(matches!(&a.left_mode, LeftPaneMode::Configure { site_input, .. } if site_input == "q"));
    a.dispatch(KeyCode::Char('l'), ALT);
    assert_eq!(a.active_pane, ActivePane::InstalledVersions);
    press(&mut a, KeyCode::Char('q'));
    assert!(a.should_quit);
}

#[test]
fn esc_quits_from_browse() {
    let mut a = app();
    press(&mut a, KeyCode::Esc);
    assert!(a.should_quit);
}

#[test]
fn focus_moves_spatially() {
    let mut a = app();
    a.dispatch(KeyCode::Right, CTRL);
    assert_eq!(a.active_pane, ActivePane::InstalledVersions);
    a.dispatch(KeyCode::Char('j'), ALT);
    assert_eq!(a.active_pane, ActivePane::InstalledSites);
    a.dispatch(KeyCode::Down, CTRL);
    assert_eq!(a.active_pane, ActivePane::LogPanel);
    a.dispatch(KeyCode::Char('l'), ALT);
    assert_eq!(a.active_pane, ActivePane::InstalledSites);
    a.dispatch(KeyCode::Left, CTRL);
    assert_eq!(a.active_pane, ActivePane::VersionBrowser);
    a.dispatch(KeyCode::Char('k'), ALT);
    assert_eq!(a.active_pane, ActivePane::VersionBrowser);
}

#[test]
fn delete_version_after_confirmation() {
    let mut a = app();
    a.dispatch(KeyCode::Right, CTRL);
    press(&mut a, KeyCode::Char('d'));
    assert!(matches!(&a.right_mode, RightPaneMode::ConfirmDelete { label, .. } if label == "Delete version 2.4.0p24.cee?"));
    match press(&mut a, KeyCode::Char('y')) {
        Action::DeleteVersion { job_id, version } => {
            assert_eq!(job_id, 0);
            assert_eq!(version, "2.4.0p24.cee");
        }
        _ => panic!("expected a delete"),
    }
    assert!(matches!(a.right_mode, RightPaneMode::Browse));
    assert_eq!(a.jobs[0].label, "delete version 2.4.0p24.cee");
}

#[test]
fn delete_site_can_be_cancelled() {
    let mut a = app();
    a.dispatch(KeyCode::Right, CTRL);
    a.dispatch(KeyCode::Down, CTRL);
    press(&mut a, KeyCode::Down);
    assert_eq!(a.sites_selected, Some(1));
    press(&mut a, KeyCode::Char('d'));
    assert!(matches!(&a.right_mode, RightPaneMode::ConfirmDelete { label, .. } if label == "Delete site test?"));
    press(&mut a, KeyCode::Char('n'));
    assert!(matches!(a.right_mode, RightPaneMode::Browse));
    press(&mut a, KeyCode::Char('d'));
    match press(&mut a, KeyCode::Enter) {
        Action::DeleteSite { job_id, name } => {
            assert_eq!(job_id, 0);
            assert_eq!(name, "test");
        }
        _ => panic!("expected a delete"),
    }
}

#[test]
fn create_site_from_installed_version() {
    let mut a = app();
    a.dispatch(KeyCode::Right, CTRL);
    press(&mut a, KeyCode::Char('s'));
    press(&mut a, KeyCode::Char('a'));
    press(&mut a, KeyCode::Char('b'));
    press(&mut a, KeyCode::Backspace);
    match press(&mut a, KeyCode::Enter) {
        Action::CreateSite { job_id, omd_version, site_name } => {
            assert_eq!(job_id, 0);
            assert_eq!(omd_version, "2.4.0p24.cee");
            assert_eq!(site_name, "a");
        }
        _ => panic!("expected a site"),
    }
    assert_eq!(a.jobs[0].label, "create site from 2.4.0p24.cee");
}

#[test]
fn refresh_key_asks_for_versions() {
    let mut a = app();
    assert!(!a.is_refreshing);
    assert!(matches!(press(&mut a, KeyCode::Char('r')), Action::RefreshVersions));
    assert!(a.is_refreshing);
    // a second `r` while the first refetch runs asks for nothing
    assert!(matches!(press(&mut a, KeyCode::Char('r')), Action::Nothing));
    a.refresh_failed();
    assert!(!a.is_refreshing);
    assert!(matches!(press(&mut a, KeyCode::Char('r')), Action::RefreshVersions));
}

#[test]
fn log_scroll_saturates() {
    let mut a = app();
    a.dispatch(KeyCode::Down, CTRL);
    assert_eq!(a.active_pane, ActivePane::LogPanel);
    press(&mut a, KeyCode::Char('j'));
    assert_eq!(a.log_scroll, 0);
    press(&mut a, KeyCode::Up);
    press(&mut a, KeyCode::Up);
    assert_eq!(a.log_scroll, 2);
    press(&mut a, KeyCode::Down);
    assert_eq!(a.log_scroll, 1);
}

#[test]
fn job_messages_update_the_job() {
    let mut a = app();
    a.dispatch(KeyCode::Right, CTRL);
    press(&mut a, KeyCode::Char('s'));
    press(&mut a, KeyCode::Char('x'));
    press(&mut a, KeyCode::Enter);
    a.log_scroll = 5;
    assert!(!a.apply_job_message(JobMessage::Output(0, "line".into())));
    assert_eq!(a.log_scroll, 0);
    assert_eq!(a.jobs[0].output, vec!["line"]);
    assert!(!a.apply_job_message(JobMessage::Output(9, "stray".into())));
    assert_eq!(a.jobs[0].output.len(), 1);
    assert!(a.apply_job_message(JobMessage::Finished(0, true)));
    assert_eq!(a.jobs[0].status, JobStatus::Done);
    assert_eq!(a.jobs[0].output, vec!["line", "── ✓ done ──"]);
}

#[test]
fn failed_job_is_marked_failed() {
    let mut a = app();
    a.jobs.push(Job { id: 4, label: "x".into(), status: JobStatus::Running, output: vec![] });
    a.next_job_id = 5;
    assert!(a.apply_job_message(JobMessage::Finished(4, false)));
    assert_eq!(a.jobs[0].status, JobStatus::Failed);
    assert_eq!(a.jobs[0].output, vec!["── ✗ failed ──"]);
}

#[test]
fn refresh_installed_clamps_selection() {
    let mut a = app();
    a.versions_selected = Some(0);
    a.sites_selected = Some(1);
    a.refresh_installed(vec![], vec![InstalledSite { name: "s".into(), version: "v".into(), is_default: false }]);
    assert_eq!(a.versions_selected, None);
    assert_eq!(a.sites_selected, Some(0));
    a.refresh_installed(vec!["a".into(), "b".into()], vec![]);
    assert_eq!(a.versions_selected, Some(0));
    assert_eq!(a.sites_selected, None);
}

#[test]
fn refresh_versions_returns_to_the_first_tab() {
    let mut a = app();
    press(&mut a, KeyCode::Char('r'));
    press(&mut a, KeyCode::Tab);
    press(&mut a, KeyCode::Enter);
    a.refresh_versions(vec![VersionGroup { base: "2.7.0".into(), versions: vec![version("2.7.0", VersionKind::Beta { num: 1 })] }]);
    assert_eq!(a.active_tab, 0);
    assert_eq!(a.table_selected, Some(0));
    assert!(matches!(a.left_mode, LeftPaneMode::Browse));
    assert_eq!(a.version_groups[0].base, "2.7.0");
    assert!(!a.is_refreshing);
}

#[test]
fn mouse_click_focuses_pane() {
    let mut a = app();
    a.pane_rects = PaneRects {
        version_browser: Rect { x: 0, y: 3, width: 60, height: 20 },
        installed_versions: Rect { x: 60, y: 3, width: 40, height: 9 },
        installed_sites: Rect { x: 60, y: 12, width: 40, height: 11 },
        log_panel: Rect { x: 0, y: 23, width: 100, height: 8 },
    };
    a.handle_mouse_click(70, 15);
    assert_eq!(a.active_pane, ActivePane::InstalledSites);
    a.handle_mouse_click(5, 25);
    assert_eq!(a.active_pane, ActivePane::LogPanel);
    a.handle_mouse_click(200, 200);
    assert_eq!(a.active_pane, ActivePane::LogPanel);
    a.handle_mouse_click(60, 3);
    assert_eq!(a.active_pane, ActivePane::InstalledVersions);
    assert!(contains(Rect { x: 1, y: 1, width: 2, height: 2 }, 2, 2));
    assert!(!contains(Rect { x: 1, y: 1, width: 2, height: 2 }, 3, 2));
    assert!(!contains(Rect { x: 1, y: 1, width: 0, height: 2 }, 1, 1));
}

#[test]
fn log_panel_lines_and_styles() {
    let jobs = vec![
        Job { id: 0, label: "install a".into(), status: JobStatus::Done, output: vec!["→ cmk-dev-install".into(), "── ✓ done ──".into()] },
        Job { id: 1, label: "delete b".into(), status: JobStatus::Running, output: vec!["plain".into(), "Error: x".into()] },
    ];
    let lines = log_lines(&jobs, Some(0));
    assert_eq!(lines.len(), 3);
    assert_eq!(lines[0].text, "  install a");
    assert_eq!(lines[0].kind, LogLineKind::Header);
    assert_eq!(lines[1].text, "  → cmk-dev-install");
    assert_eq!(lines[1].kind, LogLineKind::Output(LineStyle::Command));
    assert_eq!(lines[2].kind, LogLineKind::Output(LineStyle::Success));
    let lines = log_lines(&jobs, Some(1));
    assert_eq!(lines.len(), 3);
    assert_eq!(lines[0].text, "  delete b");
    assert_eq!(lines[1].kind, LogLineKind::Output(LineStyle::Plain));
    assert_eq!(lines[2].kind, LogLineKind::Output(LineStyle::Failure));
    assert!(log_lines(&jobs, None).is_empty());
    assert!(log_lines(&jobs, Some(2)).is_empty());
    assert_eq!(job_tab(&jobs[0]), " ✓ install a ");
    assert_eq!(job_tab(&jobs[1]), " ⟳ delete b ");
    let failed = Job { id: 2, label: "x".into(), status: JobStatus::Failed, output: vec![] };
    assert_eq!(job_tab(&failed), " ✗ x ");
    assert_eq!(log_title(false), " Log ");
    assert_eq!(log_title(true), " Log [COPY MODE — Esc to exit] ");
    assert_eq!(log_line_style("download failed"), LineStyle::Failure);
    assert_eq!(log_line_style("✗ no"), LineStyle::Failure);
    assert_eq!(log_line_style("done, but error"), LineStyle::Success);
    assert_eq!(log_line_style(""), LineStyle::Plain);
}

#[test]
fn log_window_shows_newest_lines() {
    assert_eq!(log_window(20, 6, 0), (14, 20));
    assert_eq!(log_window(20, 6, 3), (11, 17));
    assert_eq!(log_window(4, 6, 0), (0, 4));
    assert_eq!(log_window(4, 6, 10), (0, 0));
    assert_eq!(log_window(5, 0, 0), (5, 5));
}

#[test]
fn tab_bar_title_spins_while_refreshing() {
    assert_eq!(tabs_title(false, 7), " CMK Helm ");
    assert_eq!(tabs_title(true, 0), " CMK Helm ⠋ ");
    assert_eq!(tabs_title(true, 3), " CMK Helm ⠙ ");
    assert_eq!(tabs_title(true, 19), " CMK Helm ⠏ ");
    assert_eq!(tabs_title(true, 21), " CMK Helm ⠋ ");
}

#[test]
fn log_panel_tabs_follow_jobs() {
    let mut a = app();
    assert_eq!(a.selected_job, None);
    // two jobs: delete the installed version, then create a site from it
    a.dispatch(KeyCode::Right, CTRL);
    press(&mut a, KeyCode::Char('d'));
    press(&mut a, KeyCode::Char('y'));
    assert_eq!(a.selected_job, Some(0));
    press(&mut a, KeyCode::Char('s'));
    press(&mut a, KeyCode::Char('x'));
    press(&mut a, KeyCode::Enter);
    assert_eq!(a.jobs.len(), 2);
    // the newest job is shown
    assert_eq!(a.selected_job, Some(1));
    a.dispatch(KeyCode::Down, CTRL);
    a.dispatch(KeyCode::Down, CTRL);
    assert_eq!(a.active_pane, ActivePane::LogPanel);
    press(&mut a, KeyCode::Up);
    assert_eq!(a.log_scroll, 1);
    // starting a job leaves the scroll as it was
    a.dispatch(KeyCode::Right, CTRL);
    a.dispatch(KeyCode::Up, CTRL);
    assert_eq!(a.active_pane, ActivePane::InstalledVersions);
    press(&mut a, KeyCode::Char('s'));
    press(&mut a, KeyCode::Char('y'));
    press(&mut a, KeyCode::Enter);
    assert_eq!(a.jobs.len(), 3);
    assert_eq!(a.selected_job, Some(2));
    assert_eq!(a.log_scroll, 1);
    a.dispatch(KeyCode::Down, CTRL);
    a.dispatch(KeyCode::Down, CTRL);
    assert_eq!(a.active_pane, ActivePane::LogPanel);
    press(&mut a, KeyCode::Char('h'));
    assert_eq!(a.selected_job, Some(1));
    assert_eq!(a.log_scroll, 0);
    press(&mut a, KeyCode::Char('h'));
    assert_eq!(a.selected_job, Some(0));
    assert_eq!(a.log_scroll, 0);
    press(&mut a, KeyCode::Char('h'));
    assert_eq!(a.selected_job, Some(0));
    press(&mut a, KeyCode::Char('l'));
    press(&mut a, KeyCode::Char('l'));
    press(&mut a, KeyCode::Char('l'));
    assert_eq!(a.selected_job, Some(2));
}

#[test]
fn copy_mode_is_left_with_esc() {
    let mut a = app();
    a.dispatch(KeyCode::Down, CTRL);
    assert_eq!(a.active_pane, ActivePane::LogPanel);
    press(&mut a, KeyCode::Char('c'));
    assert!(a.copy_mode);
    assert_eq!(footer_hint(&a), "  j/k scroll  h/l tabs  Esc exit copy mode");
    press(&mut a, KeyCode::Esc);
    assert!(!a.copy_mode);
    assert!(!a.should_quit);
    assert_eq!(footer_hint(&a), "  j/k scroll  h/l tabs  c copy mode  Alt+hjkl pane  q quit");
    press(&mut a, KeyCode::Esc);
    assert!(a.should_quit);
}

#[test]
fn site_cells_mark_the_default() {
    let s = InstalledSite { name: "test".into(), version: "2.6.0-2026.03.31.ultimate-extra".into(), is_default: true };
    let (first, second) = site_cells(&s);
    assert_eq!(first, "★ test          ");
    assert_eq!(second, "2.6.0-2026.03.31.ultim");
    let long = InstalledSite { name: "averyveryverylongname".into(), version: "v".into(), is_default: false };
    assert_eq!(site_cells(&long), ("  averyveryverylongname".to_string(), "v".to_string()));
}

#[test]
fn footer_hints_follow_focus_and_mode() {
    let mut a = app();
    assert!(footer_hint(&a).contains("r refresh"));
    press(&mut a, KeyCode::Enter);
    assert!(footer_hint(&a).contains("j/k edition"));
    a.dispatch(KeyCode::Right, CTRL);
    press(&mut a, KeyCode::Char('d'));
    assert_eq!(footer_hint(&a), "  y/Enter confirm  n/Esc cancel  q quit");
    a.dispatch(KeyCode::Down, CTRL);
    a.dispatch(KeyCode::Down, CTRL);
    assert_eq!(footer_hint(&a), "  j/k scroll  h/l tabs  c copy mode  Alt+hjkl pane  q quit");
}

#[test]
fn plan_command_is_what_the_install_runs_first() {
    let daily = version("2.6.0", VersionKind::Daily { date: "2026.04.03".into() });
    assert_eq!(plan_command(&daily, Edition::Pro), "cmk-dev-install 2.6.0-2026-04-03 -e pro");
    let stable = version("2.4.0", VersionKind::StablePatch { patch: 24 });
    assert_eq!(plan_command(&stable, Edition::Cee), "cmk-dev-install 2.4.0p24 -e cee");

    let mut a = app();
    press(&mut a, KeyCode::Enter);
    press(&mut a, KeyCode::Down);
    press(&mut a, KeyCode::Enter);
    press(&mut a, KeyCode::Char('s'));
    match press(&mut a, KeyCode::Enter) {
        Action::Install { job_id, config } => {
            let step = install_step(&config, job_id, InstallEvent::Start);
            let cmd = step.command.expect("the install starts with a command");
            assert_eq!(cmd.join(" "), plan_command(&daily, Edition::Pro));
        }
        _ => panic!("expected an install"),
    }
}

#[test]
fn edition_items_name_the_flag() {
    assert_eq!(edition_item(Edition::Pro), format!("  {}  [-e pro]", Edition::Pro.display_name()));
    assert_eq!(edition_item(Edition::Cee), format!("  {}  [-e cee]", Edition::Cee.display_name()));
}
