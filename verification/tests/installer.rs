use cmk_helm::installer::{
    clean_terminal_line, create_site_command, install_and_create_site_commands,
    install_package_command, install_step, parse_installed_sites, parse_installed_versions,
    strip_ansi, InstallConfig, InstallEvent, JobMessage,
};

fn config() -> InstallConfig {
    InstallConfig {
        version: "2.6.0-2026-04-03".into(),
        omd_version: "2.6.0-2026.04.03".into(),
        edition: "ultimate".into(),
        site_name: "mysite".into(),
    }
}

fn output_text(m: &JobMessage) -> Option<&str> {
    match m {
        JobMessage::Output(_, s) => Some(s.as_str()),
        JobMessage::Finished(..) => None,
    }
}

#[test]
fn install_package_command_line() {
    assert_eq!(
        install_package_command(&config()),
        vec!["cmk-dev-install", "2.6.0-2026-04-03", "-e", "ultimate"]
    );
}

#[test]
fn create_site_command_uses_base_version() {
    assert_eq!(create_site_command(&config()), vec!["cmk-dev-site", "2.6.0.ultimate", "-n", "mysite"]);
    let stable = InstallConfig { version: "2.4.0p24".into(), ..config() };
    assert_eq!(create_site_command(&stable), vec!["cmk-dev-site", "2.4.0p24.ultimate", "-n", "mysite"]);
}

#[test]
fn install_and_create_site_prefers_combined_tool() {
    let both = install_and_create_site_commands(&config(), true);
    assert_eq!(both, vec![vec!["cmk-dev-install-site", "2.6.0", "ultimate", "-n", "mysite"]]);
    let steps = install_and_create_site_commands(&config(), false);
    assert_eq!(steps.len(), 2);
    assert_eq!(steps[0], install_package_command(&config()));
    assert_eq!(steps[1], create_site_command(&config()));
}

#[test]
fn install_job_starts_with_cmk_dev_install() {
    let step = install_step(&config(), 3, InstallEvent::Start);
    assert_eq!(step.messages.len(), 1);
    assert_eq!(output_text(&step.messages[0]), Some("→ cmk-dev-install 2.6.0-2026-04-03 -e ultimate"));
    assert_eq!(step.command, Some(install_package_command(&config())));
}

#[test]
fn install_job_creates_site_with_dotted_omd_version() {
    let step = install_step(&config(), 3, InstallEvent::InstallExited(true));
    assert_eq!(output_text(&step.messages[0]), Some("→ cmk-dev-site 2.6.0-2026.04.03.ultimate -n mysite"));
    assert_eq!(
        step.command,
        Some(vec!["cmk-dev-site".to_string(), "2.6.0-2026.04.03.ultimate".into(), "-n".into(), "mysite".into()])
    );
}

#[test]
fn install_job_failures_finish_the_job() {
    let failed = install_step(&config(), 3, InstallEvent::InstallExited(false));
    assert!(failed.command.is_none());
    assert!(matches!(failed.messages[..], [JobMessage::Finished(3, false)]));
    let error = install_step(&config(), 3, InstallEvent::InstallFailed("no such file".into()));
    assert!(error.command.is_none());
    assert_eq!(output_text(&error.messages[0]), Some("error: no such file"));
    assert!(matches!(error.messages[1], JobMessage::Finished(3, false)));
    let site_ok = install_step(&config(), 3, InstallEvent::SiteExited(true));
    assert!(matches!(site_ok.messages[..], [JobMessage::Finished(3, true)]));
    let site_err = install_step(&config(), 3, InstallEvent::SiteFailed);
    assert!(matches!(site_err.messages[..], [JobMessage::Finished(3, false)]));
}

#[test]
fn installed_versions_are_trimmed_lines() {
    let out = "2.4.0p24.cee\n  2.5.0-2026.04.03.raw  \r\n\n   \n";
    assert_eq!(parse_installed_versions(out), vec!["2.4.0p24.cee", "2.5.0-2026.04.03.raw"]);
    assert!(parse_installed_versions("").is_empty());
}

#[test]
fn installed_sites_skip_header_and_find_default() {
    let out = "SITE             VERSION                  COMMENTS\n\
               v240             2.4.0-2026.03.22.cce\n\
               test             2.6.0-2026.03.31.ultimate default version\n\
               \n\
               lonely\n";
    let sites = parse_installed_sites(out);
    assert_eq!(sites.len(), 2);
    assert_eq!(sites[0].name, "v240");
    assert_eq!(sites[0].version, "2.4.0-2026.03.22.cce");
    assert!(!sites[0].is_default);
    assert_eq!(sites[1].name, "test");
    assert_eq!(sites[1].version, "2.6.0-2026.03.31.ultimate");
    assert!(sites[1].is_default);
}

#[test]
fn installed_sites_without_header() {
    let sites = parse_installed_sites("mysite\t2.4.0p24.cee\tdefault\r\nother 2.5.0b2.pro\n");
    assert_eq!(sites.len(), 2);
    assert!(sites[0].is_default);
    assert_eq!(sites[0].version, "2.4.0p24.cee");
    assert!(!sites[1].is_default);
}

#[test]
fn strip_ansi_removes_escapes() {
    assert_eq!(strip_ansi("\x1b[32mgreen\x1b[0m text"), "green text");
    assert_eq!(strip_ansi("plain"), "plain");
    assert_eq!(strip_ansi("cut \x1b[12"), "cut ");
    assert_eq!(strip_ansi(""), "");
}

#[test]
fn clean_terminal_line_splits_progress_updates() {
    let raw = "Downloading... 10%\rDownloading... 50%\r\x1b[1mDownloading... 100%\x1b[0m\r   ";
    assert_eq!(
        clean_terminal_line(raw),
        vec!["Downloading... 10%", "Downloading... 50%", "Downloading... 100%"]
    );
    assert!(clean_terminal_line("\r\r  \r").is_empty());
    assert_eq!(clean_terminal_line("  ok  "), vec!["ok"]);
}

#[test]
fn stripping_twice_strips_no_more() {
    let samples = [
        "\u{1b}[1;32m✓ done\u{1b}[0m",
        "plain text",
        "a\u{1b}[2Kb\u{1b}",
        "\u{1b}\u{1b}[mX",
        "",
    ];
    for s in samples {
        let once = strip_ansi(s);
        assert!(!once.contains('\u{1b}'));
        assert_eq!(strip_ansi(&once), once);
        // a subsequence: the kept characters appear in the input in order
        let mut rest = s.chars();
        for c in once.chars() {
            assert!(rest.any(|d| d == c), "{s:?}");
        }
    }
    assert_eq!(strip_ansi("plain text"), "plain text");
}

/// Drives an install job as the program does: each command's outcome is
/// the next event.
fn run(outcomes: &[InstallEvent]) -> Vec<JobMessage> {
    let mut msgs = Vec::new();
    let mut step = install_step(&config(), 7, InstallEvent::Start);
    let mut k = 0;
    loop {
        msgs.extend(step.messages);
        if step.command.is_none() {
            break;
        }
        let e = match &outcomes[k] {
            InstallEvent::Start => InstallEvent::Start,
            InstallEvent::InstallExited(ok) => InstallEvent::InstallExited(*ok),
            InstallEvent::InstallFailed(e) => InstallEvent::InstallFailed(e.clone()),
            InstallEvent::SiteExited(ok) => InstallEvent::SiteExited(*ok),
            InstallEvent::SiteFailed => InstallEvent::SiteFailed,
        };
        k += 1;
        step = install_step(&config(), 7, e);
    }
    msgs
}

#[test]
fn an_install_job_finishes_once_and_last() {
    let runs = [
        vec![InstallEvent::InstallExited(true), InstallEvent::SiteExited(true)],
        vec![InstallEvent::InstallExited(true), InstallEvent::SiteExited(false)],
        vec![InstallEvent::InstallExited(true), InstallEvent::SiteFailed],
        vec![InstallEvent::InstallExited(false)],
        vec![InstallEvent::InstallFailed("no such file".into())],
    ];
    for outcomes in runs {
        let msgs = run(&outcomes);
        assert!(matches!(&msgs[0], JobMessage::Output(7, l) if l == "→ cmk-dev-install 2.6.0-2026-04-03 -e ultimate"));
        assert!(msgs.iter().all(|m| matches!(m, JobMessage::Output(7, _) | JobMessage::Finished(7, _))));
        assert!(matches!(msgs.last(), Some(JobMessage::Finished(7, _))));
        assert_eq!(msgs.iter().filter(|m| matches!(m, JobMessage::Finished(..))).count(), 1);
    }
}
