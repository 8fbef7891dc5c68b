use cmk_helm::api::{
    group_by_base, groups_from_listing, parse_credentials, parse_semver, parse_version_from_str,
    parse_versions_from_html, Edition, Version, VersionKind,
};

fn make_row(href: &str, ts: &str) -> String {
    format!(r#"<a href="{href}/">{href}/</a></td><td align="right">{ts}  </td>"#)
}

fn version(base: &str, kind: VersionKind) -> Version {
    Version { base: base.into(), kind, timestamp: "".into() }
}

#[test]
fn parse_daily_with_timestamp() {
    let html = make_row("2.5.0-2026.04.03", "2026-04-03 13:50");
    let versions = parse_versions_from_html(&html);
    assert_eq!(versions.len(), 1);
    assert_eq!(versions[0].base, "2.5.0");
    assert_eq!(versions[0].timestamp, "2026-04-03 13:50");
    assert!(matches!(&versions[0].kind, VersionKind::Daily { date } if date == "2026.04.03"));
}

#[test]
fn parse_stable_with_timestamp() {
    let html = make_row("2.4.0p24", "2026-03-16 10:49");
    let versions = parse_versions_from_html(&html);
    assert_eq!(versions.len(), 1);
    assert_eq!(versions[0].timestamp, "2026-03-16 10:49");
    assert!(matches!(&versions[0].kind, VersionKind::StablePatch { patch: 24 }));
}

#[test]
fn parse_beta_with_timestamp() {
    let html = make_row("2.5.0b2", "2026-03-31 11:17");
    let versions = parse_versions_from_html(&html);
    assert_eq!(versions.len(), 1);
    assert!(matches!(&versions[0].kind, VersionKind::Beta { num: 2 }));
}

#[test]
fn bare_versions_are_skipped() {
    // "2.1.0/" has no patch, daily or beta suffix
    let html = make_row("2.1.0", "2023-05-05 11:06");
    assert!(parse_versions_from_html(&html).is_empty());
}

#[test]
fn install_arg_daily_uses_hyphens() {
    let v = Version {
        base: "2.5.0".into(),
        kind: VersionKind::Daily { date: "2026.04.03".into() },
        timestamp: "".into(),
    };
    assert_eq!(v.install_arg(), "2.5.0-2026-04-03");
}

#[test]
fn install_arg_stable_unchanged() {
    let v = Version {
        base: "2.4.0".into(),
        kind: VersionKind::StablePatch { patch: 24 },
        timestamp: "".into(),
    };
    assert_eq!(v.install_arg(), "2.4.0p24");
}

#[test]
fn group_by_base_sorts_newest_first() {
    let versions = vec![
        version("2.4.0", VersionKind::StablePatch { patch: 1 }),
        version("2.6.0", VersionKind::Daily { date: "x".into() }),
        version("2.5.0", VersionKind::Beta { num: 1 }),
    ];
    let groups = group_by_base(versions);
    assert_eq!(groups[0].base, "2.6.0");
    assert_eq!(groups[1].base, "2.5.0");
    assert_eq!(groups[2].base, "2.4.0");
}

#[test]
fn available_editions_splits_on_minor_version() {
    let v25 = version("2.5.0", VersionKind::Daily { date: "x".into() });
    let v24 = version("2.4.0", VersionKind::StablePatch { patch: 1 });
    assert!(v25.available_editions().contains(&Edition::Pro));
    assert!(v24.available_editions().contains(&Edition::Cee));
    assert!(!v25.available_editions().contains(&Edition::Cee));
    assert!(!v24.available_editions().contains(&Edition::Pro));
}

// ── Further cases ────────────────────────────────────────────────────────────

#[test]
fn dir_name_of_each_kind() {
    assert_eq!(version("2.5.0", VersionKind::Daily { date: "2026.04.03".into() }).dir_name(), "2.5.0-2026.04.03");
    assert_eq!(version("2.4.0", VersionKind::StablePatch { patch: 24 }).dir_name(), "2.4.0p24");
    assert_eq!(version("2.5.0", VersionKind::Beta { num: 2 }).dir_name(), "2.5.0b2");
    assert_eq!(version("2.5.0", VersionKind::StablePatch { patch: 0 }).dir_name(), "2.5.0p0");
    assert_eq!(version("1.0.0", VersionKind::Beta { num: 4294967295 }).dir_name(), "1.0.0b4294967295");
}

#[test]
fn install_arg_beta_unchanged() {
    let v = version("2.5.0", VersionKind::Beta { num: 2 });
    assert_eq!(v.install_arg(), "2.5.0b2");
    assert_eq!(v.install_arg(), v.dir_name());
}

#[test]
fn install_arg_starts_with_base_and_keeps_length() {
    let v = version("2.6.0", VersionKind::Daily { date: "2026.04.03".into() });
    let arg = v.install_arg();
    assert!(arg.starts_with("2.6.0-"));
    assert_eq!(arg.chars().count(), v.dir_name().chars().count());
    assert!(!arg["2.6.0".len()..].contains('.'));
}

#[test]
fn kind_labels_and_details() {
    let d = version("2.5.0", VersionKind::Daily { date: "2026.04.03".into() });
    let s = version("2.4.0", VersionKind::StablePatch { patch: 24 });
    let b = version("2.5.0", VersionKind::Beta { num: 2 });
    assert_eq!(d.kind_label(), "daily");
    assert_eq!(s.kind_label(), "stable");
    assert_eq!(b.kind_label(), "beta");
    assert_eq!(d.detail(), "2026.04.03");
    assert_eq!(s.detail(), "p24");
    assert_eq!(b.detail(), "b2");
}

#[test]
fn editions_codes_and_names() {
    let all = [
        (Edition::Community, "community", "Community (free)"),
        (Edition::Pro, "pro", "Pro"),
        (Edition::Ultimate, "ultimate", "Ultimate"),
        (Edition::Ultimatemt, "ultimatemt", "Ultimate Multitenant"),
        (Edition::Cee, "cee", "Enterprise (cee)"),
        (Edition::Cre, "cre", "Community Raw (cre)"),
        (Edition::Cce, "cce", "Cloud (cce)"),
        (Edition::Cme, "cme", "Managed Services (cme)"),
        (Edition::Cloud, "cloud", "Cloud"),
    ];
    for (e, code, name) in all {
        assert_eq!(e.as_str(), code);
        assert_eq!(e.display_name(), name);
    }
}

#[test]
fn available_editions_exact_lists() {
    let newer = version("2.5.0", VersionKind::Beta { num: 1 }).available_editions();
    assert_eq!(newer, vec![Edition::Community, Edition::Pro, Edition::Ultimate, Edition::Ultimatemt, Edition::Cloud]);
    let older = version("2.4.0", VersionKind::Beta { num: 1 }).available_editions();
    assert_eq!(older, vec![Edition::Cee, Edition::Cre, Edition::Cloud, Edition::Cme]);
    // a minor version that does not parse counts as 0
    let odd = version("2.x.0", VersionKind::Beta { num: 1 }).available_editions();
    assert_eq!(odd, older);
    // a minor with a plus sign parses as u32 does
    let plus = version("2.+10.0", VersionKind::Beta { num: 1 }).available_editions();
    assert_eq!(plus, newer);
    assert_eq!(version("2.10.0", VersionKind::Beta { num: 1 }).available_editions(), newer);
}

#[test]
fn parse_semver_orders_by_number() {
    assert_eq!(parse_semver("2.10.0"), (2, 10, 0));
    assert_eq!(parse_semver("2.9.1"), (2, 9, 1));
    assert!(parse_semver("2.10.0") > parse_semver("2.9.0"));
    // fields that do not parse are skipped, missing ones count as 0
    assert_eq!(parse_semver("2.x.5"), (2, 5, 0));
    assert_eq!(parse_semver(""), (0, 0, 0));
    assert_eq!(parse_semver("7"), (7, 0, 0));
    assert_eq!(parse_semver("1.2.3.4"), (1, 2, 3));
}

#[test]
fn group_by_base_keeps_versions_in_order_within_a_group() {
    let versions = vec![
        version("2.5.0", VersionKind::Beta { num: 2 }),
        version("2.10.0", VersionKind::Beta { num: 1 }),
        version("2.5.0", VersionKind::Beta { num: 1 }),
        version("2.9.0", VersionKind::StablePatch { patch: 3 }),
    ];
    let groups = group_by_base(versions);
    let bases: Vec<&str> = groups.iter().map(|g| g.base.as_str()).collect();
    assert_eq!(bases, vec!["2.10.0", "2.9.0", "2.5.0"]);
    assert_eq!(groups[2].versions.len(), 2);
    assert!(matches!(groups[2].versions[0].kind, VersionKind::Beta { num: 2 }));
    assert!(matches!(groups[2].versions[1].kind, VersionKind::Beta { num: 1 }));
}

#[test]
fn group_by_base_ties_keep_first_occurrence_order() {
    // "2.5.0" and "2.5.0x" share the key (2, 5, 0)
    let versions = vec![
        version("2.5.0x", VersionKind::Beta { num: 1 }),
        version("2.5.0", VersionKind::Beta { num: 2 }),
    ];
    let groups = group_by_base(versions);
    assert_eq!(groups[0].base, "2.5.0x");
    assert_eq!(groups[1].base, "2.5.0");
}

#[test]
fn group_by_base_of_nothing_is_empty() {
    assert!(group_by_base(Vec::new()).is_empty());
}

#[test]
fn parse_version_from_str_cases() {
    let d = parse_version_from_str("2.5.0-2026.04.03", "t".into()).unwrap();
    assert_eq!(d.base, "2.5.0");
    assert_eq!(d.timestamp, "t");
    assert!(parse_version_from_str("2.1.0", "t".into()).is_none());
    assert!(parse_version_from_str("2.4.0p", "t".into()).is_none());
    assert!(parse_version_from_str("2.4.0p2x", "t".into()).is_none());
    assert!(parse_version_from_str("2.4p2", "t".into()).is_none());
    assert!(parse_version_from_str("2.5.0-2026.4.03", "t".into()).is_none());
    // a patch number beyond u32 reads as nothing
    assert!(parse_version_from_str("2.4.0p4294967296", "t".into()).is_none());
    let big = parse_version_from_str("2.4.0p4294967295", "t".into()).unwrap();
    assert!(matches!(big.kind, VersionKind::StablePatch { patch: 4294967295 }));
    let lead = parse_version_from_str("10.20.30b007", "t".into()).unwrap();
    assert_eq!(lead.base, "10.20.30");
    assert!(matches!(lead.kind, VersionKind::Beta { num: 7 }));
}

#[test]
fn dir_name_reads_back() {
    for v in [
        version("2.5.0", VersionKind::Daily { date: "2026.04.03".into() }),
        version("2.4.0", VersionKind::StablePatch { patch: 24 }),
        version("12.0.345", VersionKind::Beta { num: 0 }),
    ] {
        let back = parse_version_from_str(&v.dir_name(), "ts".into()).unwrap();
        assert_eq!(back.base, v.base);
        assert_eq!(back.dir_name(), v.dir_name());
    }
}

#[test]
fn listing_with_several_rows_and_noise() {
    let mut html = String::from("<html><body><table>");
    html.push_str(r#"<tr><td><a href="?C=N;O=D">Name</a></td></tr>"#);
    html.push_str(&make_row("2.4.0p1", "2025-01-02 03:04"));
    html.push_str(&make_row("2.1.0", "2023-05-05 11:06"));
    html.push_str(&make_row("2.5.0b1", "2025-02-03 04:05"));
    html.push_str(&make_row("docs", "2025-02-03 04:05"));
    html.push_str(&make_row("2.5.0-2026.04.03", "2026-04-03 13:50"));
    html.push_str("</table></body></html>");
    let versions = parse_versions_from_html(&html);
    let names: Vec<String> = versions.iter().map(|v| v.dir_name()).collect();
    assert_eq!(names, vec!["2.4.0p1", "2.5.0b1", "2.5.0-2026.04.03"]);
}

#[test]
fn listing_row_needs_a_timestamp() {
    let html = r#"<a href="2.4.0p1/">2.4.0p1/</a></td><td align="right">  -  </td>"#;
    assert!(parse_versions_from_html(html).is_empty());
    let spaced = r#"<a href="2.4.0p1/">x</a></td><td>2025-01-02 03:04"#;
    assert_eq!(parse_versions_from_html(spaced)[0].timestamp, "2025-01-02 03:04");
}

#[test]
fn groups_from_listing_reverses_and_groups() {
    let mut html = String::new();
    html.push_str(&make_row("2.4.0p1", "2025-01-02 03:04"));
    html.push_str(&make_row("2.4.0p2", "2025-01-03 03:04"));
    html.push_str(&make_row("2.5.0b1", "2025-02-03 04:05"));
    let groups = groups_from_listing(&html).unwrap();
    assert_eq!(groups.len(), 2);
    assert_eq!(groups[0].base, "2.5.0");
    assert_eq!(groups[1].base, "2.4.0");
    // newest first inside a group: the listing is oldest first
    assert!(matches!(groups[1].versions[0].kind, VersionKind::StablePatch { patch: 2 }));
    assert!(matches!(groups[1].versions[1].kind, VersionKind::StablePatch { patch: 1 }));
}

#[test]
fn groups_from_listing_without_versions_is_none() {
    assert!(groups_from_listing("<html></html>").is_none());
    assert!(groups_from_listing(&make_row("2.1.0", "2023-05-05 11:06")).is_none());
}

#[test]
fn credentials_are_split_at_the_first_colon() {
    assert_eq!(parse_credentials("user:pass\n"), Some(("user".to_string(), "pass".to_string())));
    assert_eq!(parse_credentials("  me:a:b  "), Some(("me".to_string(), "a:b".to_string())));
    assert_eq!(parse_credentials(":"), Some((String::new(), String::new())));
    assert_eq!(parse_credentials("nocolon"), None);
    assert_eq!(parse_credentials(""), None);
}
