use cmk_helm::api::{parse_version_from_str, parse_versions_from_html, Version, VersionKind};
use cmk_helm::text::char_is_decimal_digit;
use regex::Regex;

/// The version a name denotes by the server's naming patterns, read with a
/// regular-expression engine, to hold the hand-written grammar against.
fn by_patterns(s: &str, timestamp: &str) -> Option<Version> {
    let daily = Regex::new(r"^(\d+\.\d+\.\d+)-(\d{4}\.\d{2}\.\d{2})$").unwrap();
    let stable = Regex::new(r"^(\d+\.\d+\.\d+)p(\d+)$").unwrap();
    let beta = Regex::new(r"^(\d+\.\d+\.\d+)b(\d+)$").unwrap();
    if let Some(c) = daily.captures(s) {
        return Some(Version {
            base: c[1].to_string(),
            kind: VersionKind::Daily { date: c[2].to_string() },
            timestamp: timestamp.to_string(),
        });
    }
    if let Some(c) = stable.captures(s) {
        let patch = c[2].parse().ok()?;
        return Some(Version {
            base: c[1].to_string(),
            kind: VersionKind::StablePatch { patch },
            timestamp: timestamp.to_string(),
        });
    }
    if let Some(c) = beta.captures(s) {
        let num = c[2].parse().ok()?;
        return Some(Version {
            base: c[1].to_string(),
            kind: VersionKind::Beta { num },
            timestamp: timestamp.to_string(),
        });
    }
    None
}

fn same(a: &Option<Version>, b: &Option<Version>) -> bool {
    match (a, b) {
        (None, None) => true,
        (Some(x), Some(y)) => {
            x.base == y.base
                && x.timestamp == y.timestamp
                && match (&x.kind, &y.kind) {
                    (VersionKind::Daily { date: d }, VersionKind::Daily { date: e }) => d == e,
                    (VersionKind::StablePatch { patch: p }, VersionKind::StablePatch { patch: q }) => p == q,
                    (VersionKind::Beta { num: p }, VersionKind::Beta { num: q }) => p == q,
                    _ => false,
                }
        }
        _ => false,
    }
}

#[test]
fn decimal_digits_are_those_of_regex_d() {
    let d = Regex::new(r"^\d$").unwrap();
    let mut buf = [0u8; 4];
    for code in 0u32..=0x10FFFF {
        if let Some(c) = char::from_u32(code) {
            assert_eq!(char_is_decimal_digit(c), d.is_match(c.encode_utf8(&mut buf)), "U+{code:04X}");
        }
    }
}

#[test]
fn names_with_other_scripts_digits() {
    let v = parse_version_from_str("١.١.١p1", "t".into()).expect("a stable patch");
    assert_eq!(v.base, "١.١.١");
    assert!(matches!(v.kind, VersionKind::StablePatch { patch: 1 }));
    let v = parse_version_from_str("२.५.०-२०२६.०४.०३", "t".into()).expect("a daily build");
    assert_eq!(v.base, "२.५.०");
    assert!(matches!(&v.kind, VersionKind::Daily { date } if date == "२०२६.०४.०३"));
    // a number in other digits does not parse as u32
    assert!(parse_version_from_str("2.4.0p٢", "t".into()).is_none());
    assert!(parse_version_from_str("2.5.0b٣", "t".into()).is_none());
}

#[test]
fn names_agree_with_the_patterns() {
    let names = [
        "2.5.0-2026.04.03",
        "2.4.0p24",
        "2.5.0b2",
        "2.1.0",
        "١.١.١p1",
        "١.١.١b١",
        "2.4.0p٢",
        "١٢.٣.٤-٢٠٢٦.٠١.٠٢",
        "2.5.0-2026.4.03",
        "2.5.0-2026-04-03",
        "2.5p1",
        "2.5.0p",
        "2.5.0p1b2",
        "2.5.0p99999999999",
        "2.5.0p+1",
        "2.5.0pp1",
        "x2.5.0p1",
        "2..5.0p1",
        "2.5.0b1p1",
        "٢.٥.٠-2026.04.03",
        "",
    ];
    for n in names {
        assert!(same(&parse_version_from_str(n, "ts".into()), &by_patterns(n, "ts")), "{n}");
    }
}

#[test]
fn listing_rows_with_other_scripts_digits() {
    let html = "<a href=\"١.١.١p1/\">x</a></td><td align=\"right\">٢٠٢٦-٠٣-١٦ ١٠:٤٩  </td>\
                <a href=\"../\">..</a></td><td>-</td>\
                <a href=\"2.4.0p24/\">x</a></td><td>2026-03-16 10:49</td>";
    let vs = parse_versions_from_html(html);
    assert_eq!(vs.len(), 2);
    assert_eq!(vs[0].base, "١.١.١");
    assert_eq!(vs[0].timestamp, "٢٠٢٦-٠٣-١٦ ١٠:٤٩");
    assert!(matches!(vs[0].kind, VersionKind::StablePatch { patch: 1 }));
    assert_eq!(vs[1].base, "2.4.0");
    let row = Regex::new(
        r#"href="(\d+\.\d+\.\d+[^"/]*)/">[^<]*</a></td><td[^>]*>[ ]*(\d{4}-\d{2}-\d{2} \d{2}:\d{2})"#,
    )
    .unwrap();
    let expected: Vec<Option<Version>> = row
        .captures_iter(html)
        .map(|c| by_patterns(&c[1], c[2].trim()))
        .filter(|v| v.is_some())
        .collect();
    assert_eq!(expected.len(), vs.len());
    for (e, v) in expected.iter().zip(vs.into_iter()) {
        assert!(same(e, &Some(v)));
    }
}
