use vstd::prelude::*;

use crate::text::{
    chars_of, contains_seq, copy_range, find_first, first_where, in_class, is_whitespace, owned,
    push_char, push_str, range_contains, ranges_view, ranges_within, split_on, split_ranges,
    string_of_range, strings_view, trim, trim_range, word_ranges, words, CharClass,
};

verus! {

// ── Install configuration ────────────────────────────────────────────────────

/// Everything needed to drive an installation.
#[derive(Debug, Clone)]
pub struct InstallConfig {
    /// The version in `cmk-dev-install` form: "2.4.0-2025-04-07" (daily),
    /// "2.4.0p24" (stable).
    pub version: String,
    /// The OMD version: the server's directory name, with dots in a daily
    /// date ("2.6.0-2026.04.03", "2.4.0p24", "2.5.0b2").
    pub omd_version: String,
    /// The edition code, such as "cee" or "pro".
    pub edition: String,
    /// The OMD site to create after installation.
    pub site_name: String,
}

pub struct InstallConfigView {
    pub version: Seq<char>,
    pub omd_version: Seq<char>,
    pub edition: Seq<char>,
    pub site_name: Seq<char>,
}

impl View for InstallConfig {
    type V = InstallConfigView;

    open spec fn view(&self) -> InstallConfigView {
        InstallConfigView {
            version: self.version@,
            omd_version: self.omd_version@,
            edition: self.edition@,
            site_name: self.site_name@,
        }
    }
}

/// `cmk-dev-install {version} -e {edition}`.
pub open spec fn install_command_of(c: InstallConfigView) -> Seq<Seq<char>> {
    seq!["cmk-dev-install"@, c.version, "-e"@, c.edition]
}

/// The base version in front of the first `-` of an install version.
pub open spec fn base_of_install_version(version: Seq<char>) -> Seq<char> {
    split_on(version, '-')[0]
}

/// `cmk-dev-site {base}.{edition} -n {site_name}`.
pub open spec fn create_site_command_of(c: InstallConfigView) -> Seq<Seq<char>> {
    seq![
        "cmk-dev-site"@,
        base_of_install_version(c.version).push('.') + c.edition,
        "-n"@,
        c.site_name,
    ]
}

/// The commands of an install with a site: `cmk-dev-install-site` when that
/// tool is on the path, else `cmk-dev-install` then `cmk-dev-site`.
pub open spec fn install_and_create_site_commands_of(
    c: InstallConfigView,
    combined_tool: bool,
) -> Seq<Seq<Seq<char>>> {
    if combined_tool {
        seq![
            seq![
                "cmk-dev-install-site"@,
                base_of_install_version(c.version),
                c.edition,
                "-n"@,
                c.site_name,
            ],
        ]
    } else {
        seq![install_command_of(c), create_site_command_of(c)]
    }
}

pub open spec fn commands_view(v: Seq<Vec<String>>) -> Seq<Seq<Seq<char>>> {
    v.map_values(|c: Vec<String>| strings_view(c@))
}

/// The command line of step 1, downloading and installing the package:
/// program first, then its arguments.
pub fn install_package_command(config: &InstallConfig) -> (r: Vec<String>)
    ensures
        strings_view(r@) == install_command_of(config@),
{
    let r = vec![owned("cmk-dev-install"), config.version.clone(), owned("-e"), config.edition.clone()];
    assert(strings_view(r@) =~= install_command_of(config@));
    r
}

/// The base version of an install version: what precedes its first `-`.
fn base_version(version: &String) -> (r: String)
    ensures
        r@ == base_of_install_version(version@),
{
    let v = chars_of(version.as_str());
    let pieces = split_ranges(&v, 0, v.len(), '-');
    assert(v@.subrange(0, v@.len() as int) =~= version@);
    proof {
        crate::text::lemma_split_on_nonempty(version@, '-');
    }
    let (lo, hi) = pieces[0];
    assert(ranges_view(v@, pieces@)[0] == v@.subrange(lo as int, hi as int));
    string_of_range(&v, lo, hi)
}

/// The command line of step 2, creating and starting the site.
pub fn create_site_command(config: &InstallConfig) -> (r: Vec<String>)
    ensures
        strings_view(r@) == create_site_command_of(config@),
{
    let mut omd = base_version(&config.version);
    push_char(&mut omd, '.');
    push_str(&mut omd, config.edition.as_str());
    let r = vec![owned("cmk-dev-site"), omd, owned("-n"), config.site_name.clone()];
    assert(strings_view(r@) =~= create_site_command_of(config@));
    r
}

/// The command lines of an install with a site, given whether
/// `cmk-dev-install-site` is on the path.
pub fn install_and_create_site_commands(config: &InstallConfig, combined_tool: bool) -> (r: Vec<
    Vec<String>,
>)
    ensures
        commands_view(r@) == install_and_create_site_commands_of(config@, combined_tool),
{
    if combined_tool {
        let c = vec![
            owned("cmk-dev-install-site"),
            base_version(&config.version),
            config.edition.clone(),
            owned("-n"),
            config.site_name.clone(),
        ];
        assert(strings_view(c@) =~= install_and_create_site_commands_of(config@, true)[0]);
        let r = vec![c];
        assert(commands_view(r@) =~= install_and_create_site_commands_of(config@, true));
        r
    } else {
        let a = install_package_command(config);
        let b = create_site_command(config);
        let r = vec![a, b];
        assert(commands_view(r@) =~= install_and_create_site_commands_of(config@, false));
        r
    }
}

// ── What omd reports ─────────────────────────────────────────────────────────

/// The trimmed lines that are not blank, in order.
pub open spec fn trimmed_nonblank(lines: Seq<Seq<char>>) -> Seq<Seq<char>>
    decreases lines.len(),
{
    if lines.len() == 0 {
        Seq::empty()
    } else {
        let before = trimmed_nonblank(lines.drop_last());
        let t = trim(lines.last());
        if t.len() > 0 {
            before.push(t)
        } else {
            before
        }
    }
}

/// The versions that `omd versions -b` prints, one per line.
pub open spec fn installed_versions_of(out: Seq<char>) -> Seq<Seq<char>> {
    trimmed_nonblank(split_on(out, '\n'))
}

/// Reads the output of `omd versions -b`: each non-blank line, trimmed.
pub fn parse_installed_versions(stdout: &str) -> (r: Vec<String>)
    ensures
        strings_view(r@) == installed_versions_of(stdout@),
{
    let v = chars_of(stdout);
    let lines = split_ranges(&v, 0, v.len(), '\n');
    assert(v@.subrange(0, v@.len() as int) =~= stdout@);
    let ghost ls = ranges_view(v@, lines@);
    let mut out: Vec<String> = Vec::new();
    let mut k: usize = 0;
    assert(ls.take(0) =~= Seq::<Seq<char>>::empty());
    assert(strings_view(out@) =~= Seq::<Seq<char>>::empty());
    while k < lines.len()
        invariant
            k <= lines@.len(),
            ls == ranges_view(v@, lines@),
            ls == split_on(stdout@, '\n'),
            ranges_within(lines@, 0, v@.len() as int),
            strings_view(out@) == trimmed_nonblank(ls.take(k as int)),
        decreases lines.len() - k,
    {
        let (lo, hi) = lines[k];
        assert(ls[k as int] == v@.subrange(lo as int, hi as int));
        assert(ls.take(k + 1).drop_last() =~= ls.take(k as int));
        let (a, b) = trim_range(&v, lo, hi);
        if a < b {
            let ghost before = strings_view(out@);
            let s = string_of_range(&v, a, b);
            out.push(s);
            assert(strings_view(out@) =~= before.push(s@));
        }
        k = k + 1;
    }
    assert(ls.take(k as int) =~= ls);
    out
}

/// A site registered with OMD.
#[derive(Debug, Clone)]
pub struct InstalledSite {
    /// The site name, such as "v240".
    pub name: String,
    /// The full OMD version, such as "2.4.0p23.cee".
    pub version: String,
    /// Whether its comments mark the system's default version.
    pub is_default: bool,
}

pub struct InstalledSiteView {
    pub name: Seq<char>,
    pub version: Seq<char>,
    pub is_default: bool,
}

impl View for InstalledSite {
    type V = InstalledSiteView;

    open spec fn view(&self) -> InstalledSiteView {
        InstalledSiteView { name: self.name@, version: self.version@, is_default: self.is_default }
    }
}

pub open spec fn sites_view(v: Seq<InstalledSite>) -> Seq<InstalledSiteView> {
    v.map_values(|s: InstalledSite| s@)
}

/// The words joined with single spaces.
pub open spec fn join_words(ws: Seq<Seq<char>>) -> Seq<char>
    decreases ws.len(),
{
    if ws.len() == 0 {
        Seq::empty()
    } else if ws.len() == 1 {
        ws[0]
    } else {
        join_words(ws.drop_last()).push(' ') + ws.last()
    }
}

/// The header line of `omd sites` starts with `SITE`.
pub open spec fn is_header_line(l: Seq<char>) -> bool {
    l.len() >= 4 && l.take(4) == seq!['S', 'I', 'T', 'E']
}

/// The site that a line of `omd sites` describes: columns SITE, VERSION and
/// COMMENTS separated by whitespace. Blank lines, the header and lines of
/// fewer than two columns describe none; a site is the default one when its
/// comments, joined by single spaces, contain `default`.
pub open spec fn site_of_line(l: Seq<char>) -> Option<InstalledSiteView> {
    let cols = words(l);
    if trim(l).len() == 0 || is_header_line(l) || cols.len() < 2 {
        None
    } else {
        Some(
            InstalledSiteView {
                name: cols[0],
                version: cols[1],
                is_default: contains_seq(join_words(cols.skip(2)), "default"@),
            },
        )
    }
}

pub open spec fn sites_of_lines(lines: Seq<Seq<char>>) -> Seq<InstalledSiteView>
    decreases lines.len(),
{
    if lines.len() == 0 {
        Seq::empty()
    } else {
        let before = sites_of_lines(lines.drop_last());
        match site_of_line(lines.last()) {
            Some(s) => before.push(s),
            None => before,
        }
    }
}

/// The sites that `omd sites` lists, in order.
pub open spec fn installed_sites_of(out: Seq<char>) -> Seq<InstalledSiteView> {
    sites_of_lines(split_on(out, '\n'))
}

/// The comment columns of a line joined by single spaces.
fn join_columns(v: &Vec<char>, cols: &Vec<(usize, usize)>, from: usize) -> (r: Vec<char>)
    requires
        ranges_within(cols@, 0, v@.len() as int),
        from <= cols@.len(),
    ensures
        r@ == join_words(ranges_view(v@, cols@).skip(from as int)),
{
    let ghost ws = ranges_view(v@, cols@);
    let mut r: Vec<char> = Vec::new();
    let mut k = from;
    assert(ws.skip(from as int).take(0) =~= Seq::<Seq<char>>::empty());
    while k < cols.len()
        invariant
            from <= k <= cols@.len(),
            ws == ranges_view(v@, cols@),
            ranges_within(cols@, 0, v@.len() as int),
            r@ == join_words(ws.skip(from as int).take(k - from)),
        decreases cols.len() - k,
    {
        let (lo, hi) = cols[k];
        assert(ws[k as int] == v@.subrange(lo as int, hi as int));
        let ghost before = ws.skip(from as int).take(k - from);
        let ghost after = ws.skip(from as int).take(k + 1 - from);
        assert(after.drop_last() =~= before);
        assert(after.last() == ws[k as int]);
        if k > from {
            r.push(' ');
        }
        let ghost mid = r@;
        let mut i = lo;
        while i < hi
            invariant
                lo <= i <= hi <= v@.len(),
                r@ == mid + v@.subrange(lo as int, i as int),
            decreases hi - i,
        {
            r.push(v[i]);
            assert(v@.subrange(lo as int, i + 1) =~= v@.subrange(lo as int, i as int).push(v@[i as int]));
            i = i + 1;
        }
        if k == from {
            assert(r@ =~= join_words(after));
        } else {
            assert(r@ =~= join_words(after));
        }
        k = k + 1;
    }
    assert(ws.skip(from as int).take(k - from) =~= ws.skip(from as int));
    r
}

/// Reads the output of `omd sites`.
pub fn parse_installed_sites(stdout: &str) -> (r: Vec<InstalledSite>)
    ensures
        sites_view(r@) == installed_sites_of(stdout@),
{
    let v = chars_of(stdout);
    let lines = split_ranges(&v, 0, v.len(), '\n');
    assert(v@.subrange(0, v@.len() as int) =~= stdout@);
    let ghost ls = ranges_view(v@, lines@);
    let word_default: [char; 7] = ['d', 'e', 'f', 'a', 'u', 'l', 't'];
    assert(word_default@ =~= "default"@) by {
        reveal_strlit("default");
    }
    let header: [char; 4] = ['S', 'I', 'T', 'E'];
    assert(header@ =~= seq!['S', 'I', 'T', 'E']);
    let mut out: Vec<InstalledSite> = Vec::new();
    let mut k: usize = 0;
    assert(ls.take(0) =~= Seq::<Seq<char>>::empty());
    assert(sites_view(out@) =~= Seq::<InstalledSiteView>::empty());
    while k < lines.len()
        invariant
            k <= lines@.len(),
            ls == ranges_view(v@, lines@),
            ls == split_on(stdout@, '\n'),
            ranges_within(lines@, 0, v@.len() as int),
            word_default@ == "default"@,
            header@ == seq!['S', 'I', 'T', 'E'],
            sites_view(out@) == sites_of_lines(ls.take(k as int)),
        decreases lines.len() - k,
    {
        let (lo, hi) = lines[k];
        let ghost l = v@.subrange(lo as int, hi as int);
        assert(ls[k as int] == l);
        assert(ls.take(k + 1).drop_last() =~= ls.take(k as int));
        assert(ls.take(k + 1).last() == l);
        let (a, b) = trim_range(&v, lo, hi);
        let is_header = crate::text::literal_at(&v, lo, &header) && hi - lo >= 4;
        if hi - lo >= 4 {
            assert(v@.subrange(lo as int, lo + 4) =~= l.take(4));
        }
        let cols = word_ranges(&v, lo, hi);
        if a < b && !is_header && cols.len() >= 2 {
            let ghost ws = ranges_view(v@, cols@);
            let (n0, n1) = cols[0];
            let (v0, v1) = cols[1];
            assert(ws[0] == v@.subrange(n0 as int, n1 as int));
            assert(ws[1] == v@.subrange(v0 as int, v1 as int));
            let name = string_of_range(&v, n0, n1);
            let version = string_of_range(&v, v0, v1);
            let comments = join_columns(&v, &cols, 2);
            let is_default = range_contains(&comments, 0, comments.len(), &word_default);
            assert(comments@.subrange(0, comments@.len() as int) =~= comments@);
            let ghost before = sites_view(out@);
            let site = InstalledSite { name, version, is_default };
            out.push(site);
            assert(sites_view(out@) =~= before.push(site@));
        }
        k = k + 1;
    }
    assert(ls.take(k as int) =~= ls);
    out
}


// ── Jobs ─────────────────────────────────────────────────────────────────────

/// The identifier of a background job.
pub type JobId = usize;

/// A message from a background job to the interface.
#[derive(Debug)]
pub enum JobMessage {
    /// A line of the subprocess's output.
    Output(JobId, String),
    /// The job finished; `true` when its commands succeeded.
    Finished(JobId, bool),
}

pub enum JobMessageView {
    Output(JobId, Seq<char>),
    Finished(JobId, bool),
}

impl View for JobMessage {
    type V = JobMessageView;

    open spec fn view(&self) -> JobMessageView {
        match self {
            JobMessage::Output(id, line) => JobMessageView::Output(*id, line@),
            JobMessage::Finished(id, ok) => JobMessageView::Finished(*id, *ok),
        }
    }
}

pub open spec fn messages_view(v: Seq<JobMessage>) -> Seq<JobMessageView> {
    v.map_values(|m: JobMessage| m@)
}

/// The status of a background job.
#[derive(Debug, Clone, Copy, PartialEq, Eq, Structural)]
pub enum JobStatus {
    Running,
    Done,
    Failed,
}

/// A background job tracked by the interface.
#[derive(Debug, Clone)]
pub struct Job {
    pub id: JobId,
    pub label: String,
    pub status: JobStatus,
    pub output: Vec<String>,
}

pub struct JobView {
    pub id: JobId,
    pub label: Seq<char>,
    pub status: JobStatus,
    pub output: Seq<Seq<char>>,
}

impl View for Job {
    type V = JobView;

    open spec fn view(&self) -> JobView {
        JobView { id: self.id, label: self.label@, status: self.status, output: strings_view(self.output@) }
    }
}

pub open spec fn jobs_view(v: Seq<Job>) -> Seq<JobView> {
    v.map_values(|j: Job| j@)
}

// ── The install job ──────────────────────────────────────────────────────────

/// What happened last in an install job, which runs `cmk-dev-install` and,
/// when that succeeds, `cmk-dev-site`.
pub enum InstallEvent {
    /// The job begins.
    Start,
    /// `cmk-dev-install` ran and exited, successfully or not.
    InstallExited(bool),
    /// `cmk-dev-install` could not be run; the error, as text.
    InstallFailed(String),
    /// `cmk-dev-site` ran and exited, successfully or not.
    SiteExited(bool),
    /// `cmk-dev-site` could not be run.
    SiteFailed,
}

pub enum InstallEventView {
    Start,
    InstallExited(bool),
    InstallFailed(Seq<char>),
    SiteExited(bool),
    SiteFailed,
}

impl View for InstallEvent {
    type V = InstallEventView;

    open spec fn view(&self) -> InstallEventView {
        match self {
            InstallEvent::Start => InstallEventView::Start,
            InstallEvent::InstallExited(ok) => InstallEventView::InstallExited(*ok),
            InstallEvent::InstallFailed(e) => InstallEventView::InstallFailed(e@),
            InstallEvent::SiteExited(ok) => InstallEventView::SiteExited(*ok),
            InstallEvent::SiteFailed => InstallEventView::SiteFailed,
        }
    }
}

/// What an install job does next: the messages to send, in order, and the
/// command to run next, if any.
pub struct InstallStep {
    pub messages: Vec<JobMessage>,
    pub command: Option<Vec<String>>,
}

/// The full OMD version that `cmk-dev-site` takes: `{omd_version}.{edition}`.
pub open spec fn omd_full_of(c: InstallConfigView) -> Seq<char> {
    c.omd_version.push('.') + c.edition
}

/// The site step's command: `cmk-dev-site {omd_full} -n {site_name}`.
pub open spec fn site_step_command_of(c: InstallConfigView) -> Seq<Seq<char>> {
    seq!["cmk-dev-site"@, omd_full_of(c), "-n"@, c.site_name]
}

/// The text of a command line: its words joined by single spaces.
pub open spec fn command_text(c: Seq<Seq<char>>) -> Seq<char> {
    join_words(c)
}

/// The step of an install job after `event`: announce and run
/// `cmk-dev-install`; when it succeeds, announce and run `cmk-dev-site` with
/// the full OMD version; report failure, or the site step's outcome, as the
/// job's end.
pub open spec fn install_step_of(
    c: InstallConfigView,
    id: JobId,
    event: InstallEventView,
) -> (Seq<JobMessageView>, Option<Seq<Seq<char>>>) {
    match event {
        InstallEventView::Start => (
            seq![JobMessageView::Output(id, "→ "@ + command_text(install_command_of(c)))],
            Some(install_command_of(c)),
        ),
        InstallEventView::InstallExited(true) => (
            seq![JobMessageView::Output(id, "→ "@ + command_text(site_step_command_of(c)))],
            Some(site_step_command_of(c)),
        ),
        InstallEventView::InstallExited(false) => (seq![JobMessageView::Finished(id, false)], None),
        InstallEventView::InstallFailed(e) => (
            seq![JobMessageView::Output(id, "error: "@ + e), JobMessageView::Finished(id, false)],
            None,
        ),
        InstallEventView::SiteExited(ok) => (seq![JobMessageView::Finished(id, ok)], None),
        InstallEventView::SiteFailed => (seq![JobMessageView::Finished(id, false)], None),
    }
}

/// `command_text` of a command line.
pub(crate) fn command_line_text(c: &Vec<String>) -> (r: String)
    ensures
        r@ == command_text(strings_view(c@)),
{
    let ghost ws = strings_view(c@);
    let mut r = String::new();
    let mut k: usize = 0;
    assert(ws.take(0) =~= Seq::<Seq<char>>::empty());
    while k < c.len()
        invariant
            k <= c@.len(),
            ws == strings_view(c@),
            r@ == join_words(ws.take(k as int)),
        decreases c.len() - k,
    {
        let ghost after = ws.take(k + 1);
        assert(after.drop_last() =~= ws.take(k as int));
        assert(after.last() == c@[k as int]@);
        if k > 0 {
            push_char(&mut r, ' ');
        }
        push_str(&mut r, c[k].as_str());
        assert(r@ =~= join_words(after));
        k = k + 1;
    }
    assert(ws.take(k as int) =~= ws);
    r
}

pub open spec fn opt_command_view(o: Option<Vec<String>>) -> Option<Seq<Seq<char>>> {
    match o {
        Some(c) => Some(strings_view(c@)),
        None => None,
    }
}

/// The decisions of the install job `spawn_install` runs: given the last
/// event, the messages to send and the command to run next.
pub fn install_step(config: &InstallConfig, job_id: JobId, event: InstallEvent) -> (r: InstallStep)
    ensures
        (messages_view(r.messages@), opt_command_view(r.command)) == install_step_of(
            config@,
            job_id,
            event@,
        ),
{
    match event {
        InstallEvent::Start => {
            let cmd = install_package_command(config);
            let mut text = owned("→ ");
            let line = command_line_text(&cmd);
            push_str(&mut text, line.as_str());
            let messages = vec![JobMessage::Output(job_id, text)];
            assert(messages_view(messages@) =~= install_step_of(config@, job_id, event@).0);
            InstallStep { messages, command: Some(cmd) }
        },
        InstallEvent::InstallExited(true) => {
            let mut omd_full = config.omd_version.clone();
            push_char(&mut omd_full, '.');
            push_str(&mut omd_full, config.edition.as_str());
            let cmd = vec![owned("cmk-dev-site"), omd_full, owned("-n"), config.site_name.clone()];
            assert(strings_view(cmd@) =~= site_step_command_of(config@));
            let mut text = owned("→ ");
            let line = command_line_text(&cmd);
            push_str(&mut text, line.as_str());
            let messages = vec![JobMessage::Output(job_id, text)];
            assert(messages_view(messages@) =~= install_step_of(config@, job_id, event@).0);
            InstallStep { messages, command: Some(cmd) }
        },
        InstallEvent::InstallExited(false) => {
            let messages = vec![JobMessage::Finished(job_id, false)];
            assert(messages_view(messages@) =~= install_step_of(config@, job_id, event@).0);
            InstallStep { messages, command: None }
        },
        InstallEvent::InstallFailed(e) => {
            let mut text = owned("error: ");
            push_str(&mut text, e.as_str());
            let messages = vec![JobMessage::Output(job_id, text), JobMessage::Finished(job_id, false)];
            assert(messages_view(messages@) =~= install_step_of(config@, job_id, event@).0);
            InstallStep { messages, command: None }
        },
        InstallEvent::SiteExited(ok) => {
            let messages = vec![JobMessage::Finished(job_id, ok)];
            assert(messages_view(messages@) =~= install_step_of(config@, job_id, event@).0);
            InstallStep { messages, command: None }
        },
        InstallEvent::SiteFailed => {
            let messages = vec![JobMessage::Finished(job_id, false)];
            assert(messages_view(messages@) =~= install_step_of(config@, job_id, event@).0);
            InstallStep { messages, command: None }
        },
    }
}

// ── Output of the install tools ──────────────────────────────────────────────

/// `s` from position `i` on, without its ANSI escape sequences: an escape
/// character and everything up to and including the next ASCII letter are
/// dropped (to the end, when no letter follows).
pub open spec fn ansi_stripped(s: Seq<char>, i: int) -> Seq<char>
    decreases s.len() - i,
{
    if i < 0 || i >= s.len() {
        Seq::empty()
    } else if s[i] == '\u{1b}' {
        let k = first_where(s, i + 1, CharClass::AsciiAlpha);
        if i < k < s.len() {
            ansi_stripped(s, k + 1)
        } else {
            Seq::empty()
        }
    } else {
        seq![s[i]] + ansi_stripped(s, i + 1)
    }
}

/// `ansi_stripped` of a whole vector.
fn strip_chars(v: &Vec<char>) -> (r: Vec<char>)
    ensures
        r@ == ansi_stripped(v@, 0),
{
    let mut r: Vec<char> = Vec::new();
    let mut i: usize = 0;
    assert(ansi_stripped(v@, 0) =~= r@ + ansi_stripped(v@, 0));
    while i < v.len()
        invariant
            i <= v.len(),
            ansi_stripped(v@, 0) == r@ + ansi_stripped(v@, i as int),
        decreases v.len() - i,
    {
        let c = v[i];
        if c == '\u{1b}' {
            let k = find_first(v, i + 1, CharClass::AsciiAlpha);
            if k < v.len() {
                i = k + 1;
            } else {
                assert(r@ + Seq::<char>::empty() =~= r@);
                i = v.len();
                assert(ansi_stripped(v@, i as int) =~= Seq::<char>::empty());
            }
        } else {
            let ghost before = r@;
            r.push(c);
            assert(before + (seq![c] + ansi_stripped(v@, i + 1)) =~= r@ + ansi_stripped(v@, i + 1));
            i = i + 1;
        }
    }
    assert(r@ + ansi_stripped(v@, i as int) =~= r@);
    r
}

/// `s` without its ANSI escape sequences (colours, cursor movement).
pub fn strip_ansi(s: &str) -> (r: String)
    ensures
        r@ == ansi_stripped(s@, 0),
{
    let v = chars_of(s);
    let w = strip_chars(&v);
    string_of_range(&w, 0, w.len())
}

/// The cleaned segments: each stripped of escapes and trimmed, blank ones
/// dropped.
pub open spec fn clean_segments(ps: Seq<Seq<char>>) -> Seq<Seq<char>>
    decreases ps.len(),
{
    if ps.len() == 0 {
        Seq::empty()
    } else {
        let before = clean_segments(ps.drop_last());
        let c = trim(ansi_stripped(ps.last(), 0));
        if c.len() > 0 {
            before.push(c)
        } else {
            before
        }
    }
}

/// The lines that a terminal would have shown for one line of subprocess
/// output: the segments between carriage returns, in order, cleaned.
pub open spec fn terminal_lines_of(raw: Seq<char>) -> Seq<Seq<char>> {
    clean_segments(split_on(raw, '\r'))
}

/// Splits a line of subprocess output at carriage returns (progress
/// updates), strips ANSI escapes and trims each segment, and keeps the
/// segments that are not blank.
pub fn clean_terminal_line(raw: &str) -> (r: Vec<String>)
    ensures
        strings_view(r@) == terminal_lines_of(raw@),
{
    let v = chars_of(raw);
    let segs = split_ranges(&v, 0, v.len(), '\r');
    assert(v@.subrange(0, v@.len() as int) =~= raw@);
    let ghost ps = ranges_view(v@, segs@);
    let mut out: Vec<String> = Vec::new();
    let mut k: usize = 0;
    assert(ps.take(0) =~= Seq::<Seq<char>>::empty());
    assert(strings_view(out@) =~= Seq::<Seq<char>>::empty());
    while k < segs.len()
        invariant
            k <= segs@.len(),
            ps == ranges_view(v@, segs@),
            ps == split_on(raw@, '\r'),
            ranges_within(segs@, 0, v@.len() as int),
            strings_view(out@) == clean_segments(ps.take(k as int)),
        decreases segs.len() - k,
    {
        let (lo, hi) = segs[k];
        assert(ps[k as int] == v@.subrange(lo as int, hi as int));
        assert(ps.take(k + 1).drop_last() =~= ps.take(k as int));
        let seg = copy_range(&v, lo, hi);
        let stripped = strip_chars(&seg);
        let (a, b) = trim_range(&stripped, 0, stripped.len());
        assert(stripped@.subrange(0, stripped@.len() as int) =~= stripped@);
        if a < b {
            let ghost before = strings_view(out@);
            let s = string_of_range(&stripped, a, b);
            out.push(s);
            assert(strings_view(out@) =~= before.push(s@));
        }
        k = k + 1;
    }
    assert(ps.take(k as int) =~= ps);
    out
}

// ── Laws of the install tools' output and of the install job ─────────────────

/// Stripping leaves no escape character.
pub proof fn lemma_stripped_no_escape(s: Seq<char>, i: int)
    ensures
        forall|j: int| 0 <= j < ansi_stripped(s, i).len() ==> #[trigger] ansi_stripped(s, i)[j] != '\u{1b}',
    decreases s.len() - i,
{
    if 0 <= i < s.len() {
        if s[i] == '\u{1b}' {
            let k = first_where(s, i + 1, CharClass::AsciiAlpha);
            if i < k < s.len() {
                lemma_stripped_no_escape(s, k + 1);
                assert(ansi_stripped(s, i) == ansi_stripped(s, k + 1));
            } else {
                assert(ansi_stripped(s, i) == Seq::<char>::empty());
            }
        } else {
            lemma_stripped_no_escape(s, i + 1);
            let r = ansi_stripped(s, i);
            let rest = ansi_stripped(s, i + 1);
            assert(r == seq![s[i]] + rest);
            assert forall|j: int| 0 <= j < r.len() implies #[trigger] r[j] != '\u{1b}' by {
                if j > 0 {
                    assert(r[j] == rest[j - 1]);
                }
            }
        }
    }
}

/// Text without escape characters passes through unchanged.
pub proof fn lemma_strip_plain(s: Seq<char>, i: int)
    requires
        0 <= i <= s.len(),
        forall|j: int| 0 <= j < s.len() ==> #[trigger] s[j] != '\u{1b}',
    ensures
        ansi_stripped(s, i) == s.skip(i),
    decreases s.len() - i,
{
    if i < s.len() {
        lemma_strip_plain(s, i + 1);
        assert(seq![s[i]] + s.skip(i + 1) =~= s.skip(i));
    } else {
        assert(s.skip(i) =~= Seq::<char>::empty());
    }
}

/// The lines that the log shows for a line of output are never blank.
pub proof fn lemma_terminal_lines_nonblank(ps: Seq<Seq<char>>)
    ensures
        forall|k: int| 0 <= k < clean_segments(ps).len() ==> #[trigger] clean_segments(ps)[k].len() > 0,
    decreases ps.len(),
{
    if ps.len() > 0 {
        let before = clean_segments(ps.drop_last());
        lemma_terminal_lines_nonblank(ps.drop_last());
        let r = clean_segments(ps);
        assert forall|k: int| 0 <= k < r.len() implies #[trigger] r[k].len() > 0 by {
            if k < before.len() {
                assert(r[k] == before[k]);
            }
        }
    }
}

/// An install job creates the site only after `cmk-dev-install` succeeded,
/// runs a command or finishes (never both), and reports success only when
/// `cmk-dev-site` exited successfully.
pub proof fn lemma_install_step_order(c: InstallConfigView, id: JobId, e: InstallEventView)
    ensures
        ({
            let (ms, cmd) = install_step_of(c, id, e);
            &&& cmd == Some(site_step_command_of(c)) <==> e == InstallEventView::InstallExited(true)
            &&& cmd is Some <==> !(ms.last() is Finished)
            &&& ms.len() > 0
            &&& (ms.contains(JobMessageView::Finished(id, true)) <==> e == InstallEventView::SiteExited(true))
        }),
{
    let (ms, cmd) = install_step_of(c, id, e);
    assert(install_command_of(c) != site_step_command_of(c)) by {
        reveal_strlit("cmk-dev-install");
        reveal_strlit("cmk-dev-site");
        assert(install_command_of(c)[0].len() != site_step_command_of(c)[0].len());
    }
    match e {
        InstallEventView::SiteExited(ok) => {
            assert(ms[0] == JobMessageView::Finished(id, ok));
        },
        InstallEventView::InstallFailed(_) => {
            assert(ms[1] == JobMessageView::Finished(id, false));
            assert(ms[0] != JobMessageView::Finished(id, true));
        },
        _ => {
            assert(ms[0] != JobMessageView::Finished(id, true));
        },
    }
}

/// `idx` picks `a` out of `b`: `a[k] == b[idx[k]]` at rising positions.
pub open spec fn picks(idx: Seq<int>, a: Seq<char>, b: Seq<char>) -> bool {
    &&& idx.len() == a.len()
    &&& forall|k: int| 0 <= k < idx.len() ==> 0 <= #[trigger] idx[k] < b.len() && a[k] == b[idx[k]]
    &&& forall|k: int, l: int| 0 <= k < l < idx.len() ==> #[trigger] idx[k] < #[trigger] idx[l]
}

/// `a` is a subsequence of `b`: `b` with some characters dropped, none added
/// or moved.
pub open spec fn is_subsequence(a: Seq<char>, b: Seq<char>) -> bool {
    exists|idx: Seq<int>| picks(idx, a, b)
}

/// The positions of `s`, from `i` on, that stripping keeps.
proof fn lemma_stripped_positions(s: Seq<char>, i: int) -> (idx: Seq<int>)
    requires
        0 <= i,
    ensures
        picks(idx, ansi_stripped(s, i), s),
        forall|k: int| 0 <= k < idx.len() ==> i <= #[trigger] idx[k],
    decreases s.len() - i,
{
    if i >= s.len() {
        Seq::empty()
    } else if s[i] == '\u{1b}' {
        let k = first_where(s, i + 1, CharClass::AsciiAlpha);
        if i < k < s.len() {
            lemma_stripped_positions(s, k + 1)
        } else {
            Seq::empty()
        }
    } else {
        let rest = lemma_stripped_positions(s, i + 1);
        let idx = seq![i] + rest;
        let a = ansi_stripped(s, i);
        assert(a == seq![s[i]] + ansi_stripped(s, i + 1));
        assert forall|k: int| 0 <= k < idx.len() implies 0 <= #[trigger] idx[k] < s.len() && a[k] == s[idx[k]] && i <= idx[k] by {
            if k > 0 {
                assert(idx[k] == rest[k - 1]);
                assert(a[k] == ansi_stripped(s, i + 1)[k - 1]);
            }
        }
        assert forall|k: int, l: int| 0 <= k < l < idx.len() implies #[trigger] idx[k] < #[trigger] idx[l] by {
            assert(idx[l] == rest[l - 1]);
            if k > 0 {
                assert(idx[k] == rest[k - 1]);
            }
        }
        idx
    }
}

/// What stripping escape sequences gives: no escape character is left, the
/// result is a subsequence of the input, input without escape characters
/// comes back unchanged, and stripping twice strips no more than once.
pub proof fn lemma_strip_ansi_laws(s: Seq<char>)
    ensures
        forall|j: int| 0 <= j < ansi_stripped(s, 0).len() ==> #[trigger] ansi_stripped(s, 0)[j] != '\u{1b}',
        is_subsequence(ansi_stripped(s, 0), s),
        (forall|j: int| 0 <= j < s.len() ==> #[trigger] s[j] != '\u{1b}') ==> ansi_stripped(s, 0) == s,
        ansi_stripped(ansi_stripped(s, 0), 0) == ansi_stripped(s, 0),
{
    let r = ansi_stripped(s, 0);
    lemma_stripped_no_escape(s, 0);
    let idx = lemma_stripped_positions(s, 0);
    assert(picks(idx, r, s));
    if forall|j: int| 0 <= j < s.len() ==> #[trigger] s[j] != '\u{1b}' {
        lemma_strip_plain(s, 0);
        assert(s.skip(0) =~= s);
    }
    lemma_strip_plain(r, 0);
    assert(r.skip(0) =~= r);
}

/// The job a message is about.
pub open spec fn message_job(m: JobMessageView) -> JobId {
    match m {
        JobMessageView::Output(id, _) => id,
        JobMessageView::Finished(id, _) => id,
    }
}

/// `next` is what the outside reports after the step of `prev`: the
/// outcome of the command that step ran.
pub open spec fn follows(c: InstallConfigView, id: JobId, prev: InstallEventView, next: InstallEventView) -> bool {
    match install_step_of(c, id, prev).1 {
        Some(cmd) => {
            ||| cmd == install_command_of(c) && (next is InstallExited || next is InstallFailed)
            ||| cmd == site_step_command_of(c) && (next is SiteExited || next is SiteFailed)
        },
        None => false,
    }
}

/// A whole run of an install job: it starts, each event reports the
/// outcome of the command run before it, and the last step runs nothing.
pub open spec fn is_install_run(c: InstallConfigView, id: JobId, evs: Seq<InstallEventView>) -> bool {
    &&& evs.len() > 0
    &&& evs[0] == InstallEventView::Start
    &&& forall|i: int| 0 <= i < evs.len() - 1 ==> follows(c, id, #[trigger] evs[i], evs[i + 1])
    &&& install_step_of(c, id, evs.last()).1 is None
}

/// The messages of a run of events, step after step.
pub open spec fn run_messages(c: InstallConfigView, id: JobId, evs: Seq<InstallEventView>) -> Seq<JobMessageView>
    decreases evs.len(),
{
    if evs.len() == 0 {
        Seq::empty()
    } else {
        run_messages(c, id, evs.drop_last()) + install_step_of(c, id, evs.last()).0
    }
}

/// Over a whole install job: every message is about the job, the first
/// announces `cmk-dev-install`, and exactly one message says the job
/// finished, the last one.
pub proof fn lemma_install_run(c: InstallConfigView, id: JobId, evs: Seq<InstallEventView>)
    requires
        is_install_run(c, id, evs),
    ensures
        ({
            let ms = run_messages(c, id, evs);
            &&& ms.len() > 0
            &&& forall|j: int| 0 <= j < ms.len() ==> message_job(#[trigger] ms[j]) == id
            &&& ms[0] == JobMessageView::Output(id, "→ "@ + command_text(install_command_of(c)))
            &&& ms.last() is Finished
            &&& forall|j: int| 0 <= j < ms.len() - 1 ==> !(#[trigger] ms[j] is Finished)
        }),
{
    assert(install_command_of(c) != site_step_command_of(c)) by {
        reveal_strlit("cmk-dev-install");
        reveal_strlit("cmk-dev-site");
        assert(install_command_of(c)[0].len() != site_step_command_of(c)[0].len());
    }
    // The start runs `cmk-dev-install`, so another event follows it.
    assert(evs.len() >= 2);
    assert(follows(c, id, evs[0], evs[1]));
    let e1 = evs[1];
    let m0 = install_step_of(c, id, InstallEventView::Start).0;
    let run2 = seq![InstallEventView::Start, e1];
    assert(evs.take(2) =~= run2);
    assert(run2.drop_last() =~= seq![InstallEventView::Start]);
    let run1 = seq![InstallEventView::Start];
    assert(run1.drop_last() =~= Seq::<InstallEventView>::empty());
    assert(run1.last() == InstallEventView::Start);
    assert(run_messages(c, id, run1.drop_last()) =~= Seq::<JobMessageView>::empty());
    assert(run_messages(c, id, run1) =~= m0);
    let m1 = install_step_of(c, id, e1).0;
    assert(run_messages(c, id, run2) =~= m0 + m1);
    if e1 == InstallEventView::InstallExited(true) {
        assert(evs.len() >= 3);
        assert(follows(c, id, evs[1], evs[2]));
        let e2 = evs[2];
        assert(install_step_of(c, id, e2).1 is None);
        if evs.len() > 3 {
            assert(follows(c, id, evs[2], evs[3]));
        }
        assert(evs =~= run2.push(e2));
        assert(evs.drop_last() =~= run2);
        let ms = run_messages(c, id, evs);
        assert(ms =~= m0 + m1 + install_step_of(c, id, e2).0);
    } else {
        if evs.len() > 2 {
            assert(follows(c, id, evs[1], evs[2]));
        }
        assert(evs =~= run2);
    }
}

/// An ASCII letter, the character that ends an escape sequence.
pub open spec fn is_ascii_letter(c: char) -> bool {
    ('a' <= c && c <= 'z') || ('A' <= c && c <= 'Z')
}

/// Searching behind a prefix finds what searching the rest finds, moved by
/// the prefix's length.
proof fn lemma_first_where_shift(x: Seq<char>, u: Seq<char>, j: int, k: CharClass)
    requires
        0 <= j,
    ensures
        first_where(x + u, x.len() + j, k) == x.len() + first_where(u, j, k),
    decreases u.len() - j,
{
    if j < u.len() {
        assert((x + u)[x.len() + j] == u[j]);
        lemma_first_where_shift(x, u, j + 1, k);
    }
}

/// Stripping behind a prefix strips the rest alone.
proof fn lemma_stripped_shift(x: Seq<char>, u: Seq<char>, j: int)
    requires
        0 <= j,
    ensures
        ansi_stripped(x + u, x.len() + j) == ansi_stripped(u, j),
    decreases u.len() - j,
{
    if j < u.len() {
        assert((x + u)[x.len() + j] == u[j]);
        if u[j] == '\u{1b}' {
            lemma_first_where_shift(x, u, j + 1, CharClass::AsciiAlpha);
            let k = first_where(u, j + 1, CharClass::AsciiAlpha);
            if j < k < u.len() {
                lemma_stripped_shift(x, u, k + 1);
            }
        } else {
            lemma_stripped_shift(x, u, j + 1);
        }
    }
}

/// The first ASCII letter after an escape character ends its sequence:
/// text in front of an escape passes through, an escape with parameters
/// that hold no letter and then a letter is dropped with them, and an escape
/// that no letter ends drops the rest of the text.
pub proof fn lemma_escape_ends_at_letter(c: Seq<char>, params: Seq<char>, letter: char, u: Seq<char>)
    requires
        forall|i: int| 0 <= i < c.len() ==> #[trigger] c[i] != '\u{1b}',
        forall|i: int| 0 <= i < params.len() ==> !is_ascii_letter(#[trigger] params[i]),
        is_ascii_letter(letter),
    ensures
        ansi_stripped(c + u, 0) == c + ansi_stripped(u, 0),
        ansi_stripped(seq!['\u{1b}'] + params + seq![letter] + u, 0) == ansi_stripped(u, 0),
        ansi_stripped(seq!['\u{1b}'] + params, 0) == Seq::<char>::empty(),
{
    lemma_clean_prefix(c, u, 0);
    assert(c.skip(0) =~= c);
    let e = seq!['\u{1b}'] + params + seq![letter];
    let s = e + u;
    assert(s[0] == '\u{1b}');
    lemma_first_where_letters(s, params, 1);
    assert(first_where(s, 1, CharClass::AsciiAlpha) == params.len() + 1);
    lemma_stripped_shift(e, u, 0);
    assert(s =~= e + u);
    let t = seq!['\u{1b}'] + params;
    assert(t[0] == '\u{1b}');
    lemma_first_where_none(t, 1);
}

/// Clean text from `i` on passes through stripping.
proof fn lemma_clean_prefix(c: Seq<char>, u: Seq<char>, i: int)
    requires
        0 <= i <= c.len(),
        forall|j: int| 0 <= j < c.len() ==> #[trigger] c[j] != '\u{1b}',
    ensures
        ansi_stripped(c + u, i) == c.skip(i) + ansi_stripped(u, 0),
    decreases c.len() - i,
{
    if i < c.len() {
        assert((c + u)[i] == c[i]);
        lemma_clean_prefix(c, u, i + 1);
        assert(seq![c[i]] + (c.skip(i + 1) + ansi_stripped(u, 0)) =~= c.skip(i) + ansi_stripped(u, 0));
    } else {
        lemma_stripped_shift(c, u, 0);
        assert(c.skip(i) =~= Seq::<char>::empty());
        assert(Seq::<char>::empty() + ansi_stripped(u, 0) =~= ansi_stripped(u, 0));
    }
}

/// In `s`, which holds `params` from position 1 on and a letter after
/// them, the first letter at or after `1 + i` is the one after `params`.
proof fn lemma_first_where_letters(s: Seq<char>, params: Seq<char>, i: int)
    requires
        1 <= i <= params.len() + 1,
        params.len() + 1 < s.len(),
        forall|j: int| 0 <= j < params.len() ==> s[j + 1] == params[j],
        forall|j: int| 0 <= j < params.len() ==> !is_ascii_letter(#[trigger] params[j]),
        is_ascii_letter(s[params.len() + 1int]),
    ensures
        first_where(s, i, CharClass::AsciiAlpha) == params.len() + 1,
    decreases params.len() + 1 - i,
{
    if i < params.len() + 1 {
        assert(s[i] == params[i - 1]);
        lemma_first_where_letters(s, params, i + 1);
    }
}

/// With no letter from `i` on, the search runs to the end.
proof fn lemma_first_where_none(t: Seq<char>, i: int)
    requires
        1 <= i,
        forall|j: int| 1 <= j < t.len() ==> !is_ascii_letter(#[trigger] t[j]),
    ensures
        first_where(t, i, CharClass::AsciiAlpha) == t.len() || i > t.len(),
    decreases t.len() - i,
{
    if i < t.len() {
        lemma_first_where_none(t, i + 1);
    }
}

} // verus!
