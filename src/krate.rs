//! One package's record: version resolution over its history, the location of
//! its archive in the mirror, and the choice of its description.
use vstd::prelude::*;
use crate::functions::path_parent;

verus! {

/// The canonical text of a version, or `None` where `s` is no version.
pub uninterp spec fn semver_text(s: Seq<char>) -> Option<Seq<char>>;

/// Relies on `semver::Version::parse`, which accepts exactly the SemVer
/// grammar, and on `Display for semver::Version`, which writes the parsed
/// version back; the result depends on the text alone.
#[verifier::external_body]
pub(crate) fn parse_version(s: &str) -> (r: Option<String>)
    ensures
        match r {
            Some(t) => semver_text(s@) == Some(t@),
            None => semver_text(s@) is None,
        },
{
    semver::Version::parse(s).ok().map(|v| v.to_string())
}

/// Copies an optional string.
pub fn clone_option(o: &Option<String>) -> (r: Option<String>)
    ensures
        r == *o,
{
    match o {
        Some(s) => Some(s.clone()),
        None => None,
    }
}

/// The view of an optional string.
pub open spec fn opt_view(o: Option<String>) -> Option<Seq<char>> {
    match o {
        Some(s) => Some(s@),
        None => None,
    }
}

/// A package and what the index keeps of it.
#[derive(Debug, Clone)]
pub struct Crate {
    pub name: String,
    pub description: Option<String>,
    /// The most recent version that was not yanked.
    pub latest_ny: Option<String>,
    /// The most recent yanked version, if one came after every non-yanked one.
    pub latest: Option<String>,
}

impl Crate {
    /// Resolves a package's record from its history entries, most recent
    /// first; the record has no description yet.
    pub fn new(entries: &Vec<HistoryEntry>) -> (r: Result<Crate, HistoryError>)
        ensures
            match (r, resolve_history(entries@)) {
                (Ok(c), Ok((n, ny, y))) => c.name@ == n && c.description is None
                    && opt_view(c.latest_ny) == ny && opt_view(c.latest) == y,
                (Err(e1), Err(e2)) => e1 == e2,
                _ => false,
            },
    {
        let mut scan = HistoryScan::new();
        let mut i: usize = 0;
        assert(entries@.subrange(0, entries@.len() as int) =~= entries@);
        while i < entries.len()
            invariant
                i <= entries@.len(),
                scan_run(scan_start(), entries@) == scan_run(scan@, entries@.subrange(i as int, entries@.len() as int)),
            decreases entries@.len() - i,
        {
            let _ = scan.feed(&entries[i]);
            assert(entries@.subrange(i as int, entries@.len() as int).drop_first()
                =~= entries@.subrange(i + 1, entries@.len() as int));
            i += 1;
        }
        assert(entries@.subrange(i as int, entries@.len() as int) =~= Seq::<HistoryEntry>::empty());
        scan.finish()
    }

    /// A copy of the record.
    pub fn duplicate(&self) -> (r: Crate)
        ensures
            r == *self,
    {
        Crate {
            name: self.name.clone(),
            description: clone_option(&self.description),
            latest_ny: clone_option(&self.latest_ny),
            latest: clone_option(&self.latest),
        }
    }

    /// A record is valid when it has a name and at least one version.
    pub open spec fn wf(&self) -> bool {
        self.name@.len() > 0 && (self.latest_ny is Some || self.latest is Some)
    }

    /// The version used to find the archive: the latest non-yanked one,
    /// else the latest yanked one.
    pub open spec fn archive_version(&self) -> Seq<char> {
        match self.latest_ny {
            Some(v) => v@,
            None => self.latest.unwrap()@,
        }
    }
}

/// One line of a package's metadata file.
#[derive(Debug, Clone)]
pub struct HistoryEntry {
    pub name: String,
    /// The version as written in the file.
    pub vers: String,
    pub yanked: bool,
}

/// Why a package's history gives no record.
#[derive(Debug, Clone, Copy, PartialEq, Eq, Structural)]
pub enum HistoryError {
    /// An entry before the end of the scan holds no valid version.
    InvalidVersion,
    /// The scan met no entry, so there is neither a name nor a version.
    NoName,
    /// The scan gave a name but no version.
    NoVersion,
}

/// What a scan has gathered so far.
pub struct ScanState {
    pub name: Option<Seq<char>>,
    pub latest_ny: Option<Seq<char>>,
    pub latest: Option<Seq<char>>,
    pub stopped: bool,
    pub failed: bool,
}

/// The state before the first entry.
pub open spec fn scan_start() -> ScanState {
    ScanState { name: None, latest_ny: None, latest: None, stopped: false, failed: false }
}

/// One entry of the reverse scan: the first name seen is kept, the first
/// yanked version is kept, and the first non-yanked version ends the scan.
pub open spec fn scan_step(st: ScanState, e: HistoryEntry) -> ScanState {
    if st.stopped || st.failed {
        st
    } else {
        match semver_text(e.vers@) {
            None => ScanState { failed: true, ..st },
            Some(v) => {
                let name = if st.name is None { Some(e.name@) } else { st.name };
                if e.yanked {
                    let latest = if st.latest is None { Some(v) } else { st.latest };
                    ScanState { name, latest, ..st }
                } else {
                    ScanState { name, latest_ny: Some(v), stopped: true, ..st }
                }
            },
        }
    }
}

/// The state after the entries `es`, taken in order.
pub open spec fn scan_run(st: ScanState, es: Seq<HistoryEntry>) -> ScanState
    decreases es.len(),
{
    if es.len() == 0 {
        st
    } else {
        scan_run(scan_step(st, es[0]), es.drop_first())
    }
}

/// The record (name, latest non-yanked, latest yanked) that a finished
/// scan gives, or its error.
pub open spec fn scan_result(st: ScanState) -> Result<(Seq<char>, Option<Seq<char>>, Option<Seq<char>>), HistoryError> {
    if st.failed {
        Err(HistoryError::InvalidVersion)
    } else if st.name is None {
        Err(HistoryError::NoName)
    } else if st.latest_ny is None && st.latest is None {
        Err(HistoryError::NoVersion)
    } else {
        Ok((st.name.unwrap(), st.latest_ny, st.latest))
    }
}

/// The record resolved from entries given most recent first.
pub open spec fn resolve_history(es: Seq<HistoryEntry>) -> Result<(Seq<char>, Option<Seq<char>>, Option<Seq<char>>), HistoryError> {
    scan_result(scan_run(scan_start(), es))
}

/// A scan of a package's history, fed one entry at a time from the end of
/// the file toward its beginning.
pub struct HistoryScan {
    name: Option<String>,
    latest_ny: Option<String>,
    latest: Option<String>,
    stopped: bool,
    failed: bool,
}

impl View for HistoryScan {
    type V = ScanState;

    closed spec fn view(&self) -> ScanState {
        ScanState {
            name: opt_view(self.name),
            latest_ny: opt_view(self.latest_ny),
            latest: opt_view(self.latest),
            stopped: self.stopped,
            failed: self.failed,
        }
    }
}

impl HistoryScan {
    pub fn new() -> (r: HistoryScan)
        ensures
            r@ == scan_start(),
    {
        HistoryScan { name: None, latest_ny: None, latest: None, stopped: false, failed: false }
    }

    /// Takes the next entry; returns whether the scan wants more.
    pub fn feed(&mut self, e: &HistoryEntry) -> (more: bool)
        ensures
            final(self)@ == scan_step(old(self)@, *e),
            more == !(final(self)@.stopped || final(self)@.failed),
    {
        if self.stopped || self.failed {
            return false;
        }
        match parse_version(e.vers.as_str()) {
            None => {
                self.failed = true;
                false
            },
            Some(v) => {
                if self.name.is_none() {
                    self.name = Some(e.name.clone());
                }
                if e.yanked {
                    if self.latest.is_none() {
                        self.latest = Some(v);
                    }
                    true
                } else {
                    self.latest_ny = Some(v);
                    self.stopped = true;
                    false
                }
            },
        }
    }

    /// The record that the scan gives.
    pub fn finish(self) -> (r: Result<Crate, HistoryError>)
        ensures
            match (r, scan_result(self@)) {
                (Ok(c), Ok((n, ny, y))) => c.name@ == n && c.description is None
                    && opt_view(c.latest_ny) == ny && opt_view(c.latest) == y,
                (Err(e1), Err(e2)) => e1 == e2,
                _ => false,
            },
    {
        if self.failed {
            return Err(HistoryError::InvalidVersion);
        }
        match self.name {
            None => Err(HistoryError::NoName),
            Some(name) => {
                if self.latest_ny.is_none() && self.latest.is_none() {
                    Err(HistoryError::NoVersion)
                } else {
                    Ok(Crate { name, description: None, latest_ny: self.latest_ny, latest: self.latest })
                }
            },
        }
    }
}

/// Entries that are yanked and hold valid versions.
pub open spec fn all_yanked_valid(es: Seq<HistoryEntry>) -> bool {
    forall|i: int| 0 <= i < es.len() ==> (#[trigger] es[i]).yanked && semver_text(es[i].vers@) is Some
}

/// A stopped or failed scan takes no more entries.
proof fn lemma_run_after_stop(st: ScanState, es: Seq<HistoryEntry>)
    requires
        st.stopped || st.failed,
    ensures
        scan_run(st, es) == st,
    decreases es.len(),
{
    if es.len() > 0 {
        lemma_run_after_stop(scan_step(st, es[0]), es.drop_first());
    }
}

proof fn lemma_run_to_non_yanked(st: ScanState, ys: Seq<HistoryEntry>, e: HistoryEntry, rest: Seq<HistoryEntry>)
    requires
        !st.stopped && !st.failed,
        all_yanked_valid(ys),
        !e.yanked,
        semver_text(e.vers@) is Some,
    ensures
        scan_run(st, ys + seq![e] + rest) == scan_run(st, ys + seq![e]),
        scan_run(st, ys + seq![e]).latest_ny == semver_text(e.vers@),
        !scan_run(st, ys + seq![e]).failed,
        scan_run(st, ys + seq![e]).name is Some,
    decreases ys.len(),
{
    if ys.len() == 0 {
        assert(ys + seq![e] + rest =~= seq![e] + rest);
        assert((seq![e] + rest).drop_first() =~= rest);
        assert(ys + seq![e] =~= seq![e]);
        assert(seq![e].drop_first() =~= Seq::<HistoryEntry>::empty());
        assert((seq![e] + rest)[0] == e);
        assert(scan_run(st, seq![e] + rest) == scan_run(scan_step(st, e), rest));
        assert(scan_run(st, seq![e]) == scan_run(scan_step(st, e), Seq::<HistoryEntry>::empty()));
        lemma_run_after_stop(scan_step(st, e), rest);
    } else {
        let nst = scan_step(st, ys[0]);
        assert((ys + seq![e] + rest).drop_first() =~= ys.drop_first() + seq![e] + rest);
        assert((ys + seq![e]).drop_first() =~= ys.drop_first() + seq![e]);
        assert((ys + seq![e] + rest)[0] == ys[0]);
        assert((ys + seq![e])[0] == ys[0]);
        assert forall|i: int| 0 <= i < ys.drop_first().len() implies (#[trigger] ys.drop_first()[i]).yanked
            && semver_text(ys.drop_first()[i].vers@) is Some by {
            assert(ys.drop_first()[i] == ys[i + 1]);
        }
        assert(ys[0].yanked && semver_text(ys[0].vers@) is Some);
        lemma_run_to_non_yanked(nst, ys.drop_first(), e, rest);
    }
}

/// Scanning most recent first, the first non-yanked entry gives the latest
/// non-yanked version, and nothing older than it changes the record.
pub proof fn lemma_non_yanked_ends_scan(ys: Seq<HistoryEntry>, e: HistoryEntry, rest: Seq<HistoryEntry>)
    requires
        all_yanked_valid(ys),
        !e.yanked,
        semver_text(e.vers@) is Some,
    ensures
        resolve_history(ys + seq![e] + rest) == resolve_history(ys + seq![e]),
        resolve_history(ys + seq![e]) is Ok,
        resolve_history(ys + seq![e]).unwrap().1 == semver_text(e.vers@),
{
    lemma_run_to_non_yanked(scan_start(), ys, e, rest);
}

proof fn lemma_run_all_yanked(st: ScanState, es: Seq<HistoryEntry>)
    requires
        !st.stopped && !st.failed,
        st.latest_ny is None,
        all_yanked_valid(es),
    ensures
        !scan_run(st, es).failed,
        scan_run(st, es).latest_ny is None,
        scan_run(st, es).name == if st.name is None && es.len() > 0 { Some(es[0].name@) } else { st.name },
        scan_run(st, es).latest == if st.latest is None && es.len() > 0 { semver_text(es[0].vers@) } else { st.latest },
    decreases es.len(),
{
    if es.len() > 0 {
        assert forall|i: int| 0 <= i < es.drop_first().len() implies (#[trigger] es.drop_first()[i]).yanked
            && semver_text(es.drop_first()[i].vers@) is Some by {
            assert(es.drop_first()[i] == es[i + 1]);
        }
        assert(es[0].yanked && semver_text(es[0].vers@) is Some);
        lemma_run_all_yanked(scan_step(st, es[0]), es.drop_first());
    }
}

/// A history of yanked entries only has no latest non-yanked version, and
/// its latest yanked version is that of the most recent entry.
pub proof fn lemma_only_yanked(es: Seq<HistoryEntry>)
    requires
        es.len() > 0,
        all_yanked_valid(es),
    ensures
        resolve_history(es) == Ok::<(Seq<char>, Option<Seq<char>>, Option<Seq<char>>), HistoryError>(
            (es[0].name@, None, semver_text(es[0].vers@))),
{
    assert(es[0].yanked && semver_text(es[0].vers@) is Some);
    lemma_run_all_yanked(scan_start(), es);
}

/// How many components above the metadata file the mirror's root lies.
pub open spec fn levels_up(name: Seq<char>) -> nat {
    if name.len() <= 2 { 3 } else { 4 }
}

/// The shard directories for a name, under the archive root.
pub open spec fn shard(name: Seq<char>) -> Seq<Seq<char>> {
    if name.len() == 1 {
        seq!["1"@, name.subrange(0, 1)]
    } else if name.len() == 2 {
        seq!["2"@, name]
    } else if name.len() == 3 {
        seq!["3"@, name.subrange(0, 1)]
    } else {
        seq![name.subrange(0, 2), name.subrange(2, 4)]
    }
}

/// The archive's path, from the metadata file's path, the name and the version.
pub open spec fn archive_path(index_file: Seq<Seq<char>>, name: Seq<char>, version: Seq<char>) -> Seq<Seq<char>> {
    index_file.subrange(0, index_file.len() - levels_up(name)) + seq!["crates"@] + shard(name)
        + seq![name, version, name + "-"@ + version + ".crate"@]
}

/// The views of a sequence of strings.
pub open spec fn views(v: Seq<String>) -> Seq<Seq<char>> {
    v.map_values(|s: String| s@)
}

/// A string made of a part of `s`.
fn part(s: &String, from: usize, to: usize) -> (r: String)
    requires
        from <= to <= s@.len(),
    ensures
        r@ == s@.subrange(from as int, to as int),
{
    String::from_str(s.as_str().substring_char(from, to))
}

/// Pushes `s` on `v`.
fn push_view(v: &mut Vec<String>, s: String)
    ensures
        views(final(v)@) == views(old(v)@).push(s@),
{
    v.push(s);
    assert(views(final(v)@) =~= views(old(v)@).push(s@));
}

impl Crate {
    /// The archive of the record's version in the mirror, from the path of
    /// its metadata file, and that version.
    pub fn crate_file_and_version(&self, index_file: &Vec<String>) -> (r: (Vec<String>, String))
        requires
            self.wf(),
            index_file@.len() >= levels_up(self.name@),
        ensures
            r.1@ == self.archive_version(),
            views(r.0@) == archive_path(views(index_file@), self.name@, self.archive_version()),
    {
        let version = match &self.latest_ny {
            Some(v) => v.clone(),
            None => match &self.latest {
                Some(v) => v.clone(),
                None => String::new(),
            },
        };
        let n = self.name.as_str().unicode_len();
        let levels: usize = if n <= 2 { 3 } else { 4 };
        let mut r = path_parent(index_file, levels);
        assert(views(r@) =~= views(index_file@).subrange(0, index_file@.len() - levels_up(self.name@)));
        push_view(&mut r, String::from_str("crates"));
        if n == 1 {
            push_view(&mut r, String::from_str("1"));
            push_view(&mut r, part(&self.name, 0, 1));
        } else if n == 2 {
            push_view(&mut r, String::from_str("2"));
            push_view(&mut r, part(&self.name, 0, 2));
            assert(self.name@.subrange(0, 2) =~= self.name@);
        } else if n == 3 {
            push_view(&mut r, String::from_str("3"));
            push_view(&mut r, part(&self.name, 0, 1));
        } else {
            push_view(&mut r, part(&self.name, 0, 2));
            push_view(&mut r, part(&self.name, 2, 4));
        }
        push_view(&mut r, self.name.clone());
        push_view(&mut r, version.clone());
        let mut file = self.name.clone();
        file.append("-");
        file.append(version.as_str());
        file.append(".crate");
        push_view(&mut r, file);
        assert(views(r@) =~= archive_path(views(index_file@), self.name@, self.archive_version()));
        (r, version)
    }

    /// Sets the description from the manifest, where it gives one.
    pub fn add_description(&mut self, description: Option<String>)
        ensures
            final(self).name == old(self).name,
            final(self).latest_ny == old(self).latest_ny,
            final(self).latest == old(self).latest,
            final(self).description == match description {
                Some(d) => Some(d),
                None => old(self).description,
            },
    {
        if let Some(d) = description {
            self.description = Some(d);
        }
    }
}

/// Whether `path`, inside a package's archive, is its manifest:
/// `<name>-<version>/Cargo.toml`, or the same in lower case.
pub fn is_manifest_path(path: &str, name: &str, version: &str) -> (r: bool)
    ensures
        r == (path@ == name@ + "-"@ + version@ + "/Cargo.toml"@ || path@ == name@ + "-"@ + version@ + "/cargo.toml"@),
{
    let mut upper = String::from_str(name);
    upper.append("-");
    upper.append(version);
    let mut lower = upper.clone();
    upper.append("/Cargo.toml");
    lower.append("/cargo.toml");
    let p = String::from_str(path);
    p == upper || p == lower
}

/// What a reading of the manifest under one section name gave: `None` where
/// the text does not have that shape, else the section's optional
/// description.
pub type ShapeReading = Option<Option<String>>;

/// The description of a manifest: that of the `package` section where the
/// text has that shape, else that of the legacy `project` section, else
/// none.
pub fn manifest_description(package: ShapeReading, project: ShapeReading) -> (r: Option<String>)
    ensures
        r == match package {
            Some(d) => d,
            None => match project {
                Some(d) => d,
                None => None,
            },
        },
{
    match package {
        Some(d) => d,
        None => match project {
            Some(d) => d,
            None => None,
        },
    }
}

} // verus!
