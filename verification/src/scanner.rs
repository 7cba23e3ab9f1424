//! Decisions of a library scan: which walked files are audio files, whether
//! a file needs importing, the running counts, which rows are gone, and the
//! summary printed at the end.
use vstd::prelude::*;

use vstd::hash_set::StringHashSet;

use crate::text::{ascii_lower, ascii_lower_chars, chars_of, decimal, lowercase_equals, u64_to_decimal};

verus! {

broadcast use vstd::string::group_string_axioms;

/// Extensions (in lower case) of the files that a scan imports.
pub open spec fn audio_extensions() -> Seq<Seq<char>> {
    seq![
        "mp3"@,
        "flac"@,
        "ogg"@,
        "oga"@,
        "opus"@,
        "m4a"@,
        "m4b"@,
        "mp4"@,
        "aac"@,
        "wav"@,
        "aiff"@,
        "aif"@,
        "wv"@,
        "ape"@,
        "mka"@,
    ]
}

/// The audio extensions, in order.
pub fn audio_extension_list() -> (v: Vec<&'static str>)
    ensures
        v@.len() == audio_extensions().len(),
        forall|i: int| 0 <= i < v@.len() ==> (#[trigger] v@[i])@ == audio_extensions()[i],
{
    vec![
        "mp3",
        "flac",
        "ogg",
        "oga",
        "opus",
        "m4a",
        "m4b",
        "mp4",
        "aac",
        "wav",
        "aiff",
        "aif",
        "wv",
        "ape",
        "mka",
    ]
}

/// The index of the last `c` in `s`.
pub open spec fn find_last(s: Seq<char>, c: char) -> Option<int>
    decreases s.len(),
{
    if s.len() == 0 {
        None
    } else if s.last() == c {
        Some(s.len() - 1)
    } else {
        find_last(s.drop_last(), c)
    }
}

/// The extension of a file name, as `Path::extension` reads it: what follows
/// the last `.`, unless there is none, the name starts with its only `.`,
/// or the name is `..`.
pub open spec fn extension_of(name: Seq<char>) -> Option<Seq<char>> {
    if name == seq!['.', '.'] {
        None
    } else {
        match find_last(name, '.') {
            None => None,
            Some(k) => if k == 0 {
                None
            } else {
                Some(name.skip(k + 1))
            },
        }
    }
}

proof fn lemma_find_last_after(a: Seq<char>, b: Seq<char>)
    requires
        forall|j: int| 0 <= j < b.len() ==> b[j] != '.',
    ensures
        find_last(a + seq!['.'] + b, '.') == Some(a.len() as int),
    decreases b.len(),
{
    let s = a + seq!['.'] + b;
    if b.len() == 0 {
        assert(s.last() == '.');
    } else {
        lemma_find_last_after(a, b.drop_last());
        assert(s.drop_last() =~= a + seq!['.'] + b.drop_last());
        assert(s.last() == b.last());
    }
}

/// The extensions of audio files, in lower case.
pub open spec fn is_audio_extension(ext: Seq<char>) -> bool {
        ||| ext == "mp3"@
        ||| ext == "flac"@
        ||| ext == "ogg"@
        ||| ext == "oga"@
        ||| ext == "opus"@
        ||| ext == "m4a"@
        ||| ext == "m4b"@
        ||| ext == "mp4"@
        ||| ext == "aac"@
        ||| ext == "wav"@
        ||| ext == "aiff"@
        ||| ext == "aif"@
        ||| ext == "wv"@
        ||| ext == "ape"@
        ||| ext == "mka"@
}

/// Files are imported by these extensions, in any ASCII case: for every
/// name that is not empty, `name.ext` is an audio file for `ext` among mp3,
/// flac, ogg, oga, opus, m4a, m4b, mp4, aac, wav, aiff, aif, wv, ape and mka;
/// and an audio file's extension, in lower case, is always one of them.
pub proof fn lemma_audio_extensions_accepted(name: Seq<char>, ext: Seq<char>)
    ensures
        name.len() > 0 && is_audio_extension(ext) ==> is_audio_name(name + seq!['.'] + ext),
        is_audio_name(name) ==> (extension_of(name) matches Some(e) && is_audio_extension(
            ascii_lower_chars(e),
        )),
{
    reveal_strlit("mp3");
    reveal_strlit("flac");
    reveal_strlit("ogg");
    reveal_strlit("oga");
    reveal_strlit("opus");
    reveal_strlit("m4a");
    reveal_strlit("m4b");
    reveal_strlit("mp4");
    reveal_strlit("aac");
    reveal_strlit("wav");
    reveal_strlit("aiff");
    reveal_strlit("aif");
    reveal_strlit("wv");
    reveal_strlit("ape");
    reveal_strlit("mka");
    if name.len() > 0 && is_audio_extension(ext) {
        let s = name + seq!['.'] + ext;
        assert forall|j: int| 0 <= j < ext.len() implies ext[j] != '.' && ascii_lower(ext[j])
            == ext[j] by {
            let c = ext[j];
            assert((c as u32) < 65 || (c as u32) > 90);
        }
        lemma_find_last_after(name, ext);
        assert(s.len() != 2);
        assert(s.skip(name.len() as int + 1) =~= ext);
        assert(extension_of(s) == Some(ext));
        assert(ascii_lower_chars(ext) =~= ext);
        assert(audio_extensions().contains(ext));
    }
    if is_audio_name(name) {
        let e = extension_of(name)->Some_0;
        let l = ascii_lower_chars(e);
        let i = choose|i: int| 0 <= i < audio_extensions().len() && audio_extensions()[i] == l;
        assert(audio_extensions()[i] == l);
    }
}

/// Whether a file with this name is imported: its extension, in ASCII lower
/// case, is one of the audio extensions.
pub open spec fn is_audio_name(name: Seq<char>) -> bool {
    match extension_of(name) {
        Some(e) => audio_extensions().contains(ascii_lower_chars(e)),
        None => false,
    }
}

proof fn lemma_lower_dot(c: char)
    ensures
        (ascii_lower(c) == '.') == (c == '.'),
        ascii_lower(ascii_lower(c)) == ascii_lower(c),
{
    let x = c as u32;
    if 65 <= x <= 90 {
        let l = ((x + 32) as char);
        assert((l as u32) == x + 32);
    }
}

proof fn lemma_find_last_bounds(s: Seq<char>, c: char)
    ensures
        find_last(s, c) matches Some(k) ==> 0 <= k < s.len() && s[k] == c,
    decreases s.len(),
{
    if s.len() > 0 {
        lemma_find_last_bounds(s.drop_last(), c);
    }
}

proof fn lemma_find_last_lower(s: Seq<char>)
    ensures
        find_last(ascii_lower_chars(s), '.') == find_last(s, '.'),
    decreases s.len(),
{
    if s.len() > 0 {
        lemma_lower_dot(s.last());
        assert(ascii_lower_chars(s).drop_last() =~= ascii_lower_chars(s.drop_last()));
        lemma_find_last_lower(s.drop_last());
    }
}

/// Whether a name is an audio file's does not depend on the case of its
/// ASCII letters.
pub proof fn lemma_audio_name_case_insensitive(name: Seq<char>)
    ensures
        is_audio_name(ascii_lower_chars(name)) == is_audio_name(name),
{
    let l = ascii_lower_chars(name);
    lemma_find_last_lower(name);
    lemma_find_last_bounds(name, '.');
    if name.len() == 2 {
        lemma_lower_dot(name[0]);
        lemma_lower_dot(name[1]);
        if l == seq!['.', '.'] {
            assert(l[0] == '.' && l[1] == '.');
            assert(name =~= seq!['.', '.']);
        }
        if name == seq!['.', '.'] {
            assert(l =~= seq!['.', '.']);
        }
    } else {
        assert(l.len() != 2);
    }
    match find_last(name, '.') {
        Some(k) => {
            if k != 0 && name != seq!['.', '.'] {
                let e = name.skip(k + 1);
                assert(l.skip(k + 1) =~= ascii_lower_chars(e));
                assert forall|i: int| 0 <= i < e.len() implies ascii_lower(
                    ascii_lower_chars(e)[i],
                ) == ascii_lower_chars(e)[i] by {
                    lemma_lower_dot(e[i]);
                }
                assert(ascii_lower_chars(ascii_lower_chars(e)) =~= ascii_lower_chars(e));
            }
        },
        None => {},
    }
}

/// Whether the file named `file_name` is an audio file that a scan imports.
pub fn is_audio_file_name(file_name: &str) -> (b: bool)
    ensures
        b == is_audio_name(file_name@),
{
    let cs = chars_of(file_name);
    let n = cs.len();
    if n == 2 && cs[0] == '.' && cs[1] == '.' {
        proof {
            assert(file_name@ =~= seq!['.', '.']);
        }
        return false;
    }
    proof {
        if file_name@ == seq!['.', '.'] {
            assert(file_name@[0] == '.' && file_name@[1] == '.');
        }
    }
    let mut k: usize = n;
    proof {
        assert(file_name@.take(n as int) =~= file_name@);
    }
    while k > 0 && cs[k - 1] != '.'
        invariant
            cs@ == file_name@,
            n == cs@.len(),
            k <= n,
            find_last(file_name@, '.') == find_last(file_name@.take(k as int), '.'),
        decreases k,
    {
        proof {
            assert(file_name@.take(k as int).drop_last() =~= file_name@.take(k - 1));
        }
        k = k - 1;
    }
    if k <= 1 {
        // no dot at all, or the only dot starts the name
        proof {
            if k == 1 {
                assert(file_name@.take(1).last() == '.');
            }
        }
        return false;
    }
    proof {
        assert(file_name@.take(k as int).last() == '.');
        assert(find_last(file_name@, '.') == Some(k - 1));
    }
    let mut ext: Vec<char> = Vec::new();
    let mut i: usize = k;
    while i < n
        invariant
            cs@ == file_name@,
            n == cs@.len(),
            k <= i <= n,
            ext@ == file_name@.subrange(k as int, i as int),
        decreases n - i,
    {
        ext.push(cs[i]);
        i = i + 1;
    }
    proof {
        assert(ext@ =~= file_name@.skip(k as int));
        assert(extension_of(file_name@) == Some(ext@));
    }
    let exts = audio_extension_list();
    let mut j: usize = 0;
    while j < exts.len()
        invariant
            exts@.len() == audio_extensions().len(),
            forall|i: int| 0 <= i < exts@.len() ==> (#[trigger] exts@[i])@ == audio_extensions()[i],
            j <= exts@.len(),
            extension_of(file_name@) == Some(ext@),
            forall|i: int| 0 <= i < j ==> audio_extensions()[i] != ascii_lower_chars(ext@),
        decreases exts@.len() - j,
    {
        if lowercase_equals(&ext, exts[j]) {
            proof {
                assert(audio_extensions()[j as int] == ascii_lower_chars(ext@));
                assert(audio_extensions().contains(ascii_lower_chars(ext@)));
            }
            return true;
        }
        j = j + 1;
    }
    false
}

/// A file that could not be imported, and why.
pub struct ScanFailure {
    pub path: String,
    pub reason: String,
}

/// The counts of one scan.
pub struct ScanStats {
    pub seen: u64,
    pub inserted: u64,
    pub updated: u64,
    pub unchanged: u64,
    pub removed: u64,
    pub failed: u64,
    pub failures: Vec<ScanFailure>,
}

impl Default for ScanStats {
    fn default() -> (s: Self)
        ensures
            s.seen == 0 && s.inserted == 0 && s.updated == 0 && s.unchanged == 0 && s.removed == 0
                && s.failed == 0 && s.failures@.len() == 0,
    {
        ScanStats {
            seen: 0,
            inserted: 0,
            updated: 0,
            unchanged: 0,
            removed: 0,
            failed: 0,
            failures: Vec::new(),
        }
    }
}

/// How importing one audio file went.
pub enum ScanResult {
    Inserted,
    Updated,
    Unchanged,
}

/// A scan in progress: its counts, the set of paths of the audio files
/// seen so far, the path of the one that awaits the result of its import,
/// and how many errors the directory walk reported.
pub struct ScanProgress {
    pub stats: ScanStats,
    pub seen_paths: StringHashSet,
    pub current: Option<String>,
    pub walk_errors: u64,
}

impl ScanProgress {
    /// Whether a seen audio file awaits the result of its import.
    pub open spec fn pending(&self) -> bool {
        self.current is Some
    }

    /// Every seen audio file is counted once as inserted, updated, unchanged
    /// or failed (but for one awaiting its import, whose path is recorded);
    /// the failed count is the recorded failures plus the walk errors.
    pub open spec fn wf(&self) -> bool {
        &&& (self.current matches Some(p) ==> self.seen_paths@.contains(p@))
        &&& self.stats.inserted + self.stats.updated + self.stats.unchanged
            + self.stats.failures@.len() + (if self.pending() {
            1int
        } else {
            0int
        }) == self.stats.seen
        &&& self.stats.failed == self.stats.failures@.len() + self.walk_errors
        &&& self.stats.removed == 0
    }

    /// No counter is at its maximum, so one more event can be counted.
    pub open spec fn can_count(&self) -> bool {
        &&& self.stats.seen < u64::MAX
        &&& self.stats.failed < u64::MAX
    }

    pub fn new() -> (p: ScanProgress)
        ensures
            p.wf(),
            !p.pending(),
            p.walk_errors == 0,
            p.stats.seen == 0 && p.stats.inserted == 0 && p.stats.updated == 0
                && p.stats.unchanged == 0 && p.stats.removed == 0 && p.stats.failed == 0,
            p.stats.failures@.len() == 0,
            p.seen_paths@ == Set::<Seq<char>>::empty(),
    {
        ScanProgress {
            stats: ScanStats::default(),
            seen_paths: StringHashSet::new(),
            current: None,
            walk_errors: 0,
        }
    }

    pub fn has_room(&self) -> (b: bool)
        ensures
            b == self.can_count(),
    {
        self.stats.seen < u64::MAX && self.stats.failed < u64::MAX
    }

    /// Whether the last seen audio file still awaits the result of its import.
    pub fn awaiting_import(&self) -> (b: bool)
        ensures
            b == self.pending(),
    {
        self.current.is_some()
    }

    /// Whether an audio file at `path` was seen.
    pub fn has_seen(&self, path: &str) -> (b: bool)
        ensures
            b == self.seen_paths@.contains(path@),
    {
        self.seen_paths.contains(path)
    }

    /// The directory walk reported an error: it counts as a failure.
    pub fn on_walk_error(&mut self)
        requires
            old(self).wf(),
            old(self).can_count(),
            !old(self).pending(),
        ensures
            final(self).wf(),
            !final(self).pending(),
            final(self).walk_errors == old(self).walk_errors + 1,
            final(self).stats.failed == old(self).stats.failed + 1,
            final(self).stats.seen == old(self).stats.seen,
            final(self).stats.inserted == old(self).stats.inserted,
            final(self).stats.updated == old(self).stats.updated,
            final(self).stats.unchanged == old(self).stats.unchanged,
            final(self).stats.removed == old(self).stats.removed,
            final(self).stats.failures@ == old(self).stats.failures@,
            final(self).seen_paths@ == old(self).seen_paths@,
    {
        self.stats.failed = self.stats.failed + 1;
        self.walk_errors = self.walk_errors + 1;
    }

    /// The walk reached an entry. A regular file with an audio extension is
    /// seen: it is counted, its path is recorded, it awaits its import, and
    /// the answer is `true`, asking for it to be imported. Anything else is
    /// passed over.
    pub fn on_entry(&mut self, is_file: bool, file_name: &str, path: String) -> (import: bool)
        requires
            old(self).wf(),
            old(self).can_count(),
            !old(self).pending(),
        ensures
            final(self).wf(),
            import == (is_file && is_audio_name(file_name@)),
            final(self).pending() == import,
            import ==> final(self).current == Some(path),
            final(self).stats.seen == old(self).stats.seen + (if import {
                1int
            } else {
                0int
            }),
            final(self).seen_paths@ == if import {
                old(self).seen_paths@.insert(path@)
            } else {
                old(self).seen_paths@
            },
            final(self).walk_errors == old(self).walk_errors,
            final(self).stats.inserted == old(self).stats.inserted,
            final(self).stats.updated == old(self).stats.updated,
            final(self).stats.unchanged == old(self).stats.unchanged,
            final(self).stats.removed == old(self).stats.removed,
            final(self).stats.failed == old(self).stats.failed,
            final(self).stats.failures@ == old(self).stats.failures@,
    {
        if !is_file {
            return false;
        }
        if !is_audio_file_name(file_name) {
            return false;
        }
        self.stats.seen = self.stats.seen + 1;
        self.seen_paths.insert(path.clone());
        self.current = Some(path);
        true
    }

    /// Importing the last seen audio file ended with `result`: the matching
    /// counter goes up; an error is counted as failed and recorded with the
    /// file's path and the reason.
    pub fn on_imported(&mut self, result: Result<ScanResult, String>)
        requires
            old(self).wf(),
            old(self).can_count(),
            old(self).pending(),
        ensures
            final(self).wf(),
            !final(self).pending(),
            final(self).walk_errors == old(self).walk_errors,
            final(self).stats.seen == old(self).stats.seen,
            final(self).stats.removed == old(self).stats.removed,
            final(self).seen_paths@ == old(self).seen_paths@,
            final(self).stats.inserted == old(self).stats.inserted + (if result
                is Ok && result->Ok_0 is Inserted {
                1int
            } else {
                0int
            }),
            final(self).stats.updated == old(self).stats.updated + (if result is Ok
                && result->Ok_0 is Updated {
                1int
            } else {
                0int
            }),
            final(self).stats.unchanged == old(self).stats.unchanged + (if result is Ok
                && result->Ok_0 is Unchanged {
                1int
            } else {
                0int
            }),
            match result {
                Ok(_) => {
                    &&& final(self).stats.failed == old(self).stats.failed
                    &&& final(self).stats.failures@ == old(self).stats.failures@
                },
                Err(reason) => {
                    &&& final(self).stats.failed == old(self).stats.failed + 1
                    &&& final(self).stats.failures@.len() == old(self).stats.failures@.len() + 1
                    &&& final(self).stats.failures@.drop_last() == old(self).stats.failures@
                    &&& old(self).current matches Some(p) && final(self).stats.failures@.last().path
                        == p
                    &&& final(self).stats.failures@.last().reason == reason
                },
            },
    {
        let path = match self.current.take() {
            Some(p) => p,
            None => String::new(),
        };
        match result {
            Ok(ScanResult::Inserted) => {
                self.stats.inserted = self.stats.inserted + 1;
            },
            Ok(ScanResult::Updated) => {
                self.stats.updated = self.stats.updated + 1;
            },
            Ok(ScanResult::Unchanged) => {
                self.stats.unchanged = self.stats.unchanged + 1;
            },
            Err(reason) => {
                self.stats.failed = self.stats.failed + 1;
                self.stats.failures.push(ScanFailure { path, reason });
                proof {
                    assert(self.stats.failures@.drop_last() =~= old(self).stats.failures@);
                }
            },
        }
    }

    /// Ends the scan, with the number of rows removed because their file was
    /// not seen. Every seen audio file is counted exactly once as inserted,
    /// updated, unchanged or failed, and the failed count is the recorded
    /// failures plus the walk errors.
    pub fn finish(self, removed: u64) -> (s: ScanStats)
        requires
            self.wf(),
            !self.pending(),
        ensures
            s.removed == removed,
            s.seen == self.stats.seen,
            s.inserted == self.stats.inserted,
            s.updated == self.stats.updated,
            s.unchanged == self.stats.unchanged,
            s.failed == self.stats.failed,
            s.failures@ == self.stats.failures@,
            s.inserted + s.updated + s.unchanged + s.failures@.len() == s.seen,
            s.failed == s.failures@.len() + self.walk_errors,
    {
        let mut s = self.stats;
        s.removed = removed;
        s
    }
}

/// A file's size and modification time (seconds since the epoch), as
/// stored in the database.
pub struct FileStamp {
    pub file_size: i64,
    pub mtime: i64,
}

impl FileStamp {
    /// The stamp of a file of `len` bytes modified `mtime_secs` seconds
    /// after the epoch; both are stored as `i64` (wrapping above `i64::MAX`).
    pub fn new(len: u64, mtime_secs: u64) -> (s: FileStamp)
        ensures
            s.file_size == len as i64,
            s.mtime == mtime_secs as i64,
    {
        FileStamp { file_size: len as i64, mtime: mtime_secs as i64 }
    }
}

/// Whether a file is read and written to the database.
pub enum ScanDecision {
    /// The stored row has the same modification time and size.
    Unchanged,
    /// The file is read; `existed` tells whether a row was already there.
    Import { existed: bool },
}

/// Decides what to do with a file, given its stored row `(id, mtime, size)`, if any.
pub fn decide_scan(existing: Option<(i64, i64, i64)>, stamp: &FileStamp) -> (d: ScanDecision)
    ensures
        d == match existing {
            Some((_, m, s)) => if m == stamp.mtime && s == stamp.file_size {
                ScanDecision::Unchanged
            } else {
                ScanDecision::Import { existed: true }
            },
            None => ScanDecision::Import { existed: false },
        },
{
    match existing {
        Some((_, m, s)) => if m == stamp.mtime && s == stamp.file_size {
            ScanDecision::Unchanged
        } else {
            ScanDecision::Import { existed: true }
        },
        None => ScanDecision::Import { existed: false },
    }
}

/// What a scan of one file reports once its row is written.
pub fn import_result(existed: bool) -> (r: ScanResult)
    ensures
        r == if existed {
            ScanResult::Updated
        } else {
            ScanResult::Inserted
        },
{
    if existed {
        ScanResult::Updated
    } else {
        ScanResult::Inserted
    }
}

/// The stored rows `(id, path)` whose path is not among `seen`, in order.
pub open spec fn missing_rows(rows: Seq<(i64, String)>, seen: Set<Seq<char>>) -> Seq<(i64, String)> {
    rows.filter(|r: (i64, String)| !seen.contains(r.1@))
}

/// A scan removes exactly the stored rows whose path it did not see: every
/// removed row is a stored row with an unseen path, and every stored row
/// with an unseen path is removed.
pub proof fn lemma_removal_exact(rows: Seq<(i64, String)>, seen: Set<Seq<char>>)
    ensures
        forall|i: int|
            0 <= i < missing_rows(rows, seen).len() ==> !seen.contains(
                (#[trigger] missing_rows(rows, seen)[i]).1@,
            ) && rows.contains(missing_rows(rows, seen)[i]),
        forall|i: int|
            0 <= i < rows.len() && !seen.contains((#[trigger] rows[i]).1@) ==> missing_rows(
                rows,
                seen,
            ).contains(rows[i]),
{
    broadcast use vstd::seq_lib::group_filter_ensures;

    let pred = |r: (i64, String)| !seen.contains(r.1@);
    assert forall|i: int| 0 <= i < missing_rows(rows, seen).len() implies rows.contains(
        #[trigger] missing_rows(rows, seen)[i],
    ) by {
        let m = missing_rows(rows, seen);
        assert(m.contains(m[i]));
        rows.lemma_filter_contains_rev(pred, m[i]);
    }
}

/// The rows whose file was not encountered during the scan: they are removed.
pub fn paths_to_remove(rows: Vec<(i64, String)>, seen: &StringHashSet) -> (r: Vec<(i64, String)>)
    ensures
        r@ == missing_rows(rows@, seen@),
{
    let mut out: Vec<(i64, String)> = Vec::new();
    let mut i: usize = 0;
    let n = rows.len();
    while i < n
        invariant
            n == rows@.len(),
            i <= n,
            out@ == missing_rows(rows@.take(i as int), seen@),
        decreases n - i,
    {
        let row = &rows[i];
        proof {
            reveal_with_fuel(Seq::<_>::filter, 1);
            assert(rows@.take(i + 1).drop_last() =~= rows@.take(i as int));
        }
        if !seen.contains(row.1.as_str()) {
            out.push((row.0, row.1.clone()));
        }
        i = i + 1;
    }
    proof {
        assert(rows@.take(n as int) =~= rows@);
    }
    out
}

impl ScanProgress {
    /// The stored rows whose path this scan did not see, in order.
    pub fn rows_to_remove(&self, rows: Vec<(i64, String)>) -> (r: Vec<(i64, String)>)
        ensures
            r@ == missing_rows(rows@, self.seen_paths@),
    {
        paths_to_remove(rows, &self.seen_paths)
    }
}

/// The first line of a scan summary.
pub open spec fn summary_head(s: &ScanStats) -> Seq<char> {
    "scan: seen="@ + decimal(s.seen as nat) + " inserted="@ + decimal(s.inserted as nat)
        + " updated="@ + decimal(s.updated as nat) + " unchanged="@ + decimal(s.unchanged as nat)
        + " removed="@ + decimal(s.removed as nat) + " failed="@ + decimal(s.failed as nat)
}

/// The line that announces `n` skipped files.
pub open spec fn skipped_line(n: nat) -> Seq<char> {
    decimal(n) + if n == 1 {
        " file skipped (not imported):"@
    } else {
        " files skipped (not imported):"@
    }
}

/// The line that reports one failure.
pub open spec fn failure_line(f: ScanFailure) -> Seq<char> {
    "  "@ + f.path@ + ": "@ + f.reason@
}

/// The lines printed after a scan: the counts and, if some files failed,
/// an empty line, how many were skipped and one line per failure.
pub fn scan_summary(stats: &ScanStats) -> (lines: Vec<String>)
    ensures
        lines@.len() >= 1,
        lines@[0]@ == summary_head(stats),
        stats.failures@.len() == 0 ==> lines@.len() == 1,
        stats.failures@.len() > 0 ==> {
            &&& lines@.len() == stats.failures@.len() + 3
            &&& lines@[1]@.len() == 0
            &&& lines@[2]@ == skipped_line(stats.failures@.len())
            &&& forall|i: int|
                0 <= i < stats.failures@.len() ==> (#[trigger] lines@[i + 3])@ == failure_line(
                    stats.failures@[i],
                )
        },
{
    let mut head = String::from_str("scan: seen=");
    head.append(u64_to_decimal(stats.seen).as_str());
    head.append(" inserted=");
    head.append(u64_to_decimal(stats.inserted).as_str());
    head.append(" updated=");
    head.append(u64_to_decimal(stats.updated).as_str());
    head.append(" unchanged=");
    head.append(u64_to_decimal(stats.unchanged).as_str());
    head.append(" removed=");
    head.append(u64_to_decimal(stats.removed).as_str());
    head.append(" failed=");
    head.append(u64_to_decimal(stats.failed).as_str());
    let mut lines: Vec<String> = Vec::new();
    lines.push(head);
    let n = stats.failures.len();
    if n == 0 {
        return lines;
    }
    lines.push(String::new());
    let mut count = u64_to_decimal(n as u64);
    if n == 1 {
        count.append(" file skipped (not imported):");
    } else {
        count.append(" files skipped (not imported):");
    }
    lines.push(count);
    let mut i: usize = 0;
    while i < n
        invariant
            n == stats.failures@.len(),
            i <= n,
            lines@.len() == i + 3,
            lines@[0]@ == summary_head(stats),
            lines@[1]@.len() == 0,
            lines@[2]@ == skipped_line(n as nat),
            forall|j: int|
                0 <= j < i ==> (#[trigger] lines@[j + 3])@ == failure_line(stats.failures@[j]),
        decreases n - i,
    {
        let f = &stats.failures[i];
        let mut line = String::from_str("  ");
        line.append(f.path.as_str());
        line.append(": ");
        line.append(f.reason.as_str());
        lines.push(line);
        i = i + 1;
    }
    lines
}

} // verus!
