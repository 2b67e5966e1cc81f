use sha2::Digest;
use vstd::prelude::*;

verus! {

/// The fingerprint model of a file: its path and its hex digest.
pub type FingerprintView = (Seq<char>, Seq<char>);

/// One file's identity at a point in time.
pub struct FileFingerprint {
    pub path: String,
    pub digest: String,
}

impl View for FileFingerprint {
    type V = FingerprintView;

    open spec fn view(&self) -> FingerprintView {
        (self.path@, self.digest@)
    }
}

/// The model of a collection: the fingerprints in their order.
pub open spec fn fingerprints_view(s: Seq<FileFingerprint>) -> Seq<FingerprintView> {
    s.map_values(|f: FileFingerprint| f@)
}

/// The SHA-256 digest of a byte content, as 64 lowercase hex digits.
pub uninterp spec fn sha256_hex_of(content: Seq<u8>) -> Seq<char>;

/// A digest as this library writes it: 64 lowercase hex digits.
pub open spec fn is_hex_digest(d: Seq<char>) -> bool {
    &&& d.len() == 64
    &&& forall|i: int|
        0 <= i < d.len() ==> (('0' <= #[trigger] d[i] && d[i] <= '9') || ('a' <= d[i] && d[i]
            <= 'f'))
}

/// Relies on sha2's `Sha256` to hash the bytes, and on the `LowerHex` impl of
/// generic_array for the output, which writes two lowercase hex digits per byte
/// of the 32-byte hash.
#[verifier::external_body]
fn sha256_hex(content: &Vec<u8>) -> (r: String)
    ensures
        r@ == sha256_hex_of(content@),
        is_hex_digest(r@),
{
    format!("{:x}", sha2::Sha256::digest(content.as_slice()))
}

/// The content digest of one file.
pub fn content_digest(content: &Vec<u8>) -> (r: String)
    ensures
        r@ == sha256_hex_of(content@),
        is_hex_digest(r@),
{
    sha256_hex(content)
}

/// Computing the digest of the same content twice yields the same string.
pub proof fn lemma_digest_deterministic(a: Seq<u8>, b: Seq<u8>)
    requires
        a == b,
    ensures
        sha256_hex_of(a) == sha256_hex_of(b),
{
}


/// What reading one direct child of the target directory gave.
pub enum DirEntryRead {
    /// The entry itself could not be enumerated.
    Unreadable { message: String },
    /// A subdirectory or another entry that is not a regular file.
    NotAFile,
    /// A regular file whose content could not be read.
    UnreadableFile { path: String, message: String },
    /// A regular file and its full content.
    File { path: String, content: Vec<u8> },
}

/// A failure on one entry, which is skipped while the scan goes on.
#[derive(PartialEq, Eq)]
pub enum ScanWarning {
    UnreadableEntry { message: String },
    UnreadableFile { path: String, message: String },
}

/// The outcome of fingerprinting a directory.
pub struct ScanReport {
    pub fingerprints: Vec<FileFingerprint>,
    pub warnings: Vec<ScanWarning>,
    /// No regular file was found.
    pub empty_directory: bool,
}

/// The fingerprints that a sequence of entries yields, in order.
pub open spec fn fingerprints_of(entries: Seq<DirEntryRead>) -> Seq<FingerprintView>
    decreases entries.len(),
{
    if entries.len() == 0 {
        seq![]
    } else {
        let rest = fingerprints_of(entries.drop_last());
        match entries.last() {
            DirEntryRead::File { path, content } => rest.push((path@, sha256_hex_of(content@))),
            _ => rest,
        }
    }
}

/// The warnings that a sequence of entries yields, in order.
pub open spec fn warnings_of(entries: Seq<DirEntryRead>) -> Seq<ScanWarning>
    decreases entries.len(),
{
    if entries.len() == 0 {
        seq![]
    } else {
        let rest = warnings_of(entries.drop_last());
        match entries.last() {
            DirEntryRead::Unreadable { message } => rest.push(
                ScanWarning::UnreadableEntry { message },
            ),
            DirEntryRead::UnreadableFile { path, message } => rest.push(
                ScanWarning::UnreadableFile { path, message },
            ),
            _ => rest,
        }
    }
}

/// The entry is a regular file, whether or not it could be read.
pub open spec fn is_regular_file(e: DirEntryRead) -> bool {
    e is File || e is UnreadableFile
}

/// The entry could not be read.
pub open spec fn is_failure(e: DirEntryRead) -> bool {
    e is Unreadable || e is UnreadableFile
}

/// The entry is a regular file with its content.
pub open spec fn is_readable_file(e: DirEntryRead) -> bool {
    e is File
}

/// Fingerprints every readable regular file among the entries, in their order,
/// and turns every unreadable entry into a warning instead of failing.
pub fn compute_fingerprints(entries: &Vec<DirEntryRead>) -> (r: ScanReport)
    ensures
        fingerprints_view(r.fingerprints@) == fingerprints_of(entries@),
        r.warnings@ == warnings_of(entries@),
        r.empty_directory == !(exists|i: int|
            0 <= i < entries@.len() && is_regular_file(#[trigger] entries@[i])),
        forall|i: int|
            0 <= i < r.fingerprints@.len() ==> is_hex_digest(#[trigger] r.fingerprints@[i].digest@),
{
    let mut fingerprints: Vec<FileFingerprint> = Vec::new();
    let mut warnings: Vec<ScanWarning> = Vec::new();
    let mut found_file = false;
    let mut i: usize = 0;
    while i < entries.len()
        invariant
            i <= entries@.len(),
            fingerprints_view(fingerprints@) == fingerprints_of(entries@.subrange(0, i as int)),
            warnings@ == warnings_of(entries@.subrange(0, i as int)),
            found_file == (exists|k: int| 0 <= k < i && is_regular_file(#[trigger] entries@[k])),
            forall|k: int|
                0 <= k < fingerprints@.len() ==> is_hex_digest(#[trigger] fingerprints@[k].digest@),
        decreases entries.len() - i,
    {
        let ghost prefix = entries@.subrange(0, i as int);
        let ghost next = entries@.subrange(0, i + 1);
        assert(next.drop_last() == prefix);
        assert(next.last() == entries@[i as int]);
        match &entries[i] {
            DirEntryRead::Unreadable { message } => {
                warnings.push(ScanWarning::UnreadableEntry { message: message.clone() });
            },
            DirEntryRead::NotAFile => {},
            DirEntryRead::UnreadableFile { path, message } => {
                found_file = true;
                warnings.push(
                    ScanWarning::UnreadableFile { path: path.clone(), message: message.clone() },
                );
            },
            DirEntryRead::File { path, content } => {
                found_file = true;
                let digest = content_digest(content);
                fingerprints.push(FileFingerprint { path: path.clone(), digest });
                assert(fingerprints_view(fingerprints@) =~= fingerprints_view(
                    fingerprints@.drop_last(),
                ).push(fingerprints@.last()@));
            },
        }
        i = i + 1;
    }
    assert(entries@.subrange(0, i as int) == entries@);
    ScanReport { fingerprints, warnings, empty_directory: !found_file }
}

/// The number of readable regular files among the entries.
pub open spec fn readable_count(entries: Seq<DirEntryRead>) -> nat {
    entries.filter(|e: DirEntryRead| is_readable_file(e)).len()
}

/// The number of entries that could not be read.
pub open spec fn failure_count(entries: Seq<DirEntryRead>) -> nat {
    entries.filter(|e: DirEntryRead| is_failure(e)).len()
}

/// Fingerprinting entries of which N are readable files and M cannot be read
/// yields exactly N fingerprints and M warnings.
pub proof fn lemma_partial_failure(entries: Seq<DirEntryRead>)
    ensures
        fingerprints_of(entries).len() == readable_count(entries),
        warnings_of(entries).len() == failure_count(entries),
    decreases entries.len(),
{
    reveal(Seq::filter);
    if entries.len() > 0 {
        lemma_partial_failure(entries.drop_last());
    }
}

/// The path of a regular file entry.
pub open spec fn file_path(e: DirEntryRead) -> Seq<char> {
    match e {
        DirEntryRead::File { path, .. } => path@,
        DirEntryRead::UnreadableFile { path, .. } => path@,
        _ => seq![],
    }
}

/// No two readable files among the entries share a path, as in a directory listing.
pub open spec fn distinct_file_paths(entries: Seq<DirEntryRead>) -> bool {
    forall|i: int, j: int|
        0 <= i < entries.len() && 0 <= j < entries.len() && i != j && is_readable_file(entries[i])
            && is_readable_file(entries[j]) ==> file_path(#[trigger] entries[i]) != file_path(
            #[trigger] entries[j],
        )
}

/// Every fingerprint's path is that of a readable file among the entries.
proof fn lemma_fingerprint_paths(entries: Seq<DirEntryRead>, k: int) -> (j: int)
    requires
        0 <= k < fingerprints_of(entries).len(),
    ensures
        0 <= j < entries.len(),
        is_readable_file(entries[j]),
        file_path(entries[j]) == fingerprints_of(entries)[k].0,
    decreases entries.len(),
{
    let d = entries.drop_last();
    let n = entries.len() - 1;
    if k < fingerprints_of(d).len() {
        let j = lemma_fingerprint_paths(d, k);
        assert(d[j] == entries[j]);
        j
    } else {
        assert(entries.last() == entries[n]);
        n
    }
}

/// Entries with distinct file paths give fingerprints with distinct paths.
pub proof fn lemma_fingerprints_unique(entries: Seq<DirEntryRead>)
    requires
        distinct_file_paths(entries),
    ensures
        forall|i: int, j: int|
            0 <= i < fingerprints_of(entries).len() && 0 <= j < fingerprints_of(entries).len() && i
                != j ==> (#[trigger] fingerprints_of(entries)[i]).0 != (
            #[trigger] fingerprints_of(entries)[j]).0,
    decreases entries.len(),
{
    if entries.len() > 0 {
        let d = entries.drop_last();
        let n = entries.len() - 1;
        assert(distinct_file_paths(d)) by {
            assert forall|i: int, j: int|
                0 <= i < d.len() && 0 <= j < d.len() && i != j && is_readable_file(d[i])
                    && is_readable_file(d[j]) implies file_path(#[trigger] d[i]) != file_path(
                #[trigger] d[j],
            ) by {
                assert(d[i] == entries[i] && d[j] == entries[j]);
            }
        }
        lemma_fingerprints_unique(d);
        let f = fingerprints_of(entries);
        let g = fingerprints_of(d);
        assert(entries.last() == entries[n]);
        if is_readable_file(entries[n]) {
            assert forall|i: int, j: int|
                0 <= i < f.len() && 0 <= j < f.len() && i != j implies (#[trigger] f[i]).0 != (
                #[trigger] f[j]).0 by {
                if i < g.len() && j < g.len() {
                    assert(f[i] == g[i] && f[j] == g[j]);
                } else {
                    let m = if i < g.len() {
                        i
                    } else {
                        j
                    };
                    assert(f[m] == g[m]);
                    let w = lemma_fingerprint_paths(d, m);
                    assert(d[w] == entries[w]);
                    assert(file_path(entries[w]) != file_path(entries[n]));
                }
            }
        }
    }
}

} // verus!
