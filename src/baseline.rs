use crate::compare::{find_path_from, unique_paths};
use crate::fingerprint::{
    distinct_file_paths, fingerprints_of, fingerprints_view, is_hex_digest,
    lemma_fingerprints_unique, DirEntryRead, FileFingerprint, FingerprintView,
};
use vstd::prelude::*;
use vstd::string::StrSliceExecFns;

verus! {

/// The conditions that end an operation.
#[derive(PartialEq, Eq, Structural, Clone, Copy, Debug)]
pub enum GuardError {
    /// The target path does not exist or is not a directory.
    InvalidDirectory,
    /// No baseline record has been saved yet.
    BaselineMissing,
    /// The baseline record exists but does not hold a valid collection.
    BaselineCorrupt,
    /// The change notifications of the directory could not be subscribed to.
    WatchSubscriptionFailure,
    /// The source of change notifications is gone for good.
    WatchChannelClosed,
}

/// The message that tells the operator of an error.
pub open spec fn error_message(e: GuardError) -> Seq<char> {
    match e {
        GuardError::InvalidDirectory => "Provided path is not a valid directory."@,
        GuardError::BaselineMissing => "No baseline found. Run 'snapshot' first."@,
        GuardError::BaselineCorrupt => "The baseline record is corrupt."@,
        GuardError::WatchSubscriptionFailure => "Could not watch the directory for changes."@,
        GuardError::WatchChannelClosed => "The change notification channel is closed."@,
    }
}

impl GuardError {
    /// A message for the operator.
    pub fn describe(&self) -> (r: &'static str)
        ensures
            r@ == error_message(*self),
    {
        match self {
            GuardError::InvalidDirectory => "Provided path is not a valid directory.",
            GuardError::BaselineMissing => "No baseline found. Run 'snapshot' first.",
            GuardError::BaselineCorrupt => "The baseline record is corrupt.",
            GuardError::WatchSubscriptionFailure => "Could not watch the directory for changes.",
            GuardError::WatchChannelClosed => "The change notification channel is closed.",
        }
    }
}

/// What reading the durable baseline record gave.
pub enum BaselineRead {
    /// There is no record.
    Missing,
    /// There is a record, but it is not a list of `{path, digest}` entries.
    Unparsable,
    /// The entries that the record lists, in order.
    Parsed(Vec<FileFingerprint>),
}

/// A collection that the baseline record can hold: unique paths, and every
/// digest in the form that fingerprinting produces.
pub open spec fn is_valid_record(s: Seq<FingerprintView>) -> bool {
    &&& unique_paths(s)
    &&& forall|i: int| 0 <= i < s.len() ==> is_hex_digest(#[trigger] s[i].1)
}

fn is_hex_digest_exec(d: &String) -> (r: bool)
    ensures
        r == is_hex_digest(d@),
{
    let n = d.as_str().unicode_len();
    if n != 64 {
        return false;
    }
    let mut i: usize = 0;
    while i < n
        invariant
            n == d@.len(),
            i <= n,
            forall|k: int|
                0 <= k < i ==> (('0' <= #[trigger] d@[k] && d@[k] <= '9') || ('a' <= d@[k] && d@[k]
                    <= 'f')),
        decreases n - i,
    {
        let c = d.as_str().get_char(i);
        if !(('0' <= c && c <= '9') || ('a' <= c && c <= 'f')) {
            return false;
        }
        i = i + 1;
    }
    true
}

/// Decides whether a collection can stand as a baseline record.
pub fn check_record(s: &Vec<FileFingerprint>) -> (r: bool)
    ensures
        r == is_valid_record(fingerprints_view(s@)),
{
    let ghost v = fingerprints_view(s@);
    let mut i: usize = 0;
    while i < s.len()
        invariant
            i <= s@.len(),
            v == fingerprints_view(s@),
            forall|k: int| 0 <= k < i ==> is_hex_digest(#[trigger] v[k].1),
            forall|k: int, j: int|
                0 <= k < v.len() && 0 <= j < i && k != j ==> (#[trigger] v[k]).0 != (
                #[trigger] v[j]).0,
        decreases s.len() - i,
    {
        assert(v[i as int] == s@[i as int]@);
        if !is_hex_digest_exec(&s[i].digest) {
            assert(!is_hex_digest(v[i as int].1));
            return false;
        }
        match find_path_from(s, &s[i].path, i + 1) {
            Some(j) => {
                assert(v[j as int].0 == v[i as int].0);
                return false;
            },
            None => {},
        }
        assert forall|k: int, j: int|
            0 <= k < v.len() && 0 <= j < i + 1 && k != j implies (#[trigger] v[k]).0 != (
            #[trigger] v[j]).0 by {
            if j == i && k < i {
                assert(v[j].0 != v[k].0);
            }
        }
        i = i + 1;
    }
    true
}

/// Turns what was read from the durable record into the baseline collection.
pub fn load_baseline(read: BaselineRead) -> (r: Result<Vec<FileFingerprint>, GuardError>)
    ensures
        read is Missing ==> r == Err::<Vec<FileFingerprint>, GuardError>(
            GuardError::BaselineMissing,
        ),
        read is Unparsable ==> r == Err::<Vec<FileFingerprint>, GuardError>(
            GuardError::BaselineCorrupt,
        ),
        read matches BaselineRead::Parsed(v) ==> {
            if is_valid_record(fingerprints_view(v@)) {
                r matches Ok(b) && b@ == v@
            } else {
                r == Err::<Vec<FileFingerprint>, GuardError>(GuardError::BaselineCorrupt)
            }
        },
{
    match read {
        BaselineRead::Missing => Err(GuardError::BaselineMissing),
        BaselineRead::Unparsable => Err(GuardError::BaselineCorrupt),
        BaselineRead::Parsed(v) => {
            if check_record(&v) {
                Ok(v)
            } else {
                Err(GuardError::BaselineCorrupt)
            }
        },
    }
}

/// A snapshot taken of entries with distinct file paths, as a directory
/// listing gives, is a valid baseline record, so loading it after it was saved
/// gives back the same path and digest pairs. The digests are those that
/// fingerprinting writes.
pub proof fn lemma_snapshot_round_trip(entries: Seq<DirEntryRead>)
    requires
        distinct_file_paths(entries),
        forall|i: int|
            0 <= i < fingerprints_of(entries).len() ==> is_hex_digest(
                #[trigger] fingerprints_of(entries)[i].1,
            ),
    ensures
        is_valid_record(fingerprints_of(entries)),
{
    lemma_fingerprints_unique(entries);
}

} // verus!
