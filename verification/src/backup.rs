//! Backup files for recovering unsaved documents: their names, their
//! on-disk layout and the hash that tells whether content changed.

use vstd::prelude::*;
use vstd::string::StringSliceAdditionalSpecFns;
use crate::hex::{format_hex16, hex16, parse_hex_spec, parse_hex_u64, lemma_hex16_round_trip, all_hex_digits, hex_digit_value};
use crate::paths::{join_path, join_spec};
use crate::text::{concat2, concat3, ends_with, find_char, first_index_of, seq_ends_with, seq_starts_with, starts_with};

verus! {

/// What is stored about a document beside its text.
#[derive(Clone, Debug, PartialEq, Eq)]
pub struct CachedDocumentMeta {
    pub id: String,
    pub session_id: u64,
    pub cursor_line: usize,
    pub cursor_index: usize,
    pub zoom_adj: i8,
}

/// A backed-up document: its metadata and its full text.
#[derive(Clone, Debug, PartialEq, Eq)]
pub struct CachedDocument {
    pub meta: CachedDocumentMeta,
    pub content: String,
}

pub open spec fn fnv_offset_basis() -> u64 {
    0xcbf2_9ce4_8422_2325
}

pub open spec fn fnv_prime() -> u64 {
    0x0100_0000_01b3
}

/// One FNV-1a step: mix a byte into the hash, then multiply by the prime modulo 2^64.
pub open spec fn fnv1a_step(hash: u64, byte: u8) -> u64 {
    (((hash ^ (byte as u64)) as nat * fnv_prime() as nat) % 0x1_0000_0000_0000_0000) as u64
}

/// The 64-bit FNV-1a hash of a byte sequence.
pub open spec fn fnv1a(bytes: Seq<u8>) -> u64
    decreases bytes.len(),
{
    if bytes.len() == 0 {
        fnv_offset_basis()
    } else {
        fnv1a_step(fnv1a(bytes.drop_last()), bytes.last())
    }
}

/// Hashes the UTF-8 bytes of `content` with 64-bit FNV-1a, which gives the
/// same value in every process and with every Rust release.
pub fn compute_content_hash(content: &str) -> (r: u64)
    ensures
        r == fnv1a(content.spec_bytes()),
{
    let offset_basis: u64 = 0xcbf2_9ce4_8422_2325;
    let prime: u64 = 0x0100_0000_01b3;
    let bytes = content.as_bytes();
    let mut hash: u64 = offset_basis;
    let mut i: usize = 0;
    while i < bytes.len()
        invariant
            bytes@ == content.spec_bytes(),
            i <= bytes@.len(),
            hash == fnv1a(bytes@.take(i as int)),
            prime == fnv_prime(),
        decreases bytes@.len() - i,
    {
        assert(bytes@.take(i + 1).drop_last() =~= bytes@.take(i as int));
        hash = hash ^ (bytes[i] as u64);
        hash = hash.wrapping_mul(prime);
        i = i + 1;
    }
    assert(bytes@.take(bytes@.len() as int) =~= bytes@);
    hash
}

/// A character allowed in a backup id: an ASCII letter or digit, `_` or `-`.
pub open spec fn is_id_char(c: char) -> bool {
    ('a' <= c && c <= 'z') || ('A' <= c && c <= 'Z') || ('0' <= c && c <= '9') || c == '_' || c == '-'
}

/// A backup id that is safe to use as a file name: non-empty, and made only
/// of ASCII letters, digits, `_` and `-`.
pub open spec fn safe_id_spec(id: Seq<char>) -> bool {
    id.len() > 0 && forall|i: int| 0 <= i < id.len() ==> #[trigger] is_id_char(id[i])
}

/// Law: a safe id cannot leave the backup directory. It holds no `/`, `\`
/// or NUL, no `..`, and is not `.`.
pub proof fn lemma_safe_id_stays_in_directory(id: Seq<char>)
    requires
        safe_id_spec(id),
    ensures
        forall|i: int| 0 <= i < id.len() ==> id[i] != '/' && id[i] != '\\' && id[i] != '\0' && id[i] != '.',
        id != seq!['.'],
        forall|i: int| 0 <= i < id.len() - 1 ==> #[trigger] id[i] != '.',
{
    assert forall|i: int| 0 <= i < id.len() implies id[i] != '/' && id[i] != '\\' && id[i] != '\0' && id[i] != '.' by {
        assert(is_id_char(id[i]));
    }
    if id == seq!['.'] {
        assert(is_id_char(id[0]));
    }
}

/// Whether `id` is a safe backup id (see [`safe_id_spec`]).
pub fn is_safe_id(id: &str) -> (r: bool)
    ensures
        r == safe_id_spec(id@),
{
    let n = id.unicode_len();
    if n == 0 {
        return false;
    }
    let mut i: usize = 0;
    while i < n
        invariant
            n == id@.len(),
            i <= n,
            forall|j: int| 0 <= j < i ==> #[trigger] is_id_char(id@[j]),
        decreases n - i,
    {
        let c = id.get_char(i);
        if !(('a' <= c && c <= 'z') || ('A' <= c && c <= 'Z') || ('0' <= c && c <= '9') || c == '_' || c == '-') {
            assert(!is_id_char(id@[i as int]));
            return false;
        }
        i = i + 1;
    }
    true
}

/// Why no backup path could be given.
#[derive(Clone, Copy, Debug, PartialEq, Eq)]
pub enum BackupPathError {
    /// The id is not safe to use as a file name.
    InvalidId,
    /// There is no cache directory to hold backups.
    NoBackupDir,
}

pub open spec fn backup_ext() -> Seq<char> {
    seq!['.', 'b', 'a', 'c', 'k', 'u', 'p']
}

/// The backup directory under a cache directory: `<cache>/cosmic-edit/backups`.
pub open spec fn backup_dir_spec(cache_dir: Seq<char>) -> Seq<char> {
    join_spec(join_spec(cache_dir, "cosmic-edit"@), "backups"@)
}

/// The directory holding backups, given the user's cache directory.
pub fn backup_dir(cache_dir: Option<&str>) -> (r: Option<String>)
    ensures
        match cache_dir {
            Some(c) => r is Some && r->0@ == backup_dir_spec(c@),
            None => r is None,
        },
{
    match cache_dir {
        Some(c) => {
            let app = join_path(c, "cosmic-edit");
            Some(join_path(app.as_str(), "backups"))
        }
        None => None,
    }
}

/// The file that holds the backup with the given id: `<dir>/<id>.backup`.
pub open spec fn backup_file_path_spec(dir: Seq<char>, id: Seq<char>) -> Seq<char> {
    join_spec(dir, id + backup_ext())
}

/// Where the backup with id `id` is kept inside `backup_dir`. An unsafe id
/// is refused first; a missing directory second.
pub fn backup_file_path(backup_dir: Option<&str>, id: &str) -> (r: Result<String, BackupPathError>)
    ensures
        !safe_id_spec(id@) ==> r == Err::<String, BackupPathError>(BackupPathError::InvalidId),
        safe_id_spec(id@) && backup_dir is None ==> r == Err::<String, BackupPathError>(BackupPathError::NoBackupDir),
        safe_id_spec(id@) && backup_dir is Some ==> r is Ok && r->Ok_0@ == backup_file_path_spec(backup_dir->0@, id@),
{
    if !is_safe_id(id) {
        return Err(BackupPathError::InvalidId);
    }
    match backup_dir {
        Some(dir) => {
            let ext = ".backup";
            proof {
                reveal_strlit(".backup");
            }
            assert(ext@ =~= backup_ext());
            let name = concat2(id, ext);
            Ok(join_path(dir, name.as_str()))
        }
        None => Err(BackupPathError::NoBackupDir),
    }
}

/// The session id at the front of a backup file name `<16 hex digits>_<...>.backup`.
pub open spec fn backup_session_id_spec(name: Seq<char>) -> Option<u64> {
    if name.len() >= 17 && name[16] == '_' && seq_ends_with(name, backup_ext()) {
        parse_hex_spec(name.take(16))
    } else {
        None
    }
}

/// Reads the session id from a backup file name.
pub fn extract_session_id_from_backup(filename: &str) -> (r: Option<u64>)
    ensures
        r == backup_session_id_spec(filename@),
{
    let ext = ".backup";
    proof {
        reveal_strlit(".backup");
    }
    assert(ext@ =~= backup_ext());
    if !ends_with(filename, ext) {
        return None;
    }
    let n = filename.unicode_len();
    if n < 17 {
        return None;
    }
    if filename.get_char(16) != '_' {
        return None;
    }
    let prefix = filename.substring_char(0, 16);
    assert(prefix@ =~= filename@.take(16));
    parse_hex_u64(prefix)
}

/// The start of every backup file name of a session: its id as sixteen hex digits and `_`.
pub open spec fn session_backup_prefix_spec(session_id: u64) -> Seq<char> {
    hex16(session_id) + seq!['_']
}

/// The name prefix shared by all backups of `session_id`.
pub fn session_backup_prefix(session_id: u64) -> (r: String)
    ensures
        r@ == session_backup_prefix_spec(session_id),
{
    let hex = format_hex16(session_id);
    let underscore = "_";
    proof {
        reveal_strlit("_");
    }
    assert(underscore@ =~= seq!['_']);
    concat2(hex.as_str(), underscore)
}

/// Whether the file `name` is a backup of the session `session_id`.
pub fn is_session_backup(name: &str, session_id: u64) -> (r: bool)
    ensures
        r == (seq_starts_with(name@, session_backup_prefix_spec(session_id)) && seq_ends_with(name@, backup_ext())),
{
    let prefix = session_backup_prefix(session_id);
    let ext = ".backup";
    proof {
        reveal_strlit(".backup");
    }
    assert(ext@ =~= backup_ext());
    starts_with(name, prefix.as_str()) && ends_with(name, ext)
}

/// Law: every backup name of a session carries that session's id.
pub proof fn lemma_session_backup_names_carry_id(session_id: u64, name: Seq<char>)
    requires
        seq_starts_with(name, session_backup_prefix_spec(session_id)),
        seq_ends_with(name, backup_ext()),
    ensures
        backup_session_id_spec(name) == Some(session_id),
{
    lemma_hex16_round_trip(session_id);
    let p = session_backup_prefix_spec(session_id);
    assert(name.take(17) == p);
    assert(name[16] == p[16]);
    assert(name.take(16) =~= hex16(session_id)) by {
        assert forall|i: int| 0 <= i < 16 implies name.take(16)[i] == hex16(session_id)[i] by {
            assert(name.take(17)[i] == p[i]);
        }
    }
}

/// Whether `ids` holds a string equal to `id`.
pub fn contains_string(ids: &Vec<String>, id: &str) -> (r: bool)
    ensures
        r == exists|i: int| 0 <= i < ids@.len() && ids@[i]@ == id@,
{
    let mut i: usize = 0;
    while i < ids.len()
        invariant
            i <= ids@.len(),
            forall|j: int| 0 <= j < i ==> ids@[j]@ != id@,
        decreases ids@.len() - i,
    {
        if crate::text::str_eq(ids[i].as_str(), id) {
            return true;
        }
        i = i + 1;
    }
    false
}

/// The backup id written in the file `name` of session `session_id`, when
/// that backup is not among `referenced`: the one file that may be removed.
pub open spec fn unreferenced_backup_spec(name: Seq<char>, session_id: u64, referenced: Seq<Seq<char>>) -> Option<Seq<char>> {
    if seq_ends_with(name, backup_ext()) {
        let id = name.take(name.len() - 7);
        if seq_starts_with(id, session_backup_prefix_spec(session_id)) && !referenced.contains(id) {
            Some(id)
        } else {
            None
        }
    } else {
        None
    }
}

/// Decides whether the file `name` is a backup of `session_id` that no tab
/// refers to any more; gives its id if so.
pub fn unreferenced_backup_id(name: &str, session_id: u64, referenced: &Vec<String>) -> (r: Option<String>)
    ensures
        match r {
            Some(id) => unreferenced_backup_spec(name@, session_id, referenced@.map_values(|s: String| s@)) == Some(id@),
            None => unreferenced_backup_spec(name@, session_id, referenced@.map_values(|s: String| s@)) is None,
        },
{
    let ext = ".backup";
    proof {
        reveal_strlit(".backup");
    }
    assert(ext@ =~= backup_ext());
    if !ends_with(name, ext) {
        return None;
    }
    let n = name.unicode_len();
    let id = name.substring_char(0, n - 7);
    assert(id@ =~= name@.take(name@.len() - 7));
    let prefix = session_backup_prefix(session_id);
    let ghost refs = referenced@.map_values(|s: String| s@);
    if starts_with(id, prefix.as_str()) && !contains_string(referenced, id) {
        assert(!refs.contains(id@)) by {
            if refs.contains(id@) {
                let k = choose|k: int| 0 <= k < refs.len() && refs[k] == id@;
                assert(referenced@[k]@ == id@);
            }
        }
        Some(String::from_str(id))
    } else {
        proof {
            if seq_starts_with(id@, session_backup_prefix_spec(session_id)) {
                let k = choose|k: int| 0 <= k < referenced@.len() && referenced@[k]@ == id@;
                assert(refs[k] == id@);
            }
        }
        None
    }
}

/// The text of a backup file: the metadata line, a newline, then the document.
pub open spec fn frame_spec(meta_line: Seq<char>, content: Seq<char>) -> Seq<char> {
    meta_line + seq!['\n'] + content
}

/// How a backup file is read back: everything before the first newline is
/// the metadata, everything after it the document; a file without a newline
/// is all metadata and an empty document.
pub open spec fn split_spec(file: Seq<char>) -> (Seq<char>, Seq<char>) {
    match first_index_of(file, '\n') {
        Some(i) => (file.take(i), file.skip(i + 1)),
        None => (file, Seq::empty()),
    }
}

/// Lays out a backup file from its metadata line and the document text.
pub fn frame_backup_file(meta_line: &str, content: &str) -> (r: String)
    ensures
        r@ == frame_spec(meta_line@, content@),
{
    let nl = "\n";
    proof {
        reveal_strlit("\n");
    }
    assert(nl@ =~= seq!['\n']);
    concat3(meta_line, nl, content)
}

/// Splits a backup file into its metadata line and the document text, as
/// `split_once('\n')` does.
pub fn split_backup_file(file: &str) -> (r: (String, String))
    ensures
        r.0@ == split_spec(file@).0,
        r.1@ == split_spec(file@).1,
{
    match find_char(file, '\n') {
        Some(i) => {
            let n = file.unicode_len();
            let head = file.substring_char(0, i);
            let tail = file.substring_char(i + 1, n);
            assert(head@ =~= file@.take(i as int));
            assert(tail@ =~= file@.skip(i + 1));
            (String::from_str(head), String::from_str(tail))
        }
        None => (String::from_str(file), String::new()),
    }
}

/// Law: a backup file reads back as the metadata line and the document that
/// were written, whenever the metadata line holds no newline (as compact
/// JSON never does).
pub proof fn lemma_backup_file_round_trip(meta_line: Seq<char>, content: Seq<char>)
    requires
        forall|i: int| 0 <= i < meta_line.len() ==> meta_line[i] != '\n',
    ensures
        split_spec(frame_spec(meta_line, content)) == (meta_line, content),
{
    let f = frame_spec(meta_line, content);
    let i = meta_line.len() as int;
    assert(f[i] == '\n');
    assert forall|j: int| 0 <= j < i implies f[j] != '\n' by {
        assert(f[j] == meta_line[j]);
    }
    crate::text::lemma_first_index_of(f, '\n', i);
    assert(f.take(i) =~= meta_line);
    assert(f.skip(i + 1) =~= content);
}

} // verus!
