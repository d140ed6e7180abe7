//! Upload sessions: large files that arrive in chunks, in any order and over
//! any number of connections, and are put together at the end.

use crate::ids::{is_random_uuid, is_uuid, parses_as_uuid, random_uuid};
use crate::text::{
    dec, ends_with, from_chars, has_suffix, mentions, parts_mention_for_the_whole, parse_unsigned, push_dec,
    same_text, to_chars, unsigned, what_is_joined_is_mentioned,
};
use vstd::arithmetic::div_mod::lemma_fundamental_div_mod;
use vstd::prelude::*;

verus! {

/// The length of every chunk but the last.
pub const CHUNK_SIZE: u64 = 16 * 1024 * 1024;

/// How many files a session may declare.
pub const MAX_SESSION_FILES: usize = 1024;

/// How many sessions a model version may have at a time.
pub const MAX_ACTIVE_SESSIONS: usize = 8;

/// The length of every chunk but the last, for new sessions.
pub fn default_chunk_size() -> (r: u64)
    ensures
        r == 16 * 1024 * 1024,
{
    CHUNK_SIZE
}

/// A file as a client declares it.
pub struct InitFile {
    pub name: String,
    pub size: u64,
    pub sha256: Option<String>,
}

/// What a client declares when it opens a session.
pub struct InitRequest {
    pub files: Vec<InitFile>,
}

/// A file of a session.
pub struct SessionFile {
    pub name: String,
    pub size: u64,
    pub sha256: Option<String>,
    /// Whether the file is a packed model.
    pub is_lma: bool,
}

#[derive(Debug, Clone, Copy, PartialEq, Eq, Structural)]
pub enum SessionState {
    Uploading,
    Completing,
}

/// What is kept of a session.
pub struct SessionMeta {
    pub model: String,
    pub version: String,
    pub chunk_size: u64,
    pub files: Vec<SessionFile>,
    pub state: SessionState,
}

/// Why a request on a session is refused.
#[derive(Debug)]
pub enum UploadError {
    InvalidSessionId,
    SessionNotFound,
    FileCount,
    InvalidName(String),
    SecondArtifact,
    TotalTooLarge { max: u64, actual: u64 },
    TooManySessions,
    NoMoreChunks,
    AlreadyCompleting,
    FileOutOfRange { index: usize },
    ChunkOutOfRange { chunk: u64, file: usize, expected: u64 },
    ChunkTooLarge { max: u64, actual: u64 },
    ChunkLength { chunk: u64, want: u64, got: Option<u64> },
    MissingChunks { name: String, missing: u64 },
    SizeMismatch { name: String, size: u64, assembled: u64 },
    DigestMismatch { name: String, digest: String, computed: String },
}

/// What kind of refusal an error is.
#[derive(Debug, Clone, Copy, PartialEq, Eq, Structural)]
pub enum ErrorKind {
    Validation,
    NotFound,
    InvalidBody,
    TooLarge,
    Conflict,
}

impl UploadError {
    pub open spec fn kind_spec(self) -> ErrorKind {
        match self {
            UploadError::InvalidSessionId => ErrorKind::Validation,
            UploadError::SessionNotFound => ErrorKind::NotFound,
            UploadError::FileCount => ErrorKind::Validation,
            UploadError::InvalidName(_) => ErrorKind::Validation,
            UploadError::SecondArtifact => ErrorKind::InvalidBody,
            UploadError::TotalTooLarge { .. } => ErrorKind::TooLarge,
            UploadError::TooManySessions => ErrorKind::Conflict,
            UploadError::NoMoreChunks => ErrorKind::Conflict,
            UploadError::AlreadyCompleting => ErrorKind::Conflict,
            UploadError::FileOutOfRange { .. } => ErrorKind::Validation,
            UploadError::ChunkOutOfRange { .. } => ErrorKind::Validation,
            UploadError::ChunkTooLarge { .. } => ErrorKind::TooLarge,
            UploadError::ChunkLength { .. } => ErrorKind::InvalidBody,
            UploadError::MissingChunks { .. } => ErrorKind::Conflict,
            UploadError::SizeMismatch { .. } => ErrorKind::InvalidBody,
            UploadError::DigestMismatch { .. } => ErrorKind::InvalidBody,
        }
    }

    /// What kind of refusal this is.
    pub fn kind(&self) -> (k: ErrorKind)
        ensures
            k == self.kind_spec(),
    {
        match self {
            UploadError::InvalidSessionId => ErrorKind::Validation,
            UploadError::SessionNotFound => ErrorKind::NotFound,
            UploadError::FileCount => ErrorKind::Validation,
            UploadError::InvalidName(_) => ErrorKind::Validation,
            UploadError::SecondArtifact => ErrorKind::InvalidBody,
            UploadError::TotalTooLarge { .. } => ErrorKind::TooLarge,
            UploadError::TooManySessions => ErrorKind::Conflict,
            UploadError::NoMoreChunks => ErrorKind::Conflict,
            UploadError::AlreadyCompleting => ErrorKind::Conflict,
            UploadError::FileOutOfRange { .. } => ErrorKind::Validation,
            UploadError::ChunkOutOfRange { .. } => ErrorKind::Validation,
            UploadError::ChunkTooLarge { .. } => ErrorKind::TooLarge,
            UploadError::ChunkLength { .. } => ErrorKind::InvalidBody,
            UploadError::MissingChunks { .. } => ErrorKind::Conflict,
            UploadError::SizeMismatch { .. } => ErrorKind::InvalidBody,
            UploadError::DigestMismatch { .. } => ErrorKind::InvalidBody,
        }
    }

    /// The error in words. `model` and `version` are those of the session.
    pub open spec fn words(self, model: Seq<char>, version: Seq<char>) -> Seq<char> {
        match self {
            UploadError::InvalidSessionId => "invalid session id"@,
            UploadError::SessionNotFound => "upload session not found"@,
            UploadError::FileCount => "a session declares 1..=1024 files"@,
            UploadError::InvalidName(n) => "invalid upload file name: "@ + n@,
            UploadError::SecondArtifact => "a version upload accepts a single .lma artifact"@,
            UploadError::TotalTooLarge { .. } => "payload too large"@,
            UploadError::TooManySessions => "too many active upload sessions for "@ + model + "/"@
                + version + " (max 8); resume or delete one first"@,
            UploadError::NoMoreChunks => "session is completing; no further chunks accepted"@,
            UploadError::AlreadyCompleting => "session is already completing"@,
            UploadError::FileOutOfRange { index } => "file index "@ + dec(index as nat)
                + " out of range"@,
            UploadError::ChunkOutOfRange { chunk, file, expected } => "chunk index "@ + dec(
                chunk as nat,
            ) + " out of range (file "@ + dec(file as nat) + " expects "@ + dec(expected as nat)
                + " chunks)"@,
            UploadError::ChunkTooLarge { .. } => "payload too large"@,
            UploadError::ChunkLength { chunk, want, got } => match got {
                None => "chunk "@ + dec(chunk as nat) + " expects exactly "@ + dec(want as nat)
                    + " bytes"@,
                Some(n) => "chunk "@ + dec(chunk as nat) + " expects exactly "@ + dec(want as nat)
                    + " bytes (got "@ + dec(n as nat) + ")"@,
            },
            UploadError::MissingChunks { name, missing } => "file '"@ + name@ + "' is missing "@
                + dec(missing as nat) + " chunks"@,
            UploadError::SizeMismatch { name, size, assembled } =>
                "assembled size mismatch for '"@ + name@ + "': declared "@ + dec(size as nat)
                + " bytes, got "@ + dec(assembled as nat),
            UploadError::DigestMismatch { name, digest, computed } => "sha256 mismatch for '"@
                + name@ + "': declared "@ + digest@ + ", assembled "@ + computed@,
        }
    }

    /// The error in words.
    pub fn message(&self, model: &str, version: &str) -> (r: String)
        ensures
            r@ == self.words(model@, version@),
    {
        match self {
            UploadError::InvalidSessionId => "invalid session id".to_string(),
            UploadError::SessionNotFound => "upload session not found".to_string(),
            UploadError::FileCount => "a session declares 1..=1024 files".to_string(),
            UploadError::InvalidName(n) => {
                let mut out = "invalid upload file name: ".to_string();
                out.append(n.as_str());
                out
            },
            UploadError::SecondArtifact =>
                "a version upload accepts a single .lma artifact".to_string(),
            UploadError::TotalTooLarge { .. } => "payload too large".to_string(),
            UploadError::TooManySessions => {
                let mut out = "too many active upload sessions for ".to_string();
                out.append(model);
                out.append("/");
                out.append(version);
                out.append(" (max 8); resume or delete one first");
                out
            },
            UploadError::NoMoreChunks =>
                "session is completing; no further chunks accepted".to_string(),
            UploadError::AlreadyCompleting => "session is already completing".to_string(),
            UploadError::FileOutOfRange { index } => {
                let mut out = "file index ".to_string();
                push_dec(&mut out, *index as u64);
                out.append(" out of range");
                out
            },
            UploadError::ChunkOutOfRange { chunk, file, expected } => {
                let mut out = "chunk index ".to_string();
                push_dec(&mut out, *chunk);
                out.append(" out of range (file ");
                push_dec(&mut out, *file as u64);
                out.append(" expects ");
                push_dec(&mut out, *expected);
                out.append(" chunks)");
                out
            },
            UploadError::ChunkTooLarge { .. } => "payload too large".to_string(),
            UploadError::ChunkLength { chunk, want, got } => {
                let mut out = "chunk ".to_string();
                push_dec(&mut out, *chunk);
                out.append(" expects exactly ");
                push_dec(&mut out, *want);
                match got {
                    None => out.append(" bytes"),
                    Some(n) => {
                        out.append(" bytes (got ");
                        push_dec(&mut out, *n);
                        out.append(")");
                    },
                }
                out
            },
            UploadError::MissingChunks { name, missing } => {
                let mut out = "file '".to_string();
                out.append(name.as_str());
                out.append("' is missing ");
                push_dec(&mut out, *missing);
                out.append(" chunks");
                out
            },
            UploadError::SizeMismatch { name, size, assembled } => {
                let mut out = "assembled size mismatch for '".to_string();
                out.append(name.as_str());
                out.append("': declared ");
                push_dec(&mut out, *size);
                out.append(" bytes, got ");
                push_dec(&mut out, *assembled);
                out
            },
            UploadError::DigestMismatch { name, digest, computed } => {
                let mut out = "sha256 mismatch for '".to_string();
                out.append(name.as_str());
                out.append("': declared ");
                out.append(digest.as_str());
                out.append(", assembled ");
                out.append(computed.as_str());
                out
            },
        }
    }
}

/// A new name for a session. It is one that [`staging_dir`] accepts.
pub fn new_session_id() -> (r: String)
    ensures
        is_random_uuid(r@),
        is_uuid(r@),
{
    random_uuid()
}

/// The directory of a session below the model repository.
pub fn staging_dir(sid: &str) -> (r: Result<String, UploadError>)
    ensures
        match r {
            Ok(d) => is_uuid(sid@) && d@ == ".tmp-upload-"@ + sid@,
            Err(e) => !is_uuid(sid@) && e is InvalidSessionId,
        },
{
    if !parses_as_uuid(sid) {
        return Err(UploadError::InvalidSessionId);
    }
    let mut out = ".tmp-upload-".to_string();
    out.append(sid);
    Ok(out)
}

/// The directory of the chunks of a file, below that of its session.
pub fn chunks_dir(file_index: usize) -> (r: String)
    ensures
        r@ == ".chunks/"@ + dec(file_index as nat),
{
    let mut out = ".chunks/".to_string();
    push_dec(&mut out, file_index as u64);
    out
}

/// The file that a session is kept in, below its directory.
pub fn meta_path() -> (r: String)
    ensures
        r@ == "session.json"@,
{
    "session.json".to_string()
}

/// The file that a chunk is kept in, below the directory of the chunks. While
/// it is being written it has a name that is no number.
pub fn chunk_file(chunk_index: u64, partial: bool) -> (r: String)
    ensures
        r@ == if partial {
            dec(chunk_index as nat) + ".part"@
        } else {
            dec(chunk_index as nat)
        },
{
    let mut out = String::new();
    push_dec(&mut out, chunk_index);
    assert(Seq::<char>::empty() + dec(chunk_index as nat) =~= dec(chunk_index as nat));
    if partial {
        out.append(".part");
    }
    out
}

/// The position of the last `/` in `s`, or -1.
pub open spec fn last_slash(s: Seq<char>) -> int
    decreases s.len(),
{
    if s.len() == 0 {
        -1
    } else if s.last() == '/' {
        s.len() - 1
    } else {
        last_slash(s.drop_last())
    }
}

/// The last part of a path that is neither empty nor a dot, or nothing.
pub open spec fn last_part(s: Seq<char>) -> Seq<char>
    decreases s.len(),
{
    let i = last_slash(s);
    let part = s.subrange(i + 1, s.len() as int);
    if part.len() > 0 && part != seq!['.'] {
        part
    } else if 0 <= i < s.len() {
        last_part(s.subrange(0, i))
    } else {
        seq![]
    }
}

/// The name under which an uploaded file is kept: the last part of the name
/// that the client gave, unless it is hidden.
pub open spec fn safe_name(name: Seq<char>) -> Option<Seq<char>> {
    let part = last_part(name);
    if part.len() == 0 || part[0] == '.' {
        None
    } else {
        Some(part)
    }
}

proof fn last_slash_is_last(s: Seq<char>)
    ensures
        -1 <= last_slash(s) < s.len(),
        last_slash(s) >= 0 ==> s[last_slash(s)] == '/',
        forall|j: int| last_slash(s) < j < s.len() ==> s[j] != '/',
    decreases s.len(),
{
    if s.len() > 0 && s.last() != '/' {
        last_slash_is_last(s.drop_last());
        assert forall|j: int| last_slash(s) < j < s.len() implies s[j] != '/' by {
            if j < s.len() - 1 {
                assert(s.drop_last()[j] == s[j]);
            }
        }
    }
}

proof fn last_slash_at(s: Seq<char>, i: int)
    requires
        -1 <= i < s.len(),
        i >= 0 ==> s[i] == '/',
        forall|j: int| i < j < s.len() ==> s[j] != '/',
    ensures
        last_slash(s) == i,
    decreases s.len(),
{
    if s.len() > 0 && i < s.len() - 1 {
        assert(s.last() != '/');
        let t = s.drop_last();
        assert forall|j: int| i < j < t.len() implies t[j] != '/' by {
            assert(t[j] == s[j]);
        }
        last_slash_at(t, i);
    }
}

/// The name under which an uploaded file is kept.
pub fn sanitize_upload_name(name: &str) -> (r: Result<String, UploadError>)
    ensures
        match r {
            Ok(n) => safe_name(name@) == Some(n@),
            Err(e) => safe_name(name@) is None && (e matches UploadError::InvalidName(n) && n@
                == name@),
        },
{
    let chars = to_chars(name);
    let mut end: usize = chars.len();
    assert(chars@.take(end as int) =~= name@);
    loop
        invariant
            end <= chars@.len(),
            chars@ == name@,
            last_part(chars@.take(end as int)) == last_part(name@),
        decreases end,
    {
        let ghost s = chars@.take(end as int);
        let mut start: usize = end;
        while start > 0 && chars[start - 1] != '/'
            invariant
                start <= end <= chars@.len(),
                s == chars@.take(end as int),
                forall|j: int| start <= j < end ==> s[j] != '/',
            decreases start,
        {
            start = start - 1;
        }
        proof {
            last_slash_at(s, start - 1);
            assert(s.subrange(start as int, s.len() as int) =~= chars@.subrange(
                start as int,
                end as int,
            ));
        }
        let part = vstd::slice::slice_subrange(chars.as_slice(), start, end);
        let dot = part.len() == 1 && part[0] == '.';
        proof {
            if dot {
                assert(part@ =~= seq!['.']);
            }
        }
        if part.len() > 0 && !dot {
            if part[0] == '.' {
                return Err(UploadError::InvalidName(name.to_string()));
            }
            return Ok(from_chars(part));
        }
        if start == 0 {
            return Err(UploadError::InvalidName(name.to_string()));
        }
        assert(s.subrange(0, start - 1) =~= chars@.take(start - 1));
        end = start - 1;
    }
}

proof fn last_part_has_no_slash(s: Seq<char>)
    ensures
        forall|j: int| 0 <= j < last_part(s).len() ==> #[trigger] last_part(s)[j] != '/',
    decreases s.len(),
{
    last_slash_is_last(s);
    let i = last_slash(s);
    let part = s.subrange(i + 1, s.len() as int);
    if part.len() > 0 && part != seq!['.'] {
        assert forall|j: int| 0 <= j < part.len() implies #[trigger] part[j] != '/' by {
            assert(part[j] == s[i + 1 + j]);
        }
        assert(last_part(s) == part);
    } else if 0 <= i < s.len() {
        last_part_has_no_slash(s.subrange(0, i));
        assert(last_part(s) == last_part(s.subrange(0, i)));
    } else {
        assert(last_part(s) == Seq::<char>::empty());
    }
}

/// An uploaded file stays in its directory: its name holds no separator, is not
/// empty and does not begin with a dot.
pub proof fn safe_names_stay_in_their_directory(name: Seq<char>)
    requires
        safe_name(name) is Some,
    ensures
        safe_name(name)->0.len() > 0,
        safe_name(name)->0[0] != '.',
        forall|j: int| 0 <= j < safe_name(name)->0.len() ==> #[trigger] safe_name(name)->0[j] != '/',
{
    last_part_has_no_slash(name);
}

/// How many chunks a file of `size` bytes has.
pub open spec fn chunk_count(size: nat, chunk_size: nat) -> nat {
    if size % chunk_size == 0 {
        size / chunk_size
    } else {
        size / chunk_size + 1
    }
}

/// The length of chunk `i` of a file of `size` bytes.
pub open spec fn chunk_length(size: nat, chunk_size: nat, i: nat) -> int {
    if i + 1 == chunk_count(size, chunk_size) {
        size - i * chunk_size
    } else {
        chunk_size as int
    }
}

/// How many chunks a file of `size` bytes has.
pub fn expected_chunks(size: u64, chunk_size: u64) -> (r: u64)
    requires
        chunk_size > 0,
    ensures
        r == chunk_count(size as nat, chunk_size as nat),
{
    let q: u64 = size / chunk_size;
    if size % chunk_size == 0 {
        q
    } else {
        proof {
            lemma_fundamental_div_mod(size as int, chunk_size as int);
            assert(q < u64::MAX) by (nonlinear_arith)
                requires
                    size == chunk_size * q + size % chunk_size,
                    size % chunk_size > 0,
                    chunk_size > 0,
                    size <= u64::MAX,
            ;
        }
        q + 1
    }
}

proof fn chunk_bounds(size: nat, chunk_size: nat, i: nat)
    requires
        chunk_size > 0,
        i < chunk_count(size, chunk_size),
    ensures
        1 <= chunk_length(size, chunk_size, i) <= chunk_size,
        i * chunk_size + chunk_length(size, chunk_size, i) <= size,
        i + 1 < chunk_count(size, chunk_size) ==> i * chunk_size + chunk_length(size, chunk_size, i)
            == (i + 1) * chunk_size,
        i + 1 == chunk_count(size, chunk_size) ==> i * chunk_size + chunk_length(
            size,
            chunk_size,
            i,
        ) == size,
{
    let q = size / chunk_size;
    let r = size % chunk_size;
    lemma_fundamental_div_mod(size as int, chunk_size as int);
    assert((i + 1) * chunk_size == i * chunk_size + chunk_size) by (nonlinear_arith);
    if i + 1 == chunk_count(size, chunk_size) {
        if r == 0 {
            assert(i * chunk_size + chunk_size == chunk_size * q) by (nonlinear_arith)
                requires
                    i + 1 == q,
            ;
        } else {
            assert(i * chunk_size == chunk_size * q) by (nonlinear_arith)
                requires
                    i == q,
            ;
        }
    } else {
        assert((i + 1) * chunk_size <= chunk_size * q) by (nonlinear_arith)
            requires
                i + 1 <= q,
                chunk_size > 0,
        ;
    }
}

/// The bytes of the first `n` chunks.
pub open spec fn first_lengths(size: nat, chunk_size: nat, n: nat) -> int
    decreases n,
{
    if n == 0 {
        0
    } else {
        first_lengths(size, chunk_size, (n - 1) as nat) + chunk_length(
            size,
            chunk_size,
            (n - 1) as nat,
        )
    }
}

/// The chunks of a file follow each other without gaps and make up the whole
/// file: chunk `n` starts where the chunks before it end, none is empty or
/// longer than a chunk, and all of them together are as long as the file.
pub proof fn chunks_make_up_the_file(size: nat, chunk_size: nat, n: nat)
    requires
        chunk_size > 0,
        n <= chunk_count(size, chunk_size),
    ensures
        n < chunk_count(size, chunk_size) ==> first_lengths(size, chunk_size, n) == n * chunk_size
            && 1 <= chunk_length(size, chunk_size, n) <= chunk_size,
        n == chunk_count(size, chunk_size) ==> first_lengths(size, chunk_size, n) == size,
    decreases n,
{
    if n > 0 {
        chunks_make_up_the_file(size, chunk_size, (n - 1) as nat);
        chunk_bounds(size, chunk_size, (n - 1) as nat);
    } else {
        lemma_fundamental_div_mod(size as int, chunk_size as int);
        if chunk_count(size, chunk_size) == 0 {
            assert(chunk_size * (size / chunk_size) == 0) by (nonlinear_arith)
                requires
                    size / chunk_size == 0,
            ;
        }
    }
    if n < chunk_count(size, chunk_size) {
        chunk_bounds(size, chunk_size, n);
    }
}

/// Whether file `i` is declared well: its name can be kept, and it is not a
/// second packed model.
pub open spec fn file_fits(files: Seq<InitFile>, i: int) -> bool {
    &&& safe_name(files[i].name@) is Some
    &&& !(is_artifact(files, i) && exists|j: int| 0 <= j < i && #[trigger] is_artifact(files, j))
}

/// Whether file `i` is a packed model.
pub open spec fn is_artifact(files: Seq<InitFile>, i: int) -> bool {
    safe_name(files[i].name@) matches Some(n) && has_suffix(n, ".lma"@)
}

/// The sizes of the first `n` files, up to the largest number.
pub open spec fn total_size(files: Seq<InitFile>, n: int) -> u64
    decreases n,
{
    if n <= 0 {
        0
    } else {
        let sum = total_size(files, n - 1) + files[n - 1].size;
        if sum <= u64::MAX {
            sum as u64
        } else {
            u64::MAX
        }
    }
}

/// Whether `s` is the file that `f` declares.
pub open spec fn declares(f: InitFile, s: SessionFile) -> bool {
    &&& safe_name(f.name@) == Some(s.name@)
    &&& s.size == f.size
    &&& s.sha256 == f.sha256
    &&& s.is_lma == has_suffix(s.name@, ".lma"@)
}

/// Whether `i` is the first file that does not fit.
pub open spec fn first_misfit(files: Seq<InitFile>, i: int) -> bool {
    &&& 0 <= i < files.len()
    &&& !file_fits(files, i)
    &&& forall|j: int| 0 <= j < i ==> #[trigger] file_fits(files, j)
}

/// Checks what a client declares when it opens a session.
pub fn declare_files(files: &Vec<InitFile>, max_upload_bytes: Option<u64>) -> (r: Result<
    Vec<SessionFile>,
    UploadError,
>)
    ensures
        ({
            let n = files@.len() as int;
            let counted = 1 <= n <= 1024;
            let all_fit = forall|i: int| 0 <= i < n ==> #[trigger] file_fits(files@, i);
            let total = total_size(files@, n);
            match r {
                Ok(s) => {
                    &&& counted
                    &&& all_fit
                    &&& max_upload_bytes matches Some(max) ==> total <= max
                    &&& s@.len() == n
                    &&& forall|i: int| 0 <= i < n ==> declares(files@[i], #[trigger] s@[i])
                },
                Err(UploadError::FileCount) => !counted,
                Err(UploadError::InvalidName(name)) => counted && exists|i: int|
                    #[trigger] first_misfit(files@, i) && safe_name(files@[i].name@) is None
                        && name@ == files@[i].name@,
                Err(UploadError::SecondArtifact) => counted && exists|i: int|
                    #[trigger] first_misfit(files@, i) && safe_name(files@[i].name@) is Some,
                Err(UploadError::TotalTooLarge { max, actual }) => counted && all_fit
                    && max_upload_bytes == Some(max) && actual == total && actual > max,
                Err(_) => false,
            }
        }),
{
    if files.len() == 0 || files.len() > MAX_SESSION_FILES {
        return Err(UploadError::FileCount);
    }
    let mut out: Vec<SessionFile> = Vec::new();
    let mut total: u64 = 0;
    let mut have_artifact = false;
    let mut i: usize = 0;
    while i < files.len()
        invariant
            i <= files@.len() <= 1024,
            files@.len() >= 1,
            total == total_size(files@, i as int),
            out@.len() == i,
            forall|j: int| 0 <= j < i ==> #[trigger] file_fits(files@, j),
            forall|j: int| 0 <= j < i ==> declares(files@[j], #[trigger] out@[j]),
            have_artifact == exists|j: int| 0 <= j < i && #[trigger] is_artifact(files@, j),
        decreases files.len() - i,
    {
        let safe = match sanitize_upload_name(files[i].name.as_str()) {
            Ok(s) => s,
            Err(e) => {
                assert(first_misfit(files@, i as int));
                return Err(e);
            },
        };
        let chars = to_chars(safe.as_str());
        let is_lma = ends_with(chars.as_slice(), ".lma");
        assert(is_lma == is_artifact(files@, i as int));
        if is_lma && have_artifact {
            assert(first_misfit(files@, i as int));
            return Err(UploadError::SecondArtifact);
        }
        assert(file_fits(files@, i as int));
        total = if files[i].size <= u64::MAX - total {
            total + files[i].size
        } else {
            u64::MAX
        };
        let sha256 = match &files[i].sha256 {
            Some(d) => Some(d.clone()),
            None => None,
        };
        out.push(SessionFile { name: safe, size: files[i].size, sha256, is_lma });
        if is_lma {
            have_artifact = true;
        }
        i = i + 1;
    }
    if let Some(max) = max_upload_bytes {
        if total > max {
            return Err(UploadError::TotalTooLarge { max, actual: total });
        }
    }
    Ok(out)
}

/// Whether a model version with `active` sessions may have another.
pub fn may_open_session(active: usize) -> (r: Result<(), UploadError>)
    ensures
        match r {
            Ok(_) => active < 8,
            Err(e) => active >= 8 && e is TooManySessions,
        },
{
    if active >= MAX_ACTIVE_SESSIONS {
        Err(UploadError::TooManySessions)
    } else {
        Ok(())
    }
}

/// A new session.
pub fn open_session(model: &str, version: &str, files: Vec<SessionFile>) -> (r: SessionMeta)
    ensures
        r.model@ == model@,
        r.version@ == version@,
        r.chunk_size == 16 * 1024 * 1024,
        r.files == files,
        r.state == SessionState::Uploading,
{
    SessionMeta {
        model: model.to_string(),
        version: version.to_string(),
        chunk_size: default_chunk_size(),
        files,
        state: SessionState::Uploading,
    }
}

/// Whether a session belongs to a model version. One that does not is as good
/// as unknown.
pub fn check_owner(meta: &SessionMeta, model: &str, version: &str) -> (r: Result<(), UploadError>)
    ensures
        match r {
            Ok(_) => meta.model@ == model@ && meta.version@ == version@,
            Err(e) => !(meta.model@ == model@ && meta.version@ == version@)
                && e is SessionNotFound,
        },
{
    if same_text(meta.model.as_str(), model) && same_text(meta.version.as_str(), version) {
        Ok(())
    } else {
        Err(UploadError::SessionNotFound)
    }
}

/// A chunk that is being received.
pub struct ChunkWrite {
    pub chunk_index: u64,
    pub want: u64,
    pub chunk_size: u64,
    pub written: u64,
}

/// Begins to receive chunk `chunk_index` of file `file_index`.
pub fn begin_chunk(meta: &SessionMeta, file_index: usize, chunk_index: u64) -> (r: Result<
    ChunkWrite,
    UploadError,
>)
    requires
        meta.chunk_size > 0,
    ensures
        ({
            let expected = chunk_count(
                meta.files@[file_index as int].size as nat,
                meta.chunk_size as nat,
            );
            match r {
                Ok(w) => {
                    &&& meta.state == SessionState::Uploading
                    &&& file_index < meta.files@.len()
                    &&& chunk_index < expected
                    &&& w.chunk_index == chunk_index
                    &&& w.chunk_size == meta.chunk_size
                    &&& w.written == 0
                    &&& w.want == chunk_length(
                        meta.files@[file_index as int].size as nat,
                        meta.chunk_size as nat,
                        chunk_index as nat,
                    )
                },
                Err(UploadError::NoMoreChunks) => meta.state != SessionState::Uploading,
                Err(UploadError::FileOutOfRange { index }) => meta.state == SessionState::Uploading
                    && file_index >= meta.files@.len() && index == file_index,
                Err(UploadError::ChunkOutOfRange { chunk, file, expected: n }) => {
                    &&& meta.state == SessionState::Uploading
                    &&& file_index < meta.files@.len()
                    &&& chunk_index >= expected
                    &&& chunk == chunk_index
                    &&& file == file_index
                    &&& n == expected
                },
                Err(_) => false,
            }
        }),
{
    match meta.state {
        SessionState::Uploading => {},
        SessionState::Completing => return Err(UploadError::NoMoreChunks),
    }
    if file_index >= meta.files.len() {
        return Err(UploadError::FileOutOfRange { index: file_index });
    }
    let size: u64 = meta.files[file_index].size;
    let chunk_size: u64 = meta.chunk_size;
    let expected: u64 = expected_chunks(size, chunk_size);
    if chunk_index >= expected {
        return Err(
            UploadError::ChunkOutOfRange { chunk: chunk_index, file: file_index, expected },
        );
    }
    proof {
        chunk_bounds(size as nat, chunk_size as nat, chunk_index as nat);
    }
    let want: u64 = if chunk_index + 1 == expected {
        size - chunk_index * chunk_size
    } else {
        chunk_size
    };
    Ok(ChunkWrite { chunk_index, want, chunk_size, written: 0 })
}

impl ChunkWrite {
    /// Takes in `len` more bytes of the chunk.
    pub fn accept(&mut self, len: usize) -> (r: Result<(), UploadError>)
        ensures
            final(self).chunk_index == old(self).chunk_index,
            final(self).want == old(self).want,
            final(self).chunk_size == old(self).chunk_size,
            match r {
                Ok(_) => old(self).written + len <= old(self).want && final(self).written == old(
                    self,
                ).written + len,
                Err(UploadError::ChunkTooLarge { max, actual }) => {
                    &&& old(self).written + len > old(self).want
                    &&& old(self).written + len > old(self).chunk_size
                    &&& max == old(self).chunk_size
                    &&& actual == if old(self).written + len <= u64::MAX {
                        old(self).written + len
                    } else {
                        u64::MAX as int
                    }
                },
                Err(UploadError::ChunkLength { chunk, want, got }) => {
                    &&& old(self).written + len > old(self).want
                    &&& old(self).written + len <= old(self).chunk_size
                    &&& chunk == old(self).chunk_index
                    &&& want == old(self).want
                    &&& got is None
                },
                Err(_) => false,
            },
    {
        let sum: u128 = self.written as u128 + len as u128;
        let actual: u64 = if sum <= u64::MAX as u128 {
            sum as u64
        } else {
            u64::MAX
        };
        self.written = actual;
        if sum > self.want as u128 {
            if sum > self.chunk_size as u128 {
                return Err(UploadError::ChunkTooLarge { max: self.chunk_size, actual });
            }
            return Err(
                UploadError::ChunkLength { chunk: self.chunk_index, want: self.want, got: None },
            );
        }
        Ok(())
    }

    /// Ends the chunk, which must be whole.
    pub fn finish(&self) -> (r: Result<(), UploadError>)
        ensures
            match r {
                Ok(_) => self.written == self.want,
                Err(UploadError::ChunkLength { chunk, want, got }) => self.written != self.want
                    && chunk == self.chunk_index && want == self.want && got == Some(self.written),
                Err(_) => false,
            },
    {
        if self.written != self.want {
            return Err(
                UploadError::ChunkLength {
                    chunk: self.chunk_index,
                    want: self.want,
                    got: Some(self.written),
                },
            );
        }
        Ok(())
    }
}

/// The numbers among the first `n` names.
pub open spec fn numbers_among(names: Seq<String>, n: int) -> Seq<u64>
    decreases n,
{
    if n <= 0 {
        seq![]
    } else {
        match unsigned(names[n - 1]@, u64::MAX as nat) {
            Some(v) => numbers_among(names, n - 1).push(v as u64),
            None => numbers_among(names, n - 1),
        }
    }
}

pub open spec fn is_sorted(s: Seq<u64>) -> bool {
    forall|i: int, j: int| 0 <= i <= j < s.len() ==> s[i] <= s[j]
}

/// The chunks that have arrived, in order: `names` are the files in the
/// directory of the chunks, and those that are no number are still being
/// written.
pub fn received_chunks(names: &Vec<String>) -> (r: Vec<u64>)
    ensures
        is_sorted(r@),
        r@.to_multiset() == numbers_among(names@, names@.len() as int).to_multiset(),
        r@.len() == numbers_among(names@, names@.len() as int).len(),
{
    broadcast use vstd::seq_lib::group_to_multiset_ensures;

    let mut out: Vec<u64> = Vec::new();
    let mut i: usize = 0;
    while i < names.len()
        invariant
            i <= names@.len(),
            is_sorted(out@),
            out@.to_multiset() == numbers_among(names@, i as int).to_multiset(),
            out@.len() == numbers_among(names@, i as int).len(),
        decreases names.len() - i,
    {
        let chars = to_chars(names[i].as_str());
        if let Some(v) = parse_unsigned(chars.as_slice(), u64::MAX) {
            let mut at: usize = out.len();
            while at > 0 && out[at - 1] > v
                invariant
                    at <= out@.len(),
                    is_sorted(out@),
                    forall|j: int| at <= j < out@.len() ==> out@[j] > v,
                decreases at,
            {
                at = at - 1;
            }
            let ghost before = out@;
            out.insert(at, v);
            proof {
                assert(out@ =~= before.insert(at as int, v));
                vstd::seq_lib::to_multiset_insert(before, at as int, v);
                let numbers = numbers_among(names@, i as int);
                vstd::seq_lib::to_multiset_build(numbers, v);
                assert(numbers_among(names@, i + 1) == numbers.push(v));
                assert forall|a: int, b: int| 0 <= a <= b < out@.len() implies out@[a]
                    <= out@[b] by {
                    let x = if a < at {
                        a
                    } else {
                        a - 1
                    };
                    let y = if b < at {
                        b
                    } else {
                        b - 1
                    };
                    if a != at && b != at {
                        assert(out@[a] == before[x] && out@[b] == before[y]);
                    } else if a == at && b > at {
                        assert(out@[b] == before[y]);
                    } else if b == at && a < at {
                        assert(out@[a] == before[a]);
                        assert(before[a] <= before[at - 1]);
                    }
                }
            }
        }
        i = i + 1;
    }
    out
}

/// Whether all chunks of a file have arrived.
pub fn file_complete(received: usize, size: u64, chunk_size: u64) -> (r: bool)
    requires
        chunk_size > 0,
    ensures
        r == (received == chunk_count(size as nat, chunk_size as nat)),
{
    received as u64 == expected_chunks(size, chunk_size)
}

/// Whether file `i` is the first of which chunks are missing.
pub open spec fn first_incomplete(meta: SessionMeta, received: Seq<usize>, i: int) -> bool {
    &&& 0 <= i < meta.files@.len()
    &&& received[i] != chunk_count(meta.files@[i].size as nat, meta.chunk_size as nat)
    &&& forall|j: int|
        0 <= j < i ==> #[trigger] received[j] == chunk_count(
            meta.files@[j].size as nat,
            meta.chunk_size as nat,
        )
}

/// A session whose files are being put together.
pub open spec fn completing(m: SessionMeta) -> SessionMeta {
    SessionMeta { state: SessionState::Completing, ..m }
}

/// A session that takes chunks.
pub open spec fn uploading(m: SessionMeta) -> SessionMeta {
    SessionMeta { state: SessionState::Uploading, ..m }
}

/// A completion that fails leaves the session as it was: the client can send
/// chunks again and complete it once more.
pub proof fn failed_completions_change_nothing(m: SessionMeta)
    requires
        m.state == SessionState::Uploading,
    ensures
        completing(m).state != SessionState::Uploading,
        uploading(completing(m)) == m,
{
}

/// Begins to put the files of a session together. `received` says how many
/// chunks of each file have arrived. A session that cannot be completed is left
/// as it is.
pub fn begin_completion(meta: &mut SessionMeta, received: &Vec<usize>) -> (r: Result<
    (),
    UploadError,
>)
    requires
        old(meta).chunk_size > 0,
        received@.len() == old(meta).files@.len(),
    ensures
        *final(meta) == if r is Ok {
            completing(*old(meta))
        } else {
            *old(meta)
        },
        match r {
            Ok(_) => {
                &&& old(meta).state == SessionState::Uploading
                &&& forall|i: int|
                    0 <= i < received@.len() ==> #[trigger] received@[i] == chunk_count(
                        old(meta).files@[i].size as nat,
                        old(meta).chunk_size as nat,
                    )
            },
            Err(UploadError::AlreadyCompleting) => old(meta).state != SessionState::Uploading,
            Err(UploadError::MissingChunks { name, missing }) => {
                &&& old(meta).state == SessionState::Uploading
                &&& exists|i: int|
                    {
                        &&& #[trigger] first_incomplete(*old(meta), received@, i)
                        &&& name@ == old(meta).files@[i].name@
                        &&& missing == {
                            let expected = chunk_count(
                                old(meta).files@[i].size as nat,
                                old(meta).chunk_size as nat,
                            );
                            if expected >= received@[i] {
                                expected - received@[i]
                            } else {
                                0
                            }
                        }
                    }
            },
            Err(_) => false,
        },
{
    match meta.state {
        SessionState::Uploading => {},
        SessionState::Completing => return Err(UploadError::AlreadyCompleting),
    }
    let mut i: usize = 0;
    while i < meta.files.len()
        invariant
            i <= meta.files@.len(),
            *meta == *old(meta),
            meta.chunk_size > 0,
            meta.state == SessionState::Uploading,
            received@.len() == meta.files@.len(),
            forall|j: int|
                0 <= j < i ==> #[trigger] received@[j] == chunk_count(
                    meta.files@[j].size as nat,
                    meta.chunk_size as nat,
                ),
        decreases meta.files.len() - i,
    {
        let expected: u64 = expected_chunks(meta.files[i].size, meta.chunk_size);
        let have: u64 = received[i] as u64;
        if have != expected {
            assert(first_incomplete(*old(meta), received@, i as int));
            let missing: u64 = if expected >= have {
                expected - have
            } else {
                0
            };
            return Err(
                UploadError::MissingChunks { name: meta.files[i].name.clone(), missing },
            );
        }
        i = i + 1;
    }
    meta.state = SessionState::Completing;
    Ok(())
}

/// Takes a session whose files could not be put together back to where it was,
/// so that the client can mend it.
pub fn revert_completion(meta: &mut SessionMeta)
    ensures
        *final(meta) == uploading(*old(meta)),
{
    meta.state = SessionState::Uploading;
}

/// Where a file goes below the directory of its session: a packed model to the
/// top, any other file to the directory of the version.
pub fn destination(file: &SessionFile, version: &str) -> (r: String)
    ensures
        r@ == if file.is_lma {
            file.name@
        } else {
            version@ + "/"@ + file.name@
        },
{
    if file.is_lma {
        return file.name.clone();
    }
    let mut out = version.to_string();
    out.append("/");
    out.append(file.name.as_str());
    out
}

/// A running SHA-256 digest.
#[verifier::external_body]
pub struct FileHasher {
    inner: sha2::Sha256,
}

/// The bytes that a running digest has taken in.
pub uninterp spec fn hashed_bytes(h: FileHasher) -> Seq<u8>;

/// The SHA-256 digest of `bytes` in lower-case hexadecimal.
pub uninterp spec fn sha256_hex(bytes: Seq<u8>) -> Seq<char>;

/// `Sha256::new` has taken in nothing.
#[verifier::external_body]
fn new_hasher() -> (h: FileHasher)
    ensures
        hashed_bytes(h) == Seq::<u8>::empty(),
{
    FileHasher { inner: sha2::Digest::new() }
}

/// `Sha256::update` takes in more bytes.
#[verifier::external_body]
fn hash_more(h: &mut FileHasher, data: &[u8])
    ensures
        hashed_bytes(*final(h)) == hashed_bytes(*old(h)) + data@,
{
    sha2::Digest::update(&mut h.inner, data);
}

/// `Sha256::finalize`, written in hexadecimal: the digest of what was taken in.
#[verifier::external_body]
fn hex_digest(h: FileHasher) -> (r: String)
    ensures
        r@ == sha256_hex(hashed_bytes(h)),
{
    format!("{:x}", sha2::Digest::finalize(h.inner))
}

/// A file that is being put together from its chunks.
pub struct Assembly {
    total: u64,
    hasher: Option<FileHasher>,
    written: Ghost<Seq<u8>>,
}

impl Assembly {
    /// The bytes that were put together so far.
    pub closed spec fn bytes(&self) -> Seq<u8> {
        self.written@
    }

    pub closed spec fn hashes(&self) -> bool {
        self.hasher is Some
    }

    pub closed spec fn wf(&self) -> bool {
        &&& self.total == self.written@.len()
        &&& self.hasher matches Some(h) ==> hashed_bytes(h) == self.written@
    }

    /// Begins with nothing. A digest is kept where the client declared one.
    pub fn new(file: &SessionFile) -> (a: Self)
        ensures
            a.wf(),
            a.bytes() == Seq::<u8>::empty(),
            a.hashes() == (file.sha256 is Some),
    {
        let hasher = match &file.sha256 {
            Some(_) => Some(new_hasher()),
            None => None,
        };
        Assembly { total: 0, hasher, written: Ghost(Seq::empty()) }
    }

    /// Adds the next chunk.
    pub fn append_chunk(&mut self, data: &[u8])
        requires
            old(self).wf(),
            old(self).bytes().len() + data@.len() <= u64::MAX,
        ensures
            final(self).wf(),
            final(self).bytes() == old(self).bytes() + data@,
            final(self).hashes() == old(self).hashes(),
    {
        self.total = self.total + data.len() as u64;
        self.written = Ghost(self.written@ + data@);
        if let Some(mut h) = self.hasher.take() {
            hash_more(&mut h, data);
            self.hasher = Some(h);
        }
    }

    /// Checks the whole file against what the client declared.
    pub fn finish(self, file: &SessionFile) -> (r: Result<(), UploadError>)
        requires
            self.wf(),
            self.hashes() == (file.sha256 is Some),
        ensures
            ({
                let size_fits = self.bytes().len() == file.size;
                let digest = sha256_hex(self.bytes());
                match r {
                    Ok(_) => size_fits && (file.sha256 matches Some(d) ==> d@ == digest),
                    Err(UploadError::SizeMismatch { name, size, assembled }) => !size_fits && name@
                        == file.name@ && size == file.size && assembled == self.bytes().len(),
                    Err(UploadError::DigestMismatch { name, digest: declared, computed }) => {
                        &&& size_fits
                        &&& file.sha256 matches Some(d) && d@ != digest && declared@ == d@
                        &&& name@ == file.name@
                        &&& computed@ == digest
                    },
                    Err(_) => false,
                }
            }),
    {
        if self.total != file.size {
            return Err(
                UploadError::SizeMismatch {
                    name: file.name.clone(),
                    size: file.size,
                    assembled: self.total,
                },
            );
        }
        match (self.hasher, &file.sha256) {
            (Some(h), Some(declared)) => {
                let actual = hex_digest(h);
                if !same_text(actual.as_str(), declared.as_str()) {
                    return Err(
                        UploadError::DigestMismatch {
                            name: file.name.clone(),
                            digest: declared.clone(),
                            computed: actual,
                        },
                    );
                }
                Ok(())
            },
            _ => Ok(()),
        }
    }
}

/// The sizes of the first `n` files together, however large.
pub open spec fn sizes_together(files: Seq<InitFile>, n: int) -> nat
    decreases n,
{
    if n <= 0 {
        0
    } else {
        sizes_together(files, n - 1) + files[n - 1].size as nat
    }
}

/// The total is the sum of the sizes, or the largest number where the sum is
/// larger: no file is left out of it, and none counts for less than its size.
pub proof fn the_total_is_the_sum(files: Seq<InitFile>, n: int)
    requires
        0 <= n <= files.len(),
    ensures
        sizes_together(files, n) <= u64::MAX ==> total_size(files, n) == sizes_together(files, n),
        sizes_together(files, n) > u64::MAX ==> total_size(files, n) == u64::MAX,
        forall|i: int| 0 <= i < n ==> (#[trigger] files[i]).size <= total_size(files, n),
        forall|i: int, j: int|
            0 <= i < j < n && (#[trigger] files[i]).size + (#[trigger] files[j]).size <= u64::MAX
                ==> files[i].size + files[j].size <= total_size(files, n),
    decreases n,
{
    if n > 0 {
        the_total_is_the_sum(files, n - 1);
    }
}

/// A session whose files fit into a limit below the largest number by their total
/// holds no more bytes than the limit, and one whose files do not fit holds more.
pub proof fn accepted_files_fit_together(files: Seq<InitFile>, max: u64)
    requires
        max < u64::MAX,
    ensures
        total_size(files, files.len() as int) <= max <==> sizes_together(files, files.len() as int)
            <= max,
{
    the_total_is_the_sum(files, files.len() as int);
}

/// Sessions are only ever opened for well-declared files: each is kept under the
/// last part of its name, and no two of them are packed models.
pub proof fn one_artifact_at_most(files: Seq<InitFile>, i: int, j: int)
    requires
        0 <= i < j < files.len(),
        safe_name(files[i].name@) is Some,
        safe_name(files[j].name@) is Some,
        ({
            let a = safe_name(files[i].name@)->0;
            a.len() >= 4 && a.subrange(a.len() - 4, a.len() as int) == seq!['.', 'l', 'm', 'a']
        }),
        ({
            let b = safe_name(files[j].name@)->0;
            b.len() >= 4 && b.subrange(b.len() - 4, b.len() as int) == seq!['.', 'l', 'm', 'a']
        }),
    ensures
        !file_fits(files, j),
        exists|k: int| #[trigger] first_misfit(files, k) && k <= j,
{
    reveal_strlit(".lma");
    assert(".lma"@ =~= seq!['.', 'l', 'm', 'a']);
    assert(is_artifact(files, i));
    assert(is_artifact(files, j));
    some_file_is_first(files, j);
}

proof fn some_file_is_first(files: Seq<InitFile>, j: int)
    requires
        0 <= j < files.len(),
        !file_fits(files, j),
    ensures
        exists|k: int| #[trigger] first_misfit(files, k) && k <= j,
    decreases j,
{
    if exists|i: int| 0 <= i < j && !#[trigger] file_fits(files, i) {
        let i = choose|i: int| 0 <= i < j && !#[trigger] file_fits(files, i);
        some_file_is_first(files, i);
    } else {
        assert(first_misfit(files, j));
    }
}

/// The name of a file is the part of the given name behind its last separator.
pub proof fn names_are_their_last_parts(before: Seq<char>, part: Seq<char>)
    requires
        part.len() > 0,
        part[0] != '.',
        forall|j: int| 0 <= j < part.len() ==> #[trigger] part[j] != '/',
    ensures
        safe_name(part) == Some(part),
        safe_name(before + seq!['/'] + part) == Some(part),
        safe_name(before + seq!['/'] + part + seq!['/']) == Some(part),
        safe_name(before + seq!['/'] + part + seq!['/', '.']) == Some(part),
{
    last_slash_at(part, -1);
    assert(part.subrange(0, part.len() as int) =~= part);
    let whole = before + seq!['/'] + part;
    let at = before.len() as int;
    last_slash_at(whole, at);
    assert(whole.subrange(at + 1, whole.len() as int) =~= part);
    assert(part != seq!['.']);
    assert(last_part(whole) == part);
    trailing_separators(whole);
}

proof fn trailing_separators(s: Seq<char>)
    ensures
        last_part(s + seq!['/']) == last_part(s),
        last_part(s + seq!['/', '.']) == last_part(s),
{
    let one = s + seq!['/'];
    last_slash_at(one, s.len() as int);
    assert(one.subrange(s.len() as int + 1, one.len() as int) =~= Seq::<char>::empty());
    assert(one.subrange(0, s.len() as int) =~= s);
    let two = s + seq!['/', '.'];
    last_slash_at(two, s.len() as int);
    assert(two.subrange(s.len() as int + 1, two.len() as int) =~= seq!['.']);
    assert(two.subrange(0, s.len() as int) =~= s);
}

/// No file is kept under a hidden name, the name of a directory above, or none.
pub proof fn hidden_names_are_refused(before: Seq<char>, part: Seq<char>)
    requires
        part.len() > 1,
        part[0] == '.',
        forall|j: int| 0 <= j < part.len() ==> #[trigger] part[j] != '/',
    ensures
        safe_name(part) is None,
        safe_name(before + seq!['/'] + part) is None,
        safe_name(Seq::empty()) is None,
{
    last_slash_at(part, -1);
    assert(part.subrange(0, part.len() as int) =~= part);
    let whole = before + seq!['/'] + part;
    let at = before.len() as int;
    last_slash_at(whole, at);
    assert(whole.subrange(at + 1, whole.len() as int) =~= part);
    last_slash_at(Seq::empty(), -1);
    assert(Seq::<char>::empty().subrange(0, 0) =~= Seq::empty());
    assert(part != seq!['.']) by {
        assert(part.len() != seq!['.'].len());
    }
    assert(last_part(part) == part);
    assert(last_part(whole) == part);
    assert(last_part(Seq::<char>::empty()).len() == 0);
}

/// A file has as many chunks as it takes: one chunk fewer would not hold it, and
/// all but the last are full.
pub proof fn chunks_are_as_few_as_possible(size: nat, chunk_size: nat, i: nat)
    requires
        chunk_size > 0,
    ensures
        size <= chunk_count(size, chunk_size) * chunk_size,
        chunk_count(size, chunk_size) > 0 ==> (chunk_count(size, chunk_size) - 1) * chunk_size
            < size,
        i + 1 < chunk_count(size, chunk_size) ==> chunk_length(size, chunk_size, i) == chunk_size,
        size > 0 && i + 1 == chunk_count(size, chunk_size) ==> i * chunk_size + chunk_length(
            size,
            chunk_size,
            i,
        ) == size,
{
    lemma_fundamental_div_mod(size as int, chunk_size as int);
    let q = size / chunk_size;
    assert(q * chunk_size == chunk_size * q) by (nonlinear_arith);
    assert((q + 1) * chunk_size == chunk_size * q + chunk_size) by (nonlinear_arith);
    assert((q - 1) * chunk_size == chunk_size * q - chunk_size) by (nonlinear_arith);
}

/// A number is among the chunks that have arrived exactly as often as a file of
/// the directory has it for a name.
pub proof fn arrived_chunks_are_numbers(names: Seq<String>, n: int, v: u64)
    requires
        0 <= n <= names.len(),
    ensures
        numbers_among(names, n).contains(v) <==> exists|i: int|
            0 <= i < n && unsigned((#[trigger] names[i])@, u64::MAX as nat) == Some(v as nat),
        numbers_among(names, n).len() <= n,
        (forall|i: int|
            0 <= i < n ==> unsigned((#[trigger] names[i])@, u64::MAX as nat) is Some)
            ==> numbers_among(names, n).len() == n,
    decreases n,
{
    if n > 0 {
        let before = numbers_among(names, n - 1);
        let all = numbers_among(names, n);
        arrived_chunks_are_numbers(names, n - 1, v);
        crate::text::numbers_stay_below(names[n - 1]@, u64::MAX as nat);
        if all.contains(v) {
            let k = choose|k: int| 0 <= k < all.len() && all[k] == v;
            if k < before.len() {
                assert(before[k] == v);
                assert(before.contains(v));
            } else {
                assert(unsigned(names[n - 1]@, u64::MAX as nat) == Some(v as nat));
            }
        }
        if before.contains(v) {
            let k = choose|k: int| 0 <= k < before.len() && before[k] == v;
            assert(all[k] == v);
        }
        if unsigned(names[n - 1]@, u64::MAX as nat) == Some(v as nat) {
            assert(all[all.len() - 1] == v);
        }
    } else {
        assert(!numbers_among(names, n).contains(v));
    }
}

/// What a client did wrong, what is not there, what is too large and what comes at
/// the wrong time are kept apart: only what sizes forbid is too large, only an
/// unknown session is not found, and a session that is being completed, is
/// incomplete or is one too many is a conflict.
pub proof fn refusals_have_their_kind(e: UploadError)
    ensures
        e.kind_spec() == ErrorKind::TooLarge <==> e is TotalTooLarge || e is ChunkTooLarge,
        e.kind_spec() == ErrorKind::NotFound <==> e is SessionNotFound,
        e.kind_spec() == ErrorKind::Conflict <==> e is TooManySessions || e is NoMoreChunks
            || e is AlreadyCompleting || e is MissingChunks,
        e.kind_spec() == ErrorKind::InvalidBody <==> e is SecondArtifact || e is ChunkLength
            || e is SizeMismatch || e is DigestMismatch,
        e.kind_spec() == ErrorKind::Validation <==> e is InvalidSessionId || e is FileCount
            || e is InvalidName || e is FileOutOfRange || e is ChunkOutOfRange,
{
}

/// Completing a session and taking that back touch its state only.
pub proof fn completing_touches_the_state_only(m: SessionMeta)
    ensures
        completing(m).state == SessionState::Completing,
        uploading(m).state == SessionState::Uploading,
        completing(m).model == m.model && uploading(m).model == m.model,
        completing(m).version == m.version && uploading(m).version == m.version,
        completing(m).chunk_size == m.chunk_size && uploading(m).chunk_size == m.chunk_size,
        completing(m).files == m.files && uploading(m).files == m.files,
{
}

/// A session keeps each file under its safe name, with the size and digest that
/// were declared, and knows packed models by the end of their names.
pub proof fn declared_files_are_kept(f: InitFile, s: SessionFile, before: Seq<char>, base: Seq<char>)
    requires
        declares(f, s),
    ensures
        s.size == f.size,
        s.sha256 == f.sha256,
        base.len() > 0 && base[0] != '.' && (forall|j: int|
            0 <= j < base.len() ==> #[trigger] base[j] != '/') && f.name@ == before + seq!['/']
            + base ==> s.name@ == base,
        s.is_lma <==> s.name@.len() >= 4 && s.name@.subrange(
            s.name@.len() - 4,
            s.name@.len() as int,
        ) == seq!['.', 'l', 'm', 'a'],
{
    reveal_strlit(".lma");
    assert(".lma"@ =~= seq!['.', 'l', 'm', 'a']);
    if base.len() > 0 && base[0] != '.' && (forall|j: int|
        0 <= j < base.len() ==> #[trigger] base[j] != '/') {
        names_are_their_last_parts(before, base);
    }
}

/// A session is complete exactly where of each file as many chunks have arrived as
/// it takes to hold it. The first file of which that is not so is the one that is
/// reported.
pub proof fn the_first_incomplete_file_is_reported(
    m: SessionMeta,
    received: Seq<usize>,
    i: int,
    j: int,
)
    requires
        m.chunk_size > 0,
        first_incomplete(m, received, i),
        0 <= j < m.files@.len(),
    ensures
        0 <= i < m.files@.len(),
        received[i] * m.chunk_size < m.files@[i].size || (received[i] - 1) * m.chunk_size
            >= m.files@[i].size,
        j < i ==> received[j] * m.chunk_size >= m.files@[j].size && (received[j] > 0 ==> (received[j]
            - 1) * m.chunk_size < m.files@[j].size),
        first_incomplete(m, received, j) ==> i == j,
{
    let size = m.files@[i].size as nat;
    let chunk = m.chunk_size as nat;
    let want = chunk_count(size, chunk);
    let have = received[i] as nat;
    chunks_are_as_few_as_possible(size, chunk, 0);
    if have < want {
        assert(have * chunk <= (want - 1) * chunk) by (nonlinear_arith)
            requires
                have <= want - 1,
                chunk > 0,
        ;
    } else {
        assert(want * chunk <= (have - 1) * chunk) by (nonlinear_arith)
            requires
                want <= have - 1,
                chunk > 0,
        ;
    }
    if j < i {
        assert(received[j] == chunk_count(m.files@[j].size as nat, chunk));
        chunks_are_as_few_as_possible(m.files@[j].size as nat, chunk, 0);
    }
}

/// A refusal names what it is about: the file, the chunk, and what was expected and
/// what came.
pub proof fn refusals_name_what_they_are_about(e: UploadError, model: Seq<char>, version: Seq<char>)
    ensures
        e matches UploadError::InvalidName(n) ==> mentions(e.words(model, version), n@),
        e is TooManySessions ==> mentions(e.words(model, version), model) && mentions(
            e.words(model, version),
            version,
        ),
        e matches UploadError::FileOutOfRange { index } ==> mentions(
            e.words(model, version),
            dec(index as nat),
        ),
        e matches UploadError::ChunkOutOfRange { chunk, file, expected } ==> mentions(
            e.words(model, version),
            dec(chunk as nat),
        ) && mentions(e.words(model, version), dec(file as nat)) && mentions(
            e.words(model, version),
            dec(expected as nat),
        ),
        e matches UploadError::ChunkLength { chunk, want, got } ==> mentions(
            e.words(model, version),
            dec(chunk as nat),
        ) && mentions(e.words(model, version), dec(want as nat)) && (got matches Some(n)
            ==> mentions(e.words(model, version), dec(n as nat))),
        e matches UploadError::MissingChunks { name, missing } ==> mentions(
            e.words(model, version),
            name@,
        ) && mentions(e.words(model, version), dec(missing as nat)),
        e matches UploadError::SizeMismatch { name, size, assembled } ==> mentions(
            e.words(model, version),
            name@,
        ) && mentions(e.words(model, version), dec(size as nat)) && mentions(
            e.words(model, version),
            dec(assembled as nat),
        ),
        e matches UploadError::DigestMismatch { name, digest, computed } ==> mentions(
            e.words(model, version),
            name@,
        ) && mentions(e.words(model, version), digest@) && mentions(
            e.words(model, version),
            computed@,
        ),
{
    match e {
        UploadError::InvalidName(n) => {
            what_is_joined_is_mentioned("invalid upload file name: "@, n@, Seq::empty());
        },
        UploadError::TooManySessions => {
            two_are_mentioned(
                "too many active upload sessions for "@,
                model,
                "/"@,
                version,
                " (max 8); resume or delete one first"@,
            );
        },
        UploadError::FileOutOfRange { index } => {
            what_is_joined_is_mentioned("file index "@, dec(index as nat), " out of range"@);
        },
        UploadError::ChunkOutOfRange { chunk, file, expected } => {
            let front = "chunk index "@ + dec(chunk as nat) + " out of range (file "@ + dec(
                file as nat,
            ) + " expects "@;
            two_are_mentioned(
                "chunk index "@,
                dec(chunk as nat),
                " out of range (file "@,
                dec(file as nat),
                " expects "@,
            );
            third_is_mentioned(
                front,
                dec(chunk as nat),
                dec(file as nat),
                dec(expected as nat),
                " chunks)"@,
            );
        },
        UploadError::ChunkLength { chunk, want, got } => {
            match got {
                None => {
                    two_are_mentioned(
                        "chunk "@,
                        dec(chunk as nat),
                        " expects exactly "@,
                        dec(want as nat),
                        " bytes"@,
                    );
                },
                Some(n) => {
                    let front = "chunk "@ + dec(chunk as nat) + " expects exactly "@ + dec(
                        want as nat,
                    ) + " bytes (got "@;
                    two_are_mentioned(
                        "chunk "@,
                        dec(chunk as nat),
                        " expects exactly "@,
                        dec(want as nat),
                        " bytes (got "@,
                    );
                    third_is_mentioned(
                        front,
                        dec(chunk as nat),
                        dec(want as nat),
                        dec(n as nat),
                        ")"@,
                    );
                },
            }
        },
        UploadError::MissingChunks { name, missing } => {
            two_are_mentioned("file '"@, name@, "' is missing "@, dec(missing as nat), " chunks"@);
        },
        UploadError::SizeMismatch { name, size, assembled } => {
            let front = "assembled size mismatch for '"@ + name@ + "': declared "@ + dec(
                size as nat,
            ) + " bytes, got "@;
            two_are_mentioned(
                "assembled size mismatch for '"@,
                name@,
                "': declared "@,
                dec(size as nat),
                " bytes, got "@,
            );
            third_is_mentioned(front, name@, dec(size as nat), dec(assembled as nat), Seq::empty());
        },
        UploadError::DigestMismatch { name, digest, computed } => {
            let front = "sha256 mismatch for '"@ + name@ + "': declared "@ + digest@
                + ", assembled "@;
            two_are_mentioned(
                "sha256 mismatch for '"@,
                name@,
                "': declared "@,
                digest@,
                ", assembled "@,
            );
            third_is_mentioned(front, name@, digest@, computed@, Seq::empty());
        },
        _ => {},
    }
}

proof fn two_are_mentioned(
    a: Seq<char>,
    first: Seq<char>,
    b: Seq<char>,
    second: Seq<char>,
    c: Seq<char>,
)
    ensures
        mentions(a + first + b + second + c, first),
        mentions(a + first + b + second + c, second),
{
    let none = Seq::<char>::empty();
    what_is_joined_is_mentioned(a, first, b);
    parts_mention_for_the_whole(a + first + b, first, none, second);
    parts_mention_for_the_whole(a + first + b + second, first, none, c);
    what_is_joined_is_mentioned(a + first + b, second, c);
}

proof fn third_is_mentioned(
    front: Seq<char>,
    first: Seq<char>,
    second: Seq<char>,
    third: Seq<char>,
    last: Seq<char>,
)
    requires
        mentions(front, first),
        mentions(front, second),
    ensures
        mentions(front + third + last, first),
        mentions(front + third + last, second),
        mentions(front + third + last, third),
        mentions(front + third, first),
        mentions(front + third, second),
        mentions(front + third, third),
{
    let none = Seq::<char>::empty();
    parts_mention_for_the_whole(front, first, none, third);
    parts_mention_for_the_whole(front, second, none, third);
    parts_mention_for_the_whole(front + third, first, none, last);
    parts_mention_for_the_whole(front + third, second, none, last);
    what_is_joined_is_mentioned(front, third, last);
}

/// A file whose name can be kept fits, unless it is a packed model and one was
/// declared before it.
pub proof fn files_fit_unless_a_second_artifact(files: Seq<InitFile>, i: int)
    requires
        0 <= i < files.len(),
        safe_name(files[i].name@) is Some,
        forall|j: int|
            0 <= j < i ==> !((#[trigger] safe_name(files[j].name@)) matches Some(n) && n.len() >= 4
                && n.subrange(n.len() - 4, n.len() as int) == seq!['.', 'l', 'm', 'a']),
    ensures
        file_fits(files, i),
{
    reveal_strlit(".lma");
    assert(".lma"@ =~= seq!['.', 'l', 'm', 'a']);
    assert forall|j: int| 0 <= j < i implies !#[trigger] is_artifact(files, j) by {
        assert(safe_name(files[j].name@) is Some || safe_name(files[j].name@) is None);
    }
}

/// A file that does not fit has a name that cannot be kept, or is a packed model
/// behind another one. All files before the first that does not fit do.
pub proof fn misfits_have_a_reason(files: Seq<InitFile>, i: int, j: int) -> (k: int)
    requires
        first_misfit(files, i),
        0 <= j < i,
    ensures
        safe_name(files[j].name@) is Some,
        file_fits(files, j),
        !file_fits(files, i),
        safe_name(files[i].name@) is Some ==> {
            &&& 0 <= k < i
            &&& safe_name(files[k].name@) is Some
            &&& has_suffix(safe_name(files[k].name@)->0, ".lma"@)
            &&& has_suffix(safe_name(files[i].name@)->0, ".lma"@)
        },
{
    assert(file_fits(files, j));
    if safe_name(files[i].name@) is Some {
        choose|k: int| 0 <= k < i && #[trigger] is_artifact(files, k)
    } else {
        0
    }
}

/// Where only the first file is declared, it does not fit exactly where its name
/// cannot be kept.
pub proof fn the_first_file_fits_by_its_name(files: Seq<InitFile>)
    requires
        files.len() > 0,
    ensures
        file_fits(files, 0) <==> safe_name(files[0].name@) is Some,
        first_misfit(files, 0) <==> safe_name(files[0].name@) is None,
{
}

} // verus!
