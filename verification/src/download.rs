//! The download of a track that plays while it comes in.
use vstd::prelude::*;

verus! {

/// How many bytes are asked for at once.
pub const DOWNLOAD_CHUNK_BYTES: u64 = 524288;

/// How many bytes are there before playback starts.
pub const INITIAL_BUFFER_BYTES: u64 = 1048576;

/// How often the deletion of a cache is tried.
pub const DELETE_ATTEMPTS: u32 = 5;

/// What came of deleting a cache.
#[derive(Clone, Copy, Debug, PartialEq, Eq, Structural)]
pub enum DeleteOutcome {
    Deleted,
    NotFound,
    Failed,
}

/// What is to be done about it.
#[derive(Clone, Copy, Debug, PartialEq, Eq, Structural)]
pub enum DeleteStep {
    /// The cache is gone.
    Done,
    /// It is tried again after a pause.
    Retry,
    /// The error is reported.
    GiveUp,
}

/// Decides after an attempt, of which the first has the number zero. What was
/// not there is gone too, and only the last attempt gives up.
pub fn delete_step(attempt: u32, outcome: DeleteOutcome) -> (r: DeleteStep)
    ensures
        r == match outcome {
            DeleteOutcome::Deleted => DeleteStep::Done,
            DeleteOutcome::NotFound => DeleteStep::Done,
            DeleteOutcome::Failed => if attempt + 1 < DELETE_ATTEMPTS {
                DeleteStep::Retry
            } else {
                DeleteStep::GiveUp
            },
        },
{
    match outcome {
        DeleteOutcome::Deleted => DeleteStep::Done,
        DeleteOutcome::NotFound => DeleteStep::Done,
        DeleteOutcome::Failed => if attempt < DELETE_ATTEMPTS - 1 {
            DeleteStep::Retry
        } else {
            DeleteStep::GiveUp
        },
    }
}

/// The state of a download.
pub struct SharedDownload {
    pub downloaded: u64,
    pub total: Option<u64>,
    pub complete: bool,
    pub buffering: bool,
    pub reconnecting: bool,
    pub cancelled: bool,
    pub error: Option<String>,
}

/// What a read gives.
#[derive(Debug, PartialEq, Eq)]
pub enum ReadPlan {
    /// The read waits until more has come in.
    Wait,
    /// So many bytes from the position of the reader.
    Read(usize),
    /// Nothing more comes.
    End,
    /// The download has failed.
    Fail(String),
}

/// Whether a read has to wait for more.
pub open spec fn must_wait(d: SharedDownload, position: u64) -> bool {
    position >= d.downloaded && !d.complete && !d.cancelled && d.error is None
}

/// How many bytes a read gives where it gives any.
pub open spec fn readable(downloaded: u64, position: u64, wanted: usize) -> int {
    if downloaded - position < wanted {
        downloaded - position
    } else {
        wanted as int
    }
}

/// What is done next for the download.
#[derive(Debug, PartialEq, Eq)]
pub enum DownloadPlan {
    /// Nothing: it was cancelled.
    Stop,
    /// The rest is asked for, behind so many whole chunks.
    Request(i32),
    /// There are more chunks than can be passed over.
    TooLarge,
}

impl SharedDownload {
    /// A download that has not started.
    pub fn new(total: Option<u64>) -> (r: SharedDownload)
        ensures
            r == (SharedDownload {
                downloaded: 0,
                total,
                complete: false,
                buffering: true,
                reconnecting: false,
                cancelled: false,
                error: None,
            }),
    {
        SharedDownload {
            downloaded: 0,
            total,
            complete: false,
            buffering: true,
            reconnecting: false,
            cancelled: false,
            error: None,
        }
    }

    pub fn cancel(&mut self)
        ensures
            *final(self) == (SharedDownload { cancelled: true, ..*old(self) }),
    {
        self.cancelled = true;
    }

    /// Plans a read of up to `wanted` bytes.
    pub fn plan_read(&mut self, position: u64, wanted: usize) -> (r: ReadPlan)
        ensures
            ({
                let d = *old(self);
                if wanted == 0 {
                    r is End && *final(self) == d
                } else {
                    &&& *final(self) == (SharedDownload { buffering: must_wait(d, position), ..d })
                    &&& match r {
                        ReadPlan::Wait => must_wait(d, position),
                        ReadPlan::Fail(e) => !must_wait(d, position) && (d.error matches Some(
                            error,
                        ) && e@ == error@),
                        ReadPlan::End => !must_wait(d, position) && d.error is None && (d.cancelled
                            || d.complete && position >= d.downloaded),
                        ReadPlan::Read(n) => !must_wait(d, position) && d.error is None
                            && !d.cancelled && position < d.downloaded && n == readable(
                            d.downloaded,
                            position,
                            wanted,
                        ) && n > 0,
                    }
                }
            }),
    {
        if wanted == 0 {
            return ReadPlan::End;
        }
        if position >= self.downloaded && !self.complete && !self.cancelled && self.error.is_none() {
            self.buffering = true;
            return ReadPlan::Wait;
        }
        self.buffering = false;
        if let Some(error) = &self.error {
            return ReadPlan::Fail(error.as_str().to_string());
        }
        if self.cancelled || (self.complete && position >= self.downloaded) {
            return ReadPlan::End;
        }
        let left: u64 = self.downloaded - position;
        if left < wanted as u64 {
            ReadPlan::Read(left as usize)
        } else {
            ReadPlan::Read(wanted)
        }
    }

    /// Takes the size of a finished file that is in the cache.
    pub fn use_cache(&mut self, size: u64)
        ensures
            *final(self) == (SharedDownload {
                downloaded: size,
                complete: true,
                buffering: false,
                ..*old(self)
            }),
    {
        self.downloaded = size;
        self.complete = true;
        self.buffering = false;
    }

    /// What is done next for the download.
    pub fn next_request(&self) -> (r: DownloadPlan)
        ensures
            match r {
                DownloadPlan::Stop => self.cancelled,
                DownloadPlan::Request(chunks) => !self.cancelled && chunks == self.downloaded as int
                    / DOWNLOAD_CHUNK_BYTES as int,
                DownloadPlan::TooLarge => !self.cancelled && self.downloaded as int
                    / DOWNLOAD_CHUNK_BYTES as int > i32::MAX,
            },
    {
        if self.cancelled {
            return DownloadPlan::Stop;
        }
        let chunks: u64 = self.downloaded / DOWNLOAD_CHUNK_BYTES;
        if chunks <= 2147483647 {
            DownloadPlan::Request(chunks as i32)
        } else {
            DownloadPlan::TooLarge
        }
    }

    /// Takes the size of a chunk that was stored.
    pub fn chunk_stored(&mut self, size: u64)
        requires
            old(self).downloaded + size <= u64::MAX,
        ensures
            *final(self) == (SharedDownload {
                downloaded: (old(self).downloaded + size) as u64,
                reconnecting: false,
                ..*old(self)
            }),
    {
        self.downloaded = self.downloaded + size;
        self.reconnecting = false;
    }

    /// Everything has come in.
    pub fn finish(&mut self)
        ensures
            *final(self) == (SharedDownload {
                complete: true,
                buffering: false,
                reconnecting: false,
                total: match old(self).total {
                    Some(total) => Some(total),
                    None => Some(old(self).downloaded),
                },
                ..*old(self)
            }),
    {
        self.complete = true;
        self.buffering = false;
        self.reconnecting = false;
        if self.total.is_none() {
            self.total = Some(self.downloaded);
        }
    }

    /// The connection was lost and is tried again.
    pub fn reconnect(&mut self)
        ensures
            *final(self) == (SharedDownload { reconnecting: true, ..*old(self) }),
    {
        self.reconnecting = true;
    }

    /// The download has failed.
    pub fn fail(&mut self, error: String)
        ensures
            *final(self) == (SharedDownload {
                error: Some(error),
                buffering: false,
                ..*old(self)
            }),
    {
        self.error = Some(error);
        self.buffering = false;
    }

    /// Whether playback can start.
    pub fn is_ready(&self) -> (r: Result<bool, String>)
        ensures
            match r {
                Err(e) => self.error matches Some(error) && e@ == "Telegram download failed: "@
                    + error@,
                Ok(ready) => self.error is None && ready == (self.complete || self.downloaded
                    >= needed(self.total)),
            },
    {
        if let Some(error) = &self.error {
            let mut e = "Telegram download failed: ".to_string();
            e.append(error.as_str());
            return Err(e);
        }
        let needed: u64 = match self.total {
            Some(total) => if total < INITIAL_BUFFER_BYTES {
                total
            } else {
                INITIAL_BUFFER_BYTES
            },
            None => INITIAL_BUFFER_BYTES,
        };
        Ok(self.downloaded >= needed || self.complete)
    }

    /// What the player shows of the download.
    pub fn playback_word(&self, paused: bool) -> (r: &'static str)
        ensures
            r@ == if paused {
                "paused"@
            } else if self.reconnecting {
                "reconnecting"@
            } else if self.buffering {
                "buffering"@
            } else {
                "playing"@
            },
    {
        if paused {
            "paused"
        } else if self.reconnecting {
            "reconnecting"
        } else if self.buffering {
            "buffering"
        } else {
            "playing"
        }
    }
}

/// How many bytes are needed before playback starts.
pub open spec fn needed(total: Option<u64>) -> u64 {
    match total {
        Some(total) => if total < INITIAL_BUFFER_BYTES {
            total
        } else {
            INITIAL_BUFFER_BYTES
        },
        None => INITIAL_BUFFER_BYTES,
    }
}

/// A read never reaches behind what has come in, and a reader that is behind
/// the end of a finished download gets nothing more.
pub proof fn reads_stay_in_what_was_downloaded(d: SharedDownload, position: u64, wanted: usize)
    requires
        position < d.downloaded,
    ensures
        0 <= readable(d.downloaded, position, wanted) <= wanted,
        position + readable(d.downloaded, position, wanted) <= d.downloaded,
{
}

/// Whether the cache holds all of a track.
pub fn is_cached(size: Option<u64>, cached: u64) -> (r: bool)
    ensures
        r == (size matches Some(size) && size == cached && size > 0),
{
    match size {
        Some(size) => cached == size && size > 0,
        None => false,
    }
}

/// What went wrong with a request.
#[derive(Clone, Copy, Debug, PartialEq, Eq, Structural)]
pub enum RequestError {
    Io,
    Transport,
    Dropped,
    Other,
}

/// Whether a request is tried again: only where the connection is to blame.
pub fn retryable_download_error(error: RequestError) -> (r: bool)
    ensures
        r == (error == RequestError::Io || error == RequestError::Transport || error
            == RequestError::Dropped),
{
    match error {
        RequestError::Io | RequestError::Transport | RequestError::Dropped => true,
        RequestError::Other => false,
    }
}

/// Where a reader is sent.
#[derive(Clone, Copy, Debug, PartialEq, Eq, Structural)]
pub enum SeekTo {
    Start(u64),
    Current(i64),
    End(i64),
}

/// A position and an offset from it, where that is a position.
pub open spec fn moved_position(base: u64, offset: i64) -> Option<u64> {
    if 0 <= base + offset <= u64::MAX {
        Some((base + offset) as u64)
    } else {
        None
    }
}

pub fn checked_position(base: u64, offset: i64) -> (r: Result<u64, String>)
    ensures
        match r {
            Ok(position) => moved_position(base, offset) == Some(position),
            Err(e) => moved_position(base, offset) is None && e@ == "invalid seek"@,
        },
{
    let position: i128 = base as i128 + offset as i128;
    if position < 0 || position > u64::MAX as i128 {
        return Err("invalid seek".to_string());
    }
    Ok(position as u64)
}

/// Where a reader goes.
pub fn seek_position(position: u64, total: Option<u64>, to: SeekTo) -> (r: Result<u64, String>)
    ensures
        match to {
            SeekTo::Start(at) => r matches Ok(p) && p == at,
            SeekTo::Current(offset) => match moved_position(position, offset) {
                Some(at) => r matches Ok(p) && p == at,
                None => r matches Err(e) && e@ == "invalid seek"@,
            },
            SeekTo::End(offset) => match total {
                None => r matches Err(e) && e@ == "Telegram file size is unknown"@,
                Some(size) => match moved_position(size, offset) {
                    Some(at) => r matches Ok(p) && p == at,
                    None => r matches Err(e) && e@ == "invalid seek"@,
                },
            },
        },
{
    match to {
        SeekTo::Start(at) => Ok(at),
        SeekTo::Current(offset) => checked_position(position, offset),
        SeekTo::End(offset) => match total {
            Some(size) => checked_position(size, offset),
            None => Err("Telegram file size is unknown".to_string()),
        },
    }
}

/// What is said where the state of a download can no longer be trusted.
pub fn lock_error() -> (r: &'static str)
    ensures
        r@ == "progressive download state lock poisoned"@,
{
    "progressive download state lock poisoned"
}

/// A read gets what it wants, or what is there where that is less.
pub proof fn reads_get_what_is_there(downloaded: u64, position: u64, wanted: usize)
    requires
        position < downloaded,
    ensures
        position + wanted <= downloaded ==> readable(downloaded, position, wanted) == wanted,
        position + wanted > downloaded ==> readable(downloaded, position, wanted) == downloaded
            - position,
{
}

/// A read waits exactly while what it wants may still come.
pub proof fn reads_wait_for_what_may_come(d: SharedDownload, position: u64)
    ensures
        position < d.downloaded ==> !must_wait(d, position),
        d.complete || d.cancelled || d.error is Some ==> !must_wait(d, position),
        position >= d.downloaded && !d.complete && !d.cancelled && d.error is None ==> must_wait(
            d,
            position,
        ),
{
}

/// Playback starts with a mebibyte, or with the whole of a shorter track.
pub proof fn playback_starts_with_a_mebibyte(total: u64)
    ensures
        needed(None) == 1024 * 1024,
        total >= 1024 * 1024 ==> needed(Some(total)) == 1024 * 1024,
        total < 1024 * 1024 ==> needed(Some(total)) == total,
{
}

/// A position moves by its offset and back, and never out of range.
pub proof fn positions_move_by_their_offset(base: u64, offset: i64)
    ensures
        base + offset < 0 || base + offset > u64::MAX ==> moved_position(base, offset) is None,
        0 <= base + offset <= u64::MAX ==> moved_position(base, offset) == Some(
            (base + offset) as u64,
        ),
        0 <= base + offset <= u64::MAX && offset > i64::MIN ==> moved_position(
            (base + offset) as u64,
            (-offset) as i64,
        ) == Some(base),
{
}

} // verus!
