//! Counting what was done, and saying it.

use vstd::prelude::*;

use crate::snapshots::upload::{FileResult, ResultView, UploadCounts, UploadStatistics};
use crate::text::{nat_text, push_u64};

verus! {

/// What the numbers of files in a summary count.
pub open spec fn unit_word(chunk_size: i64) -> Seq<char> {
    if chunk_size <= 0 {
        "files"@
    } else {
        "chunks"@
    }
}

/// A summary: what was done to how many bytes and files, in how many seconds, and at which
/// rate where there is one.
pub open spec fn summary_text(
    what: Seq<char>,
    size: Seq<char>,
    files: nat,
    chunk_size: i64,
    seconds: Seq<char>,
    rate: Option<Seq<char>>,
) -> Seq<char> {
    let start = what + " "@ + size + " ("@ + nat_text(files) + " "@ + unit_word(chunk_size)
        + ") in "@ + seconds + "s"@;
    match rate {
        Some(r) => start + " ("@ + r + "/s)"@,
        None => start,
    }
}

/// The view of a text that may be missing.
pub open spec fn opt_str(t: Option<&str>) -> Option<Seq<char>> {
    match t {
        Some(t) => Some(t@),
        None => None,
    }
}

/// Word a summary. Sizes, seconds and rates come as they are to be read.
pub fn summary(
    what: &str,
    size: &str,
    files: usize,
    chunk_size: i64,
    seconds: &str,
    rate: Option<&str>,
) -> (m: String)
    ensures
        m@ == summary_text(what@, size@, files as nat, chunk_size, seconds@, opt_str(rate)),
{
    let mut m = what.to_owned();
    m.append(" ");
    m.append(size);
    m.append(" (");
    push_u64(&mut m, files as u64);
    m.append(" ");
    if chunk_size <= 0 {
        m.append("files");
    } else {
        m.append("chunks");
    }
    m.append(") in ");
    m.append(seconds);
    m.append("s");
    if let Some(r) = rate {
        m.append(" (");
        m.append(r);
        m.append("/s)");
    }
    m
}

/// The numbers with what came of one more file. A file that was hashed and turned out to be
/// there already counts as hashed and as skipped.
pub open spec fn counted(c: UploadCounts, fr: ResultView) -> UploadCounts {
    match fr {
        ResultView::Whole { size, uploaded, .. } => if uploaded {
            UploadCounts {
                hashed_files: c.hashed_files + 1,
                hashed_bytes: c.hashed_bytes + size,
                uploaded_files: c.uploaded_files + 1,
                uploaded_bytes: c.uploaded_bytes + size,
                ..c
            }
        } else {
            UploadCounts {
                hashed_files: c.hashed_files + 1,
                hashed_bytes: c.hashed_bytes + size,
                skipped_files: c.skipped_files + 1,
                skipped_bytes: c.skipped_bytes + size,
                ..c
            }
        },
        ResultView::Chunked { uploaded, hashed_bytes, .. } => UploadCounts {
            hashed_files: c.hashed_files + 1,
            hashed_bytes: c.hashed_bytes + hashed_bytes,
            uploaded_files: c.uploaded_files + if uploaded {
                1int
            } else {
                0
            },
            ..c
        },
        ResultView::Skipped { size, .. } => UploadCounts {
            skipped_files: c.skipped_files + 1,
            skipped_bytes: c.skipped_bytes + size,
            ..c
        },
    }
}

/// Whether what came of one more file can be counted.
pub fn can_count(s: &UploadStatistics, fr: &FileResult) -> (r: bool)
    ensures
        r == counted(s@, fr@).fits(),
{
    match fr {
        FileResult::Whole { size, uploaded, .. } => {
            let hashed: bool = s.hashed_files < usize::MAX && *size <= u64::MAX - s.hashed_bytes;
            if *uploaded {
                hashed && s.uploaded_files < usize::MAX && *size <= u64::MAX - s.uploaded_bytes
            } else {
                hashed && s.skipped_files < usize::MAX && *size <= u64::MAX - s.skipped_bytes
            }
        },
        FileResult::Chunked { uploaded, hashed_bytes, .. } => s.hashed_files < usize::MAX
            && *hashed_bytes <= u64::MAX - s.hashed_bytes && (!*uploaded || s.uploaded_files
            < usize::MAX),
        FileResult::Skipped { size, .. } => s.skipped_files < usize::MAX && *size <= u64::MAX
            - s.skipped_bytes,
    }
}

/// Count what came of one more file.
pub fn update_progress(s: &mut UploadStatistics, fr: &FileResult)
    requires
        counted(old(s)@, fr@).fits(),
    ensures
        final(s)@ == counted(old(s)@, fr@),
        final(s).progress_message@ == old(s).progress_message@,
{
    match fr {
        FileResult::Whole { size, uploaded, .. } => {
            s.hashed_files = s.hashed_files + 1;
            s.hashed_bytes = s.hashed_bytes + *size;
            if *uploaded {
                s.uploaded_files = s.uploaded_files + 1;
                s.uploaded_bytes = s.uploaded_bytes + *size;
            } else {
                s.skipped_files = s.skipped_files + 1;
                s.skipped_bytes = s.skipped_bytes + *size;
            }
        },
        FileResult::Chunked { uploaded, hashed_bytes, .. } => {
            s.hashed_files = s.hashed_files + 1;
            s.hashed_bytes = s.hashed_bytes + *hashed_bytes;
            if *uploaded {
                s.uploaded_files = s.uploaded_files + 1;
            }
        },
        FileResult::Skipped { size, .. } => {
            s.skipped_files = s.skipped_files + 1;
            s.skipped_bytes = s.skipped_bytes + *size;
        },
    }
}

/// How many bytes count as done, of the given total: never more than that.
pub open spec fn bytes_done(a: int, b: int, total: int) -> int {
    if a + b < total {
        a + b
    } else {
        total
    }
}

fn bytes_done_of(a: u64, b: u64, total: u64) -> (n: u64)
    ensures
        n == bytes_done(a as int, b as int, total as int),
{
    if a < total && b < total - a {
        a + b
    } else {
        total
    }
}

/// How many bytes of an upload count as done: those hashed and those skipped, of which some
/// are both.
pub fn upload_progress(s: &UploadStatistics) -> (n: u64)
    ensures
        n == bytes_done(s@.hashed_bytes, s@.skipped_bytes, s@.total_bytes),
{
    bytes_done_of(s.hashed_bytes, s.skipped_bytes, s.total_bytes)
}

/// Summarize an upload.
pub fn finalize_upload_stats(
    s: &mut UploadStatistics,
    chunk_size: i64,
    size: &str,
    seconds: &str,
    rate: Option<&str>,
)
    ensures
        final(s)@ == old(s)@,
        final(s).progress_message@ == summary_text(
            "Hashed/uploaded"@,
            size@,
            old(s).total_files as nat,
            chunk_size,
            seconds@,
            opt_str(rate),
        ),
{
    s.progress_message = summary("Hashed/uploaded", size, s.total_files, chunk_size, seconds, rate);
}

/// Summarize an upload with nothing to do.
pub fn finish_empty_upload(s: &mut UploadStatistics, chunk_size: i64, size: &str)
    ensures
        final(s)@ == old(s)@,
        final(s).progress_message@ == summary_text(
            "Hashed/uploaded"@,
            size@,
            old(s).total_files as nat,
            chunk_size,
            "0.00"@,
            None,
        ),
{
    s.progress_message = summary("Hashed/uploaded", size, s.total_files, chunk_size, "0.00", None);
}

/// How far downloading has come.
#[derive(Debug)]
pub struct DownloadStatistics {
    pub total_files: usize,
    pub total_bytes: u64,
    pub downloaded_files: usize,
    pub downloaded_bytes: u64,
    pub skipped_files: usize,
    pub skipped_bytes: u64,
    /// A summary for people to read.
    pub progress_message: String,
}

/// The numbers of the statistics.
pub struct DownloadCounts {
    pub total_files: int,
    pub total_bytes: int,
    pub downloaded_files: int,
    pub downloaded_bytes: int,
    pub skipped_files: int,
    pub skipped_bytes: int,
}

impl View for DownloadStatistics {
    type V = DownloadCounts;

    open spec fn view(&self) -> DownloadCounts {
        DownloadCounts {
            total_files: self.total_files as int,
            total_bytes: self.total_bytes as int,
            downloaded_files: self.downloaded_files as int,
            downloaded_bytes: self.downloaded_bytes as int,
            skipped_files: self.skipped_files as int,
            skipped_bytes: self.skipped_bytes as int,
        }
    }
}

impl DownloadCounts {
    /// Nothing counted.
    pub open spec fn zero() -> DownloadCounts {
        DownloadCounts {
            total_files: 0,
            total_bytes: 0,
            downloaded_files: 0,
            downloaded_bytes: 0,
            skipped_files: 0,
            skipped_bytes: 0,
        }
    }

    /// Whether what is done is part of the whole.
    pub open spec fn wf(self) -> bool {
        &&& 0 <= self.downloaded_files
        &&& 0 <= self.skipped_files
        &&& 0 <= self.downloaded_bytes
        &&& 0 <= self.skipped_bytes
        &&& self.downloaded_files + self.skipped_files <= self.total_files
        &&& self.downloaded_bytes + self.skipped_bytes <= self.total_bytes
    }

    /// The numbers with one more file, skipped or to be downloaded.
    pub open spec fn with_file(self, size: u64, skipped: bool) -> DownloadCounts {
        DownloadCounts {
            total_files: self.total_files + 1,
            total_bytes: self.total_bytes + size,
            skipped_files: self.skipped_files + if skipped {
                1int
            } else {
                0
            },
            skipped_bytes: self.skipped_bytes + if skipped {
                size as int
            } else {
                0
            },
            ..self
        }
    }

    /// The numbers with one more file downloaded.
    pub open spec fn with_download(self, size: u64) -> DownloadCounts {
        DownloadCounts {
            downloaded_files: self.downloaded_files + 1,
            downloaded_bytes: self.downloaded_bytes + size,
            ..self
        }
    }
}

impl DownloadStatistics {
    /// Nothing counted.
    pub fn new() -> (r: DownloadStatistics)
        ensures
            r@ == DownloadCounts::zero(),
            r.progress_message@ == Seq::<char>::empty(),
    {
        DownloadStatistics {
            total_files: 0,
            total_bytes: 0,
            downloaded_files: 0,
            downloaded_bytes: 0,
            skipped_files: 0,
            skipped_bytes: 0,
            progress_message: String::new(),
        }
    }
}

/// Count one more downloaded file.
pub fn record_downloaded_file(s: &mut DownloadStatistics, file_size: u64)
    requires
        old(s).downloaded_files < usize::MAX,
        old(s).downloaded_bytes + file_size <= u64::MAX,
    ensures
        final(s)@ == old(s)@.with_download(file_size),
        final(s).progress_message@ == old(s).progress_message@,
{
    s.downloaded_files = s.downloaded_files + 1;
    s.downloaded_bytes = s.downloaded_bytes + file_size;
}

/// How many bytes of a download count as done.
pub fn download_progress(s: &DownloadStatistics) -> (n: u64)
    ensures
        n == bytes_done(s@.downloaded_bytes, s@.skipped_bytes, s@.total_bytes),
{
    bytes_done_of(s.downloaded_bytes, s.skipped_bytes, s.total_bytes)
}

/// Summarize a download.
pub fn finalize_download_stats(
    s: &mut DownloadStatistics,
    chunk_size: i64,
    size: &str,
    seconds: &str,
    rate: Option<&str>,
)
    ensures
        final(s)@ == old(s)@,
        final(s).progress_message@ == summary_text(
            "Downloaded"@,
            size@,
            old(s).total_files as nat,
            chunk_size,
            seconds@,
            opt_str(rate),
        ),
{
    s.progress_message = summary("Downloaded", size, s.total_files, chunk_size, seconds, rate);
}

/// Summarize a download with nothing to do.
pub fn finish_empty_download(s: &mut DownloadStatistics, chunk_size: i64, size: &str)
    ensures
        final(s)@ == old(s)@,
        final(s).progress_message@ == summary_text(
            "Downloaded"@,
            size@,
            old(s).total_files as nat,
            chunk_size,
            "0.00"@,
            None,
        ),
{
    s.progress_message = summary("Downloaded", size, s.total_files, chunk_size, "0.00", None);
}

/// Progress lies between nothing and everything.
pub proof fn progress_is_part_of_the_whole(a: int, b: int, total: int)
    requires
        0 <= a,
        0 <= b,
        0 <= total,
    ensures
        0 <= bytes_done(a, b, total) <= total,
{
}

/// Counting never lowers a number, leaves the totals alone, and counts no upload of a file
/// that was not hashed.
pub proof fn counting_only_adds(c: UploadCounts, fr: ResultView)
    ensures
        ({
            let d = counted(c, fr);
            &&& d.total_files == c.total_files && d.total_bytes == c.total_bytes
            &&& d.hashed_files >= c.hashed_files && d.hashed_bytes >= c.hashed_bytes
            &&& d.uploaded_files >= c.uploaded_files && d.uploaded_bytes >= c.uploaded_bytes
            &&& d.skipped_files >= c.skipped_files && d.skipped_bytes >= c.skipped_bytes
            &&& d.uploaded_files - c.uploaded_files <= d.hashed_files - c.hashed_files
            &&& d.uploaded_bytes - c.uploaded_bytes <= d.hashed_bytes - c.hashed_bytes
            &&& d.hashed_files > c.hashed_files || d.skipped_files > c.skipped_files
        }),
{
}

/// A download that has counted every file counts what is done as part of the whole, and
/// downloading a file that was to be downloaded keeps it so.
pub proof fn download_counts_stay_part_of_the_whole(c: DownloadCounts, size: u64, skipped: bool)
    requires
        c.wf(),
    ensures
        DownloadCounts::zero().wf(),
        c.with_file(size, skipped).wf(),
        c.downloaded_files + c.skipped_files + 1 <= c.total_files && c.downloaded_bytes
            + c.skipped_bytes + size <= c.total_bytes ==> c.with_download(size).wf(),
{
}

/// What came of a file is counted once each as what it was: a file that was hashed as hashed,
/// one that was uploaded as uploaded too, and one that was hashed as a whole and not uploaded,
/// or was not even hashed, as skipped; each with its own size.
pub proof fn every_result_counts_as_what_it_was(c: UploadCounts, fr: ResultView)
    ensures
        ({
            let d = counted(c, fr);
            &&& d.hashed_files - c.hashed_files == if fr is Skipped {
                0int
            } else {
                1
            }
            &&& d.hashed_bytes - c.hashed_bytes == match fr {
                ResultView::Whole { size, .. } => size as int,
                ResultView::Chunked { hashed_bytes, .. } => hashed_bytes as int,
                ResultView::Skipped { .. } => 0,
            }
            &&& d.uploaded_files - c.uploaded_files == if (fr is Whole && fr->Whole_uploaded) || (fr
                is Chunked && fr->Chunked_uploaded) {
                1int
            } else {
                0
            }
            &&& d.uploaded_bytes - c.uploaded_bytes == if fr is Whole && fr->Whole_uploaded {
                fr->Whole_size as int
            } else {
                0
            }
            &&& d.skipped_files - c.skipped_files == if fr is Skipped || (fr is Whole
                && !fr->Whole_uploaded) {
                1int
            } else {
                0
            }
            &&& d.skipped_bytes - c.skipped_bytes == match fr {
                ResultView::Whole { size, uploaded, .. } => if uploaded {
                    0
                } else {
                    size as int
                },
                ResultView::Chunked { .. } => 0,
                ResultView::Skipped { size, .. } => size as int,
            }
            &&& d.total_files == c.total_files
            &&& d.total_bytes == c.total_bytes
        }),
{
}

/// What counts as done is the two amounts together, and the total where they come to more.
pub proof fn done_is_the_sum_up_to_the_total(a: int, b: int, total: int)
    ensures
        a + b <= total ==> bytes_done(a, b, total) == a + b,
        a + b >= total ==> bytes_done(a, b, total) == total,
        bytes_done(a, b, total) == bytes_done(b, a, total),
{
}

/// One more file that was decided about adds one file and its size to the total, and the same
/// to what was skipped where it is; one more download adds to what was downloaded alone.
pub proof fn files_are_counted_where_they_belong(c: DownloadCounts, size: u64)
    ensures
        ({
            let s = c.with_file(size, true);
            let n = c.with_file(size, false);
            let d = c.with_download(size);
            &&& s.total_files == c.total_files + 1 && s.total_bytes == c.total_bytes + size
            &&& s.skipped_files == c.skipped_files + 1 && s.skipped_bytes == c.skipped_bytes + size
            &&& s.downloaded_files == c.downloaded_files && s.downloaded_bytes
                == c.downloaded_bytes
            &&& n.total_files == c.total_files + 1 && n.total_bytes == c.total_bytes + size
            &&& n.skipped_files == c.skipped_files && n.skipped_bytes == c.skipped_bytes
            &&& n.downloaded_files == c.downloaded_files && n.downloaded_bytes
                == c.downloaded_bytes
            &&& d.total_files == c.total_files && d.total_bytes == c.total_bytes
            &&& d.skipped_files == c.skipped_files && d.skipped_bytes == c.skipped_bytes
            &&& d.downloaded_files == c.downloaded_files + 1 && d.downloaded_bytes
                == c.downloaded_bytes + size
        }),
{
}

/// A summary says what was done to how much, then in brackets how many files or, where files
/// are split, chunks; then the seconds; and a rate only behind all that.
pub proof fn summary_says_what_was_done(
    what: Seq<char>,
    size: Seq<char>,
    files: nat,
    chunk_size: i64,
    seconds: Seq<char>,
    rate: Seq<char>,
)
    ensures
        ({
            let unit = if chunk_size > 0 {
                " chunks) in "@
            } else {
                " files) in "@
            };
            let plain = summary_text(what, size, files, chunk_size, seconds, None);
            &&& plain == what + (" "@ + size) + (" ("@ + nat_text(files)) + unit + (seconds + "s"@)
            &&& summary_text(what, size, files, chunk_size, seconds, Some(rate)) == plain + (" ("@
                + rate + "/s)"@)
        }),
{
    reveal_strlit(" chunks) in ");
    reveal_strlit(" files) in ");
    reveal_strlit(" ");
    reveal_strlit("chunks");
    reveal_strlit("files");
    reveal_strlit(") in ");
    let unit = if chunk_size > 0 {
        " chunks) in "@
    } else {
        " files) in "@
    };
    if chunk_size > 0 {
        assert(" "@ + "chunks"@ + ") in "@ =~= " chunks) in "@);
    } else {
        assert(" "@ + "files"@ + ") in "@ =~= " files) in "@);
    }
    assert(" "@ + unit_word(chunk_size) + ") in "@ == unit);
    let plain = summary_text(what, size, files, chunk_size, seconds, None);
    assert(plain =~= what + (" "@ + size) + (" ("@ + nat_text(files)) + (" "@ + unit_word(
        chunk_size,
    ) + ") in "@) + (seconds + "s"@));
    assert(summary_text(what, size, files, chunk_size, seconds, Some(rate)) =~= plain + (" ("@ + rate
        + "/s)"@));
}

} // verus!
