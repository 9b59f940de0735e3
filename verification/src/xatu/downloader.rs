//! Where the timing data of a day are had from.
use vstd::prelude::*;
use vstd::string::StringExecFns;

use crate::download::a_download_ends_at_its_first_success;
use crate::download::downloaded;
use crate::download::working;
use crate::download::Attempt;
use crate::download::Place;
use crate::retry::ends;
use crate::retry::MAX_RETRIES;
use crate::text::ends_with;
use crate::text::starts_with;

verus! {

/// How long the download of a file may take, in seconds.
pub const DOWNLOAD_TIMEOUT_SECS: u64 = 120;

/// The address that the files of the days lie below.
pub open spec fn base_url() -> Seq<char> {
    "https://data.ethpandaops.io/fast_confirmation_simulation/attestation_timing/mainnet/v1"@
}

/// The name of a day's file.
pub open spec fn file_name(date: Seq<char>) -> Seq<char> {
    date + ".parquet"@
}

/// The address of a day's file.
pub open spec fn file_url(date: Seq<char>) -> Seq<char> {
    base_url() + "/"@ + file_name(date)
}

/// Where a day's file is had from.
#[derive(Debug)]
pub enum ParquetSource {
    /// The cached file of this name.
    Cached { filename: String },
    /// It must be downloaded from this address, and cached under this name.
    Download { filename: String, url: String },
}

/// A `ParquetSource` with its texts as sequences.
pub enum DaySource {
    Cached { filename: Seq<char> },
    Download { filename: Seq<char>, url: Seq<char> },
}

impl View for ParquetSource {
    type V = DaySource;

    open spec fn view(&self) -> DaySource {
        match self {
            ParquetSource::Cached { filename } => DaySource::Cached { filename: filename@ },
            ParquetSource::Download { filename, url } => DaySource::Download {
                filename: filename@,
                url: url@,
            },
        }
    }
}

/// Where a day's file is had from, given whether it is cached.
pub open spec fn source_of(date: Seq<char>, is_cached: bool) -> DaySource {
    if is_cached {
        DaySource::Cached { filename: file_name(date) }
    } else {
        DaySource::Download { filename: file_name(date), url: file_url(date) }
    }
}

/// Knows where the timing data of a day are had from.
#[derive(Debug)]
pub struct XatuDownloader {
    /// The directory below the cache directory in which the files are cached.
    pub directory: String,
}

impl XatuDownloader {
    /// A downloader whose files are cached in a directory of their own.
    pub fn new() -> (res: XatuDownloader)
        ensures
            res.directory@ == "xatu"@,
    {
        XatuDownloader { directory: "xatu".to_owned() }
    }

    /// The name of a day's file.
    pub fn filename(&self, date: &str) -> (res: String)
        ensures
            res@ == file_name(date@),
    {
        let mut filename = date.to_owned();
        filename.append(".parquet");
        filename
    }

    /// Where a day's file is had from, given whether it is cached.
    pub fn get_parquet(&self, date: &str, is_cached: bool) -> (res: ParquetSource)
        ensures
            res@ == source_of(date@, is_cached),
    {
        let filename = self.filename(date);
        if is_cached {
            return ParquetSource::Cached { filename };
        }
        let mut url =
            "https://data.ethpandaops.io/fast_confirmation_simulation/attestation_timing/mainnet/v1".to_owned();
        url.append("/");
        url.append(filename.as_str());
        ParquetSource::Download { filename, url }
    }
}

/// What is left of a call for a day's file, and the name of the file, if the call succeeds.
/// `place` is what is known of the file before, `attempts` how each attempt to download it turns
/// out.
pub open spec fn got_parquet(
    date: Seq<char>,
    place: Place,
    attempts: spec_fn(u32) -> Attempt,
) -> (Place, Option<Seq<char>>) {
    match source_of(date, place.file is Some) {
        DaySource::Cached { filename } => (place, Some(filename)),
        DaySource::Download { filename, url } => {
            let (after, worked) = downloaded(url, MAX_RETRIES, 1, place, attempts);
            (
                after,
                if worked {
                    Some(filename)
                } else {
                    None
                },
            )
        },
    }
}

/// A cached day makes no request, and its file stays as it is.
pub proof fn a_cached_day_is_not_downloaded(
    date: Seq<char>,
    place: Place,
    attempts: spec_fn(u32) -> Attempt,
)
    requires
        place.file is Some,
    ensures
        got_parquet(date, place, attempts) == (place, Some(file_name(date))),
{
}

/// A day that is not cached is downloaded in at most three attempts, each of them one request to
/// the address of the day's file. They end at the first one that works, whose body the file then
/// holds, and the call succeeds just where one works. If no attempt brings a body, such as where
/// each is refused, there is no file after it either.
pub proof fn a_missing_day_is_downloaded(
    date: Seq<char>,
    place: Place,
    attempts: spec_fn(u32) -> Attempt,
)
    requires
        place.file is None,
    ensures
        ({
            let (after, answer) = got_parquet(date, place, attempts);
            let last = ends(working(attempts), 1, MAX_RETRIES).0;
            &&& 1 <= last <= 3
            &&& after.requests == place.requests + Seq::new(last as nat, |i: int| file_url(date))
            &&& forall|k: u32| 1 <= k < last ==> !(#[trigger] attempts(k)).works()
            &&& answer == if attempts(last).works() {
                Some(file_name(date))
            } else {
                None
            }
            &&& answer is Some ==> after.file is Some && after.file == attempts(last).brings()
            &&& answer is None ==> last == 3
            &&& (forall|k: u32| 1 <= k <= 3 ==> (#[trigger] attempts(k)).brings() is None)
                ==> answer is None && after.file is None
        }),
{
    a_download_ends_at_its_first_success(file_url(date), MAX_RETRIES, 1, place, attempts);
}

/// After a call that has succeeded the day is cached, and another call makes no request.
pub proof fn a_day_that_was_had_is_cached(
    date: Seq<char>,
    place: Place,
    attempts: spec_fn(u32) -> Attempt,
    later: spec_fn(u32) -> Attempt,
)
    requires
        got_parquet(date, place, attempts).1 is Some,
    ensures
        ({
            let (after, answer) = got_parquet(date, place, attempts);
            &&& answer == Some(file_name(date))
            &&& after.file is Some
            &&& got_parquet(date, after, later) == (after, answer)
        }),
{
    if place.file is None {
        a_missing_day_is_downloaded(date, place, attempts);
    }
}

/// A day's file is called after the day, and its address is the one that all files lie below, one
/// character, and that name: so two days have two files and two addresses.
pub proof fn days_have_files_of_their_own(date: Seq<char>, other: Seq<char>)
    ensures
        starts_with(file_name(date), date),
        ends_with(file_url(date), file_name(date)),
        starts_with(file_url(date), base_url()),
        file_url(date).len() == base_url().len() + 1 + file_name(date).len(),
        file_name(date).skip(date.len() as int) == file_name(other).skip(other.len() as int),
        file_name(date) == file_name(other) ==> date == other,
        file_url(date) == file_url(other) ==> date == other,
{
    reveal_strlit("/");
    let suffix = ".parquet"@;
    let name = file_name(date);
    assert(name.take(date.len() as int) =~= date);
    assert(name.skip(date.len() as int) =~= suffix);
    assert(file_name(other).skip(other.len() as int) =~= suffix);
    assert(file_name(other).take(other.len() as int) =~= other);
    let n = (base_url().len() + 1) as int;
    assert(file_url(date).skip(n) =~= name);
    assert(file_url(other).skip(n) =~= file_name(other));
    assert(file_url(date).take(base_url().len() as int) =~= base_url());
}

/// A day is downloaded just where it is not cached, and has the same name either way.
pub proof fn a_day_is_downloaded_just_where_it_is_not_cached(date: Seq<char>, is_cached: bool)
    ensures
        source_of(date, is_cached) is Cached <==> is_cached,
        source_of(date, true) matches DaySource::Cached { filename } && filename == file_name(date),
        source_of(date, false) matches DaySource::Download { filename, url } && filename == file_name(
            date,
        ) && url == file_url(date),
{
}

} // verus!
