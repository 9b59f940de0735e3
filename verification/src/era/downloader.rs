//! Which ERA files are needed, what they are called, and where they are had from.
use vstd::prelude::*;
use vstd::string::StringExecFns;

use crate::era::reader::era_number_for_slot;
use crate::era::reader::era_of;
use crate::http::base_url;
use crate::text::a_search_finds_the_first_occurrence;
use crate::text::chars_of;
use crate::text::ends_with;
use crate::text::find;
use crate::text::first_occurrence;
use crate::text::is_digit;
use crate::text::lemma_first_occurrence;
use crate::text::lemma_padded_value;
use crate::text::occurs_at;
use crate::text::padded_decimal;
use crate::text::parse_u64;
use crate::text::push_padded;
use crate::text::starts_and_ends_with;
use crate::text::starts_with;
use crate::text::string_of;
use crate::text::u64_parsed;

verus! {

/// How long the download of a file may take, in seconds.
pub const DOWNLOAD_TIMEOUT_SECS: u64 = 600;

/// How many slots beyond the end of a range are needed, to look ahead there.
pub const LOOKAHEAD_SLOTS: u64 = 32;

/// A file of the index: the number of its era, and its name.
pub type IndexEntry = (u64, Seq<char>);

/// Why no file is known for an era.
#[derive(Clone, Copy, Debug, PartialEq, Eq, Structural)]
pub enum EraFileError {
    /// The index was not read yet.
    IndexNotLoaded,
    /// The index names no file of this era.
    NotFound { era: u64 },
    /// The era is not among the cached files.
    NotCached { era: u64 },
    /// The era is not among the cached files, though it was downloaded.
    StillMissing { era: u64 },
}

/// A file to download: its name, and its address.
#[derive(Debug)]
pub struct RemoteFile {
    pub filename: String,
    pub url: String,
}

/// What an era number is read from in a file's name: what stands between `mainnet-` and the
/// next hyphen.
pub open spec fn era_part(name: Seq<char>) -> Seq<char> {
    let tail = name.skip("mainnet-"@.len() as int);
    match first_occurrence(tail, "-"@) {
        Some(at) => tail.take(at),
        None => tail,
    }
}

/// The file that a line of the index page names: from the first `mainnet-` to the `.era` that
/// follows, if what stands for the era there is a number.
pub open spec fn entry_in_line(line: Seq<char>) -> Option<IndexEntry> {
    match first_occurrence(line, "mainnet-"@) {
        None => None,
        Some(start) => {
            let rest = line.skip(start);
            match first_occurrence(rest, ".era"@) {
                None => None,
                Some(end) => {
                    let name = rest.take((end + ".era"@.len()) as int);
                    match u64_parsed(era_part(name)) {
                        None => None,
                        Some(era) => Some((era, name)),
                    }
                },
            }
        },
    }
}

/// How many characters stand before the first line break.
pub open spec fn line_length(text: Seq<char>) -> nat
    decreases text.len(),
{
    if text.len() == 0 || text[0] == '\n' {
        0
    } else {
        1 + line_length(text.skip(1))
    }
}

proof fn lemma_line_length(text: Seq<char>)
    ensures
        line_length(text) <= text.len(),
    decreases text.len(),
{
    if text.len() > 0 && text[0] != '\n' {
        lemma_line_length(text.skip(1));
    }
}

/// The files that the index page names, in the order of the page.
pub open spec fn page_entries(page: Seq<char>) -> Seq<IndexEntry>
    decreases page.len(),
{
    let end = line_length(page);
    let first = match entry_in_line(page.take(end as int)) {
        Some(entry) => seq![entry],
        None => Seq::empty(),
    };
    if end < page.len() {
        first + page_entries(page.skip((end + 1) as int))
    } else {
        first
    }
}

/// What a list of files holds.
pub open spec fn listing(files: Seq<(u64, String)>) -> Seq<IndexEntry> {
    Seq::new(files.len(), |i: int| (files[i].0, files[i].1@))
}

/// The names of an era's files, in the order of the list.
pub open spec fn names_of(entries: Seq<IndexEntry>, era: u64) -> Seq<Seq<char>>
    decreases entries.len(),
{
    if entries.len() == 0 {
        Seq::empty()
    } else {
        let rest = names_of(entries.drop_last(), era);
        if entries.last().0 == era {
            rest.push(entries.last().1)
        } else {
            rest
        }
    }
}

/// The files are in the order of their eras.
pub open spec fn ordered_by_era(entries: Seq<IndexEntry>) -> bool {
    forall|i: int, j: int| 0 <= i < j < entries.len() ==> entries[i].0 <= entries[j].0
}

/// `sorted` holds the files of `entries` by the order of their eras, those of one era in the
/// order in which they stood.
pub open spec fn sorted_by_era(entries: Seq<IndexEntry>, sorted: Seq<IndexEntry>) -> bool {
    &&& sorted.len() == entries.len()
    &&& ordered_by_era(sorted)
    &&& forall|era: u64| #[trigger] names_of(sorted, era) == names_of(entries, era)
}

proof fn lemma_names_of_concat(a: Seq<IndexEntry>, b: Seq<IndexEntry>, era: u64)
    ensures
        names_of(a + b, era) == names_of(a, era) + names_of(b, era),
    decreases b.len(),
{
    if b.len() == 0 {
        assert(a + b =~= a);
    } else {
        lemma_names_of_concat(a, b.drop_last(), era);
        assert((a + b).drop_last() =~= a + b.drop_last());
        assert((a + b).last() == b.last());
    }
}

proof fn lemma_names_of_none(entries: Seq<IndexEntry>, era: u64)
    requires
        forall|i: int| 0 <= i < entries.len() ==> (#[trigger] entries[i]).0 != era,
    ensures
        names_of(entries, era) == Seq::<Seq<char>>::empty(),
    decreases entries.len(),
{
    if entries.len() > 0 {
        lemma_names_of_none(entries.drop_last(), era);
    }
}

/// An entry that goes in behind the entries of its era and in front of those of later eras
/// stands behind the other names of its era.
proof fn lemma_insert_names(entries: Seq<IndexEntry>, at: int, entry: IndexEntry, era: u64)
    requires
        0 <= at <= entries.len(),
        forall|i: int| at <= i < entries.len() ==> entry.0 < (#[trigger] entries[i]).0,
    ensures
        names_of(entries.insert(at, entry), era) == names_of(entries.push(entry), era),
{
    let head = entries.take(at);
    let tail = entries.skip(at);
    let one = seq![entry];
    assert(entries =~= head + tail);
    assert(entries.insert(at, entry) =~= head + (one + tail));
    assert(entries.push(entry) =~= head + (tail + one));
    lemma_names_of_concat(head, one + tail, era);
    lemma_names_of_concat(head, tail + one, era);
    lemma_names_of_concat(one, tail, era);
    lemma_names_of_concat(tail, one, era);
    if era == entry.0 {
        lemma_names_of_none(tail, era);
        assert(names_of(one + tail, era) =~= names_of(tail + one, era));
    } else {
        lemma_names_of_none(one, era);
        assert(names_of(one + tail, era) =~= names_of(tail + one, era));
    }
}

/// The files in the order of their eras, those of one era in the order in which they stood.
fn sort_by_era(files: Vec<(u64, String)>) -> (res: Vec<(u64, String)>)
    ensures
        sorted_by_era(listing(files@), listing(res@)),
{
    let ghost all = files@;
    let mut sorted: Vec<(u64, String)> = Vec::new();
    assert(listing(all).take(0) =~= Seq::<IndexEntry>::empty());
    for file in it: files
        invariant
            it.seq() == all,
            sorted_by_era(listing(all).take(it.index() as int), listing(sorted@)),
    {
        let ghost k = it.index() as int;
        let ghost before = sorted@;
        let era: u64 = file.0;
        let ghost entry = (file.0, file.1@);
        let mut at: usize = sorted.len();
        while at > 0 && sorted[at - 1].0 > era
            invariant
                at <= sorted@.len(),
                sorted@ == before,
                forall|i: int| at <= i < before.len() ==> era < (#[trigger] before[i]).0,
            decreases at,
        {
            at = at - 1;
        }
        sorted.insert(at, file);
        proof {
            let old_list = listing(before);
            assert(listing(sorted@) =~= old_list.insert(at as int, entry));
            assert(listing(all).take(k + 1) =~= listing(all).take(k).push(entry));
            assert forall|n: u64| #[trigger]
                names_of(listing(sorted@), n) == names_of(listing(all).take(k + 1), n) by {
                assert forall|i: int| at <= i < old_list.len() implies entry.0 < (
                #[trigger] old_list[i]).0 by {
                    assert(before[i].0 > era);
                }
                lemma_insert_names(old_list, at as int, entry, n);
                assert(names_of(old_list, n) == names_of(listing(all).take(k), n));
                assert(old_list.push(entry).drop_last() =~= old_list);
                assert(listing(all).take(k).push(entry).drop_last() =~= listing(all).take(k));
            }
            assert(ordered_by_era(listing(sorted@))) by {
                let new_list = listing(sorted@);
                assert forall|i: int, j: int| 0 <= i < j < new_list.len() implies new_list[i].0
                    <= new_list[j].0 by {
                    let oi = if i < at {
                        i
                    } else {
                        i - 1
                    };
                    let oj = if j < at {
                        j
                    } else {
                        j - 1
                    };
                    if i != at && j != at {
                        assert(old_list[oi].0 <= old_list[oj].0);
                    } else if i == at {
                        assert(before[oj].0 > era);
                        assert(new_list[j] == old_list[oj]);
                    } else {
                        assert(new_list[i] == old_list[oi]);
                        assert(before[at - 1].0 <= era);
                        assert(old_list[oi].0 <= old_list[at - 1].0);
                    }
                }
            }
        }
    }
    assert(listing(all).take(all.len() as int) =~= listing(all));
    sorted
}

/// The mark at the start of a file's name and the `.era` at its end do not overlap.
proof fn lemma_suffix_follows_mark(text: Seq<char>, at: int)
    requires
        occurs_at(text, "mainnet-"@, 0),
        occurs_at(text, ".era"@, at),
    ensures
        at >= "mainnet-"@.len(),
{
    reveal_strlit("mainnet-");
    reveal_strlit(".era");
    assert(text.subrange(at, at + 4)[0] == text[at]);
    if at < 8 {
        assert(text.subrange(0, 8)[at] == text[at]);
    }
}

/// The file that the line `page[from..to]` names.
fn read_line(page: &Vec<char>, from: usize, to: usize) -> (res: Option<(u64, String)>)
    requires
        from <= to <= page@.len(),
    ensures
        match res {
            Some(file) => entry_in_line(page@.subrange(from as int, to as int)) == Some(
                (file.0, file.1@),
            ),
            None => entry_in_line(page@.subrange(from as int, to as int)) is None,
        },
{
    assert("mainnet-"@.len() == 8 && ".era"@.len() == 4) by {
        reveal_strlit("mainnet-");
        reveal_strlit(".era");
    }
    let mark = chars_of("mainnet-");
    let suffix = chars_of(".era");
    let hyphen = chars_of("-");
    let ghost line = page@.subrange(from as int, to as int);
    let start: usize = match find(page, from, to, &mark) {
        Some(at) => from + at,
        None => {
            return None;
        },
    };
    let ghost rest = page@.subrange(start as int, to as int);
    proof {
        assert(rest =~= line.skip(start - from));
        assert(rest.subrange(0, 8) =~= line.subrange(start - from, start - from + 8));
    }
    let end: usize = match find(page, start, to, &suffix) {
        Some(at) => start + at + 4,
        None => {
            return None;
        },
    };
    let ghost name = page@.subrange(start as int, end as int);
    proof {
        assert(name =~= rest.take(end - start));
        lemma_suffix_follows_mark(rest, end - 4 - start);
    }
    let ghost tail = page@.subrange(start + 8, end as int);
    assert(tail =~= name.skip(8));
    let stop: usize = match find(page, start + 8, end, &hyphen) {
        Some(at) => start + 8 + at,
        None => end,
    };
    assert(page@.subrange(start + 8, stop as int) =~= tail.take(stop - start - 8));
    assert(tail.take(tail.len() as int) =~= tail);
    assert(page@.subrange(start + 8, stop as int) == era_part(name));
    match parse_u64(page, start + 8, stop) {
        Some(era) => Some((era, string_of(page, start, end))),
        None => None,
    }
}

/// The files that the index page names, in the order of the page.
fn read_page(page: &Vec<char>) -> (res: Vec<(u64, String)>)
    ensures
        listing(res@) == page_entries(page@),
{
    let mut files: Vec<(u64, String)> = Vec::new();
    let mut pos: usize = 0;
    let mut more: bool = true;
    assert(page@.skip(0) =~= page@);
    assert(listing(files@) =~= Seq::<IndexEntry>::empty());
    while more
        invariant
            pos <= page@.len(),
            page_entries(page@) == listing(files@) + (if more {
                page_entries(page@.skip(pos as int))
            } else {
                Seq::empty()
            }),
        decreases page@.len() - pos + (if more { 1int } else { 0 }),
    {
        let ghost before = files@;
        let ghost text = page@.skip(pos as int);
        let mut end: usize = pos;
        assert(text.skip(0) =~= text);
        while end < page.len() && page[end] != '\n'
            invariant
                text == page@.skip(pos as int),
                pos <= end <= page@.len(),
                line_length(text) == (end - pos) + line_length(text.skip(end - pos)),
            decreases page@.len() - end,
        {
            assert(text.skip(end - pos).skip(1) =~= text.skip(end + 1 - pos));
            end = end + 1;
        }
        assert(line_length(text) == end - pos);
        assert(page@.subrange(pos as int, end as int) =~= text.take(end - pos));
        match read_line(page, pos, end) {
            Some(file) => {
                files.push(file);
                assert(listing(files@) =~= listing(before).push((file.0, file.1@)));
            },
            None => {},
        }
        if end < page.len() {
            assert(text.skip(end - pos + 1) =~= page@.skip(end + 1));
            pos = end + 1;
        } else {
            more = false;
        }
        assert(page_entries(page@) =~= listing(files@) + (if more {
            page_entries(page@.skip(pos as int))
        } else {
            Seq::empty()
        }));
    }
    assert(page_entries(page@) =~= listing(files@));
    files
}

/// What the names of an era's files start with: the era's number has at least five digits.
pub open spec fn era_prefix(era: u64) -> Seq<char> {
    "mainnet-"@ + padded_decimal(era as nat, 5) + "-"@
}

/// Whether a cached file is the one of an era, by its name.
pub open spec fn is_file_of(name: Seq<char>, era: u64) -> bool {
    starts_with(name, era_prefix(era)) && ends_with(name, ".era"@)
}

/// Whether an era's file is among the cached ones.
pub open spec fn is_cached(names: Seq<String>, era: u64) -> bool {
    exists|i: int| 0 <= i < names.len() && is_file_of(#[trigger] names[i]@, era)
}

/// What the names of an era's files start with.
pub fn era_pattern(era: u64) -> (res: String)
    ensures
        res@ == era_prefix(era),
{
    let mut pattern = "mainnet-".to_owned();
    push_padded(&mut pattern, era, 5);
    pattern.append("-");
    pattern
}

/// The first cached file of an era.
pub fn find_cached_file(names: &Vec<String>, era: u64) -> (res: Option<usize>)
    ensures
        match res {
            Some(index) => is_first_file_of(names@, era, index as int),
            None => !is_cached(names@, era),
        },
{
    let pattern = era_pattern(era);
    let mut i: usize = 0;
    while i < names.len()
        invariant
            i <= names@.len(),
            pattern@ == era_prefix(era),
            forall|j: int| 0 <= j < i ==> !is_file_of(#[trigger] names@[j]@, era),
        decreases names@.len() - i,
    {
        if starts_and_ends_with(names[i].as_str(), pattern.as_str(), ".era") {
            return Some(i);
        }
        i = i + 1;
    }
    None
}

/// Whether these are the eras that a range of slots needs, with those that follow it closely, and
/// that are not cached, in ascending order.
pub open spec fn are_needed(
    start_slot: u64,
    end_slot: u64,
    cached: Seq<String>,
    needed: Seq<u64>,
) -> bool {
    &&& forall|i: int, j: int| 0 <= i < j < needed.len() ==> needed[i] < needed[j]
    &&& forall|era: u64| #[trigger]
        needed.contains(era) <==> era_of(start_slot) <= era <= era_of(
            (end_slot + LOOKAHEAD_SLOTS) as u64,
        ) && !is_cached(cached, era)
}

/// Whether the file at a position is the first one of an era.
pub open spec fn is_first_file_of(names: Seq<String>, era: u64, index: int) -> bool {
    &&& 0 <= index < names.len()
    &&& is_file_of(names[index]@, era)
    &&& forall|i: int| 0 <= i < index ==> !is_file_of(#[trigger] names[i]@, era)
}

/// The file of an era, looked up in the index, or why there is none.
pub open spec fn looked_up(index: Option<Seq<IndexEntry>>, era: u64) -> Result<
    Seq<char>,
    EraFileError,
> {
    match index {
        None => Err(EraFileError::IndexNotLoaded),
        Some(entries) => if names_of(entries, era).len() == 0 {
            Err(EraFileError::NotFound { era })
        } else {
            Ok(names_of(entries, era)[0])
        },
    }
}

/// The address of a file below a base address.
pub open spec fn address_of(base: Seq<char>, name: Seq<char>) -> Seq<char> {
    base + "/"@ + name
}

/// What a downloader knows: where the files are had from, and the index, once it was read.
pub struct DownloaderState {
    pub base_url: Seq<char>,
    pub index: Option<Seq<IndexEntry>>,
}

/// Knows which ERA files there are, and where each is had from.
#[derive(Debug)]
pub struct EraDownloader {
    base_url: String,
    era_filenames: Option<Vec<(u64, String)>>,
}

impl View for EraDownloader {
    type V = DownloaderState;

    closed spec fn view(&self) -> DownloaderState {
        DownloaderState {
            base_url: self.base_url@,
            index: match self.era_filenames {
                Some(files) => Some(listing(files@)),
                None => None,
            },
        }
    }
}

impl EraDownloader {
    /// A downloader that has not read the index.
    pub fn new(url: &str) -> (res: EraDownloader)
        ensures
            res@ == (DownloaderState {
                base_url: crate::http::without_trailing_slashes(url@),
                index: None,
            }),
    {
        EraDownloader { base_url: base_url(url), era_filenames: None }
    }

    /// The eras that a range of slots needs and that are not cached yet, in ascending order.
    pub fn pre_download(&self, start_slot: u64, end_slot: u64, cached: &Vec<String>) -> (res: Vec<
        u64,
    >)
        requires
            end_slot + LOOKAHEAD_SLOTS <= u64::MAX,
        ensures
            are_needed(start_slot, end_slot, cached@, res@),
    {
        let first: u64 = era_number_for_slot(start_slot);
        let last: u64 = era_number_for_slot(end_slot + LOOKAHEAD_SLOTS);
        let mut needed: Vec<u64> = Vec::new();
        let mut era: u64 = first;
        while era <= last
            invariant
                last < u64::MAX,
                first <= era,
                era <= last || era == last + 1 || era == first,
                forall|i: int, j: int| 0 <= i < j < needed@.len() ==> needed@[i] < needed@[j],
                forall|n: u64| #[trigger]
                    needed@.contains(n) <==> first <= n < era && n <= last && !is_cached(
                        cached@,
                        n,
                    ),
            decreases last + 1 - era,
        {
            let ghost before = needed@;
            if find_cached_file(cached, era).is_none() {
                assert forall|i: int| 0 <= i < before.len() implies before[i] < era by {
                    assert(before.contains(before[i]));
                }
                needed.push(era);
                assert forall|n: u64| #[trigger] needed@.contains(n) <==> before.contains(n) || n
                    == era by {
                    if before.contains(n) {
                        let i = choose|i: int| 0 <= i < before.len() && before[i] == n;
                        assert(needed@[i] == n);
                    }
                    if n == era {
                        assert(needed@[before.len() as int] == n);
                    }
                }
            }
            era = era + 1;
        }
        needed
    }

    /// Whether the index page must be read before a file can be named.
    pub fn needs_index(&self) -> (res: bool)
        ensures
            res == (self@.index is None),
    {
        self.era_filenames.is_none()
    }

    /// Takes the index page. Its files are kept in the order of their eras, those of one era in
    /// the order of the page. Once an index was taken, no other takes its place.
    pub fn load_index(&mut self, page: &str)
        ensures
            final(self)@.base_url == old(self)@.base_url,
            old(self)@.index is Some ==> final(self)@.index == old(self)@.index,
            old(self)@.index is None ==> final(self)@.index is Some && sorted_by_era(
                page_entries(page@),
                final(self)@.index->0,
            ),
    {
        if self.era_filenames.is_some() {
            return;
        }
        let chars = chars_of(page);
        let files = sort_by_era(read_page(&chars));
        self.era_filenames = Some(files);
    }

    /// The file of an era: the first of its files in the index.
    pub fn filename_for_era(&self, era: u64) -> (res: Result<String, EraFileError>)
        ensures
            match res {
                Ok(name) => self@.index is Some && names_of(self@.index->0, era).len() > 0 && name@
                    == names_of(self@.index->0, era)[0],
                Err(EraFileError::IndexNotLoaded) => self@.index is None,
                Err(EraFileError::NotFound { era: missing }) => self@.index is Some && names_of(
                    self@.index->0,
                    era,
                ).len() == 0 && missing == era,
                Err(_) => false,
            },
            match res {
                Ok(name) => looked_up(self@.index, era) == Ok::<Seq<char>, EraFileError>(name@),
                Err(e) => looked_up(self@.index, era) == Err::<Seq<char>, EraFileError>(e),
            },
    {
        match &self.era_filenames {
            None => Err(EraFileError::IndexNotLoaded),
            Some(files) => {
                let ghost entries = listing(files@);
                let mut i: usize = 0;
                assert(entries.take(0) =~= Seq::<IndexEntry>::empty());
                while i < files.len()
                    invariant
                        i <= files@.len(),
                        entries == listing(files@),
                        self@.index == Some(entries),
                        names_of(entries.take(i as int), era).len() == 0,
                    decreases files@.len() - i,
                {
                    assert(entries.take(i + 1).drop_last() =~= entries.take(i as int));
                    if files[i].0 == era {
                        proof {
                            assert(entries =~= entries.take(i + 1) + entries.skip(i + 1));
                            lemma_names_of_concat(entries.take(i + 1), entries.skip(i + 1), era);
                        }
                        return Ok(files[i].1.clone());
                    }
                    i = i + 1;
                }
                assert(entries.take(i as int) =~= entries);
                Err(EraFileError::NotFound { era })
            },
        }
    }

    /// The file to download for an era: it lies below the base address.
    pub fn remote_file(&self, era: u64) -> (res: Result<RemoteFile, EraFileError>)
        ensures
            match res {
                Ok(file) => {
                    &&& self@.index is Some
                    &&& names_of(self@.index->0, era).len() > 0
                    &&& file.filename@ == names_of(self@.index->0, era)[0]
                    &&& file.url@ == address_of(self@.base_url, file.filename@)
                },
                Err(EraFileError::IndexNotLoaded) => self@.index is None,
                Err(EraFileError::NotFound { era: missing }) => self@.index is Some && names_of(
                    self@.index->0,
                    era,
                ).len() == 0 && missing == era,
                Err(_) => false,
            },
            match res {
                Ok(file) => looked_up(self@.index, era) == Ok::<Seq<char>, EraFileError>(
                    file.filename@,
                ),
                Err(e) => looked_up(self@.index, era) == Err::<Seq<char>, EraFileError>(e),
            },
    {
        match self.filename_for_era(era) {
            Ok(filename) => {
                let mut url = self.base_url.clone();
                url.append("/");
                url.append(filename.as_str());
                Ok(RemoteFile { filename, url })
            },
            Err(e) => Err(e),
        }
    }

    /// The cached file of an era: the first one of that era. Fails where none is cached.
    pub fn get_era(&self, era: u64, cached: &Vec<String>) -> (res: Result<usize, EraFileError>)
        ensures
            match res {
                Ok(index) => is_first_file_of(cached@, era, index as int),
                Err(e) => !is_cached(cached@, era) && e == (EraFileError::NotCached { era }),
            },
    {
        match find_cached_file(cached, era) {
            Some(index) => Ok(index),
            None => Err(EraFileError::NotCached { era }),
        }
    }

    /// The cached file of an era that was downloaded.
    pub fn downloaded(&self, era: u64, cached: &Vec<String>) -> (res: Result<usize, EraFileError>)
        ensures
            match res {
                Ok(index) => is_first_file_of(cached@, era, index as int),
                Err(e) => !is_cached(cached@, era) && e == (EraFileError::StillMissing { era }),
            },
    {
        match find_cached_file(cached, era) {
            Some(index) => Ok(index),
            None => Err(EraFileError::StillMissing { era }),
        }
    }
}

/// Every era that a range of slots needs, with those that follow it closely, is cached or is
/// named as one to download, whatever `pre_download` returned of the needed ones.
pub proof fn no_era_is_forgotten(
    start_slot: u64,
    end_slot: u64,
    cached: Seq<String>,
    needed: Seq<u64>,
    slot: u64,
)
    requires
        end_slot + 32 <= u64::MAX,
        are_needed(start_slot, end_slot, cached, needed),
        start_slot <= slot <= end_slot + 32,
    ensures
        is_cached(cached, era_of(slot) as u64) || needed.contains(era_of(slot) as u64),
{
    let era = era_of(slot) as u64;
    assert(era == era_of(slot));
    assert(needed.contains(era) || is_cached(cached, era));
}

/// The file of an era, looked up in the index, is the first one of that era on the page that
/// the index was read from.
pub proof fn first_on_the_page_is_taken(page: Seq<char>, index: Seq<IndexEntry>, era: u64)
    requires
        sorted_by_era(page_entries(page), index),
    ensures
        names_of(index, era) == names_of(page_entries(page), era),
        names_of(index, era).len() == 0 <==> forall|i: int|
            0 <= i < page_entries(page).len() ==> (#[trigger] page_entries(page)[i]).0 != era,
{
    let entries = page_entries(page);
    if names_of(entries, era).len() == 0 {
        assert forall|i: int| 0 <= i < entries.len() implies (#[trigger] entries[i]).0 != era by {
            lemma_named_if_listed(entries, i);
        }
    } else {
        if forall|i: int| 0 <= i < entries.len() ==> (#[trigger] entries[i]).0 != era {
            lemma_names_of_none(entries, era);
        }
    }
}

proof fn lemma_named_if_listed(entries: Seq<IndexEntry>, i: int)
    requires
        0 <= i < entries.len(),
    ensures
        names_of(entries, entries[i].0).len() > 0,
    decreases entries.len(),
{
    if i < entries.len() - 1 {
        lemma_named_if_listed(entries.drop_last(), i);
    }
}

/// A cached file that is taken for the one of an era holds that era's number in its name, so
/// that no file is taken for those of two eras.
pub proof fn cached_file_names_its_era(name: Seq<char>, era: u64)
    requires
        is_file_of(name, era),
    ensures
        u64_parsed(era_part(name)) == Some(era),
{
    let digits = padded_decimal(era as nat, 5);
    let mark = "mainnet-"@;
    let tail = name.skip(mark.len() as int);
    lemma_padded_value(era as nat, 5);
    assert("-"@.len() == 1 && "-"@[0] == '-') by {
        reveal_strlit("-");
    }
    let prefix = era_prefix(era);
    assert(prefix.len() == mark.len() + digits.len() + 1);
    assert(name.take(prefix.len() as int) == prefix);
    assert forall|i: int| 0 <= i < prefix.len() implies name[i] == prefix[i] by {
        assert(name.take(prefix.len() as int)[i] == name[i]);
    }
    assert forall|i: int| 0 <= i < digits.len() implies tail[i] == digits[i] by {
        assert(name[mark.len() + i] == prefix[mark.len() + i]);
    }
    assert(tail[digits.len() as int] == '-') by {
        let at = (mark.len() + digits.len()) as int;
        assert(name[at] == prefix[at]);
    }
    assert forall|k: int| 0 <= k < digits.len() implies !occurs_at(tail, "-"@, k) by {
        assert(is_digit(digits[k]));
        assert(tail.subrange(k, k + 1)[0] == tail[k]);
    }
    let end = digits.len() as int;
    assert(tail.subrange(end, end + 1) =~= "-"@);
    lemma_first_occurrence(tail, "-"@, end);
    assert(tail.take(end) =~= digits);
    assert(digits[0] != '+') by {
        assert(is_digit(digits[0]));
    }
}

/// Only eras are named that hold a slot of the range, or one of the 32 that follow it, and of
/// which no file is cached, each once and in ascending order.
pub proof fn only_missing_eras_are_needed(
    start_slot: u64,
    end_slot: u64,
    cached: Seq<String>,
    needed: Seq<u64>,
    at: int,
)
    requires
        start_slot <= end_slot + 32 <= u64::MAX,
        are_needed(start_slot, end_slot, cached, needed),
        0 <= at < needed.len(),
    ensures
        forall|i: int|
            0 <= i < cached.len() ==> !is_file_of((#[trigger] cached[i])@, needed[at]),
        exists|slot: u64|
            start_slot <= slot <= end_slot + 32 && #[trigger] era_of(slot) == needed[at],
        forall|i: int| at < i < needed.len() ==> needed[at] < needed[i],
{
    let era = needed[at];
    assert(needed.contains(era));
    let begins = 8192 * (era - 1);
    let slot = (if start_slot < begins {
        begins
    } else {
        start_slot as int
    }) as u64;
    assert(era_of(slot) == era);
}

/// The cached file that is taken for an era is the first that has its name; there is one just
/// where one is cached, and only one position is the first.
pub proof fn the_first_cached_file_is_taken(names: Seq<String>, era: u64, a: int, b: int)
    ensures
        is_first_file_of(names, era, a) ==> {
            &&& 0 <= a < names.len()
            &&& is_file_of(names[a]@, era)
            &&& forall|i: int| 0 <= i < a ==> !is_file_of(#[trigger] names[i]@, era)
            &&& is_cached(names, era)
        },
        is_first_file_of(names, era, a) && is_first_file_of(names, era, b) ==> a == b,
        is_cached(names, era) <==> exists|i: int|
            0 <= i < names.len() && is_file_of(#[trigger] names[i]@, era),
{
    if is_first_file_of(names, era, a) && is_first_file_of(names, era, b) {
        if a < b {
            assert(!is_file_of(names[a]@, era));
        } else if b < a {
            assert(!is_file_of(names[b]@, era));
        }
    }
}

/// A file whose name is made of the network's, the era's number with five digits at least, some
/// text and the suffix is taken for that era's.
pub proof fn files_are_known_by_their_names(era: u64, text: Seq<char>)
    ensures
        is_file_of(
            "mainnet-"@ + padded_decimal(era as nat, 5) + "-"@ + text + ".era"@,
            era,
        ),
{
    let name = "mainnet-"@ + padded_decimal(era as nat, 5) + "-"@ + text + ".era"@;
    let prefix = era_prefix(era);
    assert(name.take(prefix.len() as int) =~= prefix);
    assert(name.skip(name.len() - ".era"@.len()) =~= ".era"@);
}

/// A file that is not called after the network, or not with the suffix, is no era's.
pub proof fn other_files_are_no_eras(name: Seq<char>, era: u64)
    requires
        is_file_of(name, era),
    ensures
        occurs_at(name, "mainnet-"@, 0),
        occurs_at(name, ".era"@, name.len() - ".era"@.len()),
{
    let prefix = era_prefix(era);
    let n = "mainnet-"@.len() as int;
    assert(name.take(prefix.len() as int) == prefix);
    assert(name.subrange(0, n) =~= name.take(prefix.len() as int).subrange(0, n));
    assert(prefix.subrange(0, n) =~= "mainnet-"@);
    let end = name.len() - ".era"@.len();
    assert(name.subrange(end, end + ".era"@.len()) =~= name.skip(end));
}

/// The address of a file starts with the base address and ends with the file's name, and between
/// the two is one character, the same for all files: so two files below a base address have two
/// addresses.
pub proof fn files_lie_below_the_base_address(
    base: Seq<char>,
    name: Seq<char>,
    other_base: Seq<char>,
    other: Seq<char>,
)
    ensures
        starts_with(address_of(base, name), base),
        ends_with(address_of(base, name), name),
        address_of(base, name).len() == base.len() + 1 + name.len(),
        address_of(base, name)[base.len() as int] == '/',
        address_of(base, name) == address_of(base, other) ==> name == other,
        address_of(base, name) == address_of(other_base, name) ==> base == other_base,
{
    reveal_strlit("/");
    let url = address_of(base, name);
    assert(url.take(base.len() as int) =~= base);
    assert(url.skip(url.len() - name.len()) =~= name);
    assert(address_of(base, other).skip((base.len() + 1) as int) =~= other);
    assert(url.skip((base.len() + 1) as int) =~= name);
    assert(address_of(other_base, name).take(other_base.len() as int) =~= other_base);
}

/// The names of an era's files are those of the entries for the era, in their order.
pub proof fn names_are_those_of_the_era(entries: Seq<IndexEntry>, era: u64)
    ensures
        names_of(entries, era) == entries.filter(|entry: IndexEntry| entry.0 == era).map_values(
            |entry: IndexEntry| entry.1,
        ),
    decreases entries.len(),
{
    reveal(Seq::filter);
    let of_era = |entry: IndexEntry| entry.0 == era;
    let name = |entry: IndexEntry| entry.1;
    if entries.len() > 0 {
        names_are_those_of_the_era(entries.drop_last(), era);
        let rest = entries.drop_last().filter(of_era);
        if entries.last().0 == era {
            assert(rest.push(entries.last()).map_values(name) =~= rest.map_values(name).push(
                entries.last().1,
            ));
        }
    } else {
        assert(entries.filter(of_era).map_values(name) =~= Seq::<Seq<char>>::empty());
    }
}

/// An index that is sorted by era has its entries in the order of their eras, loses none of them
/// and adds none, and keeps those of one era in their order.
pub proof fn sorting_keeps_the_entries(entries: Seq<IndexEntry>, sorted: Seq<IndexEntry>, era: u64)
    requires
        sorted_by_era(entries, sorted),
    ensures
        sorted.len() == entries.len(),
        forall|i: int, j: int| 0 <= i < j < sorted.len() ==> sorted[i].0 <= sorted[j].0,
        sorted.filter(|entry: IndexEntry| entry.0 == era).map_values(|entry: IndexEntry| entry.1)
            == entries.filter(|entry: IndexEntry| entry.0 == era).map_values(
            |entry: IndexEntry| entry.1,
        ),
{
    names_are_those_of_the_era(entries, era);
    names_are_those_of_the_era(sorted, era);
    assert(names_of(sorted, era) == names_of(entries, era));
}

/// A line that names a file, and no other before it, is an entry: the era is the number in the
/// file's name, filled up with zeros to five digits, and the name is the file's own, without what
/// stands around it.
pub proof fn a_file_is_found_in_its_line(
    before: Seq<char>,
    era: u64,
    text: Seq<char>,
    after: Seq<char>,
)
    requires
        ({
            let name = "mainnet-"@ + padded_decimal(era as nat, 5) + "-"@ + text + ".era"@;
            &&& forall|k: int|
                0 <= k < before.len() ==> !occurs_at(before + name + after, "mainnet-"@, k)
            &&& forall|k: int|
                0 <= k < name.len() - ".era"@.len() ==> !occurs_at(name + after, ".era"@, k)
        }),
    ensures
        ({
            let name = "mainnet-"@ + padded_decimal(era as nat, 5) + "-"@ + text + ".era"@;
            entry_in_line(before + name + after) == Some((era, name))
        }),
{
    let name = "mainnet-"@ + padded_decimal(era as nat, 5) + "-"@ + text + ".era"@;
    let line = before + name + after;
    let mark = "mainnet-"@;
    let suffix = ".era"@;
    let start = before.len() as int;
    assert(line.subrange(start, start + mark.len()) =~= mark);
    lemma_first_occurrence(line, mark, start);
    let rest = line.skip(start);
    assert(rest =~= name + after);
    let end = name.len() - suffix.len();
    assert(rest.subrange(end, end + suffix.len()) =~= suffix);
    lemma_first_occurrence(rest, suffix, end);
    assert(rest.take(end + suffix.len()) =~= name);
    files_are_known_by_their_names(era, text);
    cached_file_names_its_era(name, era);
}

/// An entry is named in its line: its name stands there, starts with the network's and ends with
/// the suffix, and the number in it is that of the era. A line in which one of the two does not
/// stand is no entry.
pub proof fn an_entry_stands_in_its_line(line: Seq<char>)
    ensures
        match entry_in_line(line) {
            Some((era, name)) => {
                &&& exists|at: int| #[trigger] occurs_at(line, name, at)
                &&& occurs_at(name, "mainnet-"@, 0)
                &&& ends_with(name, ".era"@)
                &&& u64_parsed(era_part(name)) == Some(era)
            },
            None => true,
        },
        (forall|k: int| !occurs_at(line, "mainnet-"@, k)) ==> entry_in_line(line) is None,
        (forall|k: int| !occurs_at(line, ".era"@, k)) ==> entry_in_line(line) is None,
{
    let mark = "mainnet-"@;
    let suffix = ".era"@;
    a_search_finds_the_first_occurrence(line, mark);
    if first_occurrence(line, mark) is Some {
        let start = first_occurrence(line, mark)->0;
        let rest = line.skip(start);
        a_search_finds_the_first_occurrence(rest, suffix);
        assert(rest.subrange(0, mark.len() as int) =~= line.subrange(start, start + mark.len()));
        if first_occurrence(rest, suffix) is Some {
            let end = first_occurrence(rest, suffix)->0;
            assert(line.subrange(start + end, start + end + suffix.len()) =~= rest.subrange(
                end,
                end + suffix.len(),
            ));
            assert(occurs_at(line, suffix, start + end));
            let name = rest.take((end + suffix.len()) as int);
            lemma_suffix_follows_mark(rest, end);
            assert(line.subrange(start, start + name.len()) =~= name);
            assert(occurs_at(line, name, start));
            assert(name.subrange(0, mark.len() as int) =~= rest.subrange(0, mark.len() as int));
            assert(name.skip(name.len() - suffix.len()) =~= rest.subrange(
                end,
                end + suffix.len(),
            ));
        }
    }
}

proof fn lemma_line_ends(line: Seq<char>, rest: Seq<char>)
    requires
        forall|i: int| 0 <= i < line.len() ==> line[i] != '\n',
    ensures
        line_length(line) == line.len(),
        line_length(line + seq!['\n'] + rest) == line.len(),
    decreases line.len(),
{
    let page = line + seq!['\n'] + rest;
    if line.len() == 0 {
        assert(page[0] == '\n');
    } else {
        assert(page[0] == line[0]);
        lemma_line_ends(line.skip(1), rest);
        assert(page.skip(1) =~= line.skip(1) + seq!['\n'] + rest);
    }
}

/// A page is read line by line: what its first line names comes first, and what the other lines
/// name follows, in their order. A page without a line break is one line.
pub proof fn a_page_is_read_line_by_line(line: Seq<char>, rest: Seq<char>)
    requires
        forall|i: int| 0 <= i < line.len() ==> line[i] != '\n',
    ensures
        page_entries(line) == match entry_in_line(line) {
            Some(entry) => seq![entry],
            None => Seq::empty(),
        },
        page_entries(line + seq!['\n'] + rest) == page_entries(line) + page_entries(rest),
{
    lemma_line_ends(line, rest);
    let page = line + seq!['\n'] + rest;
    assert(line.take(line.len() as int) =~= line);
    assert(page.take(line.len() as int) =~= line);
    assert(page.skip((line.len() + 1) as int) =~= rest);
}

/// A list of files stands for their eras and names, in their order.
pub proof fn a_listing_stands_for_its_files(files: Seq<(u64, String)>)
    ensures
        listing(files).len() == files.len(),
        forall|i: int|
            0 <= i < files.len() ==> (#[trigger] listing(files)[i]).0 == files[i].0 && listing(
                files,
            )[i].1 == files[i].1@,
{
}

/// The number of an era stands in a file's name between the network's name and the next hyphen,
/// however many digits it has; where there is no other hyphen, it is all that follows.
pub proof fn the_number_stands_before_the_next_hyphen(number: Seq<char>, text: Seq<char>)
    requires
        forall|i: int| 0 <= i < number.len() ==> number[i] != '-',
    ensures
        era_part("mainnet-"@ + number + "-"@ + text) == number,
        era_part("mainnet-"@ + number) == number,
{
    let mark = "mainnet-"@;
    assert("-"@.len() == 1 && "-"@[0] == '-') by {
        reveal_strlit("-");
    }
    let tail = (mark + number + "-"@ + text).skip(mark.len() as int);
    assert(tail =~= number + "-"@ + text);
    let end = number.len() as int;
    assert forall|k: int| 0 <= k < end implies !occurs_at(tail, "-"@, k) by {
        assert(tail.subrange(k, k + 1)[0] == number[k]);
    }
    assert(tail.subrange(end, end + 1) =~= "-"@);
    lemma_first_occurrence(tail, "-"@, end);
    assert(tail.take(end) =~= number);
    let short = (mark + number).skip(mark.len() as int);
    assert(short =~= number);
    a_search_finds_the_first_occurrence(short, "-"@);
    if first_occurrence(short, "-"@) is Some {
        let at = first_occurrence(short, "-"@)->0;
        assert(short.subrange(at, at + 1)[0] == number[at]);
    }
}

/// The file of an era is the first of the index that is for the era; there is none just where no
/// entry is for it, or where there is no index, and what is said is which of the two.
pub proof fn the_first_file_of_an_era_is_taken(index: Option<Seq<IndexEntry>>, era: u64)
    ensures
        match looked_up(index, era) {
            Ok(name) => index is Some && exists|i: int|
                0 <= i < index->0.len() && #[trigger] index->0[i] == (era, name) && forall|j: int|
                    0 <= j < i ==> (#[trigger] index->0[j]).0 != era,
            Err(EraFileError::IndexNotLoaded) => index is None,
            Err(EraFileError::NotFound { era: missing }) => missing == era && index is Some
                && forall|i: int| 0 <= i < index->0.len() ==> (#[trigger] index->0[i]).0 != era,
            Err(_) => false,
        },
{
    if let Some(entries) = index {
        lemma_first_of_era(entries, era);
    }
}

proof fn lemma_first_of_era(entries: Seq<IndexEntry>, era: u64)
    ensures
        if names_of(entries, era).len() == 0 {
            forall|i: int| 0 <= i < entries.len() ==> (#[trigger] entries[i]).0 != era
        } else {
            exists|i: int|
                0 <= i < entries.len() && #[trigger] entries[i] == (era, names_of(entries, era)[0])
                    && forall|j: int| 0 <= j < i ==> (#[trigger] entries[j]).0 != era
        },
    decreases entries.len(),
{
    if entries.len() > 0 {
        let rest = entries.drop_last();
        lemma_first_of_era(rest, era);
        let last = entries.len() - 1;
        if names_of(rest, era).len() == 0 {
            assert forall|i: int| 0 <= i < last implies (#[trigger] entries[i]).0 != era by {
                assert(rest[i] == entries[i]);
            }
            if entries[last].0 == era {
                assert(entries[last] == (era, names_of(entries, era)[0]));
            }
        } else {
            let i = choose|i: int|
                0 <= i < rest.len() && #[trigger] rest[i] == (era, names_of(rest, era)[0])
                    && forall|j: int| 0 <= j < i ==> (#[trigger] rest[j]).0 != era;
            assert(entries[i] == (era, names_of(entries, era)[0]));
            assert forall|j: int| 0 <= j < i implies (#[trigger] entries[j]).0 != era by {
                assert(rest[j] == entries[j]);
            }
        }
    }
}

} // verus!
