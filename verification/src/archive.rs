//! Taking a file out of a gzipped tar archive.

use std::io::Read;

use flate2::read::GzDecoder;
use tar::Archive;

use vstd::prelude::*;

use crate::text;

verus! {

/// The entries of a gzipped tar archive, in order: the file name of each, if its
/// path has one, or why it cannot be read.
pub uninterp spec fn tgz_entries(bytes: Seq<u8>) -> Seq<Result<Option<Seq<char>>, Seq<char>>>;

/// What the entry of a gzipped tar archive at an index holds, or why it cannot be
/// read.
pub uninterp spec fn tgz_contents(bytes: Seq<u8>, index: int) -> Result<Seq<u8>, Seq<char>>;

/// What is known of an entry, by the texts.
pub open spec fn entry_view(e: Result<Option<String>, String>) -> Result<
    Option<Seq<char>>,
    Seq<char>,
> {
    match e {
        Ok(name) => Ok(text::held(name)),
        Err(why) => Err(why@),
    }
}

/// What is known of entries, by the texts.
pub open spec fn entry_views(v: Seq<Result<Option<String>, String>>) -> Seq<
    Result<Option<Seq<char>>, Seq<char>>,
> {
    Seq::new(v.len(), |i: int| entry_view(v[i]))
}

/// `Archive::entries` over `GzDecoder`, with `Entry::path` and `Path::file_name`
/// for each entry: the result depends on the bytes alone. On an archive that
/// nothing was read from, `entries` does not fail, and the entries end with one
/// whose header cannot be read. On Unix every path can be read; on Windows one
/// that is no Unicode cannot, and entries may follow it. Characters of a name
/// that are no Unicode are replaced. A sparse file that declares almost 2^64
/// bytes overflows the position that `tar` keeps; no archive holds so much.
#[verifier::external_body]
fn list_entries(bytes: &[u8]) -> (r: Vec<Result<Option<String>, String>>)
    ensures
        entry_views(r@) == tgz_entries(bytes@),
{
    let mut archive = Archive::new(GzDecoder::new(bytes));
    let entries = archive.entries().into_iter().flatten();
    let names = entries.map(|entry| {
        let entry = entry.map_err(|e| e.to_string())?;
        let path = entry.path().map_err(|e| e.to_string())?;
        Ok(path.file_name().map(|name| name.to_string_lossy().into_owned()))
    });
    names.collect()
}

/// `Archive::entries` over `GzDecoder`, and `Entry::read_to_end` on the entry at
/// an index: the result depends on the bytes and the index alone.
#[verifier::external_body]
fn read_contents(bytes: &[u8], index: usize) -> (r: Result<Vec<u8>, String>)
    requires
        index < tgz_entries(bytes@).len(),
        tgz_entries(bytes@)[index as int] is Ok,
    ensures
        match r {
            Ok(data) => tgz_contents(bytes@, index as int) == Ok::<Seq<u8>, Seq<char>>(data@),
            Err(why) => tgz_contents(bytes@, index as int) == Err::<Seq<u8>, Seq<char>>(why@),
        },
{
    let mut archive = Archive::new(GzDecoder::new(bytes));
    let mut entries = archive.entries().map_err(|e| e.to_string())?;
    let entry = entries.nth(index).transpose().map_err(|e| e.to_string())?;
    let mut data = Vec::new();
    let read = entry.map(|mut entry| entry.read_to_end(&mut data)).transpose();
    read.map_err(|e| e.to_string())?;
    Ok(data)
}

/// Why a file could not be taken out of an archive.
pub enum ExtractError {
    /// An entry in front of it cannot be read, for the given reason.
    Entry(String),
    /// What it holds cannot be read, for the given reason.
    Contents(String),
    /// There is no such file.
    Missing,
}

/// Why a file could not be taken out of an archive, by the texts.
pub enum ExtractFailure {
    Entry(Seq<char>),
    Contents(Seq<char>),
    Missing,
}

impl View for ExtractError {
    type V = ExtractFailure;

    open spec fn view(&self) -> ExtractFailure {
        match *self {
            ExtractError::Entry(why) => ExtractFailure::Entry(why@),
            ExtractError::Contents(why) => ExtractFailure::Contents(why@),
            ExtractError::Missing => ExtractFailure::Missing,
        }
    }
}

/// Where the first entry with a file name stands, from `at` on, unless one that
/// cannot be read comes before it.
pub open spec fn first_named(
    entries: Seq<Result<Option<Seq<char>>, Seq<char>>>,
    wanted: Seq<char>,
    at: int,
) -> Result<int, ExtractFailure>
    decreases entries.len() - at,
{
    if at >= entries.len() {
        Err(ExtractFailure::Missing)
    } else {
        match entries[at] {
            Err(why) => Err(ExtractFailure::Entry(why)),
            Ok(name) => if name == Some(wanted) {
                Ok(at)
            } else {
                first_named(entries, wanted, at + 1)
            },
        }
    }
}

/// What is taken out of an archive.
pub open spec fn extracted(bytes: Seq<u8>, wanted: Seq<char>) -> Result<Seq<u8>, ExtractFailure> {
    match first_named(tgz_entries(bytes), wanted, 0) {
        Ok(i) => match tgz_contents(bytes, i) {
            Ok(data) => Ok(data),
            Err(why) => Err(ExtractFailure::Contents(why)),
        },
        Err(e) => Err(e),
    }
}

/// Finds the first entry with a file name.
pub fn find_entry(entries: &Vec<Result<Option<String>, String>>, wanted: &str) -> (r: Result<
    usize,
    ExtractError,
>)
    ensures
        match r {
            Ok(i) => i < entries@.len() && entry_views(entries@)[i as int] is Ok && first_named(
                entry_views(entries@),
                wanted@,
                0,
            ) == Ok::<int, ExtractFailure>(i as int),
            Err(e) => first_named(entry_views(entries@), wanted@, 0) == Err::<int, ExtractFailure>(
                e@,
            ),
        },
{
    let ghost all = entry_views(entries@);
    let mut i: usize = 0;
    while i < entries.len()
        invariant
            all == entry_views(entries@),
            i <= entries@.len(),
            first_named(all, wanted@, 0) == first_named(all, wanted@, i as int),
        decreases entries@.len() - i,
    {
        assert(all[i as int] == entry_view(entries@[i as int]));
        match &entries[i] {
            Err(why) => {
                return Err(ExtractError::Entry(why.as_str().to_string()));
            },
            Ok(Some(name)) => {
                if text::same(name.as_str(), wanted) {
                    return Ok(i);
                }
            },
            Ok(None) => {},
        }
        i = i + 1;
    }
    Err(ExtractError::Missing)
}

/// Takes the first file with a name out of a gzipped tar archive.
pub fn extract_file(bytes: &[u8], wanted: &str) -> (r: Result<Vec<u8>, ExtractError>)
    ensures
        match r {
            Ok(data) => extracted(bytes@, wanted@) == Ok::<Seq<u8>, ExtractFailure>(data@),
            Err(e) => extracted(bytes@, wanted@) == Err::<Seq<u8>, ExtractFailure>(e@),
        },
{
    let entries = list_entries(bytes);
    match find_entry(&entries, wanted) {
        Ok(i) => match read_contents(bytes, i) {
            Ok(data) => Ok(data),
            Err(why) => Err(ExtractError::Contents(why)),
        },
        Err(e) => Err(e),
    }
}

proof fn lemma_first_named(
    entries: Seq<Result<Option<Seq<char>>, Seq<char>>>,
    wanted: Seq<char>,
    at: int,
)
    requires
        0 <= at,
    ensures
        match first_named(entries, wanted, at) {
            Ok(i) => {
                &&& at <= i < entries.len()
                &&& entries[i] == Ok::<Option<Seq<char>>, Seq<char>>(Some(wanted))
                &&& forall|k: int|
                    at <= k < i ==> #[trigger] entries[k] is Ok && entries[k]->Ok_0 != Some(wanted)
            },
            Err(ExtractFailure::Missing) => forall|k: int|
                at <= k < entries.len() ==> #[trigger] entries[k] is Ok && entries[k]->Ok_0 != Some(
                    wanted,
                ),
            Err(_) => true,
        },
    decreases entries.len() - at,
{
    if at < entries.len() && entries[at] is Ok && entries[at]->Ok_0 != Some(wanted) {
        lemma_first_named(entries, wanted, at + 1);
    }
}

/// The file that is taken out has the name that was asked for, and no entry in
/// front of it has; where none is found, there is none.
pub proof fn first_file_of_the_name(
    entries: Seq<Result<Option<Seq<char>>, Seq<char>>>,
    wanted: Seq<char>,
)
    ensures
        match first_named(entries, wanted, 0) {
            Ok(i) => {
                &&& 0 <= i < entries.len()
                &&& entries[i] == Ok::<Option<Seq<char>>, Seq<char>>(Some(wanted))
                &&& forall|k: int|
                    0 <= k < i ==> #[trigger] entries[k] is Ok && entries[k]->Ok_0 != Some(wanted)
            },
            Err(ExtractFailure::Missing) => forall|k: int|
                0 <= k < entries.len() ==> #[trigger] entries[k] is Ok && entries[k]->Ok_0 != Some(
                    wanted,
                ),
            Err(_) => true,
        },
{
    lemma_first_named(entries, wanted, 0);
}

/// What is taken out of an archive is what the first file with the name holds. An entry that
/// cannot be read stops the search only where it comes first.
pub proof fn taken_file_is_the_named_one(bytes: Seq<u8>, wanted: Seq<char>)
    ensures
        extracted(bytes, wanted) matches Ok(data) ==> exists|i: int|
            {
                &&& 0 <= i < tgz_entries(bytes).len()
                &&& #[trigger] tgz_entries(bytes)[i] == Ok::<Option<Seq<char>>, Seq<char>>(
                    Some(wanted),
                )
                &&& tgz_contents(bytes, i) == Ok::<Seq<u8>, Seq<char>>(data)
                &&& forall|k: int|
                    0 <= k < i ==> #[trigger] tgz_entries(bytes)[k] is Ok && tgz_entries(
                        bytes,
                    )[k]->Ok_0 != Some(wanted)
            },
        extracted(bytes, wanted) matches Err(ExtractFailure::Entry(why)) ==> exists|i: int|
            {
                &&& 0 <= i < tgz_entries(bytes).len()
                &&& #[trigger] tgz_entries(bytes)[i] == Err::<Option<Seq<char>>, Seq<char>>(why)
                &&& forall|k: int|
                    0 <= k < i ==> #[trigger] tgz_entries(bytes)[k] is Ok && tgz_entries(
                        bytes,
                    )[k]->Ok_0 != Some(wanted)
            },
{
    let entries = tgz_entries(bytes);
    lemma_first_named(entries, wanted, 0);
    lemma_unreadable(entries, wanted, 0);
    if let Ok(i) = first_named(entries, wanted, 0) {
        assert(entries[i] == Ok::<Option<Seq<char>>, Seq<char>>(Some(wanted)));
    }
}

proof fn lemma_unreadable(
    entries: Seq<Result<Option<Seq<char>>, Seq<char>>>,
    wanted: Seq<char>,
    at: int,
)
    requires
        0 <= at,
    ensures
        first_named(entries, wanted, at) matches Err(ExtractFailure::Entry(why)) ==> exists|i: int|
            {
                &&& at <= i < entries.len()
                &&& #[trigger] entries[i] == Err::<Option<Seq<char>>, Seq<char>>(why)
                &&& forall|k: int|
                    at <= k < i ==> #[trigger] entries[k] is Ok && entries[k]->Ok_0 != Some(wanted)
            },
        !(first_named(entries, wanted, at) matches Err(ExtractFailure::Contents(_))),
    decreases entries.len() - at,
{
    if at < entries.len() {
        if entries[at] is Ok && entries[at]->Ok_0 != Some(wanted) {
            lemma_unreadable(entries, wanted, at + 1);
            if let Err(ExtractFailure::Entry(why)) = first_named(entries, wanted, at + 1) {
                let i = choose|i: int|
                    {
                        &&& at + 1 <= i < entries.len()
                        &&& #[trigger] entries[i] == Err::<Option<Seq<char>>, Seq<char>>(why)
                        &&& forall|k: int|
                            at + 1 <= k < i ==> #[trigger] entries[k] is Ok && entries[k]->Ok_0
                                != Some(wanted)
                    };
                assert(entries[i] == Err::<Option<Seq<char>>, Seq<char>>(why));
            }
        }
    }
}

} // verus!
